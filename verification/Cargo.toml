[package]
name = "rivet"
version = "0.1.0"
edition = "2021"
publish = false

[dependencies]
nix = "0.26"
rand = "0.8"
libc = "0.2"
