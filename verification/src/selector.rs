//! Readiness selectors: a uniform facade over the kernel's
//! event-notification interfaces.
//!
//! The primary backend rides on `epoll`; a portable fallback rides on
//! `select`. Both expose the same shape: register a descriptor with an
//! event mask, poll, and walk the fired events.

pub mod epoll;
pub mod select;

pub use epoll::{Fired, IterFired, Selector};
