//! The single-producer / single-consumer byte ring and its supporting
//! shared-memory helpers.

pub mod map;

pub mod sync;
