//! Building blocks for non-blocking I/O on POSIX systems: a
//! single-producer / single-consumer byte ring whose backing store behaves
//! like a doubly-mapped region, and readiness selectors over the kernel's
//! event-notification interfaces.

use vstd::prelude::*;

pub mod buffer;
pub mod event;
pub mod poll;
pub mod selector;
pub mod sys;

pub use event::EventSet;
pub use selector::select::Iter;
pub use selector::{Fired, IterFired, Selector};

verus! {

/// An error surfaced by this library: either a raw OS `errno` value, carried
/// verbatim from a failed system call, or exhaustion of the retry budget while
/// generating a fresh shared-memory name.
#[derive(Clone, Copy, PartialEq, Eq, Structural, Debug)]
pub enum SysError {
    Os(i32),
    ExhaustedNames,
}

impl SysError {
    /// A short human-readable description of the error.
    pub fn message(&self) -> &'static str {
        match self {
            SysError::Os(_) => "system call failed",
            SysError::ExhaustedNames => "exceeded maximum number of retries",
        }
    }
}

} // verus!
