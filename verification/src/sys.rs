//! Low-level kernel data structures modelled bit for bit.

pub mod select;
