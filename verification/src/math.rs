//! Small helpers for encoding numbers and for handling absent values.

pub mod le_bytes;
pub mod safe_unwrap;
