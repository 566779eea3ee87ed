//! A fixed-layout binary codec.
//!
//! Records whose fields have fixed-width integer types are converted to and
//! from a deterministic wire form: fields packed edge to edge in declared
//! order, each integer in big-endian byte order at its full declared width,
//! with bytes after the last field tolerated and ignored on decode.

use vstd::prelude::*;

pub mod codec;
pub mod config;
pub mod fields;
pub mod records;

verus! {

/// An error that occurred during a deserialize operation.
///
/// This happens when the input buffer is too short for the record's
/// declared field layout.
#[derive(Debug, Clone, Copy, PartialEq, Eq, Structural)]
pub struct DeserializeError;

/// An error that occurred during a serialize operation.
///
/// This happens when the destination is a fixed-size region too small to
/// hold the record's wire form.
#[derive(Debug, Clone, Copy, PartialEq, Eq, Structural)]
pub struct SerializeError;

impl DeserializeError {
    /// A human-readable description of the error.
    pub fn message(&self) -> (m: &'static str)
        ensures
            m@ == "deserialize error"@,
    {
        "deserialize error"
    }
}

impl SerializeError {
    /// A human-readable description of the error.
    pub fn message(&self) -> (m: &'static str)
        ensures
            m@ == "serialize error"@,
    {
        "serialize error"
    }
}

} // verus!

