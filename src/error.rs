//! Errors reported by the log.
use vstd::prelude::*;

verus! {

/// Why an operation on the log failed.
#[derive(Clone, Copy, Debug, PartialEq, Eq, Structural)]
pub enum FsError {
    /// A payload could not be serialized.
    EncodeError,
    /// Stored bytes do not parse as the expected record.
    DecodeError,
    /// A payload exceeds the capacity of its zone.
    PayloadTooLarge,
    /// An identifier names no written index record.
    RecordNotFound,
}

impl FsError {
    /// A short description of the error.
    pub fn message(&self) -> (r: String) {
        match self {
            FsError::EncodeError => String::from_str("failed to serialize"),
            FsError::DecodeError => String::from_str("failed to deserialize"),
            FsError::PayloadTooLarge => String::from_str("payload is too large"),
            FsError::RecordNotFound => String::from_str("record not found"),
        }
    }
}

} // verus!
