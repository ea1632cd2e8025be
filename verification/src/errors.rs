//! The error taxonomy of a conversion run.
use vstd::prelude::*;

verus! {

/// Everything that can end a conversion early. Path and write failures
/// belong to the surrounding I/O layer, not to this library.
#[derive(Clone, Copy, PartialEq, Eq, Structural, Debug)]
pub enum ConvertError {
    /// The stream's interface version differs from the compiled-in one.
    VersionMismatch { expected: u64, actual: u64 },
    /// The stream ended before even the version tag was complete.
    ShortRead,
    /// The stream ended in the middle of a record: some, but not all, of a
    /// record's bytes were present after the last complete record.
    Truncated,
    /// The schema violates its own invariant (an empty composite, an empty
    /// or separator-bearing field name, or duplicate sibling names), so no
    /// usable header can be generated from it.
    HeaderGenerationFailure,
    /// The compressed input envelope could not be decoded.
    Decompression,
}

impl ConvertError {
    /// A short human-readable name for this failure kind.
    pub fn describe(&self) -> (s: &'static str)
        ensures
            s@ == match *self {
                ConvertError::VersionMismatch { .. } => "version mismatch"@,
                ConvertError::ShortRead => "short read"@,
                ConvertError::Truncated => "truncated record"@,
                ConvertError::HeaderGenerationFailure => "header generation failure"@,
                ConvertError::Decompression => "decompression failure"@,
            },
    {
        match self {
            ConvertError::VersionMismatch { .. } => "version mismatch",
            ConvertError::ShortRead => "short read",
            ConvertError::Truncated => "truncated record",
            ConvertError::HeaderGenerationFailure => "header generation failure",
            ConvertError::Decompression => "decompression failure",
        }
    }
}

} // verus!
