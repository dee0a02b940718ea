//! The error taxonomy shared by parsing and extraction.

use vstd::prelude::*;

verus! {

/// An error produced while parsing an archive or extracting an entry.
///
/// Parse errors are archive-fatal: no partial archive is ever produced.
/// Extraction errors are entry-scoped and leave the archive untouched.
/// Each variant carries a human-readable context message.
#[derive(Debug)]
pub enum TESError {
    /// Magic bytes, a version tag, or a required binary sentinel did not match.
    StructuralParseError(String),
    /// Fewer bytes were available than a fixed-size field or table required.
    ShortRead(String),
    /// A requested entry key has no corresponding record.
    NotFound(String),
    /// A recognized but unimplemented on-disk combination.
    UnsupportedFeature(String),
    /// The selected codec could not decode an entry's compressed payload.
    DecompressionError(String),
}

/// The payload-free shape of a [`TESError`], used by specifications to state
/// exactly which error a function returns on which input.
pub enum ErrorKind {
    StructuralParse,
    ShortRead,
    NotFound,
    Unsupported,
    Decompression,
}

impl TESError {
    /// Which [`ErrorKind`] this error belongs to.
    pub open spec fn kind(&self) -> ErrorKind {
        match self {
            TESError::StructuralParseError(_) => ErrorKind::StructuralParse,
            TESError::ShortRead(_) => ErrorKind::ShortRead,
            TESError::NotFound(_) => ErrorKind::NotFound,
            TESError::UnsupportedFeature(_) => ErrorKind::Unsupported,
            TESError::DecompressionError(_) => ErrorKind::Decompression,
        }
    }

    /// The context message carried by this error.
    pub fn message(&self) -> (r: &String)
        ensures
            r == self.spec_message(),
    {
        match self {
            TESError::StructuralParseError(m) => m,
            TESError::ShortRead(m) => m,
            TESError::NotFound(m) => m,
            TESError::UnsupportedFeature(m) => m,
            TESError::DecompressionError(m) => m,
        }
    }

    /// The context message, at the specification level.
    pub open spec fn spec_message(&self) -> String {
        match self {
            TESError::StructuralParseError(m) => *m,
            TESError::ShortRead(m) => *m,
            TESError::NotFound(m) => *m,
            TESError::UnsupportedFeature(m) => *m,
            TESError::DecompressionError(m) => *m,
        }
    }
}

} // verus!
