//! The error kinds the library's operations report.

use vstd::prelude::*;

verus! {

/// What went wrong in a manifest operation.
///
/// `NotFound` is reported by `grab` when the target path does not resolve;
/// `InvalidPath` when a resolved path lacks a usable file name or is not
/// representable as text; `Serialization` when a manifest document is
/// malformed or does not match the expected entry shape. Read and write
/// failures on the manifest file itself happen outside the library and are
/// reported by the caller.
#[derive(Debug, Clone, Copy, PartialEq, Eq, Structural)]
pub enum CrabError {
    NotFound,
    InvalidPath,
    Serialization,
}

impl CrabError {
    /// A short description for display by the caller.
    pub fn message(&self) -> (r: &'static str)
        ensures
            r@ == self.spec_message(),
    {
        match self {
            CrabError::NotFound => "target path does not exist",
            CrabError::InvalidPath => "path has no usable file name or is not valid text",
            CrabError::Serialization => "manifest document is malformed",
        }
    }

    pub open spec fn spec_message(&self) -> Seq<char> {
        match self {
            CrabError::NotFound => "target path does not exist"@,
            CrabError::InvalidPath => "path has no usable file name or is not valid text"@,
            CrabError::Serialization => "manifest document is malformed"@,
        }
    }
}

} // verus!
