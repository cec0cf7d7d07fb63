//! How a query can fail.

use vstd::prelude::*;

verus! {

/// Why a query gave no answer.
#[derive(Debug, Clone, Copy, PartialEq, Eq, Structural)]
pub enum Error {
    /// The index could not be read where the query had to read it.
    IoFailure,
    /// No package, or no release, answers the query.
    NotFound,
    /// A line of a metadata file, or the version of a release, is not valid.
    DecodeFailure,
}

impl Error {
    /// A short description of the failure.
    pub fn message(&self) -> (out: &'static str)
        ensures
            out@ == match *self {
                Error::IoFailure => "unable to read the index"@,
                Error::NotFound => "no match in the index"@,
                Error::DecodeFailure => "invalid metadata"@,
            },
    {
        match self {
            Error::IoFailure => "unable to read the index",
            Error::NotFound => "no match in the index",
            Error::DecodeFailure => "invalid metadata",
        }
    }
}

} // verus!
