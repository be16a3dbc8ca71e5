//! Errors for the standalone element API.

use vstd::prelude::*;

verus! {

/// Why an element could not be turned into plain text.
#[derive(Debug)]
pub enum Error {
    /// A wrapped input/output failure, as a description.
    IOError(String),
    /// The named pattern could not be found.
    BadPattern(String),
    /// A required element was still unfilled when text was demanded.
    UnusedRequire(String),
}

/// Mathematical image of `Error`.
pub enum ErrorV {
    IOError(Seq<char>),
    BadPattern(Seq<char>),
    UnusedRequire(Seq<char>),
}

impl View for Error {
    type V = ErrorV;

    open spec fn view(&self) -> ErrorV {
        match self {
            Error::IOError(s) => ErrorV::IOError(s@),
            Error::BadPattern(s) => ErrorV::BadPattern(s@),
            Error::UnusedRequire(s) => ErrorV::UnusedRequire(s@),
        }
    }
}

} // verus!
