//! The error of the host-side library.
use vstd::prelude::*;

verus! {

#[derive(Debug, Clone, Copy, PartialEq, Eq)]
pub enum Error {
    /// For simplicity, this POC uses a generic error
    Generic,
}

impl Error {
    /// The text shown for the error.
    pub fn message(&self) -> (r: String)
        ensures
            r@ == "An unexpected error occurred"@,
    {
        match self {
            Error::Generic => "An unexpected error occurred".to_owned(),
        }
    }
}

} // verus!
