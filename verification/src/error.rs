//! The library's own error kinds.

use vstd::prelude::*;

verus! {

/// What can go wrong while building a frame: the structured-serialization
/// strategy is the one fallible encoding step.
#[derive(Debug)]
pub enum Error {
    /// A single element could not be binary-encoded; the text describes why.
    Encode(String),
}

impl Error {
    /// A human-readable description of the error.
    pub fn message(&self) -> (r: String)
        ensures
            self matches Error::Encode(m) ==> r@ == m@,
    {
        match self {
            Error::Encode(m) => m.clone(),
        }
    }
}

} // verus!
