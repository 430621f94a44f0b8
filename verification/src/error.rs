//! The two ways in which an operation on a bounded collection fails.

use vstd::prelude::*;

verus! {

/// Returned by a removal from a collection that holds nothing.
#[derive(Debug)]
pub struct EmptyCollectionError;

/// Returned by an insertion into a collection that has no free slot left.
#[derive(Debug)]
pub struct FullCollectionError;

impl EmptyCollectionError {
    /// The text under which the error is shown.
    pub fn to_string(&self) -> (text: String)
        ensures
            text@ == "EmptyCollectionError"@,
    {
        "EmptyCollectionError".to_owned()
    }
}

impl FullCollectionError {
    /// The text under which the error is shown.
    pub fn to_string(&self) -> (text: String)
        ensures
            text@ == "FullCollectionError"@,
    {
        "FullCollectionError".to_owned()
    }
}

} // verus!
