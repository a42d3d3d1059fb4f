use crate::error::Error;
use vstd::prelude::*;

verus! {

/// The sort of an expression of the structured representation.
#[derive(Clone, Copy, Debug, PartialEq, Eq, Structural)]
pub enum Sort {
    Bool,
    BitVector(usize),
    Memory,
}

impl Sort {
    /// Fails unless the sort is `Bool`.
    pub fn expect_bool(&self) -> (r: Result<(), Error>)
        ensures
            r is Ok <==> *self is Bool,
            r is Err ==> r == Err::<(), Error>(Error::SortMismatch),
    {
        match self {
            Sort::Bool => Ok(()),
            _ => Err(Error::SortMismatch),
        }
    }

    /// Fails unless the sort is `other`.
    pub fn expect_sort(&self, other: &Sort) -> (r: Result<(), Error>)
        ensures
            r is Ok <==> *self == *other,
            r is Err ==> r == Err::<(), Error>(Error::SortMismatch),
    {
        if *self == *other {
            Ok(())
        } else {
            Err(Error::SortMismatch)
        }
    }
}

} // verus!
