use crate::error::Error;
use vstd::prelude::*;

verus! {

/// The sort (type) of an expression.
#[derive(Debug, PartialEq, Eq)]
pub enum Sort {
    Bool,
    BitVector(usize),
    Array { range: Box<Sort>, domain: Box<Sort> },
    Memory,
    Predictor,
    Cache,
    BranchTargetBuffer,
    PatternHistoryTable,
}

/// The width of a machine word in bits.
pub const WORD_SIZE: usize = 64;

impl Clone for Sort {
    fn clone(&self) -> (r: Self)
        ensures
            r == *self,
        decreases self,
    {
        match self {
            Sort::Bool => Sort::Bool,
            Sort::BitVector(width) => Sort::BitVector(*width),
            Sort::Array { range, domain } => Sort::Array {
                range: Box::new((**range).clone()),
                domain: Box::new((**domain).clone()),
            },
            Sort::Memory => Sort::Memory,
            Sort::Predictor => Sort::Predictor,
            Sort::Cache => Sort::Cache,
            Sort::BranchTargetBuffer => Sort::BranchTargetBuffer,
            Sort::PatternHistoryTable => Sort::PatternHistoryTable,
        }
    }
}

impl Sort {
    /// The sort `Bool`.
    pub fn boolean() -> (r: Self)
        ensures
            r == Sort::Bool,
    {
        Sort::Bool
    }

    /// The sort of bit vectors of the given width.
    pub fn bit_vector(width: usize) -> (r: Self)
        ensures
            r == Sort::BitVector(width),
    {
        Sort::BitVector(width)
    }

    /// The sort of machine words.
    pub fn word() -> (r: Self)
        ensures
            r == Sort::BitVector(WORD_SIZE),
    {
        Sort::BitVector(WORD_SIZE)
    }

    /// The sort of arrays from `range` (index sort) to `domain` (element sort).
    pub fn array(range: &Sort, domain: &Sort) -> (r: Self)
        ensures
            r == (Sort::Array { range: Box::new(*range), domain: Box::new(*domain) }),
    {
        Sort::Array { range: Box::new(range.clone()), domain: Box::new(domain.clone()) }
    }

    /// The sort of memory.
    pub fn memory() -> (r: Self)
        ensures
            r == Sort::Memory,
    {
        Sort::Memory
    }

    /// Structural equality of sorts.
    pub fn equals(&self, other: &Sort) -> (r: bool)
        ensures
            r == (*self == *other),
        decreases self,
    {
        match (self, other) {
            (Sort::Bool, Sort::Bool) => true,
            (Sort::BitVector(a), Sort::BitVector(b)) => *a == *b,
            (Sort::Array { range: r1, domain: d1 }, Sort::Array { range: r2, domain: d2 }) => {
                (**r1).equals(&**r2) && (**d1).equals(&**d2)
            },
            (Sort::Memory, Sort::Memory) => true,
            (Sort::Predictor, Sort::Predictor) => true,
            (Sort::Cache, Sort::Cache) => true,
            (Sort::BranchTargetBuffer, Sort::BranchTargetBuffer) => true,
            (Sort::PatternHistoryTable, Sort::PatternHistoryTable) => true,
            _ => false,
        }
    }

    pub fn is_bool(&self) -> (r: bool)
        ensures
            r == (*self is Bool),
    {
        match self {
            Sort::Bool => true,
            _ => false,
        }
    }

    pub fn is_bit_vector(&self) -> (r: bool)
        ensures
            r == (*self is BitVector),
    {
        match self {
            Sort::BitVector(..) => true,
            _ => false,
        }
    }

    pub fn is_array(&self) -> (r: bool)
        ensures
            r == (*self is Array),
    {
        match self {
            Sort::Array { .. } => true,
            _ => false,
        }
    }

    pub fn is_memory(&self) -> (r: bool)
        ensures
            r == (*self is Memory),
    {
        match self {
            Sort::Memory => true,
            _ => false,
        }
    }

    /// Succeeds exactly when the sort is `Bool`.
    pub fn expect_bool(&self) -> (r: Result<(), Error>)
        ensures
            r is Ok <==> *self is Bool,
            r is Err ==> r == Err::<(), Error>(Error::ExpectedBool(*self)),
    {
        if self.is_bool() {
            Ok(())
        } else {
            Err(Error::ExpectedBool(self.clone()))
        }
    }

    /// Succeeds exactly when the sort is a bit-vector sort.
    pub fn expect_bit_vector(&self) -> (r: Result<(), Error>)
        ensures
            r is Ok <==> *self is BitVector,
            r is Err ==> r == Err::<(), Error>(Error::ExpectedBitVector(*self)),
    {
        if self.is_bit_vector() {
            Ok(())
        } else {
            Err(Error::ExpectedBitVector(self.clone()))
        }
    }

    /// Succeeds exactly when the sort is an array sort.
    pub fn expect_array(&self) -> (r: Result<(), Error>)
        ensures
            r is Ok <==> *self is Array,
            r is Err ==> r == Err::<(), Error>(Error::ExpectedArray(*self)),
    {
        if self.is_array() {
            Ok(())
        } else {
            Err(Error::ExpectedArray(self.clone()))
        }
    }

    /// Succeeds exactly when the sort is the memory sort.
    pub fn expect_memory(&self) -> (r: Result<(), Error>)
        ensures
            r is Ok <==> *self is Memory,
            r is Err ==> r == Err::<(), Error>(Error::ExpectedMemory(*self)),
    {
        if self.is_memory() {
            Ok(())
        } else {
            Err(Error::ExpectedMemory(self.clone()))
        }
    }

    /// Succeeds exactly when this sort equals `sort`.
    pub fn expect_sort(&self, sort: &Sort) -> (r: Result<(), Error>)
        ensures
            r is Ok <==> *self == *sort,
            r is Err ==> r == Err::<(), Error>(
                Error::ExpectedSort { expected: *sort, actual: *self },
            ),
    {
        if self.equals(sort) {
            Ok(())
        } else {
            Err(Error::ExpectedSort { expected: sort.clone(), actual: self.clone() })
        }
    }

    /// The width of a bit-vector sort.
    pub fn unwrap_bit_vector(&self) -> (r: usize)
        requires
            *self is BitVector,
        ensures
            *self == Sort::BitVector(r),
    {
        match self {
            Sort::BitVector(width) => *width,
            _ => 0,
        }
    }

    /// The index sort (range) and the element sort (domain) of an array sort.
    pub fn unwrap_array(&self) -> (r: (&Sort, &Sort))
        requires
            *self is Array,
        ensures
            *self == (Sort::Array { range: Box::new(*r.0), domain: Box::new(*r.1) }),
    {
        match self {
            Sort::Array { range, domain } => (&**range, &**domain),
            _ => (self, self),
        }
    }
}

} // verus!
