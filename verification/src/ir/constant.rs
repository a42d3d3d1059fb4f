use crate::ir::Sort;
use crate::lir::BitVectorValue;
use vstd::prelude::*;

verus! {

/// A constant of the structured representation.
#[derive(Clone, Copy, Debug, PartialEq, Eq, Structural)]
pub enum Constant {
    Boolean(bool),
    BitVector(BitVectorValue),
}

/// The sort of a constant.
pub open spec fn constant_sort(c: Constant) -> Sort {
    match c {
        Constant::Boolean(_) => Sort::Bool,
        Constant::BitVector(value) => Sort::BitVector(value.bits),
    }
}

impl Constant {
    pub fn sort(&self) -> (r: Sort)
        ensures
            r == constant_sort(*self),
    {
        match self {
            Constant::Boolean(_) => Sort::Bool,
            Constant::BitVector(value) => Sort::BitVector(value.bits),
        }
    }
}

} // verus!
