use crate::lir::{Expression, ExpressionView, OperatorView, Sort};
use vstd::prelude::*;

verus! {

/// The value of a bit-vector constant: `value` interpreted with `bits` bits.
#[derive(Clone, Copy, PartialEq, Eq, Structural, Debug)]
pub struct BitVectorValue {
    pub value: u64,
    pub bits: usize,
}

/// A constant value.
#[derive(Clone, Copy, PartialEq, Eq, Structural, Debug)]
pub enum Constant {
    Boolean(bool),
    BitVector(BitVectorValue),
}

impl Constant {
    /// The sort of the constant.
    pub fn sort(&self) -> (r: Sort)
        ensures
            r == self.spec_sort(),
    {
        match self {
            Constant::Boolean(_) => Sort::Bool,
            Constant::BitVector(value) => Sort::BitVector(value.bits),
        }
    }

    pub open spec fn spec_sort(&self) -> Sort {
        match self {
            Constant::Boolean(_) => Sort::Bool,
            Constant::BitVector(value) => Sort::BitVector(value.bits),
        }
    }

    /// The expression that consists of this constant.
    pub fn into_expression(self) -> (r: Expression)
        ensures
            r@ == (ExpressionView {
                operator: OperatorView::Constant(self),
                operands: Seq::empty(),
                sort: self.spec_sort(),
            }),
    {
        Expression::constant(self)
    }
}

} // verus!
