use crate::error::Error;
use crate::lir::{
    constant_view, BitVectorValue, Constant, Expression, ExpressionView, Operator, OperatorView,
    Sort, Variable, VariableView, WORD_SIZE,
};
use vstd::prelude::*;

verus! {

/// The bit-vector operators.
#[derive(Clone, Copy, PartialEq, Eq, Structural, Debug)]
pub enum BitVector {
    ToBoolean,
    FromBoolean(usize),
    Add,
    Sub,
    ULt,
    ULe,
    UGt,
    SLe,
    SGt,
}

/// The view of the bit-vector expression built from `op` and `operands`.
pub open spec fn bit_vector_view(op: BitVector, operands: Seq<ExpressionView>, sort: Sort) -> ExpressionView {
    ExpressionView { operator: OperatorView::BitVector(op), operands: operands, sort: sort }
}

/// Whether `op` compares its operands (its result is boolean).
pub open spec fn is_comparison(op: BitVector) -> bool {
    op is ULt || op is ULe || op is UGt || op is SLe || op is SGt
}

impl BitVector {
    /// The constant `value` with `bits` bits.
    pub fn constant_u64(value: u64, bits: usize) -> (r: Expression)
        ensures
            r@ == constant_view(Constant::BitVector(BitVectorValue { value, bits })),
    {
        Expression::constant(Constant::BitVector(BitVectorValue { value, bits }))
    }

    /// The machine-word constant `value`.
    pub fn word_constant(value: u64) -> (r: Expression)
        ensures
            r@ == constant_view(Constant::BitVector(BitVectorValue { value, bits: WORD_SIZE })),
    {
        Self::constant_u64(value, WORD_SIZE)
    }

    /// A bit-vector variable with the given name and width.
    pub fn variable(name: &str, bits: usize) -> (r: Variable)
        ensures
            r@ == (VariableView { name: name@, sort: Sort::BitVector(bits), rollback_persistent: false, version: None }),
    {
        Variable::new(name, Sort::bit_vector(bits))
    }

    /// A machine-word variable with the given name.
    pub fn word_variable(name: &str) -> (r: Variable)
        ensures
            r@ == (VariableView { name: name@, sort: Sort::BitVector(WORD_SIZE), rollback_persistent: false, version: None }),
    {
        Variable::new(name, Sort::word())
    }

    /// Applies the binary operator `op`; fails unless `lhs` is a bit vector and `rhs` has its sort.
    fn apply(op: BitVector, lhs: Expression, rhs: Expression) -> (r: Result<Expression, Error>)
        requires
            op is Add || op is Sub || is_comparison(op),
        ensures
            r is Ok <==> (lhs.sort is BitVector && rhs.sort == lhs.sort),
            r is Ok ==> r.unwrap()@ == bit_vector_view(
                op,
                seq![lhs@, rhs@],
                if is_comparison(op) { Sort::Bool } else { lhs.sort },
            ),
            !(lhs.sort is BitVector) ==> r == Err::<Expression, Error>(Error::ExpectedBitVector(lhs.sort)),
            lhs.sort is BitVector && rhs.sort != lhs.sort ==> r == Err::<Expression, Error>(
                Error::ExpectedSort { expected: lhs.sort, actual: rhs.sort },
            ),
    {
        lhs.sort().expect_bit_vector()?;
        rhs.sort().expect_sort(lhs.sort())?;
        let sort = match op {
            BitVector::ULt | BitVector::ULe | BitVector::UGt | BitVector::SLe | BitVector::SGt => Sort::boolean(),
            _ => lhs.sort.clone(),
        };
        Ok(Expression::binary(Operator::BitVector(op), lhs, rhs, sort))
    }

    /// Wrapping addition.
    pub fn add(lhs: Expression, rhs: Expression) -> (r: Result<Expression, Error>)
        ensures
            r is Ok <==> (lhs.sort is BitVector && rhs.sort == lhs.sort),
            r is Ok ==> r.unwrap()@ == bit_vector_view(BitVector::Add, seq![lhs@, rhs@], lhs.sort),
            !(lhs.sort is BitVector) ==> r == Err::<Expression, Error>(Error::ExpectedBitVector(lhs.sort)),
            lhs.sort is BitVector && rhs.sort != lhs.sort ==> r == Err::<Expression, Error>(
                Error::ExpectedSort { expected: lhs.sort, actual: rhs.sort },
            ),
    {
        Self::apply(BitVector::Add, lhs, rhs)
    }

    /// Wrapping subtraction.
    pub fn sub(lhs: Expression, rhs: Expression) -> (r: Result<Expression, Error>)
        ensures
            r is Ok <==> (lhs.sort is BitVector && rhs.sort == lhs.sort),
            r is Ok ==> r.unwrap()@ == bit_vector_view(BitVector::Sub, seq![lhs@, rhs@], lhs.sort),
            !(lhs.sort is BitVector) ==> r == Err::<Expression, Error>(Error::ExpectedBitVector(lhs.sort)),
            lhs.sort is BitVector && rhs.sort != lhs.sort ==> r == Err::<Expression, Error>(
                Error::ExpectedSort { expected: lhs.sort, actual: rhs.sort },
            ),
    {
        Self::apply(BitVector::Sub, lhs, rhs)
    }

    /// Unsigned less-than.
    pub fn ult(lhs: Expression, rhs: Expression) -> (r: Result<Expression, Error>)
        ensures
            r is Ok <==> (lhs.sort is BitVector && rhs.sort == lhs.sort),
            r is Ok ==> r.unwrap()@ == bit_vector_view(BitVector::ULt, seq![lhs@, rhs@], Sort::Bool),
            !(lhs.sort is BitVector) ==> r == Err::<Expression, Error>(Error::ExpectedBitVector(lhs.sort)),
            lhs.sort is BitVector && rhs.sort != lhs.sort ==> r == Err::<Expression, Error>(
                Error::ExpectedSort { expected: lhs.sort, actual: rhs.sort },
            ),
    {
        Self::apply(BitVector::ULt, lhs, rhs)
    }

    /// Unsigned less-or-equal.
    pub fn ule(lhs: Expression, rhs: Expression) -> (r: Result<Expression, Error>)
        ensures
            r is Ok <==> (lhs.sort is BitVector && rhs.sort == lhs.sort),
            r is Ok ==> r.unwrap()@ == bit_vector_view(BitVector::ULe, seq![lhs@, rhs@], Sort::Bool),
            !(lhs.sort is BitVector) ==> r == Err::<Expression, Error>(Error::ExpectedBitVector(lhs.sort)),
            lhs.sort is BitVector && rhs.sort != lhs.sort ==> r == Err::<Expression, Error>(
                Error::ExpectedSort { expected: lhs.sort, actual: rhs.sort },
            ),
    {
        Self::apply(BitVector::ULe, lhs, rhs)
    }

    /// Unsigned greater-than.
    pub fn ugt(lhs: Expression, rhs: Expression) -> (r: Result<Expression, Error>)
        ensures
            r is Ok <==> (lhs.sort is BitVector && rhs.sort == lhs.sort),
            r is Ok ==> r.unwrap()@ == bit_vector_view(BitVector::UGt, seq![lhs@, rhs@], Sort::Bool),
            !(lhs.sort is BitVector) ==> r == Err::<Expression, Error>(Error::ExpectedBitVector(lhs.sort)),
            lhs.sort is BitVector && rhs.sort != lhs.sort ==> r == Err::<Expression, Error>(
                Error::ExpectedSort { expected: lhs.sort, actual: rhs.sort },
            ),
    {
        Self::apply(BitVector::UGt, lhs, rhs)
    }

    /// Signed less-or-equal.
    pub fn sle(lhs: Expression, rhs: Expression) -> (r: Result<Expression, Error>)
        ensures
            r is Ok <==> (lhs.sort is BitVector && rhs.sort == lhs.sort),
            r is Ok ==> r.unwrap()@ == bit_vector_view(BitVector::SLe, seq![lhs@, rhs@], Sort::Bool),
            !(lhs.sort is BitVector) ==> r == Err::<Expression, Error>(Error::ExpectedBitVector(lhs.sort)),
            lhs.sort is BitVector && rhs.sort != lhs.sort ==> r == Err::<Expression, Error>(
                Error::ExpectedSort { expected: lhs.sort, actual: rhs.sort },
            ),
    {
        Self::apply(BitVector::SLe, lhs, rhs)
    }

    /// Signed greater-than.
    pub fn sgt(lhs: Expression, rhs: Expression) -> (r: Result<Expression, Error>)
        ensures
            r is Ok <==> (lhs.sort is BitVector && rhs.sort == lhs.sort),
            r is Ok ==> r.unwrap()@ == bit_vector_view(BitVector::SGt, seq![lhs@, rhs@], Sort::Bool),
            !(lhs.sort is BitVector) ==> r == Err::<Expression, Error>(Error::ExpectedBitVector(lhs.sort)),
            lhs.sort is BitVector && rhs.sort != lhs.sort ==> r == Err::<Expression, Error>(
                Error::ExpectedSort { expected: lhs.sort, actual: rhs.sort },
            ),
    {
        Self::apply(BitVector::SGt, lhs, rhs)
    }

    /// Converts a bit vector into a boolean (true iff it is not zero).
    pub fn to_boolean(expr: Expression) -> (r: Result<Expression, Error>)
        ensures
            r is Ok <==> expr.sort is BitVector,
            r is Ok ==> r.unwrap()@ == bit_vector_view(BitVector::ToBoolean, seq![expr@], Sort::Bool),
            r is Err ==> r == Err::<Expression, Error>(Error::ExpectedBitVector(expr.sort)),
    {
        expr.sort().expect_bit_vector()?;
        Ok(Expression::unary(Operator::BitVector(BitVector::ToBoolean), expr, Sort::boolean()))
    }

    /// Converts a boolean into a bit vector of the given width (1 for true, 0 for false).
    pub fn from_boolean(bits: usize, expr: Expression) -> (r: Result<Expression, Error>)
        ensures
            r is Ok <==> expr.sort is Bool,
            r is Ok ==> r.unwrap()@ == bit_vector_view(
                BitVector::FromBoolean(bits),
                seq![expr@],
                Sort::BitVector(bits),
            ),
            r is Err ==> r == Err::<Expression, Error>(Error::ExpectedBool(expr.sort)),
    {
        expr.sort().expect_bool()?;
        Ok(Expression::unary(Operator::BitVector(BitVector::FromBoolean(bits)), expr, Sort::bit_vector(bits)))
    }
}

} // verus!
