use crate::error::Error;
use crate::ir::{sort_of, Constant, Expression, Sort};
use vstd::prelude::*;

verus! {

/// The boolean operators. On `Bool` operands, `And`, `Or` and `Xor` are the expressions of
/// the same name; the negation is the exclusive or with `true`, and `lhs => rhs` is
/// `(lhs xor true) or rhs`.
#[derive(Clone, Copy, Debug, PartialEq, Eq, Structural)]
pub enum Boolean {
    Not,
    Imply,
    And,
    Or,
    Xor,
}

/// The expression `true`.
pub open spec fn true_expression() -> Expression {
    Expression::Constant(Constant::Boolean(true))
}

impl Boolean {
    /// The boolean constant `value`.
    pub fn constant(value: bool) -> (r: Constant)
        ensures
            r == Constant::Boolean(value),
    {
        Constant::Boolean(value)
    }

    /// The negation of `expr`; fails unless `expr` is boolean.
    pub fn not(expr: Expression) -> (r: Result<Expression, Error>)
        ensures
            r is Ok <==> sort_of(expr) is Bool,
            r is Ok ==> r == Ok::<Expression, Error>(Expression::Xor(Box::new(expr), Box::new(true_expression()))),
            r is Err ==> r == Err::<Expression, Error>(Error::SortMismatch),
    {
        expr.sort().expect_bool()?;
        Ok(Expression::Xor(Box::new(expr), Box::new(Expression::Constant(Constant::Boolean(true)))))
    }

    /// The implication `lhs => rhs`; fails unless both are boolean.
    pub fn imply(lhs: Expression, rhs: Expression) -> (r: Result<Expression, Error>)
        ensures
            r is Ok <==> sort_of(lhs) is Bool && sort_of(rhs) is Bool,
            r is Ok ==> r == Ok::<Expression, Error>(
                Expression::Or(
                    Box::new(Expression::Xor(Box::new(lhs), Box::new(true_expression()))),
                    Box::new(rhs),
                ),
            ),
            r is Err ==> r == Err::<Expression, Error>(Error::SortMismatch),
    {
        lhs.sort().expect_bool()?;
        rhs.sort().expect_bool()?;
        let not_lhs = Expression::Xor(Box::new(lhs), Box::new(Expression::Constant(Constant::Boolean(true))));
        Ok(Expression::Or(Box::new(not_lhs), Box::new(rhs)))
    }

    /// The conjunction; fails unless both operands are boolean.
    pub fn and(lhs: Expression, rhs: Expression) -> (r: Result<Expression, Error>)
        ensures
            r is Ok <==> sort_of(lhs) is Bool && sort_of(rhs) is Bool,
            r is Ok ==> r == Ok::<Expression, Error>(Expression::And(Box::new(lhs), Box::new(rhs))),
            r is Err ==> r == Err::<Expression, Error>(Error::SortMismatch),
    {
        lhs.sort().expect_bool()?;
        rhs.sort().expect_bool()?;
        Ok(Expression::And(Box::new(lhs), Box::new(rhs)))
    }

    /// The disjunction; fails unless both operands are boolean.
    pub fn or(lhs: Expression, rhs: Expression) -> (r: Result<Expression, Error>)
        ensures
            r is Ok <==> sort_of(lhs) is Bool && sort_of(rhs) is Bool,
            r is Ok ==> r == Ok::<Expression, Error>(Expression::Or(Box::new(lhs), Box::new(rhs))),
            r is Err ==> r == Err::<Expression, Error>(Error::SortMismatch),
    {
        lhs.sort().expect_bool()?;
        rhs.sort().expect_bool()?;
        Ok(Expression::Or(Box::new(lhs), Box::new(rhs)))
    }

    /// The exclusive or; fails unless both operands are boolean.
    pub fn xor(lhs: Expression, rhs: Expression) -> (r: Result<Expression, Error>)
        ensures
            r is Ok <==> sort_of(lhs) is Bool && sort_of(rhs) is Bool,
            r is Ok ==> r == Ok::<Expression, Error>(Expression::Xor(Box::new(lhs), Box::new(rhs))),
            r is Err ==> r == Err::<Expression, Error>(Error::SortMismatch),
    {
        lhs.sort().expect_bool()?;
        rhs.sort().expect_bool()?;
        Ok(Expression::Xor(Box::new(lhs), Box::new(rhs)))
    }
}

} // verus!
