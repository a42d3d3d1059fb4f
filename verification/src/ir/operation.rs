use crate::error::Error;
use crate::ir::{sort_of, Expression, Variable};
use vstd::prelude::*;

verus! {

/// An operation of the structured representation.
#[derive(Debug)]
pub enum Operation {
    /// Bind the expression to a variable.
    Let { var: Variable, expr: Expression },
    /// Assert that the condition is true.
    Assert { cond: Expression },
    /// Assume that the condition is true.
    Assume { cond: Expression },
}

impl Operation {
    /// Create a new `Operation::Let`; fails unless `expr` has the sort of `var`.
    pub fn new_let(var: Variable, expr: Expression) -> (r: Result<Self, Error>)
        ensures
            r is Ok <==> sort_of(expr) == var.sort,
            r is Ok ==> r == Ok::<Operation, Error>(Operation::Let { var, expr }),
            r is Err ==> r == Err::<Operation, Error>(Error::SortMismatch),
    {
        expr.sort().expect_sort(var.sort())?;
        Ok(Operation::Let { var, expr })
    }

    /// Create a new `Operation::Assert`; fails unless `cond` is boolean.
    pub fn new_assert(cond: Expression) -> (r: Result<Self, Error>)
        ensures
            r is Ok <==> sort_of(cond) is Bool,
            r is Ok ==> r == Ok::<Operation, Error>(Operation::Assert { cond }),
            r is Err ==> r == Err::<Operation, Error>(Error::SortMismatch),
    {
        cond.sort().expect_bool()?;
        Ok(Operation::Assert { cond })
    }

    /// Create a new `Operation::Assume`; fails unless `cond` is boolean.
    pub fn new_assume(cond: Expression) -> (r: Result<Self, Error>)
        ensures
            r is Ok <==> sort_of(cond) is Bool,
            r is Ok ==> r == Ok::<Operation, Error>(Operation::Assume { cond }),
            r is Err ==> r == Err::<Operation, Error>(Error::SortMismatch),
    {
        cond.sort().expect_bool()?;
        Ok(Operation::Assume { cond })
    }

    pub fn is_let(&self) -> (r: bool)
        ensures
            r == (*self is Let),
    {
        match self {
            Operation::Let { .. } => true,
            _ => false,
        }
    }

    pub fn is_assert(&self) -> (r: bool)
        ensures
            r == (*self is Assert),
    {
        match self {
            Operation::Assert { .. } => true,
            _ => false,
        }
    }

    pub fn is_assume(&self) -> (r: bool)
        ensures
            r == (*self is Assume),
    {
        match self {
            Operation::Assume { .. } => true,
            _ => false,
        }
    }
}

/// A node of a block: an operation.
#[derive(Debug)]
pub struct Node {
    pub operation: Operation,
}

impl Node {
    pub fn new(operation: Operation) -> (r: Self)
        ensures
            r == (Node { operation }),
    {
        Node { operation }
    }

    pub fn operation(&self) -> (r: &Operation)
        ensures
            *r == self.operation,
    {
        &self.operation
    }
}

} // verus!
