use crate::lir::{Expression, ExpressionView};
use vstd::prelude::*;

verus! {

/// The labels of an edge.
#[derive(Debug, Clone, Copy, PartialEq, Eq, Structural)]
pub struct EdgeLabels {
    /// The edge is taken when a conditional branch is taken.
    pub taken: bool,
    /// The edge starts a speculative execution.
    pub speculate: bool,
    /// The edge rolls back a speculative execution.
    pub rollback: bool,
    /// The edge calls a function.
    pub call: bool,
    /// The edge returns from a function.
    pub ret: bool,
}

impl EdgeLabels {
    /// No label.
    pub fn none() -> (r: Self)
        ensures
            r == (EdgeLabels { taken: false, speculate: false, rollback: false, call: false, ret: false }),
    {
        EdgeLabels { taken: false, speculate: false, rollback: false, call: false, ret: false }
    }

    /// These labels and `taken`.
    pub fn taken(self) -> (r: Self)
        ensures
            r == (EdgeLabels { taken: true, ..self }),
    {
        EdgeLabels { taken: true, ..self }
    }

    /// These labels and `speculate`.
    pub fn speculate(self) -> (r: Self)
        ensures
            r == (EdgeLabels { speculate: true, ..self }),
    {
        EdgeLabels { speculate: true, ..self }
    }

    /// These labels and `rollback`.
    pub fn rollback(self) -> (r: Self)
        ensures
            r == (EdgeLabels { rollback: true, ..self }),
    {
        EdgeLabels { rollback: true, ..self }
    }

    /// These labels and `call`.
    pub fn call(self) -> (r: Self)
        ensures
            r == (EdgeLabels { call: true, ..self }),
    {
        EdgeLabels { call: true, ..self }
    }

    /// These labels and `ret` (return).
    pub fn ret(self) -> (r: Self)
        ensures
            r == (EdgeLabels { ret: true, ..self }),
    {
        EdgeLabels { ret: true, ..self }
    }
}

/// An edge from block `head` to block `tail`, taken when its condition (if any) holds.
#[derive(Debug, PartialEq, Eq)]
pub struct Edge {
    pub head: usize,
    pub tail: usize,
    pub condition: Option<Expression>,
    pub labels: EdgeLabels,
}

/// The mathematical value of an `Edge`.
pub struct EdgeView {
    pub head: usize,
    pub tail: usize,
    pub condition: Option<ExpressionView>,
    pub labels: EdgeLabels,
}

impl Edge {
    /// The mathematical value of the edge.
    pub open spec fn view(&self) -> EdgeView {
        EdgeView {
            head: self.head,
            tail: self.tail,
            condition: match self.condition {
                Some(c) => Some(c@),
                None => None,
            },
            labels: self.labels,
        }
    }

    pub fn head(&self) -> (r: usize)
        ensures
            r == self.head,
    {
        self.head
    }

    pub fn tail(&self) -> (r: usize)
        ensures
            r == self.tail,
    {
        self.tail
    }

    pub fn condition(&self) -> (r: Option<&Expression>)
        ensures
            r == match self.condition {
                Some(c) => Some(&c),
                None => None::<&Expression>,
            },
    {
        match &self.condition {
            Some(c) => Some(c),
            None => None,
        }
    }

    pub fn labels(&self) -> (r: EdgeLabels)
        ensures
            r == self.labels,
    {
        self.labels
    }
}

impl Clone for Edge {
    fn clone(&self) -> (r: Self)
        ensures
            r@ == self@,
    {
        Edge {
            head: self.head,
            tail: self.tail,
            condition: match &self.condition {
                Some(c) => Some(c.clone()),
                None => None,
            },
            labels: self.labels,
        }
    }
}

} // verus!
