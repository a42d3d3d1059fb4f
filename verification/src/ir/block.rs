use crate::error::Error;
use crate::ir::{sort_of, Constant, Expression, Node, Operation, Variable};
use vstd::prelude::*;

verus! {

/// A block of the structured representation: nodes executed under a condition.
#[derive(Debug)]
pub struct Block {
    /// The index of this block.
    pub index: usize,
    /// The nodes of this block.
    pub nodes: Vec<Node>,
    /// The execution condition of this block.
    pub execution_condition: Expression,
}

impl Block {
    /// An empty block with the given index, whose execution condition is `false`.
    pub fn new(index: usize) -> (r: Self)
        ensures
            r.index == index,
            r.nodes@ == Seq::<Node>::empty(),
            r.execution_condition == Expression::Constant(Constant::Boolean(false)),
    {
        Block { index, nodes: Vec::new(), execution_condition: Expression::Constant(Constant::Boolean(false)) }
    }

    pub fn index(&self) -> (r: usize)
        ensures
            r == self.index,
    {
        self.index
    }

    pub fn nodes(&self) -> (r: &[Node])
        ensures
            r@ == self.nodes@,
    {
        self.nodes.as_slice()
    }

    pub fn nodes_mut(&mut self) -> (r: &mut [Node])
        ensures
            r@ == old(self).nodes@,
            final(self).nodes@ == final(r)@,
            final(self).index == old(self).index,
            final(self).execution_condition == old(self).execution_condition,
    {
        self.nodes.as_mut_slice()
    }

    pub fn execution_condition(&self) -> (r: &Expression)
        ensures
            *r == self.execution_condition,
    {
        &self.execution_condition
    }

    pub fn set_execution_condition(&mut self, expr: Expression)
        ensures
            final(self).execution_condition == expr,
            final(self).index == old(self).index,
            final(self).nodes == old(self).nodes,
    {
        self.execution_condition = expr;
    }

    /// Appends `let var = expr`; fails unless `expr` has the sort of `var`.
    pub fn add_let(&mut self, var: Variable, expr: Expression) -> (r: Result<(), Error>)
        ensures
            r is Ok <==> sort_of(expr) == var.sort,
            r is Ok ==> final(self).nodes@ == old(self).nodes@.push(Node { operation: Operation::Let { var, expr } }),
            r is Err ==> final(self).nodes@ == old(self).nodes@ && r == Err::<(), Error>(Error::SortMismatch),
            final(self).index == old(self).index,
            final(self).execution_condition == old(self).execution_condition,
    {
        self.nodes.push(Node::new(Operation::new_let(var, expr)?));
        Ok(())
    }

    /// Appends `assert cond`; fails unless `cond` is boolean.
    pub fn add_assert(&mut self, cond: Expression) -> (r: Result<(), Error>)
        ensures
            r is Ok <==> sort_of(cond) is Bool,
            r is Ok ==> final(self).nodes@ == old(self).nodes@.push(Node { operation: Operation::Assert { cond } }),
            r is Err ==> final(self).nodes@ == old(self).nodes@ && r == Err::<(), Error>(Error::SortMismatch),
            final(self).index == old(self).index,
            final(self).execution_condition == old(self).execution_condition,
    {
        self.nodes.push(Node::new(Operation::new_assert(cond)?));
        Ok(())
    }

    /// Appends `assume cond`; fails unless `cond` is boolean.
    pub fn add_assume(&mut self, cond: Expression) -> (r: Result<(), Error>)
        ensures
            r is Ok <==> sort_of(cond) is Bool,
            r is Ok ==> final(self).nodes@ == old(self).nodes@.push(Node { operation: Operation::Assume { cond } }),
            r is Err ==> final(self).nodes@ == old(self).nodes@ && r == Err::<(), Error>(Error::SortMismatch),
            final(self).index == old(self).index,
            final(self).execution_condition == old(self).execution_condition,
    {
        self.nodes.push(Node::new(Operation::new_assume(cond)?));
        Ok(())
    }
}

} // verus!
