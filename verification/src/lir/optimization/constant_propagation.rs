//! Constant Propagation
//!
//! Propagates all constant assignments but doesn't remove them.
//! Constant assignment is defined as: `x := c` where c is a constant
//!
//! This algorithm requires that the program is in SSA form.

use crate::error::Error;
use crate::lir::optimization::{Optimization, OptimizationResult};
use crate::lir::{
    node_substitute, ConstantVariables, ExpressionView, Node, NodeView, OperatorView, Program,
    VariableView,
};
use vstd::prelude::*;

verus! {

pub struct ConstantPropagation {}

/// The constant assignments of the nodes: each assigned variable is bound to the constant
/// of its last constant assignment.
pub open spec fn constants_of(nodes: Seq<NodeView>) -> Map<VariableView, ExpressionView>
    decreases nodes.len(),
{
    if nodes.len() == 0 {
        Map::empty()
    } else {
        let m = constants_of(nodes.drop_last());
        match nodes.last() {
            NodeView::Let { var, expr } => if expr.operator is Constant {
                m.insert(var, expr)
            } else {
                m
            },
            _ => m,
        }
    }
}

/// Constant propagation keeps every node's kind and the variable it defines, and keeps each
/// constant assignment `x := c` as it is: constants are propagated, not removed.
pub proof fn law_constant_propagation_keeps_constant_assignments(
    nodes: Seq<NodeView>,
    m: Map<VariableView, ExpressionView>,
    i: int,
)
    requires
        0 <= i < nodes.len(),
    ensures
        nodes.map_values(|n: NodeView| node_substitute(n, m)).len() == nodes.len(),
        nodes[i] is Let <==> nodes.map_values(|n: NodeView| node_substitute(n, m))[i] is Let,
        nodes[i] matches NodeView::Let { var, expr } ==> (nodes.map_values(
            |n: NodeView| node_substitute(n, m),
        )[i] matches NodeView::Let { var: v2, .. } && v2 == var),
        nodes[i] matches NodeView::Let { expr, .. } && expr.operator is Constant && expr.operands.len() == 0
            ==> nodes.map_values(|n: NodeView| node_substitute(n, m))[i] == nodes[i],
{
    if let NodeView::Let { var, expr } = nodes[i] {
        if expr.operator is Constant && expr.operands.len() == 0 {
            assert(crate::lir::substitute(expr, m).operands =~= expr.operands);
        }
    }
}

impl ConstantPropagation {
    pub fn new() -> (r: Self) {
        ConstantPropagation {}
    }
}

impl Program {
    /// Determines the constant assignments.
    pub fn determine_constants(&self) -> (r: ConstantVariables)
        ensures
            r.wf(),
            r@ == constants_of(self@),
    {
        let mut constants = ConstantVariables::new();
        let mut i: usize = 0;
        while i < self.nodes.len()
            invariant
                0 <= i <= self.nodes@.len(),
                constants.wf(),
                constants@ == constants_of(self@.take(i as int)),
            decreases self.nodes@.len() - i,
        {
            proof {
                assert(self@.take(i + 1).drop_last() =~= self@.take(i as int));
            }
            if let Node::Let { var, expr } = &self.nodes[i] {
                if expr.is_constant() {
                    constants.insert(var.clone(), expr.clone());
                }
            }
            i += 1;
        }
        assert(self@.take(self@.len() as int) =~= self@);
        constants
    }

    /// Replaces, in every expression, each variable bound in `constants` by its constant.
    pub fn propagate_constants(&mut self, constants: &ConstantVariables)
        requires
            constants.wf(),
        ensures
            final(self)@ == old(self)@.map_values(|n: NodeView| node_substitute(n, constants@)),
    {
        let mut nodes: Vec<Node> = Vec::new();
        let mut i: usize = 0;
        while i < self.nodes.len()
            invariant
                0 <= i <= self.nodes@.len(),
                constants.wf(),
                nodes@.len() == i,
                forall|j: int| 0 <= j < i ==> (#[trigger] nodes@[j])@ == node_substitute(self.nodes@[j]@, constants@),
            decreases self.nodes@.len() - i,
        {
            nodes.push(self.nodes[i].substituted(constants));
            i += 1;
        }
        let ghost before = self@;
        self.nodes = nodes;
        assert(self@ =~= before.map_values(|n: NodeView| node_substitute(n, constants@)));
    }
}

impl Optimization for ConstantPropagation {
    /// Propagate all constants.
    fn optimize(&self, program: &mut Program) -> (r: Result<OptimizationResult, Error>)
        ensures
            constants_of(old(program)@).len() == 0 ==> r == Ok::<OptimizationResult, Error>(
                OptimizationResult::Unchanged,
            ) && final(program)@ == old(program)@,
            constants_of(old(program)@).len() != 0 ==> r == Ok::<OptimizationResult, Error>(
                OptimizationResult::Changed,
            ) && final(program)@ == old(program)@.map_values(
                |n: NodeView| node_substitute(n, constants_of(old(program)@)),
            ),
    {
        let constants = program.determine_constants();
        if constants.is_empty() {
            return Ok(OptimizationResult::Unchanged);
        }
        program.propagate_constants(&constants);
        Ok(OptimizationResult::Changed)
    }
}

} // verus!
