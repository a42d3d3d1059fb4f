//! Redundant Node Elimination
//!
//! Removes duplicated assertions and assumptions.
//!
//! This optimization requires that the program is in SSA form.

use crate::error::Error;
use crate::lir::optimization::{keep_nodes, kept, node_views, Optimization, OptimizationResult};
use crate::lir::{Node, NodeView, Program};
use vstd::prelude::*;

verus! {

pub struct RedundantNodeElimination {}

impl RedundantNodeElimination {
    pub fn new() -> (r: Self) {
        RedundantNodeElimination {}
    }
}

/// Whether node `i` is an assertion or assumption that occurs already before `i`.
pub open spec fn duplicated(nodes: Seq<NodeView>, i: int) -> bool {
    (nodes[i] is Assert || nodes[i] is Assume) && exists|j: int| 0 <= j < i && #[trigger] nodes[j] == nodes[i]
}

/// The nodes that survive: the first copy of each assertion and assumption, and all others.
pub open spec fn redundant_keep(nodes: Seq<NodeView>) -> Seq<bool> {
    Seq::new(nodes.len(), |i: int| !duplicated(nodes, i))
}

impl Optimization for RedundantNodeElimination {
    /// Remove all duplicated assertions and assumptions (keeping their first occurrence).
    fn optimize(&self, program: &mut Program) -> (r: Result<OptimizationResult, Error>)
        ensures
            (forall|i: int| 0 <= i < old(program)@.len() ==> #[trigger] redundant_keep(old(program)@)[i])
                ==> r == Ok::<OptimizationResult, Error>(OptimizationResult::Unchanged) && final(program)@
                == old(program)@,
            !(forall|i: int| 0 <= i < old(program)@.len() ==> #[trigger] redundant_keep(old(program)@)[i])
                ==> r == Ok::<OptimizationResult, Error>(OptimizationResult::Changed) && final(program)@
                == kept(old(program)@, redundant_keep(old(program)@)),
    {
        let ghost v = program@;
        assert(node_views(program.nodes@) =~= v);
        let mut keep: Vec<bool> = Vec::new();
        let mut all_kept = true;
        let mut i: usize = 0;
        while i < program.nodes.len()
            invariant
                0 <= i <= program.nodes@.len(),
                v == program@,
                keep@.len() == i,
                forall|j: int| 0 <= j < i ==> keep@[j] == #[trigger] redundant_keep(v)[j],
                all_kept == forall|j: int| 0 <= j < i ==> #[trigger] redundant_keep(v)[j],
            decreases program.nodes@.len() - i,
        {
            let node = &program.nodes[i];
            let mut flag = true;
            if node.is_assert() || node.is_assume() {
                let mut j: usize = 0;
                while j < i
                    invariant
                        0 <= j <= i,
                        i < program.nodes@.len(),
                        v == program@,
                        flag == forall|m: int| 0 <= m < j ==> #[trigger] v[m] != v[i as int],
                        *node == program.nodes@[i as int],
                    decreases i - j,
                {
                    assert(v[j as int] == program.nodes@[j as int]@);
                    assert(v[i as int] == node@);
                    if program.nodes[j].equals(node) {
                        flag = false;
                    }
                    j += 1;
                }
            }
            assert(flag == redundant_keep(v)[i as int]);
            keep.push(flag);
            if !flag {
                all_kept = false;
            }
            i += 1;
        }
        if all_kept {
            return Ok(OptimizationResult::Unchanged);
        }
        let nodes = keep_nodes(&program.nodes, &keep);
        assert(keep@ =~= redundant_keep(v));
        program.nodes = nodes;
        assert(node_views(program.nodes@) =~= program@);
        Ok(OptimizationResult::Changed)
    }
}

} // verus!
