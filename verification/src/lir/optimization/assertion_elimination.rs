//! Assertion Elimination
//!
//! Removes assertions whose condition is also assumed.
//!
//! This optimization requires that the program is in SSA form.

use crate::error::Error;
use crate::lir::optimization::{kept, node_views, Optimization, OptimizationResult};
use crate::lir::{Expression, ExpressionView, Node, NodeView, Program};
use vstd::prelude::*;

verus! {

pub struct AssertionElimination {}

impl AssertionElimination {
    pub fn new() -> (r: Self) {
        AssertionElimination {}
    }
}

/// Whether some node assumes `c`.
pub open spec fn assumed(nodes: Seq<NodeView>, c: ExpressionView) -> bool {
    exists|j: int| 0 <= j < nodes.len() && #[trigger] nodes[j] is Assume && nodes[j]->Assume_condition == c
}

/// The nodes that survive assertion elimination: all but the assertions of assumed conditions.
pub open spec fn assertion_keep(nodes: Seq<NodeView>) -> Seq<bool> {
    Seq::new(nodes.len(), |i: int| !(nodes[i] is Assert && assumed(nodes, nodes[i]->Assert_condition)))
}

/// The nodes whose flag in `keep` is set, in order.
pub fn keep_nodes(nodes: &Vec<Node>, keep: &Vec<bool>) -> (r: Vec<Node>)
    requires
        keep@.len() == nodes@.len(),
    ensures
        node_views(r@) == kept(node_views(nodes@), keep@),
{
    let ghost v = node_views(nodes@);
    let mut result: Vec<Node> = Vec::new();
    let mut i: usize = 0;
    while i < nodes.len()
        invariant
            0 <= i <= nodes@.len(),
            v == node_views(nodes@),
            keep@.len() == nodes@.len(),
            node_views(result@) == kept(v.take(i as int), keep@.take(i as int)),
        decreases nodes@.len() - i,
    {
        proof {
            assert(v.take(i + 1).drop_last() =~= v.take(i as int));
            assert(keep@.take(i + 1).drop_last() =~= keep@.take(i as int));
        }
        let ghost before = result@;
        if keep[i] {
            result.push(nodes[i].clone());
            assert(node_views(result@) =~= node_views(before).push(v[i as int]));
        }
        i += 1;
    }
    assert(v.take(v.len() as int) =~= v);
    assert(keep@.take(keep@.len() as int) =~= keep@);
    result
}

impl Optimization for AssertionElimination {
    fn optimize(&self, program: &mut Program) -> (r: Result<OptimizationResult, Error>)
        ensures
            (forall|i: int| 0 <= i < old(program)@.len() ==> #[trigger] assertion_keep(old(program)@)[i])
                ==> r == Ok::<OptimizationResult, Error>(OptimizationResult::Unchanged) && final(program)@
                == old(program)@,
            !(forall|i: int| 0 <= i < old(program)@.len() ==> #[trigger] assertion_keep(old(program)@)[i])
                ==> r == Ok::<OptimizationResult, Error>(OptimizationResult::Changed) && final(program)@
                == kept(old(program)@, assertion_keep(old(program)@)),
    {
        let ghost v = program@;
        assert(node_views(program.nodes@) =~= v);
        let mut assumed_exprs: Vec<&Expression> = Vec::new();
        let mut i: usize = 0;
        while i < program.nodes.len()
            invariant
                0 <= i <= program.nodes@.len(),
                v == program@,
                forall|k: int| 0 <= k < assumed_exprs@.len() ==> assumed(v, (#[trigger] assumed_exprs@[k])@),
                forall|j: int| 0 <= j < i && (#[trigger] v[j]) is Assume ==> exists|k: int|
                    0 <= k < assumed_exprs@.len() && (#[trigger] assumed_exprs@[k])@ == v[j]->Assume_condition,
            decreases program.nodes@.len() - i,
        {
            if let Node::Assume { condition } = &program.nodes[i] {
                let ghost before = assumed_exprs@;
                assumed_exprs.push(condition);
                proof {
                    assert(v[i as int] is Assume);
                    assert forall|j: int| 0 <= j < i + 1 && (#[trigger] v[j]) is Assume implies exists|k: int|
                        0 <= k < assumed_exprs@.len() && (#[trigger] assumed_exprs@[k])@ == v[j]->Assume_condition by {
                        if j == i {
                            assert(assumed_exprs@[before.len() as int]@ == v[j]->Assume_condition);
                        } else {
                            let k = choose|k: int| 0 <= k < before.len() && (#[trigger] before[k])@ == v[j]->Assume_condition;
                            assert(assumed_exprs@[k] == before[k]);
                        }
                    }
                }
            }
            i += 1;
        }

        let mut keep: Vec<bool> = Vec::new();
        let mut all_kept = true;
        let mut i: usize = 0;
        while i < program.nodes.len()
            invariant
                0 <= i <= program.nodes@.len(),
                v == program@,
                forall|k: int| 0 <= k < assumed_exprs@.len() ==> assumed(v, (#[trigger] assumed_exprs@[k])@),
                forall|j: int| 0 <= j < v.len() && (#[trigger] v[j]) is Assume ==> exists|k: int|
                    0 <= k < assumed_exprs@.len() && (#[trigger] assumed_exprs@[k])@ == v[j]->Assume_condition,
                keep@.len() == i,
                forall|j: int| 0 <= j < i ==> keep@[j] == #[trigger] assertion_keep(v)[j],
                all_kept == forall|j: int| 0 <= j < i ==> #[trigger] assertion_keep(v)[j],
            decreases program.nodes@.len() - i,
        {
            let mut k_flag = true;
            if let Node::Assert { condition } = &program.nodes[i] {
                let mut k: usize = 0;
                while k < assumed_exprs.len()
                    invariant
                        0 <= k <= assumed_exprs@.len(),
                        k_flag == forall|m: int| 0 <= m < k ==> (#[trigger] assumed_exprs@[m])@ != condition@,
                    decreases assumed_exprs@.len() - k,
                {
                    if assumed_exprs[k].equals(condition) {
                        k_flag = false;
                    }
                    k += 1;
                }
                proof {
                    if assumed(v, condition@) {
                        let j = choose|j: int| 0 <= j < v.len() && #[trigger] v[j] is Assume && v[j]->Assume_condition == condition@;
                        let m = choose|m: int| 0 <= m < assumed_exprs@.len() && (#[trigger] assumed_exprs@[m])@ == v[j]->Assume_condition;
                        assert(!k_flag);
                    }
                    if !k_flag {
                        let m = choose|m: int| 0 <= m < assumed_exprs@.len() && (#[trigger] assumed_exprs@[m])@ == condition@;
                        assert(assumed(v, assumed_exprs@[m]@));
                    }
                }
            }
            assert(k_flag == assertion_keep(v)[i as int]);
            keep.push(k_flag);
            if !k_flag {
                all_kept = false;
            }
            i += 1;
        }

        if all_kept {
            return Ok(OptimizationResult::Unchanged);
        }
        let nodes = keep_nodes(&program.nodes, &keep);
        assert(keep@ =~= assertion_keep(v));
        program.nodes = nodes;
        assert(node_views(program.nodes@) =~= program@);
        Ok(OptimizationResult::Changed)
    }
}

} // verus!
