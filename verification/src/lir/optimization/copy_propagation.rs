//! Copy Propagation
//!
//! Propagates all simple assignments but doesn't remove them.
//! Simple assignment is defined as: `x := v` where v is a variable
//!
//! This algorithm requires that the program is in SSA form.

use crate::error::Error;
use crate::lir::optimization::{Optimization, OptimizationResult};
use crate::lir::{node_rename, CopiedVariables, Node, NodeView, Operator, OperatorView, Program, Variable, VariableView};
use vstd::prelude::*;

verus! {

pub struct CopyPropagation {}

/// The simple assignments `var := src` of the nodes: each copied variable is mapped to the
/// source of its last simple assignment.
pub open spec fn copies_of(nodes: Seq<NodeView>) -> Map<VariableView, VariableView>
    decreases nodes.len(),
{
    if nodes.len() == 0 {
        Map::empty()
    } else {
        let m = copies_of(nodes.drop_last());
        match nodes.last() {
            NodeView::Let { var, expr } => match expr.operator {
                OperatorView::Variable(src) => m.insert(var, src),
                _ => m,
            },
            _ => m,
        }
    }
}

/// The variable reached from `s` after `j` steps along `m` (a variable that is no key of `m`
/// is a fixed point of a step).
pub open spec fn chain(m: Map<VariableView, VariableView>, s: VariableView, j: nat) -> VariableView
    decreases j,
{
    if j == 0 {
        s
    } else {
        let p = chain(m, s, (j - 1) as nat);
        if m.contains_key(p) {
            m[p]
        } else {
            p
        }
    }
}

/// The copies with every source followed along the copies as far as it goes
/// (at most as many steps as there are copies).
pub open spec fn resolved(m: Map<VariableView, VariableView>) -> Map<VariableView, VariableView> {
    Map::new(|k: VariableView| m.contains_key(k), |k: VariableView| chain(m, m[k], m.len()))
}

impl CopyPropagation {
    pub fn new() -> (r: Self) {
        CopyPropagation {}
    }
}

/// The variable reached from `start` after `n` steps along `copies`.
fn chase(copies: &CopiedVariables, start: &Variable, n: usize) -> (r: Variable)
    requires
        copies.wf(),
    ensures
        r@ == chain(copies@, start@, n as nat),
{
    let mut v = start.clone();
    let mut j: usize = 0;
    while j < n
        invariant
            0 <= j <= n,
            copies.wf(),
            v@ == chain(copies@, start@, j as nat),
        decreases n - j,
    {
        match copies.get(&v) {
            Some(w) => {
                v = w.clone();
            },
            None => {},
        }
        j += 1;
    }
    v
}

/// Resolves copies of copies to avoid that the propagation needs to be repeated.
///
/// Given:
/// b = a
/// c = b
///
/// Resolved:
/// b = a
/// c = a
pub fn resolve_copies_of_copies(copies: &mut CopiedVariables)
    requires
        old(copies).wf(),
    ensures
        final(copies).wf(),
        final(copies)@ == resolved(old(copies)@),
{
    proof {
        copies.lemma_len();
    }
    let n = copies.entries.len();
    let mut entries: Vec<(Variable, Variable)> = Vec::new();
    let mut i: usize = 0;
    while i < n
        invariant
            0 <= i <= n,
            n == copies.entries@.len(),
            n == copies@.len(),
            copies.wf(),
            entries@.len() == i,
            forall|j: int|
                0 <= j < i ==> (#[trigger] entries@[j]).0@ == copies.entries@[j].0@ && entries@[j].1@
                    == chain(copies@, copies.entries@[j].1@, n as nat),
        decreases n - i,
    {
        let root = chase(copies, &copies.entries[i].1, n);
        entries.push((copies.entries[i].0.clone(), root));
        i += 1;
    }
    let ghost before = *copies;
    copies.entries = entries;
    proof {
        assert(copies.wf());
        assert forall|k: VariableView| #![auto] copies@.dom().contains(k) <==> before@.dom().contains(k) by {
            if copies@.dom().contains(k) {
                let j = choose|j: int| 0 <= j < copies.entries@.len() && (#[trigger] copies.entries@[j]).0@ == k;
                assert(before.entries@[j].0@ == k);
            }
            if before@.dom().contains(k) {
                let j = choose|j: int| 0 <= j < before.entries@.len() && (#[trigger] before.entries@[j]).0@ == k;
                assert(copies.entries@[j].0@ == k);
            }
        }
        assert forall|k: VariableView| #[trigger] copies@.dom().contains(k) implies copies@[k] == resolved(before@)[k] by {
            let j = choose|j: int| 0 <= j < copies.entries@.len() && (#[trigger] copies.entries@[j]).0@ == k;
            copies.lemma_entry(j);
            before.lemma_entry(j);
        }
        assert(copies@ =~= resolved(before@));
    }
}

impl Program {
    /// Determines the simple assignments, with copies of copies resolved.
    pub fn determine_copies(&self) -> (r: CopiedVariables)
        ensures
            r.wf(),
            r@ == resolved(copies_of(self@)),
    {
        let mut copies = CopiedVariables::new();
        let mut i: usize = 0;
        while i < self.nodes.len()
            invariant
                0 <= i <= self.nodes@.len(),
                copies.wf(),
                copies@ == copies_of(self@.take(i as int)),
            decreases self.nodes@.len() - i,
        {
            proof {
                assert(self@.take(i + 1).drop_last() =~= self@.take(i as int));
            }
            if let Node::Let { var, expr } = &self.nodes[i] {
                if let Operator::Variable(src) = &expr.operator {
                    copies.insert(var.clone(), src.clone());
                }
            }
            i += 1;
        }
        assert(self@.take(self@.len() as int) =~= self@);
        resolve_copies_of_copies(&mut copies);
        copies
    }

    /// Renames, in every expression, each copied variable to its source.
    pub fn propagate_copies(&mut self, copies: &CopiedVariables)
        requires
            copies.wf(),
        ensures
            final(self)@ == old(self)@.map_values(|n: NodeView| node_rename(n, copies@)),
    {
        let mut nodes: Vec<Node> = Vec::new();
        let mut i: usize = 0;
        while i < self.nodes.len()
            invariant
                0 <= i <= self.nodes@.len(),
                copies.wf(),
                nodes@.len() == i,
                forall|j: int| 0 <= j < i ==> (#[trigger] nodes@[j])@ == node_rename(self.nodes@[j]@, copies@),
            decreases self.nodes@.len() - i,
        {
            nodes.push(self.nodes[i].renamed(copies));
            i += 1;
        }
        let ghost before = self@;
        self.nodes = nodes;
        assert(self@ =~= before.map_values(|n: NodeView| node_rename(n, copies@)));
    }
}

impl Optimization for CopyPropagation {
    /// Propagate all simple assignments.
    fn optimize(&self, program: &mut Program) -> (r: Result<OptimizationResult, Error>)
        ensures
            copies_of(old(program)@).len() == 0 ==> r == Ok::<OptimizationResult, Error>(
                OptimizationResult::Unchanged,
            ) && final(program)@ == old(program)@,
            copies_of(old(program)@).len() != 0 ==> r == Ok::<OptimizationResult, Error>(
                OptimizationResult::Changed,
            ) && final(program)@ == old(program)@.map_values(
                |n: NodeView| node_rename(n, resolved(copies_of(old(program)@))),
            ),
    {
        let copies = program.determine_copies();
        proof {
            assert(resolved(copies_of(program@)).dom() =~= copies_of(program@).dom());
        }
        if copies.is_empty() {
            return Ok(OptimizationResult::Unchanged);
        }
        program.propagate_copies(&copies);
        Ok(OptimizationResult::Changed)
    }
}

} // verus!
