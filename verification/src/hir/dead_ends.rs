//! Dead ends: blocks from which no path leads to the exit. Removing them leaves a guard on
//! each conditional edge into them: its condition is assumed (or asserted) not to hold.
use crate::error::Error;
use crate::hir::transformation::not_view;
use crate::hir::{
    instruction_views, block_views, edge_views, plain, Block, BlockView, ControlFlowGraph, Edge, EdgeView, GraphView, Instruction,
    InstructionView, OperationView,
};
use crate::lir::{Boolean, Expression, ExpressionView};
use vstd::prelude::*;

verus! {

/// What guards an edge into a removed block: an assumption or an assertion that its
/// condition does not hold, or nothing.
#[derive(Clone, Copy, Debug, PartialEq, Eq, Structural)]
pub enum RemovedEdgeGuard {
    AssumeEdgeNotTaken,
    AssertEdgeNotTaken,
    Ignore,
}

/// Whether block `x` leads to the exit of `g`.
pub open spec fn leads_to_exit(g: GraphView, x: usize) -> bool {
    g.exit matches Some(e) && reaches(g, x, e)
}

/// The instructions that guard a removed edge with condition `c`.
pub open spec fn guard_view(guard: RemovedEdgeGuard, c: ExpressionView) -> Seq<InstructionView> {
    match guard {
        RemovedEdgeGuard::AssumeEdgeNotTaken => seq![plain(OperationView::Assume { condition: not_view(c) })],
        RemovedEdgeGuard::AssertEdgeNotTaken => seq![plain(OperationView::Assert { condition: not_view(c) })],
        RemovedEdgeGuard::Ignore => Seq::empty(),
    }
}

/// The guards block `b` gets for its conditional edges among `es` into dead ends, in order.
pub open spec fn dead_end_guards(g: GraphView, guard: RemovedEdgeGuard, b: usize, es: Seq<EdgeView>) -> Seq<
    InstructionView,
>
    decreases es.len(),
{
    if es.len() == 0 {
        Seq::empty()
    } else {
        let e = es.last();
        dead_end_guards(g, guard, b, es.drop_last()) + if e.head == b && !leads_to_exit(g, e.tail) && e.condition is Some {
            guard_view(guard, e.condition->Some_0)
        } else {
            Seq::empty()
        }
    }
}

/// The blocks of `bs` that lead to the exit, each with its guards appended.
pub open spec fn live_blocks(g: GraphView, guard: RemovedEdgeGuard, bs: Seq<BlockView>) -> Seq<BlockView>
    decreases bs.len(),
{
    if bs.len() == 0 {
        Seq::empty()
    } else {
        let b = bs.last();
        if leads_to_exit(g, b.index) {
            live_blocks(g, guard, bs.drop_last()).push(
                BlockView { instructions: b.instructions + dead_end_guards(g, guard, b.index, g.edges), ..b },
            )
        } else {
            live_blocks(g, guard, bs.drop_last())
        }
    }
}

/// The edges of `es` between blocks that lead to the exit.
pub open spec fn live_edges(g: GraphView, es: Seq<EdgeView>) -> Seq<EdgeView>
    decreases es.len(),
{
    if es.len() == 0 {
        Seq::empty()
    } else {
        let e = es.last();
        if leads_to_exit(g, e.head) && leads_to_exit(g, e.tail) {
            live_edges(g, es.drop_last()).push(e)
        } else {
            live_edges(g, es.drop_last())
        }
    }
}

/// The graph without its dead ends: the blocks that do not lead to the exit and their edges
/// are removed; each edge into a removed block guards its head; the entry goes if removed.
pub open spec fn without_dead_ends(g: GraphView, guard: RemovedEdgeGuard) -> GraphView {
    GraphView {
        blocks: live_blocks(g, guard, g.blocks),
        edges: live_edges(g, g.edges),
        entry: match g.entry {
            Some(e) => if leads_to_exit(g, e) {
                Some(e)
            } else {
                None
            },
            None => None,
        },
        ..g
    }
}

/// Whether a block of `bs` that leads to the exit has index `x`.
pub open spec fn live_index_of(g: GraphView, bs: Seq<BlockView>, x: usize) -> bool {
    exists|j: int| 0 <= j < bs.len() && bs[j].index == x && leads_to_exit(g, x)
}

/// The live blocks keep, from the blocks they come from, distinct indices, and are exactly
/// the blocks that lead to the exit.
proof fn lemma_live_blocks(g: GraphView, guard: RemovedEdgeGuard, bs: Seq<BlockView>)
    requires
        forall|i: int, j: int| 0 <= i < bs.len() && 0 <= j < bs.len() && i != j ==> (#[trigger] bs[i]).index != (#[trigger] bs[j]).index,
    ensures
        forall|k: int|
            0 <= k < live_blocks(g, guard, bs).len() ==> live_index_of(g, bs, #[trigger] live_blocks(g, guard, bs)[k].index),
        forall|j: int|
            0 <= j < bs.len() && leads_to_exit(g, (#[trigger] bs[j]).index) ==> exists|k: int|
                0 <= k < live_blocks(g, guard, bs).len() && live_blocks(g, guard, bs)[k].index == bs[j].index,
        forall|i: int, k: int|
            0 <= i < live_blocks(g, guard, bs).len() && 0 <= k < live_blocks(g, guard, bs).len() && i != k
                ==> (#[trigger] live_blocks(g, guard, bs)[i]).index != (#[trigger] live_blocks(g, guard, bs)[k]).index,
    decreases bs.len(),
{
    if bs.len() > 0 {
        let rest = bs.drop_last();
        lemma_live_blocks(g, guard, rest);
        let lr = live_blocks(g, guard, rest);
        let l = live_blocks(g, guard, bs);
        let b = bs.last();
        let n = bs.len() - 1;
        assert forall|k: int| 0 <= k < l.len() implies live_index_of(g, bs, #[trigger] l[k].index) by {
            if k < lr.len() {
                assert(live_index_of(g, rest, lr[k].index));
                let j = choose|j: int| 0 <= j < rest.len() && rest[j].index == lr[k].index && leads_to_exit(g, rest[j].index);
                assert(bs[j] == rest[j]);
                assert(l[k] == lr[k]);
                assert(0 <= j < bs.len() && l[k].index == bs[j].index && leads_to_exit(g, bs[j].index));
            } else {
                assert(leads_to_exit(g, b.index));
                assert(0 <= n < bs.len() && l[k].index == bs[n].index && leads_to_exit(g, bs[n].index));
            }
        }
        assert forall|j: int| 0 <= j < bs.len() && leads_to_exit(g, (#[trigger] bs[j]).index) implies exists|k: int|
            0 <= k < l.len() && l[k].index == bs[j].index by {
            if j < n {
                assert(rest[j] == bs[j]);
                let k = choose|k: int| 0 <= k < lr.len() && lr[k].index == rest[j].index;
                assert(l[k] == lr[k]);
            } else {
                assert(l[lr.len() as int].index == b.index);
            }
        }
        assert forall|i: int, k: int| 0 <= i < l.len() && 0 <= k < l.len() && i != k implies (#[trigger] l[i]).index
            != (#[trigger] l[k]).index by {
            if i < lr.len() && k < lr.len() {
                assert(l[i] == lr[i] && l[k] == lr[k]);
            } else if i < lr.len() {
                assert(live_index_of(g, rest, lr[i].index));
                let j = choose|j: int| 0 <= j < rest.len() && rest[j].index == lr[i].index && leads_to_exit(g, rest[j].index);
                assert(bs[j] == rest[j]);
                assert(l[i] == lr[i]);
            } else if k < lr.len() {
                assert(live_index_of(g, rest, lr[k].index));
                let j = choose|j: int| 0 <= j < rest.len() && rest[j].index == lr[k].index && leads_to_exit(g, rest[j].index);
                assert(bs[j] == rest[j]);
                assert(l[k] == lr[k]);
            }
        }
    }
}

/// The live edges are edges of `es` between blocks that lead to the exit, pairwise distinct
/// when those of `es` are.
proof fn lemma_live_edges(g: GraphView, es: Seq<EdgeView>)
    ensures
        forall|k: int|
            0 <= k < live_edges(g, es).len() ==> exists|j: int|
                0 <= j < es.len() && #[trigger] live_edges(g, es)[k] == es[j] && leads_to_exit(g, es[j].head)
                    && leads_to_exit(g, es[j].tail),
        (forall|i: int, j: int|
            0 <= i < es.len() && 0 <= j < es.len() && i != j ==> !((#[trigger] es[i]).head == (#[trigger] es[j]).head
                && es[i].tail == es[j].tail)) ==> (forall|i: int, k: int|
            0 <= i < live_edges(g, es).len() && 0 <= k < live_edges(g, es).len() && i != k ==> !((
            #[trigger] live_edges(g, es)[i]).head == (#[trigger] live_edges(g, es)[k]).head && live_edges(g, es)[i].tail
                == live_edges(g, es)[k].tail)),
    decreases es.len(),
{
    if es.len() > 0 {
        let rest = es.drop_last();
        lemma_live_edges(g, rest);
        let lr = live_edges(g, rest);
        let l = live_edges(g, es);
        let n = es.len() - 1;
        assert forall|k: int| 0 <= k < l.len() implies exists|j: int|
            0 <= j < es.len() && #[trigger] l[k] == es[j] && leads_to_exit(g, es[j].head) && leads_to_exit(g, es[j].tail) by {
            if k < lr.len() {
                let j = choose|j: int| 0 <= j < rest.len() && #[trigger] lr[k] == rest[j] && leads_to_exit(g, rest[j].head) && leads_to_exit(g, rest[j].tail);
                assert(es[j] == rest[j]);
            } else {
                assert(l[k] == es[n]);
            }
        }
        if forall|i: int, j: int|
            0 <= i < es.len() && 0 <= j < es.len() && i != j ==> !((#[trigger] es[i]).head == (#[trigger] es[j]).head
                && es[i].tail == es[j].tail) {
            assert forall|i: int, j: int| 0 <= i < rest.len() && 0 <= j < rest.len() && i != j implies !((
            #[trigger] rest[i]).head == (#[trigger] rest[j]).head && rest[i].tail == rest[j].tail) by {
                assert(rest[i] == es[i] && rest[j] == es[j]);
            }
            assert forall|i: int, k: int| 0 <= i < l.len() && 0 <= k < l.len() && i != k implies !((#[trigger] l[i]).head
                == (#[trigger] l[k]).head && l[i].tail == l[k].tail) by {
                if i < lr.len() && k < lr.len() {
                    assert(l[i] == lr[i] && l[k] == lr[k]);
                } else if i < lr.len() {
                    let j = choose|j: int| 0 <= j < rest.len() && #[trigger] lr[i] == rest[j] && leads_to_exit(g, rest[j].head) && leads_to_exit(g, rest[j].tail);
                    assert(es[j] == rest[j]);
                    assert(l[i] == lr[i]);
                    assert(l[k] == es[n]);
                } else if k < lr.len() {
                    let j = choose|j: int| 0 <= j < rest.len() && #[trigger] lr[k] == rest[j] && leads_to_exit(g, rest[j].head) && leads_to_exit(g, rest[j].tail);
                    assert(es[j] == rest[j]);
                    assert(l[k] == lr[k]);
                    assert(l[i] == es[n]);
                }
            }
        }
    }
}

/// Whether `p` is a path of `g`: a nonempty sequence of blocks, each with an edge to the next.
pub open spec fn is_path(g: GraphView, p: Seq<usize>) -> bool {
    &&& p.len() > 0
    &&& forall|i: int| #![trigger p[i]] 0 <= i < p.len() - 1 ==> g.has_edge(p[i], p[i + 1])
}

/// Whether a path of `g` leads from `x` to `e`.
pub open spec fn reaches(g: GraphView, x: usize, e: usize) -> bool {
    exists|p: Seq<usize>| #[trigger] is_path(g, p) && p[0] == x && p.last() == e
}

/// The number of unmarked positions.
pub open spec fn unmarked(s: Seq<bool>) -> nat
    decreases s.len(),
{
    if s.len() == 0 {
        0
    } else {
        unmarked(s.drop_last()) + if s.last() {
            0nat
        } else {
            1nat
        }
    }
}

/// Marking an unmarked position leaves one fewer unmarked.
proof fn lemma_unmarked_mark(s: Seq<bool>, q: int)
    requires
        0 <= q < s.len(),
        !s[q],
    ensures
        unmarked(s.update(q, true)) + 1 == unmarked(s),
    decreases s.len(),
{
    if q < s.len() - 1 {
        assert(s.update(q, true).drop_last() =~= s.drop_last().update(q, true));
        lemma_unmarked_mark(s.drop_last(), q);
    } else {
        assert(s.update(q, true).drop_last() =~= s.drop_last());
    }
}

/// Whether the block `x` of the well-formed `g` is marked.
pub open spec fn marked(g: GraphView, marks: Seq<bool>, x: usize) -> bool {
    marks[g.block_pos(x)]
}

/// Whether marks are closed under going back along edges: a marked tail has a marked head.
pub open spec fn closed_backwards(g: GraphView, marks: Seq<bool>) -> bool {
    forall|j: int| 0 <= j < g.edges.len() ==> marked(g, marks, (#[trigger] g.edges[j]).tail) ==> marked(g, marks, g.edges[j].head)
}

/// With marks closed backwards and `e` marked, the start of every path to `e` is marked.
proof fn lemma_closed_marks_paths(g: GraphView, marks: Seq<bool>, p: Seq<usize>, e: usize)
    requires
        g.wf(),
        closed_backwards(g, marks),
        is_path(g, p),
        p.last() == e,
        marked(g, marks, e),
    ensures
        marked(g, marks, p[0]),
    decreases p.len(),
{
    if p.len() > 1 {
        let rest = p.drop_first();
        assert forall|i: int| #![trigger rest[i]] 0 <= i < rest.len() - 1 implies g.has_edge(rest[i], rest[i + 1]) by {
            assert(p[i + 1] == rest[i]);
            assert(g.has_edge(p[i + 1], p[i + 2]));
        }
        assert(is_path(g, rest));
        lemma_closed_marks_paths(g, marks, rest, e);
        assert(p[0] == p[0]);
        assert(g.has_edge(p[0], p[1]));
        let j = g.edge_pos(p[0], p[1]);
        assert(g.edges[j].head == p[0] && g.edges[j].tail == p[1]);
    }
}

/// An edge from `h` to `t` extends the paths from `t` to paths from `h`.
proof fn lemma_extend_path(g: GraphView, h: usize, t: usize, e: usize)
    requires
        g.has_edge(h, t),
        reaches(g, t, e),
    ensures
        reaches(g, h, e),
{
    let pth = choose|p: Seq<usize>| #[trigger] is_path(g, p) && p[0] == t && p.last() == e;
    let np = seq![h] + pth;
    assert forall|k: int| #![trigger np[k]] 0 <= k < np.len() - 1 implies g.has_edge(np[k], np[k + 1]) by {
        if k > 0 {
            assert(np[k] == pth[k - 1]);
            assert(np[k + 1] == pth[k]);
            assert(g.has_edge(pth[k - 1], pth[(k - 1) + 1]));
        }
    }
    assert(is_path(g, np));
    assert(np.last() == e);
}

/// Only blocks reach the exit of a well-formed graph.
proof fn lemma_reaching_is_block(g: GraphView, x: usize, e: usize)
    requires
        g.wf(),
        g.has_block(e),
        reaches(g, x, e),
    ensures
        g.has_block(x),
{
    let p = choose|p: Seq<usize>| #[trigger] is_path(g, p) && p[0] == x && p.last() == e;
    if p.len() > 1 {
        assert(g.has_edge(p[0], p[1]));
        let j = g.edge_pos(p[0], p[1]);
        assert(g.edges[j].head == p[0]);
    }
}

/// The graph without its dead ends is well formed.
proof fn lemma_without_dead_ends_wf(g: GraphView, guard: RemovedEdgeGuard)
    requires
        g.wf(),
        g.exit is Some,
    ensures
        without_dead_ends(g, guard).wf(),
        forall|x: usize| #[trigger] without_dead_ends(g, guard).has_block(x) <==> (g.has_block(x) && leads_to_exit(g, x)),
{
    let r = without_dead_ends(g, guard);
    lemma_live_blocks(g, guard, g.blocks);
    lemma_live_edges(g, g.edges);
    assert forall|x: usize| #[trigger] r.has_block(x) <==> (g.has_block(x) && leads_to_exit(g, x)) by {
        if r.has_block(x) {
            let k = choose|k: int| 0 <= k < r.blocks.len() && (#[trigger] r.blocks[k]).index == x;
            assert(live_index_of(g, g.blocks, r.blocks[k].index));
            let j = choose|j: int| 0 <= j < g.blocks.len() && g.blocks[j].index == x && leads_to_exit(g, x);
            assert(g.blocks[j].index == x);
        }
        if g.has_block(x) && leads_to_exit(g, x) {
            let j = choose|j: int| 0 <= j < g.blocks.len() && (#[trigger] g.blocks[j]).index == x;
            let k = choose|k: int| 0 <= k < r.blocks.len() && r.blocks[k].index == g.blocks[j].index;
            assert(r.blocks[k].index == x);
        }
    }
    assert forall|i: int| 0 <= i < r.blocks.len() implies (#[trigger] r.blocks[i]).index < r.next_index by {
        assert(live_index_of(g, g.blocks, r.blocks[i].index));
        let j = choose|j: int| 0 <= j < g.blocks.len() && g.blocks[j].index == r.blocks[i].index && leads_to_exit(g, r.blocks[i].index);
        assert(g.blocks[j].index < g.next_index);
    }
    assert forall|i: int| 0 <= i < r.edges.len() implies r.has_block((#[trigger] r.edges[i]).head) && r.has_block(
        r.edges[i].tail,
    ) && (r.edges[i].condition matches Some(c) ==> c.sort is Bool) by {
        let j = choose|j: int|
            0 <= j < g.edges.len() && #[trigger] r.edges[i] == g.edges[j] && leads_to_exit(g, g.edges[j].head)
                && leads_to_exit(g, g.edges[j].tail);
        assert(g.has_block(g.edges[j].head) && g.has_block(g.edges[j].tail));
        assert(r.has_block(g.edges[j].head));
        assert(r.has_block(g.edges[j].tail));
    }
    let e = g.exit->Some_0;
    assert(is_path(g, seq![e]));
    assert(reaches(g, e, e));
    assert(r.has_block(e));
    if let Some(x) = r.entry {
        assert(r.has_block(x));
    }
}

/// Every edge of `es` between blocks that lead to the exit is a live edge.
proof fn lemma_live_edges_complete(g: GraphView, es: Seq<EdgeView>, j: int)
    requires
        0 <= j < es.len(),
        leads_to_exit(g, es[j].head),
        leads_to_exit(g, es[j].tail),
    ensures
        live_edges(g, es).contains(es[j]),
    decreases es.len(),
{
    let l = live_edges(g, es);
    if j < es.len() - 1 {
        lemma_live_edges_complete(g, es.drop_last(), j);
        let lr = live_edges(g, es.drop_last());
        let k = choose|k: int| 0 <= k < lr.len() && lr[k] == es.drop_last()[j];
        if leads_to_exit(g, es.last().head) && leads_to_exit(g, es.last().tail) {
            assert(l[k] == lr[k]);
        }
        assert(l[k] == es[j]);
    } else {
        assert(l[l.len() - 1] == es[j]);
    }
}

/// Every block on a path to `e` reaches `e`.
proof fn lemma_path_suffix_reaches(g: GraphView, p: Seq<usize>, e: usize, i: int)
    requires
        is_path(g, p),
        p.last() == e,
        0 <= i < p.len(),
    ensures
        reaches(g, p[i], e),
{
    let q = p.skip(i);
    assert forall|k: int| #![trigger q[k]] 0 <= k < q.len() - 1 implies g.has_edge(q[k], q[k + 1]) by {
        assert(q[k] == p[i + k]);
        assert(q[k + 1] == p[i + k + 1]);
        assert(g.has_edge(p[i + k], p[(i + k) + 1]));
    }
    assert(is_path(g, q));
    assert(q[0] == p[i]);
    assert(q.last() == e);
}

/// Removing dead ends leaves none: from every remaining block a path of the remaining graph
/// leads to the exit.
pub proof fn law_no_dead_ends_remain(g: GraphView, guard: RemovedEdgeGuard, x: usize)
    requires
        g.wf(),
        g.exit is Some,
        without_dead_ends(g, guard).has_block(x),
    ensures
        reaches(without_dead_ends(g, guard), x, g.exit->Some_0),
{
    let r = without_dead_ends(g, guard);
    let e = g.exit->Some_0;
    lemma_without_dead_ends_wf(g, guard);
    assert(g.has_block(x) && leads_to_exit(g, x));
    let p = choose|p: Seq<usize>| #[trigger] is_path(g, p) && p[0] == x && p.last() == e;
    assert forall|i: int| #![trigger p[i]] 0 <= i < p.len() - 1 implies r.has_edge(p[i], p[i + 1]) by {
        assert(g.has_edge(p[i], p[i + 1]));
        lemma_path_suffix_reaches(g, p, e, i);
        lemma_path_suffix_reaches(g, p, e, i + 1);
        let j = g.edge_pos(p[i], p[i + 1]);
        assert(g.edges[j].head == p[i] && g.edges[j].tail == p[i + 1]);
        lemma_live_edges_complete(g, g.edges, j);
        let k = choose|k: int| 0 <= k < r.edges.len() && r.edges[k] == g.edges[j];
        assert(r.edges[k].head == p[i] && r.edges[k].tail == p[i + 1]);
    }
    assert(is_path(r, p));
}

impl ControlFlowGraph {
    /// Whether block `x` leads to `exit`, read from the marks of `mark_reaching`.
    fn leads(&self, marks: &Vec<bool>, exit: usize, x: usize) -> (r: bool)
        requires
            self.wf(),
            self@.exit == Some(exit),
            marks@.len() == self@.blocks.len(),
            forall|q: int| 0 <= q < marks@.len() ==> (marks@[q] <==> reaches(self@, #[trigger] self@.blocks[q].index, exit)),
        ensures
            r == leads_to_exit(self@, x),
    {
        match self.block_position(x) {
            Some(p) => marks[p],
            None => {
                proof {
                    if reaches(self@, x, exit) {
                        lemma_reaching_is_block(self@, x, exit);
                    }
                }
                false
            },
        }
    }

    /// Appends the instructions that guard a removed edge with condition `c` to `insts`.
    fn push_guard(insts: &mut Vec<Instruction>, guard: RemovedEdgeGuard, c: &Expression)
        requires
            c.sort is Bool,
        ensures
            instruction_views(final(insts)@) == instruction_views(old(insts)@) + guard_view(guard, c@),
    {
        let ghost before = instruction_views(insts@);
        let r = match guard {
            RemovedEdgeGuard::Ignore => {
                assert(instruction_views(insts@) =~= before + guard_view(guard, c@));
                return;
            },
            RemovedEdgeGuard::AssumeEdgeNotTaken => match Boolean::not(c.clone()) {
                Ok(n) => Instruction::assumption(n),
                Err(e) => Err(e),
            },
            RemovedEdgeGuard::AssertEdgeNotTaken => match Boolean::not(c.clone()) {
                Ok(n) => Instruction::assertion(n),
                Err(e) => Err(e),
            },
        };
        match r {
            Ok(i) => {
                insts.push(i);
                assert(instruction_views(insts@) =~= before + guard_view(guard, c@));
            },
            Err(_) => {
                proof {
                    assert(false);
                }
            },
        }
    }

    /// The blocks that lead to `exit`, each with its guards appended.
    fn live_block_list(&self, marks: &Vec<bool>, exit: usize, guard: RemovedEdgeGuard) -> (r: Vec<Block>)
        requires
            self.wf(),
            self@.exit == Some(exit),
            marks@.len() == self@.blocks.len(),
            forall|q: int| 0 <= q < marks@.len() ==> (marks@[q] <==> reaches(self@, #[trigger] self@.blocks[q].index, exit)),
        ensures
            block_views(r@) == live_blocks(self@, guard, self@.blocks),
    {
        let ghost g = self@;
        let mut out: Vec<Block> = Vec::new();
        let mut p: usize = 0;
        while p < self.blocks.len()
            invariant
                self.wf(),
                g == self@,
                g.exit == Some(exit),
                marks@.len() == g.blocks.len(),
                forall|q: int| 0 <= q < marks@.len() ==> (marks@[q] <==> reaches(g, #[trigger] g.blocks[q].index, exit)),
                0 <= p <= g.blocks.len(),
                block_views(out@) == live_blocks(g, guard, g.blocks.take(p as int)),
            decreases g.blocks.len() - p,
        {
            proof {
                assert(g.blocks.take(p + 1).drop_last() =~= g.blocks.take(p as int));
                assert(g.blocks[p as int].index == self.blocks@[p as int].index);
            }
            if self.leads(marks, exit, self.blocks[p].index) {
                let mut b = self.blocks[p].clone();
                let ghost b0 = g.blocks[p as int];
                let mut i: usize = 0;
                while i < self.edges.len()
                    invariant
                        self.wf(),
                        g == self@,
                        g.exit == Some(exit),
                        marks@.len() == g.blocks.len(),
                        forall|q: int| 0 <= q < marks@.len() ==> (marks@[q] <==> reaches(g, #[trigger] g.blocks[q].index, exit)),
                        0 <= i <= g.edges.len(),
                        b@ == (BlockView {
                            instructions: b0.instructions + dead_end_guards(g, guard, b0.index, g.edges.take(i as int)),
                            ..b0
                        }),
                    decreases g.edges.len() - i,
                {
                    proof {
                        assert(g.edges.take(i + 1).drop_last() =~= g.edges.take(i as int));
                        assert(g.edges[i as int] == self.edges@[i as int]@);
                    }
                    let ghost before = b@.instructions;
                    if self.edges[i].head == b.index && !self.leads(marks, exit, self.edges[i].tail) {
                        match &self.edges[i].condition {
                            Some(c) => {
                                assert(g.edges[i as int].condition == Some(c@));
                                Self::push_guard(&mut b.instructions, guard, c);
                                assert(b@.instructions =~= before + guard_view(guard, c@));
                            },
                            None => {},
                        }
                    }
                    proof {
                        assert(b@.instructions =~= b0.instructions + dead_end_guards(
                            g,
                            guard,
                            b0.index,
                            g.edges.take(i + 1),
                        ));
                    }
                    i += 1;
                }
                proof {
                    assert(g.edges.take(g.edges.len() as int) =~= g.edges);
                }
                let ghost before = out@;
                out.push(b);
                proof {
                    assert(block_views(out@) =~= block_views(before).push(b@));
                }
            }
            p += 1;
        }
        proof {
            assert(g.blocks.take(g.blocks.len() as int) =~= g.blocks);
        }
        out
    }

    /// The edges between blocks that lead to `exit`.
    fn live_edge_list(&self, marks: &Vec<bool>, exit: usize) -> (r: Vec<Edge>)
        requires
            self.wf(),
            self@.exit == Some(exit),
            marks@.len() == self@.blocks.len(),
            forall|q: int| 0 <= q < marks@.len() ==> (marks@[q] <==> reaches(self@, #[trigger] self@.blocks[q].index, exit)),
        ensures
            edge_views(r@) == live_edges(self@, self@.edges),
    {
        let ghost g = self@;
        let mut out: Vec<Edge> = Vec::new();
        let mut i: usize = 0;
        while i < self.edges.len()
            invariant
                self.wf(),
                g == self@,
                g.exit == Some(exit),
                marks@.len() == g.blocks.len(),
                forall|q: int| 0 <= q < marks@.len() ==> (marks@[q] <==> reaches(g, #[trigger] g.blocks[q].index, exit)),
                0 <= i <= g.edges.len(),
                edge_views(out@) == live_edges(g, g.edges.take(i as int)),
            decreases g.edges.len() - i,
        {
            proof {
                assert(g.edges.take(i + 1).drop_last() =~= g.edges.take(i as int));
                assert(g.edges[i as int] == self.edges@[i as int]@);
            }
            if self.leads(marks, exit, self.edges[i].head) && self.leads(marks, exit, self.edges[i].tail) {
                let ghost before = out@;
                out.push(self.edges[i].clone());
                proof {
                    assert(edge_views(out@) =~= edge_views(before).push(g.edges[i as int]));
                }
            }
            i += 1;
        }
        proof {
            assert(g.edges.take(g.edges.len() as int) =~= g.edges);
        }
        out
    }

    /// Removes the blocks from which no path leads to the exit, with their edges; each
    /// conditional edge into a removed block guards its head by the guard of the negated
    /// condition; if the entry is removed the graph has no entry any more. Fails if the graph
    /// has no exit.
    pub fn remove_dead_end_blocks(&mut self, guard: RemovedEdgeGuard) -> (r: Result<(), Error>)
        requires
            old(self).wf(),
        ensures
            final(self).wf(),
            old(self)@.exit is None ==> r == Err::<(), Error>(Error::NoExit) && final(self)@ == old(self)@,
            old(self)@.exit is Some ==> r is Ok && final(self)@ == without_dead_ends(old(self)@, guard),
    {
        let ghost g = self@;
        let exit = self.exit()?;
        let marks = self.mark_reaching(exit);
        let blocks = self.live_block_list(&marks, exit, guard);
        let edges = self.live_edge_list(&marks, exit);
        let entry = match self.entry {
            Some(e) => {
                if self.leads(&marks, exit, e) {
                    Some(e)
                } else {
                    None
                }
            },
            None => None,
        };
        self.blocks = blocks;
        self.edges = edges;
        self.entry = entry;
        proof {
            assert(self@ == without_dead_ends(g, guard));
            lemma_without_dead_ends_wf(g, guard);
        }
        Ok(())
    }

    /// Marks the head of edge `i` if its tail is marked and it is not; whether it did.
    fn mark_edge(&self, marks: &mut Vec<bool>, i: usize, exit: usize) -> (changed: bool)
        requires
            self.wf(),
            i < self@.edges.len(),
            old(marks)@.len() == self@.blocks.len(),
            forall|q: int|
                0 <= q < old(marks)@.len() && old(marks)@[q] ==> reaches(self@, #[trigger] self@.blocks[q].index, exit),
        ensures
            final(marks)@.len() == old(marks)@.len(),
            forall|q: int|
                0 <= q < final(marks)@.len() && final(marks)@[q] ==> reaches(self@, #[trigger] self@.blocks[q].index, exit),
            forall|q: int| 0 <= q < old(marks)@.len() && old(marks)@[q] ==> #[trigger] final(marks)@[q],
            changed ==> unmarked(final(marks)@) < unmarked(old(marks)@),
            !changed ==> final(marks)@ == old(marks)@ && (marked(self@, old(marks)@, self@.edges[i as int].tail)
                ==> marked(self@, old(marks)@, self@.edges[i as int].head)),
    {
        let ghost g = self@;
        let h = self.edges[i].head;
        let t = self.edges[i].tail;
        assert(g.edges[i as int].head == h && g.edges[i as int].tail == t);
        let ph = match self.block_position(h) {
            Some(p) => p,
            None => {
                return false;
            },
        };
        let pt = match self.block_position(t) {
            Some(p) => p,
            None => {
                return false;
            },
        };
        if marks[pt] && !marks[ph] {
            proof {
                assert(g.blocks[pt as int].index == t);
                assert(g.has_edge(h, t));
                lemma_extend_path(g, h, t, exit);
                lemma_unmarked_mark(marks@, ph as int);
            }
            marks.set(ph, true);
            return true;
        }
        false
    }

    /// Marks the blocks from which a path leads to the block `exit`.
    fn mark_reaching(&self, exit: usize) -> (marks: Vec<bool>)
        requires
            self.wf(),
            self@.has_block(exit),
        ensures
            marks@.len() == self@.blocks.len(),
            forall|q: int| 0 <= q < marks@.len() ==> (marks@[q] <==> reaches(self@, #[trigger] self@.blocks[q].index, exit)),
    {
        let ghost g = self@;
        let n = self.blocks.len();
        let mut marks: Vec<bool> = Vec::new();
        let mut k: usize = 0;
        while k < n
            invariant
                0 <= k <= n,
                n == g.blocks.len(),
                marks@.len() == k,
                forall|q: int| 0 <= q < k ==> !marks@[q],
            decreases n - k,
        {
            marks.push(false);
            k += 1;
        }
        let pe = match self.block_position(exit) {
            Some(p) => p,
            None => {
                return marks;
            },
        };
        marks.set(pe, true);
        proof {
            let p = seq![exit];
            assert(is_path(g, p));
            assert(reaches(g, exit, exit));
        }
        let mut changed = true;
        while changed
            invariant
                self.wf(),
                g == self@,
                n == g.blocks.len(),
                marks@.len() == n,
                pe == g.block_pos(exit),
                pe < n,
                marks@[pe as int],
                forall|q: int| 0 <= q < n && marks@[q] ==> reaches(g, #[trigger] g.blocks[q].index, exit),
                !changed ==> closed_backwards(g, marks@),
            decreases unmarked(marks@) * 2 + if changed {
                1int
            } else {
                0int
            },
        {
            let ghost start = marks@;
            changed = false;
            let mut i: usize = 0;
            while i < self.edges.len()
                invariant
                    self.wf(),
                    g == self@,
                    n == g.blocks.len(),
                    0 <= i <= g.edges.len(),
                    marks@.len() == n,
                    pe < n,
                    marks@[pe as int],
                    forall|q: int| 0 <= q < n && marks@[q] ==> reaches(g, #[trigger] g.blocks[q].index, exit),
                    !changed ==> marks@ == start,
                    changed ==> unmarked(marks@) < unmarked(start),
                    forall|j: int|
                        0 <= j < i && !changed ==> marked(g, marks@, (#[trigger] g.edges[j]).tail) ==> marked(
                            g,
                            marks@,
                            g.edges[j].head,
                        ),
                decreases g.edges.len() - i,
            {
                let ghost before = marks@;
                if self.mark_edge(&mut marks, i, exit) {
                    changed = true;
                }
                proof {
                    if marks@ != before {
                        assert(marks@[pe as int]);
                    }
                }
                i += 1;
            }
        }
        proof {
            assert forall|q: int| 0 <= q < marks@.len() implies (marks@[q] <==> reaches(
                g,
                #[trigger] g.blocks[q].index,
                exit,
            )) by {
                if reaches(g, g.blocks[q].index, exit) {
                    let p = choose|p: Seq<usize>| #[trigger] is_path(g, p) && p[0] == g.blocks[q].index && p.last() == exit;
                    lemma_closed_marks_paths(g, marks@, p, exit);
                    g.lemma_block_pos(q);
                }
            }
        }
        marks
    }
}

} // verus!
