//! Unwinding of loops: a loop is replaced by a bounded number of copies of its body.
use crate::error::Error;
use crate::hir::transformation::{fold_results, lemma_fold_prefix_err, lemma_fold_push, not_view};
use crate::hir::{
    copy_index, distinct_indices, head_of, plain, BlockView, ControlFlowGraph, EdgeView, GraphView,
    Instruction, OperationView,
};
use crate::lir::{Boolean, Expression};
use vstd::prelude::*;

verus! {

/// What replaces the edges that leave the last unwound iteration of a loop.
#[derive(Clone, Copy, Debug, PartialEq, Eq, Structural)]
pub enum UnwindingGuard {
    Assumption,
    Assertion,
}

/// Unwinds each loop a bounded number of times.
#[derive(Clone, Copy, Debug, PartialEq, Eq, Structural)]
pub struct LoopUnwinding {
    pub unwinding_bound: usize,
    pub unwinding_guard: UnwindingGuard,
}

/// Whether a block index is among `nodes`.
pub open spec fn among(nodes: Seq<usize>) -> spec_fn(usize) -> bool {
    |x: usize| nodes.contains(x)
}

/// The back nodes of the loop with `header` and `nodes`: the predecessors of the header that
/// are loop nodes, in the order of the edges.
pub open spec fn back_nodes(g: GraphView, header: usize, nodes: Seq<usize>) -> Seq<usize> {
    g.in_edges(header).map_values(|e: EdgeView| head_of(e)).filter(among(nodes))
}

/// Removes the back edge from `b` to `h`; its condition, if any, is assumed not to hold at
/// the end of `b`.
pub open spec fn cut_back_edge(g: GraphView, b: usize, h: usize) -> Result<GraphView, Error> {
    if !g.has_edge(b, h) {
        Err(Error::EdgeNotFound { head: b, tail: h })
    } else {
        let g1 = g.without_edge(b, h);
        match g.edges[g.edge_pos(b, h)].condition {
            Some(c) => Ok(
                g1.with_block(
                    b,
                    BlockView {
                        instructions: g1.block(b).instructions.push(plain(OperationView::Assume { condition: not_view(c) })),
                        ..g1.block(b)
                    },
                ),
            ),
            None => Ok(g1),
        }
    }
}

/// Moves the edge from `h` to `t` to go from `nh` to `nt`, or the error.
pub open spec fn rewire_result(g: GraphView, h: usize, t: usize, nh: usize, nt: usize) -> Result<GraphView, Error> {
    if !g.has_edge(h, t) {
        Err(Error::EdgeNotFound { head: h, tail: t })
    } else if !g.has_block(nh) {
        Err(Error::BlockNotFound(nh))
    } else if !g.has_block(nt) {
        Err(Error::BlockNotFound(nt))
    } else if !(nh == h && nt == t) && g.has_edge(nh, nt) {
        Err(Error::EdgeExists { head: nh, tail: nt })
    } else {
        Ok(g.rewired(h, t, nh, nt))
    }
}

/// Cutting the back edge of back node `b` in the copy of the loop from `start`.
pub open spec fn cut_step(nodes: Seq<usize>, start: usize, h: usize) -> spec_fn(GraphView, usize) -> Result<
    GraphView,
    Error,
> {
    |g: GraphView, b: usize| cut_back_edge(g, copy_index(nodes, start, b), copy_index(nodes, start, h))
}

/// Moving the back edge of back node `b` in the copy of the loop from `start` to `target`.
pub open spec fn rewire_step(nodes: Seq<usize>, start: usize, h: usize, target: usize) -> spec_fn(
    GraphView,
    usize,
) -> Result<GraphView, Error> {
    |g: GraphView, b: usize|
        rewire_result(g, copy_index(nodes, start, b), copy_index(nodes, start, h), copy_index(nodes, start, b), target)
}

/// `k` more copies of the loop, each one's back edges going to the header of the copy made
/// before it (the first to `prev`); the graph and the header of the last copy.
#[verifier::opaque]
pub open spec fn more_copies(g: GraphView, h: usize, nodes: Seq<usize>, backs: Seq<usize>, k: nat, prev: usize) -> Result<
    (GraphView, usize),
    Error,
>
    decreases k,
{
    if k == 0 {
        Ok((g, prev))
    } else {
        match more_copies(g, h, nodes, backs, (k - 1) as nat, prev) {
            Err(e) => Err(e),
            Ok((g1, p1)) => match g1.duplicate_result(nodes) {
                Err(e) => Err(e),
                Ok(g2) => match fold_results(g2, backs, rewire_step(nodes, g1.next_index, h, p1)) {
                    Err(e) => Err(e),
                    Ok(g3) => Ok((g3, copy_index(nodes, g1.next_index, h))),
                },
            },
        }
    }
}

/// The loop with `header` and `nodes` unwound `bound` times: with bound 0 its back edges are
/// cut; otherwise a first copy of the loop is the last iteration, whose back edges are cut,
/// `bound - 1` further copies each go back to the copy before, and the back edges of the loop
/// go to the last copy made.
pub open spec fn unwound(g: GraphView, header: usize, nodes: Seq<usize>, bound: usize) -> Result<GraphView, Error> {
    let backs = back_nodes(g, header, nodes);
    if !g.has_block(header) {
        Err(Error::BlockNotFound(header))
    } else if bound == 0 {
        fold_results(g, backs, cut_step(Seq::empty(), 0, header))
    } else {
        match g.duplicate_result(nodes) {
            Err(e) => Err(e),
            Ok(g1) => match fold_results(g1, backs, cut_step(nodes, g.next_index, header)) {
                Err(e) => Err(e),
                Ok(g2) => match more_copies(g2, header, nodes, backs, (bound - 1) as nat, copy_index(nodes, g.next_index, header)) {
                    Err(e) => Err(e),
                    Ok((g3, last)) => fold_results(g3, backs, rewire_step(Seq::empty(), 0, header, last)),
                },
            },
        }
    }
}

/// Steps that keep the entry and the exit keep them over a fold.
proof fn lemma_fold_keeps_ends(init: GraphView, items: Seq<usize>, step: spec_fn(GraphView, usize) -> Result<GraphView, Error>)
    requires
        forall|g: GraphView, a: usize|
            (#[trigger] step(g, a)) matches Ok(t) ==> t.entry == g.entry && t.exit == g.exit,
    ensures
        fold_results(init, items, step) matches Ok(t) ==> t.entry == init.entry && t.exit == init.exit,
    decreases items.len(),
{
    if items.len() > 0 {
        lemma_fold_keeps_ends(init, items.drop_last(), step);
        if let Ok(s) = fold_results(init, items.drop_last(), step) {
            assert(step(s, items.last()) matches Ok(t) ==> t.entry == s.entry && t.exit == s.exit);
        }
    }
}

/// Cutting and moving back edges keep the entry and the exit.
proof fn lemma_steps_keep_ends(nodes: Seq<usize>, start: usize, h: usize, target: usize)
    ensures
        forall|g: GraphView, a: usize|
            (#[trigger] cut_step(nodes, start, h)(g, a)) matches Ok(t) ==> t.entry == g.entry && t.exit == g.exit,
        forall|g: GraphView, a: usize|
            (#[trigger] rewire_step(nodes, start, h, target)(g, a)) matches Ok(t) ==> t.entry == g.entry && t.exit
                == g.exit,
{
}

/// Making more copies of a loop keeps the entry and the exit.
proof fn lemma_more_copies_keep_ends(g: GraphView, h: usize, nodes: Seq<usize>, backs: Seq<usize>, k: nat, prev: usize)
    ensures
        more_copies(g, h, nodes, backs, k, prev) matches Ok((t, _last)) ==> t.entry == g.entry && t.exit == g.exit,
    decreases k,
{
    reveal(more_copies);
    if k > 0 {
        lemma_more_copies_keep_ends(g, h, nodes, backs, (k - 1) as nat, prev);
        if let Ok((g1, p1)) = more_copies(g, h, nodes, backs, (k - 1) as nat, prev) {
            if let Ok(g2) = g1.duplicate_result(nodes) {
                lemma_steps_keep_ends(nodes, g1.next_index, h, p1);
                lemma_fold_keeps_ends(g2, backs, rewire_step(nodes, g1.next_index, h, p1));
            }
        }
    }
}

/// Unwinding a loop keeps the entry and the exit of the graph.
pub proof fn law_unwinding_keeps_entry_and_exit(g: GraphView, header: usize, nodes: Seq<usize>, bound: usize)
    ensures
        unwound(g, header, nodes, bound) matches Ok(t) ==> t.entry == g.entry && t.exit == g.exit,
{
    let backs = back_nodes(g, header, nodes);
    lemma_steps_keep_ends(Seq::empty(), 0, header, 0);
    lemma_fold_keeps_ends(g, backs, cut_step(Seq::empty(), 0, header));
    if bound > 0 {
        if let Ok(g1) = g.duplicate_result(nodes) {
            lemma_steps_keep_ends(nodes, g.next_index, header, 0);
            lemma_fold_keeps_ends(g1, backs, cut_step(nodes, g.next_index, header));
            if let Ok(g2) = fold_results(g1, backs, cut_step(nodes, g.next_index, header)) {
                let first = copy_index(nodes, g.next_index, header);
                lemma_more_copies_keep_ends(g2, header, nodes, backs, (bound - 1) as nat, first);
                if let Ok((g3, last)) = more_copies(g2, header, nodes, backs, (bound - 1) as nat, first) {
                    lemma_steps_keep_ends(Seq::empty(), 0, header, last);
                    lemma_fold_keeps_ends(g3, backs, rewire_step(Seq::empty(), 0, header, last));
                }
            }
        }
    }
}

/// The loop nodes after unwinding: the old ones and the copies.
pub open spec fn unwound_nodes(g: GraphView, nodes: Seq<usize>, bound: usize) -> Seq<usize> {
    if bound == 0 {
        nodes
    } else {
        nodes + Seq::new((bound * nodes.len()) as nat, |k: int| (g.next_index + k) as usize)
    }
}

/// Cuts the back edge from `b` to `h`; its condition, if any, is assumed not to hold at the end
/// of `b`.
fn cut(cfg: &mut ControlFlowGraph, b: usize, h: usize) -> (r: Result<(), Error>)
    requires
        old(cfg).wf(),
    ensures
        final(cfg).wf(),
        (match cut_back_edge(old(cfg)@, b, h) {
            Ok(g2) => r is Ok && final(cfg)@ == g2,
            Err(e) => r == Err::<(), Error>(e),
        }),
        old(cfg).next_index == final(cfg).next_index,
{
    let ghost g = cfg@;
    let e = cfg.remove_edge(b, h)?;
    proof {
        g.lemma_edge_pos(g.edge_pos(b, h));
    }
    match e.condition {
        Some(c) => {
            let n = match Boolean::not(c) {
                Ok(n) => n,
                Err(err) => {
                    proof {
                        assert(false);
                    }
                    return Err(err);
                },
            };
            let a = match Instruction::assumption(n) {
                Ok(a) => a,
                Err(err) => {
                    proof {
                        assert(false);
                    }
                    return Err(err);
                },
            };
            let r = cfg.add_instruction(b, a);
            proof {
                assert(g.has_block(b));
            }
            assert(r is Ok);
            Ok(())
        },
        None => Ok(()),
    }
}

/// No copies: the graph and `prev`.
pub proof fn lemma_more_copies_zero(g: GraphView, h: usize, nodes: Seq<usize>, backs: Seq<usize>, prev: usize)
    ensures
        more_copies(g, h, nodes, backs, 0, prev) == Ok::<(GraphView, usize), Error>((g, prev)),
{
    reveal(more_copies);
}

/// One more copy after `k` copies.
pub proof fn lemma_more_copies_step(g: GraphView, h: usize, nodes: Seq<usize>, backs: Seq<usize>, k: nat, prev: usize)
    ensures
        more_copies(g, h, nodes, backs, k + 1, prev) == (match more_copies(g, h, nodes, backs, k, prev) {
            Err(e) => Err(e),
            Ok((g1, p1)) => match g1.duplicate_result(nodes) {
                Err(e) => Err(e),
                Ok(g2) => match fold_results(g2, backs, rewire_step(nodes, g1.next_index, h, p1)) {
                    Err(e) => Err(e),
                    Ok(g3) => Ok((g3, copy_index(nodes, g1.next_index, h))),
                },
            },
        }),
{
    reveal(more_copies);
}

/// More copies fail once fewer copies fail.
pub proof fn lemma_more_copies_err(g: GraphView, h: usize, nodes: Seq<usize>, backs: Seq<usize>, k: nat, k2: nat, prev: usize)
    requires
        k <= k2,
        more_copies(g, h, nodes, backs, k, prev) is Err,
    ensures
        more_copies(g, h, nodes, backs, k2, prev) == more_copies(g, h, nodes, backs, k, prev),
    decreases k2,
{
    if k2 > k {
        lemma_more_copies_err(g, h, nodes, backs, k, (k2 - 1) as nat, prev);
        lemma_more_copies_step(g, h, nodes, backs, (k2 - 1) as nat, prev);
    }
}

/// The index of the copy of block `x` when `nodes` are copied from `start`.
fn copy_of(nodes: &[usize], start: usize, x: usize) -> (r: usize)
    requires
        distinct_indices(nodes@),
        start + nodes@.len() <= usize::MAX,
    ensures
        r == copy_index(nodes@, start, x),
{
    let mut k: usize = 0;
    while k < nodes.len()
        invariant
            0 <= k <= nodes@.len(),
            distinct_indices(nodes@),
            start + nodes@.len() <= usize::MAX,
            forall|j: int| 0 <= j < k ==> nodes@[j] != x,
        decreases nodes@.len() - k,
    {
        if nodes[k] == x {
            proof {
                assert(nodes@.contains(x));
                let i = nodes@.index_of(x);
                assert(nodes@[i] == x);
                if i != k {
                    if i < k {
                    } else {
                        assert(nodes@[k as int] != nodes@[i]);
                    }
                }
            }
            return start + k;
        }
        k += 1;
    }
    x
}

/// A copy of a list of block indices.
fn copy_list(nodes: &[usize]) -> (r: Vec<usize>)
    ensures
        r@ == nodes@,
{
    let mut out: Vec<usize> = Vec::new();
    let mut k: usize = 0;
    while k < nodes.len()
        invariant
            0 <= k <= nodes@.len(),
            out@ == nodes@.take(k as int),
        decreases nodes@.len() - k,
    {
        out.push(nodes[k]);
        proof {
            assert(out@ =~= nodes@.take(k + 1));
        }
        k += 1;
    }
    proof {
        assert(nodes@.take(nodes@.len() as int) =~= nodes@);
    }
    out
}

/// Cuts the back edges of all back nodes in the copy of the loop from `start`.
fn cut_all(cfg: &mut ControlFlowGraph, backs: &Vec<usize>, nodes: &[usize], start: usize, h: usize) -> (r: Result<
    (),
    Error,
>)
    requires
        old(cfg).wf(),
        distinct_indices(nodes@),
        start + nodes@.len() <= usize::MAX,
    ensures
        final(cfg).wf(),
        (match fold_results(old(cfg)@, backs@, cut_step(nodes@, start, h)) {
            Ok(g2) => r is Ok && final(cfg)@ == g2,
            Err(e) => r == Err::<(), Error>(e),
        }),
        final(cfg).next_index == old(cfg).next_index,
{
    let ghost g = cfg@;
    let ch = copy_of(nodes, start, h);
    let mut i: usize = 0;
    while i < backs.len()
        invariant
            0 <= i <= backs@.len(),
            g == old(cfg)@,
            cfg.wf(),
            ch == copy_index(nodes@, start, h),
            distinct_indices(nodes@),
            start + nodes@.len() <= usize::MAX,
            cfg.next_index == g.next_index,
            fold_results(g, backs@.take(i as int), cut_step(nodes@, start, h)) == Ok::<GraphView, Error>(cfg@),
        decreases backs@.len() - i,
    {
        let b = backs[i];
        proof {
            assert(backs@.take(i + 1) =~= backs@.take(i as int).push(b));
            lemma_fold_push(g, backs@.take(i as int), cut_step(nodes@, start, h), b);
        }
        let cb = copy_of(nodes, start, b);
        match cut(cfg, cb, ch) {
            Ok(()) => {},
            Err(e) => {
                proof {
                    lemma_fold_prefix_err(g, backs@, cut_step(nodes@, start, h), i + 1);
                }
                return Err(e);
            },
        }
        i += 1;
    }
    proof {
        assert(backs@.take(backs@.len() as int) =~= backs@);
    }
    Ok(())
}

/// Moves the back edges of all back nodes in the copy of the loop from `start` to `target`.
fn rewire_all(
    cfg: &mut ControlFlowGraph,
    backs: &Vec<usize>,
    nodes: &[usize],
    start: usize,
    h: usize,
    target: usize,
) -> (r: Result<(), Error>)
    requires
        old(cfg).wf(),
        distinct_indices(nodes@),
        start + nodes@.len() <= usize::MAX,
    ensures
        final(cfg).wf(),
        (match fold_results(old(cfg)@, backs@, rewire_step(nodes@, start, h, target)) {
            Ok(g2) => r is Ok && final(cfg)@ == g2,
            Err(e) => r == Err::<(), Error>(e),
        }),
        final(cfg).next_index == old(cfg).next_index,
{
    let ghost g = cfg@;
    let ch = copy_of(nodes, start, h);
    let mut i: usize = 0;
    while i < backs.len()
        invariant
            0 <= i <= backs@.len(),
            g == old(cfg)@,
            cfg.wf(),
            ch == copy_index(nodes@, start, h),
            distinct_indices(nodes@),
            start + nodes@.len() <= usize::MAX,
            cfg.next_index == g.next_index,
            fold_results(g, backs@.take(i as int), rewire_step(nodes@, start, h, target)) == Ok::<GraphView, Error>(cfg@),
        decreases backs@.len() - i,
    {
        let b = backs[i];
        proof {
            assert(backs@.take(i + 1) =~= backs@.take(i as int).push(b));
            lemma_fold_push(g, backs@.take(i as int), rewire_step(nodes@, start, h, target), b);
        }
        let cb = copy_of(nodes, start, b);
        match cfg.rewire_edge(cb, ch, cb, target) {
            Ok(()) => {},
            Err(e) => {
                proof {
                    lemma_fold_prefix_err(g, backs@, rewire_step(nodes@, start, h, target), i + 1);
                }
                return Err(e);
            },
        }
        i += 1;
    }
    proof {
        assert(backs@.take(backs@.len() as int) =~= backs@);
    }
    Ok(())
}

/// The back nodes of the loop with `header` and `nodes`.
fn back_node_list(cfg: &ControlFlowGraph, header: usize, nodes: &[usize]) -> (r: Result<Vec<usize>, Error>)
    requires
        cfg.wf(),
    ensures
        r is Ok <==> cfg@.has_block(header),
        r is Ok ==> r.unwrap()@ == back_nodes(cfg@, header, nodes@),
        r is Err ==> r == Err::<Vec<usize>, Error>(Error::BlockNotFound(header)),
{
    let preds = cfg.predecessor_indices(header)?;
    let mut out: Vec<usize> = Vec::new();
    let mut i: usize = 0;
    while i < preds.len()
        invariant
            0 <= i <= preds@.len(),
            out@ == preds@.take(i as int).filter(among(nodes@)),
        decreases preds@.len() - i,
    {
        proof {
            reveal(Seq::filter);
            assert(preds@.take(i + 1).drop_last() =~= preds@.take(i as int));
        }
        let mut found = false;
        let mut k: usize = 0;
        while k < nodes.len() && !found
            invariant
                0 <= k <= nodes@.len(),
                0 <= i < preds@.len(),
                found ==> nodes@.contains(preds@[i as int]),
                !found ==> forall|j: int| 0 <= j < k ==> nodes@[j] != preds@[i as int],
            decreases nodes@.len() - k,
        {
            if nodes[k] == preds[i] {
                found = true;
            }
            k += 1;
        }
        if found {
            out.push(preds[i]);
        }
        i += 1;
    }
    proof {
        assert(preds@.take(preds@.len() as int) =~= preds@);
    }
    Ok(out)
}

/// Adds one copy of the loop whose back edges go to `prev`; returns the header of the copy.
fn add_one_copy(cfg: &mut ControlFlowGraph, backs: &Vec<usize>, nodes: &[usize], h: usize, prev: usize) -> (r: Result<
    usize,
    Error,
>)
    requires
        old(cfg).wf(),
        distinct_indices(nodes@),
    ensures
        final(cfg).wf(),
        (match old(cfg)@.duplicate_result(nodes@) {
            Err(e) => r == Err::<usize, Error>(e),
            Ok(g2) => match fold_results(g2, backs@, rewire_step(nodes@, old(cfg).next_index, h, prev)) {
                Err(e) => r == Err::<usize, Error>(e),
                Ok(g3) => r == Ok::<usize, Error>(copy_index(nodes@, old(cfg).next_index, h)) && final(cfg)@ == g3
                    && final(cfg).next_index == old(cfg).next_index + nodes@.len(),
            },
        }),
{
    let s = cfg.next_index;
    match cfg.duplicate_blocks(nodes) {
        Ok(_) => {},
        Err(e) => {
            return Err(e);
        },
    }
    rewire_all(cfg, backs, nodes, s, h, prev)?;
    Ok(copy_of(nodes, s, h))
}

/// Adds `count` copies of the loop, each one's back edges going to the header of the copy
/// made before it (the first to `prev`); returns the header of the last copy.
#[verifier::rlimit(80)]
fn add_copies(cfg: &mut ControlFlowGraph, backs: &Vec<usize>, nodes: &[usize], h: usize, count: usize, prev: usize) -> (r:
    Result<usize, Error>)
    requires
        old(cfg).wf(),
        distinct_indices(nodes@),
    ensures
        final(cfg).wf(),
        (match more_copies(old(cfg)@, h, nodes@, backs@, count as nat, prev) {
            Ok((g2, last)) => r == Ok::<usize, Error>(last) && final(cfg)@ == g2 && final(cfg).next_index == old(
                cfg,
            ).next_index + count * nodes@.len(),
            Err(e) => r == Err::<usize, Error>(e),
        }),
{
    let ghost g = cfg@;
    let n = nodes.len();
    let mut cur = prev;
    let ghost first = prev;
    proof {
        lemma_more_copies_zero(g, h, nodes@, backs@, first);
    }
    let mut i: usize = 0;
    while i < count
        invariant
            0 <= i <= count,
            cfg.wf(),
            g == old(cfg)@,
            distinct_indices(nodes@),
            n == nodes@.len(),
            cfg.next_index == g.next_index + i * n,
            first == prev,
            more_copies(g, h, nodes@, backs@, i as nat, first) == Ok::<(GraphView, usize), Error>((cfg@, cur)),
        decreases count - i,
    {
        proof {
            lemma_more_copies_step(g, h, nodes@, backs@, i as nat, first);
        }
        let ghost before = cfg@;
        let ghost prev0 = cur;
        cur = match add_one_copy(cfg, backs, nodes, h, cur) {
            Ok(p) => p,
            Err(e) => {
                proof {
                    assert(more_copies(g, h, nodes@, backs@, i as nat, first) == Ok::<(GraphView, usize), Error>((before, prev0)));
                    assert(more_copies(g, h, nodes@, backs@, (i + 1) as nat, first) == Err::<(GraphView, usize), Error>(e));
                    lemma_more_copies_err(g, h, nodes@, backs@, (i + 1) as nat, count as nat, first);
                }
                return Err(e);
            },
        };
        proof {
            assert((i + 1) * n == i * n + n) by (nonlinear_arith);
        }
        i += 1;
    }
    Ok(cur)
}

impl LoopUnwinding {
    /// No unwinding, guarded by assumptions.
    pub fn new() -> (r: Self)
        ensures
            r == (LoopUnwinding { unwinding_bound: 0, unwinding_guard: UnwindingGuard::Assumption }),
    {
        LoopUnwinding { unwinding_bound: 0, unwinding_guard: UnwindingGuard::Assumption }
    }

    /// Sets the number of times loops are unwound.
    pub fn with_unwinding_bound(&mut self, bound: usize) -> (r: &mut Self)
        ensures
            *r == (LoopUnwinding { unwinding_bound: bound, ..*old(self) }),
            *final(self) == *final(r),
    {
        self.unwinding_bound = bound;
        self
    }

    /// Sets the guard of the last unwound iteration.
    pub fn with_unwinding_guard(&mut self, guard: UnwindingGuard) -> (r: &mut Self)
        ensures
            *r == (LoopUnwinding { unwinding_guard: guard, ..*old(self) }),
            *final(self) == *final(r),
    {
        self.unwinding_guard = guard;
        self
    }

    /// Unwinds the loop with `loop_header` and `loop_nodes` (see `unwound`); returns the loop
    /// nodes with the copies. On an error the graph is left as it was.
    pub fn unwind_loop(&self, cfg: &mut ControlFlowGraph, loop_header: usize, loop_nodes: &[usize]) -> (r: Result<
        Vec<usize>,
        Error,
    >)
        requires
            old(cfg).wf(),
            distinct_indices(loop_nodes@),
            self.unwinding_bound > 0 ==> loop_nodes@.contains(loop_header),
        ensures
            final(cfg).wf(),
            (match unwound(old(cfg)@, loop_header, loop_nodes@, self.unwinding_bound) {
                Ok(g2) => r matches Ok(v) && final(cfg)@ == g2 && v@ == unwound_nodes(
                    old(cfg)@,
                    loop_nodes@,
                    self.unwinding_bound,
                ),
                Err(e) => r matches Err(e2) && e2 == e && final(cfg)@ == old(cfg)@,
            }),
            r is Ok && self.unwinding_bound > 0 ==> old(cfg)@.next_index + self.unwinding_bound * loop_nodes@.len()
                <= usize::MAX,
    {
        let mut work = cfg.clone();
        let r = self.unwind_loop_in(&mut work, loop_header, loop_nodes);
        if r.is_ok() {
            *cfg = work;
        }
        r
    }

    /// Unwinds the loop in place (see `unwind_loop`); on an error the graph is left partly
    /// changed.
    pub(crate) fn unwind_loop_in(&self, cfg: &mut ControlFlowGraph, loop_header: usize, loop_nodes: &[usize]) -> (r: Result<
        Vec<usize>,
        Error,
    >)
        requires
            old(cfg).wf(),
            distinct_indices(loop_nodes@),
            self.unwinding_bound > 0 ==> loop_nodes@.contains(loop_header),
        ensures
            final(cfg).wf(),
            (match unwound(old(cfg)@, loop_header, loop_nodes@, self.unwinding_bound) {
                Ok(g2) => r matches Ok(v) && final(cfg)@ == g2 && v@ == unwound_nodes(
                    old(cfg)@,
                    loop_nodes@,
                    self.unwinding_bound,
                ),
                Err(e) => r matches Err(e2) && e2 == e,
            }),
            r is Ok && self.unwinding_bound > 0 ==> old(cfg)@.next_index + self.unwinding_bound * loop_nodes@.len()
                <= usize::MAX,
    {
        let ghost g = cfg@;
        let backs = back_node_list(cfg, loop_header, loop_nodes)?;
        let empty: Vec<usize> = Vec::new();
        if self.unwinding_bound == 0 {
            proof {
                assert(empty@ =~= Seq::<usize>::empty());
            }
            cut_all(cfg, &backs, empty.as_slice(), 0, loop_header)?;
            return Ok(copy_list(loop_nodes));
        }
        let s0 = cfg.next_index;
        let n = loop_nodes.len();
        match cfg.duplicate_blocks(loop_nodes) {
            Ok(_) => {},
            Err(e) => {
                return Err(e);
            },
        }
        let ghost g1 = cfg@;
        match cut_all(cfg, &backs, loop_nodes, s0, loop_header) {
            Ok(()) => {},
            Err(e) => {
                return Err(e);
            },
        }
        let ghost g2 = cfg@;
        let first = copy_of(loop_nodes, s0, loop_header);
        let prev = match add_copies(cfg, &backs, loop_nodes, loop_header, self.unwinding_bound - 1, first) {
            Ok(p) => p,
            Err(e) => {
                return Err(e);
            },
        };
        proof {
            assert(cfg.next_index == s0 + n + (self.unwinding_bound - 1) * n);
            assert(n + (self.unwinding_bound - 1) * n == self.unwinding_bound * n) by (nonlinear_arith)
                requires
                    self.unwinding_bound >= 1,
            ;
        }
        match rewire_all(cfg, &backs, empty.as_slice(), 0, loop_header, prev) {
            Ok(()) => {},
            Err(e) => {
                proof {
                    assert(empty@ =~= Seq::<usize>::empty());
                }
                return Err(e);
            },
        }
        proof {
            assert(empty@ =~= Seq::<usize>::empty());
        }
        let mut result = copy_list(loop_nodes);
        let end = cfg.next_index;
        let mut x = s0;
        while x < end
            invariant
                s0 <= x <= end,
                end == s0 + self.unwinding_bound * n,
                result@ == loop_nodes@ + Seq::new((x - s0) as nat, |k: int| (s0 + k) as usize),
            decreases end - x,
        {
            result.push(x);
            proof {
                assert(result@ =~= loop_nodes@ + Seq::new((x + 1 - s0) as nat, |k: int| (s0 + k) as usize));
            }
            x += 1;
        }
        Ok(result)
    }
}

} // verus!
