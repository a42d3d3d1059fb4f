//! Unwinding all loops of a graph, innermost first, given its loops as a loop tree yields
//! them: each loop with its nodes and the loop that directly encloses it.
use crate::error::Error;
use crate::hir::transformation::{
    fold_results, lemma_fold_prefix_err, lemma_fold_push, unwound, unwound_nodes, LoopUnwinding, UnwindingGuard,
};
use crate::hir::{distinct_indices, without_dead_ends, ControlFlowGraph, GraphView, RemovedEdgeGuard};
use vstd::prelude::*;

verus! {

/// A natural loop: its header, its nodes, and the position of the loop that directly encloses
/// it in the list of loops, if any.
#[derive(Debug)]
pub struct NaturalLoop {
    pub header: usize,
    pub nodes: Vec<usize>,
    pub parent: Option<usize>,
}

/// `loops` are loops of `g`, innermost first: the nodes of each are distinct blocks of `g`
/// among which is its header, and the loop that directly encloses a loop comes after it and
/// holds all its nodes.
pub open spec fn is_loop_nest(g: GraphView, loops: Seq<NaturalLoop>) -> bool {
    forall|k: int|
        0 <= k < loops.len() ==> {
            &&& (#[trigger] loops[k]).nodes@.contains(loops[k].header)
            &&& distinct_indices(loops[k].nodes@)
            &&& forall|i: int| 0 <= i < loops[k].nodes@.len() ==> g.has_block(#[trigger] loops[k].nodes@[i])
            &&& loops[k].parent matches Some(p) ==> k < p < loops.len() && forall|i: int|
                0 <= i < loops[k].nodes@.len() ==> loops[p as int].nodes@.contains(#[trigger] loops[k].nodes@[i])
        }
}

/// The nodes of `a` followed by those of `b` that are not yet among them, each once.
pub open spec fn merged_nodes(a: Seq<usize>, b: Seq<usize>) -> Seq<usize>
    decreases b.len(),
{
    if b.len() == 0 {
        a
    } else {
        let m = merged_nodes(a, b.drop_last());
        if m.contains(b.last()) {
            m
        } else {
            m.push(b.last())
        }
    }
}

/// The guard of the edges into dead ends for an unwinding guard.
pub open spec fn removed_edge_guard(guard: UnwindingGuard) -> RemovedEdgeGuard {
    match guard {
        UnwindingGuard::Assumption => RemovedEdgeGuard::AssumeEdgeNotTaken,
        UnwindingGuard::Assertion => RemovedEdgeGuard::AssertEdgeNotTaken,
    }
}

/// The node lists the loops start with.
pub open spec fn initial_loop_nodes(loops: Seq<NaturalLoop>) -> Seq<Seq<usize>> {
    Seq::new(loops.len(), |k: int| loops[k].nodes@)
}

/// Unwinding loop `k` with its current nodes; its nodes become the unwound ones, which join
/// the nodes of the enclosing loop.
pub open spec fn unwind_loop_step(u: LoopUnwinding, loops: Seq<NaturalLoop>) -> spec_fn(
    (GraphView, Seq<Seq<usize>>),
    int,
) -> Result<(GraphView, Seq<Seq<usize>>), Error> {
    |st: (GraphView, Seq<Seq<usize>>), k: int|
        match unwound(st.0, loops[k].header, st.1[k], u.unwinding_bound) {
            Err(e) => Err(e),
            Ok(g2) => {
                let res = unwound_nodes(st.0, st.1[k], u.unwinding_bound);
                let sets = st.1.update(k, res);
                Ok(
                    (
                        g2,
                        match loops[k].parent {
                            Some(p) => if p < sets.len() {
                                sets.update(p as int, merged_nodes(sets[p as int], res))
                            } else {
                                sets
                            },
                            None => sets,
                        },
                    ),
                )
            },
        }
}

/// The node lists of the loops.
pub open spec fn node_views(sets: Seq<Vec<usize>>) -> Seq<Seq<usize>> {
    Seq::new(sets.len(), |j: int| sets[j]@)
}

/// The positions of the loops, in order.
pub open spec fn loop_positions(n: nat) -> Seq<int> {
    Seq::new(n, |k: int| k)
}

/// The graph with all loops unwound in the given order, then without its dead ends; fails
/// with the first error of an unwinding, or if the graph has no exit.
pub open spec fn unwound_cfg(u: LoopUnwinding, g: GraphView, loops: Seq<NaturalLoop>) -> Result<GraphView, Error> {
    match fold_results((g, initial_loop_nodes(loops)), loop_positions(loops.len()), unwind_loop_step(u, loops)) {
        Err(e) => Err(e),
        Ok((g2, _)) => if g2.exit is None {
            Err(Error::NoExit)
        } else {
            Ok(without_dead_ends(g2, removed_edge_guard(u.unwinding_guard)))
        },
    }
}

/// Merging keeps the nodes of `a` and adds those of `b`, each once.
proof fn lemma_merged_nodes(a: Seq<usize>, b: Seq<usize>)
    requires
        distinct_indices(a),
    ensures
        distinct_indices(merged_nodes(a, b)),
        forall|x: usize| a.contains(x) ==> #[trigger] merged_nodes(a, b).contains(x),
    decreases b.len(),
{
    if b.len() > 0 {
        lemma_merged_nodes(a, b.drop_last());
        let m = merged_nodes(a, b.drop_last());
        if !m.contains(b.last()) {
            assert forall|x: usize| a.contains(x) implies #[trigger] m.push(b.last()).contains(x) by {
                assert(m.contains(x));
                let i = choose|i: int| 0 <= i < m.len() && m[i] == x;
                assert(m.push(b.last())[i] == x);
            }
            assert forall|i: int, j: int| 0 <= i < j < m.push(b.last()).len() implies m.push(b.last())[i] != m.push(
                b.last(),
            )[j] by {
                if j == m.len() {
                    assert(m[i] == m.push(b.last())[i]);
                }
            }
        }
    }
}

/// A successful unwinding gives distinct nodes that include the old ones.
proof fn lemma_unwound_nodes(g: GraphView, header: usize, nodes: Seq<usize>, bound: usize)
    requires
        g.wf(),
        distinct_indices(nodes),
        unwound(g, header, nodes, bound) is Ok,
        bound > 0 ==> g.next_index + bound * nodes.len() <= usize::MAX,
    ensures
        distinct_indices(unwound_nodes(g, nodes, bound)),
        forall|x: usize| nodes.contains(x) ==> #[trigger] unwound_nodes(g, nodes, bound).contains(x),
{
    let r = unwound_nodes(g, nodes, bound);
    if bound > 0 {
        assert(g.duplicate_result(nodes) is Ok);
        assert forall|k: int| 0 <= k < nodes.len() implies nodes[k] < g.next_index by {
            assert(g.has_block(nodes[k]));
            let p = choose|p: int| 0 <= p < g.blocks.len() && (#[trigger] g.blocks[p]).index == nodes[k];
        }
        let fresh = Seq::new((bound * nodes.len()) as nat, |k: int| (g.next_index + k) as usize);
        assert(r == nodes + fresh);
        assert forall|i: int, j: int| 0 <= i < j < r.len() implies r[i] != r[j] by {
            if j < nodes.len() {
                assert(r[i] == nodes[i] && r[j] == nodes[j]);
            } else if i < nodes.len() {
                assert(r[i] == nodes[i]);
                assert(nodes[i] < g.next_index);
                assert(r[j] == fresh[j - nodes.len()]);
            } else {
                assert(r[i] == fresh[i - nodes.len()]);
                assert(r[j] == fresh[j - nodes.len()]);
            }
        }
        assert forall|x: usize| nodes.contains(x) implies #[trigger] r.contains(x) by {
            let i = choose|i: int| 0 <= i < nodes.len() && nodes[i] == x;
            assert(r[i] == x);
        }
    }
}

/// The nodes of `a` followed by those of `b` not yet among them.
fn merge_nodes(a: &Vec<usize>, b: &Vec<usize>) -> (r: Vec<usize>)
    ensures
        r@ == merged_nodes(a@, b@),
{
    let mut out: Vec<usize> = Vec::new();
    let mut i: usize = 0;
    while i < a.len()
        invariant
            0 <= i <= a@.len(),
            out@ == a@.take(i as int),
        decreases a@.len() - i,
    {
        out.push(a[i]);
        proof {
            assert(out@ =~= a@.take(i + 1));
        }
        i += 1;
    }
    assert(a@.take(a@.len() as int) =~= a@);
    let mut j: usize = 0;
    while j < b.len()
        invariant
            0 <= j <= b@.len(),
            out@ == merged_nodes(a@, b@.take(j as int)),
        decreases b@.len() - j,
    {
        proof {
            assert(b@.take(j + 1).drop_last() =~= b@.take(j as int));
        }
        let x = b[j];
        let mut seen = false;
        let mut k: usize = 0;
        while k < out.len()
            invariant
                0 <= k <= out@.len(),
                seen <==> exists|l: int| 0 <= l < k && out@[l] == x,
            decreases out@.len() - k,
        {
            if out[k] == x {
                seen = true;
            }
            k += 1;
        }
        proof {
            if out@.contains(x) {
                let l = choose|l: int| 0 <= l < out@.len() && out@[l] == x;
                assert(out@[l] == x);
            }
        }
        if !seen {
            out.push(x);
        }
        j += 1;
    }
    assert(b@.take(b@.len() as int) =~= b@);
    out
}

impl LoopUnwinding {
    /// Unwinds loop `k` with its current nodes `sets[k]`; they become the unwound nodes, which
    /// join the nodes of the enclosing loop.
    fn unwind_one(&self, cfg: &mut ControlFlowGraph, loops: &[NaturalLoop], sets: &mut Vec<Vec<usize>>, k: usize) -> (r:
        Result<(), Error>)
        requires
            old(cfg).wf(),
            k < loops@.len(),
            old(sets)@.len() == loops@.len(),
            forall|j: int| 0 <= j < old(sets)@.len() ==> distinct_indices(#[trigger] old(sets)@[j]@),
            self.unwinding_bound > 0 ==> forall|j: int|
                0 <= j < old(sets)@.len() ==> (#[trigger] old(sets)@[j]@).contains(loops@[j].header),
        ensures
            final(cfg).wf(),
            final(sets)@.len() == old(sets)@.len(),
            match unwind_loop_step(*self, loops@)((old(cfg)@, node_views(old(sets)@)), k as int) {
                Ok(st) => r is Ok && final(cfg)@ == st.0 && node_views(final(sets)@) == st.1,
                Err(e) => r == Err::<(), Error>(e),
            },
            r is Ok ==> forall|j: int| 0 <= j < final(sets)@.len() ==> distinct_indices(#[trigger] final(sets)@[j]@),
            r is Ok && self.unwinding_bound > 0 ==> forall|j: int|
                0 <= j < final(sets)@.len() ==> (#[trigger] final(sets)@[j]@).contains(loops@[j].header),
    {
        let ghost g = cfg@;
        let ghost sv = node_views(sets@);
        let n = sets.len();
        assert(sv[k as int] == sets@[k as int]@);
        let res = self.unwind_loop_in(cfg, loops[k].header, sets[k].as_slice())?;
        proof {
            lemma_unwound_nodes(g, loops@[k as int].header, sv[k as int], self.unwinding_bound);
        }
        let ghost res_view = res@;
        let ghost sets1 = sv.update(k as int, res_view);
        let parent = loops[k].parent;
        let mut merged: Option<Vec<usize>> = None;
        match parent {
            Some(p) => {
                if p < n {
                    if p == k {
                        merged = Some(merge_nodes(&res, &res));
                    } else {
                        merged = Some(merge_nodes(&sets[p], &res));
                    }
                }
            },
            None => {},
        }
        sets.set(k, res);
        assert(node_views(sets@) =~= sets1);
        match merged {
            Some(m) => {
                let p = parent.unwrap();
                proof {
                    lemma_merged_nodes(sets1[p as int], res_view);
                }
                sets.set(p, m);
                assert(node_views(sets@) =~= sets1.update(p as int, merged_nodes(sets1[p as int], res_view)));
            },
            None => {},
        }
        Ok(())
    }

    /// Unwinds all `loops` of `cfg`, in the given order, innermost first: each loop is
    /// unwound with its current nodes, and the unwound nodes join those of the loop that
    /// directly encloses it. Unwinding may leave blocks from which no path leads to the exit;
    /// they are removed, and the edges into them are guarded as `unwinding_guard` says.
    /// On an error the graph is left as it was.
    pub fn unwind_cfg(&self, cfg: &mut ControlFlowGraph, loops: &[NaturalLoop]) -> (r: Result<(), Error>)
        requires
            old(cfg).wf(),
            is_loop_nest(old(cfg)@, loops@),
        ensures
            final(cfg).wf(),
            match unwound_cfg(*self, old(cfg)@, loops@) {
                Ok(g) => r is Ok && final(cfg)@ == g,
                Err(e) => r == Err::<(), Error>(e) && final(cfg)@ == old(cfg)@,
            },
    {
        proof {
            assert forall|k: int| 0 <= k < loops@.len() implies distinct_indices(#[trigger] loops@[k].nodes@)
                && loops@[k].nodes@.contains(loops@[k].header) by {
                assert(is_loop_nest(old(cfg)@, loops@));
            }
        }
        let mut work = cfg.clone();
        let r = self.unwind_cfg_in(&mut work, loops);
        if r.is_ok() {
            *cfg = work;
        }
        r
    }

    /// Unwinds all loops in place (see `unwind_cfg`); on an error the graph is left partly
    /// changed.
    fn unwind_cfg_in(&self, cfg: &mut ControlFlowGraph, loops: &[NaturalLoop]) -> (r: Result<(), Error>)
        requires
            old(cfg).wf(),
            forall|k: int| 0 <= k < loops@.len() ==> distinct_indices(#[trigger] loops@[k].nodes@),
            self.unwinding_bound > 0 ==> forall|k: int|
                0 <= k < loops@.len() ==> (#[trigger] loops@[k].nodes@).contains(loops@[k].header),
        ensures
            final(cfg).wf(),
            match unwound_cfg(*self, old(cfg)@, loops@) {
                Ok(g) => r is Ok && final(cfg)@ == g,
                Err(e) => r == Err::<(), Error>(e),
            },
    {
        let ghost g0 = cfg@;
        let ghost step = unwind_loop_step(*self, loops@);
        let ghost init = (g0, initial_loop_nodes(loops@));
        let n = loops.len();
        let mut sets: Vec<Vec<usize>> = Vec::new();
        let mut k: usize = 0;
        while k < n
            invariant
                0 <= k <= n,
                n == loops@.len(),
                sets@.len() == k,
                forall|j: int| 0 <= j < k ==> (#[trigger] sets@[j])@ == loops@[j].nodes@,
            decreases n - k,
        {
            let mut copy: Vec<usize> = Vec::new();
            let mut i: usize = 0;
            while i < loops[k].nodes.len()
                invariant
                    0 <= k < n,
                    n == loops@.len(),
                    0 <= i <= loops@[k as int].nodes@.len(),
                    copy@ == loops@[k as int].nodes@.take(i as int),
                decreases loops@[k as int].nodes@.len() - i,
            {
                copy.push(loops[k].nodes[i]);
                proof {
                    assert(copy@ =~= loops@[k as int].nodes@.take(i + 1));
                }
                i += 1;
            }
            assert(loops@[k as int].nodes@.take(loops@[k as int].nodes@.len() as int) =~= loops@[k as int].nodes@);
            sets.push(copy);
            k += 1;
        }
        proof {
            assert(node_views(sets@) =~= initial_loop_nodes(loops@));
            assert(loop_positions(0) =~= Seq::<int>::empty());
        }
        let mut k: usize = 0;
        while k < n
            invariant
                0 <= k <= n,
                n == loops@.len(),
                sets@.len() == n,
                cfg.wf(),
                step == unwind_loop_step(*self, loops@),
                g0 == old(cfg)@,
                init == (g0, initial_loop_nodes(loops@)),
                fold_results(init, loop_positions(k as nat), step) == Ok::<(GraphView, Seq<Seq<usize>>), Error>(
                    (cfg@, node_views(sets@)),
                ),
                forall|j: int| 0 <= j < n ==> distinct_indices(#[trigger] sets@[j]@),
                self.unwinding_bound > 0 ==> forall|j: int| 0 <= j < n ==> (#[trigger] sets@[j]@).contains(loops@[j].header),
            decreases n - k,
        {
            let ghost st = (cfg@, node_views(sets@));
            proof {
                assert(loop_positions((k + 1) as nat) =~= loop_positions(k as nat).push(k as int));
                lemma_fold_push(init, loop_positions(k as nat), step, k as int);
            }
            match self.unwind_one(cfg, loops, &mut sets, k) {
                Ok(()) => {},
                Err(e) => {
                    proof {
                        assert(step(st, k as int) == Err::<(GraphView, Seq<Seq<usize>>), Error>(e));
                        assert(fold_results(init, loop_positions((k + 1) as nat), step) == Err::<
                            (GraphView, Seq<Seq<usize>>),
                            Error,
                        >(e));
                        assert(loop_positions(n as nat).take(k + 1) =~= loop_positions((k + 1) as nat));
                        lemma_fold_prefix_err(init, loop_positions(n as nat), step, k + 1);
                    }
                    return Err(e);
                },
            }
            k += 1;
        }
        proof {
            assert(loop_positions(n as nat) =~= loop_positions(loops@.len()));
        }
        let guard = match self.unwinding_guard {
            UnwindingGuard::Assumption => RemovedEdgeGuard::AssumeEdgeNotTaken,
            UnwindingGuard::Assertion => RemovedEdgeGuard::AssertEdgeNotTaken,
        };
        cfg.remove_dead_end_blocks(guard)
    }
}

} // verus!
