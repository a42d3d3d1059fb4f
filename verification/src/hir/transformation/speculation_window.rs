//! The speculation window left in the blocks of a transient control-flow graph, and the
//! removal of the edges that no transient execution can take.
use crate::error::Error;
use crate::hir::transformation::no_labels;
use crate::hir::{
    edge_views, leaves, lemma_leaving_edges, real_instruction_count, tail_of, unconditional,
    ControlFlowGraph, Edge, EdgeLabels, EdgeView, GraphView,
};
use vstd::prelude::*;

verus! {

/// The number of instructions of the block at position `p` that are no pseudo instructions.
pub open spec fn block_cost(g: GraphView, p: int) -> nat {
    real_instruction_count(g.blocks[p].instructions)
}

/// The window left after the block at position `p` when `m[p]` is left before it.
pub open spec fn window_after(g: GraphView, m: Seq<nat>, p: int) -> nat {
    if m[p] > block_cost(g, p) {
        (m[p] - block_cost(g, p)) as nat
    } else {
        0
    }
}

/// The window with which transient execution starts in the block at position `p`.
pub open spec fn window_at_entry(g: GraphView, entries: Seq<usize>, w: nat, p: int) -> nat {
    if entries.contains(g.blocks[p].index) {
        w
    } else {
        0
    }
}

/// `m` bounds, for each block position, the window left before the block: at least `w` at the
/// entries, and at least what any predecessor leaves.
pub open spec fn is_window_bound(g: GraphView, entries: Seq<usize>, w: nat, m: Seq<nat>) -> bool {
    &&& m.len() == g.blocks.len()
    &&& forall|p: int| 0 <= p < m.len() ==> window_at_entry(g, entries, w, p) <= #[trigger] m[p]
    &&& forall|i: int|
        0 <= i < g.edges.len() ==> window_after(g, m, g.block_pos((#[trigger] g.edges[i]).head)) <= m[g.block_pos(
            g.edges[i].tail,
        )]
}

/// `m` is the least bound.
pub open spec fn is_least_window_bound(g: GraphView, entries: Seq<usize>, w: nat, m: Seq<nat>) -> bool {
    &&& is_window_bound(g, entries, w, m)
    &&& forall|m2: Seq<nat>|
        #[trigger] is_window_bound(g, entries, w, m2) ==> forall|p: int| 0 <= p < m.len() ==> m[p] <= m2[p]
}

/// The greatest speculation window left before each block (by position) over all transient
/// executions that start at `entries` with window `w`.
pub open spec fn remaining_windows(g: GraphView, entries: Seq<usize>, w: nat) -> Seq<nat> {
    choose|m: Seq<nat>| is_least_window_bound(g, entries, w, m)
}

/// Whether no window is left after the block at position `p`.
pub open spec fn exhausted(g: GraphView, entries: Seq<usize>, w: nat, p: int) -> bool {
    window_after(g, remaining_windows(g, entries, w), p) == 0
}

/// Whether an edge leaves a block after which some window is left.
pub open spec fn keeps(g: GraphView, entries: Seq<usize>, w: nat) -> spec_fn(EdgeView) -> bool {
    |e: EdgeView| !exhausted(g, entries, w, g.block_pos(e.head))
}

/// Whether no window is left after the block at a position.
pub open spec fn exhausted_at(g: GraphView, entries: Seq<usize>, w: nat) -> spec_fn(int) -> bool {
    |p: int| exhausted(g, entries, w, p)
}

/// The positions `0 .. n`.
pub open spec fn positions(n: nat) -> Seq<int> {
    Seq::new(n, |p: int| p)
}

/// The positions of the blocks after which no window is left, in order.
pub open spec fn exhausted_positions(g: GraphView, entries: Seq<usize>, w: nat) -> Seq<int> {
    positions(g.blocks.len()).filter(exhausted_at(g, entries, w))
}

/// The edge from the block at position `p` to `resolve`.
pub open spec fn resolve_edge(g: GraphView, resolve: usize) -> spec_fn(int) -> EdgeView {
    |p: int| unconditional(g.blocks[p].index, resolve, no_labels())
}

/// The graph in which every block after which no window is left goes to `resolve` only.
pub open spec fn cut_graph(g: GraphView, entries: Seq<usize>, w: nat, resolve: usize) -> GraphView {
    GraphView {
        edges: g.edges.filter(keeps(g, entries, w)) + exhausted_positions(g, entries, w).map_values(
            resolve_edge(g, resolve),
        ),
        ..g
    }
}

/// Whether every entry is a block of `g`.
pub open spec fn entries_exist(g: GraphView, entries: Seq<usize>) -> bool {
    forall|k: int| 0 <= k < entries.len() ==> g.has_block(#[trigger] entries[k])
}

/// The last entry that is no block of `g`.
pub open spec fn last_missing_entry(g: GraphView, entries: Seq<usize>, k: int) -> bool {
    &&& 0 <= k < entries.len()
    &&& !g.has_block(entries[k])
    &&& forall|j: int| k < j < entries.len() ==> g.has_block(#[trigger] entries[j])
}

/// The slack of a window vector below `w`.
pub open spec fn slack(s: Seq<usize>, w: usize) -> nat
    decreases s.len(),
{
    if s.len() == 0 {
        0
    } else {
        (if s.last() <= w {
            (w - s.last()) as nat
        } else {
            0
        }) + slack(s.drop_last(), w)
    }
}

/// Raising one entry lowers the slack.
proof fn lemma_slack_update(s: Seq<usize>, p: int, v: usize, w: usize)
    requires
        0 <= p < s.len(),
        s[p] < v <= w,
    ensures
        slack(s.update(p, v), w) < slack(s, w),
    decreases s.len(),
{
    let t = s.update(p, v);
    if p == s.len() - 1 {
        assert(t.drop_last() =~= s.drop_last());
    } else {
        assert(t.drop_last() =~= s.drop_last().update(p, v));
        lemma_slack_update(s.drop_last(), p, v, w);
    }
}

/// The least bound is unique.
proof fn lemma_least_unique(g: GraphView, entries: Seq<usize>, w: nat, m1: Seq<nat>, m2: Seq<nat>)
    requires
        is_least_window_bound(g, entries, w, m1),
        is_least_window_bound(g, entries, w, m2),
    ensures
        m1 == m2,
{
    assert(is_window_bound(g, entries, w, m1));
    assert(is_window_bound(g, entries, w, m2));
    assert(m1 =~= m2);
}

/// The window values as natural numbers.
pub open spec fn nat_windows(s: Seq<usize>) -> Seq<nat> {
    s.map_values(|x: usize| x as nat)
}

/// Checks that every entry is a block; otherwise fails with the last entry that is none.
fn check_entries(cfg: &ControlFlowGraph, entries: &[usize]) -> (r: Result<(), Error>)
    requires
        cfg.wf(),
    ensures
        r is Ok <==> entries_exist(cfg@, entries@),
        r is Err ==> exists|k: int|
            last_missing_entry(cfg@, entries@, k) && r == Err::<(), Error>(Error::BlockNotFound(entries@[k])),
{
    let mut k: usize = entries.len();
    while k > 0
        invariant
            0 <= k <= entries@.len(),
            cfg.wf(),
            forall|j: int| k <= j < entries@.len() ==> cfg@.has_block(#[trigger] entries@[j]),
        decreases k,
    {
        k -= 1;
        if !cfg.has_block(entries[k]) {
            assert(last_missing_entry(cfg@, entries@, k as int));
            return Err(Error::BlockNotFound(entries[k]));
        }
    }
    Ok(())
}

/// Computes the remaining speculation window before each block (by position) of the
/// transient executions that start at `entries` with window `w`. Fails if an entry is no
/// block, with the last such entry.
pub fn window_analysis(cfg: &ControlFlowGraph, entries: &[usize], w: usize) -> (r: Result<Vec<usize>, Error>)
    requires
        cfg.wf(),
    ensures
        r is Ok <==> entries_exist(cfg@, entries@),
        r is Ok ==> nat_windows(r.unwrap()@) == remaining_windows(cfg@, entries@, w as nat) && r.unwrap()@.len()
            == cfg@.blocks.len(),
        r is Err ==> exists|k: int|
            last_missing_entry(cfg@, entries@, k) && r == Err::<Vec<usize>, Error>(Error::BlockNotFound(entries@[k])),
{
    match check_entries(cfg, entries) {
        Ok(()) => {},
        Err(e) => {
            return Err(e);
        },
    }
    let ghost g = cfg@;
    let ghost ent = entries@;
    let n = cfg.blocks.len();
    let mut win: Vec<usize> = Vec::new();
    let mut p: usize = 0;
    while p < n
        invariant
            0 <= p <= n,
            n == g.blocks.len(),
            g == cfg@,
            win@.len() == p,
            forall|q: int| 0 <= q < p ==> #[trigger] win@[q] == 0,
        decreases n - p,
    {
        win.push(0);
        p += 1;
    }
    let mut queue: Vec<usize> = Vec::new();
    let mut k: usize = 0;
    while k < entries.len()
        invariant
            0 <= k <= entries@.len(),
            cfg.wf(),
            g == cfg@,
            ent == entries@,
            n == g.blocks.len(),
            entries_exist(g, ent),
            win@.len() == n,
            queue@ == ent.take(k as int),
            forall|q: int| 0 <= q < n ==> #[trigger] win@[q] <= w,
            forall|q: int|
                0 <= q < n ==> (#[trigger] win@[q] == w || win@[q] == 0) && (ent.take(k as int).contains(g.blocks[q].index)
                    ==> win@[q] == w),
            forall|q: int| 0 <= q < n && win@[q] != 0 ==> ent.take(k as int).contains(#[trigger] g.blocks[q].index),
        decreases entries@.len() - k,
    {
        let pos = match cfg.block_position(entries[k]) {
            Some(pos) => pos,
            None => {
                proof {
                    assert(g.has_block(ent[k as int]));
                }
                return Err(Error::BlockNotFound(entries[k]));
            },
        };
        win.set(pos, w);
        queue.push(entries[k]);
        k += 1;
        proof {
            let kk = k - 1;
            assert(ent.take(k as int) =~= ent.take(kk as int).push(ent[kk as int]));
            assert forall|q: int| 0 <= q < n && ent.take(k as int).contains(g.blocks[q].index) implies win@[q] == w by {
                if !ent.take(kk as int).contains(g.blocks[q].index) {
                    assert(g.blocks[q].index == ent[kk as int]);
                    g.lemma_block_pos(q);
                }
            }
            assert forall|q: int| 0 <= q < n && win@[q] != 0 implies ent.take(k as int).contains(#[trigger] g.blocks[q].index) by {
                if q == pos as int {
                    assert(ent.take(k as int)[kk as int] == g.blocks[q].index);
                } else {
                    assert(ent.take(kk as int).contains(g.blocks[q].index));
                    let j = choose|j: int| 0 <= j < kk && ent.take(kk as int)[j] == g.blocks[q].index;
                    assert(ent.take(k as int)[j] == g.blocks[q].index);
                }
            }
        }
    }
    proof {
        assert(ent.take(ent.len() as int) =~= ent);
        assert forall|q: int| 0 <= q < n implies window_at_entry(g, ent, w as nat, q) <= #[trigger] win@[q] by {}
        assert forall|m2: Seq<nat>| #[trigger] is_window_bound(g, ent, w as nat, m2) implies forall|q: int|
            0 <= q < n ==> win@[q] <= m2[q] by {
            assert forall|q: int| 0 <= q < n implies win@[q] <= m2[q] by {
                assert(window_at_entry(g, ent, w as nat, q) <= m2[q]);
            }
        }
    }
    while queue.len() > 0
        invariant
            cfg.wf(),
            g == cfg@,
            ent == entries@,
            n == g.blocks.len(),
            win@.len() == n,
            forall|q: int| 0 <= q < n ==> #[trigger] win@[q] <= w,
            forall|q: int| 0 <= q < n ==> window_at_entry(g, ent, w as nat, q) <= #[trigger] win@[q],
            forall|j: int| 0 <= j < queue@.len() ==> g.has_block(#[trigger] queue@[j]),
            forall|m2: Seq<nat>| #[trigger]
                is_window_bound(g, ent, w as nat, m2) ==> forall|q: int| 0 <= q < n ==> win@[q] <= m2[q],
            forall|i: int|
                0 <= i < g.edges.len() && !queue@.contains((#[trigger] g.edges[i]).head) ==> window_after(
                    g,
                    nat_windows(win@),
                    g.block_pos(g.edges[i].head),
                ) <= win@[g.block_pos(g.edges[i].tail)],
        decreases queue@.len() + slack(win@, w),
    {
        let ghost q0 = queue@;
        let ghost win0 = win@;
        let ghost measure0 = queue@.len() + slack(win@, w);
        let index = queue.pop().unwrap();
        proof {
            assert(q0 =~= queue@.push(index));
        }
        let pos = match cfg.block_position(index) {
            Some(pos) => pos,
            None => {
                proof {
                    assert(q0[q0.len() - 1] == index);
                }
                return Err(Error::BlockNotFound(index));
            },
        };
        let cost = cfg.blocks[pos].instruction_count_ignoring_pseudo_instructions();
        let out = if win[pos] > cost {
            win[pos] - cost
        } else {
            0
        };
        proof {
            assert(out == window_after(g, nat_windows(win0), pos as int));
        }
        let succs = match cfg.successor_indices(index) {
            Ok(s) => s,
            Err(_) => {
                proof {
                    assert(false);
                }
                return Err(Error::BlockNotFound(index));
            },
        };
        proof {
            lemma_leaving_edges(g.edges, index);
            broadcast use vstd::seq_lib::group_filter_ensures;
        }
        let ghost outs = g.out_edges(index);
        let mut j: usize = 0;
        while j < succs.len()
            invariant
                0 <= j <= succs@.len(),
                cfg.wf(),
                g == cfg@,
                ent == entries@,
                n == g.blocks.len(),
                win@.len() == n,
                pos < n,
                g.blocks[pos as int].index == index,
                g.block_pos(index) == pos,
                outs == g.out_edges(index),
                succs@ == outs.map_values(|e: EdgeView| tail_of(e)),
                forall|k2: int| 0 <= k2 < outs.len() ==> (#[trigger] outs[k2]).head == index && g.edges.contains(outs[k2]),
                forall|i: int| 0 <= i < g.edges.len() && (#[trigger] g.edges[i]).head == index ==> outs.contains(g.edges[i]),
                out == window_after(g, nat_windows(win0), pos as int),
                out <= w,
                win0.len() == n,
                forall|q: int| 0 <= q < n ==> win0[q] <= #[trigger] win@[q],
                forall|q: int| 0 <= q < n ==> #[trigger] win@[q] <= w,
                forall|q: int| 0 <= q < n ==> window_at_entry(g, ent, w as nat, q) <= #[trigger] win@[q],
                forall|jj: int| 0 <= jj < queue@.len() ==> g.has_block(#[trigger] queue@[jj]),
                forall|m2: Seq<nat>| #[trigger]
                    is_window_bound(g, ent, w as nat, m2) ==> forall|q: int| 0 <= q < n ==> win0[q] <= m2[q],
                forall|m2: Seq<nat>| #[trigger]
                    is_window_bound(g, ent, w as nat, m2) ==> forall|q: int| 0 <= q < n ==> win@[q] <= m2[q],
                forall|q: int| 0 <= q < n && win@[q] != win0[q] ==> queue@.contains(#[trigger] g.blocks[q].index),
                forall|k2: int| 0 <= k2 < j ==> out <= win@[g.block_pos(#[trigger] succs@[k2])],
                forall|i: int|
                    0 <= i < g.edges.len() && !q0.contains((#[trigger] g.edges[i]).head) ==> window_after(
                        g,
                        nat_windows(win0),
                        g.block_pos(g.edges[i].head),
                    ) <= win0[g.block_pos(g.edges[i].tail)],
                q0.len() > 0,
                q0 == q0.drop_last().push(index),
                queue@.len() >= q0.len() - 1,
                queue@.take(q0.len() - 1) == q0.drop_last(),
                queue@.len() + slack(win@, w) < measure0,
            decreases succs@.len() - j,
        {
            let s = succs[j];
            proof {
                assert(outs.contains(outs[j as int]));
                let e = outs[j as int];
                assert(g.edges.contains(e));
                assert(g.has_block(e.tail)) by {
                    let i = choose|i: int| 0 <= i < g.edges.len() && g.edges[i] == e;
                    assert(g.edges[i] == e);
                }
            }
            let ps = match cfg.block_position(s) {
                Some(ps) => ps,
                None => {
                    proof {
                        assert(false);
                    }
                    return Err(Error::BlockNotFound(s));
                },
            };
            if out > win[ps] {
                let ghost before = win@;
                proof {
                    lemma_slack_update(before, ps as int, out, w);
                    let e = outs[j as int];
                    let i = choose|i: int| 0 <= i < g.edges.len() && g.edges[i] == e;
                    assert(g.edges[i] == e);
                    assert forall|m2: Seq<nat>| #[trigger] is_window_bound(g, ent, w as nat, m2) implies forall|q: int|
                        0 <= q < n ==> before.update(ps as int, out)[q] <= m2[q] by {
                        assert(window_after(g, m2, g.block_pos(g.edges[i].head)) <= m2[g.block_pos(g.edges[i].tail)]);
                        assert(win0[pos as int] <= m2[pos as int]);
                    }
                }
                let ghost qb = queue@;
                win.set(ps, out);
                queue.push(s);
                proof {
                    assert(queue@ =~= qb.push(s));
                    assert(queue@.take(q0.len() - 1) =~= q0.drop_last()) by {
                        assert(qb.take(q0.len() - 1) =~= q0.drop_last());
                    }
                    assert(g.blocks[ps as int].index == s);
                    assert(queue@[queue@.len() - 1] == s);
                    assert forall|q: int| 0 <= q < n && win@[q] != win0[q] implies queue@.contains(#[trigger] g.blocks[q].index) by {
                        if q == ps as int {
                            assert(queue@[queue@.len() - 1] == g.blocks[q].index);
                        } else {
                            assert(qb.contains(g.blocks[q].index));
                            let jj = choose|jj: int| 0 <= jj < qb.len() && qb[jj] == g.blocks[q].index;
                            assert(queue@[jj] == g.blocks[q].index);
                        }
                    }
                }
            }
            j += 1;
        }
        proof {
            assert forall|i: int|
                0 <= i < g.edges.len() && !queue@.contains((#[trigger] g.edges[i]).head) implies window_after(
                g,
                nat_windows(win@),
                g.block_pos(g.edges[i].head),
            ) <= win@[g.block_pos(g.edges[i].tail)] by {
                let h = g.edges[i].head;
                let hp = g.block_pos(h);
                let tp = g.block_pos(g.edges[i].tail);
                assert(g.has_block(h));
                g.lemma_block(h);
                g.lemma_block(g.edges[i].tail);
                assert(win@[hp] == win0[hp]) by {
                    if win@[hp] != win0[hp] {
                        assert(queue@.contains(g.blocks[hp].index));
                    }
                }
                if h == index {
                    assert(outs.contains(g.edges[i]));
                    let k2 = choose|k2: int| 0 <= k2 < outs.len() && outs[k2] == g.edges[i];
                    assert(succs@[k2] == g.edges[i].tail);
                } else {
                    assert(!q0.contains(h)) by {
                        if q0.contains(h) {
                            let jj = choose|jj: int| 0 <= jj < q0.len() && q0[jj] == h;
                            assert(jj < q0.len() - 1);
                            assert(queue@[jj] == h);
                        }
                    }
                }
            }
        }
    }
    proof {
        let m = nat_windows(win@);
        assert(queue@.len() == 0);
        assert(is_window_bound(g, ent, w as nat, m));
        assert forall|m2: Seq<nat>| #[trigger] is_window_bound(g, ent, w as nat, m2) implies forall|q: int|
            0 <= q < m.len() ==> m[q] <= m2[q] by {}
        assert(is_least_window_bound(g, ent, w as nat, m));
        lemma_least_unique(g, ent, w as nat, m, remaining_windows(g, ent, w as nat));
    }
    Ok(win)
}

/// Removes all transient edges that no transient execution can take: the speculation window
/// left before each block is the greatest one over the transient executions that start at
/// `transient_entries` with window `init_spec_window`; every block after which no window is
/// left loses its outgoing edges and goes to the exit (the resolution) instead. Fails if an
/// entry is no block, with the last such entry, and leaves the graph unchanged then.
pub fn remove_unreachable_transient_edges(
    cfg: &mut ControlFlowGraph,
    transient_entries: &[usize],
    init_spec_window: usize,
) -> (r: Result<(), Error>)
    requires
        old(cfg).wf(),
        old(cfg).exit is Some,
    ensures
        final(cfg).wf(),
        r is Ok <==> entries_exist(old(cfg)@, transient_entries@),
        r is Ok ==> final(cfg)@ == cut_graph(
            old(cfg)@,
            transient_entries@,
            init_spec_window as nat,
            old(cfg).exit.unwrap(),
        ),
        r is Err ==> final(cfg)@ == old(cfg)@ && exists|k: int|
            last_missing_entry(old(cfg)@, transient_entries@, k) && r == Err::<(), Error>(
                Error::BlockNotFound(transient_entries@[k]),
            ),
{
    let ghost g = cfg@;
    let ghost ent = transient_entries@;
    let ghost wn = init_spec_window as nat;
    let resolve = match cfg.exit {
        Some(e) => e,
        None => {
            proof {
                assert(false);
            }
            return Err(Error::NoExit);
        },
    };
    let win = window_analysis(cfg, transient_entries, init_spec_window)?;
    let n = cfg.blocks.len();
    let mut edges: Vec<Edge> = Vec::new();
    let mut i: usize = 0;
    while i < cfg.edges.len()
        invariant
            0 <= i <= cfg.edges@.len(),
            cfg.wf(),
            g == cfg@,
            nat_windows(win@) == remaining_windows(g, ent, wn),
            win@.len() == n,
            n == g.blocks.len(),
            edge_views(edges@) == g.edges.take(i as int).filter(keeps(g, ent, wn)),
            forall|k: int| 0 <= k < edges@.len() ==> exists|j: int| 0 <= j < i && g.edges[j] == #[trigger] edges@[k]@,
            forall|k: int| 0 <= k < edges@.len() ==> !exhausted(g, ent, wn, g.block_pos(#[trigger] edges@[k]@.head)),
            forall|k: int, k2: int|
                0 <= k < k2 < edges@.len() ==> !((#[trigger] edges@[k]@).head == (#[trigger] edges@[k2]@).head
                    && edges@[k]@.tail == edges@[k2]@.tail),
        decreases cfg.edges@.len() - i,
    {
        proof {
            reveal(Seq::filter);
            assert(g.edges.take(i + 1).drop_last() =~= g.edges.take(i as int));
            assert(g.has_block(g.edges[i as int].head));
        }
        let hp = match cfg.block_position(cfg.edges[i].head) {
            Some(hp) => hp,
            None => {
                proof {
                    assert(false);
                }
                return Err(Error::BlockNotFound(cfg.edges[i].head));
            },
        };
        let cost = cfg.blocks[hp].instruction_count_ignoring_pseudo_instructions();
        proof {
            assert(nat_windows(win@)[hp as int] == win@[hp as int]);
        }
        if win[hp] > cost {
            let ghost before = edges@;
            edges.push(cfg.edges[i].clone());
            proof {
                assert(edge_views(edges@) =~= edge_views(before).push(g.edges[i as int]));
                assert forall|k: int| 0 <= k < edges@.len() implies exists|j: int| 0 <= j < i + 1 && g.edges[j] == #[trigger] edges@[k]@ by {
                    if k < before.len() {
                        assert(before[k] == edges@[k]);
                    } else {
                        assert(g.edges[i as int] == edges@[k]@);
                    }
                }
                assert forall|k: int, k2: int|
                    0 <= k < k2 < edges@.len() implies !((#[trigger] edges@[k]@).head == (#[trigger] edges@[k2]@).head
                    && edges@[k]@.tail == edges@[k2]@.tail) by {
                    assert(before[k] == edges@[k]);
                    if k2 < before.len() {
                        assert(before[k2] == edges@[k2]);
                    } else {
                        let j = choose|j: int| 0 <= j < i && g.edges[j] == #[trigger] before[k]@;
                        assert(g.edges[j] == edges@[k]@);
                        assert(g.edges[i as int] == edges@[k2]@);
                    }
                }
            }
        }
        i += 1;
    }
    proof {
        assert(g.edges.take(g.edges.len() as int) =~= g.edges);
    }
    let ghost kept = edge_views(edges@);
    let ghost nk = edges@.len();
    let mut p: usize = 0;
    while p < n
        invariant
            0 <= p <= n,
            cfg.wf(),
            g == cfg@,
            g.exit == Some(resolve),
            nat_windows(win@) == remaining_windows(g, ent, wn),
            win@.len() == n,
            n == g.blocks.len(),
            kept == g.edges.filter(keeps(g, ent, wn)),
            nk == kept.len(),
            edges@.len() >= nk,
            edge_views(edges@) == kept + positions(p as nat).filter(exhausted_at(g, ent, wn)).map_values(
                resolve_edge(g, resolve),
            ),
            forall|k: int| 0 <= k < nk ==> exists|j: int| 0 <= j < g.edges.len() && g.edges[j] == #[trigger] edges@[k]@,
            forall|k: int| 0 <= k < nk ==> !exhausted(g, ent, wn, g.block_pos(#[trigger] edges@[k]@.head)),
            forall|k: int|
                nk <= k < edges@.len() ==> exists|q: int|
                    0 <= q < p && exhausted(g, ent, wn, q) && (#[trigger] edges@[k]@) == unconditional(
                        g.blocks[q].index,
                        resolve,
                        no_labels(),
                    ),
            forall|k: int, k2: int|
                nk <= k < k2 < edges@.len() ==> (#[trigger] edges@[k]@).head != (#[trigger] edges@[k2]@).head,
            forall|k: int, k2: int|
                0 <= k < k2 < nk ==> !((#[trigger] edges@[k]@).head == (#[trigger] edges@[k2]@).head
                    && edges@[k]@.tail == edges@[k2]@.tail),
        decreases n - p,
    {
        proof {
            reveal(Seq::filter);
            assert(positions((p + 1) as nat).drop_last() =~= positions(p as nat));
        }
        let cost = cfg.blocks[p].instruction_count_ignoring_pseudo_instructions();
        proof {
            assert(nat_windows(win@)[p as int] == win@[p as int]);
        }
        if !(win[p] > cost) {
            let ghost before = edges@;
            let e = Edge { head: cfg.blocks[p].index, tail: resolve, condition: None, labels: EdgeLabels::none() };
            edges.push(e);
            proof {
                assert(edge_views(edges@) =~= edge_views(before).push(resolve_edge(g, resolve)(p as int)));
                assert(exhausted(g, ent, wn, p as int));
                assert forall|k: int| nk <= k < edges@.len() implies exists|q: int|
                    0 <= q < p + 1 && exhausted(g, ent, wn, q) && (#[trigger] edges@[k]@) == unconditional(
                        g.blocks[q].index,
                        resolve,
                        no_labels(),
                    ) by {
                    if k < before.len() {
                        assert(before[k] == edges@[k]);
                    } else {
                        assert(edges@[k]@ == unconditional(g.blocks[p as int].index, resolve, no_labels()));
                    }
                }
                assert forall|k: int, k2: int| nk <= k < k2 < edges@.len() implies (#[trigger] edges@[k]@).head
                    != (#[trigger] edges@[k2]@).head by {
                    if k2 == edges@.len() - 1 {
                        assert(before[k] == edges@[k]);
                        let q = choose|q: int|
                            0 <= q < p && exhausted(g, ent, wn, q) && (#[trigger] before[k]@) == unconditional(
                                g.blocks[q].index,
                                resolve,
                                no_labels(),
                            );
                        assert(g.blocks[q].index != g.blocks[p as int].index);
                    } else {
                        assert(before[k] == edges@[k]);
                        assert(before[k2] == edges@[k2]);
                    }
                }
                assert forall|k: int| 0 <= k < nk implies exists|j: int| 0 <= j < g.edges.len() && g.edges[j] == #[trigger] edges@[k]@ by {
                    assert(before[k] == edges@[k]);
                }
                assert forall|k: int| 0 <= k < nk implies !exhausted(g, ent, wn, g.block_pos(#[trigger] edges@[k]@.head)) by {
                    assert(before[k] == edges@[k]);
                }
                assert forall|k: int, k2: int|
                    0 <= k < k2 < nk implies !((#[trigger] edges@[k]@).head == (#[trigger] edges@[k2]@).head
                    && edges@[k]@.tail == edges@[k2]@.tail) by {
                    assert(before[k] == edges@[k]);
                    assert(before[k2] == edges@[k2]);
                }
            }
        }
        p += 1;
    }
    proof {
        assert(positions(n as nat) =~= positions(g.blocks.len()));
    }
    let ghost final_edges = edge_views(edges@);
    cfg.edges = edges;
    proof {
        let h = cfg@;
        assert(h.edges == final_edges);
        assert(h.distinct_edges()) by {
            assert forall|a: int, b: int|
                0 <= a < h.edges.len() && 0 <= b < h.edges.len() && a != b implies !((#[trigger] h.edges[a]).head
                == (#[trigger] h.edges[b]).head && h.edges[a].tail == h.edges[b].tail) by {
                assert(h.edges[a] == cfg.edges@[a]@);
                assert(h.edges[b] == cfg.edges@[b]@);
                if a < nk && b < nk {
                    if a < b {
                    } else {
                    }
                } else if a < nk && b >= nk {
                    let q = choose|q: int|
                        0 <= q < n && exhausted(g, ent, wn, q) && (#[trigger] cfg.edges@[b]@) == unconditional(
                            g.blocks[q].index,
                            resolve,
                            no_labels(),
                        );
                    g.lemma_block_pos(q);
                } else if a >= nk && b < nk {
                    let q = choose|q: int|
                        0 <= q < n && exhausted(g, ent, wn, q) && (#[trigger] cfg.edges@[a]@) == unconditional(
                            g.blocks[q].index,
                            resolve,
                            no_labels(),
                        );
                    g.lemma_block_pos(q);
                } else {
                }
            }
        }
        assert forall|i: int| 0 <= i < h.edges.len() implies g.has_block((#[trigger] h.edges[i]).head) && g.has_block(
            h.edges[i].tail,
        ) && (h.edges[i].condition matches Some(c) ==> c.sort is Bool) by {
            assert(h.edges[i] == cfg.edges@[i]@);
            if i < nk {
                let j = choose|j: int| 0 <= j < g.edges.len() && g.edges[j] == #[trigger] cfg.edges@[i]@;
                assert(g.edges[j] == h.edges[i]);
            } else {
                let q = choose|q: int|
                    0 <= q < n && exhausted(g, ent, wn, q) && (#[trigger] cfg.edges@[i]@) == unconditional(
                        g.blocks[q].index,
                        resolve,
                        no_labels(),
                    );
                g.lemma_block_pos(q);
            }
        }
        g.lemma_wf_same_blocks(h);
    }
    Ok(())
}

} // verus!
