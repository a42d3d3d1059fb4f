//! The transient-execution encoding: the transient graph is embedded into the default graph
//! once for each instruction at which a transient execution can start.
use crate::error::Error;
use crate::hir::transformation::{
    cut_graph, default_graph, fold_results, graph_written, lemma_fold_prefix_err, lemma_fold_push,
    no_labels, remove_unreachable_transient_edges, reorder_buffer, reorder_buffer_vars,
    restore_instructions, restore_variables, save_instructions, save_variables, transient_graph,
    transient_graph_defined, variable_views_of, InstructionRef, InstructionRefMap,
    TransientExecution, TransientView,
};
use crate::hir::{
    unconditional, without_dead_ends, BlockView, ControlFlowGraph, EdgeLabels, GraphView, Instruction, InstructionView,
    RemovedEdgeGuard,
};
use vstd::prelude::*;

verus! {

/// The speculation window must stay below this bound: 2 to the power of the width of the
/// window minus one.
pub const MAX_SPEC_WINDOW: usize = 128;

/// The labels of a rollback edge.
pub open spec fn rollback_labels() -> EdgeLabels {
    EdgeLabels { rollback: true, ..no_labels() }
}

/// The graph with the instructions `insts` appended to block `b`.
pub open spec fn with_appended(g: GraphView, b: usize, insts: Seq<InstructionView>) -> GraphView {
    g.with_block(b, BlockView { instructions: g.block(b).instructions + insts, ..g.block(b) })
}

/// The default graph `g` with the transient execution of instruction `it.0` embedded: the
/// transient graph `t`, reduced to what transient executions from the entry point of the
/// instruction can reach, is added; its entry saves and its resolution restores the variables
/// that it writes; the start block goes to its entry and its resolution rolls back to the
/// rollback block.
pub open spec fn embed_step(tv: TransientView, t: GraphView, ents: Map<InstructionRef, usize>) -> spec_fn(
    GraphView,
    (InstructionRef, (usize, usize)),
) -> Result<GraphView, Error> {
    |g: GraphView, it: (InstructionRef, (usize, usize))|
        if !ents.contains_key(it.0) {
            Err(Error::NoTransientEntry)
        } else if !t.has_block(ents[it.0]) {
            Err(Error::BlockNotFound(ents[it.0]))
        } else {
            let e = ents[it.0];
            let reduced = cut_graph(t, seq![e], tv.window as nat, t.exit.unwrap());
            let saved = reorder_buffer(graph_written(reduced.blocks));
            if g.next_index + reduced.blocks.len() > usize::MAX {
                Err(Error::IndexOverflow)
            } else if !g.has_block(it.1.0) {
                Err(Error::BlockNotFound(it.1.0))
            } else if !g.has_block(it.1.1) {
                Err(Error::BlockNotFound(it.1.1))
            } else {
                let te = (g.next_index + reduced.block_pos(e)) as usize;
                let tr = (g.next_index + reduced.block_pos(reduced.exit.unwrap())) as usize;
                let g2 = with_appended(
                    with_appended(g.embed(reduced), te, save_instructions(saved)),
                    tr,
                    restore_instructions(saved),
                );
                Ok(
                    g2.with_edge(unconditional(it.1.0, te, no_labels())).with_edge(
                        unconditional(tr, it.1.1, rollback_labels()),
                    ),
                )
            }
        }
}

/// The outcome of the encoding of transient execution into `g`: the default graph with the
/// transient graph embedded for each start point in ascending order of instructions, and
/// then without the blocks from which the exit cannot be reached.
pub open spec fn transient_transform(tv: TransientView, g: GraphView) -> Result<GraphView, Error> {
    if tv.window >= MAX_SPEC_WINDOW {
        Err(Error::SpeculationWindowTooLarge { maximum: MAX_SPEC_WINDOW, window: tv.window })
    } else {
        match default_graph(tv, g) {
            Err(e) => Err(e),
            Ok((d, pts)) => match transient_graph(tv, g) {
                Err(e) => Err(e),
                Ok((t, ents)) => match fold_results(d, pts, embed_step(tv, t, ents)) {
                    Err(e) => Err(e),
                    Ok(h) => if h.exit is None {
                        Err(Error::NoExit)
                    } else {
                        Ok(without_dead_ends(h, RemovedEdgeGuard::Ignore))
                    },
                },
            },
        }
    }
}

/// Appends the instructions to block `b`.
fn append_instructions(cfg: &mut ControlFlowGraph, b: usize, insts: Vec<Instruction>)
    requires
        old(cfg).wf(),
        old(cfg)@.has_block(b),
    ensures
        final(cfg).wf(),
        final(cfg)@ == with_appended(old(cfg)@, b, Seq::new(insts@.len(), |i: int| insts@[i]@)),
        forall|x: usize| #[trigger] final(cfg)@.has_block(x) == old(cfg)@.has_block(x),
{
    let ghost g = cfg@;
    let ghost iv = Seq::new(insts@.len(), |i: int| insts@[i]@);
    let mut insts = insts;
    let mut rest: Vec<Instruction> = Vec::new();
    let len = insts.len();
    let ghost n = len as nat;
    // reverse the instructions so that they can be taken from the back in order
    while insts.len() > 0
        invariant
            rest@.len() + insts@.len() == n,
            forall|i: int| 0 <= i < insts@.len() ==> (#[trigger] insts@[i])@ == iv[i],
            forall|i: int| 0 <= i < rest@.len() ==> (#[trigger] rest@[i])@ == iv[n - 1 - i],
            iv.len() == n,
        decreases insts@.len(),
    {
        let x = insts.pop().unwrap();
        rest.push(x);
    }
    proof {
        g.lemma_block(b);
        assert(iv.take(0) =~= Seq::<InstructionView>::empty());
        assert(g.block(b).instructions + iv.take(0) =~= g.block(b).instructions);
        assert(g.blocks.update(g.block_pos(b), g.block(b)) =~= g.blocks);
        assert(with_appended(g, b, iv.take(0)) == g);
    }
    let mut k: usize = 0;
    while rest.len() > 0
        invariant
            cfg.wf(),
            g.wf(),
            g.has_block(b),
            k + rest@.len() == n,
            n <= usize::MAX,
            iv.len() == n,
            forall|i: int| 0 <= i < rest@.len() ==> (#[trigger] rest@[i])@ == iv[n - 1 - i],
            cfg@ == with_appended(g, b, iv.take(k as int)),
            forall|x: usize| #[trigger] cfg@.has_block(x) == g.has_block(x),
        decreases rest@.len(),
    {
        let x = rest.pop().unwrap();
        let ghost before = cfg@;
        proof {
            g.lemma_with_block(b, BlockView { instructions: g.block(b).instructions + iv.take(k as int), ..g.block(b) });
        }
        let r = cfg.add_instruction(b, x);
        assert(r is Ok);
        proof {
            before.lemma_with_block(b, BlockView { instructions: before.block(b).instructions.push(iv[k as int]), ..before.block(b) });
            assert(g.block(b).instructions + iv.take(k + 1) =~= (g.block(b).instructions + iv.take(k as int)).push(iv[k as int]));
            assert(cfg@.blocks =~= with_appended(g, b, iv.take(k + 1)).blocks);
        }
        k += 1;
    }
    proof {
        assert(iv.take(n as int) =~= iv);
    }
}

impl TransientExecution {
    /// Embeds the transient execution of the instruction at `inst_ref` into the default graph
    /// (see `embed_step`).
    fn embed_transient(
        &self,
        default_cfg: &mut ControlFlowGraph,
        transient_cfg: &ControlFlowGraph,
        entry_points: &InstructionRefMap<usize>,
        inst_ref: InstructionRef,
        start: usize,
        rollback: usize,
    ) -> (r: Result<(), Error>)
        requires
            old(default_cfg).wf(),
            transient_cfg.wf(),
            transient_cfg.exit is Some,
            entry_points.wf(),
        ensures
            final(default_cfg).wf(),
            (match embed_step(self@, transient_cfg@, entry_points@)(old(default_cfg)@, (inst_ref, (start, rollback))) {
                Ok(g2) => r is Ok && final(default_cfg)@ == g2,
                Err(e) => r == Err::<(), Error>(e),
            }),
    {
        let ghost g = default_cfg@;
        let ghost t = transient_cfg@;
        let e = match entry_points.get(&inst_ref) {
            Some(e) => *e,
            None => {
                return Err(Error::NoTransientEntry);
            },
        };
        let mut reduced = transient_cfg.clone();
        let entries: Vec<usize> = vec![e];
        proof {
            assert(entries@ =~= seq![e]);
        }
        match remove_unreachable_transient_edges(&mut reduced, entries.as_slice(), self.speculation_window) {
            Ok(()) => {},
            Err(err) => {
                proof {
                    let k = choose|k: int| crate::hir::transformation::last_missing_entry(t, entries@, k) && Err::<(), Error>(err)
                        == Err::<(), Error>(Error::BlockNotFound(entries@[k]));
                    assert(k == 0);
                }
                return Err(err);
            },
        }
        let ghost rv = reduced@;
        let saved = reorder_buffer_vars(&reduced);
        let s = default_cfg.next_index;
        if s > usize::MAX - reduced.blocks.len() {
            return Err(Error::IndexOverflow);
        }
        if !default_cfg.has_block(start) {
            return Err(Error::BlockNotFound(start));
        }
        if !default_cfg.has_block(rollback) {
            return Err(Error::BlockNotFound(rollback));
        }
        let ep = match reduced.block_position(e) {
            Some(p) => p,
            None => {
                proof {
                    assert(entries@[0] == e);
                    assert(t.has_block(e));
                    assert(rv.blocks == t.blocks);
                }
                return Err(Error::BlockNotFound(e));
            },
        };
        let x = match reduced.exit {
            Some(x) => x,
            None => {
                proof {
                    assert(false);
                }
                return Err(Error::NoExit);
            },
        };
        let xp = match reduced.block_position(x) {
            Some(p) => p,
            None => {
                proof {
                    assert(false);
                }
                return Err(Error::BlockNotFound(x));
            },
        };
        let r0 = default_cfg.insert(&reduced);
        assert(r0 is Ok);
        let te = s + ep;
        let tr = s + xp;
        proof {
            g.lemma_embed_wf(rv);
        }
        let ghost g1 = default_cfg@;
        append_instructions(default_cfg, te, save_variables(&saved));
        let ghost g2 = default_cfg@;
        append_instructions(default_cfg, tr, restore_variables(&saved));
        let ghost g3 = default_cfg@;
        proof {
            g1.lemma_block(te);
            g1.lemma_with_block(te, BlockView { instructions: g1.block(te).instructions + save_instructions(variable_views_of(saved@)), ..g1.block(te) });
            g2.lemma_block(tr);
            g2.lemma_with_block(tr, BlockView { instructions: g2.block(tr).instructions + restore_instructions(variable_views_of(saved@)), ..g2.block(tr) });
            assert(g3.edges == g1.edges);
            assert(!g3.has_edge(start, te)) by {
                if g3.has_edge(start, te) {
                    let i = choose|i: int| 0 <= i < g3.edges.len() && (#[trigger] g3.edges[i]).head == start && g3.edges[i].tail == te;
                    if i < g.edges.len() {
                        assert(g.edges[i] == g3.edges[i]);
                    }
                    let j = choose|j: int| 0 <= j < g.blocks.len() && (#[trigger] g.blocks[j]).index == start;
                }
            }
        }
        let r1 = default_cfg.unconditional_edge(start, te, EdgeLabels::none());
        assert(r1 is Ok);
        let ghost g4 = default_cfg@;
        proof {
            assert(!g4.has_edge(tr, rollback)) by {
                if g4.has_edge(tr, rollback) {
                    let i = choose|i: int| 0 <= i < g4.edges.len() && (#[trigger] g4.edges[i]).head == tr && g4.edges[i].tail == rollback;
                    if i < g.edges.len() {
                        assert(g.edges[i] == g4.edges[i]);
                    } else if i < g3.edges.len() {
                        assert(g3.edges[i] == g4.edges[i]);
                        let j = choose|j: int| 0 <= j < g.blocks.len() && (#[trigger] g.blocks[j]).index == rollback;
                    }
                }
            }
        }
        let r2 = default_cfg.unconditional_edge(tr, rollback, EdgeLabels::none().rollback());
        assert(r2 is Ok);
        Ok(())
    }

    /// Encodes transient execution into `cfg`: the default graph starts a transient execution
    /// at each store that can be bypassed and each branch that can be mispredicted; for each
    /// of them in ascending order, the transient graph, reduced to what the speculation window
    /// lets its transient executions reach, is embedded between the start block and the
    /// rollback block (see `transient_transform`). Fails if the speculation window is not below
    /// `MAX_SPEC_WINDOW`, and leaves `cfg` unchanged on failure.
    pub fn transform(&self, cfg: &mut ControlFlowGraph) -> (r: Result<(), Error>)
        requires
            old(cfg).wf(),
            old(cfg).exit is Some,
            transient_graph_defined(self@, old(cfg)@),
        ensures
            (match transient_transform(self@, old(cfg)@) {
                Ok(g2) => r is Ok && final(cfg).wf() && final(cfg)@ == g2,
                Err(e) => r == Err::<(), Error>(e) && final(cfg)@ == old(cfg)@,
            }),
    {
        if self.speculation_window >= MAX_SPEC_WINDOW {
            return Err(Error::SpeculationWindowTooLarge { maximum: MAX_SPEC_WINDOW, window: self.speculation_window });
        }
        let (mut default_cfg, points) = self.build_default_cfg(cfg)?;
        let (transient_cfg, entry_points) = self.build_transient_cfg(cfg)?;
        let ghost d = default_cfg@;
        let ghost pts = points.entries@;
        let ghost folded = fold_results(d, pts, embed_step(self@, transient_cfg@, entry_points@));
        proof {
            assert(transient_transform(self@, old(cfg)@) == match folded {
                Err(e) => Err(e),
                Ok(h) => if h.exit is None {
                    Err(Error::NoExit)
                } else {
                    Ok(without_dead_ends(h, RemovedEdgeGuard::Ignore))
                },
            });
        }
        let mut i: usize = 0;
        while i < points.entries.len()
            invariant
                0 <= i <= points.entries@.len(),
                pts == points.entries@,
                cfg@ == old(cfg)@,
                folded == fold_results(d, pts, embed_step(self@, transient_cfg@, entry_points@)),
                transient_transform(self@, old(cfg)@) == match folded {
                    Err(e) => Err(e),
                    Ok(h) => if h.exit is None {
                        Err(Error::NoExit)
                    } else {
                        Ok(without_dead_ends(h, RemovedEdgeGuard::Ignore))
                    },
                },
                default_cfg.wf(),
                transient_cfg.wf(),
                transient_cfg.exit is Some,
                entry_points.wf(),
                fold_results(d, pts.take(i as int), embed_step(self@, transient_cfg@, entry_points@)) == Ok::<GraphView, Error>(
                    default_cfg@,
                ),
            decreases points.entries@.len() - i,
        {
            let (inst_ref, (start, rollback)) = points.entries[i];
            proof {
                assert(pts.take(i + 1) =~= pts.take(i as int).push((inst_ref, (start, rollback))));
                lemma_fold_push(d, pts.take(i as int), embed_step(self@, transient_cfg@, entry_points@), (inst_ref, (start, rollback)));
            }
            match self.embed_transient(&mut default_cfg, &transient_cfg, &entry_points, inst_ref, start, rollback) {
                Ok(()) => {},
                Err(e) => {
                    proof {
                        lemma_fold_prefix_err(d, pts, embed_step(self@, transient_cfg@, entry_points@), i + 1);
                    }
                    return Err(e);
                },
            }
            i += 1;
        }
        proof {
            assert(pts.take(pts.len() as int) =~= pts);
        }
        default_cfg.remove_dead_end_blocks(RemovedEdgeGuard::Ignore)?;
        *cfg = default_cfg;
        Ok(())
    }
}

} // verus!
