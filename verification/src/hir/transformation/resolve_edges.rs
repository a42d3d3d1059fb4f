//! Intermediate resolution of transient execution: edges to the resolution wherever the
//! speculation window may be used up, and the bookkeeping of the window.
use crate::error::Error;
use crate::hir::transformation::{
    conditional, fold_results, lemma_fold_prefix_err, no_labels, pseudo, spec_win, spec_win_view,
    split_applies, split_error, window_constant_view,
};
use crate::hir::{
    real_instruction_count, unconditional, BlockView, ControlFlowGraph, EdgeLabels, GraphView,
    Instruction, InstructionView, OperationView,
};
use crate::lir::{
    bit_vector_view, variable_view, BitVector, Expression, ExpressionView, Sort,
    SPECULATION_WINDOW_SIZE,
};
use vstd::prelude::*;

verus! {

/// The indices of the instructions with effects, from the last to the first.
pub open spec fn effectful_desc(insts: Seq<InstructionView>) -> Seq<usize>
    decreases insts.len(),
{
    if insts.len() == 0 {
        Seq::empty()
    } else {
        (if insts.last().effects.len() > 0 {
            seq![(insts.len() - 1) as usize]
        } else {
            Seq::empty()
        }) + effectful_desc(insts.drop_last())
    }
}

/// The splits before the instructions with effects: block by block, and within a block from
/// the last instruction to the first.
pub open spec fn effect_splits(blocks: Seq<BlockView>) -> Seq<(usize, usize)>
    decreases blocks.len(),
{
    if blocks.len() == 0 {
        Seq::empty()
    } else {
        effect_splits(blocks.drop_last()) + effectful_desc(blocks.last().instructions).map_values(
            |i: usize| (blocks.last().index, i),
        )
    }
}

/// A split of block `it.0` before its instruction `it.1`, its first part going to the second.
pub open spec fn effect_split_step() -> spec_fn(GraphView, (usize, usize)) -> Result<GraphView, Error> {
    |g: GraphView, it: (usize, usize)|
        if split_applies(g, it.0, it.1) {
            Ok(g.split(it.0, it.1 as int).with_edge(unconditional(it.0, g.next_index, no_labels())))
        } else {
            Err(split_error(g, it.0, it.1))
        }
}

/// "The speculation window is not used up".
pub open spec fn window_left_view() -> ExpressionView {
    bit_vector_view(BitVector::SGt, seq![variable_view(spec_win_view()), window_constant_view(0)], Sort::Bool)
}

/// "The speculation window is used up".
pub open spec fn window_used_up_view() -> ExpressionView {
    bit_vector_view(BitVector::SLe, seq![variable_view(spec_win_view()), window_constant_view(0)], Sort::Bool)
}

/// The blocks that get a resolution edge: those with real instructions, but for the
/// resolution itself.
pub open spec fn resolve_candidates(blocks: Seq<BlockView>, resolve: usize) -> Seq<usize>
    decreases blocks.len(),
{
    if blocks.len() == 0 {
        Seq::empty()
    } else {
        resolve_candidates(blocks.drop_last(), resolve) + (if real_instruction_count(blocks.last().instructions) > 0
            && blocks.last().index != resolve {
            seq![blocks.last().index]
        } else {
            Seq::empty()
        })
    }
}

/// No candidate is the resolution.
pub proof fn lemma_candidates_not_resolve(blocks: Seq<BlockView>, resolve: usize)
    ensures
        forall|k: int|
            0 <= k < resolve_candidates(blocks, resolve).len() ==> #[trigger] resolve_candidates(blocks, resolve)[k]
                != resolve,
    decreases blocks.len(),
{
    if blocks.len() > 0 {
        lemma_candidates_not_resolve(blocks.drop_last(), resolve);
        let a = resolve_candidates(blocks.drop_last(), resolve);
        let c = resolve_candidates(blocks, resolve);
        assert forall|k: int| 0 <= k < c.len() implies #[trigger] c[k] != resolve by {
            if k < a.len() {
                assert(c[k] == a[k]);
            }
        }
    }
}

/// Block `b` gets a new, empty successor block, to which it goes while the window is not
/// used up, and goes to `resolve` once it is.
pub open spec fn resolve_step(resolve: usize) -> spec_fn(GraphView, usize) -> Result<GraphView, Error> {
    |g: GraphView, b: usize|
        if g.has_block(b) && g.next_index < usize::MAX {
            Ok(
                g.split(b, g.block(b).instructions.len() as int).with_edge(
                    conditional(b, g.next_index, window_left_view(), no_labels()),
                ).with_edge(conditional(b, resolve, window_used_up_view(), no_labels())),
            )
        } else if !g.has_block(b) {
            Err(Error::BlockNotFound(b))
        } else {
            Err(Error::IndexOverflow)
        }
}

/// The graph with resolution edges: blocks are split before each instruction with effects,
/// and every block with real instructions can resolve transient execution at its end.
pub open spec fn with_resolve_edges(g: GraphView) -> Result<GraphView, Error> {
    match fold_results(g, effect_splits(g.blocks), effect_split_step()) {
        Ok(g1) => fold_results(g1, resolve_candidates(g1.blocks, g.exit.unwrap()), resolve_step(g.exit.unwrap())),
        Err(e) => Err(e),
    }
}

/// The instruction that lowers the speculation window by `count`.
pub open spec fn window_decrease(count: nat) -> InstructionView {
    pseudo(
        OperationView::Assign {
            variable: spec_win_view(),
            expr: bit_vector_view(
                BitVector::Sub,
                seq![variable_view(spec_win_view()), window_constant_view(count as u64)],
                Sort::BitVector(SPECULATION_WINDOW_SIZE),
            ),
        },
    )
}

/// Every block with real instructions lowers the window by their number at its end.
pub open spec fn with_window_decrease(g: GraphView) -> GraphView {
    GraphView {
        blocks: Seq::new(
            g.blocks.len(),
            |p: int|
                if real_instruction_count(g.blocks[p].instructions) > 0 {
                    BlockView {
                        instructions: g.blocks[p].instructions.push(
                            window_decrease(real_instruction_count(g.blocks[p].instructions)),
                        ),
                        ..g.blocks[p]
                    }
                } else {
                    g.blocks[p]
                },
        ),
        ..g
    }
}

/// Every block is transient.
pub open spec fn all_transient(g: GraphView) -> GraphView {
    GraphView { blocks: Seq::new(g.blocks.len(), |p: int| BlockView { transient: true, ..g.blocks[p] }), ..g }
}

/// In a graph split at `b`, no edge leaves `b`.
proof fn lemma_split_leaves_nothing(g: GraphView, b: usize, at: int)
    requires
        g.wf(),
        g.has_block(b),
        g.next_index < usize::MAX,
    ensures
        forall|i: int| 0 <= i < g.split(b, at).edges.len() ==> (#[trigger] g.split(b, at).edges[i]).head != b,
        b < g.next_index,
{
    let p = g.block_pos(b);
    assert(g.blocks[p].index == b);
    assert forall|i: int| 0 <= i < g.edges.len() implies (#[trigger] g.edges[i]).head < g.next_index by {
        assert(g.has_block(g.edges[i].head));
        let j = choose|j: int| 0 <= j < g.blocks.len() && (#[trigger] g.blocks[j]).index == g.edges[i].head;
    }
}

/// The splits before the instructions with effects, computed from the blocks.
fn effectful_instructions(cfg: &ControlFlowGraph) -> (r: Vec<(usize, usize)>)
    ensures
        r@ == effect_splits(cfg@.blocks),
{
    let ghost g = cfg@;
    let mut items: Vec<(usize, usize)> = Vec::new();
    let mut bi: usize = 0;
    while bi < cfg.blocks.len()
        invariant
            0 <= bi <= cfg.blocks@.len(),
            g == cfg@,
            items@ == effect_splits(g.blocks.take(bi as int)),
        decreases cfg.blocks@.len() - bi,
    {
        let block = &cfg.blocks[bi];
        let ghost insts = g.blocks[bi as int].instructions;
        proof {
            assert(block@ == g.blocks[bi as int]);
            assert(g.blocks.take(bi + 1).drop_last() =~= g.blocks.take(bi as int));
            assert(insts.take(insts.len() as int) =~= insts);
        }
        let ghost before = items@;
        let n = block.instructions.len();
        let mut k: usize = n;
        while k > 0
            invariant
                0 <= k <= n,
                n == insts.len(),
                block@.instructions == insts,
                block@ == g.blocks[bi as int],
                items@ == before + effectful_desc(insts).take((effectful_desc(insts).len() - effectful_desc(insts.take(k as int)).len()) as int).map_values(|i: usize| (block.index, i)),
                effectful_desc(insts.take(k as int)).len() <= effectful_desc(insts).len(),
                effectful_desc(insts) == effectful_desc(insts).take((effectful_desc(insts).len() - effectful_desc(insts.take(k as int)).len()) as int) + effectful_desc(insts.take(k as int)),
            decreases k,
        {
            let ghost d = effectful_desc(insts);
            let ghost dk = effectful_desc(insts.take(k as int));
            let ghost dk1 = effectful_desc(insts.take(k - 1));
            proof {
                assert(insts.take(k as int).drop_last() =~= insts.take(k - 1));
                assert(insts.take(k as int).last() == insts[k - 1]);
            }
            k -= 1;
            if block.instructions[k].effects.len() > 0 {
                proof {
                    assert(block.instructions@[k as int]@ == insts[k as int]);
                    assert(dk =~= seq![k] + dk1);
                    let m = d.len() - dk.len();
                    assert(d.take(m + 1) =~= d.take(m).push(k));
                    assert(d =~= d.take(m + 1) + dk1);
                }
                items.push((block.index, k));
                proof {
                    let m = d.len() - dk.len();
                    assert(items@ =~= before + d.take(m + 1).map_values(|i: usize| (block.index, i)));
                }
            } else {
                proof {
                    assert(block.instructions@[k as int]@ == insts[k as int]);
                    assert(dk =~= dk1);
                }
            }
        }
        proof {
            assert(insts.take(0) =~= Seq::<InstructionView>::empty());
            assert(effectful_desc(insts).take(effectful_desc(insts).len() as int) =~= effectful_desc(insts));
        }
        bi += 1;
    }
    proof {
        assert(g.blocks.take(g.blocks.len() as int) =~= g.blocks);
    }
    items
}

/// Splits every block before each instruction with effects, its first part going to the
/// second, block by block and within a block from the last such instruction to the first.
pub fn split_blocks_at_effectful_instructions(cfg: &mut ControlFlowGraph) -> (r: Result<(), Error>)
    requires
        old(cfg).wf(),
    ensures
        final(cfg).wf(),
        (match fold_results(old(cfg)@, effect_splits(old(cfg)@.blocks), effect_split_step()) {
            Ok(g2) => r is Ok && final(cfg)@ == g2,
            Err(e) => r == Err::<(), Error>(e),
        }),
        forall|x: usize| old(cfg)@.has_block(x) ==> #[trigger] final(cfg)@.has_block(x),
        old(cfg).exit is Some ==> final(cfg).exit is Some,
{
    let ghost g = cfg@;
    let items = effectful_instructions(cfg);
    let mut i: usize = 0;
    while i < items.len()
        invariant
            0 <= i <= items@.len(),
            items@ == effect_splits(g.blocks),
            g == old(cfg)@,
            cfg.wf(),
            g.exit is Some ==> cfg.exit is Some,
            forall|x: usize| g.has_block(x) ==> #[trigger] cfg@.has_block(x),
            fold_results(g, items@.take(i as int), effect_split_step()) == Ok::<GraphView, Error>(cfg@),
        decreases items@.len() - i,
    {
        let (b, idx) = items[i];
        let ghost g0 = cfg@;
        proof {
            assert(items@.take(i + 1) =~= items@.take(i as int).push((b, idx)));
            crate::hir::transformation::lemma_fold_push(g, items@.take(i as int), effect_split_step(), (b, idx));
        }
        let tail = match cfg.split_block_at(b, idx) {
            Ok(t) => t,
            Err(e) => {
                proof {
                    lemma_fold_prefix_err(g, items@, effect_split_step(), i + 1);
                }
                return Err(e);
            },
        };
        proof {
            g0.lemma_split_wf(b, idx as int);
            lemma_split_leaves_nothing(g0, b, idx as int);
        }
        let r = cfg.unconditional_edge(b, tail, EdgeLabels::none());
        assert(r is Ok);
        i += 1;
    }
    proof {
        assert(items@.take(items@.len() as int) =~= items@);
    }
    Ok(())
}

/// The blocks that get a resolution edge, computed from the blocks.
fn resolve_candidate_blocks(cfg: &ControlFlowGraph, resolve: usize) -> (r: Vec<usize>)
    ensures
        r@ == resolve_candidates(cfg@.blocks, resolve),
{
    let ghost g = cfg@;
    let mut out: Vec<usize> = Vec::new();
    let mut p: usize = 0;
    while p < cfg.blocks.len()
        invariant
            0 <= p <= cfg.blocks@.len(),
            g == cfg@,
            out@ == resolve_candidates(g.blocks.take(p as int), resolve),
        decreases cfg.blocks@.len() - p,
    {
        proof {
            assert(g.blocks.take(p + 1).drop_last() =~= g.blocks.take(p as int));
            assert(cfg.blocks@[p as int]@ == g.blocks[p as int]);
        }
        let ghost before = out@;
        if cfg.blocks[p].instruction_count_ignoring_pseudo_instructions() > 0 && cfg.blocks[p].index != resolve {
            out.push(cfg.blocks[p].index);
            assert(out@ =~= before + seq![g.blocks[p as int].index]);
        } else {
            assert(out@ =~= before + Seq::<usize>::empty());
        }
        p += 1;
    }
    proof {
        assert(g.blocks.take(g.blocks.len() as int) =~= g.blocks);
    }
    out
}

/// The expression of the speculation-window variable compared with 0 by `op` (`SGt` or `SLe`).
fn window_compared(op: BitVector) -> (r: Expression)
    requires
        op is SGt || op is SLe,
    ensures
        op is SGt ==> r@ == window_left_view(),
        op is SLe ==> r@ == window_used_up_view(),
        r.sort is Bool,
{
    proof {
        reveal_strlit("_spec_win");
    }
    let w = Expression::variable(spec_win());
    let zero = BitVector::constant_u64(0, SPECULATION_WINDOW_SIZE);
    let c = match op {
        BitVector::SGt => BitVector::sgt(w, zero),
        _ => BitVector::sle(w, zero),
    };
    match c {
        Ok(e) => e,
        Err(_) => {
            proof {
                assert(false);
            }
            Expression::variable(spec_win())
        },
    }
}

/// Adds intermediate resolution to a transient graph: blocks are split before each
/// instruction with effects, and every block with real instructions (but the exit) gets a new
/// successor, to which it goes while the speculation window is not used up, and goes to the
/// exit (the resolution) once it is.
pub fn add_transient_resolve_edges(cfg: &mut ControlFlowGraph) -> (r: Result<(), Error>)
    requires
        old(cfg).wf(),
        old(cfg).exit is Some,
    ensures
        final(cfg).wf(),
        (match with_resolve_edges(old(cfg)@) {
            Ok(g2) => r is Ok && final(cfg)@ == g2,
            Err(e) => r == Err::<(), Error>(e),
        }),
        final(cfg).exit is Some,
{
    let ghost g = cfg@;
    let resolve = match cfg.exit {
        Some(e) => e,
        None => {
            proof {
                assert(false);
            }
            return Err(Error::NoExit);
        },
    };
    split_blocks_at_effectful_instructions(cfg)?;
    let ghost g1 = cfg@;
    proof {
        assert(g.has_block(resolve));
    }
    let items = resolve_candidate_blocks(cfg, resolve);
    proof {
        lemma_candidates_not_resolve(g1.blocks, resolve);
    }
    let mut i: usize = 0;
    while i < items.len()
        invariant
            0 <= i <= items@.len(),
            items@ == resolve_candidates(g1.blocks, resolve),
            g == old(cfg)@,
            cfg.wf(),
            cfg.exit is Some,
            cfg@.has_block(resolve),
            forall|k: int| 0 <= k < items@.len() ==> #[trigger] items@[k] != resolve,
            fold_results(g1, items@.take(i as int), resolve_step(resolve)) == Ok::<GraphView, Error>(cfg@),
            fold_results(g, effect_splits(g.blocks), effect_split_step()) == Ok::<GraphView, Error>(g1),
            g.exit == Some(resolve),
        decreases items@.len() - i,
    {
        let b = items[i];
        let ghost g0 = cfg@;
        proof {
            assert(items@.take(i + 1) =~= items@.take(i as int).push(b));
            crate::hir::transformation::lemma_fold_push(g1, items@.take(i as int), resolve_step(resolve), b);
        }
        let tail = match cfg.split_block_at_end(b) {
            Ok(t) => t,
            Err(e) => {
                proof {
                    lemma_fold_prefix_err(g1, items@, resolve_step(resolve), i + 1);
                }
                return Err(e);
            },
        };
        proof {
            g0.lemma_split_wf(b, g0.block(b).instructions.len() as int);
            lemma_split_leaves_nothing(g0, b, g0.block(b).instructions.len() as int);
            assert(b != resolve);
        }
        let left = window_compared(BitVector::SGt);
        let used_up = window_compared(BitVector::SLe);
        let r1 = cfg.conditional_edge(b, tail, left, EdgeLabels::none());
        assert(r1 is Ok);
        let r2 = cfg.conditional_edge(b, resolve, used_up, EdgeLabels::none());
        assert(r2 is Ok);
        i += 1;
    }
    proof {
        assert(items@.take(items@.len() as int) =~= items@);
    }
    Ok(())
}

/// The instruction that lowers the speculation window by `count`.
fn window_decrease_instruction(count: usize) -> (r: Instruction)
    ensures
        r@ == window_decrease(count as nat),
{
    proof {
        reveal_strlit("_spec_win");
    }
    let lowered = match BitVector::sub(
        Expression::variable(spec_win()),
        BitVector::constant_u64(count as u64, SPECULATION_WINDOW_SIZE),
    ) {
        Ok(e) => e,
        Err(_) => {
            proof {
                assert(false);
            }
            Expression::variable(spec_win())
        },
    };
    match Instruction::assign(spec_win(), lowered) {
        Ok(i) => i.into_pseudo(),
        Err(_) => {
            proof {
                assert(false);
            }
            Instruction::skip()
        },
    }
}

/// Appends to every block with real instructions the pseudo instruction that lowers the
/// speculation window by their number.
pub fn append_spec_win_decrease_to_all_blocks(cfg: &mut ControlFlowGraph) -> (r: Result<(), Error>)
    requires
        old(cfg).wf(),
    ensures
        final(cfg).wf(),
        r is Ok,
        final(cfg)@ == with_window_decrease(old(cfg)@),
{
    let ghost g = cfg@;
    let n = cfg.blocks.len();
    let mut p: usize = 0;
    while p < n
        invariant
            0 <= p <= n,
            n == g.blocks.len(),
            g == old(cfg)@,
            cfg.wf(),
            cfg@.blocks.len() == n,
            cfg@.edges == g.edges,
            cfg@.entry == g.entry && cfg@.exit == g.exit && cfg@.next_index == g.next_index,
            forall|q: int| 0 <= q < p ==> #[trigger] cfg@.blocks[q] == with_window_decrease(g).blocks[q],
            forall|q: int| p <= q < n ==> #[trigger] cfg@.blocks[q] == g.blocks[q],
        decreases n - p,
    {
        let count = cfg.blocks[p].instruction_count_ignoring_pseudo_instructions();
        if count > 0 {
            let b = cfg.blocks[p].index;
            let ghost before = cfg@;
            proof {
                assert(cfg.blocks@[p as int]@ == before.blocks[p as int]);
                before.lemma_block_pos(p as int);
            }
            let r = cfg.add_instruction(b, window_decrease_instruction(count));
            assert(r is Ok);
            proof {
                before.lemma_block(b);
                before.lemma_with_block(b, cfg@.blocks[p as int]);
            }
        } else {
            proof {
                assert(cfg.blocks@[p as int]@ == cfg@.blocks[p as int]);
            }
        }
        p += 1;
    }
    proof {
        assert(cfg@.blocks =~= with_window_decrease(g).blocks);
    }
    Ok(())
}

/// Marks every block as transient.
pub fn set_all_transient(cfg: &mut ControlFlowGraph)
    requires
        old(cfg).wf(),
    ensures
        final(cfg).wf(),
        final(cfg)@ == all_transient(old(cfg)@),
{
    let ghost g = cfg@;
    let n = cfg.blocks.len();
    let mut p: usize = 0;
    while p < n
        invariant
            0 <= p <= n,
            n == g.blocks.len(),
            g == old(cfg)@,
            cfg.wf(),
            cfg@.blocks.len() == n,
            cfg@.edges == g.edges,
            cfg@.entry == g.entry && cfg@.exit == g.exit && cfg@.next_index == g.next_index,
            forall|q: int| 0 <= q < p ==> #[trigger] cfg@.blocks[q] == all_transient(g).blocks[q],
            forall|q: int| p <= q < n ==> #[trigger] cfg@.blocks[q] == g.blocks[q],
        decreases n - p,
    {
        let b = cfg.blocks[p].index;
        let ghost before = cfg@;
        proof {
            assert(cfg.blocks@[p as int]@ == before.blocks[p as int]);
            before.lemma_block_pos(p as int);
        }
        let r = cfg.set_block_transient(b);
        assert(r is Ok);
        proof {
            before.lemma_block(b);
            before.lemma_with_block(b, cfg@.blocks[p as int]);
        }
        p += 1;
    }
    proof {
        assert(cfg@.blocks =~= all_transient(g).blocks);
    }
}

} // verus!
