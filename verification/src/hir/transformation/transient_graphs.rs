//! The default and the transient control-flow graph of the transient-execution encoding.
use crate::error::Error;
use crate::hir::transformation::{
    add_transient_execution_start, add_transient_resolve_edges, all_transient,
    append_spec_win_decrease_to_all_blocks, barrier_step, branch_defined, branch_step, fold_results,
    lemma_fold_prefix_err, lemma_fold_push, no_labels, set_all_transient, sorted_insert, start_step,
    store_step,
    transient_barrier, transient_conditional_branch, transient_store, with_resolve_edges,
    with_window_decrease, InstructionRef, InstructionRefMap, PredictorStrategy,
};
use crate::hir::{
    unconditional, BlockView, ControlFlowGraph, EdgeLabels, GraphView, Operation, OperationView,
};
use crate::lir::{variables_of, Expression, ExpressionView};
use vstd::prelude::*;

verus! {

/// The encoding of transient execution into a control-flow graph.
#[derive(Debug)]
pub struct TransientExecution {
    /// Whether conditional branches can be mispredicted (Spectre-PHT).
    pub spectre_pht: bool,
    /// Whether stores can be bypassed (Spectre-STL).
    pub spectre_stl: bool,
    /// Stores whose address holds only these variables cannot be bypassed.
    pub stl_ignored_variables: Vec<String>,
    /// How mispredicted branches are predicted.
    pub predictor_strategy: PredictorStrategy,
    /// The greatest speculation window.
    pub speculation_window: usize,
    /// Whether transient execution can be resolved before the speculation window is used up.
    pub intermediate_resolve: bool,
}

/// The mathematical value of a `TransientExecution`.
pub struct TransientView {
    pub spectre_pht: bool,
    pub spectre_stl: bool,
    pub ignored: Seq<Seq<char>>,
    pub strategy: PredictorStrategy,
    pub window: usize,
    pub intermediate_resolve: bool,
}

impl TransientExecution {
    pub open spec fn view(&self) -> TransientView {
        TransientView {
            spectre_pht: self.spectre_pht,
            spectre_stl: self.spectre_stl,
            ignored: self.stl_ignored_variables@.map_values(|s: String| s@),
            strategy: self.predictor_strategy,
            window: self.speculation_window,
            intermediate_resolve: self.intermediate_resolve,
        }
    }
}

/// Whether a store to `address` is never bypassed: all variables of the address are ignored.
pub open spec fn skips_stl(ignored: Seq<Seq<char>>, address: ExpressionView) -> bool {
    forall|k: int| 0 <= k < variables_of(address).len() ==> ignored.contains(#[trigger] variables_of(address)[k].name)
}

/// The address of an instruction, 0 if it has none.
pub open spec fn address_or_zero(a: Option<u64>) -> u64 {
    match a {
        Some(x) => x,
        None => 0,
    }
}

/// The references to the instructions of block `b`, from the last to the first, with their
/// operations.
pub open spec fn block_refs(b: BlockView) -> Seq<(InstructionRef, OperationView)> {
    Seq::new(
        b.instructions.len(),
        |k: int|
            {
                let i = b.instructions.len() - 1 - k;
                (
                    InstructionRef {
                        block: b.index,
                        index: i as usize,
                        address: address_or_zero(b.instructions[i].address),
                    },
                    b.instructions[i].operation,
                )
            },
    )
}

/// The references to the instructions of the blocks, block by block.
pub open spec fn instruction_refs(blocks: Seq<BlockView>) -> Seq<(InstructionRef, OperationView)>
    decreases blocks.len(),
{
    if blocks.len() == 0 {
        Seq::empty()
    } else {
        instruction_refs(blocks.drop_last()) + block_refs(blocks.last())
    }
}

/// The references of a prefix of the blocks are a prefix of the references.
pub proof fn lemma_refs_prefix(blocks: Seq<BlockView>, i: int)
    requires
        0 <= i <= blocks.len(),
    ensures
        instruction_refs(blocks.take(i)).len() <= instruction_refs(blocks).len(),
        instruction_refs(blocks).take(instruction_refs(blocks.take(i)).len() as int) == instruction_refs(blocks.take(i)),
    decreases blocks.len(),
{
    if i == blocks.len() {
        assert(blocks.take(i) =~= blocks);
        assert(instruction_refs(blocks).take(instruction_refs(blocks).len() as int) =~= instruction_refs(blocks));
    } else {
        assert(blocks.drop_last().take(i) =~= blocks.take(i));
        lemma_refs_prefix(blocks.drop_last(), i);
        let a = instruction_refs(blocks.drop_last());
        let p = instruction_refs(blocks.take(i));
        assert((a + block_refs(blocks.last())).take(p.len() as int) =~= a.take(p.len() as int));
    }
}

/// Once the steps up to instruction `j` (from the last) of block `bi` fail, all steps fail
/// with that error.
pub proof fn lemma_refs_fold_err<S>(
    init: S,
    blocks: Seq<BlockView>,
    step: spec_fn(S, (InstructionRef, OperationView)) -> Result<S, Error>,
    bi: int,
    j: int,
)
    requires
        0 <= bi < blocks.len(),
        0 <= j <= block_refs(blocks[bi]).len(),
        fold_results(init, instruction_refs(blocks.take(bi)) + block_refs(blocks[bi]).take(j), step) is Err,
    ensures
        fold_results(init, instruction_refs(blocks), step) == fold_results(
            init,
            instruction_refs(blocks.take(bi)) + block_refs(blocks[bi]).take(j),
            step,
        ),
{
    let prefix = instruction_refs(blocks.take(bi));
    let items = prefix + block_refs(blocks[bi]).take(j);
    lemma_refs_prefix(blocks, bi + 1);
    let whole = instruction_refs(blocks);
    let upto = instruction_refs(blocks.take(bi + 1));
    assert(blocks.take(bi + 1).drop_last() =~= blocks.take(bi));
    assert(upto =~= prefix + block_refs(blocks[bi]));
    assert(upto.take(items.len() as int) =~= items);
    assert(whole.take(items.len() as int) =~= items);
    lemma_fold_prefix_err(init, whole, step, items.len() as int);
}

/// The steps up to instruction `j + 1` of block `bi` are those up to `j` and one more.
pub proof fn lemma_refs_fold_next<S>(
    init: S,
    blocks: Seq<BlockView>,
    step: spec_fn(S, (InstructionRef, OperationView)) -> Result<S, Error>,
    bi: int,
    j: int,
)
    requires
        0 <= bi < blocks.len(),
        0 <= j < block_refs(blocks[bi]).len(),
    ensures
        fold_results(init, instruction_refs(blocks.take(bi)) + block_refs(blocks[bi]).take(j + 1), step) == (match fold_results(
            init,
            instruction_refs(blocks.take(bi)) + block_refs(blocks[bi]).take(j),
            step,
        ) {
            Ok(s) => step(s, block_refs(blocks[bi])[j]),
            Err(e) => Err(e),
        }),
{
    let prefix = instruction_refs(blocks.take(bi));
    let b = block_refs(blocks[bi]);
    assert(prefix + b.take(j + 1) =~= (prefix + b.take(j)).push(b[j]));
    lemma_fold_push(init, prefix + b.take(j), step, b[j]);
}

/// All instructions of block `bi` done: the steps of the first `bi + 1` blocks.
pub proof fn lemma_refs_fold_block<S>(
    init: S,
    blocks: Seq<BlockView>,
    step: spec_fn(S, (InstructionRef, OperationView)) -> Result<S, Error>,
    bi: int,
)
    requires
        0 <= bi < blocks.len(),
    ensures
        instruction_refs(blocks.take(bi + 1)) == instruction_refs(blocks.take(bi)) + block_refs(blocks[bi]).take(
            block_refs(blocks[bi]).len() as int,
        ),
{
    assert(blocks.take(bi + 1).drop_last() =~= blocks.take(bi));
    assert(block_refs(blocks[bi]).take(block_refs(blocks[bi]).len() as int) =~= block_refs(blocks[bi]));
}

/// One step of the transient graph: stores that can be bypassed, branches that can be
/// mispredicted and barriers are encoded.
pub open spec fn transient_step(tv: TransientView) -> spec_fn(
    (GraphView, Map<InstructionRef, usize>),
    (InstructionRef, OperationView),
) -> Result<(GraphView, Map<InstructionRef, usize>), Error> {
    |st: (GraphView, Map<InstructionRef, usize>), it: (InstructionRef, OperationView)|
        match it.1 {
            OperationView::Store { address, .. } => if tv.spectre_stl && !skips_stl(tv.ignored, address) {
                store_step(st.0, st.1, it.0)
            } else {
                Ok(st)
            },
            OperationView::ConditionalBranch { .. } => if tv.spectre_pht {
                branch_step(st.0, st.1, it.0, tv.strategy)
            } else {
                Ok(st)
            },
            OperationView::Barrier => match barrier_step(st.0, it.0) {
                Ok(g) => Ok((g, st.1)),
                Err(e) => Err(e),
            },
            _ => Ok(st),
        }
}

/// Whether a step of the transient graph is defined: a branch that can be mispredicted has
/// the successors its encoding needs.
pub open spec fn step_defined(tv: TransientView, g: GraphView, it: (InstructionRef, OperationView)) -> bool {
    (it.1 is ConditionalBranch && tv.spectre_pht) ==> branch_defined(g, it.0, tv.strategy)
}

/// Whether all steps of the transient graph are defined.
pub open spec fn transient_defined(
    tv: TransientView,
    init: (GraphView, Map<InstructionRef, usize>),
    items: Seq<(InstructionRef, OperationView)>,
) -> bool
    decreases items.len(),
{
    if items.len() == 0 {
        true
    } else {
        transient_defined(tv, init, items.drop_last()) && match fold_results(init, items.drop_last(), transient_step(tv)) {
            Ok(st) => step_defined(tv, st.0, items.last()),
            Err(_) => true,
        }
    }
}

/// The steps of a prefix are defined when all are.
pub proof fn lemma_defined_prefix(
    tv: TransientView,
    init: (GraphView, Map<InstructionRef, usize>),
    items: Seq<(InstructionRef, OperationView)>,
    n: int,
)
    requires
        0 <= n <= items.len(),
        transient_defined(tv, init, items),
    ensures
        transient_defined(tv, init, items.take(n)),
    decreases items.len(),
{
    if n < items.len() {
        assert(items.drop_last().take(n) =~= items.take(n));
        lemma_defined_prefix(tv, init, items.drop_last(), n);
    } else {
        assert(items.take(n) =~= items);
    }
}

/// The graph with a new, empty block after the exit, which becomes the exit (the resolution
/// of transient execution).
pub open spec fn with_resolve_block(g: GraphView) -> Result<GraphView, Error> {
    if g.next_index < usize::MAX {
        Ok(
            GraphView {
                exit: Some(g.next_index),
                ..g.with_new_block().with_edge(unconditional(g.exit.unwrap(), g.next_index, no_labels()))
            },
        )
    } else {
        Err(Error::IndexOverflow)
    }
}

/// The transient graph of `g` with the entry point of each encoded instruction, or the error:
/// a resolution block is added; stores, branches and barriers are encoded, visiting the
/// blocks of `g` in order and their instructions from the last; with intermediate resolution,
/// resolution edges and the bookkeeping of the window are added; all blocks are transient.
pub open spec fn transient_graph(tv: TransientView, g: GraphView) -> Result<
    (GraphView, Map<InstructionRef, usize>),
    Error,
> {
    match with_resolve_block(g) {
        Err(e) => Err(e),
        Ok(g1) => match fold_results((g1, Map::empty()), instruction_refs(g.blocks), transient_step(tv)) {
            Err(e) => Err(e),
            Ok(st) => if tv.intermediate_resolve {
                match with_resolve_edges(st.0) {
                    Err(e) => Err(e),
                    Ok(g3) => Ok((all_transient(with_window_decrease(g3)), st.1)),
                }
            } else {
                Ok((all_transient(st.0), st.1))
            },
        },
    }
}

/// Every block of a transient graph is transient.
pub proof fn law_transient_graph_blocks_are_transient(tv: TransientView, g: GraphView)
    ensures
        transient_graph(tv, g) matches Ok((t, _ents)) ==> forall|i: int|
            0 <= i < t.blocks.len() ==> (#[trigger] t.blocks[i]).transient,
{
}

/// Whether all steps of the transient graph of `g` are defined.
pub open spec fn transient_graph_defined(tv: TransientView, g: GraphView) -> bool {
    match with_resolve_block(g) {
        Ok(g1) => transient_defined(tv, (g1, Map::empty()), instruction_refs(g.blocks)),
        Err(_) => true,
    }
}

/// Whether the default graph starts a transient execution at an instruction with `op`: a
/// store that can be bypassed or a branch that can be mispredicted.
pub open spec fn speculates(tv: TransientView, op: OperationView) -> bool {
    match op {
        OperationView::Store { address, .. } => tv.spectre_stl && !skips_stl(tv.ignored, address),
        OperationView::ConditionalBranch { .. } => tv.spectre_pht,
        _ => false,
    }
}

/// One step of the default graph: a transient execution starts at the instruction if it
/// speculates; its start and rollback blocks are recorded in ascending order of instructions.
pub open spec fn default_step(tv: TransientView) -> spec_fn(
    (GraphView, Seq<(InstructionRef, (usize, usize))>),
    (InstructionRef, OperationView),
) -> Result<(GraphView, Seq<(InstructionRef, (usize, usize))>), Error> {
    |st: (GraphView, Seq<(InstructionRef, (usize, usize))>), it: (InstructionRef, OperationView)|
        if speculates(tv, it.1) {
            match start_step(st.0, Map::empty(), it.0, tv.window as u64, tv.intermediate_resolve) {
                Ok((g2, _)) => Ok(
                    (g2, sorted_insert(st.1, it.0, ((st.0.next_index + 1) as usize, st.0.next_index))),
                ),
                Err(e) => Err(e),
            }
        } else {
            Ok(st)
        }
}

/// The default graph of `g` with its start and rollback points, or the error.
pub open spec fn default_graph(tv: TransientView, g: GraphView) -> Result<
    (GraphView, Seq<(InstructionRef, (usize, usize))>),
    Error,
> {
    fold_results((g, Seq::empty()), instruction_refs(g.blocks), default_step(tv))
}

impl Default for TransientExecution {
    /// No speculation is encoded; the speculation window is 100, with intermediate resolution.
    fn default() -> (r: Self)
        ensures
            !r.spectre_pht && !r.spectre_stl && r.stl_ignored_variables@.len() == 0 && r.predictor_strategy
                == PredictorStrategy::ChoosePath && r.speculation_window == 100 && r.intermediate_resolve,
    {
        TransientExecution {
            spectre_pht: false,
            spectre_stl: false,
            stl_ignored_variables: Vec::new(),
            predictor_strategy: PredictorStrategy::ChoosePath,
            speculation_window: 100,
            intermediate_resolve: true,
        }
    }
}

impl TransientExecution {
    /// The name of the transformation.
    pub fn name(&self) -> (r: &'static str)
        ensures
            r@ == "TransientExecution"@,
    {
        "TransientExecution"
    }

    /// Whether a store to `address` is never bypassed.
    pub fn skip_stl(&self, address: &Expression) -> (r: bool)
        ensures
            r == skips_stl(self@.ignored, address@),
    {
        let vars = address.variables();
        let mut k: usize = 0;
        while k < vars.len()
            invariant
                0 <= k <= vars@.len(),
                vars@.len() == variables_of(address@).len(),
                forall|i: int| 0 <= i < vars@.len() ==> (#[trigger] vars@[i])@ == variables_of(address@)[i],
                forall|i: int| 0 <= i < k ==> self@.ignored.contains(#[trigger] variables_of(address@)[i].name),
            decreases vars@.len() - k,
        {
            let mut found = false;
            let mut j: usize = 0;
            while j < self.stl_ignored_variables.len() && !found
                invariant
                    0 <= j <= self.stl_ignored_variables@.len(),
                    0 <= k < vars@.len(),
                    found ==> self@.ignored.contains(vars@[k as int]@.name),
                    !found ==> forall|m: int| 0 <= m < j ==> self.stl_ignored_variables@[m]@ != vars@[k as int]@.name,
                decreases self.stl_ignored_variables@.len() - j,
            {
                if self.stl_ignored_variables[j] == vars[k].name {
                    assert(self@.ignored[j as int] == vars@[k as int]@.name);
                    found = true;
                }
                j += 1;
            }
            if !found {
                proof {
                    assert(!self@.ignored.contains(variables_of(address@)[k as int].name)) by {
                        if self@.ignored.contains(variables_of(address@)[k as int].name) {
                            let m = choose|m: int| 0 <= m < self@.ignored.len() && self@.ignored[m] == variables_of(address@)[k as int].name;
                            assert(self.stl_ignored_variables@[m]@ == self@.ignored[m]);
                        }
                    }
                }
                return false;
            }
            k += 1;
        }
        true
    }

    /// Whether the default graph starts a transient execution at an instruction of `op`.
    fn starts_transient(&self, op: &Operation) -> (r: bool)
        ensures
            r == speculates(self@, op@),
    {
        match op {
            Operation::Store { address, .. } => self.spectre_stl && !self.skip_stl(address),
            Operation::ConditionalBranch { .. } => self.spectre_pht,
            _ => false,
        }
    }

    /// The default graph: a copy of `cfg` in which a transient execution can start at each
    /// store that can be bypassed and each branch that can be mispredicted, visiting the
    /// blocks in order and their instructions from the last; with the start and rollback block
    /// of each such instruction.
    pub fn build_default_cfg(&self, cfg: &ControlFlowGraph) -> (r: Result<
        (ControlFlowGraph, InstructionRefMap<(usize, usize)>),
        Error,
    >)
        requires
            cfg.wf(),
        ensures
            (match default_graph(self@, cfg@) {
                Ok((g2, p2)) => r matches Ok((c, p)) && c.wf() && p.wf() && c@ == g2 && p.entries@ == p2,
                Err(e) => r matches Err(e2) && e2 == e,
            }),
    {
        let ghost g = cfg@;
        let ghost tv = self@;
        let mut default_cfg = cfg.clone();
        let mut points: InstructionRefMap<(usize, usize)> = InstructionRefMap::new();
        proof {
            assert(g.blocks.take(0) =~= Seq::<BlockView>::empty());
        }
        let mut bi: usize = 0;
        while bi < cfg.blocks.len()
            invariant
                0 <= bi <= cfg.blocks@.len(),
                g == cfg@,
                tv == self@,
                default_cfg.wf(),
                points.wf(),
                fold_results((g, Seq::empty()), instruction_refs(g.blocks.take(bi as int)), default_step(tv)) == Ok::<
                    (GraphView, Seq<(InstructionRef, (usize, usize))>),
                    Error,
                >((default_cfg@, points.entries@)),
            decreases cfg.blocks@.len() - bi,
        {
            let block = &cfg.blocks[bi];
            let ghost bv = g.blocks[bi as int];
            let ghost prefix = instruction_refs(g.blocks.take(bi as int));
            proof {
                assert(block@ == bv);
            }
            let n = block.instructions.len();
            let mut k: usize = n;
            proof {
                assert(block_refs(bv).take(0) =~= Seq::<(InstructionRef, OperationView)>::empty());
                assert(prefix + block_refs(bv).take(0) =~= prefix);
            }
            while k > 0
                invariant
                    0 <= k <= n,
                    n == block.instructions@.len(),
                    block@ == bv,
                    bv == g.blocks[bi as int],
                    bi < g.blocks.len(),
                    g == cfg@,
                    tv == self@,
                    default_cfg.wf(),
                    points.wf(),
                    prefix == instruction_refs(g.blocks.take(bi as int)),
                    fold_results((g, Seq::empty()), prefix + block_refs(bv).take(n - k), default_step(tv)) == Ok::<
                        (GraphView, Seq<(InstructionRef, (usize, usize))>),
                        Error,
                    >((default_cfg@, points.entries@)),
                decreases k,
            {
                k -= 1;
                let inst = &block.instructions[k];
                let address = match inst.address {
                    Some(a) => a,
                    None => 0,
                };
                let inst_ref = InstructionRef::new(block.index, k, address);
                let ghost item = block_refs(bv)[n - 1 - k];
                proof {
                    assert(bv.instructions[k as int] == inst@);
                    assert(item.0 == inst_ref);
                    assert(item.1 == inst.operation@);
                    lemma_refs_fold_next((g, Seq::empty()), g.blocks, default_step(tv), bi as int, n - 1 - k);
                }
                if self.starts_transient(&inst.operation) {
                    match add_transient_execution_start(
                        &mut default_cfg,
                        &mut points,
                        &inst_ref,
                        self.speculation_window,
                        self.intermediate_resolve,
                    ) {
                        Ok(()) => {},
                        Err(e) => {
                            proof {
                                lemma_refs_fold_err((g, Seq::empty()), g.blocks, default_step(tv), bi as int, n - k);
                            }
                            return Err(e);
                        },
                    }
                }
            }
            proof {
                lemma_refs_fold_block((g, Seq::empty()), g.blocks, default_step(tv), bi as int);
            }
            bi += 1;
        }
        proof {
            assert(g.blocks.take(g.blocks.len() as int) =~= g.blocks);
        }
        Ok((default_cfg, points))
    }

    /// Encodes the instruction at `inst_ref` with `op` into the transient graph (see
    /// `transient_step`).
    fn encode_instruction(
        &self,
        cfg: &mut ControlFlowGraph,
        entry_points: &mut InstructionRefMap<usize>,
        inst_ref: &InstructionRef,
        op: &Operation,
    ) -> (r: Result<(), Error>)
        requires
            old(cfg).wf(),
            old(cfg).exit is Some,
            old(entry_points).wf(),
            step_defined(self@, old(cfg)@, (*inst_ref, op@)),
        ensures
            final(cfg).wf(),
            final(cfg).exit is Some,
            final(entry_points).wf(),
            (match transient_step(self@)((old(cfg)@, old(entry_points)@), (*inst_ref, op@)) {
                Ok((g2, p2)) => r is Ok && final(cfg)@ == g2 && final(entry_points)@ == p2,
                Err(e) => r == Err::<(), Error>(e),
            }),
    {
        match op {
            Operation::Store { address, .. } => {
                if self.spectre_stl && !self.skip_stl(address) {
                    transient_store(cfg, entry_points, inst_ref)
                } else {
                    Ok(())
                }
            },
            Operation::ConditionalBranch { .. } => {
                if self.spectre_pht {
                    transient_conditional_branch(cfg, entry_points, inst_ref, self.predictor_strategy)
                } else {
                    Ok(())
                }
            },
            Operation::Barrier => transient_barrier(cfg, inst_ref),
            _ => Ok(()),
        }
    }

    /// The transient graph: a copy of `cfg` with a new resolution block after the exit, which
    /// becomes the exit; stores that can be bypassed, branches that can be mispredicted and
    /// barriers are encoded, visiting the blocks in order and their instructions from the last;
    /// with intermediate resolution, resolution edges and the bookkeeping of the speculation
    /// window are added; all blocks are marked transient. Also gives the entry point of the
    /// transient execution of each encoded store and branch.
    pub fn build_transient_cfg(&self, cfg: &ControlFlowGraph) -> (r: Result<
        (ControlFlowGraph, InstructionRefMap<usize>),
        Error,
    >)
        requires
            cfg.wf(),
            cfg.exit is Some,
            transient_graph_defined(self@, cfg@),
        ensures
            (match transient_graph(self@, cfg@) {
                Ok((g2, p2)) => r matches Ok((c, p)) && c.wf() && p.wf() && c@ == g2 && p@ == p2 && c.exit is Some,
                Err(e) => r matches Err(e2) && e2 == e,
            }),
    {
        let ghost g = cfg@;
        let ghost tv = self@;
        let mut transient_cfg = cfg.clone();
        let mut entry_points: InstructionRefMap<usize> = InstructionRefMap::new();
        let exit = match cfg.exit {
            Some(e) => e,
            None => {
                proof {
                    assert(false);
                }
                return Err(Error::NoExit);
            },
        };
        let resolve = transient_cfg.new_block()?;
        proof {
            let g0 = g.with_new_block();
            assert forall|x: usize| #[trigger] g0.has_block(x) == (g.has_block(x) || x == resolve) by {
                if g.has_block(x) {
                    let i = choose|i: int| 0 <= i < g.blocks.len() && (#[trigger] g.blocks[i]).index == x;
                    assert(g0.blocks[i].index == x);
                }
                if x == resolve {
                    assert(g0.blocks[g.blocks.len() as int].index == x);
                }
                if g0.has_block(x) {
                    let i = choose|i: int| 0 <= i < g0.blocks.len() && (#[trigger] g0.blocks[i]).index == x;
                    if i < g.blocks.len() {
                        assert(g.blocks[i].index == x);
                    }
                }
            }
            assert(!g0.has_edge(exit, resolve)) by {
                if g0.has_edge(exit, resolve) {
                    let i = choose|i: int| 0 <= i < g0.edges.len() && (#[trigger] g0.edges[i]).head == exit && g0.edges[i].tail == resolve;
                    assert(g.has_block(g.edges[i].tail));
                    let j = choose|j: int| 0 <= j < g.blocks.len() && (#[trigger] g.blocks[j]).index == resolve;
                }
            }
        }
        let r1 = transient_cfg.unconditional_edge(exit, resolve, EdgeLabels::none());
        assert(r1 is Ok);
        let r2 = transient_cfg.set_exit(resolve);
        assert(r2 is Ok);
        let ghost g1 = transient_cfg@;
        proof {
            assert(with_resolve_block(g) == Ok::<GraphView, Error>(g1));
            assert(g.blocks.take(0) =~= Seq::<BlockView>::empty());
        }
        let mut bi: usize = 0;
        while bi < cfg.blocks.len()
            invariant
                0 <= bi <= cfg.blocks@.len(),
                g == cfg@,
                tv == self@,
                transient_cfg.wf(),
                transient_cfg.exit is Some,
                entry_points.wf(),
                transient_defined(tv, (g1, Map::empty()), instruction_refs(g.blocks)),
                with_resolve_block(g) == Ok::<GraphView, Error>(g1),
                fold_results((g1, Map::empty()), instruction_refs(g.blocks.take(bi as int)), transient_step(tv)) == Ok::<
                    (GraphView, Map<InstructionRef, usize>),
                    Error,
                >((transient_cfg@, entry_points@)),
            decreases cfg.blocks@.len() - bi,
        {
            let block = &cfg.blocks[bi];
            let ghost bv = g.blocks[bi as int];
            let ghost prefix = instruction_refs(g.blocks.take(bi as int));
            proof {
                assert(block@ == bv);
            }
            let n = block.instructions.len();
            let mut k: usize = n;
            proof {
                assert(block_refs(bv).take(0) =~= Seq::<(InstructionRef, OperationView)>::empty());
                assert(prefix + block_refs(bv).take(0) =~= prefix);
            }
            while k > 0
                invariant
                    0 <= k <= n,
                    n == block.instructions@.len(),
                    block@ == bv,
                    bv == g.blocks[bi as int],
                    bi < g.blocks.len(),
                    g == cfg@,
                    tv == self@,
                    transient_cfg.wf(),
                    transient_cfg.exit is Some,
                    entry_points.wf(),
                    prefix == instruction_refs(g.blocks.take(bi as int)),
                    transient_defined(tv, (g1, Map::empty()), instruction_refs(g.blocks)),
                    with_resolve_block(g) == Ok::<GraphView, Error>(g1),
                    fold_results((g1, Map::empty()), prefix + block_refs(bv).take(n - k), transient_step(tv)) == Ok::<
                        (GraphView, Map<InstructionRef, usize>),
                        Error,
                    >((transient_cfg@, entry_points@)),
                decreases k,
            {
                k -= 1;
                let inst = &block.instructions[k];
                let address = match inst.address {
                    Some(a) => a,
                    None => 0,
                };
                let inst_ref = InstructionRef::new(block.index, k, address);
                let ghost item = block_refs(bv)[n - 1 - k];
                proof {
                    assert(bv.instructions[k as int] == inst@);
                    assert(item.0 == inst_ref);
                    assert(item.1 == inst.operation@);
                    lemma_refs_fold_next((g1, Map::empty()), g.blocks, transient_step(tv), bi as int, n - 1 - k);
                    let items = prefix + block_refs(bv).take(n - k);
                    lemma_refs_prefix(g.blocks, bi + 1);
                    let whole = instruction_refs(g.blocks);
                    assert(g.blocks.take(bi + 1).drop_last() =~= g.blocks.take(bi as int));
                    assert(instruction_refs(g.blocks.take(bi + 1)) =~= prefix + block_refs(bv));
                    assert(whole.take(items.len() as int) =~= items) by {
                        assert(instruction_refs(g.blocks.take(bi + 1)).take(items.len() as int) =~= items);
                    }
                    lemma_defined_prefix(tv, (g1, Map::empty()), whole, items.len() as int);
                    assert(items.drop_last() =~= prefix + block_refs(bv).take(n - 1 - k));
                    assert(items.last() == item);
                    assert(step_defined(tv, transient_cfg@, item));
                }
                let outcome = self.encode_instruction(&mut transient_cfg, &mut entry_points, &inst_ref, &inst.operation);
                match outcome {
                    Ok(()) => {},
                    Err(e) => {
                        proof {
                            lemma_refs_fold_err((g1, Map::empty()), g.blocks, transient_step(tv), bi as int, n - k);
                        }
                        return Err(e);
                    },
                }
            }
            proof {
                lemma_refs_fold_block((g1, Map::empty()), g.blocks, transient_step(tv), bi as int);
            }
            bi += 1;
        }
        proof {
            assert(g.blocks.take(g.blocks.len() as int) =~= g.blocks);
        }
        let ghost encoded = transient_cfg@;
        proof {
            assert(fold_results((g1, Map::empty()), instruction_refs(g.blocks), transient_step(tv)) == Ok::<
                (GraphView, Map<InstructionRef, usize>),
                Error,
            >((encoded, entry_points@)));
        }
        if self.intermediate_resolve {
            match add_transient_resolve_edges(&mut transient_cfg) {
                Ok(()) => {},
                Err(e) => {
                    proof {
                        assert(with_resolve_edges(encoded) == Err::<GraphView, Error>(e));
                        assert(transient_graph(tv, g) == Err::<(GraphView, Map<InstructionRef, usize>), Error>(e));
                    }
                    return Err(e);
                },
            }
            let _ = append_spec_win_decrease_to_all_blocks(&mut transient_cfg);
        }
        set_all_transient(&mut transient_cfg);
        Ok((transient_cfg, entry_points))
    }
}

} // verus!
