//! The encoding of transient (speculative) execution into a control-flow graph.
use crate::error::Error;
use crate::hir::transformation::{sorted_insert, InstructionRef, InstructionRefMap};
use crate::hir::{
    edge_views, leaves, lemma_leaving_edges, plain, unconditional, BlockView, ControlFlowGraph, Edge,
    EdgeLabels, EdgeView, GraphView, Instruction, InstructionView, OperationView,
};
use crate::lir::{
    bit_vector_view, boolean_view, component_view, constant_view, variable_view, BitVector,
    BitVectorValue, Boolean, Constant, Expression, ExpressionView, OperatorView, Predictor, Sort,
    Variable, VariableView, SPECULATION_WINDOW_SIZE, WORD_SIZE,
};
use vstd::prelude::*;

verus! {

/// No edge label.
pub open spec fn no_labels() -> EdgeLabels {
    EdgeLabels { taken: false, speculate: false, rollback: false, call: false, ret: false }
}

/// The expression of the branch-predictor variable.
pub open spec fn predictor_view() -> ExpressionView {
    variable_view(component_view("_predictor"@, Sort::Predictor))
}

/// The machine-word constant `address`.
pub open spec fn location_view(address: u64) -> ExpressionView {
    constant_view(Constant::BitVector(BitVectorValue { value: address, bits: WORD_SIZE }))
}

/// "The predictor speculates at `address`".
pub open spec fn speculate_view(address: u64) -> ExpressionView {
    ExpressionView {
        operator: OperatorView::Predictor(Predictor::Speculate),
        operands: seq![predictor_view(), location_view(address)],
        sort: Sort::Bool,
    }
}

/// "The predictor predicts the branch at `address` as taken".
pub open spec fn taken_view(address: u64) -> ExpressionView {
    ExpressionView {
        operator: OperatorView::Predictor(Predictor::Taken),
        operands: seq![predictor_view(), location_view(address)],
        sort: Sort::Bool,
    }
}

/// The speculation window that the predictor gives the speculation at `address`.
pub open spec fn window_view(address: u64) -> ExpressionView {
    ExpressionView {
        operator: OperatorView::Predictor(Predictor::SpeculationWindow),
        operands: seq![predictor_view(), location_view(address)],
        sort: Sort::BitVector(SPECULATION_WINDOW_SIZE),
    }
}

/// The negation of `e`.
pub open spec fn not_view(e: ExpressionView) -> ExpressionView {
    boolean_view(Boolean::Not, seq![e])
}

/// The variable that holds the remaining speculation window.
pub open spec fn spec_win_view() -> VariableView {
    VariableView { name: "_spec_win"@, sort: Sort::BitVector(SPECULATION_WINDOW_SIZE), rollback_persistent: false, version: None }
}

/// The speculation-window constant `value`.
pub open spec fn window_constant_view(value: u64) -> ExpressionView {
    constant_view(Constant::BitVector(BitVectorValue { value, bits: SPECULATION_WINDOW_SIZE }))
}

/// A pseudo instruction of the operation.
pub open spec fn pseudo(op: OperationView) -> InstructionView {
    InstructionView { pseudo: true, ..plain(op) }
}

/// The instructions that start a transient execution at `address`: when intermediate
/// resolution is on, the speculation window is set to what the predictor gives, which is
/// assumed positive and at most `max_window`.
pub open spec fn start_instructions(address: u64, max_window: u64, intermediate_resolve: bool) -> Seq<
    InstructionView,
> {
    if intermediate_resolve {
        let w = variable_view(spec_win_view());
        seq![
            pseudo(OperationView::Assign { variable: spec_win_view(), expr: window_view(address) }),
            pseudo(
                OperationView::Assume {
                    condition: bit_vector_view(BitVector::SGt, seq![w, window_constant_view(0)], Sort::Bool),
                },
            ),
            pseudo(
                OperationView::Assume {
                    condition: bit_vector_view(BitVector::SLe, seq![w, window_constant_view(max_window)], Sort::Bool),
                },
            ),
        ]
    } else {
        Seq::empty()
    }
}

/// The conditional edge from `h` to `t` under `c`.
pub open spec fn conditional(h: usize, t: usize, c: ExpressionView, labels: EdgeLabels) -> EdgeView {
    EdgeView { head: h, tail: t, condition: Some(c), labels: labels }
}

/// Whether the encoding of a store at `r` can be applied to `g`: the block exists, holds the
/// instruction and two more block indices are free.
pub open spec fn store_applies(g: GraphView, r: InstructionRef) -> bool {
    &&& g.has_block(r.block)
    &&& r.index < g.block(r.block).instructions.len()
    &&& g.next_index + 1 < usize::MAX
}

/// The encoding of the store at `r`: its block is split into [head], [store] and [tail]; the
/// store can be bypassed speculatively (head to tail) or executed (head to store to tail).
pub open spec fn store_encoding(g: GraphView, r: InstructionRef) -> GraphView {
    let s = g.next_index;
    let t = (s + 1) as usize;
    let bypass = speculate_view(r.address);
    g.split(r.block, r.index as int).split(s, 1).with_edge(
        conditional(r.block, t, bypass, EdgeLabels { speculate: true, ..no_labels() }),
    ).with_edge(conditional(r.block, s, not_view(bypass), no_labels())).with_edge(unconditional(s, t, no_labels()))
}

/// Encoding the store at `r` lets speculation bypass it exactly when the predictor
/// speculates at the store's address: the edges that leave `r.block` are one to the tail
/// block, labelled as speculation and taken under `speculate(predictor, address)`, and one to
/// the store block, taken under its negation.
pub proof fn law_store_bypass_follows_the_predictor(g: GraphView, r: InstructionRef)
    requires
        g.wf(),
        store_applies(g, r),
    ensures
        forall|k: int|
            0 <= k < store_encoding(g, r).edges.len() && (#[trigger] store_encoding(g, r).edges[k]).head == r.block
                ==> {
                let e = store_encoding(g, r).edges[k];
                ||| e.tail == (g.next_index + 1) as usize && e.labels.speculate && e.condition == Some(
                    speculate_view(r.address),
                )
                ||| e.tail == g.next_index && !e.labels.speculate && e.condition == Some(
                    not_view(speculate_view(r.address)),
                )
            },
        exists|k: int|
            0 <= k < store_encoding(g, r).edges.len() && (#[trigger] store_encoding(g, r).edges[k]).head == r.block
                && store_encoding(g, r).edges[k].tail == (g.next_index + 1) as usize,
        exists|k: int|
            0 <= k < store_encoding(g, r).edges.len() && (#[trigger] store_encoding(g, r).edges[k]).head == r.block
                && store_encoding(g, r).edges[k].tail == g.next_index,
{
    let h = store_encoding(g, r);
    let s1 = g.next_index;
    let g1 = g.split(r.block, r.index as int);
    let g2 = g1.split(s1, 1);
    let n = g.edges.len() as int;
    let i = choose|i: int| 0 <= i < g.blocks.len() && (#[trigger] g.blocks[i]).index == r.block;
    assert(r.block < g.next_index);
    assert(h.edges.len() == n + 3);
    assert forall|k: int| 0 <= k < n implies h.edges[k].head != r.block by {
        assert(h.edges[k] == g2.edges[k]);
        assert(g2.edges[k].head == if g1.edges[k].head == s1 { (s1 + 1) as usize } else { g1.edges[k].head });
    }
    assert(h.edges[n].head == r.block && h.edges[n].tail == (g.next_index + 1) as usize);
    assert(h.edges[n + 1].head == r.block && h.edges[n + 1].tail == g.next_index);
    assert(h.edges[n + 2].head == s1);
}

/// The encoding of a barrier at `r`: the block is split before it, and its first part ends
/// transient execution by going to the exit.
pub open spec fn barrier_encoding(g: GraphView, r: InstructionRef) -> GraphView {
    let g1 = g.split(r.block, r.index as int);
    g1.with_edge(unconditional(r.block, g1.exit.unwrap(), no_labels()))
}

/// Whether a transient execution can start at `r` in `g`.
pub open spec fn start_applies(g: GraphView, r: InstructionRef) -> bool {
    &&& g.has_block(r.block)
    &&& r.index <= g.block(r.block).instructions.len()
    &&& g.next_index + 1 < usize::MAX
}

/// The start of a transient execution at `r`: the block is split before the instruction into
/// [head] and [tail], a transient [start] block is added, and head goes to tail when the
/// predictor does not speculate and to start when it does.
pub open spec fn start_encoding(g: GraphView, r: InstructionRef, max_window: u64, intermediate_resolve: bool) -> GraphView {
    let g1 = g.split(r.block, r.index as int);
    let t = g.next_index;
    let ts = (t + 1) as usize;
    let start = BlockView {
        index: ts,
        phi_nodes: Seq::empty(),
        instructions: start_instructions(r.address, max_window, intermediate_resolve),
        transient: true,
    };
    let g2 = GraphView { blocks: g1.blocks.push(start), next_index: (ts + 1) as usize, ..g1 };
    let spec = speculate_view(r.address);
    g2.with_edge(conditional(r.block, t, not_view(spec), no_labels())).with_edge(
        conditional(r.block, ts, spec, EdgeLabels { speculate: true, ..no_labels() }),
    )
}

/// Starting a transient execution at `r` enters the transient start block exactly when the
/// predictor speculates at the instruction's address, and continues with the rest of the
/// block otherwise: every edge into the new start block leaves `r.block`, is labelled as
/// speculation and is taken under `speculate(predictor, address)`; every edge from `r.block`
/// into the new tail block is taken under its negation; and there is one of each.
pub proof fn law_transient_start_follows_the_predictor(
    g: GraphView,
    r: InstructionRef,
    max_window: u64,
    intermediate_resolve: bool,
)
    requires
        g.wf(),
        start_applies(g, r),
    ensures
        forall|k: int|
            0 <= k < start_encoding(g, r, max_window, intermediate_resolve).edges.len()
                && (#[trigger] start_encoding(g, r, max_window, intermediate_resolve).edges[k]).tail == (g.next_index
                + 1) as usize ==> {
                let e = start_encoding(g, r, max_window, intermediate_resolve).edges[k];
                &&& e.head == r.block
                &&& e.labels.speculate
                &&& e.condition == Some(speculate_view(r.address))
            },
        forall|k: int|
            0 <= k < start_encoding(g, r, max_window, intermediate_resolve).edges.len()
                && (#[trigger] start_encoding(g, r, max_window, intermediate_resolve).edges[k]).head == r.block
                && start_encoding(g, r, max_window, intermediate_resolve).edges[k].tail == g.next_index
                ==> start_encoding(g, r, max_window, intermediate_resolve).edges[k].condition == Some(
                not_view(speculate_view(r.address)),
            ),
        exists|k: int|
            0 <= k < start_encoding(g, r, max_window, intermediate_resolve).edges.len()
                && (#[trigger] start_encoding(g, r, max_window, intermediate_resolve).edges[k]).tail == (g.next_index
                + 1) as usize,
        exists|k: int|
            0 <= k < start_encoding(g, r, max_window, intermediate_resolve).edges.len()
                && (#[trigger] start_encoding(g, r, max_window, intermediate_resolve).edges[k]).head == r.block
                && start_encoding(g, r, max_window, intermediate_resolve).edges[k].tail == g.next_index,
{
    let h = start_encoding(g, r, max_window, intermediate_resolve);
    let g1 = g.split(r.block, r.index as int);
    let n = g.edges.len() as int;
    assert(h.edges.len() == n + 2);
    assert forall|k: int| 0 <= k < n implies h.edges[k].tail < g.next_index by {
        assert(h.edges[k] == g1.edges[k]);
        assert(g1.edges[k].tail == g.edges[k].tail);
        assert(g.has_block(g.edges[k].tail));
        let i = choose|i: int| 0 <= i < g.blocks.len() && (#[trigger] g.blocks[i]).index == g.edges[k].tail;
    }
    assert(h.edges[n].tail == g.next_index);
    assert(h.edges[n + 1].tail == (g.next_index + 1) as usize);
}

/// How a speculative execution predicts the outcome of a conditional branch.
#[derive(Clone, Copy, Debug, PartialEq, Eq, Structural)]
pub enum PredictorStrategy {
    /// The predictor chooses the path (taken or not taken) at the branch's address.
    ChoosePath,
    /// The speculative path is the one whose condition does not hold.
    InvertCondition,
}

impl Default for PredictorStrategy {
    fn default() -> (r: Self)
        ensures
            r == PredictorStrategy::ChoosePath,
    {
        PredictorStrategy::ChoosePath
    }
}

/// The edges that leave the conditional branch at `r` once its block is split before it.
pub open spec fn branch_successors(g: GraphView, r: InstructionRef) -> Seq<EdgeView> {
    g.split(r.block, r.index as int).out_edges(g.next_index)
}

/// The labels of an edge that is taken when a branch is taken.
pub open spec fn taken_labels() -> EdgeLabels {
    EdgeLabels { taken: true, ..no_labels() }
}

/// The condition under which speculation follows the successor edge `e` of the branch at
/// `address`.
pub open spec fn predicted(strategy: PredictorStrategy, e: EdgeView, address: u64) -> ExpressionView {
    match strategy {
        PredictorStrategy::ChoosePath => if e.labels.taken {
            taken_view(address)
        } else {
            not_view(taken_view(address))
        },
        PredictorStrategy::InvertCondition => not_view(e.condition.unwrap()),
    }
}

/// The taken and the not-taken edge of two successor edges.
pub open spec fn taken_first(outs: Seq<EdgeView>) -> (EdgeView, EdgeView) {
    if outs[0].labels.taken {
        (outs[0], outs[1])
    } else {
        (outs[1], outs[0])
    }
}

/// The edges from the speculation block `s` to the successors `outs` of a branch at `address`.
pub open spec fn speculation_edges(strategy: PredictorStrategy, outs: Seq<EdgeView>, s: usize, address: u64) -> Seq<
    EdgeView,
> {
    if outs.len() == 1 {
        let e = outs[0];
        seq![
            conditional(
                s,
                e.tail,
                predicted(strategy, e, address),
                if e.labels.taken {
                    taken_labels()
                } else {
                    no_labels()
                },
            ),
        ]
    } else {
        let (te, ne) = taken_first(outs);
        seq![
            conditional(s, ne.tail, predicted(strategy, ne, address), no_labels()),
            conditional(s, te.tail, predicted(strategy, te, address), taken_labels()),
        ]
    }
}

/// The instructions of the speculation block: with a single successor, the prediction that
/// leads to it is assumed.
pub open spec fn speculation_instructions(strategy: PredictorStrategy, outs: Seq<EdgeView>, address: u64) -> Seq<
    InstructionView,
> {
    if outs.len() == 1 {
        seq![pseudo(OperationView::Assume { condition: predicted(strategy, outs[0], address) })]
    } else {
        Seq::empty()
    }
}

/// The graph after splitting the block of the branch at `r` into [head] and [branch] and
/// adding the [speculate] block with the edges from head to speculate (when the predictor
/// speculates) and to branch (otherwise).
pub open spec fn branch_prefix(g: GraphView, r: InstructionRef) -> GraphView {
    let b = g.next_index;
    let s = (b + 1) as usize;
    let spec = speculate_view(r.address);
    g.split(r.block, r.index as int).with_new_block().with_edge(
        conditional(r.block, s, spec, EdgeLabels { speculate: true, ..no_labels() }),
    ).with_edge(conditional(r.block, b, not_view(spec), no_labels()))
}

/// The encoding of a conditional branch at `r` that can be mispredicted: speculate goes to
/// the successors of the branch under the predicted conditions.
pub open spec fn branch_encoding(g: GraphView, r: InstructionRef, strategy: PredictorStrategy) -> GraphView {
    let p = branch_prefix(g, r);
    let s = (g.next_index + 1) as usize;
    let outs = branch_successors(g, r);
    GraphView {
        blocks: p.blocks.update(
            p.blocks.len() - 1,
            BlockView { instructions: speculation_instructions(strategy, outs, r.address), ..p.blocks.last() },
        ),
        edges: p.edges + speculation_edges(strategy, outs, s, r.address),
        ..p
    }
}

/// Whether splitting block `b` before its instruction `at` succeeds.
pub open spec fn split_applies(g: GraphView, b: usize, at: usize) -> bool {
    &&& g.has_block(b)
    &&& at <= g.block(b).instructions.len()
    &&& g.next_index < usize::MAX
}

/// The error of splitting block `b` before its instruction `at` when that fails.
pub open spec fn split_error(g: GraphView, b: usize, at: usize) -> Error {
    if !g.has_block(b) {
        Error::BlockNotFound(b)
    } else if at > g.block(b).instructions.len() {
        Error::InstructionIndexOutOfBounds { block: b, index: at }
    } else {
        Error::IndexOverflow
    }
}

/// The outcome of the encoding of a store at `r`: the graph and the entry points, or the error.
pub open spec fn store_step(g: GraphView, points: Map<InstructionRef, usize>, r: InstructionRef) -> Result<
    (GraphView, Map<InstructionRef, usize>),
    Error,
> {
    if store_applies(g, r) {
        Ok((store_encoding(g, r), points.insert(r, (g.next_index + 1) as usize)))
    } else if !split_applies(g, r.block, r.index) {
        Err(split_error(g, r.block, r.index))
    } else if r.index == g.block(r.block).instructions.len() {
        Err(Error::InstructionIndexOutOfBounds { block: g.next_index, index: 1 })
    } else {
        Err(Error::IndexOverflow)
    }
}

/// The outcome of the encoding of a barrier at `r`.
pub open spec fn barrier_step(g: GraphView, r: InstructionRef) -> Result<GraphView, Error> {
    if split_applies(g, r.block, r.index) {
        Ok(barrier_encoding(g, r))
    } else {
        Err(split_error(g, r.block, r.index))
    }
}

/// The outcome of the start of a transient execution at `r`: the graph and the start and
/// rollback points, or the error.
pub open spec fn start_step(
    g: GraphView,
    points: Map<InstructionRef, (usize, usize)>,
    r: InstructionRef,
    max_window: u64,
    intermediate_resolve: bool,
) -> Result<(GraphView, Map<InstructionRef, (usize, usize)>), Error> {
    if start_applies(g, r) {
        Ok(
            (
                start_encoding(g, r, max_window, intermediate_resolve),
                points.insert(r, ((g.next_index + 1) as usize, g.next_index)),
            ),
        )
    } else if !split_applies(g, r.block, r.index) {
        Err(split_error(g, r.block, r.index))
    } else {
        Err(Error::IndexOverflow)
    }
}

/// In the block graph split for the branch at `r`, the branch has at most two successors,
/// exactly one of two is taken, and with `InvertCondition` all are conditional.
pub open spec fn branch_defined(g: GraphView, r: InstructionRef, strategy: PredictorStrategy) -> bool {
    &&& start_applies(g, r) && branch_successors(g, r).len() == 2 ==> branch_successors(g, r)[0].labels.taken
        != branch_successors(g, r)[1].labels.taken
    &&& start_applies(g, r) && strategy is InvertCondition && branch_successors(g, r).len() <= 2 ==> forall|k: int|
        0 <= k < branch_successors(g, r).len() ==> (#[trigger] branch_successors(g, r)[k]).condition is Some
}

/// The outcome of the encoding of the conditional branch at `r`.
pub open spec fn branch_step(
    g: GraphView,
    points: Map<InstructionRef, usize>,
    r: InstructionRef,
    strategy: PredictorStrategy,
) -> Result<(GraphView, Map<InstructionRef, usize>), Error> {
    if start_applies(g, r) && 1 <= branch_successors(g, r).len() <= 2 {
        Ok((branch_encoding(g, r, strategy), points.insert(r, (g.next_index + 1) as usize)))
    } else if !split_applies(g, r.block, r.index) {
        Err(split_error(g, r.block, r.index))
    } else if !start_applies(g, r) {
        Err(Error::IndexOverflow)
    } else {
        Err(
            Error::UnexpectedSuccessorCount {
                block: g.next_index,
                count: branch_successors(g, r).len() as usize,
            },
        )
    }
}

/// In a graph split at `b`, no edge leaves `b`, and every edge that leaves the new block
/// left `b` before.
proof fn lemma_split_heads(g: GraphView, b: usize, at: int)
    requires
        g.wf(),
        g.has_block(b),
        g.next_index < usize::MAX,
    ensures
        forall|i: int| 0 <= i < g.split(b, at).edges.len() ==> (#[trigger] g.split(b, at).edges[i]).head != b,
        forall|i: int| 0 <= i < g.split(b, at).edges.len() ==> (#[trigger] g.split(b, at).edges[i]).head != g.next_index + 1,
        b < g.next_index,
{
    let p = g.block_pos(b);
    assert(g.blocks[p].index == b);
    assert forall|i: int| 0 <= i < g.edges.len() implies (#[trigger] g.edges[i]).head < g.next_index by {
        assert(g.has_block(g.edges[i].head));
        let j = choose|j: int| 0 <= j < g.blocks.len() && (#[trigger] g.blocks[j]).index == g.edges[i].head;
    }
}

/// The expression "the predictor speculates at `address`".
fn speculate_at(address: u64) -> (r: Expression)
    ensures
        r@ == speculate_view(address),
{
    proof {
        reveal_strlit("_predictor");
    }
    match Predictor::speculate(Expression::variable(Predictor::variable()), BitVector::word_constant(address)) {
        Ok(e) => e,
        Err(_) => {
            proof {
                assert(false);
            }
            Boolean::constant(false)
        },
    }
}

/// The expression "the predictor predicts the branch at `address` as taken".
fn taken_at(address: u64) -> (r: Expression)
    ensures
        r@ == taken_view(address),
{
    match Predictor::taken(Expression::variable(Predictor::variable()), BitVector::word_constant(address)) {
        Ok(e) => e,
        Err(_) => {
            proof {
                assert(false);
            }
            Boolean::constant(false)
        },
    }
}

/// The negation of a boolean expression.
fn negation(e: Expression) -> (r: Expression)
    requires
        e.sort is Bool,
    ensures
        r@ == not_view(e@),
{
    match Boolean::not(e) {
        Ok(n) => n,
        Err(_) => {
            proof {
                assert(false);
            }
            Boolean::constant(false)
        },
    }
}

/// The speculation-window variable.
pub fn spec_win() -> (r: Variable)
    ensures
        r@ == spec_win_view(),
{
    Variable::new("_spec_win", Sort::bit_vector(SPECULATION_WINDOW_SIZE))
}

/// Encodes that the store at `inst_ref` can be bypassed during transient execution: the block
/// is split into [head], [store] and [tail]; head goes to tail when the predictor speculates
/// (bypass) and to store otherwise; store goes to tail. Transient execution continues in tail,
/// which is recorded in `entry_points`.
pub fn transient_store(
    cfg: &mut ControlFlowGraph,
    entry_points: &mut InstructionRefMap<usize>,
    inst_ref: &InstructionRef,
) -> (r: Result<(), Error>)
    requires
        old(cfg).wf(),
        old(entry_points).wf(),
    ensures
        final(cfg).wf(),
        final(entry_points).wf(),
        r is Ok <==> store_applies(old(cfg)@, *inst_ref),
        r is Ok ==> final(cfg)@ == store_encoding(old(cfg)@, *inst_ref) && final(entry_points)@ == old(
            entry_points,
        )@.insert(*inst_ref, (old(cfg).next_index + 1) as usize),
        (match store_step(old(cfg)@, old(entry_points)@, *inst_ref) {
            Ok((g2, p2)) => r is Ok && final(cfg)@ == g2 && final(entry_points)@ == p2,
            Err(e) => r == Err::<(), Error>(e),
        }),
        r is Err ==> final(entry_points)@ == old(entry_points)@,
        !old(cfg)@.has_block(inst_ref.block) ==> r == Err::<(), Error>(Error::BlockNotFound(inst_ref.block))
            && final(cfg)@ == old(cfg)@,
        old(cfg)@.has_block(inst_ref.block) && inst_ref.index > old(cfg)@.block(inst_ref.block).instructions.len()
            ==> r == Err::<(), Error>(Error::InstructionIndexOutOfBounds { block: inst_ref.block, index: inst_ref.index })
            && final(cfg)@ == old(cfg)@,
        old(cfg)@.has_block(inst_ref.block) && inst_ref.index <= old(cfg)@.block(inst_ref.block).instructions.len()
            && old(cfg).next_index == usize::MAX ==> r == Err::<(), Error>(Error::IndexOverflow) && final(cfg)@ == old(
            cfg,
        )@,
        old(cfg)@.has_block(inst_ref.block) && inst_ref.index == old(cfg)@.block(inst_ref.block).instructions.len()
            && old(cfg).next_index < usize::MAX ==> r == Err::<(), Error>(
            Error::InstructionIndexOutOfBounds { block: old(cfg).next_index, index: 1 },
        ) && final(cfg)@ == old(cfg)@.split(inst_ref.block, inst_ref.index as int),
        old(cfg)@.has_block(inst_ref.block) && inst_ref.index < old(cfg)@.block(inst_ref.block).instructions.len()
            && old(cfg).next_index + 1 == usize::MAX ==> r == Err::<(), Error>(Error::IndexOverflow) && final(cfg)@
            == old(cfg)@.split(inst_ref.block, inst_ref.index as int),
{
    let ghost g = old(cfg)@;
    let head = inst_ref.block;
    let store = cfg.split_block_at(head, inst_ref.index)?;
    proof {
        g.lemma_split_wf(head, inst_ref.index as int);
        lemma_split_heads(g, head, inst_ref.index as int);
        let g1 = g.split(head, inst_ref.index as int);
        assert(g1.has_block(store));
        assert(g1.block_pos(store) == g.blocks.len()) by {
            g1.lemma_block_pos(g.blocks.len() as int);
        }
    }
    let ghost g1 = cfg@;
    let tail = cfg.split_block_at(store, 1)?;
    proof {
        g1.lemma_split_wf(store, 1);
        lemma_split_heads(g1, store, 1);
    }
    let bypass = speculate_at(inst_ref.address);
    let execute = negation(bypass.clone());
    let r1 = cfg.conditional_edge(head, tail, bypass, EdgeLabels::none().speculate());
    assert(r1 is Ok);
    let r2 = cfg.conditional_edge(head, store, execute, EdgeLabels::none());
    assert(r2 is Ok);
    let r3 = cfg.unconditional_edge(store, tail, EdgeLabels::none());
    assert(r3 is Ok);
    entry_points.insert(*inst_ref, tail);
    Ok(())
}

/// Encodes that a barrier at `inst_ref` ends transient execution: the block is split before
/// the barrier and its first part goes to the exit (the resolution of transient execution).
pub fn transient_barrier(cfg: &mut ControlFlowGraph, inst_ref: &InstructionRef) -> (r: Result<(), Error>)
    requires
        old(cfg).wf(),
        old(cfg).exit is Some,
    ensures
        final(cfg).wf(),
        r is Ok <==> start_applies(old(cfg)@, *inst_ref) || (old(cfg)@.has_block(inst_ref.block) && inst_ref.index
            <= old(cfg)@.block(inst_ref.block).instructions.len() && old(cfg).next_index + 1 == usize::MAX),
        r is Ok ==> final(cfg)@ == barrier_encoding(old(cfg)@, *inst_ref),
        (match barrier_step(old(cfg)@, *inst_ref) {
            Ok(g2) => r is Ok && final(cfg)@ == g2,
            Err(e) => r == Err::<(), Error>(e),
        }),
        r is Err ==> final(cfg)@ == old(cfg)@,
        !old(cfg)@.has_block(inst_ref.block) ==> r == Err::<(), Error>(Error::BlockNotFound(inst_ref.block)),
        old(cfg)@.has_block(inst_ref.block) && inst_ref.index > old(cfg)@.block(inst_ref.block).instructions.len()
            ==> r == Err::<(), Error>(Error::InstructionIndexOutOfBounds { block: inst_ref.block, index: inst_ref.index }),
        old(cfg)@.has_block(inst_ref.block) && inst_ref.index <= old(cfg)@.block(inst_ref.block).instructions.len()
            && old(cfg).next_index == usize::MAX ==> r == Err::<(), Error>(Error::IndexOverflow),
{
    let ghost g = old(cfg)@;
    let head = inst_ref.block;
    let _tail = cfg.split_block_at(head, inst_ref.index)?;
    proof {
        g.lemma_split_wf(head, inst_ref.index as int);
        lemma_split_heads(g, head, inst_ref.index as int);
    }
    let resolve = match cfg.exit {
        Some(e) => e,
        None => {
            proof {
                assert(false);
            }
            return Err(Error::NoExit);
        },
    };
    let r1 = cfg.unconditional_edge(head, resolve, EdgeLabels::none());
    assert(r1 is Ok);
    Ok(())
}

/// Prepares the start of a transient execution at `inst_ref`: the block is split before the
/// instruction into [head] and [tail] and a transient [start] block is added; head goes to
/// tail when the predictor does not speculate and to start when it does. With intermediate
/// resolution, start sets the speculation window. `(start, tail)` is recorded in `points`:
/// transient execution is entered from start and rolls back to tail.
pub fn add_transient_execution_start(
    cfg: &mut ControlFlowGraph,
    points: &mut InstructionRefMap<(usize, usize)>,
    inst_ref: &InstructionRef,
    max_spec_window: usize,
    intermediate_resolve: bool,
) -> (r: Result<(), Error>)
    requires
        old(cfg).wf(),
        old(points).wf(),
    ensures
        final(cfg).wf(),
        final(points).wf(),
        r is Ok <==> start_applies(old(cfg)@, *inst_ref),
        r is Ok ==> final(cfg)@ == start_encoding(old(cfg)@, *inst_ref, max_spec_window as u64, intermediate_resolve)
            && final(points)@ == old(points)@.insert(
            *inst_ref,
            ((old(cfg).next_index + 1) as usize, old(cfg).next_index),
        ),
        (match start_step(old(cfg)@, old(points)@, *inst_ref, max_spec_window as u64, intermediate_resolve) {
            Ok((g2, p2)) => r is Ok && final(cfg)@ == g2 && final(points)@ == p2,
            Err(e) => r == Err::<(), Error>(e),
        }),
        r is Ok ==> final(points).entries@ == sorted_insert(
            old(points).entries@,
            *inst_ref,
            ((old(cfg).next_index + 1) as usize, old(cfg).next_index),
        ),
        r is Err ==> final(points).entries@ == old(points).entries@,
        r is Err ==> final(points)@ == old(points)@,
        !old(cfg)@.has_block(inst_ref.block) ==> r == Err::<(), Error>(Error::BlockNotFound(inst_ref.block))
            && final(cfg)@ == old(cfg)@,
        old(cfg)@.has_block(inst_ref.block) && inst_ref.index > old(cfg)@.block(inst_ref.block).instructions.len()
            ==> r == Err::<(), Error>(Error::InstructionIndexOutOfBounds { block: inst_ref.block, index: inst_ref.index })
            && final(cfg)@ == old(cfg)@,
        old(cfg)@.has_block(inst_ref.block) && inst_ref.index <= old(cfg)@.block(inst_ref.block).instructions.len()
            && old(cfg).next_index == usize::MAX ==> r == Err::<(), Error>(Error::IndexOverflow) && final(cfg)@ == old(
            cfg,
        )@,
        old(cfg)@.has_block(inst_ref.block) && inst_ref.index <= old(cfg)@.block(inst_ref.block).instructions.len()
            && old(cfg).next_index + 1 == usize::MAX ==> r == Err::<(), Error>(Error::IndexOverflow) && final(cfg)@
            == old(cfg)@.split(inst_ref.block, inst_ref.index as int),
{
    let ghost g = old(cfg)@;
    let head = inst_ref.block;
    let tail = cfg.split_block_at(head, inst_ref.index)?;
    proof {
        g.lemma_split_wf(head, inst_ref.index as int);
        lemma_split_heads(g, head, inst_ref.index as int);
    }
    let ghost g1 = cfg@;
    let start = cfg.new_block()?;
    proof {
        assert forall|x: usize| #[trigger] cfg@.has_block(x) == (g1.has_block(x) || x == start) by {
            if g1.has_block(x) {
                let i = choose|i: int| 0 <= i < g1.blocks.len() && (#[trigger] g1.blocks[i]).index == x;
                assert(cfg@.blocks[i].index == x);
            }
            if x == start {
                assert(cfg@.blocks[g1.blocks.len() as int].index == x);
            }
            if cfg@.has_block(x) {
                let i = choose|i: int| 0 <= i < cfg@.blocks.len() && (#[trigger] cfg@.blocks[i]).index == x;
                if i < g1.blocks.len() {
                    assert(g1.blocks[i].index == x);
                }
            }
        }
        cfg@.lemma_block_pos(g1.blocks.len() as int);
    }
    let ghost g2 = cfg@;
    let r0 = cfg.set_block_transient(start);
    assert(r0 is Ok);
    proof {
        g2.lemma_with_block(start, BlockView { transient: true, ..g2.block(start) });
    }
    if intermediate_resolve {
        let window = match Predictor::speculation_window(
            Expression::variable(Predictor::variable()),
            BitVector::word_constant(inst_ref.address),
        ) {
            Ok(w) => w,
            Err(_) => {
                proof {
                    assert(false);
                }
                return Err(Error::IndexOverflow);
            },
        };
        proof {
            reveal_strlit("_predictor");
            reveal_strlit("_spec_win");
        }
        let set_window = match Instruction::assign(spec_win(), window) {
            Ok(i) => i.into_pseudo(),
            Err(_) => {
                proof {
                    assert(false);
                }
                return Err(Error::IndexOverflow);
            },
        };
        let zero = BitVector::constant_u64(0, SPECULATION_WINDOW_SIZE);
        let positive = match BitVector::sgt(Expression::variable(spec_win()), zero) {
            Ok(c) => c,
            Err(_) => {
                proof {
                    assert(false);
                }
                return Err(Error::IndexOverflow);
            },
        };
        let bounded = match BitVector::sle(
            Expression::variable(spec_win()),
            BitVector::constant_u64(max_spec_window as u64, SPECULATION_WINDOW_SIZE),
        ) {
            Ok(c) => c,
            Err(_) => {
                proof {
                    assert(false);
                }
                return Err(Error::IndexOverflow);
            },
        };
        let assume_positive = match Instruction::assumption(positive) {
            Ok(i) => i.into_pseudo(),
            Err(_) => {
                proof {
                    assert(false);
                }
                return Err(Error::IndexOverflow);
            },
        };
        let assume_bounded = match Instruction::assumption(bounded) {
            Ok(i) => i.into_pseudo(),
            Err(_) => {
                proof {
                    assert(false);
                }
                return Err(Error::IndexOverflow);
            },
        };
        proof {
            let w = variable_view(spec_win_view());
            assert(set_window@ == pseudo(OperationView::Assign { variable: spec_win_view(), expr: window_view(inst_ref.address) }));
            assert(assume_positive@ == pseudo(OperationView::Assume {
                condition: bit_vector_view(BitVector::SGt, seq![w, window_constant_view(0)], Sort::Bool),
            }));
            assert(assume_bounded@ == pseudo(OperationView::Assume {
                condition: bit_vector_view(BitVector::SLe, seq![w, window_constant_view(max_spec_window as u64)], Sort::Bool),
            }));
        }
        let ghost before1 = cfg@;
        let a1 = cfg.add_instruction(start, set_window);
        assert(a1 is Ok);
        proof {
            before1.lemma_block(start);
            before1.lemma_with_block(start, cfg@.blocks[before1.block_pos(start)]);
        }
        let ghost before2 = cfg@;
        let a2 = cfg.add_instruction(start, assume_positive);
        assert(a2 is Ok);
        proof {
            before2.lemma_block(start);
            before2.lemma_with_block(start, cfg@.blocks[before2.block_pos(start)]);
        }
        let ghost before3 = cfg@;
        let a3 = cfg.add_instruction(start, assume_bounded);
        assert(a3 is Ok);
        proof {
            before3.lemma_block(start);
            before3.lemma_with_block(start, cfg@.blocks[before3.block_pos(start)]);
        }
    }
    proof {
        let pos = g1.blocks.len() as int;
        assert(g2.block_pos(start) == pos);
        assert(cfg@.blocks.len() == pos + 1);
        assert(cfg@.blocks[pos].instructions =~= start_instructions(inst_ref.address, max_spec_window as u64, intermediate_resolve));
        assert(cfg@.blocks =~= g1.blocks.push(
            BlockView {
                index: start,
                phi_nodes: Seq::empty(),
                instructions: start_instructions(inst_ref.address, max_spec_window as u64, intermediate_resolve),
                transient: true,
            },
        ));
    }
    let spec = speculate_at(inst_ref.address);
    let normal = negation(spec.clone());
    let r1 = cfg.conditional_edge(head, tail, normal, EdgeLabels::none());
    assert(r1 is Ok);
    let r2 = cfg.conditional_edge(head, start, spec, EdgeLabels::none().speculate());
    assert(r2 is Ok);
    points.insert(*inst_ref, (start, tail));
    Ok(())
}

/// The condition under which speculation follows the successor edge `e` of the branch at
/// `address`.
fn prediction(strategy: PredictorStrategy, e: &Edge, address: u64) -> (r: Expression)
    requires
        strategy is InvertCondition ==> (e.condition matches Some(c) && c.sort is Bool),
    ensures
        r@ == predicted(strategy, e@, address),
        r.sort is Bool,
{
    match strategy {
        PredictorStrategy::ChoosePath => {
            if e.labels.taken {
                taken_at(address)
            } else {
                negation(taken_at(address))
            }
        },
        PredictorStrategy::InvertCondition => match &e.condition {
            Some(c) => negation(c.clone()),
            None => {
                proof {
                    assert(false);
                }
                Boolean::constant(false)
            },
        },
    }
}

/// Adds to the speculation block `s`, the last block of `cfg`, the edges to the successors
/// `outs` of a branch at `address` (and, for a single successor, the assumption that leads to
/// it).
#[verifier::rlimit(30)]
fn add_speculation_edges(
    cfg: &mut ControlFlowGraph,
    s: usize,
    outs: &Vec<Edge>,
    strategy: PredictorStrategy,
    address: u64,
)
    requires
        old(cfg).wf(),
        old(cfg)@.blocks.len() > 0,
        old(cfg)@.blocks.last().index == s,
        old(cfg)@.blocks.last().instructions == Seq::<InstructionView>::empty(),
        forall|i: int| 0 <= i < old(cfg)@.edges.len() ==> (#[trigger] old(cfg)@.edges[i]).head != s,
        1 <= outs@.len() <= 2,
        forall|k: int|
            0 <= k < outs@.len() ==> old(cfg)@.has_block((#[trigger] outs@[k]).tail) && (outs@[k].condition matches Some(
                c,
            ) ==> c.sort is Bool),
        outs@.len() == 2 ==> outs@[0].tail != outs@[1].tail && outs@[0].labels.taken != outs@[1].labels.taken,
        strategy is InvertCondition ==> forall|k: int| 0 <= k < outs@.len() ==> (#[trigger] outs@[k]).condition is Some,
    ensures
        final(cfg).wf(),
        final(cfg)@ == (GraphView {
            blocks: old(cfg)@.blocks.update(
                old(cfg)@.blocks.len() - 1,
                BlockView {
                    instructions: speculation_instructions(strategy, edge_views(outs@), address),
                    ..old(cfg)@.blocks.last()
                },
            ),
            edges: old(cfg)@.edges + speculation_edges(strategy, edge_views(outs@), s, address),
            ..old(cfg)@
        }),
{
    let ghost g = cfg@;
    let ghost ov = edge_views(outs@);
    proof {
        g.lemma_block_pos(g.blocks.len() - 1);
        assert(ov[0] == outs@[0]@);
    }
    if outs.len() == 1 {
        let e = &outs[0];
        let cond = prediction(strategy, e, address);
        let assumption = match Instruction::assumption(cond.clone()) {
            Ok(i) => i.into_pseudo(),
            Err(_) => {
                proof {
                    assert(false);
                }
                return ;
            },
        };
        let a = cfg.add_instruction(s, assumption);
        assert(a is Ok);
        proof {
            g.lemma_block(s);
            g.lemma_with_block(s, cfg@.blocks[g.block_pos(s)]);
        }
        let labels = if e.labels.taken {
            EdgeLabels::none().taken()
        } else {
            EdgeLabels::none()
        };
        let r3 = cfg.conditional_edge(s, e.tail, cond, labels);
        assert(r3 is Ok);
        proof {
            assert(cfg@.blocks =~= g.blocks.update(
                g.blocks.len() - 1,
                BlockView { instructions: speculation_instructions(strategy, ov, address), ..g.blocks.last() },
            ));
            assert(cfg@.edges =~= g.edges + speculation_edges(strategy, ov, s, address));
        }
    } else {
        proof {
            assert(ov[1] == outs@[1]@);
        }
        let (te, ne) = if outs[0].labels.taken {
            (&outs[0], &outs[1])
        } else {
            (&outs[1], &outs[0])
        };
        let taken = prediction(strategy, te, address);
        let not_taken = prediction(strategy, ne, address);
        let r3 = cfg.conditional_edge(s, ne.tail, not_taken, EdgeLabels::none());
        assert(r3 is Ok);
        let r4 = cfg.conditional_edge(s, te.tail, taken, EdgeLabels::none().taken());
        assert(r4 is Ok);
        proof {
            assert(g.blocks.update(
                g.blocks.len() - 1,
                BlockView { instructions: speculation_instructions(strategy, ov, address), ..g.blocks.last() },
            ) =~= g.blocks);
            assert(cfg@.edges =~= g.edges + speculation_edges(strategy, ov, s, address));
        }
    }
}

/// Encodes that the conditional branch at `inst_ref` can be mispredicted: the block is split
/// before the branch into [head] and [branch] and a [speculate] block is added; head goes to
/// speculate when the predictor speculates and to branch otherwise; speculate goes to the
/// successors of the branch under the conditions that `strategy` predicts. Transient
/// execution begins in speculate, which is recorded in `entry_points`. The branch must have one
/// or two successors.
pub fn transient_conditional_branch(
    cfg: &mut ControlFlowGraph,
    entry_points: &mut InstructionRefMap<usize>,
    inst_ref: &InstructionRef,
    strategy: PredictorStrategy,
) -> (r: Result<(), Error>)
    requires
        old(cfg).wf(),
        old(entry_points).wf(),
        branch_defined(old(cfg)@, *inst_ref, strategy),
    ensures
        final(cfg).wf(),
        final(entry_points).wf(),
        r is Ok <==> start_applies(old(cfg)@, *inst_ref) && 1 <= branch_successors(old(cfg)@, *inst_ref).len() <= 2,
        r is Ok ==> final(cfg)@ == branch_encoding(old(cfg)@, *inst_ref, strategy) && final(entry_points)@ == old(
            entry_points,
        )@.insert(*inst_ref, (old(cfg).next_index + 1) as usize),
        (match branch_step(old(cfg)@, old(entry_points)@, *inst_ref, strategy) {
            Ok((g2, p2)) => r is Ok && final(cfg)@ == g2 && final(entry_points)@ == p2,
            Err(e) => r == Err::<(), Error>(e),
        }),
        r is Err ==> final(entry_points)@ == old(entry_points)@,
        !old(cfg)@.has_block(inst_ref.block) ==> r == Err::<(), Error>(Error::BlockNotFound(inst_ref.block))
            && final(cfg)@ == old(cfg)@,
        old(cfg)@.has_block(inst_ref.block) && inst_ref.index > old(cfg)@.block(inst_ref.block).instructions.len()
            ==> r == Err::<(), Error>(Error::InstructionIndexOutOfBounds { block: inst_ref.block, index: inst_ref.index })
            && final(cfg)@ == old(cfg)@,
        old(cfg)@.has_block(inst_ref.block) && inst_ref.index <= old(cfg)@.block(inst_ref.block).instructions.len()
            && old(cfg).next_index == usize::MAX ==> r == Err::<(), Error>(Error::IndexOverflow) && final(cfg)@ == old(
            cfg,
        )@,
        old(cfg)@.has_block(inst_ref.block) && inst_ref.index <= old(cfg)@.block(inst_ref.block).instructions.len()
            && old(cfg).next_index + 1 == usize::MAX ==> r == Err::<(), Error>(Error::IndexOverflow) && final(cfg)@
            == old(cfg)@.split(inst_ref.block, inst_ref.index as int),
        start_applies(old(cfg)@, *inst_ref) && !(1 <= branch_successors(old(cfg)@, *inst_ref).len() <= 2) ==> r
            == Err::<(), Error>(
            Error::UnexpectedSuccessorCount {
                block: old(cfg).next_index,
                count: branch_successors(old(cfg)@, *inst_ref).len() as usize,
            },
        ) && final(cfg)@ == branch_prefix(old(cfg)@, *inst_ref),
{
    let ghost g = old(cfg)@;
    let head = inst_ref.block;
    let branch = cfg.split_block_at(head, inst_ref.index)?;
    proof {
        g.lemma_split_wf(head, inst_ref.index as int);
        lemma_split_heads(g, head, inst_ref.index as int);
    }
    let ghost g1 = cfg@;
    let speculate = cfg.new_block()?;
    proof {
        assert forall|x: usize| #[trigger] cfg@.has_block(x) == (g1.has_block(x) || x == speculate) by {
            if g1.has_block(x) {
                let i = choose|i: int| 0 <= i < g1.blocks.len() && (#[trigger] g1.blocks[i]).index == x;
                assert(cfg@.blocks[i].index == x);
            }
            if x == speculate {
                assert(cfg@.blocks[g1.blocks.len() as int].index == x);
            }
            if cfg@.has_block(x) {
                let i = choose|i: int| 0 <= i < cfg@.blocks.len() && (#[trigger] cfg@.blocks[i]).index == x;
                if i < g1.blocks.len() {
                    assert(g1.blocks[i].index == x);
                }
            }
        }
        cfg@.lemma_block_pos(g1.blocks.len() as int);
    }
    let spec = speculate_at(inst_ref.address);
    let execute = negation(spec.clone());
    let r1 = cfg.conditional_edge(head, speculate, spec, EdgeLabels::none().speculate());
    assert(r1 is Ok);
    proof {
        assert(!cfg@.has_edge(head, branch)) by {
            if cfg@.has_edge(head, branch) {
                let i = choose|i: int| 0 <= i < cfg@.edges.len() && (#[trigger] cfg@.edges[i]).head == head && cfg@.edges[i].tail == branch;
                if i < g1.edges.len() {
                    assert(g1.edges[i].head == head);
                }
            }
        }
    }
    let r2 = cfg.conditional_edge(head, branch, execute, EdgeLabels::none());
    assert(r2 is Ok);
    let ghost g3 = cfg@;
    proof {
        reveal(Seq::filter);
        let e1 = g3.edges[g1.edges.len() as int];
        let e2 = g3.edges[g1.edges.len() as int + 1];
        assert(g3.edges.drop_last().drop_last() =~= g1.edges);
        assert(g3.edges.drop_last().last() == e1);
        assert(head != branch);
        assert(!leaves(branch)(e1));
        assert(!leaves(branch)(e2));
        assert(g3.edges.last() == e2);
        assert(g3.edges.filter(leaves(branch)) == g3.edges.drop_last().filter(leaves(branch)));
        assert(g3.edges.drop_last().filter(leaves(branch)) == g1.edges.filter(leaves(branch)));
        assert(g3.out_edges(branch) == g1.out_edges(branch));
        lemma_leaving_edges(g1.edges, branch);
    }
    let outs = match cfg.edges_out(branch) {
        Ok(o) => o,
        Err(_) => {
            proof {
                assert(false);
            }
            return Err(Error::BlockNotFound(branch));
        },
    };
    let ghost ov = edge_views(outs@);
    proof {
        assert forall|k: int| 0 <= k < outs@.len() implies (#[trigger] outs@[k])@ == ov[k] by {}
        assert forall|k: int| 0 <= k < ov.len() implies g1.has_block(#[trigger] ov[k].tail) && (ov[k].condition matches Some(
            c,
        ) ==> c.sort is Bool) by {
            let m = choose|m: int| 0 <= m < g1.edges.len() && g1.edges[m] == ov[k];
            assert(g1.edges[m] == ov[k]);
        }
    }
    if outs.len() == 0 || outs.len() > 2 {
        return Err(Error::UnexpectedSuccessorCount { block: branch, count: outs.len() });
    }
    proof {
        g3.lemma_block_pos(g3.blocks.len() - 1);
        assert forall|i: int| 0 <= i < g3.edges.len() implies (#[trigger] g3.edges[i]).head != speculate by {
            if i < g1.edges.len() {
                assert(g1.edges[i].head != speculate);
            }
        }
    }
    add_speculation_edges(cfg, speculate, &outs, strategy, inst_ref.address);
    proof {
        assert(cfg@ == branch_encoding(g, *inst_ref, strategy));
    }
    entry_points.insert(*inst_ref, speculate);
    Ok(())
}

} // verus!
