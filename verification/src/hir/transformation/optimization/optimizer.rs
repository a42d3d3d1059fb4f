//! The optimizer of control-flow graphs: passes before, repeatedly and after.
use crate::error::Error;
use crate::hir::transformation::optimization::{
    first_ill_sorted, flat_sites, graph_constants, graph_copies, graph_rewrite, has_unnecessary_phi,
    is_topological_order, lemma_needed_marks_unique, needed_marks, phis_eliminated, propagated_constants,
    propagated_copies, redundancy_eliminated, swept, ConstantFolding, ConstantPropagation, CopyPropagation,
    DeadCodeElimination, ExpressionSimplification, Optimization, PhiElimination, RedundantInstructionElimination,
    Rewrite,
};
use crate::hir::transformation::{Environment, OptimizationLevel};
use crate::hir::{ControlFlowGraph, GraphView};
use crate::lir::optimization::{resolved, OptimizationResult};
use vstd::prelude::*;

verus! {

/// An optimization pass of control-flow graphs.
#[derive(Debug, Clone, Copy, PartialEq, Eq, Structural)]
pub enum GraphPass {
    ConstantFolding,
    ConstantPropagation,
    CopyPropagation,
    ExpressionSimplification,
    PhiElimination,
    DeadCodeElimination,
    RedundantInstructionElimination,
}

/// The only marks of the needed sites of the graph (see `needed_marks`).
pub open spec fn graph_dce_marks(g: GraphView) -> Seq<bool> {
    choose|marks: Seq<bool>| needed_marks(g.edges, flat_sites(g.blocks), marks)
}

/// Whether all marks are set.
pub open spec fn all_marked(marks: Seq<bool>) -> bool {
    forall|i: int| 0 <= i < marks.len() ==> marks[i]
}

/// Whether the condition of every edge is boolean.
pub open spec fn conditions_boolean(g: GraphView) -> bool {
    forall|i: int| 0 <= i < g.edges.len() ==> ((#[trigger] g.edges[i]).condition matches Some(c) ==> c.sort is Bool)
}

/// Two graphs with the same blocks (by index, in order), the same edges (by head and tail,
/// in order), entry, exit and next index.
pub open spec fn same_shape(g1: GraphView, g2: GraphView) -> bool {
    &&& g1.blocks.len() == g2.blocks.len()
    &&& forall|p: int| 0 <= p < g1.blocks.len() ==> (#[trigger] g1.blocks[p]).index == g2.blocks[p].index
    &&& g1.edges.len() == g2.edges.len()
    &&& forall|e: int|
        0 <= e < g1.edges.len() ==> (#[trigger] g1.edges[e]).head == g2.edges[e].head && g1.edges[e].tail
            == g2.edges[e].tail
    &&& g1.entry == g2.entry
    &&& g1.exit == g2.exit
    &&& g1.next_index == g2.next_index
}

/// The graph after `pass` (run with the block order `order`), and whether the pass changed it
/// or the error it failed with. Redundant-instruction elimination runs on graphs whose edge
/// conditions are boolean.
pub open spec fn graph_pass_outcome(pass: GraphPass, g: GraphView, order: Seq<usize>) -> (GraphView, Result<bool, Error>) {
    match pass {
        GraphPass::ConstantFolding => if graph_rewrite(g, Rewrite::Fold) == g {
            (g, Ok(false))
        } else {
            (graph_rewrite(g, Rewrite::Fold), Ok(true))
        },
        GraphPass::ExpressionSimplification => if graph_rewrite(g, Rewrite::Simplify) == g {
            (g, Ok(false))
        } else {
            (graph_rewrite(g, Rewrite::Simplify), Ok(true))
        },
        GraphPass::ConstantPropagation => if graph_constants(g.blocks).len() == 0 {
            (g, Ok(false))
        } else {
            (propagated_constants(g, graph_constants(g.blocks)), Ok(true))
        },
        GraphPass::CopyPropagation => if graph_copies(g.blocks).len() == 0 {
            (g, Ok(false))
        } else {
            (propagated_copies(g, resolved(graph_copies(g.blocks))), Ok(true))
        },
        GraphPass::PhiElimination => match first_ill_sorted(g.blocks) {
            Some(p) => (g, Err(Error::ExpectedSort { expected: p.out.sort, actual: p.incoming[0].0.sort })),
            None => (phis_eliminated(g), Ok(has_unnecessary_phi(g))),
        },
        GraphPass::DeadCodeElimination => if all_marked(graph_dce_marks(g)) {
            (g, Ok(false))
        } else {
            (swept(g, graph_dce_marks(g)), Ok(true))
        },
        GraphPass::RedundantInstructionElimination => if conditions_boolean(g) {
            match redundancy_eliminated(g, order) {
                Ok((h, changed)) => (h, Ok(changed)),
                Err(e) => (g, Err(e)),
            }
        } else {
            (g, Ok(false))
        },
    }
}

/// The graph after the passes, in order, and whether one of them changed it; the passes
/// stop at the first that fails.
pub open spec fn graph_passes_outcome(passes: Seq<GraphPass>, g: GraphView, order: Seq<usize>) -> (
    GraphView,
    Result<bool, Error>,
)
    decreases passes.len(),
{
    if passes.len() == 0 {
        (g, Ok(false))
    } else {
        let (q, c) = graph_passes_outcome(passes.drop_last(), g, order);
        match c {
            Err(e) => (q, Err(e)),
            Ok(c1) => {
                let (r, d) = graph_pass_outcome(passes.last(), q, order);
                match d {
                    Err(e) => (r, Err(e)),
                    Ok(d1) => (r, Ok(c1 || d1)),
                }
            },
        }
    }
}

/// The graph after at most `rounds` rounds of the passes; the rounds stop after one that
/// changed nothing, and at a failure.
pub open spec fn graph_rounds_outcome(passes: Seq<GraphPass>, g: GraphView, order: Seq<usize>, rounds: nat) -> (
    GraphView,
    Result<(), Error>,
)
    decreases rounds,
{
    if rounds == 0 {
        (g, Ok(()))
    } else {
        let (q, c) = graph_passes_outcome(passes, g, order);
        match c {
            Err(e) => (q, Err(e)),
            Ok(true) => graph_rounds_outcome(passes, q, order, (rounds - 1) as nat),
            Ok(false) => (q, Ok(())),
        }
    }
}

/// The graph after the passes of `o`: the passes before, the rounds, the passes after.
pub open spec fn graph_optimizer_outcome(
    o: (Seq<GraphPass>, Seq<GraphPass>, Seq<GraphPass>, usize),
    g: GraphView,
    order: Seq<usize>,
) -> (GraphView, Result<(), Error>) {
    let (g1, c1) = graph_passes_outcome(o.0, g, order);
    match c1 {
        Err(e) => (g1, Err(e)),
        Ok(_) => {
            let (g2, c2) = graph_rounds_outcome(o.1, g1, order, o.3 as nat);
            match c2 {
                Err(e) => (g2, Err(e)),
                Ok(_) => {
                    let (g3, c3) = graph_passes_outcome(o.2, g2, order);
                    match c3 {
                        Err(e) => (g3, Err(e)),
                        Ok(_) => (g3, Ok(())),
                    }
                },
            }
        },
    }
}

/// The repeated passes of the basic and the full level.
pub open spec fn graph_rounds() -> Seq<GraphPass> {
    seq![
        GraphPass::ConstantFolding,
        GraphPass::ConstantPropagation,
        GraphPass::CopyPropagation,
        GraphPass::ExpressionSimplification,
        GraphPass::PhiElimination,
        GraphPass::DeadCodeElimination,
    ]
}

/// The passes of an optimization level: none; up to three rounds of constant folding,
/// constant propagation, copy propagation, expression simplification, phi node elimination
/// and dead-code elimination; or up to five such rounds followed by redundant-instruction
/// elimination.
pub open spec fn graph_level_passes(level: OptimizationLevel) -> (Seq<GraphPass>, Seq<GraphPass>, Seq<GraphPass>, usize) {
    match level {
        OptimizationLevel::Disabled => (Seq::empty(), Seq::empty(), Seq::empty(), 0usize),
        OptimizationLevel::Basic => (Seq::empty(), graph_rounds(), Seq::empty(), 3usize),
        OptimizationLevel::Full => (
            Seq::empty(),
            graph_rounds(),
            seq![GraphPass::RedundantInstructionElimination],
            5usize,
        ),
    }
}

/// Whether no pass is redundant-instruction elimination.
pub open spec fn shape_keeping(passes: Seq<GraphPass>) -> bool {
    forall|i: int| 0 <= i < passes.len() ==> !(#[trigger] passes[i] is RedundantInstructionElimination)
}

/// Each pass but redundant-instruction elimination keeps the shape of the graph.
proof fn lemma_pass_keeps_shape(pass: GraphPass, g: GraphView, order: Seq<usize>)
    requires
        !(pass is RedundantInstructionElimination),
    ensures
        same_shape(g, graph_pass_outcome(pass, g, order).0),
{
    let h = graph_pass_outcome(pass, g, order).0;
    assert(h.blocks.len() == g.blocks.len());
    assert forall|p: int| 0 <= p < g.blocks.len() implies (#[trigger] g.blocks[p]).index == h.blocks[p].index by {}
    assert forall|e: int| 0 <= e < g.edges.len() implies (#[trigger] g.edges[e]).head == h.edges[e].head
        && g.edges[e].tail == h.edges[e].tail by {}
}

/// The shape is kept by passes that keep it.
proof fn lemma_passes_keep_shape(passes: Seq<GraphPass>, g: GraphView, order: Seq<usize>)
    requires
        shape_keeping(passes),
    ensures
        same_shape(g, graph_passes_outcome(passes, g, order).0),
    decreases passes.len(),
{
    if passes.len() > 0 {
        assert(shape_keeping(passes.drop_last()));
        lemma_passes_keep_shape(passes.drop_last(), g, order);
        let q = graph_passes_outcome(passes.drop_last(), g, order).0;
        assert(!(passes[passes.len() - 1] is RedundantInstructionElimination));
        lemma_pass_keeps_shape(passes.last(), q, order);
    }
}

/// The same shape is an equivalence.
proof fn lemma_same_shape_trans(g1: GraphView, g2: GraphView, g3: GraphView)
    requires
        same_shape(g1, g2),
        same_shape(g2, g3),
    ensures
        same_shape(g1, g3),
{
    assert forall|p: int| 0 <= p < g1.blocks.len() implies (#[trigger] g1.blocks[p]).index == g3.blocks[p].index by {
        assert(g2.blocks[p].index == g3.blocks[p].index);
    }
    assert forall|e: int| 0 <= e < g1.edges.len() implies (#[trigger] g1.edges[e]).head == g3.edges[e].head
        && g1.edges[e].tail == g3.edges[e].tail by {
        assert(g2.edges[e].head == g3.edges[e].head);
    }
}

/// Graphs of the same shape have the same blocks.
proof fn lemma_same_blocks(g1: GraphView, g2: GraphView, b: usize)
    requires
        same_shape(g1, g2),
    ensures
        g1.has_block(b) == g2.has_block(b),
{
    if g1.has_block(b) {
        let i = choose|i: int| 0 <= i < g1.blocks.len() && (#[trigger] g1.blocks[i]).index == b;
        assert(g2.blocks[i].index == b);
    }
    if g2.has_block(b) {
        let i = choose|i: int| 0 <= i < g2.blocks.len() && (#[trigger] g2.blocks[i]).index == b;
        assert(g1.blocks[i].index == b);
    }
}

/// A well-formed graph and a block order for it stay so for a graph of the same shape whose
/// edge conditions are boolean.
proof fn lemma_shape_keeps_validity(g1: GraphView, g2: GraphView, order: Seq<usize>)
    requires
        same_shape(g1, g2),
        g1.wf(),
        is_topological_order(g1, order),
        conditions_boolean(g2),
    ensures
        g2.wf(),
        is_topological_order(g2, order),
{
    assert forall|i: int, j: int|
        0 <= i < g2.blocks.len() && 0 <= j < g2.blocks.len() && i != j implies (#[trigger] g2.blocks[i]).index
        != (#[trigger] g2.blocks[j]).index by {
        assert(g1.blocks[i].index == g2.blocks[i].index);
        assert(g1.blocks[j].index == g2.blocks[j].index);
    }
    assert forall|i: int| 0 <= i < g2.blocks.len() implies (#[trigger] g2.blocks[i]).index < g2.next_index by {
        assert(g1.blocks[i].index == g2.blocks[i].index);
    }
    assert forall|i: int, j: int|
        0 <= i < g2.edges.len() && 0 <= j < g2.edges.len() && i != j implies !((#[trigger] g2.edges[i]).head
        == (#[trigger] g2.edges[j]).head && g2.edges[i].tail == g2.edges[j].tail) by {
        assert(g1.edges[i].head == g2.edges[i].head);
        assert(g1.edges[j].head == g2.edges[j].head);
    }
    assert forall|i: int| 0 <= i < g2.edges.len() implies g2.has_block((#[trigger] g2.edges[i]).head)
        && g2.has_block(g2.edges[i].tail) by {
        assert(g1.edges[i].head == g2.edges[i].head);
        lemma_same_blocks(g1, g2, g2.edges[i].head);
        lemma_same_blocks(g1, g2, g2.edges[i].tail);
    }
    assert(g2.entry matches Some(e) ==> g2.has_block(e)) by {
        if let Some(e) = g2.entry {
            lemma_same_blocks(g1, g2, e);
        }
    }
    assert(g2.exit matches Some(e) ==> g2.has_block(e)) by {
        if let Some(e) = g2.exit {
            lemma_same_blocks(g1, g2, e);
        }
    }
    assert forall|i: int| 0 <= i < order.len() implies g2.has_block(#[trigger] order[i]) by {
        lemma_same_blocks(g1, g2, order[i]);
    }
    assert forall|e: int, i: int, j: int|
        #![trigger g2.edges[e], order[i], order[j]]
        0 <= e < g2.edges.len() && 0 <= i < order.len() && 0 <= j < order.len() && order[i] == g2.edges[e].head
            && order[j] == g2.edges[e].tail implies i < j by {
        assert(g1.edges[e].head == g2.edges[e].head);
    }
}

/// Once the passes failed, more passes fail in the same way.
proof fn lemma_failure_persists(passes: Seq<GraphPass>, g: GraphView, order: Seq<usize>, k: int)
    requires
        0 <= k <= passes.len(),
        graph_passes_outcome(passes.take(k), g, order).1 is Err,
    ensures
        graph_passes_outcome(passes, g, order).1 == graph_passes_outcome(passes.take(k), g, order).1,
    decreases passes.len() - k,
{
    if k < passes.len() {
        assert(passes.take(k + 1).drop_last() =~= passes.take(k));
        lemma_failure_persists(passes, g, order, k + 1);
    } else {
        assert(passes.take(k) =~= passes);
    }
}

/// Whether the condition of every edge is boolean.
fn edge_conditions_boolean(cfg: &ControlFlowGraph) -> (r: bool)
    ensures
        r == conditions_boolean(cfg@),
{
    let mut i: usize = 0;
    while i < cfg.edges.len()
        invariant
            0 <= i <= cfg.edges@.len(),
            forall|j: int| 0 <= j < i ==> ((#[trigger] cfg@.edges[j]).condition matches Some(c) ==> c.sort is Bool),
        decreases cfg.edges@.len() - i,
    {
        proof {
            assert(cfg@.edges[i as int] == cfg.edges@[i as int]@);
        }
        if let Some(c) = &cfg.edges[i].condition {
            if !c.sort.is_bool() {
                return false;
            }
        }
        i += 1;
    }
    true
}

/// Runs one pass (see `graph_pass_outcome`).
fn run_graph_pass(pass: GraphPass, cfg: &mut ControlFlowGraph, order: &[usize], Ghost(start): Ghost<GraphView>) -> (r:
    Result<bool, Error>)
    requires
        pass is RedundantInstructionElimination ==> start.wf() && is_topological_order(start, order@) && same_shape(
            start,
            old(cfg)@,
        ),
    ensures
        r is Ok ==> (final(cfg)@, r) == graph_pass_outcome(pass, old(cfg)@, order@),
        r is Err ==> r == graph_pass_outcome(pass, old(cfg)@, order@).1,
{
    let res = match pass {
        GraphPass::ConstantFolding => ConstantFolding::new().optimize(cfg),
        GraphPass::ConstantPropagation => ConstantPropagation::new().optimize(cfg),
        GraphPass::CopyPropagation => CopyPropagation::new().optimize(cfg),
        GraphPass::ExpressionSimplification => ExpressionSimplification::new().optimize(cfg),
        GraphPass::PhiElimination => PhiElimination::new().optimize(cfg),
        GraphPass::DeadCodeElimination => {
            let res = DeadCodeElimination::new().optimize(cfg);
            proof {
                let marks = choose|marks: Seq<bool>|
                    #[trigger] needed_marks(old(cfg)@.edges, flat_sites(old(cfg)@.blocks), marks) && {
                        &&& (forall|i: int| 0 <= i < marks.len() ==> marks[i]) ==> res == Ok::<
                            OptimizationResult,
                            Error,
                        >(OptimizationResult::Unchanged) && cfg@ == old(cfg)@
                        &&& !(forall|i: int| 0 <= i < marks.len() ==> marks[i]) ==> res == Ok::<
                            OptimizationResult,
                            Error,
                        >(OptimizationResult::Changed) && cfg@ == swept(old(cfg)@, marks)
                    };
                lemma_needed_marks_unique(
                    old(cfg)@.edges,
                    flat_sites(old(cfg)@.blocks),
                    marks,
                    graph_dce_marks(old(cfg)@),
                );
            }
            res
        },
        GraphPass::RedundantInstructionElimination => {
            if !edge_conditions_boolean(cfg) {
                return Ok(false);
            }
            proof {
                lemma_shape_keeps_validity(start, cfg@, order@);
            }
            RedundantInstructionElimination::new().optimize(cfg, order)
        },
    };
    match res {
        Ok(OptimizationResult::Changed) => Ok(true),
        Ok(OptimizationResult::Unchanged) => Ok(false),
        Err(e) => Err(e),
    }
}

/// Runs the passes in order (see `graph_passes_outcome`), none of them redundant-instruction
/// elimination.
fn run_graph_passes(passes: &Vec<GraphPass>, cfg: &mut ControlFlowGraph, order: &[usize]) -> (r: Result<bool, Error>)
    requires
        shape_keeping(passes@),
    ensures
        r is Ok ==> (final(cfg)@, r) == graph_passes_outcome(passes@, old(cfg)@, order@),
        r is Err ==> r == graph_passes_outcome(passes@, old(cfg)@, order@).1,
{
    let mut changed = false;
    let mut i: usize = 0;
    proof {
        assert(passes@.take(0) =~= Seq::<GraphPass>::empty());
    }
    while i < passes.len()
        invariant
            0 <= i <= passes@.len(),
            shape_keeping(passes@),
            (cfg@, Ok::<bool, Error>(changed)) == graph_passes_outcome(passes@.take(i as int), old(cfg)@, order@),
        decreases passes@.len() - i,
    {
        proof {
            assert(passes@.take(i + 1).drop_last() =~= passes@.take(i as int));
            assert(passes@.take(i + 1).last() == passes@[i as int]);
        }
        let c = run_graph_pass(passes[i], cfg, order, Ghost(cfg@));
        match c {
            Ok(c) => {
                changed = changed || c;
            },
            Err(e) => {
                proof {
                    lemma_failure_persists(passes@, old(cfg)@, order@, i + 1);
                }
                return Err(e);
            },
        }
        i += 1;
    }
    proof {
        assert(passes@.take(passes@.len() as int) =~= passes@);
    }
    Ok(changed)
}

/// Runs passes before, repeatedly and after: the repeated passes run in rounds, at most
/// `repetitions` of them, and stop after a round that changed nothing. Redundant-instruction
/// elimination, if any, is the only pass after.
#[derive(Debug)]
pub struct Optimizer {
    pre_optimizations: Vec<GraphPass>,
    repeated_optimizations: Vec<GraphPass>,
    post_optimizations: Vec<GraphPass>,
    repetitions: usize,
}

impl Optimizer {
    /// Redundant-instruction elimination runs only after all other passes, once.
    #[verifier::type_invariant]
    spec fn passes_in_place(self) -> bool {
        &&& shape_keeping(self.pre_optimizations@)
        &&& shape_keeping(self.repeated_optimizations@)
        &&& self.post_optimizations@.len() <= 1
        &&& forall|i: int|
            0 <= i < self.post_optimizations@.len() ==> #[trigger] self.post_optimizations@[i]
                is RedundantInstructionElimination
    }

    /// The passes and the number of rounds.
    pub closed spec fn view(&self) -> (Seq<GraphPass>, Seq<GraphPass>, Seq<GraphPass>, usize) {
        (self.pre_optimizations@, self.repeated_optimizations@, self.post_optimizations@, self.repetitions)
    }

    /// The optimizer of the level the environment asks for.
    pub fn new_from_env(env: &Environment) -> (r: Self)
        ensures
            r@ == graph_level_passes(env.optimization_level),
    {
        match env.optimization_level {
            OptimizationLevel::Disabled => Self::none(),
            OptimizationLevel::Basic => Self::basic(),
            OptimizationLevel::Full => Self::full(),
        }
    }

    /// No optimization.
    pub fn none() -> (r: Self)
        ensures
            r@ == graph_level_passes(OptimizationLevel::Disabled),
    {
        let r = Optimizer {
            pre_optimizations: Vec::new(),
            repeated_optimizations: Vec::new(),
            post_optimizations: Vec::new(),
            repetitions: 0,
        };
        assert(r@ =~= graph_level_passes(OptimizationLevel::Disabled));
        r
    }

    fn rounds() -> (r: Vec<GraphPass>)
        ensures
            r@ == graph_rounds(),
    {
        let mut r: Vec<GraphPass> = Vec::new();
        r.push(GraphPass::ConstantFolding);
        r.push(GraphPass::ConstantPropagation);
        r.push(GraphPass::CopyPropagation);
        r.push(GraphPass::ExpressionSimplification);
        r.push(GraphPass::PhiElimination);
        r.push(GraphPass::DeadCodeElimination);
        assert(r@ =~= graph_rounds());
        r
    }

    /// Up to three rounds of constant folding, constant propagation, copy propagation,
    /// expression simplification, phi node elimination and dead-code elimination.
    pub fn basic() -> (r: Self)
        ensures
            r@ == graph_level_passes(OptimizationLevel::Basic),
    {
        let r = Optimizer {
            pre_optimizations: Vec::new(),
            repeated_optimizations: Self::rounds(),
            post_optimizations: Vec::new(),
            repetitions: 3,
        };
        assert(r@ =~= graph_level_passes(OptimizationLevel::Basic));
        r
    }

    /// Up to five rounds of the basic passes, then redundant-instruction elimination.
    pub fn full() -> (r: Self)
        ensures
            r@ == graph_level_passes(OptimizationLevel::Full),
    {
        let mut post: Vec<GraphPass> = Vec::new();
        post.push(GraphPass::RedundantInstructionElimination);
        let r = Optimizer {
            pre_optimizations: Vec::new(),
            repeated_optimizations: Self::rounds(),
            post_optimizations: post,
            repetitions: 5,
        };
        assert(r@.2 =~= seq![GraphPass::RedundantInstructionElimination]);
        assert(r@ =~= graph_level_passes(OptimizationLevel::Full));
        r
    }

    /// Runs the passes (see `graph_optimizer_outcome`); `order` is the order in which
    /// redundant-instruction elimination visits the blocks. After a failure the graph is the
    /// one the failing pass left.
    pub fn optimize(&self, cfg: &mut ControlFlowGraph, order: &[usize]) -> (r: Result<(), Error>)
        requires
            old(cfg).wf(),
            is_topological_order(old(cfg)@, order@),
        ensures
            r is Ok ==> (final(cfg)@, r) == graph_optimizer_outcome(self@, old(cfg)@, order@),
            r is Err ==> r == graph_optimizer_outcome(self@, old(cfg)@, order@).1,
    {
        proof {
            use_type_invariant(self);
        }
        let ghost g0 = cfg@;
        match run_graph_passes(&self.pre_optimizations, cfg, order) {
            Ok(_) => {},
            Err(e) => return Err(e),
        }
        proof {
            lemma_passes_keep_shape(self.pre_optimizations@, g0, order@);
        }
        let ghost start = cfg@;
        let mut k: usize = 0;
        while k < self.repetitions
            invariant_except_break
                0 <= k <= self.repetitions,
                g0 == old(cfg)@,
                graph_passes_outcome(self.pre_optimizations@, g0, order@).0 == start,
                graph_passes_outcome(self.pre_optimizations@, g0, order@).1 is Ok,
                shape_keeping(self.repeated_optimizations@),
                same_shape(g0, cfg@),
                graph_rounds_outcome(self.repeated_optimizations@, start, order@, self.repetitions as nat)
                    == graph_rounds_outcome(self.repeated_optimizations@, cfg@, order@, (self.repetitions - k) as nat),
            ensures
                g0 == old(cfg)@,
                graph_passes_outcome(self.pre_optimizations@, g0, order@).0 == start,
                graph_passes_outcome(self.pre_optimizations@, g0, order@).1 is Ok,
                same_shape(g0, cfg@),
                (cfg@, Ok::<(), Error>(())) == graph_rounds_outcome(
                    self.repeated_optimizations@,
                    start,
                    order@,
                    self.repetitions as nat,
                ),
            decreases self.repetitions - k,
        {
            let ghost before = cfg@;
            proof {
                lemma_passes_keep_shape(self.repeated_optimizations@, before, order@);
            }
            match run_graph_passes(&self.repeated_optimizations, cfg, order) {
                Ok(changed) => {
                    proof {
                        lemma_same_shape_trans(g0, before, cfg@);
                    }
                    if !changed {
                        break;
                    }
                },
                Err(e) => {
                    proof {
                        assert(graph_rounds_outcome(
                            self.repeated_optimizations@,
                            before,
                            order@,
                            (self.repetitions - k) as nat,
                        ).1 == Err::<(), Error>(e));
                    }
                    return Err(e);
                },
            }
            k += 1;
        }
        let ghost rounded = cfg@;
        proof {
            assert(graph_passes_outcome(Seq::<GraphPass>::empty(), rounded, order@) == (rounded, Ok::<bool, Error>(false)));
        }
        if self.post_optimizations.len() == 1 {
            proof {
                assert(self.post_optimizations@.drop_last() =~= Seq::<GraphPass>::empty());
                assert(self.post_optimizations@.last() == self.post_optimizations@[0]);
            }
            match run_graph_pass(self.post_optimizations[0], cfg, order, Ghost(g0)) {
                Ok(_) => {},
                Err(e) => {
                    return Err(e);
                },
            }
        } else {
            proof {
                assert(self.post_optimizations@ =~= Seq::<GraphPass>::empty());
            }
        }
        Ok(())
    }
}

} // verus!
