use crate::error::Error;
use crate::hir::transformation::{Environment, OptimizationLevel};
use crate::lir::optimization::{
    assertion_keep, constants_of, copies_of, critical, depends_on, folded_nodes, kept, live_marks, redundant_keep,
    resolved, simplified_nodes, AssertionElimination, ConstantFolding, ConstantPropagation, CopyPropagation,
    DeadCodeElimination, ExpressionSimplification, Optimization, OptimizationResult, RedundantNodeElimination,
};
use crate::lir::{node_rename, node_substitute, NodeView, Program};
use vstd::prelude::*;

verus! {

/// An optimization pass of LIR programs.
#[derive(Debug, Clone, Copy, PartialEq, Eq, Structural)]
pub enum Pass {
    ConstantFolding,
    ConstantPropagation,
    ExpressionSimplification,
    CopyPropagation,
    DeadCodeElimination,
    AssertionElimination,
    RedundantNodeElimination,
}

/// The only marks of the live nodes (see `live_marks`).
pub open spec fn dce_marks(nodes: Seq<NodeView>) -> Seq<bool> {
    choose|marks: Seq<bool>| live_marks(nodes, marks)
}

/// Whether all marks are set.
pub open spec fn all_set(marks: Seq<bool>) -> bool {
    forall|i: int| 0 <= i < marks.len() ==> marks[i]
}

/// The nodes after `pass` and whether it changed them.
pub open spec fn pass_outcome(pass: Pass, nodes: Seq<NodeView>) -> (Seq<NodeView>, bool) {
    match pass {
        Pass::ConstantFolding => if folded_nodes(nodes) == nodes {
            (nodes, false)
        } else {
            (folded_nodes(nodes), true)
        },
        Pass::ExpressionSimplification => if simplified_nodes(nodes) == nodes {
            (nodes, false)
        } else {
            (simplified_nodes(nodes), true)
        },
        Pass::ConstantPropagation => if constants_of(nodes).len() == 0 {
            (nodes, false)
        } else {
            (nodes.map_values(|n: NodeView| node_substitute(n, constants_of(nodes))), true)
        },
        Pass::CopyPropagation => if copies_of(nodes).len() == 0 {
            (nodes, false)
        } else {
            (nodes.map_values(|n: NodeView| node_rename(n, resolved(copies_of(nodes)))), true)
        },
        Pass::DeadCodeElimination => if all_set(dce_marks(nodes)) {
            (nodes, false)
        } else {
            (kept(nodes, dce_marks(nodes)), true)
        },
        Pass::AssertionElimination => if all_set(assertion_keep(nodes)) {
            (nodes, false)
        } else {
            (kept(nodes, assertion_keep(nodes)), true)
        },
        Pass::RedundantNodeElimination => if all_set(redundant_keep(nodes)) {
            (nodes, false)
        } else {
            (kept(nodes, redundant_keep(nodes)), true)
        },
    }
}

/// The nodes after the passes, in order, and whether one of them changed them.
pub open spec fn passes_outcome(passes: Seq<Pass>, nodes: Seq<NodeView>) -> (Seq<NodeView>, bool)
    decreases passes.len(),
{
    if passes.len() == 0 {
        (nodes, false)
    } else {
        let (q, c) = passes_outcome(passes.drop_last(), nodes);
        let (r, d) = pass_outcome(passes.last(), q);
        (r, c || d)
    }
}

/// The nodes after at most `rounds` rounds of the passes; the rounds stop after one that
/// changed nothing.
pub open spec fn rounds_outcome(passes: Seq<Pass>, nodes: Seq<NodeView>, rounds: nat) -> Seq<NodeView>
    decreases rounds,
{
    if rounds == 0 {
        nodes
    } else {
        let (q, c) = passes_outcome(passes, nodes);
        if c {
            rounds_outcome(passes, q, (rounds - 1) as nat)
        } else {
            q
        }
    }
}

/// Two least markings of the live nodes agree on the nodes the first one marks.
proof fn lemma_marked_in_both(nodes: Seq<NodeView>, m1: Seq<bool>, rank: Seq<nat>, m2: Seq<bool>, j: int)
    requires
        live_marks(nodes, m2),
        m1.len() == nodes.len(),
        rank.len() == nodes.len(),
        forall|k: int|
            0 <= k < nodes.len() && #[trigger] m1[k] && !critical(nodes[k]) ==> exists|i: int|
                0 <= i < nodes.len() && m1[i] && rank[i] < rank[k] && #[trigger] depends_on(nodes, i, k),
        0 <= j < nodes.len(),
        m1[j],
    ensures
        m2[j],
    decreases rank[j],
{
    if !critical(nodes[j]) {
        let i = choose|i: int| 0 <= i < nodes.len() && m1[i] && rank[i] < rank[j] && #[trigger] depends_on(nodes, i, j);
        lemma_marked_in_both(nodes, m1, rank, m2, i);
        assert(m2[i] && depends_on(nodes, i, j));
    }
}

/// The live nodes are marked in one way only.
pub proof fn lemma_live_marks_unique(nodes: Seq<NodeView>, m1: Seq<bool>, m2: Seq<bool>)
    requires
        live_marks(nodes, m1),
        live_marks(nodes, m2),
    ensures
        m1 == m2,
{
    let r1 = choose|rank: Seq<nat>| #[trigger] rank.len() == nodes.len() && forall|j: int|
        0 <= j < nodes.len() && #[trigger] m1[j] && !critical(nodes[j]) ==> exists|i: int|
            0 <= i < nodes.len() && m1[i] && rank[i] < rank[j] && #[trigger] depends_on(nodes, i, j);
    let r2 = choose|rank: Seq<nat>| #[trigger] rank.len() == nodes.len() && forall|j: int|
        0 <= j < nodes.len() && #[trigger] m2[j] && !critical(nodes[j]) ==> exists|i: int|
            0 <= i < nodes.len() && m2[i] && rank[i] < rank[j] && #[trigger] depends_on(nodes, i, j);
    assert forall|j: int| 0 <= j < nodes.len() implies m1[j] == m2[j] by {
        if m1[j] {
            lemma_marked_in_both(nodes, m1, r1, m2, j);
        }
        if m2[j] {
            lemma_marked_in_both(nodes, m2, r2, m1, j);
        }
    }
    assert(m1 =~= m2);
}

/// Runs one pass (see `pass_outcome`); says whether it changed the program.
fn run_pass(pass: Pass, program: &mut Program) -> (r: bool)
    ensures
        (final(program)@, r) == pass_outcome(pass, old(program)@),
{
    let res = match pass {
        Pass::ConstantFolding => ConstantFolding::new().optimize(program),
        Pass::ExpressionSimplification => ExpressionSimplification::new().optimize(program),
        Pass::ConstantPropagation => ConstantPropagation::new().optimize(program),
        Pass::CopyPropagation => CopyPropagation::new().optimize(program),
        Pass::DeadCodeElimination => DeadCodeElimination::new().optimize(program),
        Pass::AssertionElimination => AssertionElimination::new().optimize(program),
        Pass::RedundantNodeElimination => RedundantNodeElimination::new().optimize(program),
    };
    proof {
        if pass == Pass::DeadCodeElimination {
            let marks = choose|marks: Seq<bool>| #[trigger] live_marks(old(program)@, marks) && {
                &&& (forall|i: int| 0 <= i < marks.len() ==> marks[i]) ==> res == Ok::<OptimizationResult, Error>(
                    OptimizationResult::Unchanged,
                ) && program@ == old(program)@
                &&& !(forall|i: int| 0 <= i < marks.len() ==> marks[i]) ==> res == Ok::<OptimizationResult, Error>(
                    OptimizationResult::Changed,
                ) && program@ == kept(old(program)@, marks)
            };
            lemma_live_marks_unique(old(program)@, marks, dce_marks(old(program)@));
        }
    }
    match res {
        Ok(OptimizationResult::Changed) => true,
        _ => false,
    }
}

/// Runs the passes in order (see `passes_outcome`).
fn run_passes(passes: &Vec<Pass>, program: &mut Program) -> (r: bool)
    ensures
        (final(program)@, r) == passes_outcome(passes@, old(program)@),
{
    let mut changed = false;
    let mut i: usize = 0;
    proof {
        assert(passes@.take(0) =~= Seq::<Pass>::empty());
    }
    while i < passes.len()
        invariant
            0 <= i <= passes@.len(),
            (program@, changed) == passes_outcome(passes@.take(i as int), old(program)@),
        decreases passes@.len() - i,
    {
        proof {
            assert(passes@.take(i + 1).drop_last() =~= passes@.take(i as int));
        }
        let c = run_pass(passes[i], program);
        changed = changed || c;
        i += 1;
    }
    proof {
        assert(passes@.take(passes@.len() as int) =~= passes@);
    }
    changed
}

/// Runs passes before, repeatedly and after: the repeated passes run in rounds, at most
/// `repetitions` of them, and stop after a round that changed nothing.
#[derive(Debug)]
pub struct Optimizer {
    pub pre_optimizations: Vec<Pass>,
    pub repeated_optimizations: Vec<Pass>,
    pub post_optimizations: Vec<Pass>,
    pub repetitions: usize,
}




/// The nodes after the passes `o`.
pub open spec fn optimizer_outcome(o: (Seq<Pass>, Seq<Pass>, Seq<Pass>, usize), nodes: Seq<NodeView>) -> Seq<NodeView> {
    passes_outcome(o.2, rounds_outcome(o.1, passes_outcome(o.0, nodes).0, o.3 as nat)).0
}

/// The passes of an optimization level: none; copy propagation once; or up to five rounds
/// of constant folding, constant propagation, expression simplification, copy propagation
/// and, unless counterexamples are generated, dead-code elimination, followed by the
/// elimination of assertions and of redundant nodes.
pub open spec fn level_passes(level: OptimizationLevel, generate_counterexample: bool) -> (
    Seq<Pass>,
    Seq<Pass>,
    Seq<Pass>,
    usize,
) {
    match level {
        OptimizationLevel::Disabled => (Seq::empty(), Seq::empty(), Seq::empty(), 0usize),
        OptimizationLevel::Basic => (Seq::empty(), seq![Pass::CopyPropagation], Seq::empty(), 1usize),
        OptimizationLevel::Full => (
            Seq::empty(),
            if generate_counterexample {
                full_rounds()
            } else {
                full_rounds().push(Pass::DeadCodeElimination)
            },
            seq![Pass::AssertionElimination, Pass::RedundantNodeElimination],
            5usize,
        ),
    }
}

/// The repeated passes of the full level, dead-code elimination aside.
pub open spec fn full_rounds() -> Seq<Pass> {
    seq![
        Pass::ConstantFolding,
        Pass::ConstantPropagation,
        Pass::ExpressionSimplification,
        Pass::CopyPropagation,
    ]
}

impl Optimizer {
    /// The passes and the number of rounds.
    pub open spec fn view(&self) -> (Seq<Pass>, Seq<Pass>, Seq<Pass>, usize) {
        (self.pre_optimizations@, self.repeated_optimizations@, self.post_optimizations@, self.repetitions)
    }

    /// The optimizer of the level the environment asks for.
    pub fn new_from_env(env: &Environment) -> (r: Self)
        ensures
            r@ == level_passes(env.optimization_level, env.generate_counterexample),
    {
        match env.optimization_level {
            OptimizationLevel::Disabled => Self::none(),
            OptimizationLevel::Basic => Self::basic(),
            OptimizationLevel::Full => if env.generate_counterexample {
                // Dead-code elimination would remove what a counterexample is built from.
                Self::full_without_dce()
            } else {
                Self::full()
            },
        }
    }

    /// No optimization.
    pub fn none() -> (r: Self)
        ensures
            r@ == level_passes(OptimizationLevel::Disabled, false),
    {
        let r = Optimizer {
            pre_optimizations: Vec::new(),
            repeated_optimizations: Vec::new(),
            post_optimizations: Vec::new(),
            repetitions: 0,
        };
        assert(r@ =~= level_passes(OptimizationLevel::Disabled, false));
        r
    }

    /// Copy propagation, once.
    pub fn basic() -> (r: Self)
        ensures
            r@ == level_passes(OptimizationLevel::Basic, false),
    {
        let mut repeated: Vec<Pass> = Vec::new();
        repeated.push(Pass::CopyPropagation);
        let r = Optimizer {
            pre_optimizations: Vec::new(),
            repeated_optimizations: repeated,
            post_optimizations: Vec::new(),
            repetitions: 1,
        };
        assert(r@.1 =~= seq![Pass::CopyPropagation]);
        assert(r@ =~= level_passes(OptimizationLevel::Basic, false));
        r
    }

    /// Up to five rounds of constant folding, constant propagation, expression
    /// simplification, copy propagation and dead-code elimination, then the elimination of
    /// assertions and of redundant nodes.
    pub fn full() -> (r: Self)
        ensures
            r@ == level_passes(OptimizationLevel::Full, false),
    {
        let mut r = Self::full_without_dce();
        r.repeated_optimizations.push(Pass::DeadCodeElimination);
        r
    }

    /// The full level without dead-code elimination.
    fn full_without_dce() -> (r: Self)
        ensures
            r@ == level_passes(OptimizationLevel::Full, true),
    {
        let mut repeated: Vec<Pass> = Vec::new();
        repeated.push(Pass::ConstantFolding);
        repeated.push(Pass::ConstantPropagation);
        repeated.push(Pass::ExpressionSimplification);
        repeated.push(Pass::CopyPropagation);
        let mut post: Vec<Pass> = Vec::new();
        post.push(Pass::AssertionElimination);
        post.push(Pass::RedundantNodeElimination);
        let r = Optimizer {
            pre_optimizations: Vec::new(),
            repeated_optimizations: repeated,
            post_optimizations: post,
            repetitions: 5,
        };
        assert(r@.1 =~= full_rounds());
        assert(r@.2 =~= seq![Pass::AssertionElimination, Pass::RedundantNodeElimination]);
        assert(r@ =~= level_passes(OptimizationLevel::Full, true));
        r
    }

    /// Runs the passes (see `optimizer_outcome`).
    pub fn optimize(&self, program: &mut Program) -> (r: Result<(), Error>)
        ensures
            r is Ok,
            final(program)@ == optimizer_outcome(self@, old(program)@),
    {
        run_passes(&self.pre_optimizations, program);
        let ghost start = program@;
        let mut k: usize = 0;
        while k < self.repetitions
            invariant_except_break
                0 <= k <= self.repetitions,
                rounds_outcome(self.repeated_optimizations@, start, self.repetitions as nat) == rounds_outcome(
                    self.repeated_optimizations@,
                    program@,
                    (self.repetitions - k) as nat,
                ),
            ensures
                program@ == rounds_outcome(self.repeated_optimizations@, start, self.repetitions as nat),
            decreases self.repetitions - k,
        {
            let ghost before = program@;
            let changed = run_passes(&self.repeated_optimizations, program);
            if !changed {
                break;
            }
            k += 1;
        }
        run_passes(&self.post_optimizations, program);
        Ok(())
    }
}

} // verus!
