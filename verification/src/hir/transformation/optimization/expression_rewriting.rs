//! Rewriting of the expressions of control-flow graphs: constant folding (expressions whose
//! operands are all constant are evaluated, e.g. `1 + 2` becomes `3`) and expression
//! simplification (e.g. `x /\ false` becomes `false`), in every operation, effect and
//! edge condition.
use crate::error::Error;
use crate::hir::transformation::optimization::Optimization;
use crate::hir::{
    Block, BlockView, ControlFlowGraph, Edge, EdgeView, Effect, EffectView, GraphView, Instruction, InstructionView,
    Operation, OperationView,
};
use crate::lir::optimization::{fold, simplify, OptimizationResult};
use crate::lir::{Expression, ExpressionView};
use vstd::prelude::*;

verus! {

/// A rewriting of expressions.
#[derive(Debug, Clone, Copy, PartialEq, Eq, Structural)]
pub enum Rewrite {
    /// Constant folding (see `fold`).
    Fold,
    /// Expression simplification (see `simplify`).
    Simplify,
}

/// The expression rewritten.
pub open spec fn rewritten(rw: Rewrite, e: ExpressionView) -> ExpressionView {
    match rw {
        Rewrite::Fold => fold(e),
        Rewrite::Simplify => simplify(e),
    }
}

/// The effect with its expressions rewritten.
pub open spec fn effect_rewrite(e: EffectView, rw: Rewrite) -> EffectView
    decreases e,
{
    match e {
        EffectView::Conditional { condition, effect } => EffectView::Conditional {
            condition: rewritten(rw, condition),
            effect: Box::new(effect_rewrite(*effect, rw)),
        },
        EffectView::CacheFetch { address, bit_width } => EffectView::CacheFetch { address: rewritten(rw, address), bit_width },
        EffectView::BranchTarget { location, target } => EffectView::BranchTarget {
            location: rewritten(rw, location),
            target: rewritten(rw, target),
        },
        EffectView::BranchCondition { location, condition } => EffectView::BranchCondition {
            location: rewritten(rw, location),
            condition: rewritten(rw, condition),
        },
    }
}

/// The operation with its expressions rewritten.
pub open spec fn operation_rewrite(op: OperationView, rw: Rewrite) -> OperationView {
    match op {
        OperationView::Assign { variable, expr } => OperationView::Assign { variable, expr: rewritten(rw, expr) },
        OperationView::Store { address, expr } => OperationView::Store {
            address: rewritten(rw, address),
            expr: rewritten(rw, expr),
        },
        OperationView::Load { variable, address } => OperationView::Load { variable, address: rewritten(rw, address) },
        OperationView::Call { target } => OperationView::Call { target: rewritten(rw, target) },
        OperationView::Branch { target } => OperationView::Branch { target: rewritten(rw, target) },
        OperationView::ConditionalBranch { condition, target } => OperationView::ConditionalBranch {
            condition: rewritten(rw, condition),
            target: rewritten(rw, target),
        },
        OperationView::Observable { expr } => OperationView::Observable { expr: rewritten(rw, expr) },
        OperationView::Indistinguishable { expr } => OperationView::Indistinguishable { expr: rewritten(rw, expr) },
        OperationView::Assert { condition } => OperationView::Assert { condition: rewritten(rw, condition) },
        OperationView::Assume { condition } => OperationView::Assume { condition: rewritten(rw, condition) },
        OperationView::Skip => OperationView::Skip,
        OperationView::Barrier => OperationView::Barrier,
    }
}

/// The instruction with its operation and effects rewritten.
pub open spec fn instruction_rewrite(i: InstructionView, rw: Rewrite) -> InstructionView {
    InstructionView {
        operation: operation_rewrite(i.operation, rw),
        effects: Seq::new(i.effects.len(), |j: int| effect_rewrite(i.effects[j], rw)),
        ..i
    }
}

/// The graph with every operation, effect and edge condition rewritten.
pub open spec fn graph_rewrite(g: GraphView, rw: Rewrite) -> GraphView {
    GraphView {
        blocks: Seq::new(
            g.blocks.len(),
            |p: int|
                BlockView {
                    instructions: Seq::new(
                        g.blocks[p].instructions.len(),
                        |k: int| instruction_rewrite(g.blocks[p].instructions[k], rw),
                    ),
                    ..g.blocks[p]
                },
        ),
        edges: Seq::new(
            g.edges.len(),
            |i: int|
                EdgeView {
                    condition: match g.edges[i].condition {
                        Some(c) => Some(rewritten(rw, c)),
                        None => None,
                    },
                    ..g.edges[i]
                },
        ),
        ..g
    }
}

/// The expression rewritten (see `rewritten`).
fn rewrite_expression(e: &Expression, rw: Rewrite) -> (r: Expression)
    ensures
        r@ == rewritten(rw, e@),
{
    match rw {
        Rewrite::Fold => e.folded(),
        Rewrite::Simplify => e.simplified(),
    }
}

/// The effect with its expressions rewritten.
fn rewritten_effect(e: &Effect, rw: Rewrite) -> (r: Effect)
    ensures
        r@ == effect_rewrite(e@, rw),
    decreases e,
{
    match e {
        Effect::Conditional { condition, effect } => Effect::Conditional {
            condition: rewrite_expression(condition, rw),
            effect: Box::new(rewritten_effect(effect, rw)),
        },
        Effect::CacheFetch { address, bit_width } => Effect::CacheFetch {
            address: rewrite_expression(address, rw),
            bit_width: *bit_width,
        },
        Effect::BranchTarget { location, target } => Effect::BranchTarget {
            location: rewrite_expression(location, rw),
            target: rewrite_expression(target, rw),
        },
        Effect::BranchCondition { location, condition } => Effect::BranchCondition {
            location: rewrite_expression(location, rw),
            condition: rewrite_expression(condition, rw),
        },
    }
}

/// The operation with its expressions rewritten.
fn rewritten_operation(op: &Operation, rw: Rewrite) -> (r: Operation)
    ensures
        r@ == operation_rewrite(op@, rw),
{
    match op {
        Operation::Assign { variable, expr } => Operation::Assign {
            variable: variable.clone(),
            expr: rewrite_expression(expr, rw),
        },
        Operation::Store { address, expr } => Operation::Store {
            address: rewrite_expression(address, rw),
            expr: rewrite_expression(expr, rw),
        },
        Operation::Load { variable, address } => Operation::Load {
            variable: variable.clone(),
            address: rewrite_expression(address, rw),
        },
        Operation::Call { target } => Operation::Call { target: rewrite_expression(target, rw) },
        Operation::Branch { target } => Operation::Branch { target: rewrite_expression(target, rw) },
        Operation::ConditionalBranch { condition, target } => Operation::ConditionalBranch {
            condition: rewrite_expression(condition, rw),
            target: rewrite_expression(target, rw),
        },
        Operation::Observable { expr } => Operation::Observable { expr: rewrite_expression(expr, rw) },
        Operation::Indistinguishable { expr } => Operation::Indistinguishable { expr: rewrite_expression(expr, rw) },
        Operation::Assert { condition } => Operation::Assert { condition: rewrite_expression(condition, rw) },
        Operation::Assume { condition } => Operation::Assume { condition: rewrite_expression(condition, rw) },
        Operation::Skip => Operation::Skip,
        Operation::Barrier => Operation::Barrier,
    }
}

/// The instruction with its operation and effects rewritten.
fn rewritten_instruction(inst: &Instruction, rw: Rewrite) -> (r: Instruction)
    ensures
        r@ == instruction_rewrite(inst@, rw),
{
    let mut effects: Vec<Effect> = Vec::new();
    let mut j: usize = 0;
    while j < inst.effects.len()
        invariant
            0 <= j <= inst.effects@.len(),
            effects@.len() == j,
            forall|k: int| 0 <= k < j ==> (#[trigger] effects@[k])@ == effect_rewrite(inst.effects@[k]@, rw),
        decreases inst.effects@.len() - j,
    {
        effects.push(rewritten_effect(&inst.effects[j], rw));
        j += 1;
    }
    let r = Instruction {
        operation: rewritten_operation(&inst.operation, rw),
        effects,
        address: inst.address,
        pseudo: inst.pseudo,
    };
    assert(r@.effects =~= instruction_rewrite(inst@, rw).effects);
    r
}

impl ControlFlowGraph {
    /// Rewrites every operation, effect and edge condition; says whether that changed the
    /// graph.
    pub fn rewrite_expressions(&mut self, rw: Rewrite) -> (r: bool)
        ensures
            final(self)@ == graph_rewrite(old(self)@, rw),
            r == (graph_rewrite(old(self)@, rw) != old(self)@),
    {
        let ghost g = self@;
        let mut edges: Vec<Edge> = Vec::new();
        let mut same = true;
        let mut i: usize = 0;
        while i < self.edges.len()
            invariant
                0 <= i <= self.edges@.len(),
                g == self@,
                edges@.len() == i,
                forall|j: int| 0 <= j < i ==> (#[trigger] edges@[j])@ == graph_rewrite(g, rw).edges[j],
                same == (forall|j: int| 0 <= j < i ==> (#[trigger] edges@[j])@ == g.edges[j]),
            decreases self.edges@.len() - i,
        {
            let e = &self.edges[i];
            let condition = match &e.condition {
                Some(c) => Some(rewrite_expression(c, rw)),
                None => None,
            };
            let ne = Edge { head: e.head, tail: e.tail, condition, labels: e.labels };
            proof {
                assert(e@ == g.edges[i as int]);
            }
            let equal = ne.equals(e);
            let ghost previous = edges@;
            edges.push(ne);
            proof {
                assert forall|j: int| 0 <= j < i implies edges@[j] == previous[j] by {}
                assert(edges@[i as int] == ne);
            }
            same = same && equal;
            i += 1;
        }
        let mut blocks: Vec<Block> = Vec::new();
        let mut p: usize = 0;
        while p < self.blocks.len()
            invariant
                0 <= p <= self.blocks@.len(),
                g == self@,
                blocks@.len() == p,
                forall|j: int| 0 <= j < p ==> (#[trigger] blocks@[j])@ == graph_rewrite(g, rw).blocks[j],
                same == ((forall|j: int| 0 <= j < edges@.len() ==> (#[trigger] edges@[j])@ == g.edges[j]) && (forall|j: int|
                    0 <= j < p ==> (#[trigger] blocks@[j])@ == g.blocks[j])),
            decreases self.blocks@.len() - p,
        {
            let b = &self.blocks[p];
            let mut instructions: Vec<Instruction> = Vec::new();
            let mut k: usize = 0;
            while k < b.instructions.len()
                invariant
                    0 <= p < self.blocks@.len(),
                    b == self.blocks@[p as int],
                    g == self@,
                    0 <= k <= b.instructions@.len(),
                    instructions@.len() == k,
                    forall|j: int|
                        0 <= j < k ==> (#[trigger] instructions@[j])@ == instruction_rewrite(
                            g.blocks[p as int].instructions[j],
                            rw,
                        ),
                decreases b.instructions@.len() - k,
            {
                instructions.push(rewritten_instruction(&b.instructions[k], rw));
                k += 1;
            }
            let nb = Block { index: b.index, phi_nodes: b.clone_phi_nodes(), instructions, transient: b.transient };
            assert(nb@.instructions =~= graph_rewrite(g, rw).blocks[p as int].instructions);
            proof {
                assert(b@ == g.blocks[p as int]);
            }
            let equal = nb.equals(b);
            let ghost previous = blocks@;
            blocks.push(nb);
            proof {
                assert forall|j: int| 0 <= j < p implies blocks@[j] == previous[j] by {}
                assert(blocks@[p as int] == nb);
            }
            same = same && equal;
            p += 1;
        }
        self.blocks = blocks;
        self.edges = edges;
        assert(self@.blocks =~= graph_rewrite(g, rw).blocks);
        assert(self@.edges =~= graph_rewrite(g, rw).edges);
        proof {
            if same {
                assert(self@.blocks =~= g.blocks);
                assert(self@.edges =~= g.edges);
                assert(graph_rewrite(g, rw) =~= g);
            } else {
                if !(forall|j: int| 0 <= j < self@.edges.len() ==> self@.edges[j] == g.edges[j]) {
                    let j = choose|j: int| 0 <= j < self@.edges.len() && self@.edges[j] != g.edges[j];
                    assert(graph_rewrite(g, rw).edges[j] != g.edges[j]);
                } else {
                    let j = choose|j: int| 0 <= j < self@.blocks.len() && self@.blocks[j] != g.blocks[j];
                    assert(graph_rewrite(g, rw).blocks[j] != g.blocks[j]);
                }
            }
        }
        !same
    }
}

/// Constant folding of control-flow graphs.
#[derive(Debug, Clone, Copy, PartialEq, Eq, Structural)]
pub struct ConstantFolding {}

impl ConstantFolding {
    pub fn new() -> (r: Self) {
        ConstantFolding {}
    }
}

impl Optimization for ConstantFolding {
    /// Folds every expression whose operands are constant.
    fn optimize(&self, cfg: &mut ControlFlowGraph) -> (r: Result<OptimizationResult, Error>)
        ensures
            graph_rewrite(old(cfg)@, Rewrite::Fold) == old(cfg)@ ==> r == Ok::<OptimizationResult, Error>(
                OptimizationResult::Unchanged,
            ) && final(cfg)@ == old(cfg)@,
            graph_rewrite(old(cfg)@, Rewrite::Fold) != old(cfg)@ ==> r == Ok::<OptimizationResult, Error>(
                OptimizationResult::Changed,
            ) && final(cfg)@ == graph_rewrite(old(cfg)@, Rewrite::Fold),
    {
        if cfg.rewrite_expressions(Rewrite::Fold) {
            Ok(OptimizationResult::Changed)
        } else {
            Ok(OptimizationResult::Unchanged)
        }
    }
}

/// Expression simplification of control-flow graphs.
#[derive(Debug, Clone, Copy, PartialEq, Eq, Structural)]
pub struct ExpressionSimplification {}

impl ExpressionSimplification {
    pub fn new() -> (r: Self) {
        ExpressionSimplification {}
    }
}

impl Optimization for ExpressionSimplification {
    /// Simplifies every expression.
    fn optimize(&self, cfg: &mut ControlFlowGraph) -> (r: Result<OptimizationResult, Error>)
        ensures
            graph_rewrite(old(cfg)@, Rewrite::Simplify) == old(cfg)@ ==> r == Ok::<OptimizationResult, Error>(
                OptimizationResult::Unchanged,
            ) && final(cfg)@ == old(cfg)@,
            graph_rewrite(old(cfg)@, Rewrite::Simplify) != old(cfg)@ ==> r == Ok::<OptimizationResult, Error>(
                OptimizationResult::Changed,
            ) && final(cfg)@ == graph_rewrite(old(cfg)@, Rewrite::Simplify),
    {
        if cfg.rewrite_expressions(Rewrite::Simplify) {
            Ok(OptimizationResult::Changed)
        } else {
            Ok(OptimizationResult::Unchanged)
        }
    }
}

} // verus!
