//! Constant Propagation
//!
//! Propagates all constant assignments but doesn't remove them.
//! Constant assignment is defined as: `x := c` where c is a constant
//!
//! This optimization requires that the program is in SSA form.
use crate::error::Error;
use crate::hir::transformation::optimization::Optimization;
use crate::hir::{
    operation_read, Block, BlockView, ControlFlowGraph, Edge, EdgeView, Effect, EffectView, GraphView, Instruction,
    InstructionView, Operation, OperationView,
};
use crate::lir::optimization::OptimizationResult;
use crate::lir::{
    lemma_concat_contains, lemma_substitute_unbound, substitute, variables_of, ConstantVariables, ExpressionView,
    OperatorView, VariableView,
};
use vstd::prelude::*;

verus! {

pub struct ConstantPropagation {}

/// `m` with the constant assignments `variable := c` of `insts` added, the last one winning.
pub open spec fn instruction_constants(m: Map<VariableView, ExpressionView>, insts: Seq<InstructionView>) -> Map<
    VariableView,
    ExpressionView,
>
    decreases insts.len(),
{
    if insts.len() == 0 {
        m
    } else {
        let m2 = instruction_constants(m, insts.drop_last());
        match insts.last().operation {
            OperationView::Assign { variable, expr } => if expr.operator is Constant {
                m2.insert(variable, expr)
            } else {
                m2
            },
            _ => m2,
        }
    }
}

/// The constant assignments of the blocks, block after block, the last one winning.
pub open spec fn graph_constants(bs: Seq<BlockView>) -> Map<VariableView, ExpressionView>
    decreases bs.len(),
{
    if bs.len() == 0 {
        Map::empty()
    } else {
        instruction_constants(graph_constants(bs.drop_last()), bs.last().instructions)
    }
}

/// The effect with each variable bound in `m` replaced by its constant.
pub open spec fn effect_substitute(e: EffectView, m: Map<VariableView, ExpressionView>) -> EffectView
    decreases e,
{
    match e {
        EffectView::Conditional { condition, effect } => EffectView::Conditional {
            condition: substitute(condition, m),
            effect: Box::new(effect_substitute(*effect, m)),
        },
        EffectView::CacheFetch { address, bit_width } => EffectView::CacheFetch { address: substitute(address, m), bit_width },
        EffectView::BranchTarget { location, target } => EffectView::BranchTarget {
            location: substitute(location, m),
            target: substitute(target, m),
        },
        EffectView::BranchCondition { location, condition } => EffectView::BranchCondition {
            location: substitute(location, m),
            condition: substitute(condition, m),
        },
    }
}

/// The operation with each variable it reads and that is bound in `m` replaced by its constant.
pub open spec fn operation_substitute(op: OperationView, m: Map<VariableView, ExpressionView>) -> OperationView {
    match op {
        OperationView::Assign { variable, expr } => OperationView::Assign { variable, expr: substitute(expr, m) },
        OperationView::Store { address, expr } => OperationView::Store {
            address: substitute(address, m),
            expr: substitute(expr, m),
        },
        OperationView::Load { variable, address } => OperationView::Load { variable, address: substitute(address, m) },
        OperationView::Call { target } => OperationView::Call { target: substitute(target, m) },
        OperationView::Branch { target } => OperationView::Branch { target: substitute(target, m) },
        OperationView::ConditionalBranch { condition, target } => OperationView::ConditionalBranch {
            condition: substitute(condition, m),
            target: substitute(target, m),
        },
        OperationView::Observable { expr } => OperationView::Observable { expr: substitute(expr, m) },
        OperationView::Indistinguishable { expr } => OperationView::Indistinguishable { expr: substitute(expr, m) },
        OperationView::Assert { condition } => OperationView::Assert { condition: substitute(condition, m) },
        OperationView::Assume { condition } => OperationView::Assume { condition: substitute(condition, m) },
        OperationView::Skip => OperationView::Skip,
        OperationView::Barrier => OperationView::Barrier,
    }
}

/// An operation reads every variable that occurs in its expressions (for a store, those of
/// its address and of the value it stores): substituting only variables it does not read
/// leaves it as it is.
pub proof fn law_operation_reads_all_its_variables(op: OperationView, m: Map<VariableView, ExpressionView>)
    requires
        forall|v: VariableView| #[trigger] m.contains_key(v) ==> !operation_read(op).contains(v),
    ensures
        operation_substitute(op, m) == op,
{
    match op {
        OperationView::Assign { expr, .. } => lemma_substitute_unbound(expr, m),
        OperationView::Store { address, expr } => {
            assert forall|v: VariableView| #[trigger] m.contains_key(v) implies !variables_of(address).contains(v)
                && !variables_of(expr).contains(v) by {
                lemma_concat_contains(variables_of(address), variables_of(expr), v);
            }
            lemma_substitute_unbound(address, m);
            lemma_substitute_unbound(expr, m);
        },
        OperationView::Load { address, .. } => lemma_substitute_unbound(address, m),
        OperationView::Call { target } => lemma_substitute_unbound(target, m),
        OperationView::Branch { target } => lemma_substitute_unbound(target, m),
        OperationView::ConditionalBranch { condition, target } => {
            assert forall|v: VariableView| #[trigger] m.contains_key(v) implies !variables_of(condition).contains(v)
                && !variables_of(target).contains(v) by {
                lemma_concat_contains(variables_of(condition), variables_of(target), v);
            }
            lemma_substitute_unbound(condition, m);
            lemma_substitute_unbound(target, m);
        },
        OperationView::Observable { expr } => lemma_substitute_unbound(expr, m),
        OperationView::Indistinguishable { expr } => lemma_substitute_unbound(expr, m),
        OperationView::Assert { condition } => lemma_substitute_unbound(condition, m),
        OperationView::Assume { condition } => lemma_substitute_unbound(condition, m),
        OperationView::Skip => {},
        OperationView::Barrier => {},
    }
}

/// The instruction with its operation and effects substituted.
pub open spec fn instruction_substitute(i: InstructionView, m: Map<VariableView, ExpressionView>) -> InstructionView {
    InstructionView {
        operation: operation_substitute(i.operation, m),
        effects: Seq::new(i.effects.len(), |j: int| effect_substitute(i.effects[j], m)),
        ..i
    }
}

/// The graph with the constants of `m` propagated into every operation, effect and edge
/// condition.
pub open spec fn propagated_constants(g: GraphView, m: Map<VariableView, ExpressionView>) -> GraphView {
    GraphView {
        blocks: Seq::new(
            g.blocks.len(),
            |p: int|
                BlockView {
                    instructions: Seq::new(
                        g.blocks[p].instructions.len(),
                        |k: int| instruction_substitute(g.blocks[p].instructions[k], m),
                    ),
                    ..g.blocks[p]
                },
        ),
        edges: Seq::new(
            g.edges.len(),
            |i: int|
                EdgeView {
                    condition: match g.edges[i].condition {
                        Some(c) => Some(substitute(c, m)),
                        None => None,
                    },
                    ..g.edges[i]
                },
        ),
        ..g
    }
}

/// The effect with the constants substituted.
fn substituted_effect(e: &Effect, constants: &ConstantVariables) -> (r: Effect)
    requires
        constants.wf(),
    ensures
        r@ == effect_substitute(e@, constants@),
    decreases e,
{
    match e {
        Effect::Conditional { condition, effect } => Effect::Conditional {
            condition: condition.substituted(constants),
            effect: Box::new(substituted_effect(effect, constants)),
        },
        Effect::CacheFetch { address, bit_width } => Effect::CacheFetch {
            address: address.substituted(constants),
            bit_width: *bit_width,
        },
        Effect::BranchTarget { location, target } => Effect::BranchTarget {
            location: location.substituted(constants),
            target: target.substituted(constants),
        },
        Effect::BranchCondition { location, condition } => Effect::BranchCondition {
            location: location.substituted(constants),
            condition: condition.substituted(constants),
        },
    }
}

/// The operation with the constants substituted.
fn substituted_operation(op: &Operation, constants: &ConstantVariables) -> (r: Operation)
    requires
        constants.wf(),
    ensures
        r@ == operation_substitute(op@, constants@),
{
    match op {
        Operation::Assign { variable, expr } => Operation::Assign {
            variable: variable.clone(),
            expr: expr.substituted(constants),
        },
        Operation::Store { address, expr } => Operation::Store {
            address: address.substituted(constants),
            expr: expr.substituted(constants),
        },
        Operation::Load { variable, address } => Operation::Load {
            variable: variable.clone(),
            address: address.substituted(constants),
        },
        Operation::Call { target } => Operation::Call { target: target.substituted(constants) },
        Operation::Branch { target } => Operation::Branch { target: target.substituted(constants) },
        Operation::ConditionalBranch { condition, target } => Operation::ConditionalBranch {
            condition: condition.substituted(constants),
            target: target.substituted(constants),
        },
        Operation::Observable { expr } => Operation::Observable { expr: expr.substituted(constants) },
        Operation::Indistinguishable { expr } => Operation::Indistinguishable { expr: expr.substituted(constants) },
        Operation::Assert { condition } => Operation::Assert { condition: condition.substituted(constants) },
        Operation::Assume { condition } => Operation::Assume { condition: condition.substituted(constants) },
        Operation::Skip => Operation::Skip,
        Operation::Barrier => Operation::Barrier,
    }
}

/// The instruction with its operation and effects substituted.
fn substituted_instruction(inst: &Instruction, constants: &ConstantVariables) -> (r: Instruction)
    requires
        constants.wf(),
    ensures
        r@ == instruction_substitute(inst@, constants@),
{
    let mut effects: Vec<Effect> = Vec::new();
    let mut j: usize = 0;
    while j < inst.effects.len()
        invariant
            0 <= j <= inst.effects@.len(),
            constants.wf(),
            effects@.len() == j,
            forall|k: int| 0 <= k < j ==> (#[trigger] effects@[k])@ == effect_substitute(inst.effects@[k]@, constants@),
        decreases inst.effects@.len() - j,
    {
        effects.push(substituted_effect(&inst.effects[j], constants));
        j += 1;
    }
    let r = Instruction {
        operation: substituted_operation(&inst.operation, constants),
        effects,
        address: inst.address,
        pseudo: inst.pseudo,
    };
    assert(r@.effects =~= instruction_substitute(inst@, constants@).effects);
    r
}

impl ConstantPropagation {
    pub fn new() -> (r: Self) {
        ConstantPropagation {}
    }
}

impl ControlFlowGraph {
    /// Determines the constant assignments.
    pub fn determine_constants(&self) -> (r: ConstantVariables)
        ensures
            r.wf(),
            r@ == graph_constants(self@.blocks),
    {
        let ghost bs = self@.blocks;
        let mut constants = ConstantVariables::new();
        let mut p: usize = 0;
        while p < self.blocks.len()
            invariant
                0 <= p <= self.blocks@.len(),
                bs == self@.blocks,
                constants.wf(),
                constants@ == graph_constants(bs.take(p as int)),
            decreases self.blocks@.len() - p,
        {
            proof {
                assert(bs.take(p + 1).drop_last() =~= bs.take(p as int));
            }
            let ghost start = constants@;
            let ghost insts = bs[p as int].instructions;
            let mut k: usize = 0;
            while k < self.blocks[p].instructions.len()
                invariant
                    0 <= p < self.blocks@.len(),
                    bs == self@.blocks,
                    insts == bs[p as int].instructions,
                    insts.len() == self.blocks@[p as int].instructions@.len(),
                    0 <= k <= insts.len(),
                    constants.wf(),
                    constants@ == instruction_constants(start, insts.take(k as int)),
                decreases insts.len() - k,
            {
                proof {
                    assert(insts.take(k + 1).drop_last() =~= insts.take(k as int));
                    assert(self.blocks@[p as int].instructions@[k as int]@ == insts[k as int]);
                }
                if let Operation::Assign { variable, expr } = &self.blocks[p].instructions[k].operation {
                    if expr.is_constant() {
                        constants.insert(variable.clone(), expr.clone());
                    }
                }
                k += 1;
            }
            proof {
                assert(insts.take(insts.len() as int) =~= insts);
            }
            p += 1;
        }
        proof {
            assert(bs.take(bs.len() as int) =~= bs);
        }
        constants
    }

    /// Propagates the constants into every operation, effect and edge condition.
    pub fn propagate_constants(&mut self, constants: &ConstantVariables)
        requires
            constants.wf(),
        ensures
            final(self)@ == propagated_constants(old(self)@, constants@),
    {
        let ghost g = self@;
        let mut edges: Vec<Edge> = Vec::new();
        let mut i: usize = 0;
        while i < self.edges.len()
            invariant
                0 <= i <= self.edges@.len(),
                g == self@,
                constants.wf(),
                edges@.len() == i,
                forall|j: int| 0 <= j < i ==> (#[trigger] edges@[j])@ == propagated_constants(g, constants@).edges[j],
            decreases self.edges@.len() - i,
        {
            let e = &self.edges[i];
            let condition = match &e.condition {
                Some(c) => Some(c.substituted(constants)),
                None => None,
            };
            edges.push(Edge { head: e.head, tail: e.tail, condition, labels: e.labels });
            i += 1;
        }
        let mut blocks: Vec<Block> = Vec::new();
        let mut p: usize = 0;
        while p < self.blocks.len()
            invariant
                0 <= p <= self.blocks@.len(),
                g == self@,
                constants.wf(),
                blocks@.len() == p,
                forall|j: int| 0 <= j < p ==> (#[trigger] blocks@[j])@ == propagated_constants(g, constants@).blocks[j],
            decreases self.blocks@.len() - p,
        {
            let b = &self.blocks[p];
            let mut instructions: Vec<Instruction> = Vec::new();
            let mut k: usize = 0;
            while k < b.instructions.len()
                invariant
                    0 <= p < self.blocks@.len(),
                    b == self.blocks@[p as int],
                    g == self@,
                    constants.wf(),
                    0 <= k <= b.instructions@.len(),
                    instructions@.len() == k,
                    forall|j: int|
                        0 <= j < k ==> (#[trigger] instructions@[j])@ == instruction_substitute(
                            g.blocks[p as int].instructions[j],
                            constants@,
                        ),
                decreases b.instructions@.len() - k,
            {
                instructions.push(substituted_instruction(&b.instructions[k], constants));
                k += 1;
            }
            let nb = Block { index: b.index, phi_nodes: b.clone_phi_nodes(), instructions, transient: b.transient };
            assert(nb@.instructions =~= propagated_constants(g, constants@).blocks[p as int].instructions);
            blocks.push(nb);
            p += 1;
        }
        self.blocks = blocks;
        self.edges = edges;
        assert(self@.blocks =~= propagated_constants(g, constants@).blocks);
        assert(self@.edges =~= propagated_constants(g, constants@).edges);
    }
}

impl Optimization for ConstantPropagation {
    /// Propagates all constants.
    fn optimize(&self, cfg: &mut ControlFlowGraph) -> (r: Result<OptimizationResult, Error>)
        ensures
            graph_constants(old(cfg)@.blocks).len() == 0 ==> r == Ok::<OptimizationResult, Error>(
                OptimizationResult::Unchanged,
            ) && final(cfg)@ == old(cfg)@,
            graph_constants(old(cfg)@.blocks).len() != 0 ==> r == Ok::<OptimizationResult, Error>(
                OptimizationResult::Changed,
            ) && final(cfg)@ == propagated_constants(old(cfg)@, graph_constants(old(cfg)@.blocks)),
    {
        let constants = cfg.determine_constants();
        if constants.is_empty() {
            return Ok(OptimizationResult::Unchanged);
        }
        cfg.propagate_constants(&constants);
        Ok(OptimizationResult::Changed)
    }
}

} // verus!
