//! Copy Propagation
//!
//! Propagates all simple assignments but doesn't remove them.
//! Simple assignment is defined as: `x := v` where v is a variable
//!
//! This optimization requires that the program is in SSA form.
use crate::error::Error;
use crate::hir::transformation::optimization::Optimization;
use crate::hir::{
    block_views, edge_views, operation_read, operation_written, Block, BlockView, ControlFlowGraph, Edge, EdgeView, GraphView,
    Instruction, InstructionView, Operation, OperationView,
};
use crate::lir::optimization::{resolve_copies_of_copies, resolved, OptimizationResult};
use crate::lir::{
    lemma_rename_variables, rename, variables_of, renamed_variable, CopiedVariables, Operator, OperatorView, VariableView,
};
use vstd::prelude::*;

verus! {

pub struct CopyPropagation {}

/// `m` with the simple assignments `variable := src` of `insts` added, the last one winning.
pub open spec fn instruction_copies(m: Map<VariableView, VariableView>, insts: Seq<InstructionView>) -> Map<
    VariableView,
    VariableView,
>
    decreases insts.len(),
{
    if insts.len() == 0 {
        m
    } else {
        let m2 = instruction_copies(m, insts.drop_last());
        match insts.last().operation {
            OperationView::Assign { variable, expr } => match expr.operator {
                OperatorView::Variable(src) => m2.insert(variable, src),
                _ => m2,
            },
            _ => m2,
        }
    }
}

/// The simple assignments of the blocks, block after block, the last one winning.
pub open spec fn graph_copies(bs: Seq<BlockView>) -> Map<VariableView, VariableView>
    decreases bs.len(),
{
    if bs.len() == 0 {
        Map::empty()
    } else {
        instruction_copies(graph_copies(bs.drop_last()), bs.last().instructions)
    }
}

/// The operation with each variable it reads renamed along `m`.
pub open spec fn operation_rename(op: OperationView, m: Map<VariableView, VariableView>) -> OperationView {
    match op {
        OperationView::Assign { variable, expr } => OperationView::Assign { variable, expr: rename(expr, m) },
        OperationView::Store { address, expr } => OperationView::Store {
            address: rename(address, m),
            expr: rename(expr, m),
        },
        OperationView::Load { variable, address } => OperationView::Load { variable, address: rename(address, m) },
        OperationView::Call { target } => OperationView::Call { target: rename(target, m) },
        OperationView::Branch { target } => OperationView::Branch { target: rename(target, m) },
        OperationView::ConditionalBranch { condition, target } => OperationView::ConditionalBranch {
            condition: rename(condition, m),
            target: rename(target, m),
        },
        OperationView::Observable { expr } => OperationView::Observable { expr: rename(expr, m) },
        OperationView::Indistinguishable { expr } => OperationView::Indistinguishable { expr: rename(expr, m) },
        OperationView::Assert { condition } => OperationView::Assert { condition: rename(condition, m) },
        OperationView::Assume { condition } => OperationView::Assume { condition: rename(condition, m) },
        OperationView::Skip => OperationView::Skip,
        OperationView::Barrier => OperationView::Barrier,
    }
}

/// Renaming an operation renames every variable it reads, each along `m`, and nothing else:
/// the variables the renamed operation reads are those the operation reads, one by one,
/// with each key of `m` replaced by what `m` maps it to.
pub proof fn law_renaming_renames_every_read(op: OperationView, m: Map<VariableView, VariableView>)
    ensures
        operation_read(operation_rename(op, m)) == operation_read(op).map_values(
            |v: VariableView| renamed_variable(v, m),
        ),
{
    match op {
        OperationView::Assign { expr, .. } => lemma_rename_variables(expr, m),
        OperationView::Store { address, expr } => {
            lemma_rename_variables(address, m);
            lemma_rename_variables(expr, m);
            assert((variables_of(address) + variables_of(expr)).map_values(|v: VariableView| renamed_variable(v, m))
                =~= variables_of(address).map_values(|v: VariableView| renamed_variable(v, m)) + variables_of(
                expr,
            ).map_values(|v: VariableView| renamed_variable(v, m)));
        },
        OperationView::Load { address, .. } => lemma_rename_variables(address, m),
        OperationView::Call { target } => lemma_rename_variables(target, m),
        OperationView::Branch { target } => lemma_rename_variables(target, m),
        OperationView::ConditionalBranch { condition, target } => {
            lemma_rename_variables(condition, m);
            lemma_rename_variables(target, m);
            assert((variables_of(condition) + variables_of(target)).map_values(
                |v: VariableView| renamed_variable(v, m),
            ) =~= variables_of(condition).map_values(|v: VariableView| renamed_variable(v, m)) + variables_of(
                target,
            ).map_values(|v: VariableView| renamed_variable(v, m)));
        },
        OperationView::Observable { expr } => lemma_rename_variables(expr, m),
        OperationView::Indistinguishable { expr } => lemma_rename_variables(expr, m),
        OperationView::Assert { condition } => lemma_rename_variables(condition, m),
        OperationView::Assume { condition } => lemma_rename_variables(condition, m),
        OperationView::Skip => {
            assert(operation_read(op).map_values(|v: VariableView| renamed_variable(v, m)) =~= Seq::empty());
        },
        OperationView::Barrier => {
            assert(operation_read(op).map_values(|v: VariableView| renamed_variable(v, m)) =~= Seq::empty());
        },
    }
}

/// After copy propagation every instruction reads, in place of each copied variable, the
/// variable `m` maps it to (for a store, in its address and in the value it stores), and
/// otherwise what it read before; so where no copy source is copied itself, no instruction
/// reads a copied variable any more.
pub proof fn law_copy_propagation_renames_reads(g: GraphView, m: Map<VariableView, VariableView>, p: int, k: int)
    requires
        0 <= p < g.blocks.len(),
        0 <= k < g.blocks[p].instructions.len(),
    ensures
        operation_read(propagated_copies(g, m).blocks[p].instructions[k].operation) == operation_read(
            g.blocks[p].instructions[k].operation,
        ).map_values(|v: VariableView| renamed_variable(v, m)),
        (forall|w: VariableView| #[trigger] m.contains_key(w) ==> !m.contains_key(m[w])) ==> forall|v: VariableView|
            #[trigger] m.contains_key(v) ==> !operation_read(
                propagated_copies(g, m).blocks[p].instructions[k].operation,
            ).contains(v),
{
    let op = g.blocks[p].instructions[k].operation;
    law_renaming_renames_every_read(op, m);
    let reads = operation_read(propagated_copies(g, m).blocks[p].instructions[k].operation);
    if forall|w: VariableView| #[trigger] m.contains_key(w) ==> !m.contains_key(m[w]) {
        assert forall|v: VariableView| #[trigger] m.contains_key(v) implies !reads.contains(v) by {
            if reads.contains(v) {
                let i = choose|i: int| 0 <= i < reads.len() && reads[i] == v;
                let w = operation_read(op)[i];
                assert(reads[i] == renamed_variable(w, m));
                if m.contains_key(w) {
                    assert(!m.contains_key(m[w]));
                }
            }
        }
    }
}

/// The graph with every variable read by an operation or an edge condition renamed along `m`.
pub open spec fn propagated_copies(g: GraphView, m: Map<VariableView, VariableView>) -> GraphView {
    GraphView {
        blocks: Seq::new(
            g.blocks.len(),
            |p: int|
                BlockView {
                    instructions: Seq::new(
                        g.blocks[p].instructions.len(),
                        |k: int|
                            InstructionView {
                                operation: operation_rename(g.blocks[p].instructions[k].operation, m),
                                ..g.blocks[p].instructions[k]
                            },
                    ),
                    ..g.blocks[p]
                },
        ),
        edges: Seq::new(
            g.edges.len(),
            |i: int|
                EdgeView {
                    condition: match g.edges[i].condition {
                        Some(c) => Some(rename(c, m)),
                        None => None,
                    },
                    ..g.edges[i]
                },
        ),
        ..g
    }
}

/// Copy propagation keeps what every instruction writes, and every block and edge in place:
/// only what is read is renamed.
pub proof fn law_copy_propagation_keeps_writes(g: GraphView, m: Map<VariableView, VariableView>, p: int, k: int)
    requires
        0 <= p < g.blocks.len(),
        0 <= k < g.blocks[p].instructions.len(),
    ensures
        propagated_copies(g, m).blocks.len() == g.blocks.len(),
        propagated_copies(g, m).edges.len() == g.edges.len(),
        propagated_copies(g, m).blocks[p].index == g.blocks[p].index,
        operation_written(propagated_copies(g, m).blocks[p].instructions[k].operation) == operation_written(
            g.blocks[p].instructions[k].operation,
        ),
{
}

/// The operation with each variable it reads renamed along `copies`.
fn renamed_operation(op: &Operation, copies: &CopiedVariables) -> (r: Operation)
    requires
        copies.wf(),
    ensures
        r@ == operation_rename(op@, copies@),
{
    match op {
        Operation::Assign { variable, expr } => Operation::Assign { variable: variable.clone(), expr: expr.renamed(copies) },
        Operation::Store { address, expr } => Operation::Store { address: address.renamed(copies), expr: expr.renamed(copies) },
        Operation::Load { variable, address } => Operation::Load {
            variable: variable.clone(),
            address: address.renamed(copies),
        },
        Operation::Call { target } => Operation::Call { target: target.renamed(copies) },
        Operation::Branch { target } => Operation::Branch { target: target.renamed(copies) },
        Operation::ConditionalBranch { condition, target } => Operation::ConditionalBranch {
            condition: condition.renamed(copies),
            target: target.renamed(copies),
        },
        Operation::Observable { expr } => Operation::Observable { expr: expr.renamed(copies) },
        Operation::Indistinguishable { expr } => Operation::Indistinguishable { expr: expr.renamed(copies) },
        Operation::Assert { condition } => Operation::Assert { condition: condition.renamed(copies) },
        Operation::Assume { condition } => Operation::Assume { condition: condition.renamed(copies) },
        Operation::Skip => Operation::Skip,
        Operation::Barrier => Operation::Barrier,
    }
}

impl CopyPropagation {
    pub fn new() -> (r: Self) {
        CopyPropagation {}
    }
}

impl ControlFlowGraph {
    /// Determines the simple assignments, with copies of copies resolved.
    pub fn determine_copies(&self) -> (r: CopiedVariables)
        ensures
            r.wf(),
            r@ == resolved(graph_copies(self@.blocks)),
    {
        let ghost bs = self@.blocks;
        let mut copies = CopiedVariables::new();
        let mut p: usize = 0;
        while p < self.blocks.len()
            invariant
                0 <= p <= self.blocks@.len(),
                bs == self@.blocks,
                copies.wf(),
                copies@ == graph_copies(bs.take(p as int)),
            decreases self.blocks@.len() - p,
        {
            proof {
                assert(bs.take(p + 1).drop_last() =~= bs.take(p as int));
            }
            let ghost start = copies@;
            let ghost insts = bs[p as int].instructions;
            let mut k: usize = 0;
            while k < self.blocks[p].instructions.len()
                invariant
                    0 <= p < self.blocks@.len(),
                    bs == self@.blocks,
                    insts == bs[p as int].instructions,
                    insts.len() == self.blocks@[p as int].instructions@.len(),
                    0 <= k <= insts.len(),
                    copies.wf(),
                    copies@ == instruction_copies(start, insts.take(k as int)),
                decreases insts.len() - k,
            {
                proof {
                    assert(insts.take(k + 1).drop_last() =~= insts.take(k as int));
                    assert(self.blocks@[p as int].instructions@[k as int]@ == insts[k as int]);
                }
                if let Operation::Assign { variable, expr } = &self.blocks[p].instructions[k].operation {
                    if let Operator::Variable(src) = &expr.operator {
                        copies.insert(variable.clone(), src.clone());
                    }
                }
                k += 1;
            }
            proof {
                assert(insts.take(insts.len() as int) =~= insts);
            }
            p += 1;
        }
        proof {
            assert(bs.take(bs.len() as int) =~= bs);
        }
        resolve_copies_of_copies(&mut copies);
        copies
    }

    /// Renames, along `copies`, every variable read by an operation or an edge condition.
    pub fn propagate_copies(&mut self, copies: &CopiedVariables)
        requires
            copies.wf(),
        ensures
            final(self)@ == propagated_copies(old(self)@, copies@),
    {
        let ghost g = self@;
        let mut edges: Vec<Edge> = Vec::new();
        let mut i: usize = 0;
        while i < self.edges.len()
            invariant
                0 <= i <= self.edges@.len(),
                g == self@,
                copies.wf(),
                edges@.len() == i,
                forall|j: int| 0 <= j < i ==> (#[trigger] edges@[j])@ == propagated_copies(g, copies@).edges[j],
            decreases self.edges@.len() - i,
        {
            let e = &self.edges[i];
            let condition = match &e.condition {
                Some(c) => Some(c.renamed(copies)),
                None => None,
            };
            edges.push(Edge { head: e.head, tail: e.tail, condition, labels: e.labels });
            i += 1;
        }
        let mut blocks: Vec<Block> = Vec::new();
        let mut p: usize = 0;
        while p < self.blocks.len()
            invariant
                0 <= p <= self.blocks@.len(),
                g == self@,
                copies.wf(),
                blocks@.len() == p,
                forall|j: int| 0 <= j < p ==> (#[trigger] blocks@[j])@ == propagated_copies(g, copies@).blocks[j],
            decreases self.blocks@.len() - p,
        {
            let b = &self.blocks[p];
            let mut instructions: Vec<Instruction> = Vec::new();
            let mut k: usize = 0;
            while k < b.instructions.len()
                invariant
                    0 <= p < self.blocks@.len(),
                    b == self.blocks@[p as int],
                    g == self@,
                    copies.wf(),
                    0 <= k <= b.instructions@.len(),
                    instructions@.len() == k,
                    forall|j: int|
                        0 <= j < k ==> (#[trigger] instructions@[j])@ == (InstructionView {
                            operation: operation_rename(g.blocks[p as int].instructions[j].operation, copies@),
                            ..g.blocks[p as int].instructions[j]
                        }),
                decreases b.instructions@.len() - k,
            {
                let inst = &b.instructions[k];
                let mut renamed = inst.clone();
                renamed.operation = renamed_operation(&inst.operation, copies);
                instructions.push(renamed);
                k += 1;
            }
            let nb = Block { index: b.index, phi_nodes: b.clone_phi_nodes(), instructions, transient: b.transient };
            assert(nb@.instructions =~= propagated_copies(g, copies@).blocks[p as int].instructions);
            blocks.push(nb);
            p += 1;
        }
        self.blocks = blocks;
        self.edges = edges;
        assert(self@.blocks =~= propagated_copies(g, copies@).blocks);
        assert(self@.edges =~= propagated_copies(g, copies@).edges);
    }
}

impl Optimization for CopyPropagation {
    /// Propagates all simple assignments.
    fn optimize(&self, cfg: &mut ControlFlowGraph) -> (r: Result<OptimizationResult, Error>)
        ensures
            graph_copies(old(cfg)@.blocks).len() == 0 ==> r == Ok::<OptimizationResult, Error>(
                OptimizationResult::Unchanged,
            ) && final(cfg)@ == old(cfg)@,
            graph_copies(old(cfg)@.blocks).len() != 0 ==> r == Ok::<OptimizationResult, Error>(
                OptimizationResult::Changed,
            ) && final(cfg)@ == propagated_copies(old(cfg)@, resolved(graph_copies(old(cfg)@.blocks))),
    {
        let copies = cfg.determine_copies();
        proof {
            copies.lemma_len();
            assert(resolved(graph_copies(cfg@.blocks)).dom() =~= graph_copies(cfg@.blocks).dom());
        }
        if copies.is_empty() {
            return Ok(OptimizationResult::Unchanged);
        }
        cfg.propagate_copies(&copies);
        Ok(OptimizationResult::Changed)
    }
}

} // verus!
