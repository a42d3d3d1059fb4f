//! Optimizations of control-flow graphs.

mod constant_propagation;
mod copy_propagation;
mod dead_code_elimination;
mod expression_rewriting;
mod optimizer;
mod phi_elimination;
mod redundant_instruction_elimination;

pub use self::constant_propagation::{
    effect_substitute, graph_constants, instruction_constants, instruction_substitute, law_operation_reads_all_its_variables,
    operation_substitute,
    propagated_constants, ConstantPropagation,
};
pub use self::copy_propagation::{
    graph_copies, instruction_copies, law_copy_propagation_keeps_writes, law_copy_propagation_renames_reads,
    law_renaming_renames_every_read, operation_rename, propagated_copies,
    CopyPropagation,
};

pub use self::dead_code_elimination::{
    block_sites, dce_critical, edge_needs, edge_reads, flat_sites, kept_items, last_writer, lemma_needed_marks_unique,
    needed_marks, needs,
    offset, site_read, site_written, swept, swept_block, DeadCodeElimination, SiteView,
};
pub use self::expression_rewriting::{
    effect_rewrite, graph_rewrite, instruction_rewrite, operation_rewrite, rewritten, ConstantFolding,
    ExpressionSimplification, Rewrite,
};
pub use self::optimizer::{
    all_marked, conditions_boolean, graph_dce_marks, graph_level_passes, graph_optimizer_outcome, graph_pass_outcome,
    graph_passes_outcome, graph_rounds, graph_rounds_outcome, same_shape, shape_keeping, GraphPass, Optimizer,
};
pub use self::phi_elimination::{
    all_same, first_ill_sorted, first_ill_sorted_in, has_unnecessary_phi, ill_sorted, necessary_phis, phi_assignment,
    phi_assignments, phi_eliminated_block, phis_eliminated, PhiElimination,
};
pub use self::redundant_instruction_elimination::{
    available_in, eliminated, eliminated_at, eliminated_in_order, is_topological_order, law_elimination_keeps_writes_and_drops_repeats,
    out_sets, predecessors, redundancy_eliminated, view_set, writes, writing, RedundantInstructionElimination,
};

use crate::error::Error;
use crate::hir::ControlFlowGraph;
use crate::lir::optimization::OptimizationResult;
use vstd::prelude::*;

verus! {

/// An optimization of control-flow graphs.
pub trait Optimization {
    fn optimize(&self, cfg: &mut ControlFlowGraph) -> Result<OptimizationResult, Error>;
}

} // verus!
