//! Optimizations of LIR programs.

mod assertion_elimination;
mod constant_folding;
mod constant_propagation;
mod copy_propagation;
mod dead_code_elimination;
mod expression_simplification;
mod optimizer;
mod redundant_node_elimination;

pub use self::assertion_elimination::{
    assertion_keep, assumed, keep_nodes, AssertionElimination,
};
pub use self::constant_folding::{
    all_bools, bool_of, constant_of, evaluated, evaluated_bit_vector, evaluated_boolean, evaluated_equal,
    evaluated_ite, fold, fold_each, fold_top, law_folding_evaluates_boolean_operators,
    law_folding_evaluates_disjunctions_and_conjunctions, folded_nodes, modulus, node_fold, signed, unsigned, word_of, word_operation,
    words, ConstantFolding,
};
pub use self::expression_simplification::{
    has_bool, law_simplification_absorbs, node_simplify, simplified_nodes, simplify, simplify_each, simplify_top, ExpressionSimplification,
};
pub use self::redundant_node_elimination::{duplicated, redundant_keep, RedundantNodeElimination};
pub use self::constant_propagation::{
    constants_of, law_constant_propagation_keeps_constant_assignments, ConstantPropagation,
};
pub use self::copy_propagation::{
    chain, copies_of, resolve_copies_of_copies, resolved, CopyPropagation,
};
pub use self::dead_code_elimination::{
    bit_vec_bits, critical, depends_on, kept, last_definition, live_marks, mark, node_views, sweep,
    DeadCodeElimination,
};

pub use self::optimizer::{
    all_set, dce_marks, full_rounds, lemma_live_marks_unique, level_passes, optimizer_outcome, pass_outcome, passes_outcome,
    rounds_outcome, Optimizer, Pass,
};

use crate::error::Error;
use crate::lir::Program;
use vstd::prelude::*;

verus! {

/// Whether an optimization changed the program.
#[derive(Debug, Clone, Copy, PartialEq, Eq, Structural)]
pub enum OptimizationResult {
    Changed,
    Unchanged,
}

/// An optimization of LIR programs.
pub trait Optimization {
    fn optimize(&self, program: &mut Program) -> Result<OptimizationResult, Error>;
}

} // verus!
