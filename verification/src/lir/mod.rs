//! Low-Level Intermediate Representation (LIR)
//!
//! This intermediate representation is very simple and close to SMT.
//! It only consists of variable bindings, assertions and assumptions,
//! which makes the SMT encoding of LIR relatively easy and efficient.
//! It also holds the expression language shared by all representations.

mod array;
mod bit_vector;
mod boolean;
mod constant;
mod expression;
mod memory;
mod micro;
mod node;
pub mod optimization;
mod program;
mod validate;
mod variable_map;
mod sort;
mod substitution;
pub mod transformation;
mod variable;

pub use self::array::Array;
pub use self::bit_vector::{bit_vector_view, is_comparison, BitVector};
pub use self::boolean::{boolean_view, Boolean};
pub use self::constant::{BitVectorValue, Constant};
pub use self::expression::{
    constant_view, variable_view, variables_of, variables_of_all, views, Expression, ExpressionView,
    Operator, OperatorView,
};
pub use self::memory::Memory;
pub use self::micro::{
    component_view, BranchTargetBuffer, Cache, PatternHistoryTable, Predictor, SPECULATION_WINDOW_SIZE,
};
pub use self::sort::{Sort, WORD_SIZE};
pub use self::variable::{Variable, VariableView};
pub use self::node::{node_defined, node_expressions, node_used, Node, NodeView};
pub use self::program::{
    expression_views, program_defined, program_expressions, program_used, variable_views, Program,
};
pub use self::validate::{
    defined_before, redefines, uses_undefined, valid_program, validate_program, validation_outcome,
};
pub use self::variable_map::{
    constant_key_views, copy_key_views, distinct_keys, ConstantVariables, CopiedVariables};
pub use self::substitution::{
    lemma_concat_contains, lemma_rename_variables, lemma_rename_variables_all, lemma_substitute_unbound,
    lemma_variables_of_all, node_rename, node_substitute, rename, renamed_variable, substitute,
};
