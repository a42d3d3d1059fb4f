//! Bounded model checking of speculative non-interference: the verified core.
//!
//! `lir` holds the expression language and the low-level node programs,
//! `hir` the control-flow graphs and their transient-execution encoding,
//! `ir` the structured intermediate representation.

pub mod error;
pub mod ir;
pub mod lir;
pub mod hir;
