//! Transformations of LIR programs.

mod lower_to_smt;

pub use self::lower_to_smt::{lowered, lowered_each, lowered_top, node_lowered, one_view, zero_view, LowerToSMT};
