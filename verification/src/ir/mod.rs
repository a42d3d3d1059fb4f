//! The structured intermediate representation and the traits shared by all representations.

mod block;
mod boolean;
mod constant;
mod expression;
mod operation;
mod sort;
mod transform;
mod translate;
mod validate;
mod variable;

pub use self::block::Block;
pub use self::boolean::{true_expression, Boolean};
pub use self::constant::{constant_sort, Constant};
pub use self::expression::{narrower, sort_of, wider, Expression};
pub use self::operation::{Node, Operation};
pub use self::sort::Sort;
pub use self::transform::Transform;
pub use self::translate::{TryTranslateFrom, TryTranslateInto};
pub use self::validate::Validate;
pub use self::variable::Variable;
