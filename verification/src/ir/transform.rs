use crate::error::Error;
use vstd::prelude::*;

verus! {

/// A transformation of programs of type `T`.
pub trait Transform<T> {
    /// Name of the transformation.
    fn name(&self) -> &'static str;

    /// Concise description of the transformation.
    fn description(&self) -> &'static str;

    /// Applies the transformation to `program`.
    fn transform(&self, program: &mut T) -> Result<(), Error>;
}

} // verus!
