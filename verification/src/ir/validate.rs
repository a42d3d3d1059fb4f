use crate::error::Error;
use vstd::prelude::*;

verus! {

/// Validation of a program.
pub trait Validate {
    fn validate(&self) -> Result<(), Error>;
}

} // verus!
