use crate::ir::Sort;
use vstd::prelude::*;

verus! {

/// A named variable of the structured representation.
#[derive(Debug)]
pub struct Variable {
    pub name: String,
    pub sort: Sort,
}

impl Variable {
    /// Create a new `Variable` with the given name and sort.
    pub fn new(name: &str, sort: Sort) -> (r: Self)
        ensures
            r.name@ == name@,
            r.sort == sort,
    {
        let owned = name.to_string();
        proof {
            vstd::string::to_string_from_display_ensures_for_str(name, owned);
        }
        Variable { name: owned, sort }
    }

    /// Gets the name of the `Variable`.
    pub fn name(&self) -> (r: &str)
        ensures
            r@ == self.name@,
    {
        self.name.as_str()
    }

    /// Gets the sort of the `Variable`.
    pub fn sort(&self) -> (r: &Sort)
        ensures
            *r == self.sort,
    {
        &self.sort
    }
}

} // verus!
