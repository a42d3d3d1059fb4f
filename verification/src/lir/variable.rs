use crate::lir::Sort;
use vstd::prelude::*;

verus! {

/// A named variable of a given sort.
///
/// A rollback-persistent variable models state that speculative execution does
/// not roll back (e.g. microarchitectural components). A variable in static single
/// assignment form carries a version.
#[derive(Debug, PartialEq, Eq)]
pub struct Variable {
    pub name: String,
    pub sort: Sort,
    pub rollback_persistent: bool,
    pub version: Option<usize>,
}

/// The mathematical value of a `Variable`.
pub struct VariableView {
    pub name: Seq<char>,
    pub sort: Sort,
    pub rollback_persistent: bool,
    pub version: Option<usize>,
}

impl View for Variable {
    type V = VariableView;

    open spec fn view(&self) -> VariableView {
        VariableView {
            name: self.name@,
            sort: self.sort,
            rollback_persistent: self.rollback_persistent,
            version: self.version,
        }
    }
}

impl Clone for Variable {
    fn clone(&self) -> (r: Self)
        ensures
            r@ == self@,
    {
        Variable {
            name: self.name.clone(),
            sort: self.sort.clone(),
            rollback_persistent: self.rollback_persistent,
            version: self.version,
        }
    }
}

impl Variable {
    /// Create a new `Variable` with the given name and sort.
    pub fn new(name: &str, sort: Sort) -> (r: Self)
        ensures
            r@ == (VariableView { name: name@, sort: sort, rollback_persistent: false, version: None }),
    {
        let owned = name.to_string();
        proof {
            vstd::string::to_string_from_display_ensures_for_str(name, owned);
        }
        Variable { name: owned, sort, rollback_persistent: false, version: None }
    }

    /// Create a new `Variable` from an owned name.
    pub fn from_string(name: String, sort: Sort) -> (r: Self)
        ensures
            r@ == (VariableView { name: name@, sort: sort, rollback_persistent: false, version: None }),
    {
        Variable { name, sort, rollback_persistent: false, version: None }
    }

    /// Gets the name of the `Variable`.
    pub fn name(&self) -> (r: &str)
        ensures
            r@ == self.name@,
    {
        self.name.as_str()
    }

    /// Gets the sort of the `Variable`.
    pub fn sort(&self) -> (r: &Sort)
        ensures
            *r == self.sort,
    {
        &self.sort
    }

    /// Whether the variable survives a rollback of speculative execution.
    pub fn is_rollback_persistent(&self) -> (r: bool)
        ensures
            r == self.rollback_persistent,
    {
        self.rollback_persistent
    }

    /// Marks the variable as rollback persistent.
    pub fn set_rollback_persistent(&mut self)
        ensures
            final(self)@ == (VariableView { rollback_persistent: true, ..old(self)@ }),
    {
        self.rollback_persistent = true;
    }

    /// The version of the variable, if it has one.
    pub fn version(&self) -> (r: Option<usize>)
        ensures
            r == self.version,
    {
        self.version
    }

    /// Sets the version of the variable.
    pub fn set_version(&mut self, version: Option<usize>)
        ensures
            final(self)@ == (VariableView { version: version, ..old(self)@ }),
    {
        self.version = version;
    }

    /// Equality of variables (name, sort, rollback persistence and version).
    pub fn equals(&self, other: &Variable) -> (r: bool)
        ensures
            r == (self@ == other@),
    {
        self.name == other.name && self.sort.equals(&other.sort)
            && self.rollback_persistent == other.rollback_persistent && self.version == other.version
    }
}

} // verus!
