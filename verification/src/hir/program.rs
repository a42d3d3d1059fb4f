use crate::error::Error;
use crate::hir::{same_graph, ControlFlowGraph, GraphView};
use vstd::prelude::*;

verus! {

/// A function: its address, its name where known, and its control-flow graph.
#[derive(Debug)]
pub struct Function {
    pub address: u64,
    pub name: Option<String>,
    pub cfg: ControlFlowGraph,
}

/// The mathematical value of a `Function`.
pub struct FunctionView {
    pub address: u64,
    pub name: Option<Seq<char>>,
    pub cfg: GraphView,
}

/// The view of an optional name.
pub open spec fn name_view(name: Option<String>) -> Option<Seq<char>> {
    match name {
        Some(n) => Some(n@),
        None => None,
    }
}

impl Function {
    /// The mathematical value of the function.
    pub open spec fn view(&self) -> FunctionView {
        FunctionView { address: self.address, name: name_view(self.name), cfg: self.cfg@ }
    }

    /// A function at `address`, named `name`, with the graph `cfg`.
    pub fn new(address: u64, name: Option<String>, cfg: ControlFlowGraph) -> (r: Self)
        ensures
            r.address == address,
            r.name == name,
            r.cfg == cfg,
    {
        Function { address, name, cfg }
    }

    /// The address of the function.
    pub fn address(&self) -> (r: u64)
        ensures
            r == self.address,
    {
        self.address
    }

    /// The name of the function, where known.
    pub fn name(&self) -> (r: Option<&String>)
        ensures
            r == (match self.name {
                Some(n) => Some(&n),
                None => None::<&String>,
            }),
    {
        match &self.name {
            Some(n) => Some(n),
            None => None,
        }
    }

    /// The control-flow graph of the function.
    pub fn control_flow_graph(&self) -> (r: &ControlFlowGraph)
        ensures
            r == &self.cfg,
    {
        &self.cfg
    }
}

/// How the entry function of a program is named: by its name or by its address.
#[derive(Debug)]
pub enum ProgramEntry {
    Name(String),
    Address(u64),
}

/// The mathematical value of a `ProgramEntry`.
pub enum ProgramEntryView {
    Name(Seq<char>),
    Address(u64),
}

impl ProgramEntry {
    /// The mathematical value of the entry.
    pub open spec fn view(&self) -> ProgramEntryView {
        match self {
            ProgramEntry::Name(n) => ProgramEntryView::Name(n@),
            ProgramEntry::Address(a) => ProgramEntryView::Address(*a),
        }
    }
}

/// A program: functions at distinct addresses, and the entry function if one is set.
#[derive(Debug)]
pub struct Program {
    pub functions: Vec<Function>,
    pub entry: Option<ProgramEntry>,
}

/// The mathematical value of a `Program`.
pub struct ProgramView {
    pub functions: Seq<FunctionView>,
    pub entry: Option<ProgramEntryView>,
}

impl ProgramView {
    /// No two functions share an address, and every graph is well formed.
    pub open spec fn wf(self) -> bool {
        &&& forall|i: int, j: int|
            0 <= i < self.functions.len() && 0 <= j < self.functions.len() && i != j
                ==> (#[trigger] self.functions[i]).address != (#[trigger] self.functions[j]).address
        &&& forall|i: int| 0 <= i < self.functions.len() ==> (#[trigger] self.functions[i]).cfg.wf()
    }

    /// The position of the function at `address`, if there is one.
    pub open spec fn position_of_address(self, address: u64) -> Option<int> {
        if exists|i: int| 0 <= i < self.functions.len() && (#[trigger] self.functions[i]).address == address {
            Some(choose|i: int| 0 <= i < self.functions.len() && (#[trigger] self.functions[i]).address == address)
        } else {
            None
        }
    }

    /// Whether the function at position `i` is the first one named `name`.
    pub open spec fn first_named(self, name: Seq<char>, i: int) -> bool {
        &&& 0 <= i < self.functions.len()
        &&& self.functions[i].name == Some(name)
        &&& forall|j: int| 0 <= j < i ==> (#[trigger] self.functions[j]).name != Some(name)
    }

    /// The position of the first function named `name`, if there is one.
    pub open spec fn position_of_name(self, name: Seq<char>) -> Option<int> {
        if exists|i: int| self.first_named(name, i) {
            Some(choose|i: int| self.first_named(name, i))
        } else {
            None
        }
    }

    /// The position of the function that `entry` names, if there is one.
    pub open spec fn position_of_entry(self, entry: ProgramEntryView) -> Option<int> {
        match entry {
            ProgramEntryView::Name(n) => self.position_of_name(n),
            ProgramEntryView::Address(a) => self.position_of_address(a),
        }
    }

    /// The position of the entry function, if it is set and exists.
    pub open spec fn entry_position(self) -> Option<int> {
        match self.entry {
            Some(e) => self.position_of_entry(e),
            None => None,
        }
    }
}

/// A function added at a fresh address is the one found at that address afterwards.
pub proof fn law_inserted_function_is_found(p: ProgramView, f: FunctionView)
    requires
        p.wf(),
        p.position_of_address(f.address) is None,
    ensures
        (ProgramView { functions: p.functions.push(f), ..p }).position_of_address(f.address) == Some(
            p.functions.len() as int,
        ),
{
    let q = ProgramView { functions: p.functions.push(f), ..p };
    let n = p.functions.len() as int;
    assert(q.functions[n].address == f.address);
    let c = choose|i: int| 0 <= i < q.functions.len() && (#[trigger] q.functions[i]).address == f.address;
    if c != n {
        assert(p.functions[c].address == f.address);
    }
}

/// The program that inlining gives: one control-flow graph.
#[derive(Debug)]
pub struct InlinedProgram {
    pub cfg: ControlFlowGraph,
}

impl InlinedProgram {
    /// The inlined program with the graph `cfg`.
    pub fn new(cfg: ControlFlowGraph) -> (r: Self)
        ensures
            r.cfg == cfg,
    {
        InlinedProgram { cfg }
    }

    /// The control-flow graph of the inlined program.
    pub fn control_flow_graph(&self) -> (r: &ControlFlowGraph)
        ensures
            r == &self.cfg,
    {
        &self.cfg
    }
}

impl PartialEq for InlinedProgram {
    fn eq(&self, other: &Self) -> (r: bool) {
        self.cfg.equals(&other.cfg)
    }
}

impl vstd::std_specs::cmp::PartialEqSpecImpl for InlinedProgram {
    open spec fn obeys_eq_spec() -> bool {
        true
    }

    open spec fn eq_spec(&self, other: &Self) -> bool {
        same_graph(self.cfg@, other.cfg@)
    }
}

impl Program {
    /// The mathematical value of the program.
    pub open spec fn view(&self) -> ProgramView {
        ProgramView {
            functions: Seq::new(self.functions@.len(), |i: int| self.functions@[i]@),
            entry: match self.entry {
                Some(e) => Some(e@),
                None => None,
            },
        }
    }

    /// The program is well formed.
    pub open spec fn wf(&self) -> bool {
        self@.wf()
    }

    /// A program without functions and without an entry.
    pub fn new() -> (r: Self)
        ensures
            r.wf(),
            r@.functions.len() == 0,
            r@.entry is None,
    {
        Program { functions: Vec::new(), entry: None }
    }

    /// The position of the function at `address`.
    pub fn position_of_address(&self, address: u64) -> (r: Option<usize>)
        requires
            self.wf(),
        ensures
            match r {
                Some(i) => self@.position_of_address(address) == Some(i as int),
                None => self@.position_of_address(address) is None,
            },
    {
        let ghost p = self@;
        let mut i: usize = 0;
        while i < self.functions.len()
            invariant
                0 <= i <= self.functions@.len(),
                p == self@,
                p.wf(),
                forall|j: int| 0 <= j < i ==> (#[trigger] p.functions[j]).address != address,
            decreases self.functions@.len() - i,
        {
            if self.functions[i].address == address {
                proof {
                    assert(p.functions[i as int].address == address);
                    let c = choose|c: int| 0 <= c < p.functions.len() && (#[trigger] p.functions[c]).address == address;
                    if c != i {
                        assert(p.functions[c].address != p.functions[i as int].address);
                    }
                }
                return Some(i);
            }
            proof {
                assert(p.functions[i as int].address != address);
            }
            i += 1;
        }
        None
    }

    /// The function at `address`.
    pub fn function_by_address(&self, address: u64) -> (r: Option<&Function>)
        requires
            self.wf(),
        ensures
            match self@.position_of_address(address) {
                Some(i) => r is Some && r.unwrap()@ == self@.functions[i],
                None => r is None,
            },
    {
        match self.position_of_address(address) {
            Some(i) => Some(&self.functions[i]),
            None => None,
        }
    }

    /// The position of the first function named `name`.
    pub fn position_of_name(&self, name: &String) -> (r: Option<usize>)
        ensures
            match r {
                Some(i) => self@.position_of_name(name@) == Some(i as int),
                None => self@.position_of_name(name@) is None,
            },
    {
        let ghost p = self@;
        let mut i: usize = 0;
        while i < self.functions.len()
            invariant
                0 <= i <= self.functions@.len(),
                p == self@,
                forall|j: int| 0 <= j < i ==> (#[trigger] p.functions[j]).name != Some(name@),
            decreases self.functions@.len() - i,
        {
            let found = match &self.functions[i].name {
                Some(n) => *n == *name,
                None => false,
            };
            if found {
                proof {
                    assert(p.first_named(name@, i as int));
                    let c = choose|c: int| p.first_named(name@, c);
                    if c < i {
                        assert(p.functions[c].name != Some(name@));
                    }
                    if i < c {
                        assert(p.functions[i as int].name != Some(name@));
                    }
                }
                return Some(i);
            }
            proof {
                assert(p.functions[i as int].name != Some(name@));
            }
            i += 1;
        }
        None
    }

    /// The first function named `name`.
    pub fn function_by_name(&self, name: &String) -> (r: Option<&Function>)
        ensures
            match self@.position_of_name(name@) {
                Some(i) => r is Some && r.unwrap()@ == self@.functions[i],
                None => r is None,
            },
    {
        match self.position_of_name(name) {
            Some(i) => Some(&self.functions[i]),
            None => None,
        }
    }

    /// The position of the function that `entry` names.
    fn position_of_entry(&self, entry: &ProgramEntry) -> (r: Option<usize>)
        requires
            self.wf(),
        ensures
            match r {
                Some(i) => self@.position_of_entry(entry@) == Some(i as int),
                None => self@.position_of_entry(entry@) is None,
            },
    {
        match entry {
            ProgramEntry::Name(n) => self.position_of_name(n),
            ProgramEntry::Address(a) => self.position_of_address(*a),
        }
    }

    /// The entry function, if it is set and exists.
    pub fn entry_function(&self) -> (r: Option<&Function>)
        requires
            self.wf(),
        ensures
            match self@.entry_position() {
                Some(i) => r is Some && r.unwrap()@ == self@.functions[i],
                None => r is None,
            },
    {
        match &self.entry {
            Some(e) => match self.position_of_entry(e) {
                Some(i) => Some(&self.functions[i]),
                None => None,
            },
            None => None,
        }
    }

    /// Adds `function`; fails if a function at its address exists already.
    pub fn insert_function(&mut self, function: Function) -> (r: Result<(), Error>)
        requires
            old(self).wf(),
            function.cfg.wf(),
        ensures
            final(self).wf(),
            r is Ok <==> old(self)@.position_of_address(function.address) is None,
            r is Ok ==> final(self)@ == (ProgramView { functions: old(self)@.functions.push(function@), ..old(self)@ }),
            r is Err ==> final(self)@ == old(self)@ && r == Err::<(), Error>(Error::FunctionExists(function.address)),
    {
        if self.position_of_address(function.address).is_some() {
            return Err(Error::FunctionExists(function.address));
        }
        let ghost p = self@;
        let ghost fv = function@;
        self.functions.push(function);
        proof {
            assert(self@.functions =~= p.functions.push(fv));
            assert forall|i: int| 0 <= i < p.functions.len() implies (#[trigger] p.functions[i]).address != fv.address by {
                if p.functions[i].address == fv.address {
                    assert(p.position_of_address(fv.address) is Some);
                }
            }
        }
        Ok(())
    }

    /// Sets the entry; fails, leaving the program as it is, if no function fits it.
    pub fn set_entry(&mut self, entry: ProgramEntry) -> (r: Result<(), Error>)
        requires
            old(self).wf(),
        ensures
            final(self).wf(),
            r is Ok <==> old(self)@.position_of_entry(entry@) is Some,
            r is Ok ==> final(self)@ == (ProgramView { entry: Some(entry@), ..old(self)@ }),
            r is Err ==> final(self)@ == old(self)@ && r == Err::<(), Error>(Error::NoEntryFunction),
    {
        if self.position_of_entry(&entry).is_none() {
            return Err(Error::NoEntryFunction);
        }
        let ghost p = self@;
        self.entry = Some(entry);
        proof {
            assert(self@.functions =~= p.functions);
        }
        Ok(())
    }
}

} // verus!
