use crate::lir::{Variable, VariableView};
use vstd::prelude::*;

verus! {

/// A phi node of a block in static single assignment form: `out` takes the value of the
/// incoming variable of the predecessor block control came from.
#[derive(Debug, PartialEq, Eq)]
pub struct PhiNode {
    /// The variable the phi node defines.
    pub out: Variable,
    /// The incoming variables, each with the index of its predecessor block.
    pub incoming: Vec<(Variable, usize)>,
}

/// The mathematical value of a `PhiNode`.
pub struct PhiNodeView {
    pub out: VariableView,
    pub incoming: Seq<(VariableView, usize)>,
}

/// The views of incoming variables with their blocks.
pub open spec fn incoming_views(s: Seq<(Variable, usize)>) -> Seq<(VariableView, usize)> {
    Seq::new(s.len(), |i: int| (s[i].0@, s[i].1))
}

/// The views of a sequence of phi nodes.
pub open spec fn phi_node_views(s: Seq<PhiNode>) -> Seq<PhiNodeView> {
    Seq::new(s.len(), |i: int| s[i]@)
}

/// The variables a phi node reads: its incoming variables, in order.
pub open spec fn phi_read(p: PhiNodeView) -> Seq<VariableView> {
    Seq::new(p.incoming.len(), |i: int| p.incoming[i].0)
}

impl PhiNode {
    /// The mathematical value of the phi node.
    pub open spec fn view(&self) -> PhiNodeView {
        PhiNodeView { out: self.out@, incoming: incoming_views(self.incoming@) }
    }

    /// A phi node that defines `out` and has no incoming variables yet.
    pub fn new(out: Variable) -> (r: Self)
        ensures
            r@ == (PhiNodeView { out: out@, incoming: Seq::empty() }),
    {
        let r = PhiNode { out, incoming: Vec::new() };
        assert(r@.incoming =~= Seq::<(VariableView, usize)>::empty());
        r
    }

    /// Adds `var` as the incoming variable from block `block`.
    pub fn add_incoming(&mut self, var: Variable, block: usize)
        ensures
            final(self)@ == (PhiNodeView { incoming: old(self)@.incoming.push((var@, block)), ..old(self)@ }),
    {
        let ghost v = var@;
        self.incoming.push((var, block));
        assert(self@.incoming =~= old(self)@.incoming.push((v, block)));
    }

    /// The variable the phi node defines.
    pub fn out(&self) -> (r: &Variable)
        ensures
            r@ == self@.out,
    {
        &self.out
    }

    /// The incoming variables, in order.
    pub fn incoming_variables(&self) -> (r: Vec<&Variable>)
        ensures
            r@.len() == phi_read(self@).len(),
            forall|i: int| 0 <= i < r@.len() ==> (#[trigger] r@[i])@ == phi_read(self@)[i],
    {
        let mut r: Vec<&Variable> = Vec::new();
        let mut i: usize = 0;
        while i < self.incoming.len()
            invariant
                0 <= i <= self.incoming@.len(),
                r@.len() == i,
                forall|j: int| 0 <= j < i ==> (#[trigger] r@[j])@ == phi_read(self@)[j],
            decreases self.incoming@.len() - i,
        {
            r.push(&self.incoming[i].0);
            i += 1;
        }
        r
    }
}

impl Clone for PhiNode {
    fn clone(&self) -> (r: Self)
        ensures
            r@ == self@,
    {
        let mut incoming: Vec<(Variable, usize)> = Vec::new();
        let mut i: usize = 0;
        while i < self.incoming.len()
            invariant
                0 <= i <= self.incoming@.len(),
                incoming@.len() == i,
                forall|j: int| 0 <= j < i ==> (#[trigger] incoming@[j]).0@ == self.incoming@[j].0@ && incoming@[j].1 == self.incoming@[j].1,
            decreases self.incoming@.len() - i,
        {
            incoming.push((self.incoming[i].0.clone(), self.incoming[i].1));
            i += 1;
        }
        let r = PhiNode { out: self.out.clone(), incoming };
        assert(r@.incoming =~= self@.incoming);
        r
    }
}

impl PhiNode {
    /// Structural equality of phi nodes.
    pub fn equals(&self, other: &PhiNode) -> (r: bool)
        ensures
            r == (self@ == other@),
    {
        if !self.out.equals(&other.out) || self.incoming.len() != other.incoming.len() {
            proof {
                if self.incoming.len() != other.incoming.len() {
                    assert(self@.incoming.len() != other@.incoming.len());
                }
            }
            return false;
        }
        let mut i: usize = 0;
        while i < self.incoming.len()
            invariant
                0 <= i <= self.incoming@.len(),
                self.incoming@.len() == other.incoming@.len(),
                forall|j: int| 0 <= j < i ==> self@.incoming[j] == other@.incoming[j],
            decreases self.incoming@.len() - i,
        {
            if !self.incoming[i].0.equals(&other.incoming[i].0) || self.incoming[i].1 != other.incoming[i].1 {
                assert(self@.incoming[i as int] != other@.incoming[i as int]);
                return false;
            }
            i += 1;
        }
        assert(self@.incoming =~= other@.incoming);
        true
    }
}

} // verus!
