//! Structural equality of HIR values.
use crate::hir::{Block, Edge, Effect, Instruction, Operation};
use vstd::prelude::*;

verus! {

impl Effect {
    pub fn equals(&self, other: &Effect) -> (r: bool)
        ensures
            r == (self@ == other@),
        decreases self,
    {
        match (self, other) {
            (Effect::Conditional { condition: c1, effect: e1 }, Effect::Conditional { condition: c2, effect: e2 }) => {
                c1.equals(c2) && (**e1).equals(&**e2)
            },
            (Effect::CacheFetch { address: a1, bit_width: w1 }, Effect::CacheFetch { address: a2, bit_width: w2 }) => {
                a1.equals(a2) && *w1 == *w2
            },
            (Effect::BranchTarget { location: l1, target: t1 }, Effect::BranchTarget { location: l2, target: t2 }) => {
                l1.equals(l2) && t1.equals(t2)
            },
            (
                Effect::BranchCondition { location: l1, condition: c1 },
                Effect::BranchCondition { location: l2, condition: c2 },
            ) => l1.equals(l2) && c1.equals(c2),
            _ => false,
        }
    }
}

impl Operation {
    pub fn equals(&self, other: &Operation) -> (r: bool)
        ensures
            r == (self@ == other@),
    {
        match (self, other) {
            (Operation::Assign { variable: v1, expr: e1 }, Operation::Assign { variable: v2, expr: e2 }) => {
                v1.equals(v2) && e1.equals(e2)
            },
            (Operation::Store { address: a1, expr: e1 }, Operation::Store { address: a2, expr: e2 }) => {
                a1.equals(a2) && e1.equals(e2)
            },
            (Operation::Load { variable: v1, address: a1 }, Operation::Load { variable: v2, address: a2 }) => {
                v1.equals(v2) && a1.equals(a2)
            },
            (Operation::Call { target: t1 }, Operation::Call { target: t2 }) => t1.equals(t2),
            (Operation::Branch { target: t1 }, Operation::Branch { target: t2 }) => t1.equals(t2),
            (
                Operation::ConditionalBranch { condition: c1, target: t1 },
                Operation::ConditionalBranch { condition: c2, target: t2 },
            ) => c1.equals(c2) && t1.equals(t2),
            (Operation::Observable { expr: e1 }, Operation::Observable { expr: e2 }) => e1.equals(e2),
            (Operation::Indistinguishable { expr: e1 }, Operation::Indistinguishable { expr: e2 }) => e1.equals(e2),
            (Operation::Assert { condition: c1 }, Operation::Assert { condition: c2 }) => c1.equals(c2),
            (Operation::Assume { condition: c1 }, Operation::Assume { condition: c2 }) => c1.equals(c2),
            (Operation::Skip, Operation::Skip) => true,
            (Operation::Barrier, Operation::Barrier) => true,
            _ => false,
        }
    }
}

impl Instruction {
    pub fn equals(&self, other: &Instruction) -> (r: bool)
        ensures
            r == (self@ == other@),
    {
        if !self.operation.equals(&other.operation) || self.address != other.address
            || self.pseudo != other.pseudo || self.effects.len() != other.effects.len() {
            proof {
                if self.effects.len() != other.effects.len() {
                    assert(self@.effects.len() != other@.effects.len());
                }
            }
            return false;
        }
        let mut i: usize = 0;
        while i < self.effects.len()
            invariant
                0 <= i <= self.effects@.len(),
                self.effects@.len() == other.effects@.len(),
                forall|j: int| 0 <= j < i ==> self.effects@[j]@ == other.effects@[j]@,
            decreases self.effects@.len() - i,
        {
            if !self.effects[i].equals(&other.effects[i]) {
                assert(self@.effects[i as int] != other@.effects[i as int]);
                return false;
            }
            i += 1;
        }
        assert(self@.effects =~= other@.effects);
        true
    }
}

impl Block {
    pub fn equals(&self, other: &Block) -> (r: bool)
        ensures
            r == (self@ == other@),
    {
        if self.index != other.index || self.transient != other.transient
            || self.instructions.len() != other.instructions.len() {
            proof {
                if self.instructions.len() != other.instructions.len() {
                    assert(self@.instructions.len() != other@.instructions.len());
                }
            }
            return false;
        }
        let mut i: usize = 0;
        while i < self.instructions.len()
            invariant
                0 <= i <= self.instructions@.len(),
                self.instructions@.len() == other.instructions@.len(),
                forall|j: int| 0 <= j < i ==> self.instructions@[j]@ == other.instructions@[j]@,
            decreases self.instructions@.len() - i,
        {
            if !self.instructions[i].equals(&other.instructions[i]) {
                assert(self@.instructions[i as int] != other@.instructions[i as int]);
                return false;
            }
            i += 1;
        }
        assert(self@.instructions =~= other@.instructions);
        if self.phi_nodes.len() != other.phi_nodes.len() {
            assert(self@.phi_nodes.len() != other@.phi_nodes.len());
            return false;
        }
        let mut k: usize = 0;
        while k < self.phi_nodes.len()
            invariant
                0 <= k <= self.phi_nodes@.len(),
                self.phi_nodes@.len() == other.phi_nodes@.len(),
                self@.instructions == other@.instructions,
                self.index == other.index,
                self.transient == other.transient,
                forall|j: int| 0 <= j < k ==> self.phi_nodes@[j]@ == other.phi_nodes@[j]@,
            decreases self.phi_nodes@.len() - k,
        {
            if !self.phi_nodes[k].equals(&other.phi_nodes[k]) {
                assert(self@.phi_nodes[k as int] != other@.phi_nodes[k as int]);
                return false;
            }
            k += 1;
        }
        assert(self@.phi_nodes =~= other@.phi_nodes);
        true
    }
}

impl Edge {
    pub fn equals(&self, other: &Edge) -> (r: bool)
        ensures
            r == (self@ == other@),
    {
        let same_condition = match (&self.condition, &other.condition) {
            (Some(a), Some(b)) => a.equals(b),
            (None, None) => true,
            _ => false,
        };
        self.head == other.head && self.tail == other.tail && same_condition && self.labels == other.labels
    }
}

} // verus!
