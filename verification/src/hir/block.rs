use crate::error::Error;
use crate::hir::{phi_node_views, Instruction, InstructionView, PhiNode, PhiNodeView};
use vstd::prelude::*;

verus! {

/// A basic block: phi nodes followed by a sequence of instructions.
#[derive(Debug, PartialEq, Eq)]
pub struct Block {
    /// The index of this block.
    pub index: usize,
    /// The phi nodes at the entry of this block.
    pub phi_nodes: Vec<PhiNode>,
    /// The instructions of this block.
    pub instructions: Vec<Instruction>,
    /// Whether the block is executed transiently (speculatively) only.
    pub transient: bool,
}

/// The mathematical value of a `Block`.
pub struct BlockView {
    pub index: usize,
    pub phi_nodes: Seq<PhiNodeView>,
    pub instructions: Seq<InstructionView>,
    pub transient: bool,
}

/// The views of a sequence of instructions.
pub open spec fn instruction_views(s: Seq<Instruction>) -> Seq<InstructionView> {
    Seq::new(s.len(), |i: int| s[i]@)
}

/// The number of instructions that are no pseudo instructions.
pub open spec fn real_instruction_count(s: Seq<InstructionView>) -> nat
    decreases s.len(),
{
    if s.len() == 0 {
        0
    } else {
        real_instruction_count(s.drop_last()) + if s.last().pseudo {
            0nat
        } else {
            1nat
        }
    }
}

/// Removing an instruction undoes inserting it: inserting `x` at `k` and then removing the
/// instruction at `k` gives back `x` and the instructions as they were.
pub proof fn law_remove_undoes_insert(insts: Seq<InstructionView>, k: int, x: InstructionView)
    requires
        0 <= k <= insts.len(),
    ensures
        insts.insert(k, x)[k] == x,
        insts.insert(k, x).remove(k) == insts,
{
    assert(insts.insert(k, x).remove(k) =~= insts);
}

impl Block {
    /// The mathematical value of the block.
    pub open spec fn view(&self) -> BlockView {
        BlockView {
            index: self.index,
            phi_nodes: phi_node_views(self.phi_nodes@),
            instructions: instruction_views(self.instructions@),
            transient: self.transient,
        }
    }
}

impl Clone for Block {
    fn clone(&self) -> (r: Self)
        ensures
            r@ == self@,
    {
        let mut instructions: Vec<Instruction> = Vec::new();
        let mut i: usize = 0;
        while i < self.instructions.len()
            invariant
                0 <= i <= self.instructions@.len(),
                instructions@.len() == i,
                forall|j: int| 0 <= j < i ==> (#[trigger] instructions@[j])@ == self.instructions@[j]@,
            decreases self.instructions@.len() - i,
        {
            instructions.push(self.instructions[i].clone());
            i += 1;
        }
        let phi_nodes = self.clone_phi_nodes();
        let r = Block { index: self.index, phi_nodes, instructions, transient: self.transient };
        assert(r@.instructions =~= self@.instructions);
        assert(r@.phi_nodes =~= self@.phi_nodes);
        r
    }
}

impl Block {
    /// Copies of the phi nodes.
    pub fn clone_phi_nodes(&self) -> (r: Vec<PhiNode>)
        ensures
            phi_node_views(r@) == self@.phi_nodes,
    {
        let mut phi_nodes: Vec<PhiNode> = Vec::new();
        let mut k: usize = 0;
        while k < self.phi_nodes.len()
            invariant
                0 <= k <= self.phi_nodes@.len(),
                phi_nodes@.len() == k,
                forall|j: int| 0 <= j < k ==> (#[trigger] phi_nodes@[j])@ == self.phi_nodes@[j]@,
            decreases self.phi_nodes@.len() - k,
        {
            phi_nodes.push(self.phi_nodes[k].clone());
            k += 1;
        }
        assert(phi_node_views(phi_nodes@) =~= self@.phi_nodes);
        phi_nodes
    }

    /// An empty block with the given index.
    pub fn new(index: usize) -> (r: Self)
        ensures
            r@ == (BlockView { index, phi_nodes: Seq::empty(), instructions: Seq::empty(), transient: false }),
    {
        let r = Block { index, phi_nodes: Vec::new(), instructions: Vec::new(), transient: false };
        assert(r@.instructions =~= Seq::<InstructionView>::empty());
        assert(r@.phi_nodes =~= Seq::<PhiNodeView>::empty());
        r
    }

    pub fn phi_nodes(&self) -> (r: &[PhiNode])
        ensures
            r@ == self.phi_nodes@,
    {
        self.phi_nodes.as_slice()
    }

    /// The phi node at `index`, if any.
    pub fn phi_node(&self, index: usize) -> (r: Option<&PhiNode>)
        ensures
            index < self.phi_nodes@.len() ==> r == Some(&self.phi_nodes@[index as int]),
            index >= self.phi_nodes@.len() ==> r is None,
    {
        if index < self.phi_nodes.len() {
            Some(&self.phi_nodes[index])
        } else {
            None
        }
    }

    /// Appends a phi node.
    pub fn add_phi_node(&mut self, phi_node: PhiNode)
        ensures
            final(self)@ == (BlockView { phi_nodes: old(self)@.phi_nodes.push(phi_node@), ..old(self)@ }),
    {
        self.phi_nodes.push(phi_node);
        assert(self@.phi_nodes =~= old(self)@.phi_nodes.push(phi_node@));
    }

    /// Removes the phi node at `index`.
    pub fn remove_phi_node(&mut self, index: usize) -> (r: Result<PhiNode, Error>)
        ensures
            r is Ok <==> index < old(self)@.phi_nodes.len(),
            r is Ok ==> r.unwrap()@ == old(self)@.phi_nodes[index as int] && final(self)@ == (
            BlockView { phi_nodes: old(self)@.phi_nodes.remove(index as int), ..old(self)@ }),
            r is Err ==> final(self)@ == old(self)@ && r == Err::<PhiNode, Error>(
                Error::PhiNodeIndexOutOfBounds { block: old(self).index, index },
            ),
    {
        if index >= self.phi_nodes.len() {
            return Err(Error::PhiNodeIndexOutOfBounds { block: self.index, index });
        }
        let phi = self.phi_nodes.remove(index);
        assert(self@.phi_nodes =~= old(self)@.phi_nodes.remove(index as int));
        Ok(phi)
    }

    pub fn index(&self) -> (r: usize)
        ensures
            r == self.index,
    {
        self.index
    }

    pub fn instructions(&self) -> (r: &[Instruction])
        ensures
            r@ == self.instructions@,
    {
        self.instructions.as_slice()
    }

    /// The instruction at `index`, if any.
    pub fn instruction(&self, index: usize) -> (r: Option<&Instruction>)
        ensures
            index < self.instructions@.len() ==> r == Some(&self.instructions@[index as int]),
            index >= self.instructions@.len() ==> r is None,
    {
        if index < self.instructions.len() {
            Some(&self.instructions[index])
        } else {
            None
        }
    }

    /// Appends an instruction.
    pub fn add_instruction(&mut self, instruction: Instruction)
        ensures
            final(self)@ == (BlockView {
                instructions: old(self)@.instructions.push(instruction@),
                ..old(self)@
            }),
    {
        self.instructions.push(instruction);
        assert(self@.instructions =~= old(self)@.instructions.push(instruction@));
    }

    /// Inserts an instruction before the instruction at `index` (at the end for the length).
    pub fn insert_instruction(&mut self, index: usize, instruction: Instruction) -> (r: Result<(), Error>)
        ensures
            r is Ok <==> index <= old(self)@.instructions.len(),
            r is Ok ==> final(self)@ == (BlockView {
                instructions: old(self)@.instructions.insert(index as int, instruction@),
                ..old(self)@
            }),
            r is Err ==> final(self)@ == old(self)@ && r == Err::<(), Error>(
                Error::InstructionIndexOutOfBounds { block: old(self).index, index },
            ),
    {
        if index > self.instructions.len() {
            return Err(Error::InstructionIndexOutOfBounds { block: self.index, index });
        }
        self.instructions.insert(index, instruction);
        assert(self@.instructions =~= old(self)@.instructions.insert(index as int, instruction@));
        Ok(())
    }

    /// Removes the instruction at `index`.
    pub fn remove_instruction(&mut self, index: usize) -> (r: Result<Instruction, Error>)
        ensures
            r is Ok <==> index < old(self)@.instructions.len(),
            r is Ok ==> r.unwrap()@ == old(self)@.instructions[index as int] && final(self)@ == (
            BlockView { instructions: old(self)@.instructions.remove(index as int), ..old(self)@ }),
            r is Err ==> final(self)@ == old(self)@ && r == Err::<Instruction, Error>(
                Error::InstructionIndexOutOfBounds { block: old(self).index, index },
            ),
    {
        if index >= self.instructions.len() {
            return Err(Error::InstructionIndexOutOfBounds { block: self.index, index });
        }
        let inst = self.instructions.remove(index);
        assert(self@.instructions =~= old(self)@.instructions.remove(index as int));
        Ok(inst)
    }

    pub fn is_transient(&self) -> (r: bool)
        ensures
            r == self.transient,
    {
        self.transient
    }

    /// Marks the block as transient.
    pub fn set_transient(&mut self)
        ensures
            final(self)@ == (BlockView { transient: true, ..old(self)@ }),
    {
        self.transient = true;
        assert(self@.instructions =~= old(self)@.instructions);
    }

    /// The number of instructions which are no pseudo instructions.
    pub fn instruction_count_ignoring_pseudo_instructions(&self) -> (r: usize)
        ensures
            r == real_instruction_count(self@.instructions),
    {
        let mut count: usize = 0;
        let mut i: usize = 0;
        while i < self.instructions.len()
            invariant
                0 <= i <= self.instructions@.len(),
                count == real_instruction_count(self@.instructions.take(i as int)),
                count <= i,
            decreases self.instructions@.len() - i,
        {
            proof {
                assert(self@.instructions.take(i + 1).drop_last() =~= self@.instructions.take(i as int));
            }
            if !self.instructions[i].pseudo {
                count += 1;
            }
            i += 1;
        }
        assert(self@.instructions.take(self@.instructions.len() as int) =~= self@.instructions);
        count
    }
}

} // verus!
