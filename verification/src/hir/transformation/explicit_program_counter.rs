//! The explicit program counter: before each branch the next program counter is assigned to
//! the variable `_pc`, and before each memory access its address to `_address`.
use crate::error::Error;
use crate::hir::transformation::{
    address_or_zero, first_failure, ite_view, lemma_first_failure, lemma_prefixed_step, location_view, prefixed,
    pseudo,
};
use crate::hir::{Block, BlockView, Instruction, InstructionView, Operation, OperationView};
use crate::ir::Transform;
use crate::lir::{component_view, BitVector, Expression, Sort, Variable, VariableView, WORD_SIZE};
use vstd::prelude::*;

verus! {

/// Makes the program counter and the addresses of memory accesses explicit.
#[derive(Clone, Copy, Debug, PartialEq, Eq, Structural)]
pub struct ExplicitProgramCounter {
    pub observe_program_counter: bool,
    pub observe_memory_loads: bool,
}

/// The view of the variable that holds the address of the last memory access.
pub open spec fn address_variable_view() -> VariableView {
    component_view("_address"@, Sort::BitVector(WORD_SIZE))
}

/// The view of the variable that holds the program counter.
pub open spec fn pc_variable_view() -> VariableView {
    component_view("_pc"@, Sort::BitVector(WORD_SIZE))
}

/// The assignment placed before instruction `i`, if any: the address of a memory access to
/// `_address`, the target of a branch to `_pc`, and for a conditional branch its target if the
/// condition holds and the address 8 bytes on otherwise.
pub open spec fn explicit_pc_assignment(m: ExplicitProgramCounter, i: InstructionView) -> Option<InstructionView> {
    match i.operation {
        OperationView::Load { address, .. } => if m.observe_memory_loads {
            Some(pseudo(OperationView::Assign { variable: address_variable_view(), expr: address }))
        } else {
            None
        },
        OperationView::Store { address, .. } => if m.observe_memory_loads {
            Some(pseudo(OperationView::Assign { variable: address_variable_view(), expr: address }))
        } else {
            None
        },
        OperationView::Branch { target } => if m.observe_program_counter {
            Some(pseudo(OperationView::Assign { variable: pc_variable_view(), expr: target }))
        } else {
            None
        },
        OperationView::ConditionalBranch { condition, target } => if m.observe_program_counter {
            Some(
                pseudo(
                    OperationView::Assign {
                        variable: pc_variable_view(),
                        expr: ite_view(condition, target, location_view((address_or_zero(i.address) + 8) as u64)),
                    },
                ),
            )
        } else {
            None
        },
        _ => None,
    }
}

/// The instructions placed before `i`.
pub open spec fn explicit_pc_prefix(m: ExplicitProgramCounter, i: InstructionView) -> Seq<InstructionView> {
    match explicit_pc_assignment(m, i) {
        Some(a) => seq![a],
        None => Seq::empty(),
    }
}

/// Whether the assignment for `i` can be built: addresses and targets are machine words, the
/// condition of a conditional branch is boolean and the address 8 bytes on exists.
pub open spec fn explicit_pc_defined(m: ExplicitProgramCounter, i: InstructionView) -> bool {
    match i.operation {
        OperationView::Load { address, .. } => m.observe_memory_loads ==> address.sort == Sort::BitVector(WORD_SIZE),
        OperationView::Store { address, .. } => m.observe_memory_loads ==> address.sort == Sort::BitVector(WORD_SIZE),
        OperationView::Branch { target } => m.observe_program_counter ==> target.sort == Sort::BitVector(WORD_SIZE),
        OperationView::ConditionalBranch { condition, target } => m.observe_program_counter ==> (address_or_zero(
            i.address,
        ) + 8 <= u64::MAX && condition.sort is Bool && target.sort == Sort::BitVector(WORD_SIZE)),
        _ => true,
    }
}

/// The error for an instruction whose assignment cannot be built.
pub open spec fn explicit_pc_error(i: InstructionView) -> Error {
    match i.operation {
        OperationView::Load { address, .. } => Error::ExpectedSort {
            expected: Sort::BitVector(WORD_SIZE),
            actual: address.sort,
        },
        OperationView::Store { address, .. } => Error::ExpectedSort {
            expected: Sort::BitVector(WORD_SIZE),
            actual: address.sort,
        },
        OperationView::Branch { target } => Error::ExpectedSort {
            expected: Sort::BitVector(WORD_SIZE),
            actual: target.sort,
        },
        OperationView::ConditionalBranch { condition, target } => if address_or_zero(i.address) + 8 > u64::MAX {
            Error::IndexOverflow
        } else if !(condition.sort is Bool) {
            Error::ExpectedBool(condition.sort)
        } else {
            Error::ExpectedSort { expected: Sort::BitVector(WORD_SIZE), actual: target.sort }
        },
        _ => Error::IndexOverflow,
    }
}

/// `explicit_pc_prefix` for `m`.
pub open spec fn explicit_pc_prefixes(m: ExplicitProgramCounter) -> spec_fn(InstructionView) -> Seq<InstructionView> {
    |i: InstructionView| explicit_pc_prefix(m, i)
}

/// `explicit_pc_defined` for `m`.
pub open spec fn explicit_pc_checks(m: ExplicitProgramCounter) -> spec_fn(InstructionView) -> bool {
    |i: InstructionView| explicit_pc_defined(m, i)
}

impl ExplicitProgramCounter {
    /// The variable that holds the address of the last memory access.
    pub fn address_variable() -> (r: Variable)
        ensures
            r@ == address_variable_view(),
    {
        proof {
            reveal_strlit("_address");
        }
        let mut var = BitVector::word_variable("_address");
        var.set_rollback_persistent();
        var
    }

    /// The variable that holds the program counter.
    pub fn pc_variable() -> (r: Variable)
        ensures
            r@ == pc_variable_view(),
    {
        proof {
            reveal_strlit("_pc");
        }
        let mut var = BitVector::word_variable("_pc");
        var.set_rollback_persistent();
        var
    }

    /// The assignment placed before `inst`, if any.
    fn assignment(&self, inst: &Instruction) -> (r: Result<Option<Instruction>, Error>)
        ensures
            r is Ok <==> explicit_pc_defined(*self, inst@),
            r is Err ==> r == Err::<Option<Instruction>, Error>(explicit_pc_error(inst@)),
            r matches Ok(o) ==> (match explicit_pc_assignment(*self, inst@) {
                Some(a) => o matches Some(x) && x@ == a,
                None => o is None,
            }),
    {
        let a = match &inst.operation {
            Operation::Load { address, .. } | Operation::Store { address, .. } => {
                if self.observe_memory_loads {
                    Some(Instruction::assign(Self::address_variable(), address.clone())?)
                } else {
                    None
                }
            },
            Operation::Branch { target } => {
                if self.observe_program_counter {
                    Some(Instruction::assign(Self::pc_variable(), target.clone())?)
                } else {
                    None
                }
            },
            Operation::ConditionalBranch { condition, target } => {
                if self.observe_program_counter {
                    let address = match inst.address {
                        Some(a) => a,
                        None => 0,
                    };
                    if address > u64::MAX - 8 {
                        return Err(Error::IndexOverflow);
                    }
                    let next = BitVector::word_constant(address + 8);
                    let pc = Expression::ite(condition.clone(), target.clone(), next)?;
                    Some(Instruction::assign(Self::pc_variable(), pc)?)
                } else {
                    None
                }
            },
            _ => None,
        };
        match a {
            Some(a) => Ok(Some(a.into_pseudo())),
            None => Ok(None),
        }
    }
}

impl Transform<Block> for ExplicitProgramCounter {
    fn name(&self) -> (r: &'static str)
        ensures
            r@ == "ExplicitProgramCounter"@,
    {
        "ExplicitProgramCounter"
    }

    fn description(&self) -> (r: &'static str)
        ensures
            r@ == "Add explicit program counter"@,
    {
        "Add explicit program counter"
    }

    /// Places before each instruction of `block` its assignment to `_pc` or `_address`, if
    /// any; fails with the error of the first instruction whose assignment cannot be built, and
    /// leaves the block unchanged then.
    fn transform(&self, block: &mut Block) -> (r: Result<(), Error>)
        ensures
            r is Ok <==> (forall|k: int|
                0 <= k < old(block)@.instructions.len() ==> explicit_pc_defined(
                    *self,
                    #[trigger] old(block)@.instructions[k],
                )),
            r is Ok ==> final(block)@ == (BlockView {
                instructions: prefixed(old(block)@.instructions, explicit_pc_prefixes(*self)),
                ..old(block)@
            }),
            r is Err ==> final(block)@ == old(block)@ && r == Err::<(), Error>(
                explicit_pc_error(
                    old(block)@.instructions[first_failure(old(block)@.instructions, explicit_pc_checks(*self))],
                ),
            ),
    {
        let ghost b0 = block@;
        let n = block.instructions.len();
        let mut out: Vec<Instruction> = Vec::new();
        let mut k: usize = 0;
        while k < n
            invariant
                0 <= k <= n,
                n == b0.instructions.len(),
                block@ == b0,
                block@ == old(block)@,
                forall|j: int| 0 <= j < k ==> explicit_pc_defined(*self, #[trigger] b0.instructions[j]),
                Seq::new(out@.len(), |i: int| out@[i]@) == prefixed(
                    b0.instructions.take(k as int),
                    explicit_pc_prefixes(*self),
                ),
            decreases n - k,
        {
            proof {
                lemma_prefixed_step(b0.instructions, explicit_pc_prefixes(*self), k as int);
                assert(block.instructions@[k as int]@ == b0.instructions[k as int]);
            }
            match self.assignment(&block.instructions[k]) {
                Ok(Some(a)) => {
                    out.push(a);
                },
                Ok(None) => {},
                Err(e) => {
                    proof {
                        lemma_first_failure(b0.instructions, explicit_pc_checks(*self), k as int);
                    }
                    return Err(e);
                },
            }
            out.push(block.instructions[k].clone());
            proof {
                assert(Seq::new(out@.len(), |i: int| out@[i]@) =~= prefixed(
                    b0.instructions.take(k + 1),
                    explicit_pc_prefixes(*self),
                ));
            }
            k += 1;
        }
        proof {
            assert(b0.instructions.take(n as int) =~= b0.instructions);
        }
        block.instructions = out;
        Ok(())
    }
}

} // verus!
