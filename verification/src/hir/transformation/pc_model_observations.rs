//! Observations of the program-counter model: the attacker observes the addresses of memory
//! accesses and the targets of branches.
use crate::error::Error;
use crate::hir::transformation::{address_or_zero, location_view, pseudo};
use crate::hir::{Block, BlockView, Instruction, InstructionView, Operation, OperationView};
use crate::ir::Transform;
use crate::lir::{BitVector, Expression, ExpressionView, OperatorView, Sort, WORD_SIZE};
use vstd::prelude::*;

verus! {

/// Which leaks are checked.
#[derive(Clone, Copy, Debug, PartialEq, Eq, Structural)]
pub enum Check {
    OnlyTransientExecutionLeaks,
    OnlyNormalExecutionLeaks,
    AllLeaks,
}

/// Adds the observations of the program-counter model before the instructions of a block.
#[derive(Clone, Copy, Debug, PartialEq, Eq, Structural)]
pub struct ProgramCounterModelObservations {
    pub check: Check,
    pub observe_program_counter: bool,
    pub observe_memory_loads: bool,
}

/// The if-then-else expression.
pub open spec fn ite_view(c: ExpressionView, t: ExpressionView, e: ExpressionView) -> ExpressionView {
    ExpressionView { operator: OperatorView::Ite, operands: seq![c, t, e], sort: t.sort }
}

/// What the attacker observes of instruction `i`, if anything: the address of a memory access,
/// the target of a branch, and for a conditional branch the next program counter (its target
/// if the condition holds, the address 8 bytes on otherwise).
pub open spec fn pc_observed(m: ProgramCounterModelObservations, i: InstructionView) -> Option<ExpressionView> {
    match i.operation {
        OperationView::Load { address, .. } => if m.observe_memory_loads {
            Some(address)
        } else {
            None
        },
        OperationView::Store { address, .. } => if m.observe_memory_loads {
            Some(address)
        } else {
            None
        },
        OperationView::Branch { target } => if m.observe_program_counter {
            Some(target)
        } else {
            None
        },
        OperationView::ConditionalBranch { condition, target } => if m.observe_program_counter {
            Some(ite_view(condition, target, location_view((address_or_zero(i.address) + 8) as u64)))
        } else {
            None
        },
        _ => None,
    }
}

/// Whether the observation of `i` can be built: the next program counter of a conditional
/// branch needs an address 8 bytes on, a boolean condition and a machine-word target.
pub open spec fn pc_observable(m: ProgramCounterModelObservations, i: InstructionView) -> bool {
    match i.operation {
        OperationView::ConditionalBranch { condition, target } => m.observe_program_counter ==> (address_or_zero(
            i.address,
        ) + 8 <= u64::MAX && condition.sort is Bool && target.sort == Sort::BitVector(WORD_SIZE)),
        _ => true,
    }
}

/// The error for an instruction whose observation cannot be built.
pub open spec fn pc_instruction_error(i: InstructionView) -> Error {
    match i.operation {
        OperationView::ConditionalBranch { condition, target } => if address_or_zero(i.address) + 8 > u64::MAX {
            Error::IndexOverflow
        } else if !(condition.sort is Bool) {
            Error::ExpectedBool(condition.sort)
        } else {
            Error::ExpectedSort { expected: Sort::BitVector(WORD_SIZE), actual: target.sort }
        },
        _ => Error::IndexOverflow,
    }
}

/// The observation instruction of `e` in a block that is `transient` or not: when only
/// transient leaks are checked, non-transient blocks require `e` to be indistinguishable.
pub open spec fn observation(m: ProgramCounterModelObservations, transient: bool, e: ExpressionView) -> InstructionView {
    if m.check is OnlyTransientExecutionLeaks && !transient {
        pseudo(OperationView::Indistinguishable { expr: e })
    } else {
        pseudo(OperationView::Observable { expr: e })
    }
}

/// The instructions with the observation of each before it.
pub open spec fn observed_instructions(
    m: ProgramCounterModelObservations,
    transient: bool,
    insts: Seq<InstructionView>,
) -> Seq<InstructionView>
    decreases insts.len(),
{
    if insts.len() == 0 {
        Seq::empty()
    } else {
        observed_instructions(m, transient, insts.drop_last()) + (match pc_observed(m, insts.last()) {
            Some(e) => seq![observation(m, transient, e)],
            None => Seq::empty(),
        }) + seq![insts.last()]
    }
}

/// Whether the observations of all instructions can be built.
pub open spec fn all_pc_observable(m: ProgramCounterModelObservations, insts: Seq<InstructionView>) -> bool {
    forall|k: int| 0 <= k < insts.len() ==> pc_observable(m, #[trigger] insts[k])
}

/// The error for the first instruction whose observation cannot be built.
pub open spec fn pc_error(m: ProgramCounterModelObservations, insts: Seq<InstructionView>) -> Error {
    let k = choose|k: int|
        0 <= k < insts.len() && !pc_observable(m, insts[k]) && forall|j: int| 0 <= j < k ==> pc_observable(m, #[trigger] insts[j]);
    pc_instruction_error(insts[k])
}

impl ProgramCounterModelObservations {
    /// The observation of `inst` in a block that is `transient` or not, if any.
    fn observe(&self, transient: bool, inst: &Instruction) -> (r: Result<Option<Instruction>, Error>)
        ensures
            r is Ok <==> pc_observable(*self, inst@),
            r is Err ==> r == Err::<Option<Instruction>, Error>(pc_instruction_error(inst@)),
            r matches Ok(o) ==> (match pc_observed(*self, inst@) {
                Some(e) => o matches Some(i) && i@ == observation(*self, transient, e),
                None => o is None,
            }),
    {
        let e = match &inst.operation {
            Operation::Load { address, .. } | Operation::Store { address, .. } => {
                if self.observe_memory_loads {
                    Some(address.clone())
                } else {
                    None
                }
            },
            Operation::Branch { target } => {
                if self.observe_program_counter {
                    Some(target.clone())
                } else {
                    None
                }
            },
            Operation::ConditionalBranch { condition, target } => {
                if self.observe_program_counter {
                    let address = match inst.address {
                        Some(a) => a,
                        None => 0,
                    };
                    if address > u64::MAX - 8 {
                        return Err(Error::IndexOverflow);
                    }
                    let next = BitVector::word_constant(address + 8);
                    Some(Expression::ite(condition.clone(), target.clone(), next)?)
                } else {
                    None
                }
            },
            _ => None,
        };
        match e {
            Some(e) => {
                let i = if self.check == Check::OnlyTransientExecutionLeaks && !transient {
                    Instruction::indistinguishable(e)
                } else {
                    Instruction::observable(e)
                };
                Ok(Some(i.into_pseudo()))
            },
            None => Ok(None),
        }
    }
}

impl Transform<Block> for ProgramCounterModelObservations {
    fn name(&self) -> (r: &'static str)
        ensures
            r@ == "ProgramCounterModelObservations"@,
    {
        "ProgramCounterModelObservations"
    }

    fn description(&self) -> (r: &'static str)
        ensures
            r@ == "Add program-counter model observations"@,
    {
        "Add program-counter model observations"
    }

    /// Places before each instruction of `block` the observation of it, if any; fails if the
    /// next program counter of a conditional branch cannot be built (condition not boolean or
    /// target no machine word), with the error of the first such branch, and leaves the block
    /// unchanged then.
    fn transform(&self, block: &mut Block) -> (r: Result<(), Error>)
        ensures
            r is Ok <==> all_pc_observable(*self, old(block)@.instructions),
            r is Ok ==> final(block)@ == (BlockView {
                instructions: observed_instructions(*self, old(block).transient, old(block)@.instructions),
                ..old(block)@
            }),
            r is Err ==> final(block)@ == old(block)@ && r == Err::<(), Error>(pc_error(*self, old(block)@.instructions)),
    {
        let ghost b0 = block@;
        let n = block.instructions.len();
        let mut out: Vec<Instruction> = Vec::new();
        let mut k: usize = 0;
        while k < n
            invariant
                0 <= k <= n,
                n == b0.instructions.len(),
                block@ == b0,
                block@ == old(block)@,
                block.transient == old(block).transient,
                forall|j: int| 0 <= j < k ==> pc_observable(*self, #[trigger] b0.instructions[j]),
                Seq::new(out@.len(), |i: int| out@[i]@) == observed_instructions(*self, block.transient, b0.instructions.take(k as int)),
            decreases n - k,
        {
            proof {
                assert(b0.instructions.take(k + 1).drop_last() =~= b0.instructions.take(k as int));
                assert(block.instructions@[k as int]@ == b0.instructions[k as int]);
            }
            let ghost before = out@;
            match self.observe(block.transient, &block.instructions[k]) {
                Ok(Some(o)) => {
                    out.push(o);
                },
                Ok(None) => {},
                Err(e) => {
                    proof {
                        let k0 = choose|k0: int|
                            0 <= k0 < b0.instructions.len() && !pc_observable(*self, b0.instructions[k0]) && forall|j: int|
                                0 <= j < k0 ==> pc_observable(*self, #[trigger] b0.instructions[j]);
                        assert(!pc_observable(*self, b0.instructions[k as int]));
                        if k0 < k {
                            assert(pc_observable(*self, b0.instructions[k0]));
                        }
                        if k < k0 {
                            assert(pc_observable(*self, b0.instructions[k as int]));
                        }
                    }
                    return Err(e);
                },
            }
            out.push(block.instructions[k].clone());
            proof {
                assert(Seq::new(out@.len(), |i: int| out@[i]@) =~= observed_instructions(
                    *self,
                    block.transient,
                    b0.instructions.take(k + 1),
                ));
            }
            k += 1;
        }
        proof {
            assert(b0.instructions.take(n as int) =~= b0.instructions);
        }
        block.instructions = out;
        Ok(())
    }
}

} // verus!
