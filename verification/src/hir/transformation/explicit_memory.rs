//! Explicit memory: loads and stores become assignments over the memory variable.
use crate::error::Error;
use crate::hir::{Instruction, InstructionView, Operation, OperationView};
use crate::ir::Transform;
use crate::lir::{variable_view, Expression, ExpressionView, Memory, OperatorView, Sort, VariableView};
use vstd::prelude::*;

verus! {

/// Makes memory accesses explicit.
#[derive(Clone, Copy, Debug, PartialEq, Eq, Structural)]
pub struct ExplicitMemory {}

/// The view of the memory variable.
pub open spec fn memory_view() -> VariableView {
    VariableView { name: "_memory"@, sort: Sort::Memory, rollback_persistent: false, version: None }
}

/// The operation with its memory access made explicit:
/// `store(address, expr)` becomes `_memory := store(_memory, address, expr)` and
/// `variable := load(address)` becomes `variable := load(_memory, address)`, loading as many
/// bits as the variable has. Other operations stay as they are.
///
/// Fails when the variable of a load, an address or a stored value is no bit vector.
pub open spec fn explicit_memory_operation(op: OperationView) -> Result<OperationView, Error> {
    match op {
        OperationView::Store { address, expr } => if !(address.sort is BitVector) {
            Err(Error::ExpectedBitVector(address.sort))
        } else if !(expr.sort is BitVector) {
            Err(Error::ExpectedBitVector(expr.sort))
        } else {
            Ok(
                OperationView::Assign {
                    variable: memory_view(),
                    expr: ExpressionView {
                        operator: OperatorView::Memory(Memory::Store(expr.sort->BitVector_0)),
                        operands: seq![variable_view(memory_view()), address, expr],
                        sort: Sort::Memory,
                    },
                },
            )
        },
        OperationView::Load { variable, address } => if !(variable.sort is BitVector) {
            Err(Error::ExpectedBitVector(variable.sort))
        } else if !(address.sort is BitVector) {
            Err(Error::ExpectedBitVector(address.sort))
        } else {
            Ok(
                OperationView::Assign {
                    variable: variable,
                    expr: ExpressionView {
                        operator: OperatorView::Memory(Memory::Load(variable.sort->BitVector_0)),
                        operands: seq![variable_view(memory_view()), address],
                        sort: variable.sort,
                    },
                },
            )
        },
        _ => Ok(op),
    }
}

/// Making memory accesses explicit leaves no load or store: what it gives back is neither.
pub proof fn law_explicit_memory_removes_accesses(op: OperationView)
    ensures
        explicit_memory_operation(op) matches Ok(o) ==> !(o is Load) && !(o is Store),
{
}

/// Replaces a load or store by an assignment over the memory variable.
fn replace_store_load_with_assign(operation: &mut Operation) -> (r: Result<(), Error>)
    ensures
        match explicit_memory_operation(old(operation)@) {
            Ok(op) => r is Ok && final(operation)@ == op,
            Err(e) => r == Err::<(), Error>(e) && final(operation)@ == old(operation)@,
        },
{
    let replacement = match &*operation {
        Operation::Store { address, expr } => {
            let memory = Expression::variable(Memory::variable());
            let store = Memory::store(memory, address.clone(), expr.clone())?;
            Operation::assign(Memory::variable(), store)?
        },
        Operation::Load { variable, address } => {
            variable.sort().expect_bit_vector()?;
            let bit_width = variable.sort().unwrap_bit_vector();
            let memory = Expression::variable(Memory::variable());
            let load = Memory::load(bit_width, memory, address.clone())?;
            Operation::assign(variable.clone(), load)?
        },
        _ => return Ok(()),
    };
    *operation = replacement;
    Ok(())
}

impl Transform<Instruction> for ExplicitMemory {
    fn name(&self) -> (r: &'static str)
        ensures
            r@ == "ExplicitMemory"@,
    {
        "ExplicitMemory"
    }

    fn description(&self) -> (r: &'static str)
        ensures
            r@ == "Make memory accesses explicit"@,
    {
        "Make memory accesses explicit"
    }

    /// Makes the memory access of the instruction explicit; fails, leaving the instruction
    /// unchanged, when it cannot be made explicit.
    fn transform(&self, instruction: &mut Instruction) -> (r: Result<(), Error>)
        ensures
            match explicit_memory_operation(old(instruction)@.operation) {
                Ok(op) => r is Ok && final(instruction)@ == (InstructionView { operation: op, ..old(instruction)@ }),
                Err(e) => r == Err::<(), Error>(e) && final(instruction)@ == old(instruction)@,
            },
    {
        replace_store_load_with_assign(&mut instruction.operation)
    }
}

} // verus!
