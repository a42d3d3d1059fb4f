use crate::error::Error;
use crate::lir::{Expression, ExpressionView, Operator, OperatorView, Sort, Variable, VariableView};
use vstd::prelude::*;

verus! {

/// The memory operators, each with the bit width of the accessed value.
#[derive(Clone, Copy, PartialEq, Eq, Structural, Debug)]
pub enum Memory {
    Store(usize),
    Load(usize),
}

impl Memory {
    /// The variable that holds the memory.
    pub fn variable() -> (r: Variable)
        ensures
            r@ == (VariableView { name: "_memory"@, sort: Sort::Memory, rollback_persistent: false, version: None }),
    {
        proof {
            reveal_strlit("_memory");
        }
        Variable::new("_memory", Sort::memory())
    }

    /// Loads `bit_width` bits from `memory` at `addr`.
    ///
    /// Fails unless `memory` is of the memory sort and `addr` is a bit vector.
    pub fn load(bit_width: usize, memory: Expression, addr: Expression) -> (r: Result<Expression, Error>)
        ensures
            r is Ok <==> (memory.sort is Memory && addr.sort is BitVector),
            r is Ok ==> r.unwrap()@ == (ExpressionView {
                operator: OperatorView::Memory(Memory::Load(bit_width)),
                operands: seq![memory@, addr@],
                sort: Sort::BitVector(bit_width),
            }),
            !(memory.sort is Memory) ==> r == Err::<Expression, Error>(Error::ExpectedMemory(memory.sort)),
            memory.sort is Memory && !(addr.sort is BitVector) ==> r == Err::<Expression, Error>(
                Error::ExpectedBitVector(addr.sort),
            ),
    {
        memory.sort().expect_memory()?;
        addr.sort().expect_bit_vector()?;
        Ok(Expression::binary(Operator::Memory(Memory::Load(bit_width)), memory, addr, Sort::bit_vector(bit_width)))
    }

    /// Stores `value` into `memory` at `addr`; the width is that of `value`.
    ///
    /// Fails unless `memory` is of the memory sort and `addr` and `value` are bit vectors.
    pub fn store(memory: Expression, addr: Expression, value: Expression) -> (r: Result<Expression, Error>)
        ensures
            r is Ok <==> (memory.sort is Memory && addr.sort is BitVector && value.sort is BitVector),
            r is Ok ==> r.unwrap()@ == (ExpressionView {
                operator: OperatorView::Memory(Memory::Store(value.sort->BitVector_0)),
                operands: seq![memory@, addr@, value@],
                sort: Sort::Memory,
            }),
            !(memory.sort is Memory) ==> r == Err::<Expression, Error>(Error::ExpectedMemory(memory.sort)),
            memory.sort is Memory && !(addr.sort is BitVector) ==> r == Err::<Expression, Error>(
                Error::ExpectedBitVector(addr.sort),
            ),
            memory.sort is Memory && addr.sort is BitVector && !(value.sort is BitVector) ==> r == Err::<
                Expression,
                Error,
            >(Error::ExpectedBitVector(value.sort)),
    {
        memory.sort().expect_memory()?;
        addr.sort().expect_bit_vector()?;
        value.sort().expect_bit_vector()?;
        let bit_width = value.sort().unwrap_bit_vector();
        Ok(Expression::ternary(Operator::Memory(Memory::Store(bit_width)), memory, addr, value, Sort::memory()))
    }
}

} // verus!
