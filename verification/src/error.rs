use crate::lir::{Sort, Variable};
use vstd::prelude::*;

verus! {

/// The errors of the library.
#[derive(Debug, PartialEq, Eq)]
pub enum Error {
    /// An expression of sort `Bool` was expected, the given one has the carried sort.
    ExpectedBool(Sort),
    /// A bit-vector expression was expected, the given one has the carried sort.
    ExpectedBitVector(Sort),
    /// An array expression was expected, the given one has the carried sort.
    ExpectedArray(Sort),
    /// A memory expression was expected, the given one has the carried sort.
    ExpectedMemory(Sort),
    /// Two sorts were expected to be equal.
    ExpectedSort { expected: Sort, actual: Sort },
    /// The variable is assigned a second time at the node with the given index.
    Reassignment { index: usize, variable: Variable },
    /// The variable is used at the node with the given index but never defined.
    UndefinedVariable { index: usize, variable: Variable },
    /// No block with the given index exists.
    BlockNotFound(usize),
    /// No edge between the given blocks exists.
    EdgeNotFound { head: usize, tail: usize },
    /// An edge between the given blocks exists already.
    EdgeExists { head: usize, tail: usize },
    /// A block with the given index exists already.
    BlockExists(usize),
    /// The instruction index is out of the bounds of the block.
    InstructionIndexOutOfBounds { block: usize, index: usize },
    /// The phi node index is out of the bounds of the block.
    PhiNodeIndexOutOfBounds { block: usize, index: usize },
    /// The graph has no entry block.
    NoEntry,
    /// The graph has no exit block.
    NoExit,
    /// No further block index is available.
    IndexOverflow,
    /// The speculation window must stay below the carried maximum.
    SpeculationWindowTooLarge { maximum: usize, window: usize },
    /// A conditional branch must have one or two successors.
    UnexpectedSuccessorCount { block: usize, count: usize },
    /// The sorts of the operands do not fit the operator.
    SortMismatch,
    /// No transient entry point is recorded for an instruction.
    NoTransientEntry,
    /// A function at the given address exists already.
    FunctionExists(u64),
    /// The program has no entry function.
    NoEntryFunction,
    /// A block is visited before its predecessor with the given index.
    UnorderedPredecessor(usize),
}

} // verus!
