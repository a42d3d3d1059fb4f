//! Microarchitectural components: the branch predictor, the cache, the branch-target
//! buffer and the pattern-history table.
use crate::error::Error;
use crate::lir::{Expression, ExpressionView, Operator, OperatorView, Sort, Variable, VariableView};
use vstd::prelude::*;

verus! {

/// The width in bits of the speculation window.
pub const SPECULATION_WINDOW_SIZE: usize = 8;

/// The branch-predictor operators.
#[derive(Clone, Copy, PartialEq, Eq, Structural, Debug)]
pub enum Predictor {
    Speculate,
    Taken,
    SpeculationWindow,
}

/// The cache operators.
#[derive(Clone, Copy, PartialEq, Eq, Structural, Debug)]
pub enum Cache {
    Fetch(usize),
}

/// The branch-target-buffer operators.
#[derive(Clone, Copy, PartialEq, Eq, Structural, Debug)]
pub enum BranchTargetBuffer {
    Track,
}

/// The pattern-history-table operators.
#[derive(Clone, Copy, PartialEq, Eq, Structural, Debug)]
pub enum PatternHistoryTable {
    Taken,
    NotTaken,
}

/// The view of a rollback-persistent variable with the given name and sort.
pub open spec fn component_view(name: Seq<char>, sort: Sort) -> VariableView {
    VariableView { name: name, sort: sort, rollback_persistent: true, version: None }
}

/// A rollback-persistent variable of a component.
fn component_variable(name: &str, sort: Sort) -> (r: Variable)
    ensures
        r@ == component_view(name@, sort),
{
    let mut v = Variable::new(name, sort);
    v.set_rollback_persistent();
    v
}

/// Checks that `component` has sort `sort` and `location` is a bit vector.
fn check_located(component: &Expression, sort: Sort, location: &Expression) -> (r: Result<(), Error>)
    ensures
        r is Ok <==> (component.sort == sort && location.sort is BitVector),
        component.sort != sort ==> r == Err::<(), Error>(
            Error::ExpectedSort { expected: sort, actual: component.sort },
        ),
        component.sort == sort && !(location.sort is BitVector) ==> r == Err::<(), Error>(
            Error::ExpectedBitVector(location.sort),
        ),
{
    component.sort().expect_sort(&sort)?;
    location.sort().expect_bit_vector()
}

impl Predictor {
    /// The variable that holds the branch predictor.
    pub fn variable() -> (r: Variable)
        ensures
            r@ == component_view("_predictor"@, Sort::Predictor),
    {
        proof {
            reveal_strlit("_predictor");
        }
        component_variable("_predictor", Sort::Predictor)
    }

    /// Whether the predictor speculates at `location`.
    pub fn speculate(predictor: Expression, location: Expression) -> (r: Result<Expression, Error>)
        ensures
            r is Ok <==> (predictor.sort == Sort::Predictor && location.sort is BitVector),
            r is Ok ==> r.unwrap()@ == (ExpressionView {
                operator: OperatorView::Predictor(Predictor::Speculate),
                operands: seq![predictor@, location@],
                sort: Sort::Bool,
            }),
            predictor.sort != Sort::Predictor ==> r == Err::<Expression, Error>(
                Error::ExpectedSort { expected: Sort::Predictor, actual: predictor.sort },
            ),
            predictor.sort == Sort::Predictor && !(location.sort is BitVector) ==> r == Err::<
                Expression,
                Error,
            >(Error::ExpectedBitVector(location.sort)),
    {
        check_located(&predictor, Sort::Predictor, &location)?;
        Ok(Expression::binary(Operator::Predictor(Predictor::Speculate), predictor, location, Sort::boolean()))
    }

    /// Whether the predictor predicts the branch at `location` as taken.
    pub fn taken(predictor: Expression, location: Expression) -> (r: Result<Expression, Error>)
        ensures
            r is Ok <==> (predictor.sort == Sort::Predictor && location.sort is BitVector),
            r is Ok ==> r.unwrap()@ == (ExpressionView {
                operator: OperatorView::Predictor(Predictor::Taken),
                operands: seq![predictor@, location@],
                sort: Sort::Bool,
            }),
            predictor.sort != Sort::Predictor ==> r == Err::<Expression, Error>(
                Error::ExpectedSort { expected: Sort::Predictor, actual: predictor.sort },
            ),
            predictor.sort == Sort::Predictor && !(location.sort is BitVector) ==> r == Err::<
                Expression,
                Error,
            >(Error::ExpectedBitVector(location.sort)),
    {
        check_located(&predictor, Sort::Predictor, &location)?;
        Ok(Expression::binary(Operator::Predictor(Predictor::Taken), predictor, location, Sort::boolean()))
    }

    /// The length of the speculation window that starts at `location`.
    pub fn speculation_window(predictor: Expression, location: Expression) -> (r: Result<Expression, Error>)
        ensures
            r is Ok <==> (predictor.sort == Sort::Predictor && location.sort is BitVector),
            r is Ok ==> r.unwrap()@ == (ExpressionView {
                operator: OperatorView::Predictor(Predictor::SpeculationWindow),
                operands: seq![predictor@, location@],
                sort: Sort::BitVector(SPECULATION_WINDOW_SIZE),
            }),
            predictor.sort != Sort::Predictor ==> r == Err::<Expression, Error>(
                Error::ExpectedSort { expected: Sort::Predictor, actual: predictor.sort },
            ),
            predictor.sort == Sort::Predictor && !(location.sort is BitVector) ==> r == Err::<
                Expression,
                Error,
            >(Error::ExpectedBitVector(location.sort)),
    {
        check_located(&predictor, Sort::Predictor, &location)?;
        Ok(
            Expression::binary(
                Operator::Predictor(Predictor::SpeculationWindow),
                predictor,
                location,
                Sort::bit_vector(SPECULATION_WINDOW_SIZE),
            ),
        )
    }
}

impl Cache {
    /// The variable that holds the cache.
    pub fn variable() -> (r: Variable)
        ensures
            r@ == component_view("_cache"@, Sort::Cache),
    {
        proof {
            reveal_strlit("_cache");
        }
        component_variable("_cache", Sort::Cache)
    }

    /// The cache after fetching `bit_width` bits at `address`.
    pub fn fetch(bit_width: usize, cache: Expression, address: Expression) -> (r: Result<Expression, Error>)
        ensures
            r is Ok <==> (cache.sort == Sort::Cache && address.sort is BitVector),
            r is Ok ==> r.unwrap()@ == (ExpressionView {
                operator: OperatorView::Cache(Cache::Fetch(bit_width)),
                operands: seq![cache@, address@],
                sort: Sort::Cache,
            }),
            cache.sort != Sort::Cache ==> r == Err::<Expression, Error>(
                Error::ExpectedSort { expected: Sort::Cache, actual: cache.sort },
            ),
            cache.sort == Sort::Cache && !(address.sort is BitVector) ==> r == Err::<Expression, Error>(
                Error::ExpectedBitVector(address.sort),
            ),
    {
        check_located(&cache, Sort::Cache, &address)?;
        Ok(Expression::binary(Operator::Cache(Cache::Fetch(bit_width)), cache, address, Sort::Cache))
    }
}

impl BranchTargetBuffer {
    /// The variable that holds the branch-target buffer.
    pub fn variable() -> (r: Variable)
        ensures
            r@ == component_view("_btb"@, Sort::BranchTargetBuffer),
    {
        proof {
            reveal_strlit("_btb");
        }
        component_variable("_btb", Sort::BranchTargetBuffer)
    }

    /// The buffer after tracking `target` for the branch at `location`.
    pub fn track(btb: Expression, location: Expression, target: Expression) -> (r: Result<Expression, Error>)
        ensures
            r is Ok <==> (btb.sort == Sort::BranchTargetBuffer && location.sort is BitVector
                && target.sort is BitVector),
            r is Ok ==> r.unwrap()@ == (ExpressionView {
                operator: OperatorView::BranchTargetBuffer(BranchTargetBuffer::Track),
                operands: seq![btb@, location@, target@],
                sort: Sort::BranchTargetBuffer,
            }),
            btb.sort != Sort::BranchTargetBuffer ==> r == Err::<Expression, Error>(
                Error::ExpectedSort { expected: Sort::BranchTargetBuffer, actual: btb.sort },
            ),
            btb.sort == Sort::BranchTargetBuffer && !(location.sort is BitVector) ==> r == Err::<
                Expression,
                Error,
            >(Error::ExpectedBitVector(location.sort)),
            btb.sort == Sort::BranchTargetBuffer && location.sort is BitVector && !(target.sort is BitVector)
                ==> r == Err::<Expression, Error>(Error::ExpectedBitVector(target.sort)),
    {
        check_located(&btb, Sort::BranchTargetBuffer, &location)?;
        target.sort().expect_bit_vector()?;
        Ok(
            Expression::ternary(
                Operator::BranchTargetBuffer(BranchTargetBuffer::Track),
                btb,
                location,
                target,
                Sort::BranchTargetBuffer,
            ),
        )
    }
}

impl PatternHistoryTable {
    /// The variable that holds the pattern-history table.
    pub fn variable() -> (r: Variable)
        ensures
            r@ == component_view("_pht"@, Sort::PatternHistoryTable),
    {
        proof {
            reveal_strlit("_pht");
        }
        component_variable("_pht", Sort::PatternHistoryTable)
    }

    fn record(op: PatternHistoryTable, pht: Expression, location: Expression) -> (r: Result<Expression, Error>)
        ensures
            r is Ok <==> (pht.sort == Sort::PatternHistoryTable && location.sort is BitVector),
            r is Ok ==> r.unwrap()@ == (ExpressionView {
                operator: OperatorView::PatternHistoryTable(op),
                operands: seq![pht@, location@],
                sort: Sort::PatternHistoryTable,
            }),
            pht.sort != Sort::PatternHistoryTable ==> r == Err::<Expression, Error>(
                Error::ExpectedSort { expected: Sort::PatternHistoryTable, actual: pht.sort },
            ),
            pht.sort == Sort::PatternHistoryTable && !(location.sort is BitVector) ==> r == Err::<
                Expression,
                Error,
            >(Error::ExpectedBitVector(location.sort)),
    {
        check_located(&pht, Sort::PatternHistoryTable, &location)?;
        Ok(
            Expression::binary(
                Operator::PatternHistoryTable(op),
                pht,
                location,
                Sort::PatternHistoryTable,
            ),
        )
    }

    /// The table after recording the branch at `location` as taken.
    pub fn taken(pht: Expression, location: Expression) -> (r: Result<Expression, Error>)
        ensures
            r is Ok <==> (pht.sort == Sort::PatternHistoryTable && location.sort is BitVector),
            r is Ok ==> r.unwrap()@ == (ExpressionView {
                operator: OperatorView::PatternHistoryTable(PatternHistoryTable::Taken),
                operands: seq![pht@, location@],
                sort: Sort::PatternHistoryTable,
            }),
            pht.sort != Sort::PatternHistoryTable ==> r == Err::<Expression, Error>(
                Error::ExpectedSort { expected: Sort::PatternHistoryTable, actual: pht.sort },
            ),
            pht.sort == Sort::PatternHistoryTable && !(location.sort is BitVector) ==> r == Err::<
                Expression,
                Error,
            >(Error::ExpectedBitVector(location.sort)),
    {
        Self::record(PatternHistoryTable::Taken, pht, location)
    }

    /// The table after recording the branch at `location` as not taken.
    pub fn not_taken(pht: Expression, location: Expression) -> (r: Result<Expression, Error>)
        ensures
            r is Ok <==> (pht.sort == Sort::PatternHistoryTable && location.sort is BitVector),
            r is Ok ==> r.unwrap()@ == (ExpressionView {
                operator: OperatorView::PatternHistoryTable(PatternHistoryTable::NotTaken),
                operands: seq![pht@, location@],
                sort: Sort::PatternHistoryTable,
            }),
            pht.sort != Sort::PatternHistoryTable ==> r == Err::<Expression, Error>(
                Error::ExpectedSort { expected: Sort::PatternHistoryTable, actual: pht.sort },
            ),
            pht.sort == Sort::PatternHistoryTable && !(location.sort is BitVector) ==> r == Err::<
                Expression,
                Error,
            >(Error::ExpectedBitVector(location.sort)),
    {
        Self::record(PatternHistoryTable::NotTaken, pht, location)
    }
}

} // verus!
