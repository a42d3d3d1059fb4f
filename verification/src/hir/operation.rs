use crate::error::Error;
use crate::lir::{
    variable_view, variables_of, Expression, ExpressionView, Sort, Variable, VariableView,
};
use vstd::prelude::*;

verus! {

/// A HIR operation.
#[derive(Debug, PartialEq, Eq)]
pub enum Operation {
    /// Assign the value given in expression to the variable indicated.
    Assign { variable: Variable, expr: Expression },
    /// Store the value in expr at the address given in address.
    Store { address: Expression, expr: Expression },
    /// Load the value in memory at address and place the result in the variable.
    Load { variable: Variable, address: Expression },
    /// Call a function.
    Call { target: Expression },
    /// Branch to the value given by target.
    Branch { target: Expression },
    /// Branch to the value given by target if the condition holds.
    ConditionalBranch { condition: Expression, target: Expression },
    /// The value of the expression is observable by an attacker.
    Observable { expr: Expression },
    /// The value of the expression is indistinguishable for an attacker.
    Indistinguishable { expr: Expression },
    /// Assert that the condition is true.
    Assert { condition: Expression },
    /// Assume that the condition is true.
    Assume { condition: Expression },
    /// Does nothing.
    Skip,
    /// Stops speculative execution.
    Barrier,
}

/// The mathematical value of an `Operation`.
pub enum OperationView {
    Assign { variable: VariableView, expr: ExpressionView },
    Store { address: ExpressionView, expr: ExpressionView },
    Load { variable: VariableView, address: ExpressionView },
    Call { target: ExpressionView },
    Branch { target: ExpressionView },
    ConditionalBranch { condition: ExpressionView, target: ExpressionView },
    Observable { expr: ExpressionView },
    Indistinguishable { expr: ExpressionView },
    Assert { condition: ExpressionView },
    Assume { condition: ExpressionView },
    Skip,
    Barrier,
}

impl Operation {
    /// The mathematical value of the operation.
    pub open spec fn view(&self) -> OperationView {
        match self {
            Operation::Assign { variable, expr } => OperationView::Assign { variable: variable@, expr: expr@ },
            Operation::Store { address, expr } => OperationView::Store { address: address@, expr: expr@ },
            Operation::Load { variable, address } => OperationView::Load { variable: variable@, address: address@ },
            Operation::Call { target } => OperationView::Call { target: target@ },
            Operation::Branch { target } => OperationView::Branch { target: target@ },
            Operation::ConditionalBranch { condition, target } => OperationView::ConditionalBranch {
                condition: condition@,
                target: target@,
            },
            Operation::Observable { expr } => OperationView::Observable { expr: expr@ },
            Operation::Indistinguishable { expr } => OperationView::Indistinguishable { expr: expr@ },
            Operation::Assert { condition } => OperationView::Assert { condition: condition@ },
            Operation::Assume { condition } => OperationView::Assume { condition: condition@ },
            Operation::Skip => OperationView::Skip,
            Operation::Barrier => OperationView::Barrier,
        }
    }
}

/// The variables an operation reads, from left to right.
pub open spec fn operation_read(op: OperationView) -> Seq<VariableView> {
    match op {
        OperationView::Assign { expr, .. } => variables_of(expr),
        OperationView::Store { address, expr } => variables_of(address) + variables_of(expr),
        OperationView::Load { address, .. } => variables_of(address),
        OperationView::Call { target } => variables_of(target),
        OperationView::Branch { target } => variables_of(target),
        OperationView::ConditionalBranch { condition, target } => variables_of(condition) + variables_of(target),
        OperationView::Observable { expr } => variables_of(expr),
        OperationView::Indistinguishable { expr } => variables_of(expr),
        OperationView::Assert { condition } => variables_of(condition),
        OperationView::Assume { condition } => variables_of(condition),
        OperationView::Skip => Seq::empty(),
        OperationView::Barrier => Seq::empty(),
    }
}

/// The variables an operation writes.
pub open spec fn operation_written(op: OperationView) -> Seq<VariableView> {
    match op {
        OperationView::Assign { variable, .. } => seq![variable],
        OperationView::Load { variable, .. } => seq![variable],
        _ => Seq::empty(),
    }
}

impl Clone for Operation {
    fn clone(&self) -> (r: Self)
        ensures
            r@ == self@,
    {
        match self {
            Operation::Assign { variable, expr } => Operation::Assign { variable: variable.clone(), expr: expr.clone() },
            Operation::Store { address, expr } => Operation::Store { address: address.clone(), expr: expr.clone() },
            Operation::Load { variable, address } => Operation::Load { variable: variable.clone(), address: address.clone() },
            Operation::Call { target } => Operation::Call { target: target.clone() },
            Operation::Branch { target } => Operation::Branch { target: target.clone() },
            Operation::ConditionalBranch { condition, target } => Operation::ConditionalBranch {
                condition: condition.clone(),
                target: target.clone(),
            },
            Operation::Observable { expr } => Operation::Observable { expr: expr.clone() },
            Operation::Indistinguishable { expr } => Operation::Indistinguishable { expr: expr.clone() },
            Operation::Assert { condition } => Operation::Assert { condition: condition.clone() },
            Operation::Assume { condition } => Operation::Assume { condition: condition.clone() },
            Operation::Skip => Operation::Skip,
            Operation::Barrier => Operation::Barrier,
        }
    }
}

impl Operation {
    /// An assignment; fails unless `expr` has the sort of `variable`.
    pub fn assign(variable: Variable, expr: Expression) -> (r: Result<Self, Error>)
        ensures
            r is Ok <==> expr.sort == variable.sort,
            r is Ok ==> r.unwrap()@ == (OperationView::Assign { variable: variable@, expr: expr@ }),
            r is Err ==> r == Err::<Operation, Error>(
                Error::ExpectedSort { expected: variable.sort, actual: expr.sort },
            ),
    {
        expr.sort().expect_sort(variable.sort())?;
        Ok(Operation::Assign { variable, expr })
    }

    /// A store; fails unless `address` and `expr` are bit vectors.
    pub fn store(address: Expression, expr: Expression) -> (r: Result<Self, Error>)
        ensures
            r is Ok <==> (address.sort is BitVector && expr.sort is BitVector),
            r is Ok ==> r.unwrap()@ == (OperationView::Store { address: address@, expr: expr@ }),
            !(address.sort is BitVector) ==> r == Err::<Operation, Error>(Error::ExpectedBitVector(address.sort)),
            address.sort is BitVector && !(expr.sort is BitVector) ==> r == Err::<Operation, Error>(
                Error::ExpectedBitVector(expr.sort),
            ),
    {
        address.sort().expect_bit_vector()?;
        expr.sort().expect_bit_vector()?;
        Ok(Operation::Store { address, expr })
    }

    /// A load; fails unless `variable` and `address` are bit vectors.
    pub fn load(variable: Variable, address: Expression) -> (r: Result<Self, Error>)
        ensures
            r is Ok <==> (variable.sort is BitVector && address.sort is BitVector),
            r is Ok ==> r.unwrap()@ == (OperationView::Load { variable: variable@, address: address@ }),
            !(variable.sort is BitVector) ==> r == Err::<Operation, Error>(Error::ExpectedBitVector(variable.sort)),
            variable.sort is BitVector && !(address.sort is BitVector) ==> r == Err::<Operation, Error>(
                Error::ExpectedBitVector(address.sort),
            ),
    {
        variable.sort().expect_bit_vector()?;
        address.sort().expect_bit_vector()?;
        Ok(Operation::Load { variable, address })
    }

    /// A call; fails unless `target` is a bit vector.
    pub fn call(target: Expression) -> (r: Result<Self, Error>)
        ensures
            r is Ok <==> target.sort is BitVector,
            r is Ok ==> r.unwrap()@ == (OperationView::Call { target: target@ }),
            r is Err ==> r == Err::<Operation, Error>(Error::ExpectedBitVector(target.sort)),
    {
        target.sort().expect_bit_vector()?;
        Ok(Operation::Call { target })
    }

    /// A branch; fails unless `target` is a bit vector.
    pub fn branch(target: Expression) -> (r: Result<Self, Error>)
        ensures
            r is Ok <==> target.sort is BitVector,
            r is Ok ==> r.unwrap()@ == (OperationView::Branch { target: target@ }),
            r is Err ==> r == Err::<Operation, Error>(Error::ExpectedBitVector(target.sort)),
    {
        target.sort().expect_bit_vector()?;
        Ok(Operation::Branch { target })
    }

    /// A conditional branch; fails unless `condition` is boolean and `target` a bit vector.
    pub fn conditional_branch(condition: Expression, target: Expression) -> (r: Result<Self, Error>)
        ensures
            r is Ok <==> (condition.sort is Bool && target.sort is BitVector),
            r is Ok ==> r.unwrap()@ == (OperationView::ConditionalBranch { condition: condition@, target: target@ }),
            !(condition.sort is Bool) ==> r == Err::<Operation, Error>(Error::ExpectedBool(condition.sort)),
            condition.sort is Bool && !(target.sort is BitVector) ==> r == Err::<Operation, Error>(
                Error::ExpectedBitVector(target.sort),
            ),
    {
        condition.sort().expect_bool()?;
        target.sort().expect_bit_vector()?;
        Ok(Operation::ConditionalBranch { condition, target })
    }

    /// An assertion; fails unless `condition` is boolean.
    pub fn assertion(condition: Expression) -> (r: Result<Self, Error>)
        ensures
            r is Ok <==> condition.sort is Bool,
            r is Ok ==> r.unwrap()@ == (OperationView::Assert { condition: condition@ }),
            r is Err ==> r == Err::<Operation, Error>(Error::ExpectedBool(condition.sort)),
    {
        condition.sort().expect_bool()?;
        Ok(Operation::Assert { condition })
    }

    /// An assumption; fails unless `condition` is boolean.
    pub fn assumption(condition: Expression) -> (r: Result<Self, Error>)
        ensures
            r is Ok <==> condition.sort is Bool,
            r is Ok ==> r.unwrap()@ == (OperationView::Assume { condition: condition@ }),
            r is Err ==> r == Err::<Operation, Error>(Error::ExpectedBool(condition.sort)),
    {
        condition.sort().expect_bool()?;
        Ok(Operation::Assume { condition })
    }

    /// Whether the operation is an observation.
    pub fn is_observable(&self) -> (r: bool)
        ensures
            r == (*self is Observable),
    {
        match self {
            Operation::Observable { .. } => true,
            _ => false,
        }
    }

    /// The variables the operation reads, from left to right.
    pub fn variables_read(&self) -> (r: Vec<&Variable>)
        ensures
            r@.len() == operation_read(self@).len(),
            forall|i: int| 0 <= i < r@.len() ==> (#[trigger] r@[i])@ == operation_read(self@)[i],
    {
        match self {
            Operation::Assign { expr, .. } => expr.variables(),
            Operation::Store { address, expr } => append_variables(address.variables(), expr.variables()),
            Operation::Load { address, .. } => address.variables(),
            Operation::Call { target } => target.variables(),
            Operation::Branch { target } => target.variables(),
            Operation::ConditionalBranch { condition, target } => append_variables(
                condition.variables(),
                target.variables(),
            ),
            Operation::Observable { expr } => expr.variables(),
            Operation::Indistinguishable { expr } => expr.variables(),
            Operation::Assert { condition } => condition.variables(),
            Operation::Assume { condition } => condition.variables(),
            Operation::Skip => Vec::new(),
            Operation::Barrier => Vec::new(),
        }
    }

    /// The variables the operation writes.
    pub fn variables_written(&self) -> (r: Vec<&Variable>)
        ensures
            r@.len() == operation_written(self@).len(),
            forall|i: int| 0 <= i < r@.len() ==> (#[trigger] r@[i])@ == operation_written(self@)[i],
    {
        match self {
            Operation::Assign { variable, .. } => vec![variable],
            Operation::Load { variable, .. } => vec![variable],
            _ => Vec::new(),
        }
    }
}

/// `a` followed by `b`.
fn append_variables<'a>(a: Vec<&'a Variable>, b: Vec<&'a Variable>) -> (r: Vec<&'a Variable>)
    ensures
        r@ == a@ + b@,
{
    let mut a = a;
    let mut b = b;
    a.append(&mut b);
    a
}

} // verus!
