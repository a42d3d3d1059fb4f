use crate::error::Error;
use crate::lir::{
    constant_view, views, Constant, Expression, ExpressionView, Operator, OperatorView, Sort, Variable, VariableView,
};
use vstd::prelude::*;

verus! {

/// The boolean operators.
#[derive(Clone, Copy, PartialEq, Eq, Structural, Debug)]
pub enum Boolean {
    True,
    False,
    Not,
    Imply,
    And,
    Or,
    Xor,
}

/// The view of a boolean expression built from `op` and `operands`.
pub open spec fn boolean_view(op: Boolean, operands: Seq<ExpressionView>) -> ExpressionView {
    ExpressionView { operator: OperatorView::Boolean(op), operands: operands, sort: Sort::Bool }
}

impl Boolean {
    /// A boolean variable with the given name.
    pub fn variable(name: &str) -> (r: Variable)
        ensures
            r@ == (VariableView { name: name@, sort: Sort::Bool, rollback_persistent: false, version: None }),
    {
        Variable::new(name, Sort::boolean())
    }

    /// The boolean constant `value`.
    pub fn constant(value: bool) -> (r: Expression)
        ensures
            r@ == constant_view(Constant::Boolean(value)),
    {
        Expression::constant(Constant::Boolean(value))
    }

    /// Negation; fails unless `expr` is boolean.
    pub fn not(expr: Expression) -> (r: Result<Expression, Error>)
        ensures
            r is Ok <==> expr.sort is Bool,
            r is Ok ==> r.unwrap()@ == boolean_view(Boolean::Not, seq![expr@]),
            r is Err ==> r == Err::<Expression, Error>(Error::ExpectedBool(expr.sort)),
    {
        expr.sort().expect_bool()?;
        let ghost e = expr@;
        let r = Expression::new(Operator::Boolean(Boolean::Not), vec![expr], Sort::boolean());
        assert(r@.operands =~= seq![e]);
        Ok(r)
    }

    /// Builds a binary boolean expression; fails unless both operands are boolean.
    fn binary(op: Boolean, lhs: Expression, rhs: Expression) -> (r: Result<Expression, Error>)
        ensures
            r is Ok <==> (lhs.sort is Bool && rhs.sort is Bool),
            r is Ok ==> r.unwrap()@ == boolean_view(op, seq![lhs@, rhs@]),
            !(lhs.sort is Bool) ==> r == Err::<Expression, Error>(Error::ExpectedBool(lhs.sort)),
            lhs.sort is Bool && !(rhs.sort is Bool) ==> r == Err::<Expression, Error>(
                Error::ExpectedBool(rhs.sort),
            ),
    {
        lhs.sort().expect_bool()?;
        rhs.sort().expect_bool()?;
        let ghost l = lhs@;
        let ghost rr = rhs@;
        let r = Expression::new(Operator::Boolean(op), vec![lhs, rhs], Sort::boolean());
        assert(r@.operands =~= seq![l, rr]);
        Ok(r)
    }

    /// Implication; fails unless both operands are boolean.
    pub fn imply(lhs: Expression, rhs: Expression) -> (r: Result<Expression, Error>)
        ensures
            r is Ok <==> (lhs.sort is Bool && rhs.sort is Bool),
            r is Ok ==> r.unwrap()@ == boolean_view(Boolean::Imply, seq![lhs@, rhs@]),
            !(lhs.sort is Bool) ==> r == Err::<Expression, Error>(Error::ExpectedBool(lhs.sort)),
            lhs.sort is Bool && !(rhs.sort is Bool) ==> r == Err::<Expression, Error>(
                Error::ExpectedBool(rhs.sort),
            ),
    {
        Self::binary(Boolean::Imply, lhs, rhs)
    }

    /// Conjunction; fails unless both operands are boolean.
    pub fn and(lhs: Expression, rhs: Expression) -> (r: Result<Expression, Error>)
        ensures
            r is Ok <==> (lhs.sort is Bool && rhs.sort is Bool),
            r is Ok ==> r.unwrap()@ == boolean_view(Boolean::And, seq![lhs@, rhs@]),
            !(lhs.sort is Bool) ==> r == Err::<Expression, Error>(Error::ExpectedBool(lhs.sort)),
            lhs.sort is Bool && !(rhs.sort is Bool) ==> r == Err::<Expression, Error>(
                Error::ExpectedBool(rhs.sort),
            ),
    {
        Self::binary(Boolean::And, lhs, rhs)
    }

    /// Disjunction; fails unless both operands are boolean.
    pub fn or(lhs: Expression, rhs: Expression) -> (r: Result<Expression, Error>)
        ensures
            r is Ok <==> (lhs.sort is Bool && rhs.sort is Bool),
            r is Ok ==> r.unwrap()@ == boolean_view(Boolean::Or, seq![lhs@, rhs@]),
            !(lhs.sort is Bool) ==> r == Err::<Expression, Error>(Error::ExpectedBool(lhs.sort)),
            lhs.sort is Bool && !(rhs.sort is Bool) ==> r == Err::<Expression, Error>(
                Error::ExpectedBool(rhs.sort),
            ),
    {
        Self::binary(Boolean::Or, lhs, rhs)
    }

    /// Exclusive or; fails unless both operands are boolean.
    pub fn xor(lhs: Expression, rhs: Expression) -> (r: Result<Expression, Error>)
        ensures
            r is Ok <==> (lhs.sort is Bool && rhs.sort is Bool),
            r is Ok ==> r.unwrap()@ == boolean_view(Boolean::Xor, seq![lhs@, rhs@]),
            !(lhs.sort is Bool) ==> r == Err::<Expression, Error>(Error::ExpectedBool(lhs.sort)),
            lhs.sort is Bool && !(rhs.sort is Bool) ==> r == Err::<Expression, Error>(
                Error::ExpectedBool(rhs.sort),
            ),
    {
        Self::binary(Boolean::Xor, lhs, rhs)
    }

    /// The n-ary operator `op` over `formulas`: the constant `empty` for no formulas, fails at the first formula that is not boolean.
    fn nary(op: Boolean, empty: bool, formulas: &[Expression]) -> (r: Result<Expression, Error>)
        ensures
            r is Ok <==> (forall|i: int| 0 <= i < formulas@.len() ==> (#[trigger] formulas@[i]).sort is Bool),
            r is Ok && formulas@.len() == 0 ==> r.unwrap()@ == constant_view(Constant::Boolean(empty)),
            r is Ok && formulas@.len() > 0 ==> r.unwrap()@ == boolean_view(op, views(formulas@)),
            r is Err ==> exists|i: int|
                0 <= i < formulas@.len() && !((#[trigger] formulas@[i]).sort is Bool) && (forall|j: int|
                    0 <= j < i ==> (#[trigger] formulas@[j]).sort is Bool) && r == Err::<Expression, Error>(
                    Error::ExpectedBool(formulas@[i].sort),
                ),
    {
        if formulas.len() == 0 {
            return Ok(Self::constant(empty));
        }
        let mut operands: Vec<Expression> = Vec::new();
        let mut i: usize = 0;
        while i < formulas.len()
            invariant
                0 <= i <= formulas@.len(),
                operands@.len() == i,
                forall|j: int| 0 <= j < i ==> (#[trigger] operands@[j])@ == formulas@[j]@,
                forall|j: int| 0 <= j < i ==> (#[trigger] formulas@[j]).sort is Bool,
            decreases formulas@.len() - i,
        {
            let f = &formulas[i];
            if let Err(e) = f.sort().expect_bool() {
                return Err(e);
            }
            operands.push(f.clone());
            i += 1;
        }
        let ghost ops = operands@;
        let r = Expression::new(Operator::Boolean(op), operands, Sort::boolean());
        assert(r@.operands =~= views(formulas@));
        Ok(r)
    }

    /// The conjunction of all formulas (`true` if there are none).
    pub fn conjunction(formulas: &[Expression]) -> (r: Result<Expression, Error>)
        ensures
            r is Ok <==> (forall|i: int| 0 <= i < formulas@.len() ==> (#[trigger] formulas@[i]).sort is Bool),
            r is Ok && formulas@.len() == 0 ==> r.unwrap()@ == constant_view(Constant::Boolean(true)),
            r is Ok && formulas@.len() > 0 ==> r.unwrap()@ == boolean_view(Boolean::And, views(formulas@)),
            r is Err ==> exists|i: int|
                0 <= i < formulas@.len() && !((#[trigger] formulas@[i]).sort is Bool) && (forall|j: int|
                    0 <= j < i ==> (#[trigger] formulas@[j]).sort is Bool) && r == Err::<Expression, Error>(
                    Error::ExpectedBool(formulas@[i].sort),
                ),
    {
        Self::nary(Boolean::And, true, formulas)
    }

    /// The disjunction of all formulas (`false` if there are none).
    pub fn disjunction(formulas: &[Expression]) -> (r: Result<Expression, Error>)
        ensures
            r is Ok <==> (forall|i: int| 0 <= i < formulas@.len() ==> (#[trigger] formulas@[i]).sort is Bool),
            r is Ok && formulas@.len() == 0 ==> r.unwrap()@ == constant_view(Constant::Boolean(false)),
            r is Ok && formulas@.len() > 0 ==> r.unwrap()@ == boolean_view(Boolean::Or, views(formulas@)),
            r is Err ==> exists|i: int|
                0 <= i < formulas@.len() && !((#[trigger] formulas@[i]).sort is Bool) && (forall|j: int|
                    0 <= j < i ==> (#[trigger] formulas@[j]).sort is Bool) && r == Err::<Expression, Error>(
                    Error::ExpectedBool(formulas@[i].sort),
                ),
    {
        Self::nary(Boolean::Or, false, formulas)
    }
}

} // verus!
