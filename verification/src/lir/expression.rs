use crate::error::Error;
use crate::lir::{
    Array, BitVector, Boolean, BranchTargetBuffer, Cache, Constant, Memory, PatternHistoryTable,
    Predictor, Sort, Variable, VariableView,
};
use vstd::prelude::*;

verus! {

/// The operator of an expression.
#[derive(Debug, PartialEq, Eq)]
pub enum Operator {
    Variable(Variable),
    Constant(Constant),
    Ite,
    Equal,
    Nondet,
    Boolean(Boolean),
    BitVector(BitVector),
    Array(Array),
    Memory(Memory),
    Predictor(Predictor),
    Cache(Cache),
    BranchTargetBuffer(BranchTargetBuffer),
    PatternHistoryTable(PatternHistoryTable),
}

/// The mathematical value of an `Operator`.
pub enum OperatorView {
    Variable(VariableView),
    Constant(Constant),
    Ite,
    Equal,
    Nondet,
    Boolean(Boolean),
    BitVector(BitVector),
    Array(Array),
    Memory(Memory),
    Predictor(Predictor),
    Cache(Cache),
    BranchTargetBuffer(BranchTargetBuffer),
    PatternHistoryTable(PatternHistoryTable),
}

impl View for Operator {
    type V = OperatorView;

    open spec fn view(&self) -> OperatorView {
        match self {
            Operator::Variable(v) => OperatorView::Variable(v@),
            Operator::Constant(c) => OperatorView::Constant(*c),
            Operator::Ite => OperatorView::Ite,
            Operator::Equal => OperatorView::Equal,
            Operator::Nondet => OperatorView::Nondet,
            Operator::Boolean(op) => OperatorView::Boolean(*op),
            Operator::BitVector(op) => OperatorView::BitVector(*op),
            Operator::Array(op) => OperatorView::Array(*op),
            Operator::Memory(op) => OperatorView::Memory(*op),
            Operator::Predictor(op) => OperatorView::Predictor(*op),
            Operator::Cache(op) => OperatorView::Cache(*op),
            Operator::BranchTargetBuffer(op) => OperatorView::BranchTargetBuffer(*op),
            Operator::PatternHistoryTable(op) => OperatorView::PatternHistoryTable(*op),
        }
    }
}

impl Clone for Operator {
    fn clone(&self) -> (r: Self)
        ensures
            r@ == self@,
    {
        match self {
            Operator::Variable(v) => Operator::Variable(v.clone()),
            Operator::Constant(c) => Operator::Constant(*c),
            Operator::Ite => Operator::Ite,
            Operator::Equal => Operator::Equal,
            Operator::Nondet => Operator::Nondet,
            Operator::Boolean(op) => Operator::Boolean(*op),
            Operator::BitVector(op) => Operator::BitVector(*op),
            Operator::Array(op) => Operator::Array(*op),
            Operator::Memory(op) => Operator::Memory(*op),
            Operator::Predictor(op) => Operator::Predictor(*op),
            Operator::Cache(op) => Operator::Cache(*op),
            Operator::BranchTargetBuffer(op) => Operator::BranchTargetBuffer(*op),
            Operator::PatternHistoryTable(op) => Operator::PatternHistoryTable(*op),
        }
    }
}

impl Operator {
    /// Equality of operators.
    pub fn equals(&self, other: &Operator) -> (r: bool)
        ensures
            r == (self@ == other@),
    {
        match (self, other) {
            (Operator::Variable(a), Operator::Variable(b)) => a.equals(b),
            (Operator::Constant(a), Operator::Constant(b)) => *a == *b,
            (Operator::Ite, Operator::Ite) => true,
            (Operator::Equal, Operator::Equal) => true,
            (Operator::Nondet, Operator::Nondet) => true,
            (Operator::Boolean(a), Operator::Boolean(b)) => *a == *b,
            (Operator::BitVector(a), Operator::BitVector(b)) => *a == *b,
            (Operator::Array(a), Operator::Array(b)) => *a == *b,
            (Operator::Memory(a), Operator::Memory(b)) => *a == *b,
            (Operator::Predictor(a), Operator::Predictor(b)) => *a == *b,
            (Operator::Cache(a), Operator::Cache(b)) => *a == *b,
            (Operator::BranchTargetBuffer(a), Operator::BranchTargetBuffer(b)) => *a == *b,
            (Operator::PatternHistoryTable(a), Operator::PatternHistoryTable(b)) => *a == *b,
            _ => false,
        }
    }
}

/// An expression: an operator applied to operands, with the sort of its result.
#[derive(Debug, PartialEq, Eq)]
pub struct Expression {
    pub operator: Operator,
    pub operands: Vec<Expression>,
    pub sort: Sort,
}

/// The mathematical value of an `Expression`.
pub struct ExpressionView {
    pub operator: OperatorView,
    pub operands: Seq<ExpressionView>,
    pub sort: Sort,
}

impl Expression {
    /// The mathematical value of the expression.
    pub open spec fn view(&self) -> ExpressionView
        decreases self,
    {
        ExpressionView {
            operator: self.operator@,
            operands: Seq::new(
                self.operands@.len(),
                |i: int|
                    if 0 <= i < self.operands@.len() {
                        self.operands@[i].view()
                    } else {
                        arbitrary()
                    },
            ),
            sort: self.sort,
        }
    }
}

/// The views of a sequence of expressions.
pub open spec fn views(s: Seq<Expression>) -> Seq<ExpressionView> {
    Seq::new(s.len(), |i: int| s[i]@)
}

/// The view of an expression that consists of the variable `v`.
pub open spec fn variable_view(v: VariableView) -> ExpressionView {
    ExpressionView { operator: OperatorView::Variable(v), operands: Seq::empty(), sort: v.sort }
}

/// The view of an expression that consists of the constant `c`.
pub open spec fn constant_view(c: Constant) -> ExpressionView {
    ExpressionView { operator: OperatorView::Constant(c), operands: Seq::empty(), sort: c.spec_sort() }
}

/// All variables that occur in an expression, from left to right.
pub open spec fn variables_of(e: ExpressionView) -> Seq<VariableView>
    decreases e, 0nat,
{
    match e.operator {
        OperatorView::Variable(v) => seq![v],
        _ => variables_of_all(e.operands),
    }
}

/// All variables that occur in a sequence of expressions, from left to right.
pub open spec fn variables_of_all(s: Seq<ExpressionView>) -> Seq<VariableView>
    decreases s, 1nat,
{
    if s.len() == 0 {
        Seq::empty()
    } else {
        variables_of_all(s.drop_last()) + variables_of(s.last())
    }
}

impl Clone for Expression {
    fn clone(&self) -> (r: Self)
        ensures
            r@ == self@,
        decreases self,
    {
        let mut operands: Vec<Expression> = Vec::new();
        let mut i: usize = 0;
        while i < self.operands.len()
            invariant
                0 <= i <= self.operands@.len(),
                operands@.len() == i,
                forall|j: int| 0 <= j < i ==> (#[trigger] operands@[j])@ == self.operands@[j]@,
            decreases self.operands@.len() - i,
        {
            proof {
                assert(decreases_to!(self => self.operands@[i as int]));
            }
            operands.push(self.operands[i].clone());
            i += 1;
        }
        let r = Expression { operator: self.operator.clone(), operands, sort: self.sort.clone() };
        assert(r@.operands =~= self@.operands);
        r
    }
}

impl Expression {
    /// Create an expression from its parts.
    pub fn new(operator: Operator, operands: Vec<Expression>, sort: Sort) -> (r: Self)
        ensures
            r.operator == operator,
            r.operands == operands,
            r.sort == sort,
            r@ == (ExpressionView { operator: operator@, operands: views(operands@), sort: sort }),
    {
        let r = Expression { operator, operands, sort };
        assert(r@.operands =~= views(r.operands@));
        r
    }

    /// An expression with a single operand.
    pub(crate) fn unary(operator: Operator, a: Expression, sort: Sort) -> (r: Self)
        ensures
            r@ == (ExpressionView { operator: operator@, operands: seq![a@], sort: sort }),
    {
        let ghost av = a@;
        let r = Expression::new(operator, vec![a], sort);
        assert(r@.operands =~= seq![av]);
        r
    }

    /// An expression with two operands.
    pub(crate) fn binary(operator: Operator, a: Expression, b: Expression, sort: Sort) -> (r: Self)
        ensures
            r@ == (ExpressionView { operator: operator@, operands: seq![a@, b@], sort: sort }),
    {
        let ghost (av, bv) = (a@, b@);
        let r = Expression::new(operator, vec![a, b], sort);
        assert(r@.operands =~= seq![av, bv]);
        r
    }

    /// An expression with three operands.
    pub(crate) fn ternary(
        operator: Operator,
        a: Expression,
        b: Expression,
        c: Expression,
        sort: Sort,
    ) -> (r: Self)
        ensures
            r@ == (ExpressionView { operator: operator@, operands: seq![a@, b@, c@], sort: sort }),
    {
        let ghost (av, bv, cv) = (a@, b@, c@);
        let r = Expression::new(operator, vec![a, b, c], sort);
        assert(r@.operands =~= seq![av, bv, cv]);
        r
    }

    pub fn operator(&self) -> (r: &Operator)
        ensures
            *r == self.operator,
    {
        &self.operator
    }

    pub fn operands(&self) -> (r: &[Expression])
        ensures
            r@ == self.operands@,
    {
        self.operands.as_slice()
    }

    pub fn sort(&self) -> (r: &Sort)
        ensures
            *r == self.sort,
    {
        &self.sort
    }

    /// The expression that consists of the variable.
    pub fn variable(variable: Variable) -> (r: Expression)
        ensures
            r@ == variable_view(variable@),
    {
        let sort = variable.sort.clone();
        let r = Expression::new(Operator::Variable(variable), Vec::new(), sort);
        assert(r@.operands =~= Seq::empty());
        r
    }

    /// The expression that consists of the constant.
    pub fn constant(constant: Constant) -> (r: Expression)
        ensures
            r@ == constant_view(constant),
    {
        let sort = constant.sort();
        let r = Expression::new(Operator::Constant(constant), Vec::new(), sort);
        assert(r@.operands =~= Seq::empty());
        r
    }

    /// A nondeterministic value of the given sort.
    pub fn nondet(sort: Sort) -> (r: Expression)
        ensures
            r@ == (ExpressionView { operator: OperatorView::Nondet, operands: Seq::empty(), sort: sort }),
    {
        let r = Expression::new(Operator::Nondet, Vec::new(), sort);
        assert(r@.operands =~= Seq::empty());
        r
    }

    /// If-then-else; fails unless `cond` is boolean and both branches have the same sort.
    pub fn ite(cond: Expression, then: Expression, else_: Expression) -> (r: Result<Expression, Error>)
        ensures
            r is Ok <==> (cond.sort is Bool && then.sort == else_.sort),
            r is Ok ==> r.unwrap()@ == (ExpressionView {
                operator: OperatorView::Ite,
                operands: seq![cond@, then@, else_@],
                sort: then.sort,
            }),
            !(cond.sort is Bool) ==> r == Err::<Expression, Error>(Error::ExpectedBool(cond.sort)),
            cond.sort is Bool && then.sort != else_.sort ==> r == Err::<Expression, Error>(
                Error::ExpectedSort { expected: else_.sort, actual: then.sort },
            ),
    {
        cond.sort().expect_bool()?;
        then.sort().expect_sort(else_.sort())?;
        let sort = then.sort.clone();
        let ghost (c, t, e) = (cond@, then@, else_@);
        let r = Expression::new(Operator::Ite, vec![cond, then, else_], sort);
        assert(r@.operands =~= seq![c, t, e]);
        Ok(r)
    }

    /// Equality of two expressions of the same sort.
    pub fn equal(lhs: Expression, rhs: Expression) -> (r: Result<Expression, Error>)
        ensures
            r is Ok <==> lhs.sort == rhs.sort,
            r is Ok ==> r.unwrap()@ == (ExpressionView {
                operator: OperatorView::Equal,
                operands: seq![lhs@, rhs@],
                sort: Sort::Bool,
            }),
            r is Err ==> r == Err::<Expression, Error>(
                Error::ExpectedSort { expected: rhs.sort, actual: lhs.sort },
            ),
    {
        lhs.sort().expect_sort(rhs.sort())?;
        let ghost (l, rr) = (lhs@, rhs@);
        let r = Expression::new(Operator::Equal, vec![lhs, rhs], Sort::boolean());
        assert(r@.operands =~= seq![l, rr]);
        Ok(r)
    }

    /// Disequality of two expressions of the same sort: `not (= lhs rhs)`.
    pub fn unequal(lhs: Expression, rhs: Expression) -> (r: Result<Expression, Error>)
        ensures
            r is Ok <==> lhs.sort == rhs.sort,
            r is Ok ==> r.unwrap()@ == (ExpressionView {
                operator: OperatorView::Boolean(Boolean::Not),
                operands: seq![
                    ExpressionView {
                        operator: OperatorView::Equal,
                        operands: seq![lhs@, rhs@],
                        sort: Sort::Bool,
                    },
                ],
                sort: Sort::Bool,
            }),
            r is Err ==> r == Err::<Expression, Error>(
                Error::ExpectedSort { expected: rhs.sort, actual: lhs.sort },
            ),
    {
        Boolean::not(Self::equal(lhs, rhs)?)
    }

    /// Whether the expression is a constant.
    pub fn is_constant(&self) -> (r: bool)
        ensures
            r == (self.operator is Constant),
    {
        match self.operator {
            Operator::Constant(_) => true,
            _ => false,
        }
    }

    /// Whether the expression is a variable.
    pub fn is_variable(&self) -> (r: bool)
        ensures
            r == (self.operator is Variable),
    {
        match self.operator {
            Operator::Variable(_) => true,
            _ => false,
        }
    }

    /// Structural equality of expressions.
    pub fn equals(&self, other: &Expression) -> (r: bool)
        ensures
            r == (self@ == other@),
        decreases self,
    {
        if !self.operator.equals(&other.operator) || !self.sort.equals(&other.sort)
            || self.operands.len() != other.operands.len() {
            proof {
                if self.operands.len() != other.operands.len() {
                    assert(self@.operands.len() != other@.operands.len());
                }
            }
            return false;
        }
        let mut i: usize = 0;
        while i < self.operands.len()
            invariant
                0 <= i <= self.operands@.len(),
                self.operands@.len() == other.operands@.len(),
                forall|j: int| 0 <= j < i ==> self.operands@[j]@ == other.operands@[j]@,
            decreases self.operands@.len() - i,
        {
            proof {
                assert(decreases_to!(self => self.operands@[i as int]));
            }
            if !self.operands[i].equals(&other.operands[i]) {
                assert(self@.operands[i as int] != other@.operands[i as int]);
                return false;
            }
            i += 1;
        }
        assert(self@.operands =~= other@.operands);
        true
    }

    /// Appends references to all variables of this expression, from left to right.
    fn collect_variables<'a>(&'a self, out: &mut Vec<&'a Variable>)
        ensures
            final(out)@.len() == old(out)@.len() + variables_of(self@).len(),
            forall|i: int| 0 <= i < old(out)@.len() ==> final(out)@[i] == old(out)@[i],
            forall|i: int|
                0 <= i < variables_of(self@).len() ==> (#[trigger] final(out)@[old(out)@.len() + i])@
                    == variables_of(self@)[i],
        decreases self,
    {
        match &self.operator {
            Operator::Variable(variable) => {
                out.push(variable);
            },
            _ => {
                let ghost start = out@.len();
                let mut i: usize = 0;
                while i < self.operands.len()
                    invariant
                        0 <= i <= self.operands@.len(),
                        !(self.operator is Variable),
                        out@.len() == start + variables_of_all(self@.operands.take(i as int)).len(),
                        start == old(out)@.len(),
                        forall|k: int| 0 <= k < start ==> out@[k] == old(out)@[k],
                        forall|k: int|
                            0 <= k < variables_of_all(self@.operands.take(i as int)).len() ==> (
                            #[trigger] out@[start + k])@ == variables_of_all(
                                self@.operands.take(i as int),
                            )[k],
                    decreases self.operands@.len() - i,
                {
                    proof {
                        assert(decreases_to!(self => self.operands@[i as int]));
                    }
                    let ghost before = out@;
                    self.operands[i].collect_variables(out);
                    proof {
                        let t = self@.operands.take(i as int + 1);
                        assert(t.drop_last() =~= self@.operands.take(i as int));
                        assert(t.last() == self.operands@[i as int]@);
                        let a = variables_of_all(self@.operands.take(i as int));
                        let b = variables_of(self.operands@[i as int]@);
                        assert(variables_of_all(t) == a + b);
                        assert forall|k: int| 0 <= k < (a + b).len() implies (#[trigger] out@[start
                            + k])@ == (a + b)[k] by {
                            if k < a.len() {
                                assert(out@[start + k] == before[start + k]);
                            } else {
                                assert(out@[before.len() + (k - a.len())]@ == b[k - a.len()]);
                            }
                        }
                    }
                    i += 1;
                }
                assert(self@.operands.take(self@.operands.len() as int) =~= self@.operands);
            },
        }
    }

    /// Returns all variables used in this expression, from left to right.
    pub fn variables(&self) -> (r: Vec<&Variable>)
        ensures
            r@.len() == variables_of(self@).len(),
            forall|i: int| 0 <= i < r@.len() ==> (#[trigger] r@[i])@ == variables_of(self@)[i],
    {
        let mut out: Vec<&Variable> = Vec::new();
        self.collect_variables(&mut out);
        assert forall|i: int| 0 <= i < out@.len() implies (#[trigger] out@[i])@ == variables_of(self@)[i] by {
            assert(out@[0 + i] == out@[i]);
        }
        out
    }
}

} // verus!
