//! Substitution of variables in expressions and nodes.
use crate::lir::{
    variables_of, variables_of_all, ConstantVariables, CopiedVariables, Expression, ExpressionView, Node, NodeView,
    Operator, OperatorView, VariableView,
};
use vstd::prelude::*;

verus! {

/// `e` with every variable bound in `m` replaced by its binding.
pub open spec fn substitute(e: ExpressionView, m: Map<VariableView, ExpressionView>) -> ExpressionView
    decreases e,
{
    match e.operator {
        OperatorView::Variable(v) => if m.contains_key(v) {
            m[v]
        } else {
            e
        },
        _ => ExpressionView {
            operator: e.operator,
            operands: Seq::new(
                e.operands.len(),
                |i: int|
                    if 0 <= i < e.operands.len() {
                        substitute(e.operands[i], m)
                    } else {
                        arbitrary()
                    },
            ),
            sort: e.sort,
        },
    }
}

/// `e` with every variable that is a key of `m` renamed to the variable `m` maps it to.
pub open spec fn rename(e: ExpressionView, m: Map<VariableView, VariableView>) -> ExpressionView
    decreases e,
{
    match e.operator {
        OperatorView::Variable(v) => if m.contains_key(v) {
            ExpressionView { operator: OperatorView::Variable(m[v]), operands: e.operands, sort: e.sort }
        } else {
            e
        },
        _ => ExpressionView {
            operator: e.operator,
            operands: Seq::new(
                e.operands.len(),
                |i: int|
                    if 0 <= i < e.operands.len() {
                        rename(e.operands[i], m)
                    } else {
                        arbitrary()
                    },
            ),
            sort: e.sort,
        },
    }
}

/// The variable `v` renamed along `m`.
pub open spec fn renamed_variable(v: VariableView, m: Map<VariableView, VariableView>) -> VariableView {
    if m.contains_key(v) {
        m[v]
    } else {
        v
    }
}

/// A value occurs in a concatenation iff it occurs in one of its parts.
pub proof fn lemma_concat_contains<A>(a: Seq<A>, b: Seq<A>, x: A)
    ensures
        (a + b).contains(x) <==> (a.contains(x) || b.contains(x)),
{
    if (a + b).contains(x) {
        let i = choose|i: int| 0 <= i < (a + b).len() && (a + b)[i] == x;
        if i < a.len() {
            assert(a[i] == x);
        } else {
            assert(b[i - a.len()] == x);
        }
    }
    if a.contains(x) {
        let i = choose|i: int| 0 <= i < a.len() && a[i] == x;
        assert((a + b)[i] == x);
    }
    if b.contains(x) {
        let i = choose|i: int| 0 <= i < b.len() && b[i] == x;
        assert((a + b)[a.len() + i] == x);
    }
}

/// A variable occurs in a sequence of expressions iff it occurs in one of them.
pub proof fn lemma_variables_of_all(s: Seq<ExpressionView>, v: VariableView)
    ensures
        variables_of_all(s).contains(v) <==> exists|i: int| 0 <= i < s.len() && #[trigger] variables_of(s[i]).contains(v),
    decreases s.len(),
{
    if s.len() > 0 {
        lemma_variables_of_all(s.drop_last(), v);
        lemma_concat_contains(variables_of_all(s.drop_last()), variables_of(s.last()), v);
        if exists|i: int| 0 <= i < s.len() && #[trigger] variables_of(s[i]).contains(v) {
            let i = choose|i: int| 0 <= i < s.len() && #[trigger] variables_of(s[i]).contains(v);
            if i < s.len() - 1 {
                assert(variables_of(s.drop_last()[i]).contains(v));
            }
        }
        if exists|i: int| 0 <= i < s.drop_last().len() && #[trigger] variables_of(s.drop_last()[i]).contains(v) {
            let i = choose|i: int| 0 <= i < s.drop_last().len() && #[trigger] variables_of(s.drop_last()[i]).contains(v);
            assert(variables_of(s[i]).contains(v));
        }
    }
}

/// Substituting variables that do not occur in an expression leaves it as it is.
pub proof fn lemma_substitute_unbound(e: ExpressionView, m: Map<VariableView, ExpressionView>)
    requires
        forall|v: VariableView| #[trigger] m.contains_key(v) ==> !variables_of(e).contains(v),
    ensures
        substitute(e, m) == e,
    decreases e,
{
    match e.operator {
        OperatorView::Variable(v) => {
            assert(variables_of(e)[0] == v);
        },
        _ => {
            assert forall|i: int| 0 <= i < e.operands.len() implies substitute(e.operands[i], m) == e.operands[i] by {
                assert forall|w: VariableView| #[trigger] m.contains_key(w) implies !variables_of(e.operands[i]).contains(
                    w,
                ) by {
                    lemma_variables_of_all(e.operands, w);
                }
                lemma_substitute_unbound(e.operands[i], m);
            }
            assert(substitute(e, m).operands =~= e.operands);
        },
    }
}

/// Renaming an expression renames the variables that occur in it, one by one.
pub proof fn lemma_rename_variables(e: ExpressionView, m: Map<VariableView, VariableView>)
    ensures
        variables_of(rename(e, m)) == variables_of(e).map_values(|v: VariableView| renamed_variable(v, m)),
    decreases e, 0nat,
{
    match e.operator {
        OperatorView::Variable(v) => {
            assert(variables_of(e).map_values(|v: VariableView| renamed_variable(v, m)) =~= seq![renamed_variable(v, m)]);
        },
        _ => {
            lemma_rename_variables_all(e.operands, rename(e, m).operands, m);
        },
    }
}

/// Renaming each expression of a sequence renames the variables that occur in them.
pub proof fn lemma_rename_variables_all(
    ops: Seq<ExpressionView>,
    renamed: Seq<ExpressionView>,
    m: Map<VariableView, VariableView>,
)
    requires
        renamed.len() == ops.len(),
        forall|i: int| 0 <= i < ops.len() ==> renamed[i] == rename(ops[i], m),
    ensures
        variables_of_all(renamed) == variables_of_all(ops).map_values(|v: VariableView| renamed_variable(v, m)),
    decreases ops, 1nat,
{
    if ops.len() > 0 {
        lemma_rename_variables_all(ops.drop_last(), renamed.drop_last(), m);
        lemma_rename_variables(ops.last(), m);
        assert(renamed.last() == rename(ops.last(), m));
        let a = variables_of_all(ops.drop_last());
        let b = variables_of(ops.last());
        assert((a + b).map_values(|v: VariableView| renamed_variable(v, m)) =~= a.map_values(
            |v: VariableView| renamed_variable(v, m),
        ) + b.map_values(|v: VariableView| renamed_variable(v, m)));
    } else {
        assert(variables_of_all(renamed) =~= variables_of_all(ops).map_values(|v: VariableView| renamed_variable(v, m)));
    }
}

/// The node with `substitute` applied to each of its expressions.
pub open spec fn node_substitute(n: NodeView, m: Map<VariableView, ExpressionView>) -> NodeView {
    match n {
        NodeView::Comment(t) => NodeView::Comment(t),
        NodeView::Let { var, expr } => NodeView::Let { var: var, expr: substitute(expr, m) },
        NodeView::Assert { condition } => NodeView::Assert { condition: substitute(condition, m) },
        NodeView::Assume { condition } => NodeView::Assume { condition: substitute(condition, m) },
    }
}

/// The node with `rename` applied to each of its expressions.
pub open spec fn node_rename(n: NodeView, m: Map<VariableView, VariableView>) -> NodeView {
    match n {
        NodeView::Comment(t) => NodeView::Comment(t),
        NodeView::Let { var, expr } => NodeView::Let { var: var, expr: rename(expr, m) },
        NodeView::Assert { condition } => NodeView::Assert { condition: rename(condition, m) },
        NodeView::Assume { condition } => NodeView::Assume { condition: rename(condition, m) },
    }
}

impl Expression {
    /// This expression with every variable bound in `constants` replaced by its binding.
    pub fn substituted(&self, constants: &ConstantVariables) -> (r: Expression)
        requires
            constants.wf(),
        ensures
            r@ == substitute(self@, constants@),
        decreases self,
    {
        match &self.operator {
            Operator::Variable(v) => {
                match constants.get(v) {
                    Some(c) => c.clone(),
                    None => self.clone(),
                }
            },
            _ => {
                let mut operands: Vec<Expression> = Vec::new();
                let mut i: usize = 0;
                while i < self.operands.len()
                    invariant
                        0 <= i <= self.operands@.len(),
                        constants.wf(),
                        operands@.len() == i,
                        forall|j: int|
                            0 <= j < i ==> (#[trigger] operands@[j])@ == substitute(
                                self.operands@[j]@,
                                constants@,
                            ),
                    decreases self.operands@.len() - i,
                {
                    proof {
                        assert(decreases_to!(self => self.operands@[i as int]));
                    }
                    operands.push(self.operands[i].substituted(constants));
                    i += 1;
                }
                let r = Expression {
                    operator: self.operator.clone(),
                    operands,
                    sort: self.sort.clone(),
                };
                assert(r@.operands =~= substitute(self@, constants@).operands);
                r
            },
        }
    }

    /// This expression with every variable that is a key of `copies` renamed to its source.
    pub fn renamed(&self, copies: &CopiedVariables) -> (r: Expression)
        requires
            copies.wf(),
        ensures
            r@ == rename(self@, copies@),
        decreases self,
    {
        match &self.operator {
            Operator::Variable(v) => {
                match copies.get(v) {
                    Some(src) => {
                        let mut r = self.clone();
                        let ghost operands = r@.operands;
                        r.operator = Operator::Variable(src.clone());
                        assert(r@.operands =~= operands);
                        r
                    },
                    None => self.clone(),
                }
            },
            _ => {
                let mut operands: Vec<Expression> = Vec::new();
                let mut i: usize = 0;
                while i < self.operands.len()
                    invariant
                        0 <= i <= self.operands@.len(),
                        copies.wf(),
                        operands@.len() == i,
                        forall|j: int|
                            0 <= j < i ==> (#[trigger] operands@[j])@ == rename(self.operands@[j]@, copies@),
                    decreases self.operands@.len() - i,
                {
                    proof {
                        assert(decreases_to!(self => self.operands@[i as int]));
                    }
                    operands.push(self.operands[i].renamed(copies));
                    i += 1;
                }
                let r = Expression {
                    operator: self.operator.clone(),
                    operands,
                    sort: self.sort.clone(),
                };
                assert(r@.operands =~= rename(self@, copies@).operands);
                r
            },
        }
    }
}

impl Node {
    /// This node with its expressions substituted.
    pub fn substituted(&self, constants: &ConstantVariables) -> (r: Node)
        requires
            constants.wf(),
        ensures
            r@ == node_substitute(self@, constants@),
    {
        match self {
            Node::Comment(t) => Node::Comment(t.clone()),
            Node::Let { var, expr } => Node::Let { var: var.clone(), expr: expr.substituted(constants) },
            Node::Assert { condition } => Node::Assert { condition: condition.substituted(constants) },
            Node::Assume { condition } => Node::Assume { condition: condition.substituted(constants) },
        }
    }

    /// This node with its expressions renamed.
    pub fn renamed(&self, copies: &CopiedVariables) -> (r: Node)
        requires
            copies.wf(),
        ensures
            r@ == node_rename(self@, copies@),
    {
        match self {
            Node::Comment(t) => Node::Comment(t.clone()),
            Node::Let { var, expr } => Node::Let { var: var.clone(), expr: expr.renamed(copies) },
            Node::Assert { condition } => Node::Assert { condition: condition.renamed(copies) },
            Node::Assume { condition } => Node::Assume { condition: condition.renamed(copies) },
        }
    }
}

} // verus!
