use crate::error::Error;
use crate::lir::{variables_of, Expression, ExpressionView, Sort, Variable, VariableView};
use vstd::prelude::*;

verus! {

/// A node of a LIR program.
#[derive(Debug, PartialEq, Eq)]
pub enum Node {
    /// A simple comment.
    Comment(String),
    /// Bind the expression to a variable.
    Let { var: Variable, expr: Expression },
    /// Assert that the condition is true.
    Assert { condition: Expression },
    /// Assume that the condition is true.
    Assume { condition: Expression },
}

/// The mathematical value of a `Node`.
pub enum NodeView {
    Comment(Seq<char>),
    Let { var: VariableView, expr: ExpressionView },
    Assert { condition: ExpressionView },
    Assume { condition: ExpressionView },
}

impl Node {
    /// The mathematical value of the node.
    pub open spec fn view(&self) -> NodeView {
        match self {
            Node::Comment(text) => NodeView::Comment(text@),
            Node::Let { var, expr } => NodeView::Let { var: var@, expr: expr@ },
            Node::Assert { condition } => NodeView::Assert { condition: condition@ },
            Node::Assume { condition } => NodeView::Assume { condition: condition@ },
        }
    }
}

/// The variables a node reads, from left to right.
pub open spec fn node_used(n: NodeView) -> Seq<VariableView> {
    match n {
        NodeView::Comment(_) => Seq::empty(),
        NodeView::Let { expr, .. } => variables_of(expr),
        NodeView::Assert { condition } => variables_of(condition),
        NodeView::Assume { condition } => variables_of(condition),
    }
}

/// The variables a node defines.
pub open spec fn node_defined(n: NodeView) -> Seq<VariableView> {
    match n {
        NodeView::Let { var, .. } => seq![var],
        _ => Seq::empty(),
    }
}

/// The expressions of a node.
pub open spec fn node_expressions(n: NodeView) -> Seq<ExpressionView> {
    match n {
        NodeView::Comment(_) => Seq::empty(),
        NodeView::Let { expr, .. } => seq![expr],
        NodeView::Assert { condition } => seq![condition],
        NodeView::Assume { condition } => seq![condition],
    }
}

impl Clone for Node {
    fn clone(&self) -> (r: Self)
        ensures
            r@ == self@,
    {
        match self {
            Node::Comment(text) => Node::Comment(text.clone()),
            Node::Let { var, expr } => Node::Let { var: var.clone(), expr: expr.clone() },
            Node::Assert { condition } => Node::Assert { condition: condition.clone() },
            Node::Assume { condition } => Node::Assume { condition: condition.clone() },
        }
    }
}

impl Node {
    /// Create a new comment.
    pub fn comment(text: &str) -> (r: Self)
        ensures
            r@ == NodeView::Comment(text@),
    {
        let owned = text.to_string();
        proof {
            vstd::string::to_string_from_display_ensures_for_str(text, owned);
        }
        Node::Comment(owned)
    }

    /// Create a new variable binding; fails unless `expr` has the sort of `var`.
    pub fn assign(var: Variable, expr: Expression) -> (r: Result<Self, Error>)
        ensures
            r is Ok <==> expr.sort == var.sort,
            r is Ok ==> r.unwrap()@ == (NodeView::Let { var: var@, expr: expr@ }),
            r is Err ==> r == Err::<Node, Error>(
                Error::ExpectedSort { expected: var.sort, actual: expr.sort },
            ),
    {
        expr.sort().expect_sort(var.sort())?;
        Ok(Node::Let { var, expr })
    }

    /// Create a new assertion; fails unless `condition` is boolean.
    pub fn assertion(condition: Expression) -> (r: Result<Self, Error>)
        ensures
            r is Ok <==> condition.sort is Bool,
            r is Ok ==> r.unwrap()@ == (NodeView::Assert { condition: condition@ }),
            r is Err ==> r == Err::<Node, Error>(Error::ExpectedBool(condition.sort)),
    {
        condition.sort().expect_bool()?;
        Ok(Node::Assert { condition })
    }

    /// Create a new assumption; fails unless `condition` is boolean.
    pub fn assumption(condition: Expression) -> (r: Result<Self, Error>)
        ensures
            r is Ok <==> condition.sort is Bool,
            r is Ok ==> r.unwrap()@ == (NodeView::Assume { condition: condition@ }),
            r is Err ==> r == Err::<Node, Error>(Error::ExpectedBool(condition.sort)),
    {
        condition.sort().expect_bool()?;
        Ok(Node::Assume { condition })
    }

    /// Returns whether this node is a comment.
    pub fn is_comment(&self) -> (r: bool)
        ensures
            r == (*self is Comment),
    {
        match self {
            Node::Comment(..) => true,
            _ => false,
        }
    }

    /// Returns whether this node is a variable binding.
    pub fn is_let(&self) -> (r: bool)
        ensures
            r == (*self is Let),
    {
        match self {
            Node::Let { .. } => true,
            _ => false,
        }
    }

    /// Returns whether this node is an assertion.
    pub fn is_assert(&self) -> (r: bool)
        ensures
            r == (*self is Assert),
    {
        match self {
            Node::Assert { .. } => true,
            _ => false,
        }
    }

    /// Returns whether this node is an assumption.
    pub fn is_assume(&self) -> (r: bool)
        ensures
            r == (*self is Assume),
    {
        match self {
            Node::Assume { .. } => true,
            _ => false,
        }
    }

    /// Get each `Variable` used by this `Node`.
    pub fn variables_used(&self) -> (r: Vec<&Variable>)
        ensures
            r@.len() == node_used(self@).len(),
            forall|i: int| 0 <= i < r@.len() ==> (#[trigger] r@[i])@ == node_used(self@)[i],
    {
        match self {
            Node::Let { expr, .. } => expr.variables(),
            Node::Assert { condition } => condition.variables(),
            Node::Assume { condition } => condition.variables(),
            Node::Comment(_) => Vec::new(),
        }
    }

    /// Get each `Variable` defined by this `Node`.
    pub fn variables_defined(&self) -> (r: Vec<&Variable>)
        ensures
            r@.len() == node_defined(self@).len(),
            forall|i: int| 0 <= i < r@.len() ==> (#[trigger] r@[i])@ == node_defined(self@)[i],
    {
        match self {
            Node::Let { var, .. } => vec![var],
            _ => Vec::new(),
        }
    }

    /// Get each `Variable` referenced by this `Node`: the used ones, then the defined ones.
    pub fn variables(&self) -> (r: Vec<&Variable>)
        ensures
            r@.len() == node_used(self@).len() + node_defined(self@).len(),
            forall|i: int|
                0 <= i < r@.len() ==> (#[trigger] r@[i])@ == (node_used(self@) + node_defined(
                    self@,
                ))[i],
    {
        let mut r = self.variables_used();
        let mut defined = self.variables_defined();
        let ghost (u, d) = (r@, defined@);
        r.append(&mut defined);
        proof {
            assert forall|i: int| 0 <= i < r@.len() implies (#[trigger] r@[i])@ == (node_used(self@)
                + node_defined(self@))[i] by {
                if i >= u.len() {
                    assert(r@[i] == d[i - u.len()]);
                }
            }
        }
        r
    }

    /// Get each `Expression` of this `Node`.
    pub fn expressions(&self) -> (r: Vec<&Expression>)
        ensures
            r@.len() == node_expressions(self@).len(),
            forall|i: int| 0 <= i < r@.len() ==> (#[trigger] r@[i])@ == node_expressions(self@)[i],
    {
        match self {
            Node::Let { expr, .. } => vec![expr],
            Node::Assert { condition } => vec![condition],
            Node::Assume { condition } => vec![condition],
            Node::Comment(_) => Vec::new(),
        }
    }

    /// Structural equality of nodes.
    pub fn equals(&self, other: &Node) -> (r: bool)
        ensures
            r == (self@ == other@),
    {
        match (self, other) {
            (Node::Comment(a), Node::Comment(b)) => *a == *b,
            (Node::Let { var: v1, expr: e1 }, Node::Let { var: v2, expr: e2 }) => v1.equals(v2)
                && e1.equals(e2),
            (Node::Assert { condition: c1 }, Node::Assert { condition: c2 }) => c1.equals(c2),
            (Node::Assume { condition: c1 }, Node::Assume { condition: c2 }) => c1.equals(c2),
            _ => false,
        }
    }
}

} // verus!
