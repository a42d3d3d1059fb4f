use crate::error::Error;
use crate::ir::Validate;
use crate::lir::{
    node_defined, node_expressions, node_used, validate_program, validation_outcome, Expression,
    ExpressionView, Node, NodeView, Variable, VariableView,
};
use vstd::prelude::*;

verus! {

/// A LIR program: a sequence of nodes.
#[derive(Debug, PartialEq, Eq)]
pub struct Program {
    pub nodes: Vec<Node>,
}

/// The views of a sequence of variable references.
pub open spec fn variable_views(s: Seq<&Variable>) -> Seq<VariableView> {
    Seq::new(s.len(), |i: int| s[i]@)
}

/// The views of a sequence of expression references.
pub open spec fn expression_views(s: Seq<&Expression>) -> Seq<ExpressionView> {
    Seq::new(s.len(), |i: int| s[i]@)
}

/// The variables used by the nodes, node after node.
pub open spec fn program_used(nodes: Seq<NodeView>) -> Seq<VariableView> {
    nodes.map_values(|n: NodeView| node_used(n)).flatten_alt()
}

/// The variables defined by the nodes, node after node.
pub open spec fn program_defined(nodes: Seq<NodeView>) -> Seq<VariableView> {
    nodes.map_values(|n: NodeView| node_defined(n)).flatten_alt()
}

/// The expressions of the nodes, node after node.
pub open spec fn program_expressions(nodes: Seq<NodeView>) -> Seq<ExpressionView> {
    nodes.map_values(|n: NodeView| node_expressions(n)).flatten_alt()
}

impl Program {
    /// The mathematical value of the program: the views of its nodes.
    pub open spec fn view(&self) -> Seq<NodeView> {
        Seq::new(self.nodes@.len(), |i: int| self.nodes@[i]@)
    }

    /// Create a new empty `Program`.
    pub fn new() -> (r: Self)
        ensures
            r@ == Seq::<NodeView>::empty(),
    {
        let r = Program { nodes: Vec::new() };
        assert(r@ =~= Seq::<NodeView>::empty());
        r
    }

    /// Returns a reference to the node at the given index.
    pub fn node(&self, index: usize) -> (r: Option<&Node>)
        ensures
            index < self@.len() ==> r is Some && r.unwrap()@ == self@[index as int],
            index >= self@.len() ==> r is None,
    {
        if index < self.nodes.len() {
            Some(&self.nodes[index])
        } else {
            None
        }
    }

    /// Returns a reference to all nodes of this program.
    pub fn nodes(&self) -> (r: &[Node])
        ensures
            r@ == self.nodes@,
    {
        self.nodes.as_slice()
    }

    /// The node at `index`, to be changed in place; `None` if there is none.
    pub fn node_mut(&mut self, index: usize) -> (r: Option<&mut Node>)
        ensures
            index < old(self).nodes@.len() ==> r is Some && *r.unwrap() == old(self).nodes@[index as int]
                && final(self).nodes@ == old(self).nodes@.update(index as int, *final(r.unwrap())),
            index >= old(self).nodes@.len() ==> r is None && final(self).nodes@ == old(self).nodes@,
    {
        if index < self.nodes.len() {
            Some(&mut self.nodes[index])
        } else {
            None
        }
    }

    /// Returns a mutable reference to all nodes of this program.
    pub fn nodes_mut(&mut self) -> (r: &mut Vec<Node>)
        ensures
            *r == old(self).nodes,
            final(self).nodes == *final(r),
    {
        &mut self.nodes
    }

    /// Appends a node.
    fn push(&mut self, node: Node)
        ensures
            final(self)@ == old(self)@.push(node@),
    {
        self.nodes.push(node);
        assert(self@ =~= old(self)@.push(node@));
    }

    /// Adds a comment to the end of this program.
    pub fn comment(&mut self, text: &str)
        ensures
            final(self)@ == old(self)@.push(NodeView::Comment(text@)),
    {
        self.push(Node::comment(text));
    }

    /// Adds an assignment to the end of this program; fails (leaving it unchanged)
    /// unless `expr` has the sort of `var`.
    pub fn assign(&mut self, var: Variable, expr: Expression) -> (r: Result<(), Error>)
        ensures
            r is Ok <==> expr.sort == var.sort,
            r is Ok ==> final(self)@ == old(self)@.push(NodeView::Let { var: var@, expr: expr@ }),
            r is Err ==> final(self)@ == old(self)@ && r == Err::<(), Error>(
                Error::ExpectedSort { expected: var.sort, actual: expr.sort },
            ),
    {
        let node = Node::assign(var, expr)?;
        self.push(node);
        Ok(())
    }

    /// Adds an assertion to the end of this program; fails unless `condition` is boolean.
    pub fn assertion(&mut self, condition: Expression) -> (r: Result<(), Error>)
        ensures
            r is Ok <==> condition.sort is Bool,
            r is Ok ==> final(self)@ == old(self)@.push(NodeView::Assert { condition: condition@ }),
            r is Err ==> final(self)@ == old(self)@ && r == Err::<(), Error>(
                Error::ExpectedBool(condition.sort),
            ),
    {
        let node = Node::assertion(condition)?;
        self.push(node);
        Ok(())
    }

    /// Adds an assumption to the end of this program; fails unless `condition` is boolean.
    pub fn assumption(&mut self, condition: Expression) -> (r: Result<(), Error>)
        ensures
            r is Ok <==> condition.sort is Bool,
            r is Ok ==> final(self)@ == old(self)@.push(NodeView::Assume { condition: condition@ }),
            r is Err ==> final(self)@ == old(self)@ && r == Err::<(), Error>(
                Error::ExpectedBool(condition.sort),
            ),
    {
        let node = Node::assumption(condition)?;
        self.push(node);
        Ok(())
    }

    /// Get each `Variable` used by this `Program`.
    pub fn variables_used(&self) -> (r: Vec<&Variable>)
        ensures
            variable_views(r@) == program_used(self@),
    {
        let mut r: Vec<&Variable> = Vec::new();
        let mut i: usize = 0;
        while i < self.nodes.len()
            invariant
                0 <= i <= self.nodes@.len(),
                variable_views(r@) == program_used(self@.take(i as int)),
            decreases self.nodes@.len() - i,
        {
            let mut vars = self.nodes[i].variables_used();
            let ghost (a, b) = (r@, vars@);
            r.append(&mut vars);
            proof {
                assert(self@.take(i + 1).drop_last() =~= self@.take(i as int));
                assert(self@.take(i + 1).map_values(|n: NodeView| node_used(n)).drop_last()
                    =~= self@.take(i as int).map_values(|n: NodeView| node_used(n)));
                assert(variable_views(r@) =~= variable_views(a) + node_used(self@[i as int]));
            }
            i += 1;
        }
        assert(self@.take(self@.len() as int) =~= self@);
        r
    }

    /// Get each `Variable` defined by this `Program`.
    pub fn variables_defined(&self) -> (r: Vec<&Variable>)
        ensures
            variable_views(r@) == program_defined(self@),
    {
        let mut r: Vec<&Variable> = Vec::new();
        let mut i: usize = 0;
        while i < self.nodes.len()
            invariant
                0 <= i <= self.nodes@.len(),
                variable_views(r@) == program_defined(self@.take(i as int)),
            decreases self.nodes@.len() - i,
        {
            let mut vars = self.nodes[i].variables_defined();
            let ghost (a, b) = (r@, vars@);
            r.append(&mut vars);
            proof {
                assert(self@.take(i + 1).map_values(|n: NodeView| node_defined(n)).drop_last()
                    =~= self@.take(i as int).map_values(|n: NodeView| node_defined(n)));
                assert(variable_views(r@) =~= variable_views(a) + node_defined(self@[i as int]));
            }
            i += 1;
        }
        assert(self@.take(self@.len() as int) =~= self@);
        r
    }

    /// Get each `Variable` referenced by this `Program`: the used ones, then the defined ones.
    pub fn variables(&self) -> (r: Vec<&Variable>)
        ensures
            variable_views(r@) == program_used(self@) + program_defined(self@),
    {
        let mut r = self.variables_used();
        let mut defined = self.variables_defined();
        let ghost (a, b) = (r@, defined@);
        r.append(&mut defined);
        assert(variable_views(r@) =~= variable_views(a) + variable_views(b));
        r
    }

    /// Get each `Expression` of this `Program`.
    pub fn expressions(&self) -> (r: Vec<&Expression>)
        ensures
            expression_views(r@) == program_expressions(self@),
    {
        let mut r: Vec<&Expression> = Vec::new();
        let mut i: usize = 0;
        while i < self.nodes.len()
            invariant
                0 <= i <= self.nodes@.len(),
                expression_views(r@) == program_expressions(self@.take(i as int)),
            decreases self.nodes@.len() - i,
        {
            let mut exprs = self.nodes[i].expressions();
            let ghost (a, b) = (r@, exprs@);
            r.append(&mut exprs);
            proof {
                assert(self@.take(i + 1).map_values(|n: NodeView| node_expressions(n)).drop_last()
                    =~= self@.take(i as int).map_values(|n: NodeView| node_expressions(n)));
                assert(expression_views(r@) =~= expression_views(a) + node_expressions(self@[i as int]));
            }
            i += 1;
        }
        assert(self@.take(self@.len() as int) =~= self@);
        r
    }
}

impl Validate for Program {
    /// Validates the program.
    ///
    /// Checks:
    ///   - No re-assignment to variables
    ///   - No use of undefined variables
    fn validate(&self) -> (r: Result<(), Error>)
        ensures
            validation_outcome(self@, r),
    {
        validate_program(self)
    }
}

} // verus!
