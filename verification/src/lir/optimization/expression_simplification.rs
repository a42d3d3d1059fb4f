//! Expression Simplification
//!
//! Simplifies boolean expressions by their laws, e.g. `x /\ false` becomes `false`.

use crate::error::Error;
use crate::lir::optimization::{bool_of, Optimization, OptimizationResult};
use crate::lir::{boolean_view, constant_view, Boolean, Constant, Expression, ExpressionView, Node, NodeView, Operator, OperatorView, Program};
use vstd::prelude::*;

verus! {

pub struct ExpressionSimplification {}

/// Whether one of the operands is the boolean constant `b`.
pub open spec fn has_bool(ops: Seq<ExpressionView>, b: bool) -> bool {
    exists|i: int| 0 <= i < ops.len() && #[trigger] bool_of(ops[i]) == Some(b)
}

/// The expression simplified at its top, its operands being simplified already:
/// `!!x` is `x`; a conjunction with a `false` operand is `false`, and `true /\ x` and
/// `x /\ true` are `x`; a disjunction with a `true` operand is `true`, and `false \/ x`
/// and `x \/ false` are `x`; `false => x` and `x => true` are `true`, and `true => x` is
/// `x`; `false xor x` and `x xor false` are `x`; an if-then-else over `true` or `false`
/// is the branch it picks. Other expressions stay as they are.
pub open spec fn simplify_top(e: ExpressionView) -> ExpressionView {
    let ops = e.operands;
    match e.operator {
        OperatorView::Boolean(Boolean::Not) => if ops.len() == 1 && ops[0].operator == OperatorView::Boolean(
            Boolean::Not,
        ) && ops[0].operands.len() == 1 {
            ops[0].operands[0]
        } else {
            e
        },
        OperatorView::Boolean(Boolean::And) => if has_bool(ops, false) {
            constant_view(Constant::Boolean(false))
        } else if ops.len() == 2 && bool_of(ops[0]) == Some(true) {
            ops[1]
        } else if ops.len() == 2 && bool_of(ops[1]) == Some(true) {
            ops[0]
        } else {
            e
        },
        OperatorView::Boolean(Boolean::Or) => if has_bool(ops, true) {
            constant_view(Constant::Boolean(true))
        } else if ops.len() == 2 && bool_of(ops[0]) == Some(false) {
            ops[1]
        } else if ops.len() == 2 && bool_of(ops[1]) == Some(false) {
            ops[0]
        } else {
            e
        },
        OperatorView::Boolean(Boolean::Imply) => if ops.len() == 2 && (bool_of(ops[0]) == Some(false) || bool_of(
            ops[1],
        ) == Some(true)) {
            constant_view(Constant::Boolean(true))
        } else if ops.len() == 2 && bool_of(ops[0]) == Some(true) {
            ops[1]
        } else {
            e
        },
        OperatorView::Boolean(Boolean::Xor) => if ops.len() == 2 && bool_of(ops[0]) == Some(false) {
            ops[1]
        } else if ops.len() == 2 && bool_of(ops[1]) == Some(false) {
            ops[0]
        } else {
            e
        },
        OperatorView::Ite => if ops.len() == 3 && bool_of(ops[0]) == Some(true) {
            ops[1]
        } else if ops.len() == 3 && bool_of(ops[0]) == Some(false) {
            ops[2]
        } else {
            e
        },
        _ => e,
    }
}

/// The expression simplified bottom-up.
pub open spec fn simplify(e: ExpressionView) -> ExpressionView
    decreases e,
{
    simplify_top(ExpressionView { operator: e.operator, operands: simplify_each(e.operands), sort: e.sort })
}

/// Each expression simplified.
pub open spec fn simplify_each(ops: Seq<ExpressionView>) -> Seq<ExpressionView>
    decreases ops,
{
    Seq::new(
        ops.len(),
        |i: int|
            if 0 <= i < ops.len() {
                simplify(ops[i])
            } else {
                arbitrary()
            },
    )
}

/// The node with each of its expressions simplified.
pub open spec fn node_simplify(n: NodeView) -> NodeView {
    match n {
        NodeView::Comment(t) => NodeView::Comment(t),
        NodeView::Let { var, expr } => NodeView::Let { var: var, expr: simplify(expr) },
        NodeView::Assert { condition } => NodeView::Assert { condition: simplify(condition) },
        NodeView::Assume { condition } => NodeView::Assume { condition: simplify(condition) },
    }
}

/// The nodes with their expressions simplified.
pub open spec fn simplified_nodes(nodes: Seq<NodeView>) -> Seq<NodeView> {
    nodes.map_values(|n: NodeView| node_simplify(n))
}

/// Simplifying a boolean constant leaves it as it is.
proof fn lemma_simplify_constant(b: bool)
    ensures
        simplify(constant_view(Constant::Boolean(b))) == constant_view(Constant::Boolean(b)),
{
    assert(simplify_each(Seq::<ExpressionView>::empty()) =~= Seq::<ExpressionView>::empty());
}

/// `false` absorbs a conjunction and `true` a disjunction, whatever the other operand is, and
/// an implication from `false` or to `true` simplifies to `true`.
pub proof fn law_simplification_absorbs(x: ExpressionView)
    ensures
        simplify(boolean_view(Boolean::And, seq![x, constant_view(Constant::Boolean(false))])) == constant_view(
            Constant::Boolean(false),
        ),
        simplify(boolean_view(Boolean::And, seq![constant_view(Constant::Boolean(false)), x])) == constant_view(
            Constant::Boolean(false),
        ),
        simplify(boolean_view(Boolean::Or, seq![x, constant_view(Constant::Boolean(true))])) == constant_view(
            Constant::Boolean(true),
        ),
        simplify(boolean_view(Boolean::Or, seq![constant_view(Constant::Boolean(true)), x])) == constant_view(
            Constant::Boolean(true),
        ),
        simplify(boolean_view(Boolean::Imply, seq![constant_view(Constant::Boolean(false)), x])) == constant_view(
            Constant::Boolean(true),
        ),
        simplify(boolean_view(Boolean::Imply, seq![x, constant_view(Constant::Boolean(true))])) == constant_view(
            Constant::Boolean(true),
        ),
{
    let f = constant_view(Constant::Boolean(false));
    let t = constant_view(Constant::Boolean(true));
    lemma_simplify_constant(false);
    lemma_simplify_constant(true);
    assert(bool_of(simplify_each(seq![x, f])[1]) == Some(false));
    assert(bool_of(simplify_each(seq![f, x])[0]) == Some(false));
    assert(bool_of(simplify_each(seq![x, t])[1]) == Some(true));
    assert(bool_of(simplify_each(seq![t, x])[0]) == Some(true));
}

fn is_bool(e: &Expression, b: bool) -> (r: bool)
    ensures
        r == (bool_of(e@) == Some(b)),
{
    match &e.operator {
        Operator::Constant(Constant::Boolean(c)) => *c == b,
        _ => false,
    }
}

fn contains_bool(ops: &Vec<Expression>, b: bool) -> (r: bool)
    ensures
        r == has_bool(ops@.map_values(|e: Expression| e@), b),
{
    let ghost v = ops@.map_values(|e: Expression| e@);
    let mut i: usize = 0;
    while i < ops.len()
        invariant
            0 <= i <= ops@.len(),
            v == ops@.map_values(|e: Expression| e@),
            forall|j: int| 0 <= j < i ==> #[trigger] bool_of(v[j]) != Some(b),
        decreases ops@.len() - i,
    {
        if is_bool(&ops[i], b) {
            proof {
                assert(bool_of(v[i as int]) == Some(b));
            }
            return true;
        }
        i += 1;
    }
    false
}

/// The expression simplified at its top (see `simplify_top`).
fn simplified_top(e: Expression) -> (r: Expression)
    ensures
        r@ == simplify_top(e@),
{
    proof {
        assert(e@.operands =~= e.operands@.map_values(|x: Expression| x@));
    }
    let n = e.operands.len();
    match &e.operator {
        Operator::Boolean(Boolean::Not) => {
            if n == 1 && e.operands[0].operands.len() == 1 {
                if let Operator::Boolean(Boolean::Not) = &e.operands[0].operator {
                    return e.operands[0].operands[0].clone();
                }
            }
            e
        },
        Operator::Boolean(Boolean::And) => {
            if contains_bool(&e.operands, false) {
                Boolean::constant(false)
            } else if n == 2 && is_bool(&e.operands[0], true) {
                e.operands[1].clone()
            } else if n == 2 && is_bool(&e.operands[1], true) {
                e.operands[0].clone()
            } else {
                e
            }
        },
        Operator::Boolean(Boolean::Or) => {
            if contains_bool(&e.operands, true) {
                Boolean::constant(true)
            } else if n == 2 && is_bool(&e.operands[0], false) {
                e.operands[1].clone()
            } else if n == 2 && is_bool(&e.operands[1], false) {
                e.operands[0].clone()
            } else {
                e
            }
        },
        Operator::Boolean(Boolean::Imply) => {
            if n == 2 && (is_bool(&e.operands[0], false) || is_bool(&e.operands[1], true)) {
                Boolean::constant(true)
            } else if n == 2 && is_bool(&e.operands[0], true) {
                e.operands[1].clone()
            } else {
                e
            }
        },
        Operator::Boolean(Boolean::Xor) => {
            if n == 2 && is_bool(&e.operands[0], false) {
                e.operands[1].clone()
            } else if n == 2 && is_bool(&e.operands[1], false) {
                e.operands[0].clone()
            } else {
                e
            }
        },
        Operator::Ite => {
            if n == 3 && is_bool(&e.operands[0], true) {
                e.operands[1].clone()
            } else if n == 3 && is_bool(&e.operands[0], false) {
                e.operands[2].clone()
            } else {
                e
            }
        },
        _ => e,
    }
}

impl Expression {
    /// This expression simplified bottom-up (see `simplify`).
    pub fn simplified(&self) -> (r: Expression)
        ensures
            r@ == simplify(self@),
        decreases self,
    {
        let mut operands: Vec<Expression> = Vec::new();
        let mut i: usize = 0;
        while i < self.operands.len()
            invariant
                0 <= i <= self.operands@.len(),
                operands@.len() == i,
                forall|j: int| 0 <= j < i ==> (#[trigger] operands@[j])@ == simplify(self.operands@[j]@),
            decreases self.operands@.len() - i,
        {
            proof {
                assert(decreases_to!(self => self.operands@[i as int]));
            }
            operands.push(self.operands[i].simplified());
            i += 1;
        }
        let e = Expression { operator: self.operator.clone(), operands, sort: self.sort.clone() };
        proof {
            assert(e@.operands =~= simplify_each(self@.operands));
        }
        simplified_top(e)
    }
}

impl Node {
    /// This node with its expressions simplified.
    pub fn simplified(&self) -> (r: Node)
        ensures
            r@ == node_simplify(self@),
    {
        match self {
            Node::Comment(t) => Node::Comment(t.clone()),
            Node::Let { var, expr } => Node::Let { var: var.clone(), expr: expr.simplified() },
            Node::Assert { condition } => Node::Assert { condition: condition.simplified() },
            Node::Assume { condition } => Node::Assume { condition: condition.simplified() },
        }
    }
}

impl Program {
    /// Simplifies every expression; says whether that changed the program.
    pub fn simplify_expressions(&mut self) -> (r: bool)
        ensures
            final(self)@ == simplified_nodes(old(self)@),
            r == (simplified_nodes(old(self)@) != old(self)@),
    {
        let ghost before = self@;
        let mut nodes: Vec<Node> = Vec::new();
        let mut changed = false;
        let mut i: usize = 0;
        while i < self.nodes.len()
            invariant
                0 <= i <= self.nodes@.len(),
                before == self@,
                nodes@.len() == i,
                forall|j: int| 0 <= j < i ==> (#[trigger] nodes@[j])@ == node_simplify(self.nodes@[j]@),
                changed == (exists|j: int| 0 <= j < i && (#[trigger] nodes@[j])@ != self.nodes@[j]@),
            decreases self.nodes@.len() - i,
        {
            let n = self.nodes[i].simplified();
            let differs = !n.equals(&self.nodes[i]);
            let ghost previous = nodes@;
            nodes.push(n);
            proof {
                assert forall|j: int| 0 <= j < i implies nodes@[j] == previous[j] by {}
                if changed {
                    let j = choose|j: int| 0 <= j < i && (#[trigger] previous[j])@ != self.nodes@[j]@;
                    assert(nodes@[j] == previous[j]);
                }
                assert(nodes@[i as int] == n);
            }
            changed = changed || differs;
            i += 1;
        }
        proof {
            assert(simplified_nodes(before) =~= Seq::new(nodes@.len(), |k: int| nodes@[k]@));
            if !changed {
                assert(simplified_nodes(before) =~= before);
            } else {
                let j = choose|j: int| 0 <= j < nodes@.len() && (#[trigger] nodes@[j])@ != self.nodes@[j]@;
                assert(simplified_nodes(before)[j] != before[j]);
            }
        }
        self.nodes = nodes;
        changed
    }
}

impl ExpressionSimplification {
    pub fn new() -> (r: Self) {
        ExpressionSimplification {}
    }
}

impl Optimization for ExpressionSimplification {
    /// Simplify every expression.
    fn optimize(&self, program: &mut Program) -> (r: Result<OptimizationResult, Error>)
        ensures
            simplified_nodes(old(program)@) == old(program)@ ==> r == Ok::<OptimizationResult, Error>(
                OptimizationResult::Unchanged,
            ) && final(program)@ == old(program)@,
            simplified_nodes(old(program)@) != old(program)@ ==> r == Ok::<OptimizationResult, Error>(
                OptimizationResult::Changed,
            ) && final(program)@ == simplified_nodes(old(program)@),
    {
        if program.simplify_expressions() {
            Ok(OptimizationResult::Changed)
        } else {
            Ok(OptimizationResult::Unchanged)
        }
    }
}

} // verus!
