//! Lowering of expressions to what SMT solvers offer: conversions between bit vectors and
//! booleans become comparisons and choices.
use crate::error::Error;
use crate::ir::Transform;
use crate::lir::{
    constant_view, BitVector, BitVectorValue, Boolean, Constant, Expression, ExpressionView, Node, NodeView, Operator,
    OperatorView, Program, Sort,
};
use vstd::prelude::*;

verus! {

/// Lowers the expressions of LIR programs to SMT.
pub struct LowerToSMT {}

/// The bit-vector constant 0 with `bits` bits.
pub open spec fn zero_view(bits: usize) -> ExpressionView {
    constant_view(Constant::BitVector(BitVectorValue { value: 0, bits }))
}

/// The bit-vector constant 1 with `bits` bits.
pub open spec fn one_view(bits: usize) -> ExpressionView {
    constant_view(Constant::BitVector(BitVectorValue { value: 1, bits }))
}

/// The lowered form of an expression whose operands are lowered already: `to-boolean(x)`
/// becomes `x != 0`, and `from-boolean(b)` with `bits` bits becomes `ite(b, 1, 0)`; other
/// expressions, and these with operands of other sorts, stay as they are.
pub open spec fn lowered_top(e: ExpressionView) -> ExpressionView {
    match e.operator {
        OperatorView::BitVector(BitVector::ToBoolean) => if e.operands.len() == 1 && e.operands[0].sort is BitVector {
            ExpressionView {
                operator: OperatorView::Boolean(Boolean::Not),
                operands: seq![
                    ExpressionView {
                        operator: OperatorView::Equal,
                        operands: seq![e.operands[0], zero_view(e.operands[0].sort->BitVector_0)],
                        sort: Sort::Bool,
                    },
                ],
                sort: Sort::Bool,
            }
        } else {
            e
        },
        OperatorView::BitVector(BitVector::FromBoolean(bits)) => if e.operands.len() == 1 && e.operands[0].sort is Bool {
            ExpressionView {
                operator: OperatorView::Ite,
                operands: seq![e.operands[0], one_view(bits), zero_view(bits)],
                sort: Sort::BitVector(bits),
            }
        } else {
            e
        },
        _ => e,
    }
}

/// The expression lowered bottom-up.
pub open spec fn lowered(e: ExpressionView) -> ExpressionView
    decreases e,
{
    lowered_top(ExpressionView { operator: e.operator, operands: lowered_each(e.operands), sort: e.sort })
}

/// Each expression lowered.
pub open spec fn lowered_each(ops: Seq<ExpressionView>) -> Seq<ExpressionView>
    decreases ops,
{
    Seq::new(
        ops.len(),
        |i: int|
            if 0 <= i < ops.len() {
                lowered(ops[i])
            } else {
                arbitrary()
            },
    )
}

/// The node with its expressions lowered.
pub open spec fn node_lowered(n: NodeView) -> NodeView {
    match n {
        NodeView::Comment(t) => NodeView::Comment(t),
        NodeView::Let { var, expr } => NodeView::Let { var, expr: lowered(expr) },
        NodeView::Assert { condition } => NodeView::Assert { condition: lowered(condition) },
        NodeView::Assume { condition } => NodeView::Assume { condition: lowered(condition) },
    }
}

/// The lowered form of an expression whose operands are lowered already.
fn lower_top(e: Expression) -> (r: Expression)
    ensures
        r@ == lowered_top(e@),
{
    let (to_boolean, from_boolean) = match &e.operator {
        Operator::BitVector(BitVector::ToBoolean) => (true, None),
        Operator::BitVector(BitVector::FromBoolean(bits)) => (false, Some(*bits)),
        _ => (false, None),
    };
    assert(to_boolean <==> e@.operator == OperatorView::BitVector(BitVector::ToBoolean));
    assert(from_boolean matches Some(b) ==> e@.operator == OperatorView::BitVector(BitVector::FromBoolean(b)));
    assert(from_boolean is None ==> !(e@.operator matches OperatorView::BitVector(BitVector::FromBoolean(_))));
    if to_boolean && e.operands.len() == 1 && e.operands[0].sort.is_bit_vector() {
        let width = e.operands[0].sort.unwrap_bit_vector();
        let zero = BitVector::constant_u64(0, width);
        match Expression::unequal(e.operands[0].clone(), zero) {
            Ok(x) => x,
            Err(_) => e,
        }
    } else if from_boolean.is_some() && e.operands.len() == 1 && e.operands[0].sort.is_bool() {
        let bits = from_boolean.unwrap();
        let one = BitVector::constant_u64(1, bits);
        let zero = BitVector::constant_u64(0, bits);
        match Expression::ite(e.operands[0].clone(), one, zero) {
            Ok(x) => x,
            Err(_) => e,
        }
    } else {
        e
    }
}

/// The expression lowered bottom-up.
fn lower_expression(e: &Expression) -> (r: Expression)
    ensures
        r@ == lowered(e@),
    decreases e,
{
    let mut operands: Vec<Expression> = Vec::new();
    let mut i: usize = 0;
    while i < e.operands.len()
        invariant
            0 <= i <= e.operands@.len(),
            operands@.len() == i,
            forall|j: int| 0 <= j < i ==> (#[trigger] operands@[j])@ == lowered(e.operands@[j]@),
        decreases e.operands@.len() - i,
    {
        proof {
            assert(decreases_to!(e => e.operands@[i as int]));
        }
        operands.push(lower_expression(&e.operands[i]));
        i += 1;
    }
    let e1 = Expression { operator: e.operator.clone(), operands, sort: e.sort.clone() };
    assert(e1@.operands =~= lowered_each(e@.operands));
    lower_top(e1)
}

/// The node with its expressions lowered.
fn lower_node(n: &Node) -> (r: Node)
    ensures
        r@ == node_lowered(n@),
{
    match n {
        Node::Comment(t) => Node::Comment(t.clone()),
        Node::Let { var, expr } => Node::Let { var: var.clone(), expr: lower_expression(expr) },
        Node::Assert { condition } => Node::Assert { condition: lower_expression(condition) },
        Node::Assume { condition } => Node::Assume { condition: lower_expression(condition) },
    }
}

impl LowerToSMT {
    pub fn new() -> (r: Self) {
        LowerToSMT {}
    }
}

impl Transform<Program> for LowerToSMT {
    fn name(&self) -> (r: &'static str)
        ensures
            r@ == "LowerToSMT"@,
    {
        "LowerToSMT"
    }

    fn description(&self) -> (r: &'static str)
        ensures
            r@ == "Lowering expressions to SMT"@,
    {
        "Lowering expressions to SMT"
    }

    /// Lowers every expression of the program.
    fn transform(&self, program: &mut Program) -> (r: Result<(), Error>)
        ensures
            r is Ok,
            final(program)@ == old(program)@.map_values(|n: NodeView| node_lowered(n)),
    {
        let ghost before = program@;
        let mut nodes: Vec<Node> = Vec::new();
        let mut i: usize = 0;
        while i < program.nodes.len()
            invariant
                0 <= i <= program.nodes@.len(),
                before == program@,
                nodes@.len() == i,
                forall|j: int| 0 <= j < i ==> (#[trigger] nodes@[j])@ == node_lowered(program.nodes@[j]@),
            decreases program.nodes@.len() - i,
        {
            nodes.push(lower_node(&program.nodes[i]));
            i += 1;
        }
        program.nodes = nodes;
        assert(program@ =~= before.map_values(|n: NodeView| node_lowered(n)));
        Ok(())
    }
}

} // verus!
