//! Constant Folding
//!
//! Evaluates expressions whose operands are all constant, e.g. `1 + 2` becomes `3`.

use crate::error::Error;
use crate::lir::optimization::{Optimization, OptimizationResult};
use crate::lir::{
    boolean_view, constant_view, BitVector, BitVectorValue, Boolean, Constant, Expression, ExpressionView, Node, NodeView,
    Operator, OperatorView, Program, Sort,
};
use vstd::prelude::*;

verus! {

pub struct ConstantFolding {}

/// The value of a boolean constant.
pub open spec fn bool_of(e: ExpressionView) -> Option<bool> {
    match e.operator {
        OperatorView::Constant(Constant::Boolean(b)) => Some(b),
        _ => None,
    }
}

/// The value of a bit-vector constant of 1 to 64 bits.
pub open spec fn word_of(e: ExpressionView) -> Option<BitVectorValue> {
    match e.operator {
        OperatorView::Constant(Constant::BitVector(v)) => if 1 <= v.bits <= 64 {
            Some(v)
        } else {
            None
        },
        _ => None,
    }
}

/// The constant of a constant expression.
pub open spec fn constant_of(e: ExpressionView) -> Option<Constant> {
    match e.operator {
        OperatorView::Constant(c) => Some(c),
        _ => None,
    }
}

/// 2 to the power of `bits`.
pub open spec fn modulus(bits: usize) -> u128 {
    1u128 << bits
}

/// The unsigned value of a bit vector: its value modulo 2 to the power of its width.
pub open spec fn unsigned(v: BitVectorValue) -> u128 {
    (v.value as u128) % modulus(v.bits)
}

/// The two's complement value of a bit vector.
pub open spec fn signed(v: BitVectorValue) -> int {
    if unsigned(v) * 2 >= modulus(v.bits) {
        unsigned(v) - modulus(v.bits)
    } else {
        unsigned(v) as int
    }
}

/// Whether all operands are boolean constants.
pub open spec fn all_bools(ops: Seq<ExpressionView>) -> bool {
    forall|i: int| 0 <= i < ops.len() ==> (#[trigger] bool_of(ops[i])) is Some
}

/// The constant a boolean operator gives on boolean constants, if all its operands are such.
pub open spec fn evaluated_boolean(op: Boolean, ops: Seq<ExpressionView>) -> Option<Constant> {
    match op {
        Boolean::True => if ops.len() == 0 {
            Some(Constant::Boolean(true))
        } else {
            None
        },
        Boolean::False => if ops.len() == 0 {
            Some(Constant::Boolean(false))
        } else {
            None
        },
        Boolean::Not => if ops.len() == 1 && bool_of(ops[0]) is Some {
            Some(Constant::Boolean(!bool_of(ops[0])->0))
        } else {
            None
        },
        Boolean::And => if ops.len() > 0 && all_bools(ops) {
            Some(Constant::Boolean(forall|i: int| 0 <= i < ops.len() ==> #[trigger] bool_of(ops[i]) == Some(true)))
        } else {
            None
        },
        Boolean::Or => if ops.len() > 0 && all_bools(ops) {
            Some(Constant::Boolean(exists|i: int| 0 <= i < ops.len() && #[trigger] bool_of(ops[i]) == Some(true)))
        } else {
            None
        },
        Boolean::Imply => if ops.len() == 2 && bool_of(ops[0]) is Some && bool_of(ops[1]) is Some {
            Some(Constant::Boolean(!bool_of(ops[0])->0 || bool_of(ops[1])->0))
        } else {
            None
        },
        Boolean::Xor => if ops.len() == 2 && bool_of(ops[0]) is Some && bool_of(ops[1]) is Some {
            Some(Constant::Boolean(bool_of(ops[0])->0 != bool_of(ops[1])->0))
        } else {
            None
        },
    }
}

/// The two operands, if they are bit-vector constants of the same width (1 to 64 bits).
pub open spec fn words(ops: Seq<ExpressionView>) -> Option<(BitVectorValue, BitVectorValue)> {
    if ops.len() == 2 && word_of(ops[0]) is Some && word_of(ops[1]) is Some && word_of(ops[0])->0.bits == word_of(
        ops[1],
    )->0.bits {
        Some((word_of(ops[0])->0, word_of(ops[1])->0))
    } else {
        None
    }
}

/// The constant a binary bit-vector operator gives on two bit vectors of the same width.
pub open spec fn word_operation(op: BitVector, a: BitVectorValue, b: BitVectorValue) -> Constant {
    let m = modulus(a.bits) as int;
    match op {
        BitVector::Add => Constant::BitVector(
            BitVectorValue { value: ((unsigned(a) + unsigned(b)) % m) as u64, bits: a.bits },
        ),
        BitVector::Sub => Constant::BitVector(
            BitVectorValue { value: ((unsigned(a) + m - unsigned(b)) % m) as u64, bits: a.bits },
        ),
        BitVector::ULt => Constant::Boolean(unsigned(a) < unsigned(b)),
        BitVector::ULe => Constant::Boolean(unsigned(a) <= unsigned(b)),
        BitVector::UGt => Constant::Boolean(unsigned(a) > unsigned(b)),
        BitVector::SLe => Constant::Boolean(signed(a) <= signed(b)),
        _ => Constant::Boolean(signed(a) > signed(b)),
    }
}

/// The constant a bit-vector operator gives on constant operands, if they are such.
pub open spec fn evaluated_bit_vector(op: BitVector, ops: Seq<ExpressionView>) -> Option<Constant> {
    match op {
        BitVector::ToBoolean => if ops.len() == 1 && word_of(ops[0]) is Some {
            Some(Constant::Boolean(unsigned(word_of(ops[0])->0) != 0))
        } else {
            None
        },
        BitVector::FromBoolean(bits) => if ops.len() == 1 && bool_of(ops[0]) is Some && 1 <= bits <= 64 {
            Some(
                Constant::BitVector(
                    BitVectorValue {
                        value: if bool_of(ops[0])->0 {
                            1
                        } else {
                            0
                        },
                        bits,
                    },
                ),
            )
        } else {
            None
        },
        _ => match words(ops) {
            Some((a, b)) => Some(word_operation(op, a, b)),
            None => None,
        },
    }
}

/// Whether two constants are equal: boolean constants by value, bit vectors of the same
/// width by their unsigned values.
pub open spec fn evaluated_equal(ops: Seq<ExpressionView>) -> Option<Constant> {
    if ops.len() == 2 && bool_of(ops[0]) is Some && bool_of(ops[1]) is Some {
        Some(Constant::Boolean(bool_of(ops[0]) == bool_of(ops[1])))
    } else {
        match words(ops) {
            Some((a, b)) => Some(Constant::Boolean(unsigned(a) == unsigned(b))),
            None => None,
        }
    }
}

/// The branch an if-then-else over constants picks.
pub open spec fn evaluated_ite(ops: Seq<ExpressionView>) -> Option<Constant> {
    if ops.len() == 3 && bool_of(ops[0]) is Some && constant_of(ops[1]) is Some && constant_of(ops[2]) is Some {
        if bool_of(ops[0])->0 {
            constant_of(ops[1])
        } else {
            constant_of(ops[2])
        }
    } else {
        None
    }
}

/// The constant an expression evaluates to, if its operator can be evaluated on its
/// operands: boolean operators on boolean constants, equality and if-then-else on constants,
/// and bit-vector operators on bit vectors of 1 to 64 bits (wider ones are left as they are).
pub open spec fn evaluated(e: ExpressionView) -> Option<Constant> {
    match e.operator {
        OperatorView::Boolean(op) => evaluated_boolean(op, e.operands),
        OperatorView::BitVector(op) => evaluated_bit_vector(op, e.operands),
        OperatorView::Equal => evaluated_equal(e.operands),
        OperatorView::Ite => evaluated_ite(e.operands),
        _ => None,
    }
}

/// The expression replaced by the constant it evaluates to, if any.
pub open spec fn fold_top(e: ExpressionView) -> ExpressionView {
    match evaluated(e) {
        Some(c) => constant_view(c),
        None => e,
    }
}

/// The expression folded bottom-up.
pub open spec fn fold(e: ExpressionView) -> ExpressionView
    decreases e,
{
    fold_top(ExpressionView { operator: e.operator, operands: fold_each(e.operands), sort: e.sort })
}

/// Each expression folded.
pub open spec fn fold_each(ops: Seq<ExpressionView>) -> Seq<ExpressionView>
    decreases ops,
{
    Seq::new(
        ops.len(),
        |i: int|
            if 0 <= i < ops.len() {
                fold(ops[i])
            } else {
                arbitrary()
            },
    )
}

/// The node with each of its expressions folded.
pub open spec fn node_fold(n: NodeView) -> NodeView {
    match n {
        NodeView::Comment(t) => NodeView::Comment(t),
        NodeView::Let { var, expr } => NodeView::Let { var: var, expr: fold(expr) },
        NodeView::Assert { condition } => NodeView::Assert { condition: fold(condition) },
        NodeView::Assume { condition } => NodeView::Assume { condition: fold(condition) },
    }
}

/// The nodes with their expressions folded.
pub open spec fn folded_nodes(nodes: Seq<NodeView>) -> Seq<NodeView> {
    nodes.map_values(|n: NodeView| node_fold(n))
}

/// Folding keeps a constant a constant of the same value.
proof fn lemma_fold_keeps_constant(e: ExpressionView)
    requires
        e.operator is Constant,
    ensures
        fold(e).operator == e.operator,
{
}

/// Folding a disjunction of boolean constants gives `true` exactly when one of them is
/// `true`, and a conjunction of them `true` exactly when all of them are.
pub proof fn law_folding_evaluates_disjunctions_and_conjunctions(ops: Seq<ExpressionView>, values: Seq<bool>)
    requires
        ops.len() > 0,
        values.len() == ops.len(),
        forall|i: int| 0 <= i < ops.len() ==> #[trigger] ops[i] == constant_view(Constant::Boolean(values[i])),
    ensures
        fold(boolean_view(Boolean::Or, ops)) == constant_view(Constant::Boolean(values.contains(true))),
        fold(boolean_view(Boolean::And, ops)) == constant_view(Constant::Boolean(!values.contains(false))),
{
    let folded = fold_each(ops);
    assert forall|i: int| 0 <= i < ops.len() implies #[trigger] bool_of(folded[i]) == Some(values[i]) by {
        assert(ops[i] == constant_view(Constant::Boolean(values[i])));
        lemma_fold_keeps_constant(ops[i]);
    }
    if values.contains(true) {
        let i = choose|i: int| 0 <= i < values.len() && values[i] == true;
        assert(bool_of(folded[i]) == Some(true));
    }
    if exists|i: int| 0 <= i < folded.len() && #[trigger] bool_of(folded[i]) == Some(true) {
        let i = choose|i: int| 0 <= i < folded.len() && #[trigger] bool_of(folded[i]) == Some(true);
        assert(values[i] == true);
    }
    if values.contains(false) {
        let i = choose|i: int| 0 <= i < values.len() && values[i] == false;
        assert(bool_of(folded[i]) == Some(false));
    }
    if !(forall|i: int| 0 <= i < folded.len() ==> #[trigger] bool_of(folded[i]) == Some(true)) {
        let i = choose|i: int| 0 <= i < folded.len() && !(#[trigger] bool_of(folded[i]) == Some(true));
        assert(values[i] == false);
    }
    assert(all_bools(folded));
}

/// Folding negation, implication, exclusive or, equality and if-then-else over boolean
/// constants gives their truth values.
pub proof fn law_folding_evaluates_boolean_operators(a: bool, b: bool, c: bool)
    ensures
        fold(boolean_view(Boolean::Not, seq![constant_view(Constant::Boolean(a))])) == constant_view(
            Constant::Boolean(!a),
        ),
        fold(
            boolean_view(
                Boolean::Imply,
                seq![constant_view(Constant::Boolean(a)), constant_view(Constant::Boolean(b))],
            ),
        ) == constant_view(Constant::Boolean(!a || b)),
        fold(
            boolean_view(Boolean::Xor, seq![constant_view(Constant::Boolean(a)), constant_view(Constant::Boolean(b))]),
        ) == constant_view(Constant::Boolean(a != b)),
        fold(
            ExpressionView {
                operator: OperatorView::Equal,
                operands: seq![constant_view(Constant::Boolean(a)), constant_view(Constant::Boolean(b))],
                sort: Sort::Bool,
            },
        ) == constant_view(Constant::Boolean(a == b)),
        fold(
            ExpressionView {
                operator: OperatorView::Ite,
                operands: seq![
                    constant_view(Constant::Boolean(c)),
                    constant_view(Constant::Boolean(a)),
                    constant_view(Constant::Boolean(b)),
                ],
                sort: Sort::Bool,
            },
        ) == constant_view(Constant::Boolean(if c { a } else { b })),
{
    let ca = constant_view(Constant::Boolean(a));
    let cb = constant_view(Constant::Boolean(b));
    let cc = constant_view(Constant::Boolean(c));
    lemma_fold_keeps_constant(ca);
    lemma_fold_keeps_constant(cb);
    lemma_fold_keeps_constant(cc);
    assert(fold_each(seq![ca])[0] == fold(ca));
    assert(fold_each(seq![ca, cb])[0] == fold(ca));
    assert(fold_each(seq![ca, cb])[1] == fold(cb));
    assert(fold_each(seq![cc, ca, cb])[0] == fold(cc));
    assert(fold_each(seq![cc, ca, cb])[1] == fold(ca));
    assert(fold_each(seq![cc, ca, cb])[2] == fold(cb));
}

proof fn lemma_modulus(bits: usize)
    requires
        1 <= bits <= 64,
    ensures
        2 <= modulus(bits) <= 0x1_0000_0000_0000_0000u128,
{
    assert(2 <= (1u128 << bits) <= 0x1_0000_0000_0000_0000u128) by (bit_vector)
        requires
            1 <= bits <= 64,
    ;
}

fn bool_constant(e: &Expression) -> (r: Option<bool>)
    ensures
        r == bool_of(e@),
{
    match &e.operator {
        Operator::Constant(Constant::Boolean(b)) => Some(*b),
        _ => None,
    }
}

fn word_constant(e: &Expression) -> (r: Option<BitVectorValue>)
    ensures
        r == word_of(e@),
{
    match &e.operator {
        Operator::Constant(Constant::BitVector(v)) => if 1 <= v.bits && v.bits <= 64 {
            Some(*v)
        } else {
            None
        },
        _ => None,
    }
}

fn constant_value(e: &Expression) -> (r: Option<Constant>)
    ensures
        r == constant_of(e@),
{
    match &e.operator {
        Operator::Constant(c) => Some(*c),
        _ => None,
    }
}

fn unsigned_value(v: BitVectorValue) -> (r: u128)
    requires
        1 <= v.bits <= 64,
    ensures
        r == unsigned(v),
        r < modulus(v.bits),
{
    proof {
        lemma_modulus(v.bits);
    }
    (v.value as u128) % (1u128 << v.bits)
}

fn signed_value(v: BitVectorValue) -> (r: i128)
    requires
        1 <= v.bits <= 64,
    ensures
        r == signed(v),
{
    proof {
        lemma_modulus(v.bits);
    }
    let u = unsigned_value(v);
    let m = 1u128 << v.bits;
    if u * 2 >= m {
        u as i128 - m as i128
    } else {
        u as i128
    }
}

fn evaluate_boolean(op: Boolean, ops: &Vec<Expression>) -> (r: Option<Constant>)
    ensures
        r == evaluated_boolean(op, ops@.map_values(|e: Expression| e@)),
{
    let ghost v = ops@.map_values(|e: Expression| e@);
    let n = ops.len();
    match op {
        Boolean::True => if n == 0 {
            Some(Constant::Boolean(true))
        } else {
            None
        },
        Boolean::False => if n == 0 {
            Some(Constant::Boolean(false))
        } else {
            None
        },
        Boolean::Not => if n == 1 {
            match bool_constant(&ops[0]) {
                Some(b) => Some(Constant::Boolean(!b)),
                None => None,
            }
        } else {
            None
        },
        Boolean::And | Boolean::Or => {
            if n == 0 {
                return None;
            }
            let mut all = true;
            let mut any = false;
            let mut i: usize = 0;
            while i < n
                invariant
                    n == ops@.len(),
                    v == ops@.map_values(|e: Expression| e@),
                    0 <= i <= n,
                    forall|j: int| 0 <= j < i ==> (#[trigger] bool_of(v[j])) is Some,
                    all == (forall|j: int| 0 <= j < i ==> #[trigger] bool_of(v[j]) == Some(true)),
                    any == (exists|j: int| 0 <= j < i && #[trigger] bool_of(v[j]) == Some(true)),
                decreases n - i,
            {
                match bool_constant(&ops[i]) {
                    Some(b) => {
                        proof {
                            assert(v[i as int] == ops@[i as int]@);
                        }
                        all = all && b;
                        any = any || b;
                    },
                    None => {
                        proof {
                            assert(bool_of(v[i as int]) is None);
                        }
                        return None;
                    },
                }
                i += 1;
            }
            if op == Boolean::And {
                Some(Constant::Boolean(all))
            } else {
                Some(Constant::Boolean(any))
            }
        },
        Boolean::Imply | Boolean::Xor => if n == 2 {
            match (bool_constant(&ops[0]), bool_constant(&ops[1])) {
                (Some(a), Some(b)) => if op == Boolean::Imply {
                    Some(Constant::Boolean(!a || b))
                } else {
                    Some(Constant::Boolean(a != b))
                },
                _ => None,
            }
        } else {
            None
        },
    }
}

fn word_pair(ops: &Vec<Expression>) -> (r: Option<(BitVectorValue, BitVectorValue)>)
    ensures
        r == words(ops@.map_values(|e: Expression| e@)),
{
    let ghost v = ops@.map_values(|e: Expression| e@);
    if ops.len() != 2 {
        return None;
    }
    match (word_constant(&ops[0]), word_constant(&ops[1])) {
        (Some(a), Some(b)) => if a.bits == b.bits {
            Some((a, b))
        } else {
            None
        },
        _ => None,
    }
}

fn apply_word_operation(op: BitVector, a: BitVectorValue, b: BitVectorValue) -> (r: Constant)
    requires
        1 <= a.bits <= 64,
        a.bits == b.bits,
    ensures
        r == word_operation(op, a, b),
{
    proof {
        lemma_modulus(a.bits);
    }
    let m = 1u128 << a.bits;
    let ua = unsigned_value(a);
    let ub = unsigned_value(b);
    match op {
        BitVector::Add => Constant::BitVector(BitVectorValue { value: ((ua + ub) % m) as u64, bits: a.bits }),
        BitVector::Sub => Constant::BitVector(BitVectorValue { value: ((ua + m - ub) % m) as u64, bits: a.bits }),
        BitVector::ULt => Constant::Boolean(ua < ub),
        BitVector::ULe => Constant::Boolean(ua <= ub),
        BitVector::UGt => Constant::Boolean(ua > ub),
        BitVector::SLe => Constant::Boolean(signed_value(a) <= signed_value(b)),
        _ => Constant::Boolean(signed_value(a) > signed_value(b)),
    }
}

fn evaluate_bit_vector(op: BitVector, ops: &Vec<Expression>) -> (r: Option<Constant>)
    ensures
        r == evaluated_bit_vector(op, ops@.map_values(|e: Expression| e@)),
{
    match op {
        BitVector::ToBoolean => if ops.len() == 1 {
            match word_constant(&ops[0]) {
                Some(a) => Some(Constant::Boolean(unsigned_value(a) != 0)),
                None => None,
            }
        } else {
            None
        },
        BitVector::FromBoolean(bits) => if ops.len() == 1 && 1 <= bits && bits <= 64 {
            match bool_constant(&ops[0]) {
                Some(b) => Some(Constant::BitVector(BitVectorValue { value: if b { 1 } else { 0 }, bits })),
                None => None,
            }
        } else {
            None
        },
        _ => match word_pair(ops) {
            Some((a, b)) => Some(apply_word_operation(op, a, b)),
            None => None,
        },
    }
}

fn evaluate_equal(ops: &Vec<Expression>) -> (r: Option<Constant>)
    ensures
        r == evaluated_equal(ops@.map_values(|e: Expression| e@)),
{
    if ops.len() == 2 {
        if let (Some(a), Some(b)) = (bool_constant(&ops[0]), bool_constant(&ops[1])) {
            return Some(Constant::Boolean(a == b));
        }
    }
    match word_pair(ops) {
        Some((a, b)) => Some(Constant::Boolean(unsigned_value(a) == unsigned_value(b))),
        None => None,
    }
}

fn evaluate_ite(ops: &Vec<Expression>) -> (r: Option<Constant>)
    ensures
        r == evaluated_ite(ops@.map_values(|e: Expression| e@)),
{
    if ops.len() != 3 {
        return None;
    }
    match (bool_constant(&ops[0]), constant_value(&ops[1]), constant_value(&ops[2])) {
        (Some(c), Some(t), Some(f)) => if c {
            Some(t)
        } else {
            Some(f)
        },
        _ => None,
    }
}

/// The constant the expression evaluates to (see `evaluated`).
fn evaluate(e: &Expression) -> (r: Option<Constant>)
    ensures
        r == evaluated(e@),
{
    proof {
        assert(e@.operands =~= e.operands@.map_values(|x: Expression| x@));
    }
    match &e.operator {
        Operator::Boolean(op) => evaluate_boolean(*op, &e.operands),
        Operator::BitVector(op) => evaluate_bit_vector(*op, &e.operands),
        Operator::Equal => evaluate_equal(&e.operands),
        Operator::Ite => evaluate_ite(&e.operands),
        _ => None,
    }
}

impl Expression {
    /// This expression folded bottom-up (see `fold`).
    pub fn folded(&self) -> (r: Expression)
        ensures
            r@ == fold(self@),
        decreases self,
    {
        let mut operands: Vec<Expression> = Vec::new();
        let mut i: usize = 0;
        while i < self.operands.len()
            invariant
                0 <= i <= self.operands@.len(),
                operands@.len() == i,
                forall|j: int| 0 <= j < i ==> (#[trigger] operands@[j])@ == fold(self.operands@[j]@),
            decreases self.operands@.len() - i,
        {
            proof {
                assert(decreases_to!(self => self.operands@[i as int]));
            }
            operands.push(self.operands[i].folded());
            i += 1;
        }
        let e = Expression { operator: self.operator.clone(), operands, sort: self.sort.clone() };
        proof {
            assert(e@.operands =~= fold_each(self@.operands));
        }
        match evaluate(&e) {
            Some(c) => Expression::constant(c),
            None => e,
        }
    }
}

impl Node {
    /// This node with its expressions folded.
    pub fn folded(&self) -> (r: Node)
        ensures
            r@ == node_fold(self@),
    {
        match self {
            Node::Comment(t) => Node::Comment(t.clone()),
            Node::Let { var, expr } => Node::Let { var: var.clone(), expr: expr.folded() },
            Node::Assert { condition } => Node::Assert { condition: condition.folded() },
            Node::Assume { condition } => Node::Assume { condition: condition.folded() },
        }
    }
}

impl Program {
    /// Folds every expression; says whether that changed the program.
    pub fn fold_constants(&mut self) -> (r: bool)
        ensures
            final(self)@ == folded_nodes(old(self)@),
            r == (folded_nodes(old(self)@) != old(self)@),
    {
        let ghost before = self@;
        let mut nodes: Vec<Node> = Vec::new();
        let mut changed = false;
        let mut i: usize = 0;
        while i < self.nodes.len()
            invariant
                0 <= i <= self.nodes@.len(),
                before == self@,
                nodes@.len() == i,
                forall|j: int| 0 <= j < i ==> (#[trigger] nodes@[j])@ == node_fold(self.nodes@[j]@),
                changed == (exists|j: int| 0 <= j < i && (#[trigger] nodes@[j])@ != self.nodes@[j]@),
            decreases self.nodes@.len() - i,
        {
            let n = self.nodes[i].folded();
            let differs = !n.equals(&self.nodes[i]);
            let ghost previous = nodes@;
            nodes.push(n);
            proof {
                assert forall|j: int| 0 <= j < i implies nodes@[j] == previous[j] by {}
                if changed {
                    let j = choose|j: int| 0 <= j < i && (#[trigger] previous[j])@ != self.nodes@[j]@;
                    assert(nodes@[j] == previous[j]);
                }
                assert(nodes@[i as int] == n);
            }
            changed = changed || differs;
            i += 1;
        }
        proof {
            assert(folded_nodes(before) =~= Seq::new(nodes@.len(), |k: int| nodes@[k]@));
            if !changed {
                assert(folded_nodes(before) =~= before);
            } else {
                let j = choose|j: int| 0 <= j < nodes@.len() && (#[trigger] nodes@[j])@ != self.nodes@[j]@;
                assert(folded_nodes(before)[j] != before[j]);
            }
        }
        self.nodes = nodes;
        changed
    }
}

impl ConstantFolding {
    pub fn new() -> (r: Self) {
        ConstantFolding {}
    }
}

impl Optimization for ConstantFolding {
    /// Fold every expression whose operands are constant.
    fn optimize(&self, program: &mut Program) -> (r: Result<OptimizationResult, Error>)
        ensures
            folded_nodes(old(program)@) == old(program)@ ==> r == Ok::<OptimizationResult, Error>(
                OptimizationResult::Unchanged,
            ) && final(program)@ == old(program)@,
            folded_nodes(old(program)@) != old(program)@ ==> r == Ok::<OptimizationResult, Error>(
                OptimizationResult::Changed,
            ) && final(program)@ == folded_nodes(old(program)@),
    {
        if program.fold_constants() {
            Ok(OptimizationResult::Changed)
        } else {
            Ok(OptimizationResult::Unchanged)
        }
    }
}

} // verus!
