use specbmc::lir::optimization::{
    ConstantFolding, ExpressionSimplification, Optimization, OptimizationResult, Optimizer, Pass,
};
use specbmc::lir::{BitVector, Boolean, Expression, Node, Program, Sort, Variable};

fn boolean_variable(name: &str) -> Variable {
    Variable::new(name, Sort::boolean())
}

fn byte(value: u64) -> Expression {
    BitVector::constant_u64(value, 8)
}

fn fold_single(expr: Expression) -> Expression {
    let mut program = Program::new();
    program.assign(Variable::new("r", expr.sort().clone()), expr).unwrap();
    ConstantFolding::new().optimize(&mut program).unwrap();
    match program.node(0).unwrap() {
        Node::Let { expr, .. } => expr.clone(),
        _ => panic!("expected an assignment"),
    }
}

#[test]
fn constant_folding_adds_constants() {
    // 1 + 2 becomes 3
    assert_eq!(fold_single(BitVector::add(byte(1), byte(2)).unwrap()), byte(3));
}

#[test]
fn constant_folding_wraps_around_the_width() {
    assert_eq!(fold_single(BitVector::add(byte(255), byte(2)).unwrap()), byte(1));
    assert_eq!(fold_single(BitVector::sub(byte(1), byte(2)).unwrap()), byte(255));
}

#[test]
fn constant_folding_compares_signed_and_unsigned() {
    // 0xff is -1 when signed and 255 when unsigned.
    assert_eq!(fold_single(BitVector::sle(byte(255), byte(0)).unwrap()), Boolean::constant(true));
    assert_eq!(fold_single(BitVector::ule(byte(255), byte(0)).unwrap()), Boolean::constant(false));
    assert_eq!(fold_single(BitVector::ult(byte(3), byte(4)).unwrap()), Boolean::constant(true));
    assert_eq!(fold_single(BitVector::sgt(byte(1), byte(128)).unwrap()), Boolean::constant(true));
    assert_eq!(fold_single(BitVector::ugt(byte(1), byte(128)).unwrap()), Boolean::constant(false));
}

#[test]
fn constant_folding_converts_between_sorts() {
    assert_eq!(fold_single(BitVector::to_boolean(byte(0)).unwrap()), Boolean::constant(false));
    assert_eq!(fold_single(BitVector::to_boolean(byte(4)).unwrap()), Boolean::constant(true));
    assert_eq!(fold_single(BitVector::from_boolean(8, Boolean::constant(true)).unwrap()), byte(1));
}

#[test]
fn constant_folding_evaluates_boolean_operators_bottom_up() {
    // !(true /\ false) => false
    let inner = Boolean::and(Boolean::constant(true), Boolean::constant(false)).unwrap();
    let expr = Boolean::imply(Boolean::not(inner).unwrap(), Boolean::constant(false)).unwrap();
    assert_eq!(fold_single(expr), Boolean::constant(false));
    let expr = Expression::equal(byte(7), byte(7)).unwrap();
    assert_eq!(fold_single(expr), Boolean::constant(true));
    let expr = Expression::ite(Boolean::constant(false), byte(1), byte(2)).unwrap();
    assert_eq!(fold_single(expr), byte(2));
}

#[test]
fn constant_folding_leaves_variables_alone() {
    let expr = Boolean::and(Expression::variable(boolean_variable("x")), Boolean::constant(true)).unwrap();
    let mut program = Program::new();
    program.assumption(expr.clone()).unwrap();
    assert_eq!(ConstantFolding::new().optimize(&mut program).unwrap(), OptimizationResult::Unchanged);
    assert_eq!(program.node(0).unwrap(), &Node::assumption(expr).unwrap());
}

#[test]
fn constant_folding_reports_a_change_once() {
    let mut program = Program::new();
    program.assumption(Boolean::and(Boolean::constant(true), Boolean::constant(true)).unwrap()).unwrap();
    assert_eq!(ConstantFolding::new().optimize(&mut program).unwrap(), OptimizationResult::Changed);
    assert_eq!(program.node(0).unwrap(), &Node::assumption(Boolean::constant(true)).unwrap());
    assert_eq!(ConstantFolding::new().optimize(&mut program).unwrap(), OptimizationResult::Unchanged);
}

fn simplify_single(expr: Expression) -> (OptimizationResult, Expression) {
    let mut program = Program::new();
    program.assumption(expr).unwrap();
    let result = ExpressionSimplification::new().optimize(&mut program).unwrap();
    match program.node(0).unwrap() {
        Node::Assume { condition } => (result, condition.clone()),
        _ => panic!("expected an assumption"),
    }
}

#[test]
fn expression_simplification_applies_boolean_laws() {
    let x = || Expression::variable(boolean_variable("x"));
    // x /\ false becomes false
    let (result, expr) = simplify_single(Boolean::and(x(), Boolean::constant(false)).unwrap());
    assert_eq!(result, OptimizationResult::Changed);
    assert_eq!(expr, Boolean::constant(false));
    assert_eq!(simplify_single(Boolean::and(Boolean::constant(true), x()).unwrap()).1, x());
    assert_eq!(simplify_single(Boolean::or(x(), Boolean::constant(true)).unwrap()).1, Boolean::constant(true));
    assert_eq!(simplify_single(Boolean::or(Boolean::constant(false), x()).unwrap()).1, x());
    assert_eq!(simplify_single(Boolean::not(Boolean::not(x()).unwrap()).unwrap()).1, x());
    assert_eq!(simplify_single(Boolean::imply(Boolean::constant(true), x()).unwrap()).1, x());
    assert_eq!(simplify_single(Boolean::imply(x(), Boolean::constant(true)).unwrap()).1, Boolean::constant(true));
    assert_eq!(simplify_single(Boolean::xor(x(), Boolean::constant(false)).unwrap()).1, x());
    let y = Expression::variable(boolean_variable("y"));
    assert_eq!(simplify_single(Expression::ite(Boolean::constant(false), x(), y.clone()).unwrap()).1, y);
}

#[test]
fn expression_simplification_keeps_what_has_no_law() {
    let expr = Boolean::and(Expression::variable(boolean_variable("x")), Expression::variable(boolean_variable("y")))
        .unwrap();
    let (result, simplified) = simplify_single(expr.clone());
    assert_eq!(result, OptimizationResult::Unchanged);
    assert_eq!(simplified, expr);
}

#[test]
fn full_optimizer_folds_constant_assumptions() {
    let mut program = Program::new();
    program.assumption(Boolean::and(Boolean::constant(true), Boolean::constant(true)).unwrap()).unwrap();
    Optimizer::full().optimize(&mut program).unwrap();
    assert_eq!(program.nodes().len(), 1);
    assert_eq!(program.node(0).unwrap(), &Node::assumption(Boolean::constant(true)).unwrap());
}

#[test]
fn full_optimizer_runs_all_passes() {
    let optimizer = Optimizer::full();
    assert_eq!(
        optimizer.repeated_optimizations,
        vec![
            Pass::ConstantFolding,
            Pass::ConstantPropagation,
            Pass::ExpressionSimplification,
            Pass::CopyPropagation,
            Pass::DeadCodeElimination,
        ]
    );
    assert_eq!(optimizer.post_optimizations, vec![Pass::AssertionElimination, Pass::RedundantNodeElimination]);
    assert_eq!(optimizer.repetitions, 5);
}
