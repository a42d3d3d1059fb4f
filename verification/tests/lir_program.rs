use specbmc::ir::Validate;
use specbmc::lir::optimization::{ConstantPropagation, Optimization, OptimizationResult, Optimizer};
use specbmc::lir::{Boolean, Expression, Node, Program, Sort, Variable};

fn boolean_variable(name: &str) -> Variable {
    Variable::new(name, Sort::boolean())
}

#[test]
fn test_constant_propagation() {
    // x := true
    // y := x
    // assume(y /\ x)
    let mut program = Program::new();
    program.assign(boolean_variable("x"), Boolean::constant(true)).unwrap();
    program.assign(boolean_variable("y"), Expression::variable(boolean_variable("x"))).unwrap();
    program
        .assumption(Boolean::and(Expression::variable(boolean_variable("y")), Expression::variable(boolean_variable("x"))).unwrap())
        .unwrap();

    let result = ConstantPropagation::new().optimize(&mut program).unwrap();
    assert_eq!(result, OptimizationResult::Changed);

    // x := true
    // y := true
    // assume(y /\ true)
    assert_eq!(
        program.node(0).unwrap(),
        &Node::assign(boolean_variable("x"), Boolean::constant(true)).unwrap()
    );
    assert_eq!(
        program.node(1).unwrap(),
        &Node::assign(boolean_variable("y"), Boolean::constant(true)).unwrap()
    );
    assert_eq!(
        program.node(2).unwrap(),
        &Node::assumption(Boolean::and(Expression::variable(boolean_variable("y")), Boolean::constant(true)).unwrap())
            .unwrap()
    );
}

#[test]
fn constant_propagation_without_constants_changes_nothing() {
    let mut program = Program::new();
    program.assumption(Expression::variable(boolean_variable("x"))).unwrap();
    let result = ConstantPropagation::new().optimize(&mut program).unwrap();
    assert_eq!(result, OptimizationResult::Unchanged);
    assert_eq!(program.node(0).unwrap(), &Node::assumption(Expression::variable(boolean_variable("x"))).unwrap());
}

#[test]
fn test_validate_should_return_error_when_variable_is_redefined() {
    let mut program = Program::new();
    program.assign(boolean_variable("x"), Boolean::constant(true)).unwrap();
    program.assign(boolean_variable("x"), Boolean::constant(true)).unwrap();

    let result = program.validate();

    assert_eq!(result.is_err(), true);
}

#[test]
fn test_validate_should_return_error_when_undefined_variable_is_used() {
    let mut program = Program::new();
    program.assumption(Expression::variable(boolean_variable("x"))).unwrap();

    let result = program.validate();

    assert_eq!(result.is_err(), true);
}

#[test]
fn test_validate_should_return_ok_when_given_program_is_valid() {
    let mut program = Program::new();
    program.assign(boolean_variable("x"), Boolean::constant(true)).unwrap();
    program.assign(boolean_variable("y"), Boolean::constant(true)).unwrap();
    program.assumption(Expression::variable(boolean_variable("x"))).unwrap();

    let result = program.validate();

    assert_eq!(result.is_ok(), true);
}

#[test]
fn node_mut_changes_the_node_in_place() {
    let mut program = Program::new();
    program.assign(boolean_variable("x"), Boolean::constant(true)).unwrap();
    program.comment("second");
    *program.node_mut(1).unwrap() = Node::assertion(Expression::variable(boolean_variable("x"))).unwrap();
    assert!(program.node(1).unwrap().is_assert());
    assert!(program.node(0).unwrap().is_let());
    assert!(program.node_mut(2).is_none());
}

fn copy_program() -> Program {
    // x := true; y := x; unused := y; assert(y)
    let mut program = Program::new();
    program.assign(boolean_variable("x"), Boolean::constant(true)).unwrap();
    program.assign(boolean_variable("y"), Expression::variable(boolean_variable("x"))).unwrap();
    program.assign(boolean_variable("unused"), Expression::variable(boolean_variable("y"))).unwrap();
    program.assertion(Expression::variable(boolean_variable("y"))).unwrap();
    program
}

#[test]
fn optimizer_levels() {
    let mut program = copy_program();
    Optimizer::none().optimize(&mut program).unwrap();
    assert_eq!(program.nodes().len(), 4);
    assert_eq!(program.node(3).unwrap(), &Node::assertion(Expression::variable(boolean_variable("y"))).unwrap());

    let mut program = copy_program();
    Optimizer::basic().optimize(&mut program).unwrap();
    assert_eq!(program.nodes().len(), 4);
    assert_eq!(program.node(3).unwrap(), &Node::assertion(Expression::variable(boolean_variable("x"))).unwrap());

    let mut program = copy_program();
    Optimizer::full().optimize(&mut program).unwrap();
    // Constants are propagated into the assertion and every assignment is then dead.
    assert_eq!(program.nodes().len(), 1);
    assert_eq!(program.node(0).unwrap(), &Node::assertion(Boolean::constant(true)).unwrap());
}
