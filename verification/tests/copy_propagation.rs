use specbmc::lir::optimization::resolve_copies_of_copies;
use specbmc::hir::transformation::optimization::{CopyPropagation, Optimization};
use specbmc::hir::{Block, ControlFlowGraph, EdgeLabels, Instruction};
use specbmc::lir::optimization::OptimizationResult;
use specbmc::lir::{Boolean, CopiedVariables, Expression};

#[test]
fn test_resolve_copies_of_copies() {
    // GIVEN
    let a = Boolean::variable("a");
    let b = Boolean::variable("b");
    let c = Boolean::variable("c");
    let d = Boolean::variable("d");
    let e = Boolean::variable("e");
    let f = Boolean::variable("f");

    let mut copies = CopiedVariables::new();
    copies.insert(b.clone(), a.clone());
    copies.insert(c.clone(), b.clone());
    copies.insert(d.clone(), c.clone());
    copies.insert(f.clone(), e.clone());

    // WHEN
    resolve_copies_of_copies(&mut copies);

    // THEN
    assert_eq!(copies.get(&b), Some(&a));
    assert_eq!(copies.get(&c), Some(&a));
    assert_eq!(copies.get(&d), Some(&a));
    assert_eq!(copies.get(&f), Some(&e));
}

fn assign(variable: &str, source: &str) -> Instruction {
    Instruction::assign(Boolean::variable(variable), Expression::variable(Boolean::variable(source))).unwrap()
}

#[test]
fn test_copy_propagation() {
    // v := u
    // y := x
    // z := y
    //   ->  z
    // a := z
    // b := v
    // c := a
    // d := e
    let mut cfg = {
        let mut block0 = Block::new(0);
        block0.add_instruction(assign("v", "u"));
        block0.add_instruction(assign("y", "x"));
        block0.add_instruction(assign("z", "y"));

        let mut block1 = Block::new(1);
        block1.add_instruction(assign("a", "z"));
        block1.add_instruction(assign("b", "v"));
        block1.add_instruction(assign("c", "a"));
        block1.add_instruction(assign("d", "e"));

        let mut cfg = ControlFlowGraph::new();
        cfg.add_block(block0).unwrap();
        cfg.add_block(block1).unwrap();
        cfg.conditional_edge(0, 1, Expression::variable(Boolean::variable("z")), EdgeLabels::none()).unwrap();
        cfg
    };

    let result = CopyPropagation::new().optimize(&mut cfg).unwrap();
    assert_eq!(result, OptimizationResult::Changed);

    // v := u
    // y := x
    // z := x
    //   ->  x
    // a := x
    // b := u
    // c := x
    // d := e
    let block0 = cfg.block(0).unwrap();
    assert_eq!(block0.instruction(0).unwrap(), &assign("v", "u"));
    assert_eq!(block0.instruction(1).unwrap(), &assign("y", "x"));
    assert_eq!(block0.instruction(2).unwrap(), &assign("z", "x"));

    let block1 = cfg.block(1).unwrap();
    assert_eq!(block1.instruction(0).unwrap(), &assign("a", "x"));
    assert_eq!(block1.instruction(1).unwrap(), &assign("b", "u"));
    assert_eq!(block1.instruction(2).unwrap(), &assign("c", "x"));
    assert_eq!(block1.instruction(3).unwrap(), &assign("d", "e"));

    let edge = cfg.edge(0, 1).unwrap();
    assert_eq!(edge.condition().unwrap(), &Expression::variable(Boolean::variable("x")));
}

#[test]
fn copy_propagation_without_copies_changes_nothing() {
    let mut cfg = ControlFlowGraph::new();
    let b = cfg.new_block().unwrap();
    cfg.add_instruction(b, Instruction::assign(Boolean::variable("x"), Boolean::constant(true)).unwrap()).unwrap();
    let result = CopyPropagation::new().optimize(&mut cfg).unwrap();
    assert_eq!(result, OptimizationResult::Unchanged);
}
