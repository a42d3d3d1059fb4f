use specbmc::hir::transformation::optimization::{Optimization, PhiElimination};
use specbmc::hir::{Block, ControlFlowGraph, Instruction, PhiNode};
use specbmc::lir::optimization::OptimizationResult;
use specbmc::error::Error;
use specbmc::lir::{BitVector, Boolean, Expression, Sort, Variable};

fn ssa_var(name: &str, version: usize) -> Variable {
    let mut var = Boolean::variable(name);
    var.set_version(Some(version));
    var
}

#[test]
fn test_should_replace_phi_node_with_assignment_if_all_incoming_variables_are_the_same() {
    // GIVEN
    let mut cfg = {
        let mut phi_node = PhiNode::new(ssa_var("x", 2));
        phi_node.add_incoming(ssa_var("x", 1), 1);
        phi_node.add_incoming(ssa_var("x", 1), 2);

        let mut block = Block::new(0);
        block.add_phi_node(phi_node);

        let mut cfg = ControlFlowGraph::new();
        cfg.add_block(block).unwrap();
        cfg
    };

    // WHEN
    let result = PhiElimination::new().optimize(&mut cfg).unwrap();

    // THEN
    assert_eq!(result, OptimizationResult::Changed);

    let block = cfg.block(0).unwrap();
    assert_eq!(0, block.phi_nodes().len());
    assert_eq!(1, block.instructions().len());
    assert_eq!(
        &Instruction::assign(ssa_var("x", 2), Expression::variable(ssa_var("x", 1))).unwrap(),
        block.instruction(0).unwrap()
    );
}

#[test]
fn test_should_not_replace_phi_node_with_assignment_if_incoming_variables_are_different() {
    // GIVEN
    let mut cfg = {
        let mut phi_node = PhiNode::new(ssa_var("x", 3));
        phi_node.add_incoming(ssa_var("x", 1), 1);
        phi_node.add_incoming(ssa_var("x", 2), 2);

        let mut block = Block::new(0);
        block.add_phi_node(phi_node);

        let mut cfg = ControlFlowGraph::new();
        cfg.add_block(block).unwrap();
        cfg
    };

    // WHEN
    let result = PhiElimination::new().optimize(&mut cfg).unwrap();

    // THEN
    assert_eq!(result, OptimizationResult::Unchanged);

    let block = cfg.block(0).unwrap();
    assert_eq!(1, block.phi_nodes().len());
    assert_eq!(0, block.instructions().len());
}

#[test]
fn replacing_assignments_keep_the_order_of_the_phi_nodes() {
    let mut first = PhiNode::new(ssa_var("a", 2));
    first.add_incoming(ssa_var("a", 1), 1);
    let mut kept = PhiNode::new(ssa_var("b", 3));
    kept.add_incoming(ssa_var("b", 1), 1);
    kept.add_incoming(ssa_var("b", 2), 2);
    let mut second = PhiNode::new(ssa_var("c", 2));
    second.add_incoming(ssa_var("c", 1), 1);
    second.add_incoming(ssa_var("c", 1), 2);
    let mut block = Block::new(0);
    block.add_phi_node(first);
    block.add_phi_node(kept.clone());
    block.add_phi_node(second);
    block.add_instruction(Instruction::assertion(Expression::variable(ssa_var("a", 2))).unwrap());
    let mut cfg = ControlFlowGraph::new();
    cfg.add_block(block).unwrap();

    assert_eq!(PhiElimination::new().optimize(&mut cfg), Ok(OptimizationResult::Changed));
    let block = cfg.block(0).unwrap();
    assert_eq!(block.phi_nodes(), &[kept][..]);
    assert_eq!(
        block.instructions(),
        &[
            Instruction::assign(ssa_var("a", 2), Expression::variable(ssa_var("a", 1))).unwrap(),
            Instruction::assign(ssa_var("c", 2), Expression::variable(ssa_var("c", 1))).unwrap(),
            Instruction::assertion(Expression::variable(ssa_var("a", 2))).unwrap(),
        ][..]
    );
}

#[test]
fn ill_sorted_replacement_fails_without_changes() {
    let mut phi_node = PhiNode::new(ssa_var("x", 2));
    phi_node.add_incoming(BitVector::variable("w", 8), 1);
    let mut block = Block::new(0);
    block.add_phi_node(phi_node.clone());
    let mut cfg = ControlFlowGraph::new();
    cfg.add_block(block).unwrap();

    assert_eq!(
        PhiElimination::new().optimize(&mut cfg),
        Err(Error::ExpectedSort { expected: Sort::boolean(), actual: Sort::bit_vector(8) })
    );
    assert_eq!(cfg.block(0).unwrap().phi_nodes(), &[phi_node][..]);
}
