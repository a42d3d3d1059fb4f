use specbmc::hir::transformation::optimization::{DeadCodeElimination, Optimization};
use specbmc::hir::{Block, ControlFlowGraph, EdgeLabels, Instruction, PhiNode};
use specbmc::lir::optimization::OptimizationResult;
use specbmc::lir::{Boolean, Expression, Sort, Variable};

fn var(name: &str) -> Variable {
    Variable::new(name, Sort::boolean())
}

fn assign(name: &str, expr: Expression) -> Instruction {
    Instruction::assign(var(name), expr).unwrap()
}

#[test]
fn unneeded_assignments_are_removed() {
    let mut block0 = Block::new(0);
    block0.add_instruction(assign("x", Boolean::constant(true)));
    block0.add_instruction(assign("y", Boolean::constant(false)));
    block0.add_instruction(assign("z", Expression::variable(var("x"))));
    block0.add_instruction(assign("c", Boolean::constant(true)));
    let mut block1 = Block::new(1);
    block1.add_instruction(Instruction::assertion(Expression::variable(var("z"))).unwrap());
    block1.add_instruction(assign("w", Expression::variable(var("y"))));

    let mut cfg = ControlFlowGraph::new();
    cfg.add_block(block0).unwrap();
    cfg.add_block(block1).unwrap();
    cfg.conditional_edge(0, 1, Expression::variable(var("c")), EdgeLabels::none()).unwrap();

    assert_eq!(DeadCodeElimination::new().optimize(&mut cfg), Ok(OptimizationResult::Changed));
    assert_eq!(
        cfg.block(0).unwrap().instructions(),
        &[
            assign("x", Boolean::constant(true)),
            assign("z", Expression::variable(var("x"))),
            assign("c", Boolean::constant(true)),
        ][..]
    );
    assert_eq!(
        cfg.block(1).unwrap().instructions(),
        &[Instruction::assertion(Expression::variable(var("z"))).unwrap()][..]
    );

    assert_eq!(DeadCodeElimination::new().optimize(&mut cfg), Ok(OptimizationResult::Unchanged));
}

fn ssa_var(name: &str, version: usize) -> Variable {
    let mut var = Boolean::variable(name);
    var.set_version(Some(version));
    var
}

#[test]
fn phi_nodes_are_removed_unless_needed() {
    // block 0: x1 := true; y1 := false
    // block 1: x2 = phi[x1]; y2 = phi[y1]; assert(x2)
    let mut block0 = Block::new(0);
    block0.add_instruction(Instruction::assign(ssa_var("x", 1), Boolean::constant(true)).unwrap());
    block0.add_instruction(Instruction::assign(ssa_var("y", 1), Boolean::constant(false)).unwrap());
    let mut block1 = Block::new(1);
    let mut phi_x = PhiNode::new(ssa_var("x", 2));
    phi_x.add_incoming(ssa_var("x", 1), 0);
    let mut phi_y = PhiNode::new(ssa_var("y", 2));
    phi_y.add_incoming(ssa_var("y", 1), 0);
    block1.add_phi_node(phi_x.clone());
    block1.add_phi_node(phi_y);
    block1.add_instruction(Instruction::assertion(Expression::variable(ssa_var("x", 2))).unwrap());

    let mut cfg = ControlFlowGraph::new();
    cfg.add_block(block0).unwrap();
    cfg.add_block(block1).unwrap();
    cfg.unconditional_edge(0, 1, EdgeLabels::none()).unwrap();

    assert_eq!(DeadCodeElimination::new().optimize(&mut cfg), Ok(OptimizationResult::Changed));
    // The phi node of y and the assignment it reads are dead; x and its phi node are needed.
    assert_eq!(cfg.block(1).unwrap().phi_nodes(), &[phi_x][..]);
    assert_eq!(
        cfg.block(0).unwrap().instructions(),
        &[Instruction::assign(ssa_var("x", 1), Boolean::constant(true)).unwrap()][..]
    );
    assert_eq!(cfg.block(1).unwrap().instructions().len(), 1);
    assert_eq!(DeadCodeElimination::new().optimize(&mut cfg), Ok(OptimizationResult::Unchanged));
}
