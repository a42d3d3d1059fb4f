use specbmc::hir::transformation::optimization::RedundantInstructionElimination;
use specbmc::hir::{Block, ControlFlowGraph, EdgeLabels, Instruction};
use specbmc::lir::optimization::OptimizationResult;
use specbmc::lir::{Boolean, Expression, Variable};

fn ssa_var(name: &str, version: usize) -> Variable {
    let mut var = Boolean::variable(name);
    var.set_version(Some(version));
    var
}

fn assertion(var: Variable) -> Instruction {
    Instruction::assertion(Expression::variable(var)).unwrap()
}

#[test]
fn test_remove_redundant_instructions_within_block() {
    // GIVEN
    let mut cfg = {
        let mut block = Block::new(0);
        block.add_instruction(assertion(ssa_var("a", 1)));
        block.add_instruction(assertion(ssa_var("b", 1)));
        block.add_instruction(assertion(ssa_var("a", 1)));
        block.add_instruction(assertion(ssa_var("a", 2)));
        block.add_instruction(assertion(ssa_var("b", 2)));
        block.add_instruction(assertion(ssa_var("b", 2)));

        let mut cfg = ControlFlowGraph::new();
        cfg.add_block(block).unwrap();
        cfg
    };

    // WHEN
    RedundantInstructionElimination::new().optimize(&mut cfg, &[0]).unwrap();

    // THEN
    let block = cfg.block(0).unwrap();
    assert_eq!(
        block.instructions(),
        &vec![
            assertion(ssa_var("a", 1)),
            assertion(ssa_var("b", 1)),
            assertion(ssa_var("a", 2)),
            assertion(ssa_var("b", 2)),
        ][..]
    );
}

fn diamond() -> ControlFlowGraph {
    let mut block0 = Block::new(0);
    block0.add_instruction(assertion(ssa_var("a", 1)));

    let mut block1 = Block::new(1);
    block1.add_instruction(assertion(ssa_var("b", 1)));
    block1.add_instruction(assertion(ssa_var("c", 1)));

    let mut block2 = Block::new(2);
    block2.add_instruction(assertion(ssa_var("b", 1)));
    block2.add_instruction(assertion(ssa_var("c", 2)));

    let mut block3 = Block::new(3);
    block3.add_instruction(assertion(ssa_var("a", 1)));
    block3.add_instruction(assertion(ssa_var("b", 1)));
    block3.add_instruction(assertion(ssa_var("c", 1)));
    block3.add_instruction(assertion(ssa_var("c", 2)));
    block3.add_instruction(assertion(ssa_var("d", 1)));

    let mut cfg = ControlFlowGraph::new();
    cfg.add_block(block0).unwrap();
    cfg.add_block(block1).unwrap();
    cfg.add_block(block2).unwrap();
    cfg.add_block(block3).unwrap();

    cfg.unconditional_edge(0, 1, EdgeLabels::none()).unwrap();
    cfg.unconditional_edge(0, 2, EdgeLabels::none()).unwrap();
    cfg.unconditional_edge(1, 3, EdgeLabels::none()).unwrap();
    cfg.unconditional_edge(2, 3, EdgeLabels::none()).unwrap();
    cfg
}

#[test]
fn test_remove_redundant_instructions_within_multiple_blocks() {
    // GIVEN
    let mut cfg = diamond();

    // WHEN
    RedundantInstructionElimination::new().optimize(&mut cfg, &[0, 1, 2, 3]).unwrap();

    // THEN
    let block3 = cfg.block(3).unwrap();
    assert_eq!(
        block3.instructions(),
        &vec![assertion(ssa_var("c", 1)), assertion(ssa_var("c", 2)), assertion(ssa_var("d", 1))][..]
    );
}

#[test]
fn elimination_reports_whether_it_changed_something() {
    let mut cfg = diamond();
    let order = [0, 2, 1, 3];
    assert_eq!(RedundantInstructionElimination::new().optimize(&mut cfg, &order), Ok(OptimizationResult::Changed));
    assert_eq!(RedundantInstructionElimination::new().optimize(&mut cfg, &order), Ok(OptimizationResult::Unchanged));
}

#[test]
fn elimination_keeps_instructions_that_write() {
    let mut block = Block::new(0);
    let assign = Instruction::assign(ssa_var("a", 1), Boolean::constant(true)).unwrap();
    block.add_instruction(assign.clone());
    block.add_instruction(assign.clone());
    let mut cfg = ControlFlowGraph::new();
    cfg.add_block(block).unwrap();
    assert_eq!(RedundantInstructionElimination::new().optimize(&mut cfg, &[0]), Ok(OptimizationResult::Unchanged));
    assert_eq!(cfg.block(0).unwrap().instructions().len(), 2);
}

#[test]
fn versions_distinguish_variables() {
    assert!(!ssa_var("a", 1).equals(&ssa_var("a", 2)));
    assert!(ssa_var("a", 1).equals(&ssa_var("a", 1)));
    assert_eq!(ssa_var("a", 3).version(), Some(3));
    assert_eq!(Boolean::variable("a").version(), None);
}
