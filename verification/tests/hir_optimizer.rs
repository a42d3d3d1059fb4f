use specbmc::hir::transformation::optimization::{ConstantFolding, ExpressionSimplification, Optimization, Optimizer};
use specbmc::hir::{Block, ControlFlowGraph, EdgeLabels, Instruction};
use specbmc::lir::optimization::OptimizationResult;
use specbmc::lir::{BitVector, Boolean, Expression, Sort, Variable};

fn var(name: &str) -> Variable {
    Variable::new(name, Sort::boolean())
}

fn two_blocks(first: Vec<Instruction>, second: Vec<Instruction>) -> ControlFlowGraph {
    let mut block0 = Block::new(0);
    for inst in first {
        block0.add_instruction(inst);
    }
    let mut block1 = Block::new(1);
    for inst in second {
        block1.add_instruction(inst);
    }
    let mut cfg = ControlFlowGraph::new();
    cfg.add_block(block0).unwrap();
    cfg.add_block(block1).unwrap();
    cfg.unconditional_edge(0, 1, EdgeLabels::none()).unwrap();
    cfg
}

#[test]
fn graph_constant_folding_evaluates_operations() {
    let w = Variable::new("w", Sort::bit_vector(8));
    let sum = BitVector::add(BitVector::constant_u64(1, 8), BitVector::constant_u64(2, 8)).unwrap();
    let mut cfg = two_blocks(vec![Instruction::assign(w.clone(), sum).unwrap()], vec![]);
    assert_eq!(ConstantFolding::new().optimize(&mut cfg), Ok(OptimizationResult::Changed));
    assert_eq!(
        cfg.block(0).unwrap().instructions(),
        &[Instruction::assign(w, BitVector::constant_u64(3, 8)).unwrap()][..]
    );
    assert_eq!(ConstantFolding::new().optimize(&mut cfg), Ok(OptimizationResult::Unchanged));
}

#[test]
fn graph_expression_simplification_rewrites_edge_conditions() {
    let mut block0 = Block::new(0);
    block0.add_instruction(Instruction::assign(var("c"), Boolean::constant(true)).unwrap());
    let mut cfg = ControlFlowGraph::new();
    cfg.add_block(block0).unwrap();
    cfg.add_block(Block::new(1)).unwrap();
    let condition = Boolean::and(Expression::variable(var("c")), Boolean::constant(true)).unwrap();
    cfg.conditional_edge(0, 1, condition, EdgeLabels::none()).unwrap();
    assert_eq!(ExpressionSimplification::new().optimize(&mut cfg), Ok(OptimizationResult::Changed));
    assert_eq!(cfg.edges()[0].condition, Some(Expression::variable(var("c"))));
}

fn sample() -> ControlFlowGraph {
    // block 0: a := true /\ true; assert(a)
    // block 1: assert(a)
    let a = || Expression::variable(var("a"));
    two_blocks(
        vec![
            Instruction::assign(var("a"), Boolean::and(Boolean::constant(true), Boolean::constant(true)).unwrap())
                .unwrap(),
            Instruction::assertion(a()).unwrap(),
        ],
        vec![Instruction::assertion(a()).unwrap()],
    )
}

#[test]
fn graph_optimizer_full_level_removes_what_is_redundant() {
    let mut cfg = sample();
    Optimizer::full().optimize(&mut cfg, &[0, 1]).unwrap();
    let truth = Instruction::assertion(Boolean::constant(true)).unwrap();
    assert_eq!(cfg.block(0).unwrap().instructions(), &[truth][..]);
    assert_eq!(cfg.block(1).unwrap().instructions().len(), 0);
}

#[test]
fn graph_optimizer_basic_level_keeps_repeated_assertions() {
    let mut cfg = sample();
    Optimizer::basic().optimize(&mut cfg, &[0, 1]).unwrap();
    let truth = Instruction::assertion(Boolean::constant(true)).unwrap();
    assert_eq!(cfg.block(0).unwrap().instructions(), &[truth.clone()][..]);
    assert_eq!(cfg.block(1).unwrap().instructions(), &[truth][..]);
}

#[test]
fn graph_optimizer_none_changes_nothing() {
    let mut cfg = sample();
    Optimizer::none().optimize(&mut cfg, &[0, 1]).unwrap();
    assert_eq!(cfg.block(0).unwrap().instructions().len(), 2);
    assert_eq!(cfg.block(1).unwrap().instructions().len(), 1);
}
