use specbmc::hir::transformation::{
    add_transient_execution_start, transient_barrier, transient_conditional_branch, transient_store,
    InstructionRef, InstructionRefMap, PredictorStrategy,
};
use specbmc::hir::{ControlFlowGraph, EdgeLabels, Instruction};
use specbmc::lir::{BitVector, Boolean, Expression, Predictor, Sort, Variable};

fn predictor() -> Expression {
    Expression::variable(Predictor::variable())
}

#[test]
fn test_transient_store() {
    let addr = BitVector::word_constant(42);
    let var = Variable::new("x", Sort::word());

    // Given:
    let given_cfg = {
        let mut cfg = ControlFlowGraph::new();
        let block = cfg.new_block().unwrap();
        cfg.add_instruction(
            block,
            Instruction::assign(var.clone(), BitVector::word_constant(0)).unwrap().with_address(Some(1)),
        )
        .unwrap();
        cfg.add_instruction(
            block,
            Instruction::store(addr.clone(), Expression::variable(var.clone()))
                .unwrap()
                .with_address(Some(2)),
        )
        .unwrap();
        cfg.add_instruction(
            block,
            Instruction::load(var.clone(), addr.clone()).unwrap().with_address(Some(3)),
        )
        .unwrap();
        cfg
    };

    let inst_ref = InstructionRef::new(0, 1, 2);

    // When:
    let mut encoded_cfg = given_cfg.clone();
    let mut transient_entry_points = InstructionRefMap::new();
    transient_store(&mut encoded_cfg, &mut transient_entry_points, &inst_ref).unwrap();

    // Then:
    let expected_cfg = {
        let mut cfg = ControlFlowGraph::new();

        let block0_index = cfg.new_block().unwrap();
        cfg.add_instruction(
            block0_index,
            Instruction::assign(var.clone(), BitVector::word_constant(0)).unwrap().with_address(Some(1)),
        )
        .unwrap();

        let block1_index = cfg.new_block().unwrap();
        cfg.add_instruction(
            block1_index,
            Instruction::store(addr.clone(), Expression::variable(var.clone()))
                .unwrap()
                .with_address(Some(2)),
        )
        .unwrap();

        let block2_index = cfg.new_block().unwrap();
        cfg.add_instruction(
            block2_index,
            Instruction::load(var.clone(), addr.clone()).unwrap().with_address(Some(3)),
        )
        .unwrap();

        let store_bypass = Predictor::speculate(predictor(), BitVector::word_constant(2)).unwrap();
        let store_exec = Boolean::not(store_bypass.clone()).unwrap();

        cfg.conditional_edge(block0_index, block1_index, store_exec, EdgeLabels::none()).unwrap();
        cfg.conditional_edge(block0_index, block2_index, store_bypass, EdgeLabels::none().speculate())
            .unwrap();
        cfg.unconditional_edge(block1_index, block2_index, EdgeLabels::none()).unwrap();

        cfg
    };

    let mut expected_transient_entry_points = InstructionRefMap::new();
    expected_transient_entry_points.insert(inst_ref, 2); // should bypass store and therefore start in block 2

    assert_eq!(expected_cfg, encoded_cfg);
    assert_eq!(expected_transient_entry_points, transient_entry_points);
}

/// The graph of a conditional branch in block 0 to block 1 (taken) or block 2, which both go
/// to block 3.
fn branch_cfg(cond: &Expression, neg_cond: &Expression) -> ControlFlowGraph {
    let mut cfg = ControlFlowGraph::new();

    let block0_index = cfg.new_block().unwrap();
    cfg.add_instruction(
        block0_index,
        Instruction::conditional_branch(cond.clone(), BitVector::word_constant(4))
            .unwrap()
            .with_address(Some(4)),
    )
    .unwrap();

    let block1_index = cfg.new_block().unwrap();
    cfg.add_instruction(
        block1_index,
        Instruction::assign(Variable::new("x", Sort::boolean()), Boolean::constant(true))
            .unwrap()
            .with_address(Some(4)),
    )
    .unwrap();

    let block2_index = cfg.new_block().unwrap();
    cfg.add_instruction(
        block2_index,
        Instruction::assign(Variable::new("x", Sort::boolean()), Boolean::constant(false))
            .unwrap()
            .with_address(Some(2)),
    )
    .unwrap();
    cfg.add_instruction(
        block2_index,
        Instruction::branch(BitVector::word_constant(5)).unwrap().with_address(Some(3)),
    )
    .unwrap();

    let block3_index = cfg.new_block().unwrap();

    cfg.conditional_edge(block0_index, block1_index, cond.clone(), EdgeLabels::none().taken()).unwrap();
    cfg.conditional_edge(block0_index, block2_index, neg_cond.clone(), EdgeLabels::none()).unwrap();
    cfg.unconditional_edge(block1_index, block3_index, EdgeLabels::none()).unwrap();
    cfg.unconditional_edge(block2_index, block3_index, EdgeLabels::none()).unwrap();

    cfg
}

/// The expected graph after encoding a mispredicted branch: the branch moved to block 4 and the
/// speculation block 5 goes to blocks 1 (taken) and 2 under the given conditions.
fn expected_branch_cfg(
    cond: &Expression,
    neg_cond: &Expression,
    speculate_taken: Expression,
    speculate_not_taken: Expression,
) -> ControlFlowGraph {
    let mut cfg = ControlFlowGraph::new();

    let block0_index = cfg.new_block().unwrap();

    let block1_index = cfg.new_block().unwrap();
    cfg.add_instruction(
        block1_index,
        Instruction::assign(Variable::new("x", Sort::boolean()), Boolean::constant(true))
            .unwrap()
            .with_address(Some(4)),
    )
    .unwrap();

    let block2_index = cfg.new_block().unwrap();
    cfg.add_instruction(
        block2_index,
        Instruction::assign(Variable::new("x", Sort::boolean()), Boolean::constant(false))
            .unwrap()
            .with_address(Some(2)),
    )
    .unwrap();
    cfg.add_instruction(
        block2_index,
        Instruction::branch(BitVector::word_constant(5)).unwrap().with_address(Some(3)),
    )
    .unwrap();

    let block3_index = cfg.new_block().unwrap();

    let block4_index = cfg.new_block().unwrap();
    cfg.add_instruction(
        block4_index,
        Instruction::conditional_branch(cond.clone(), BitVector::word_constant(4))
            .unwrap()
            .with_address(Some(4)),
    )
    .unwrap();

    let block5_index = cfg.new_block().unwrap();

    cfg.conditional_edge(block4_index, block1_index, cond.clone(), EdgeLabels::none().taken()).unwrap();
    cfg.conditional_edge(block4_index, block2_index, neg_cond.clone(), EdgeLabels::none()).unwrap();
    cfg.unconditional_edge(block1_index, block3_index, EdgeLabels::none()).unwrap();
    cfg.unconditional_edge(block2_index, block3_index, EdgeLabels::none()).unwrap();

    let speculate = Predictor::speculate(predictor(), BitVector::word_constant(1)).unwrap();
    let not_speculate = Boolean::not(speculate.clone()).unwrap();

    cfg.conditional_edge(block0_index, block4_index, not_speculate, EdgeLabels::none()).unwrap();
    cfg.conditional_edge(block0_index, block5_index, speculate, EdgeLabels::none().speculate()).unwrap();
    cfg.conditional_edge(block5_index, block1_index, speculate_taken, EdgeLabels::none().taken()).unwrap();
    cfg.conditional_edge(block5_index, block2_index, speculate_not_taken, EdgeLabels::none()).unwrap();

    cfg
}

#[test]
fn test_transient_conditional_branch_with_choose_path_predictor() {
    let cond: Expression = Expression::variable(Boolean::variable("c"));
    let neg_cond = Boolean::not(cond.clone()).unwrap();

    // Given:
    let given_cfg = branch_cfg(&cond, &neg_cond);
    let inst_ref = InstructionRef::new(0, 0, 1);

    // When:
    let mut encoded_cfg = given_cfg.clone();
    let mut transient_entry_points = InstructionRefMap::new();
    transient_conditional_branch(
        &mut encoded_cfg,
        &mut transient_entry_points,
        &inst_ref,
        PredictorStrategy::ChoosePath,
    )
    .unwrap();

    // Then:
    let speculate_taken = Predictor::taken(predictor(), BitVector::word_constant(1)).unwrap();
    let speculate_not_taken = Boolean::not(speculate_taken.clone()).unwrap();
    let expected_cfg = expected_branch_cfg(&cond, &neg_cond, speculate_taken, speculate_not_taken);

    let mut expected_transient_entry_points = InstructionRefMap::new();
    expected_transient_entry_points.insert(inst_ref, 5); // block 5 encodes the speculative behavior

    assert_eq!(expected_cfg, encoded_cfg);
    assert_eq!(expected_transient_entry_points, transient_entry_points);
}

#[test]
fn test_transient_conditional_branch_with_invert_condition_predictor() {
    let cond: Expression = Expression::variable(Boolean::variable("c"));
    let neg_cond = Boolean::not(cond.clone()).unwrap();

    // Given:
    let given_cfg = branch_cfg(&cond, &neg_cond);
    let inst_ref = InstructionRef::new(0, 0, 1);

    // When:
    let mut encoded_cfg = given_cfg.clone();
    let mut transient_entry_points = InstructionRefMap::new();
    transient_conditional_branch(
        &mut encoded_cfg,
        &mut transient_entry_points,
        &inst_ref,
        PredictorStrategy::InvertCondition,
    )
    .unwrap();

    // Then:
    let speculate_neg_cond = Boolean::not(cond.clone()).unwrap();
    let speculate_neg_neg_cond = Boolean::not(neg_cond.clone()).unwrap();
    let expected_cfg = expected_branch_cfg(&cond, &neg_cond, speculate_neg_cond, speculate_neg_neg_cond);

    let mut expected_transient_entry_points = InstructionRefMap::new();
    expected_transient_entry_points.insert(inst_ref, 5); // block 5 encodes the speculative behavior

    assert_eq!(expected_cfg, encoded_cfg);
    assert_eq!(expected_transient_entry_points, transient_entry_points);
}

#[test]
fn test_transient_barrier() {
    let var = Variable::new("x", Sort::boolean());

    // Given:
    let given_cfg = {
        let mut cfg = ControlFlowGraph::new();

        let block0_index = cfg.new_block().unwrap();
        cfg.add_instruction(
            block0_index,
            Instruction::assign(var.clone(), Boolean::constant(false)).unwrap().with_address(Some(1)),
        )
        .unwrap();
        cfg.add_instruction(block0_index, Instruction::barrier().with_address(Some(2))).unwrap();
        cfg.add_instruction(
            block0_index,
            Instruction::assign(var.clone(), Boolean::constant(true)).unwrap().with_address(Some(3)),
        )
        .unwrap();

        let block1_index = cfg.new_block().unwrap();
        let block2_index = cfg.new_block().unwrap();

        cfg.set_exit(block2_index).unwrap();

        cfg.unconditional_edge(block0_index, block1_index, EdgeLabels::none()).unwrap();
        cfg.unconditional_edge(block1_index, block2_index, EdgeLabels::none()).unwrap();

        cfg
    };

    let inst_ref = InstructionRef::new(0, 1, 2);

    // When:
    let mut encoded_cfg = given_cfg.clone();
    transient_barrier(&mut encoded_cfg, &inst_ref).unwrap();

    // Then:
    let expected_cfg = {
        let mut cfg = ControlFlowGraph::new();

        let block0_index = cfg.new_block().unwrap();
        cfg.add_instruction(
            block0_index,
            Instruction::assign(var.clone(), Boolean::constant(false)).unwrap().with_address(Some(1)),
        )
        .unwrap();

        let block1_index = cfg.new_block().unwrap();
        let block2_index = cfg.new_block().unwrap();

        let block3_index = cfg.new_block().unwrap();
        cfg.add_instruction(block3_index, Instruction::barrier().with_address(Some(2))).unwrap();
        cfg.add_instruction(
            block3_index,
            Instruction::assign(var.clone(), Boolean::constant(true)).unwrap().with_address(Some(3)),
        )
        .unwrap();

        cfg.set_exit(block2_index).unwrap();

        cfg.unconditional_edge(block0_index, block2_index, EdgeLabels::none()).unwrap(); // resolve
        cfg.unconditional_edge(block1_index, block2_index, EdgeLabels::none()).unwrap();
        cfg.unconditional_edge(block3_index, block1_index, EdgeLabels::none()).unwrap();

        cfg
    };

    assert_eq!(expected_cfg, encoded_cfg);
}

#[test]
fn transient_start_splits_block_and_adds_speculation_window() {
    let var = Variable::new("x", Sort::boolean());
    let mut cfg = ControlFlowGraph::new();
    let block0 = cfg.new_block().unwrap();
    cfg.add_instruction(block0, Instruction::assign(var.clone(), Boolean::constant(false)).unwrap()).unwrap();
    cfg.add_instruction(block0, Instruction::assign(var.clone(), Boolean::constant(true)).unwrap()).unwrap();

    let inst_ref = InstructionRef::new(0, 1, 7);
    let mut points = InstructionRefMap::new();
    add_transient_execution_start(&mut cfg, &mut points, &inst_ref, 20, true).unwrap();

    // block 1 holds the second instruction, block 2 starts the transient execution
    assert_eq!(cfg.blocks().len(), 3);
    assert_eq!(cfg.block(0).unwrap().instructions().len(), 1);
    assert_eq!(cfg.block(1).unwrap().instructions().len(), 1);
    let start = cfg.block(2).unwrap();
    assert!(start.is_transient());
    assert_eq!(start.instructions().len(), 3);
    assert_eq!(start.instruction_count_ignoring_pseudo_instructions(), 0);
    assert_eq!(cfg.successor_indices(0).unwrap(), vec![1, 2]);
    assert!(cfg.edge(0, 2).unwrap().labels().speculate);
    assert_eq!(points.get(&inst_ref), Some(&(2, 1)));
}

#[test]
fn transient_encodings_report_missing_blocks_and_instructions() {
    let mut cfg = ControlFlowGraph::new();
    let mut points = InstructionRefMap::new();
    assert!(transient_store(&mut cfg, &mut points, &InstructionRef::new(0, 0, 0)).is_err());
    let block = cfg.new_block().unwrap();
    assert_eq!(
        transient_store(&mut cfg, &mut points, &InstructionRef::new(block, 1, 0)),
        Err(specbmc::error::Error::InstructionIndexOutOfBounds { block: 0, index: 1 })
    );
    // a branch without successors
    let mut branch_points = InstructionRefMap::new();
    let cond = Expression::variable(Boolean::variable("c"));
    cfg.add_instruction(block, Instruction::conditional_branch(cond, BitVector::word_constant(0)).unwrap()).unwrap();
    let mut cfg2 = ControlFlowGraph::new();
    let b = cfg2.new_block().unwrap();
    cfg2.add_instruction(b, Instruction::barrier()).unwrap();
    assert_eq!(
        transient_conditional_branch(&mut cfg2, &mut branch_points, &InstructionRef::new(b, 0, 0), PredictorStrategy::ChoosePath),
        Err(specbmc::error::Error::UnexpectedSuccessorCount { block: 1, count: 0 })
    );
}
