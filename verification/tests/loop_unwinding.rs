use specbmc::hir::transformation::{LoopUnwinding, NaturalLoop};
use specbmc::hir::{ControlFlowGraph, EdgeLabels, Instruction};
use specbmc::lir::{Boolean, Expression, Sort, Variable};

fn add_block_with_id(cfg: &mut ControlFlowGraph, id: &str) -> usize {
    let block = cfg.new_block().unwrap();
    cfg.add_instruction(
        block,
        Instruction::assign(Variable::new(id, Sort::boolean()), Boolean::constant(true)).unwrap(),
    )
    .unwrap();
    block
}

fn add_block_with_id_and_assumption(cfg: &mut ControlFlowGraph, id: &str, assumption: Expression) -> usize {
    let block = add_block_with_id(cfg, id);
    cfg.add_instruction(block, Instruction::assumption(assumption).unwrap()).unwrap();
    block
}

fn self_loop(l: &Expression, not_l: &Expression) -> ControlFlowGraph {
    let mut cfg = ControlFlowGraph::new();
    let block0_index = add_block_with_id(&mut cfg, "c0");
    let block1_index = add_block_with_id(&mut cfg, "c1");
    cfg.conditional_edge(block0_index, block0_index, l.clone(), EdgeLabels::none()).unwrap(); // loop
    cfg.conditional_edge(block0_index, block1_index, not_l.clone(), EdgeLabels::none()).unwrap();
    cfg.set_entry(block0_index).unwrap();
    cfg.set_exit(block1_index).unwrap();
    cfg
}

#[test]
fn test_unwind_self_loop_zero_times() {
    let l = Expression::variable(Variable::new("L", Sort::boolean()));
    let not_l = Boolean::not(l.clone()).unwrap();

    let mut unwound_cfg = self_loop(&l, &not_l);
    let nodes = LoopUnwinding::new().with_unwinding_bound(0).unwind_loop(&mut unwound_cfg, 0, &[0]).unwrap();
    assert_eq!(nodes, vec![0]);

    let expected_cfg = {
        let mut cfg = ControlFlowGraph::new();
        let block0_index = add_block_with_id_and_assumption(&mut cfg, "c0", not_l.clone());
        let block1_index = add_block_with_id(&mut cfg, "c1");
        cfg.conditional_edge(block0_index, block1_index, not_l, EdgeLabels::none()).unwrap();
        cfg.set_entry(block0_index).unwrap();
        cfg.set_exit(block1_index).unwrap();
        cfg
    };
    assert_eq!(expected_cfg, unwound_cfg);
}

#[test]
fn test_unwind_self_loop_three_times() {
    let l = Expression::variable(Variable::new("L", Sort::boolean()));
    let not_l = Boolean::not(l.clone()).unwrap();

    let mut unwound_cfg = self_loop(&l, &not_l);
    let mut unwinding = LoopUnwinding::new();
    unwinding.with_unwinding_bound(3);
    let nodes = unwinding.unwind_loop(&mut unwound_cfg, 0, &[0]).unwrap();
    assert_eq!(nodes, vec![0, 2, 3, 4]);

    let expected_cfg = {
        let mut cfg = ControlFlowGraph::new();

        let block0_index = add_block_with_id(&mut cfg, "c0");
        let block1_index = add_block_with_id(&mut cfg, "c1");

        // Duplicated blocks
        let block2_index = add_block_with_id_and_assumption(&mut cfg, "c0", not_l.clone());
        let block3_index = add_block_with_id(&mut cfg, "c0");
        let block4_index = add_block_with_id(&mut cfg, "c0");

        cfg.conditional_edge(block0_index, block4_index, l.clone(), EdgeLabels::none()).unwrap();
        cfg.conditional_edge(block0_index, block1_index, not_l.clone(), EdgeLabels::none()).unwrap();
        cfg.conditional_edge(block4_index, block3_index, l.clone(), EdgeLabels::none()).unwrap();
        cfg.conditional_edge(block4_index, block1_index, not_l.clone(), EdgeLabels::none()).unwrap();
        cfg.conditional_edge(block3_index, block2_index, l, EdgeLabels::none()).unwrap();
        cfg.conditional_edge(block3_index, block1_index, not_l.clone(), EdgeLabels::none()).unwrap();
        cfg.conditional_edge(block2_index, block1_index, not_l, EdgeLabels::none()).unwrap();

        cfg.set_entry(block0_index).unwrap();
        cfg.set_exit(block1_index).unwrap();

        cfg
    };
    assert_eq!(expected_cfg, unwound_cfg);
}

#[test]
fn unwinding_a_missing_header_fails() {
    let mut cfg = ControlFlowGraph::new();
    let result = LoopUnwinding::new().unwind_loop(&mut cfg, 7, &[]);
    assert_eq!(result, Err(specbmc::error::Error::BlockNotFound(7)));
}

#[test]
fn duplicate_and_rewire_blocks() {
    let mut cfg = ControlFlowGraph::new();
    let a = add_block_with_id(&mut cfg, "a");
    let b = add_block_with_id(&mut cfg, "b");
    cfg.unconditional_edge(a, b, EdgeLabels::none()).unwrap();
    cfg.unconditional_edge(b, a, EdgeLabels::none()).unwrap();
    let copies = cfg.duplicate_blocks(&[a, b]).unwrap();
    assert_eq!(copies, vec![2, 3]);
    assert_eq!(cfg.successor_indices(2).unwrap(), vec![3]);
    assert_eq!(cfg.successor_indices(3).unwrap(), vec![2]);
    cfg.rewire_edge(3, 2, 3, a).unwrap();
    assert_eq!(cfg.successor_indices(3).unwrap(), vec![a]);
    assert_eq!(
        cfg.rewire_edge(3, 2, 3, a),
        Err(specbmc::error::Error::EdgeNotFound { head: 3, tail: 2 })
    );
    assert_eq!(cfg.duplicate_blocks(&[9]), Err(specbmc::error::Error::BlockNotFound(9)));
}

fn single_loop(header: usize, nodes: Vec<usize>) -> Vec<NaturalLoop> {
    vec![NaturalLoop { header, nodes, parent: None }]
}

fn variable(name: &str) -> Expression {
    Expression::variable(Variable::new(name, Sort::boolean()))
}

#[test]
fn test_unwind_nested_loop_one_time() {
    let a = variable("a");
    let not_a = Boolean::not(a.clone()).unwrap();
    let b = variable("b");
    let not_b = Boolean::not(b.clone()).unwrap();

    // Self loop at block 1 and loop 0, 1, 2
    let mut unwound_cfg = {
        let mut cfg = ControlFlowGraph::new();
        let block0_index = add_block_with_id(&mut cfg, "c0");
        let block1_index = add_block_with_id(&mut cfg, "c1");
        let block2_index = add_block_with_id(&mut cfg, "c2");
        let block3_index = add_block_with_id(&mut cfg, "c3");
        cfg.unconditional_edge(block0_index, block1_index, EdgeLabels::none()).unwrap();
        cfg.conditional_edge(block1_index, block1_index, b.clone(), EdgeLabels::none()).unwrap(); // loop
        cfg.conditional_edge(block1_index, block2_index, not_b.clone(), EdgeLabels::none()).unwrap();
        cfg.conditional_edge(block2_index, block0_index, a.clone(), EdgeLabels::none()).unwrap(); // loop
        cfg.conditional_edge(block2_index, block3_index, not_a.clone(), EdgeLabels::none()).unwrap();
        cfg.set_entry(block0_index).unwrap();
        cfg.set_exit(block3_index).unwrap();
        cfg
    };

    // The loop tree, innermost first: the self loop at 1 lies in the loop 0, 1, 2.
    let loops = vec![
        NaturalLoop { header: 1, nodes: vec![1], parent: Some(1) },
        NaturalLoop { header: 0, nodes: vec![0, 1, 2], parent: None },
    ];
    let mut unwinding = LoopUnwinding::new();
    unwinding.with_unwinding_bound(1);
    unwinding.unwind_cfg(&mut unwound_cfg, &loops).unwrap();

    let expected_cfg = {
        let mut cfg = ControlFlowGraph::new();
        let block0_index = add_block_with_id(&mut cfg, "c0");
        let block1_index = add_block_with_id(&mut cfg, "c1");
        let block2_index = add_block_with_id(&mut cfg, "c2");
        let block3_index = add_block_with_id(&mut cfg, "c3");
        let block4_index = add_block_with_id_and_assumption(&mut cfg, "c1", not_b.clone());
        let block5_index = add_block_with_id(&mut cfg, "c0");
        let block6_index = add_block_with_id(&mut cfg, "c1");
        let block7_index = add_block_with_id_and_assumption(&mut cfg, "c2", not_a.clone());
        let block8_index = add_block_with_id_and_assumption(&mut cfg, "c1", not_b.clone());
        cfg.unconditional_edge(block0_index, block1_index, EdgeLabels::none()).unwrap();
        cfg.conditional_edge(block1_index, block2_index, not_b.clone(), EdgeLabels::none()).unwrap();
        cfg.conditional_edge(block1_index, block4_index, b.clone(), EdgeLabels::none()).unwrap();
        cfg.conditional_edge(block2_index, block3_index, not_a.clone(), EdgeLabels::none()).unwrap();
        cfg.conditional_edge(block2_index, block5_index, a, EdgeLabels::none()).unwrap();
        cfg.conditional_edge(block4_index, block2_index, not_b.clone(), EdgeLabels::none()).unwrap();
        cfg.unconditional_edge(block5_index, block6_index, EdgeLabels::none()).unwrap();
        cfg.conditional_edge(block6_index, block7_index, not_b.clone(), EdgeLabels::none()).unwrap();
        cfg.conditional_edge(block6_index, block8_index, b, EdgeLabels::none()).unwrap();
        cfg.conditional_edge(block7_index, block3_index, not_a, EdgeLabels::none()).unwrap();
        cfg.conditional_edge(block8_index, block7_index, not_b, EdgeLabels::none()).unwrap();
        cfg.set_entry(block0_index).unwrap();
        cfg.set_exit(block3_index).unwrap();
        cfg
    };
    assert_eq!(expected_cfg, unwound_cfg);
}

/// Blocks c1, c2, c3 with the loop c1 -> c2 -> c1 left at c2.
fn loop_exit_at_second(l: &Expression, not_l: &Expression) -> ControlFlowGraph {
    let mut cfg = ControlFlowGraph::new();
    let block1_index = add_block_with_id(&mut cfg, "c1");
    let block2_index = add_block_with_id(&mut cfg, "c2");
    let block3_index = add_block_with_id(&mut cfg, "c3");
    cfg.unconditional_edge(block1_index, block2_index, EdgeLabels::none()).unwrap();
    cfg.conditional_edge(block2_index, block1_index, l.clone(), EdgeLabels::none()).unwrap(); // loop
    cfg.conditional_edge(block2_index, block3_index, not_l.clone(), EdgeLabels::none()).unwrap();
    cfg.set_entry(block1_index).unwrap();
    cfg.set_exit(block3_index).unwrap();
    cfg
}

#[test]
fn test_unwind_loop_1_2_with_loop_entry_1_and_loop_exit_2_zero_times() {
    let l = variable("L");
    let not_l = Boolean::not(l.clone()).unwrap();
    let mut unwound_cfg = loop_exit_at_second(&l, &not_l);
    LoopUnwinding::new().with_unwinding_bound(0).unwind_cfg(&mut unwound_cfg, &single_loop(0, vec![0, 1])).unwrap();

    let expected_cfg = {
        let mut cfg = ControlFlowGraph::new();
        let block1_index = add_block_with_id(&mut cfg, "c1");
        let block2_index = add_block_with_id_and_assumption(&mut cfg, "c2", not_l.clone());
        let block3_index = add_block_with_id(&mut cfg, "c3");
        cfg.unconditional_edge(block1_index, block2_index, EdgeLabels::none()).unwrap();
        cfg.conditional_edge(block2_index, block3_index, not_l, EdgeLabels::none()).unwrap();
        cfg.set_entry(block1_index).unwrap();
        cfg.set_exit(block3_index).unwrap();
        cfg
    };
    assert_eq!(expected_cfg, unwound_cfg);
}

#[test]
fn test_unwind_loop_1_2_with_loop_entry_1_and_loop_exit_2_one_time() {
    let l = variable("L");
    let not_l = Boolean::not(l.clone()).unwrap();
    let mut unwound_cfg = loop_exit_at_second(&l, &not_l);
    LoopUnwinding::new().with_unwinding_bound(1).unwind_cfg(&mut unwound_cfg, &single_loop(0, vec![0, 1])).unwrap();

    let expected_cfg = {
        let mut cfg = ControlFlowGraph::new();
        let block1_index = add_block_with_id(&mut cfg, "c1");
        let block2_index = add_block_with_id(&mut cfg, "c2");
        let block3_index = add_block_with_id(&mut cfg, "c3");
        let block4_index = add_block_with_id(&mut cfg, "c1");
        let block5_index = add_block_with_id_and_assumption(&mut cfg, "c2", not_l.clone());
        cfg.unconditional_edge(block1_index, block2_index, EdgeLabels::none()).unwrap();
        cfg.conditional_edge(block2_index, block3_index, not_l.clone(), EdgeLabels::none()).unwrap();
        cfg.conditional_edge(block2_index, block4_index, l, EdgeLabels::none()).unwrap();
        cfg.unconditional_edge(block4_index, block5_index, EdgeLabels::none()).unwrap();
        cfg.conditional_edge(block5_index, block3_index, not_l, EdgeLabels::none()).unwrap();
        cfg.set_entry(block1_index).unwrap();
        cfg.set_exit(block3_index).unwrap();
        cfg
    };
    assert_eq!(expected_cfg, unwound_cfg);
}

/// Blocks c1, c2, c3 with the loop c1 -> c2 -> c1 left at c1.
fn loop_exit_at_first(l: &Expression, not_l: &Expression) -> ControlFlowGraph {
    let mut cfg = ControlFlowGraph::new();
    let block1_index = add_block_with_id(&mut cfg, "c1");
    let block2_index = add_block_with_id(&mut cfg, "c2");
    let block3_index = add_block_with_id(&mut cfg, "c3");
    cfg.conditional_edge(block1_index, block2_index, l.clone(), EdgeLabels::none()).unwrap();
    cfg.conditional_edge(block1_index, block3_index, not_l.clone(), EdgeLabels::none()).unwrap();
    cfg.unconditional_edge(block2_index, block1_index, EdgeLabels::none()).unwrap(); // loop
    cfg.set_entry(block1_index).unwrap();
    cfg.set_exit(block3_index).unwrap();
    cfg
}

#[test]
fn test_unwind_loop_1_2_with_loop_entry_1_and_loop_exit_1_zero_times() {
    let l = variable("L");
    let not_l = Boolean::not(l.clone()).unwrap();
    let mut unwound_cfg = loop_exit_at_first(&l, &not_l);
    LoopUnwinding::new().with_unwinding_bound(0).unwind_cfg(&mut unwound_cfg, &single_loop(0, vec![0, 1])).unwrap();

    let expected_cfg = {
        let mut cfg = ControlFlowGraph::new();
        let block1_index = add_block_with_id_and_assumption(&mut cfg, "c1", not_l.clone());
        let block2_index = add_block_with_id(&mut cfg, "c2");
        let block3_index = add_block_with_id(&mut cfg, "c3");
        // block2 is dead end -> remove
        cfg.blocks.retain(|block| block.index != block2_index);
        cfg.conditional_edge(block1_index, block3_index, not_l, EdgeLabels::none()).unwrap();
        cfg.set_entry(block1_index).unwrap();
        cfg.set_exit(block3_index).unwrap();
        cfg
    };
    assert_eq!(expected_cfg, unwound_cfg);
}

#[test]
fn test_unwind_loop_1_2_with_loop_entry_1_and_loop_exit_1_one_time() {
    let l = variable("L");
    let not_l = Boolean::not(l.clone()).unwrap();
    let mut unwound_cfg = loop_exit_at_first(&l, &not_l);
    LoopUnwinding::new().with_unwinding_bound(1).unwind_cfg(&mut unwound_cfg, &single_loop(0, vec![0, 1])).unwrap();

    let expected_cfg = {
        let mut cfg = ControlFlowGraph::new();
        let block1_index = add_block_with_id(&mut cfg, "c1");
        let block2_index = add_block_with_id(&mut cfg, "c2");
        let block3_index = add_block_with_id(&mut cfg, "c3");
        let block4_index = add_block_with_id_and_assumption(&mut cfg, "c1", not_l.clone());
        cfg.conditional_edge(block1_index, block2_index, l, EdgeLabels::none()).unwrap();
        cfg.conditional_edge(block1_index, block3_index, not_l.clone(), EdgeLabels::none()).unwrap();
        cfg.unconditional_edge(block2_index, block4_index, EdgeLabels::none()).unwrap();
        cfg.conditional_edge(block4_index, block3_index, not_l, EdgeLabels::none()).unwrap();
        cfg.set_entry(block1_index).unwrap();
        cfg.set_exit(block3_index).unwrap();
        cfg
    };
    assert_eq!(expected_cfg, unwound_cfg);
}

/// Blocks c1 to c4 with the loop c1 -> c2 -> c3 -> c1 left at c2.
fn three_block_loop(l: &Expression, not_l: &Expression) -> ControlFlowGraph {
    let mut cfg = ControlFlowGraph::new();
    let block1_index = add_block_with_id(&mut cfg, "c1");
    let block2_index = add_block_with_id(&mut cfg, "c2");
    let block3_index = add_block_with_id(&mut cfg, "c3");
    let block4_index = add_block_with_id(&mut cfg, "c4");
    cfg.unconditional_edge(block1_index, block2_index, EdgeLabels::none()).unwrap();
    cfg.conditional_edge(block2_index, block3_index, l.clone(), EdgeLabels::none()).unwrap();
    cfg.conditional_edge(block2_index, block4_index, not_l.clone(), EdgeLabels::none()).unwrap();
    cfg.unconditional_edge(block3_index, block1_index, EdgeLabels::none()).unwrap(); // loop
    cfg.set_entry(block1_index).unwrap();
    cfg.set_exit(block4_index).unwrap();
    cfg
}

#[test]
fn test_unwind_loop_1_2_3_with_loop_entry_1_and_loop_exit_2_zero_times() {
    let l = variable("L");
    let not_l = Boolean::not(l.clone()).unwrap();
    let mut unwound_cfg = three_block_loop(&l, &not_l);
    LoopUnwinding::new().with_unwinding_bound(0).unwind_cfg(&mut unwound_cfg, &single_loop(0, vec![0, 1, 2])).unwrap();

    let expected_cfg = {
        let mut cfg = ControlFlowGraph::new();
        let block1_index = add_block_with_id(&mut cfg, "c1");
        let block2_index = add_block_with_id_and_assumption(&mut cfg, "c2", not_l.clone());
        let block3_index = add_block_with_id(&mut cfg, "c3");
        let block4_index = add_block_with_id(&mut cfg, "c4");
        // block3 is dead end -> remove
        cfg.blocks.retain(|block| block.index != block3_index);
        cfg.unconditional_edge(block1_index, block2_index, EdgeLabels::none()).unwrap();
        cfg.conditional_edge(block2_index, block4_index, not_l, EdgeLabels::none()).unwrap();
        cfg.set_entry(block1_index).unwrap();
        cfg.set_exit(block4_index).unwrap();
        cfg
    };
    assert_eq!(expected_cfg, unwound_cfg);
}

#[test]
fn test_unwind_loop_1_2_3_with_loop_entry_1_and_loop_exit_2_one_time() {
    let l = variable("L");
    let not_l = Boolean::not(l.clone()).unwrap();
    let mut unwound_cfg = three_block_loop(&l, &not_l);
    LoopUnwinding::new().with_unwinding_bound(1).unwind_cfg(&mut unwound_cfg, &single_loop(0, vec![0, 1, 2])).unwrap();

    let expected_cfg = {
        let mut cfg = ControlFlowGraph::new();
        let block1_index = add_block_with_id(&mut cfg, "c1");
        let block2_index = add_block_with_id(&mut cfg, "c2");
        let block3_index = add_block_with_id(&mut cfg, "c3");
        let block4_index = add_block_with_id(&mut cfg, "c4");
        let block5_index = add_block_with_id(&mut cfg, "c1");
        let block6_index = add_block_with_id_and_assumption(&mut cfg, "c2", not_l.clone());
        cfg.unconditional_edge(block1_index, block2_index, EdgeLabels::none()).unwrap();
        cfg.conditional_edge(block2_index, block4_index, not_l.clone(), EdgeLabels::none()).unwrap();
        cfg.conditional_edge(block2_index, block3_index, l, EdgeLabels::none()).unwrap();
        cfg.unconditional_edge(block3_index, block5_index, EdgeLabels::none()).unwrap();
        cfg.unconditional_edge(block5_index, block6_index, EdgeLabels::none()).unwrap();
        cfg.conditional_edge(block6_index, block4_index, not_l, EdgeLabels::none()).unwrap();
        cfg.set_entry(block1_index).unwrap();
        cfg.set_exit(block4_index).unwrap();
        cfg
    };
    assert_eq!(expected_cfg, unwound_cfg);
}

#[test]
fn dead_ends_are_removed_with_assertion_guards() {
    let l = variable("L");
    let not_l = Boolean::not(l.clone()).unwrap();
    let mut cfg = loop_exit_at_first(&l, &not_l);
    cfg.remove_edge(1, 0).unwrap();
    cfg.remove_dead_end_blocks(specbmc::hir::RemovedEdgeGuard::AssertEdgeNotTaken).unwrap();
    assert_eq!(cfg.blocks.len(), 2);
    assert_eq!(
        cfg.blocks[0].instructions.last().unwrap(),
        &Instruction::assertion(Boolean::not(l).unwrap()).unwrap()
    );
    assert_eq!(cfg.edges().len(), 1);

    let mut no_exit = ControlFlowGraph::new();
    no_exit.new_block().unwrap();
    assert_eq!(
        no_exit.remove_dead_end_blocks(specbmc::hir::RemovedEdgeGuard::AssumeEdgeNotTaken),
        Err(specbmc::error::Error::NoExit)
    );
}

#[test]
fn dead_ends_are_removed_without_guards_when_ignored() {
    let l = variable("L");
    let not_l = Boolean::not(l.clone()).unwrap();
    let mut cfg = loop_exit_at_first(&l, &not_l);
    let instructions_before = cfg.blocks[0].instructions.len();
    cfg.remove_edge(1, 0).unwrap();
    cfg.remove_dead_end_blocks(specbmc::hir::RemovedEdgeGuard::Ignore).unwrap();
    assert_eq!(cfg.blocks.len(), 2);
    assert_eq!(cfg.blocks[0].instructions.len(), instructions_before);
    assert_eq!(cfg.edges().len(), 1);
}

#[test]
fn new_unwinds_like_bound_zero_with_assumptions() {
    let l = variable("L");
    let not_l = Boolean::not(l.clone()).unwrap();
    let loops = vec![NaturalLoop { header: 0, nodes: vec![0, 1], parent: None }];

    let mut by_new = loop_exit_at_first(&l, &not_l);
    LoopUnwinding::new().unwind_cfg(&mut by_new, &loops).unwrap();

    let mut by_builder = loop_exit_at_first(&l, &not_l);
    LoopUnwinding::new()
        .with_unwinding_bound(0)
        .with_unwinding_guard(specbmc::hir::transformation::UnwindingGuard::Assumption)
        .unwind_cfg(&mut by_builder, &loops)
        .unwrap();

    assert_eq!(by_new, by_builder);
}

#[test]
fn failed_unwinding_leaves_the_graph_as_it_was() {
    let l = variable("L");
    let not_l = Boolean::not(l.clone()).unwrap();
    let before = loop_exit_at_first(&l, &not_l);

    let mut cfg = loop_exit_at_first(&l, &not_l);
    let result = LoopUnwinding::new().with_unwinding_bound(2).unwind_loop(&mut cfg, 7, &[7]);
    assert_eq!(result, Err(specbmc::error::Error::BlockNotFound(7)));
    assert_eq!(cfg, before);
}
