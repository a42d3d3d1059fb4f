use specbmc::hir::transformation::{remove_unreachable_transient_edges, window_analysis};
use specbmc::hir::{ControlFlowGraph, EdgeLabels, Instruction};
use specbmc::lir::{Boolean, Sort, Variable};

/// Blocks 0, 1, 2 in a row with 2, 3 and 0 real instructions; block 2 is the exit.
fn chain() -> ControlFlowGraph {
    let x = Variable::new("x", Sort::boolean());
    let mut cfg = ControlFlowGraph::new();
    let b0 = cfg.new_block().unwrap();
    let b1 = cfg.new_block().unwrap();
    let b2 = cfg.new_block().unwrap();
    for _ in 0..2 {
        cfg.add_instruction(b0, Instruction::assign(x.clone(), Boolean::constant(true)).unwrap()).unwrap();
    }
    for _ in 0..3 {
        cfg.add_instruction(b1, Instruction::assign(x.clone(), Boolean::constant(false)).unwrap()).unwrap();
    }
    // a pseudo instruction does not take time
    cfg.add_instruction(b1, Instruction::skip().into_pseudo()).unwrap();
    cfg.unconditional_edge(b0, b1, EdgeLabels::none()).unwrap();
    cfg.unconditional_edge(b1, b2, EdgeLabels::none()).unwrap();
    cfg.set_exit(b2).unwrap();
    cfg
}

#[test]
fn window_left_before_each_block() {
    let cfg = chain();
    assert_eq!(window_analysis(&cfg, &[0], 4).unwrap(), vec![4, 2, 0]);
    assert_eq!(window_analysis(&cfg, &[0], 10).unwrap(), vec![10, 8, 5]);
    assert_eq!(window_analysis(&cfg, &[1, 0], 4).unwrap(), vec![4, 4, 1]);
    assert_eq!(
        window_analysis(&cfg, &[5, 0, 6], 4),
        Err(specbmc::error::Error::BlockNotFound(6))
    );
}

#[test]
fn exhausted_blocks_go_to_the_resolution() {
    let mut cfg = chain();
    remove_unreachable_transient_edges(&mut cfg, &[0], 4).unwrap();
    let heads_and_tails: Vec<(usize, usize)> = cfg.edges().iter().map(|e| (e.head(), e.tail())).collect();
    assert_eq!(heads_and_tails, vec![(0, 1), (1, 2), (2, 2)]);

    let mut unchanged = chain();
    assert_eq!(
        remove_unreachable_transient_edges(&mut unchanged, &[3], 4),
        Err(specbmc::error::Error::BlockNotFound(3))
    );
    assert_eq!(unchanged, chain());
}
