use specbmc::error::Error;
use specbmc::hir::transformation::{
    InitMemory, InitStack, NonSpecObsEquivalence, Observations, SecurityLevel, STACK_BASE,
};
use specbmc::hir::{Block, ControlFlowGraph, EdgeLabels, Instruction, Operation};
use specbmc::ir::Transform;
use specbmc::lir::{BitVector, Boolean, Cache, Expression, Memory, Sort, Variable};

fn boolean_variable(name: &str) -> Variable {
    Variable::new(name, Sort::boolean())
}

fn observe(v: &Variable) -> Instruction {
    Instruction::observable(Expression::variable(v.clone())).into_pseudo()
}

fn join_graph() -> ControlFlowGraph {
    let mut cfg = ControlFlowGraph::new();
    let b0 = cfg.new_block().unwrap();
    let b1 = cfg.new_block().unwrap();
    let b2 = cfg.new_block().unwrap();
    cfg.add_instruction(b0, Instruction::assign(boolean_variable("x"), Boolean::constant(true)).unwrap()).unwrap();
    cfg.add_instruction(b1, Instruction::assign(boolean_variable("y"), Boolean::constant(false)).unwrap()).unwrap();
    cfg.unconditional_edge(b0, b2, EdgeLabels::none()).unwrap();
    cfg.unconditional_edge(b1, b2, EdgeLabels::none()).unwrap();
    cfg.set_entry(b0).unwrap();
    cfg.set_exit(b2).unwrap();
    cfg
}

#[test]
fn observations_at_writes_joins_and_end() {
    let x = boolean_variable("x");
    let mut cfg = join_graph();
    let observations = Observations {
        observable_variables: vec![x.clone()],
        observe_variable_writes: true,
        observe_at_control_flow_joins: true,
        observe_at_end_of_program: true,
    };
    observations.transform(&mut cfg).unwrap();

    let mut block0 = Block::new(0);
    block0.add_instruction(Instruction::assign(x.clone(), Boolean::constant(true)).unwrap());
    block0.add_instruction(observe(&x));
    let mut block1 = Block::new(1);
    block1.add_instruction(Instruction::assign(boolean_variable("y"), Boolean::constant(false)).unwrap());
    let mut block2 = Block::new(2);
    block2.add_instruction(observe(&x));
    block2.add_instruction(observe(&x));
    assert_eq!(cfg.blocks, vec![block0, block1, block2]);
}

#[test]
fn observations_at_joins_come_in_reverse_order() {
    let (x, y) = (boolean_variable("x"), boolean_variable("y"));
    let mut cfg = join_graph();
    let observations = Observations {
        observable_variables: vec![x.clone(), y.clone()],
        observe_variable_writes: false,
        observe_at_control_flow_joins: true,
        observe_at_end_of_program: false,
    };
    observations.transform(&mut cfg).unwrap();
    let mut block2 = Block::new(2);
    block2.add_instruction(observe(&y));
    block2.add_instruction(observe(&x));
    assert_eq!(cfg.blocks[2], block2);
    assert_eq!(cfg.blocks[0].instructions.len(), 1);
}

#[test]
fn observations_at_the_end_need_an_exit() {
    let mut cfg = ControlFlowGraph::new();
    cfg.new_block().unwrap();
    let observations = Observations {
        observable_variables: vec![boolean_variable("x")],
        observe_variable_writes: false,
        observe_at_control_flow_joins: false,
        observe_at_end_of_program: true,
    };
    assert_eq!(observations.transform(&mut cfg), Err(Error::NoExit));
}

#[test]
fn init_memory_with_low_default_stores_secret_bytes() {
    let mut cfg = join_graph();
    let init = InitMemory::new(SecurityLevel::Low, vec![], vec![16]);
    init.transform(&mut cfg).unwrap();

    let memory = Memory::variable();
    let secret = BitVector::variable("_secret", 8);
    let entry = &cfg.blocks[0].instructions;
    assert_eq!(entry.len(), 5);
    assert_eq!(
        entry[1],
        Instruction::new(Operation::Assign { variable: memory.clone(), expr: Expression::nondet(Sort::memory()) })
            .into_pseudo()
    );
    assert_eq!(entry[2], Instruction::indistinguishable(Expression::variable(memory)).into_pseudo());
    assert_eq!(
        entry[3],
        Instruction::new(Operation::Assign { variable: secret.clone(), expr: Expression::nondet(Sort::bit_vector(8)) })
            .into_pseudo()
    );
    assert_eq!(
        entry[4],
        Instruction::store(BitVector::word_constant(16), Expression::variable(secret)).unwrap().into_pseudo()
    );
}

#[test]
fn init_memory_with_high_default_makes_low_bytes_indistinguishable() {
    let mut cfg = join_graph();
    let init = InitMemory::new(SecurityLevel::High, vec![4, 5], vec![]);
    init.transform(&mut cfg).unwrap();
    let memory = Expression::variable(Memory::variable());
    let entry = &cfg.blocks[0].instructions;
    assert_eq!(entry.len(), 4);
    let byte = |a: u64| Memory::load(8, memory.clone(), BitVector::word_constant(a)).unwrap();
    assert_eq!(entry[2], Instruction::indistinguishable(byte(4)).into_pseudo());
    assert_eq!(entry[3], Instruction::indistinguishable(byte(5)).into_pseudo());
    assert_eq!(InitMemory::default().default_memory_security_level(), SecurityLevel::High);
}

#[test]
fn init_stack_bounds_the_stack_pointer() {
    let mut cfg = join_graph();
    InitStack::default().transform(&mut cfg).unwrap();
    let rbp = BitVector::word_variable("rbp");
    let rsp = BitVector::word_variable("rsp");
    let entry = &cfg.blocks[0].instructions;
    assert_eq!(entry.len(), 8);
    assert_eq!(entry[2], Instruction::indistinguishable(Expression::variable(rbp.clone())).into_pseudo());
    let below = BitVector::ule(Expression::variable(rsp.clone()), Expression::variable(rbp)).unwrap();
    assert_eq!(entry[5], Instruction::assumption(below).unwrap().into_pseudo());
    let above = BitVector::ugt(Expression::variable(rsp.clone()), BitVector::word_constant(STACK_BASE)).unwrap();
    assert_eq!(entry[6], Instruction::assumption(above).unwrap().into_pseudo());
    let top = Memory::load(64, Expression::variable(Memory::variable()), Expression::variable(rsp)).unwrap();
    assert_eq!(entry[7], Instruction::indistinguishable(top).into_pseudo());
}

#[test]
fn initial_state_needs_an_entry() {
    let mut cfg = ControlFlowGraph::new();
    assert_eq!(InitStack::default().transform(&mut cfg), Err(Error::NoEntry));
    assert_eq!(InitMemory::default().transform(&mut cfg), Err(Error::NoEntry));
}

#[test]
fn non_speculative_counterparts_outside_transient_blocks() {
    let cache = Cache::variable();
    let cache_expr = Expression::variable(cache.clone());
    let fetch = Cache::fetch(8, cache_expr.clone(), BitVector::word_constant(0)).unwrap();
    let update = Instruction::assign(cache.clone(), fetch).unwrap();
    let observation = Instruction::observable(cache_expr.clone());

    let mut cfg = ControlFlowGraph::new();
    let b0 = cfg.new_block().unwrap();
    let b1 = cfg.new_block().unwrap();
    cfg.add_instruction(b0, update.clone()).unwrap();
    cfg.add_instruction(b0, observation.clone()).unwrap();
    cfg.add_instruction(b1, update.clone()).unwrap();
    cfg.set_block_transient(b1).unwrap();
    cfg.set_entry(b0).unwrap();

    NonSpecObsEquivalence {}.transform(&mut cfg).unwrap();

    let cache_ns = Variable::new("_cache_ns", Sort::Cache);
    let ns_expr = Expression::variable(cache_ns.clone());
    let ns_fetch = Cache::fetch(8, ns_expr.clone(), BitVector::word_constant(0)).unwrap();
    let block0 = &cfg.blocks[0].instructions;
    assert_eq!(block0.len(), 5);
    assert_eq!(block0[0], Instruction::assign(cache_ns.clone(), ns_fetch).unwrap().into_pseudo());
    assert_eq!(block0[1], update);
    assert_eq!(block0[2], Instruction::indistinguishable(ns_expr).into_pseudo());
    assert_eq!(block0[3], observation);
    assert_eq!(block0[4], Instruction::assign(cache_ns, cache_expr).unwrap().into_pseudo());
    assert_eq!(cfg.blocks[1].instructions, vec![update]);
}

#[test]
fn init_memory_keeps_its_increasing_address_lists() {
    let init = InitMemory::new(SecurityLevel::Low, vec![1, 3], vec![2]);
    assert_eq!(init.default_memory_security_level(), SecurityLevel::Low);
    assert_eq!(init.low_security_memory_addresses(), &[1, 3][..]);
    assert_eq!(init.high_security_memory_addresses(), &[2][..]);
}
