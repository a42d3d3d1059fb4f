use specbmc::error::Error;
use specbmc::hir::transformation::{ExplicitEffects, ExplicitMemory, ExplicitProgramCounter};
use specbmc::hir::{Block, Effect, Instruction, Operation};
use specbmc::ir::Transform;
use specbmc::lir::{
    BitVector, Boolean, BranchTargetBuffer, Cache, Expression, Memory, PatternHistoryTable, Sort, Variable,
};

fn word(name: &str) -> Expression {
    Expression::variable(BitVector::word_variable(name))
}

fn boolean(name: &str) -> Expression {
    Expression::variable(Variable::new(name, Sort::boolean()))
}

#[test]
fn explicit_program_counter_assigns_addresses_and_next_program_counter() {
    let mut block = Block::new(0);
    let load = Instruction::load(BitVector::word_variable("x"), word("a")).unwrap();
    let branch = Instruction::conditional_branch(boolean("c"), word("t")).unwrap().with_address(Some(16));
    block.add_instruction(load.clone());
    block.add_instruction(branch.clone());

    let epc = ExplicitProgramCounter { observe_program_counter: true, observe_memory_loads: true };
    epc.transform(&mut block).unwrap();

    let address = Instruction::assign(ExplicitProgramCounter::address_variable(), word("a")).unwrap().into_pseudo();
    let next = Expression::ite(boolean("c"), word("t"), BitVector::word_constant(24)).unwrap();
    let pc = Instruction::assign(ExplicitProgramCounter::pc_variable(), next).unwrap().into_pseudo();
    let mut expected = Block::new(0);
    expected.add_instruction(address);
    expected.add_instruction(load);
    expected.add_instruction(pc);
    expected.add_instruction(branch);
    assert_eq!(block, expected);
}

#[test]
fn explicit_program_counter_variables_are_rollback_persistent_words() {
    let pc = ExplicitProgramCounter::pc_variable();
    assert_eq!(pc.name(), "_pc");
    assert!(pc.is_rollback_persistent());
    assert_eq!(pc.sort(), &Sort::word());
    assert_eq!(ExplicitProgramCounter::address_variable().name(), "_address");
}

#[test]
fn explicit_program_counter_rejects_a_narrow_address_and_keeps_the_block() {
    let mut block = Block::new(3);
    let narrow = Expression::variable(BitVector::variable("a", 32));
    block.add_instruction(Instruction::store(narrow, word("v")).unwrap());
    let before = block.clone();

    let epc = ExplicitProgramCounter { observe_program_counter: false, observe_memory_loads: true };
    assert_eq!(
        epc.transform(&mut block),
        Err(Error::ExpectedSort { expected: Sort::word(), actual: Sort::bit_vector(32) })
    );
    assert_eq!(block, before);

    let quiet = ExplicitProgramCounter { observe_program_counter: false, observe_memory_loads: false };
    quiet.transform(&mut block).unwrap();
    assert_eq!(block, before);
}

#[test]
fn explicit_program_counter_reports_an_overflowing_next_address() {
    let mut block = Block::new(0);
    block.add_instruction(
        Instruction::conditional_branch(boolean("c"), word("t")).unwrap().with_address(Some(u64::MAX - 3)),
    );
    let epc = ExplicitProgramCounter { observe_program_counter: true, observe_memory_loads: false };
    assert_eq!(epc.transform(&mut block), Err(Error::IndexOverflow));
}

#[test]
fn explicit_effects_are_placed_before_their_instruction() {
    let mut inst = Instruction::conditional_branch(boolean("c"), word("t")).unwrap().with_address(Some(8));
    inst.add_effects(&vec![
        Effect::cache_fetch(word("a"), 64),
        Effect::branch_target(BitVector::word_constant(8), word("t")),
        Effect::branch_condition(BitVector::word_constant(8), boolean("c")).only_if(boolean("s")),
    ]);
    let mut block = Block::new(0);
    block.add_instruction(inst.clone());

    ExplicitEffects {}.transform(&mut block).unwrap();

    let cache = Expression::variable(Cache::variable());
    let fetch = Cache::fetch(64, cache, word("a")).unwrap();
    let btb = Expression::variable(BranchTargetBuffer::variable());
    let track = BranchTargetBuffer::track(btb, BitVector::word_constant(8), word("t")).unwrap();
    let pht = Expression::variable(PatternHistoryTable::variable());
    let taken = PatternHistoryTable::taken(pht.clone(), BitVector::word_constant(8)).unwrap();
    let not_taken = PatternHistoryTable::not_taken(pht.clone(), BitVector::word_constant(8)).unwrap();
    let recorded = Expression::ite(boolean("c"), taken, not_taken).unwrap();
    let guarded = Expression::ite(boolean("s"), recorded, pht).unwrap();

    let effect = |variable: Variable, value: Expression| {
        Instruction::new(Operation::Assign { variable, expr: value }).with_address(Some(8)).into_pseudo()
    };
    let mut expected = Block::new(0);
    expected.add_instruction(effect(Cache::variable(), fetch));
    expected.add_instruction(effect(BranchTargetBuffer::variable(), track));
    expected.add_instruction(effect(PatternHistoryTable::variable(), guarded));
    expected.add_instruction(inst);
    assert_eq!(block, expected);
}

#[test]
fn explicit_effects_report_a_non_boolean_condition() {
    let mut inst = Instruction::skip();
    inst.add_effects(&vec![Effect::cache_fetch(word("a"), 8).only_if(word("w"))]);
    let mut block = Block::new(0);
    block.add_instruction(inst);
    let before = block.clone();
    assert_eq!(ExplicitEffects {}.transform(&mut block), Err(Error::ExpectedBool(Sort::word())));
    assert_eq!(block, before);
}

#[test]
fn explicit_memory_turns_stores_and_loads_into_assignments() {
    let mut store = Instruction::store(word("a"), Expression::variable(BitVector::variable("v", 8))).unwrap();
    ExplicitMemory {}.transform(&mut store).unwrap();
    let memory = Expression::variable(Memory::variable());
    let stored = Memory::store(memory.clone(), word("a"), Expression::variable(BitVector::variable("v", 8))).unwrap();
    assert_eq!(store, Instruction::assign(Memory::variable(), stored).unwrap());

    let mut load = Instruction::load(BitVector::variable("x", 16), word("a")).unwrap();
    ExplicitMemory {}.transform(&mut load).unwrap();
    let loaded = Memory::load(16, memory, word("a")).unwrap();
    assert_eq!(load, Instruction::assign(BitVector::variable("x", 16), loaded).unwrap());

    let mut other = Instruction::assumption(Boolean::constant(true)).unwrap();
    ExplicitMemory {}.transform(&mut other).unwrap();
    assert_eq!(other, Instruction::assumption(Boolean::constant(true)).unwrap());
}

#[test]
fn explicit_memory_rejects_a_load_into_a_boolean() {
    let mut load = Instruction::new(Operation::Load { variable: Variable::new("b", Sort::boolean()), address: word("a") });
    assert_eq!(ExplicitMemory {}.transform(&mut load), Err(Error::ExpectedBitVector(Sort::boolean())));
}
