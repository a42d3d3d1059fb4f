use specbmc::error::Error;
use specbmc::hir::transformation::{FunctionInlining, Inlining};
use specbmc::hir::{Block, ControlFlowGraph, EdgeLabels, Function, InlinedProgram, Instruction, Program, ProgramEntry};
use specbmc::lir::{BitVector, Boolean, Sort, Variable};

/// A block step: assign a boolean constant to a variable, or call an address.
enum Step {
    Assign(&'static str, bool),
    Call(u64),
}

fn block(index: usize, steps: &[Step]) -> Block {
    let mut block = Block::new(index);
    for step in steps {
        match step {
            Step::Assign(name, value) => block.add_instruction(
                Instruction::assign(Variable::new(name, Sort::boolean()), Boolean::constant(*value)).unwrap(),
            ),
            Step::Call(target) => block.add_instruction(Instruction::call(BitVector::constant_u64(*target, 64)).unwrap()),
        }
    }
    block
}

fn single_block_cfg(steps: &[Step]) -> ControlFlowGraph {
    let mut cfg = ControlFlowGraph::new();
    cfg.add_block(block(0, steps)).unwrap();
    cfg.set_entry(0).unwrap();
    cfg.set_exit(0).unwrap();
    cfg
}

fn program(functions: Vec<(u64, &str, ControlFlowGraph)>, entry: &str) -> Program {
    let mut program = Program::new();
    for (address, name, cfg) in functions {
        program.insert_function(Function::new(address, Some(name.to_owned()), cfg)).unwrap();
    }
    program.set_entry(ProgramEntry::Name(entry.to_owned())).unwrap();
    program
}

fn inlined(blocks: Vec<Block>, calls: &[(usize, usize)], returns: &[(usize, usize)], exit: usize) -> InlinedProgram {
    let mut cfg = ControlFlowGraph::new();
    for block in blocks {
        cfg.add_block(block).unwrap();
    }
    for &(head, tail) in calls {
        cfg.unconditional_edge(head, tail, EdgeLabels::none().call()).unwrap();
    }
    for &(head, tail) in returns {
        cfg.unconditional_edge(head, tail, EdgeLabels::none().ret()).unwrap();
    }
    cfg.set_entry(0).unwrap();
    cfg.set_exit(exit).unwrap();
    InlinedProgram::new(cfg)
}

fn inliner(recursion_limit: usize) -> FunctionInlining {
    FunctionInlining { recursion_limit }
}

#[test]
fn test_inline_function_a_in_b() {
    // Given: Two functions a and b; a calls b
    let program = program(
        vec![
            (0, "a", single_block_cfg(&[Step::Assign("a", false), Step::Call(10), Step::Assign("c", false)])),
            (10, "b", single_block_cfg(&[Step::Assign("b", true)])),
        ],
        "a",
    );

    // When: Inline
    let inlined_program = inliner(2).inline(&program).unwrap();

    // Then:
    let expected_program = inlined(
        vec![
            block(0, &[Step::Assign("a", false), Step::Call(10)]),
            block(1, &[Step::Assign("c", false)]),
            block(2, &[Step::Assign("b", true)]),
        ],
        &[(0, 2)],
        &[(2, 1)],
        1,
    );
    assert_eq!(expected_program, inlined_program);
}

#[test]
fn test_inline_function_a_in_b_twice() {
    // Given: Two functions a and b; a calls b twice
    let program = program(
        vec![
            (
                0,
                "a",
                single_block_cfg(&[
                    Step::Assign("a", false),
                    Step::Call(10),
                    Step::Assign("c", false),
                    Step::Call(10),
                    Step::Assign("d", false),
                ]),
            ),
            (10, "b", single_block_cfg(&[Step::Assign("b", true)])),
        ],
        "a",
    );

    // When: Inline
    let inlined_program = inliner(2).inline(&program).unwrap();

    // Then:
    let expected_program = inlined(
        vec![
            block(0, &[Step::Assign("a", false), Step::Call(10)]),
            block(1, &[Step::Assign("c", false), Step::Call(10)]),
            block(2, &[Step::Assign("b", true)]),
            block(3, &[Step::Assign("d", false)]),
            block(4, &[Step::Assign("b", true)]),
        ],
        &[(0, 2), (1, 4)],
        &[(2, 1), (4, 3)],
        3,
    );
    assert_eq!(expected_program, inlined_program);
}

#[test]
fn test_inline_function_a_in_b_and_c_in_b() {
    // Given: Three functions a, b and c; a calls b and b calls c
    let program = program(
        vec![
            (0, "a", single_block_cfg(&[Step::Assign("a", false), Step::Call(10), Step::Assign("a", false)])),
            (10, "b", single_block_cfg(&[Step::Assign("b", true), Step::Call(20)])),
            (20, "c", single_block_cfg(&[Step::Assign("c", true)])),
        ],
        "a",
    );

    // When: Inline
    let inlined_program = inliner(2).inline(&program).unwrap();

    // Then:
    let expected_program = inlined(
        vec![
            block(0, &[Step::Assign("a", false), Step::Call(10)]),
            block(1, &[Step::Assign("a", false)]),
            block(2, &[Step::Assign("b", true), Step::Call(20)]),
            block(3, &[]),
            block(4, &[Step::Assign("c", true)]),
        ],
        &[(0, 2), (2, 4)],
        &[(4, 3), (3, 1)],
        1,
    );
    assert_eq!(expected_program, inlined_program);
}

#[test]
fn test_inline_function_a_in_a_with_recursion_limit_one() {
    // Given: One function a; a calls a
    let program = program(
        vec![(1, "a", single_block_cfg(&[Step::Assign("a", false), Step::Call(1), Step::Assign("b", false)]))],
        "a",
    );

    // When: Inline
    let inlined_program = inliner(1).inline(&program).unwrap();

    // Then:
    let expected_program = inlined(
        vec![
            block(0, &[Step::Assign("a", false), Step::Call(1)]),
            block(1, &[Step::Assign("b", false)]),
            block(2, &[Step::Assign("a", false), Step::Call(1), Step::Assign("b", false)]),
        ],
        &[(0, 2)],
        &[(2, 1)],
        1,
    );
    assert_eq!(expected_program, inlined_program);
}

#[test]
fn test_inline_function_a_in_a_with_recursion_limit_two() {
    // Given: One function a; a calls a
    let program = program(
        vec![(1, "a", single_block_cfg(&[Step::Assign("a", false), Step::Call(1), Step::Assign("b", false)]))],
        "a",
    );

    // When: Inline
    let inlined_program = inliner(2).inline(&program).unwrap();

    // Then:
    let expected_program = inlined(
        vec![
            block(0, &[Step::Assign("a", false), Step::Call(1)]),
            block(1, &[Step::Assign("b", false)]),
            block(2, &[Step::Assign("a", false), Step::Call(1)]),
            block(3, &[Step::Assign("b", false)]),
            block(4, &[Step::Assign("a", false), Step::Call(1), Step::Assign("b", false)]),
        ],
        &[(0, 2), (2, 4)],
        &[(4, 3), (3, 1)],
        1,
    );
    assert_eq!(expected_program, inlined_program);
}

#[test]
fn test_inline_function_a_in_a_twice_with_recursion_limit_one() {
    // Given: One functions a and a; a calls a twice
    let program = program(
        vec![(
            1,
            "a",
            single_block_cfg(&[
                Step::Assign("a", false),
                Step::Call(1),
                Step::Assign("c", false),
                Step::Call(1),
                Step::Assign("d", false),
            ]),
        )],
        "a",
    );

    // When: Inline
    let inlined_program = inliner(1).inline(&program).unwrap();

    // Then:
    let whole_a = [
        Step::Assign("a", false),
        Step::Call(1),
        Step::Assign("c", false),
        Step::Call(1),
        Step::Assign("d", false),
    ];
    let expected_program = inlined(
        vec![
            block(0, &[Step::Assign("a", false), Step::Call(1)]),
            block(1, &[Step::Assign("c", false), Step::Call(1)]),
            block(2, &whole_a),
            block(3, &[Step::Assign("d", false)]),
            block(4, &whole_a),
        ],
        &[(0, 2), (1, 4)],
        &[(2, 1), (4, 3)],
        3,
    );
    assert_eq!(expected_program, inlined_program);
}

#[test]
fn test_inline_function_a_in_b_with_recursion_limit_two() {
    // Given: Two function a and b; a calls b and b calls a
    let program = program(
        vec![
            (1, "a", single_block_cfg(&[Step::Assign("a", false), Step::Call(2), Step::Assign("a", false)])),
            (2, "b", single_block_cfg(&[Step::Assign("b", false), Step::Call(1), Step::Assign("b", false)])),
        ],
        "a",
    );

    // When: Inline
    let inlined_program = inliner(2).inline(&program).unwrap();

    // Then:
    let expected_program = inlined(
        vec![
            block(0, &[Step::Assign("a", false), Step::Call(2)]),
            block(1, &[Step::Assign("a", false)]),
            block(2, &[Step::Assign("b", false), Step::Call(1)]),
            block(3, &[Step::Assign("b", false)]),
            block(4, &[Step::Assign("a", false), Step::Call(2)]),
            block(5, &[Step::Assign("a", false)]),
            block(6, &[Step::Assign("b", false), Step::Call(1)]),
            block(7, &[Step::Assign("b", false)]),
            block(8, &[Step::Assign("a", false), Step::Call(2), Step::Assign("a", false)]),
        ],
        &[(0, 2), (2, 4), (4, 6), (6, 8)],
        &[(8, 7), (7, 5), (5, 3), (3, 1)],
        1,
    );
    assert_eq!(expected_program, inlined_program);
}

#[test]
fn inlining_without_entry_function_fails() {
    let mut program = Program::new();
    program.insert_function(Function::new(0, Some("a".to_owned()), single_block_cfg(&[]))).unwrap();
    assert_eq!(inliner(2).inline(&program).err(), Some(Error::NoEntryFunction));
    assert_eq!(program.set_entry(ProgramEntry::Name("b".to_owned())), Err(Error::NoEntryFunction));
}

#[test]
fn inlining_with_limit_zero_leaves_the_entry_function() {
    let program = program(
        vec![
            (0, "a", single_block_cfg(&[Step::Assign("a", false), Step::Call(10)])),
            (10, "b", single_block_cfg(&[Step::Assign("b", true)])),
        ],
        "a",
    );
    let expected_program = inlined(vec![block(0, &[Step::Assign("a", false), Step::Call(10)])], &[], &[], 0);
    assert_eq!(expected_program, inliner(0).inline(&program).unwrap());
}

#[test]
fn calls_to_unknown_addresses_stay() {
    let program = program(vec![(0, "a", single_block_cfg(&[Step::Call(7), Step::Assign("a", true)]))], "a");
    let expected_program = inlined(vec![block(0, &[Step::Call(7), Step::Assign("a", true)])], &[], &[], 0);
    assert_eq!(expected_program, inliner(3).inline(&program).unwrap());
}

#[test]
fn inlining_a_callee_without_entry_fails() {
    let mut callee = ControlFlowGraph::new();
    callee.add_block(block(0, &[Step::Assign("b", true)])).unwrap();
    let program = program(
        vec![(0, "a", single_block_cfg(&[Step::Call(10), Step::Assign("a", true)])), (10, "b", callee)],
        "a",
    );
    assert_eq!(inliner(1).inline(&program).err(), Some(Error::NoEntry));
}

#[test]
fn duplicate_function_addresses_are_refused() {
    let mut program = Program::new();
    program.insert_function(Function::new(4, None, single_block_cfg(&[]))).unwrap();
    assert_eq!(
        program.insert_function(Function::new(4, Some("x".to_owned()), single_block_cfg(&[]))),
        Err(Error::FunctionExists(4))
    );
}

#[test]
fn inlining_takes_main() {
    let program = program(
        vec![
            (0, "a", single_block_cfg(&[Step::Assign("a", true)])),
            (4, "main", single_block_cfg(&[Step::Call(0)])),
        ],
        "a",
    );
    let expected_program = inlined(vec![block(0, &[Step::Call(0)])], &[], &[], 0);
    assert_eq!(expected_program, Inlining::new().inline(&program).unwrap());
    let without_main = self::program(vec![(0, "a", single_block_cfg(&[]))], "a");
    assert_eq!(Inlining::new().inline(&without_main).err(), Some(Error::NoEntryFunction));
}

#[test]
fn entry_by_address_and_lookups() {
    let mut program = program(
        vec![(0, "a", single_block_cfg(&[Step::Assign("a", true)])), (4, "b", single_block_cfg(&[]))],
        "a",
    );
    program.set_entry(ProgramEntry::Address(4)).unwrap();
    assert_eq!(program.entry_function().unwrap().address(), 4);
    assert_eq!(program.function_by_address(0).unwrap().name(), Some(&"a".to_owned()));
    assert!(program.function_by_address(8).is_none());
    assert_eq!(program.function_by_name(&"b".to_owned()).unwrap().address(), 4);
}
