use specbmc::hir::transformation::optimization::{ConstantPropagation, Optimization};
use specbmc::hir::transformation::{
    address_ranges_to_addresses, create_transformations, AddressRange, Check, Environment, Observe,
    OptimizationLevel, PredictorStrategy, SecurityLevel, TransformationStep, UnwindingGuard,
};
use specbmc::hir::{ControlFlowGraph, Effect, Instruction};
use specbmc::ir::Transform;
use specbmc::lir::optimization::OptimizationResult;
use specbmc::lir::transformation::LowerToSMT;
use specbmc::lir::{BitVector, Boolean, Expression, Node, Program, Sort, Variable};

fn environment(check: Check, observe: Observe, optimization_level: OptimizationLevel) -> Environment {
    Environment {
        unwind: 3,
        recursion_limit: 2,
        unwinding_guard: UnwindingGuard::Assertion,
        cache: true,
        branch_target_buffer: false,
        pattern_history_table: true,
        check,
        spectre_pht: true,
        spectre_stl: false,
        predictor_strategy: PredictorStrategy::InvertCondition,
        speculation_window: 50,
        observe,
        start_with_empty_cache: true,
        memory_default_level: SecurityLevel::High,
        low_memory: vec![AddressRange { start: 16, end: 19 }, AddressRange { start: 2, end: 4 }],
        high_memory: vec![],
        register_default_level: SecurityLevel::Low,
        low_registers: vec![String::from("rsp"), String::from("_cache")],
        high_registers: vec![String::from("secret")],
        optimization_level,
        generate_counterexample: false,
    }
}

fn kinds(steps: &[TransformationStep]) -> Vec<&'static str> {
    steps
        .iter()
        .map(|s| match s {
            TransformationStep::LoopUnwinding(_) => "unwind",
            TransformationStep::InstructionEffects(_) => "effects",
            TransformationStep::TransientExecution(_) => "transient",
            TransformationStep::Observations { .. } => "observations",
            TransformationStep::ExplicitEffects => "explicit",
            TransformationStep::InitGlobalVariables { .. } => "init",
            TransformationStep::NonSpecObsEquivalence { .. } => "nonspec",
            TransformationStep::SsaTransformation => "ssa",
            TransformationStep::Optimizer(_) => "optimizer",
        })
        .collect()
}

#[test]
fn transient_leaks_use_all_steps() {
    let env = environment(Check::OnlyTransientExecutionLeaks, Observe::Parallel, OptimizationLevel::Full);
    let steps = create_transformations(&env).unwrap();
    assert_eq!(
        kinds(&steps),
        vec!["unwind", "effects", "transient", "observations", "explicit", "init", "nonspec", "ssa", "optimizer"]
    );
    match &steps[0] {
        TransformationStep::LoopUnwinding(u) => {
            assert_eq!(u.unwinding_bound, 3);
            assert_eq!(u.unwinding_guard, UnwindingGuard::Assertion);
        }
        _ => panic!("expected loop unwinding"),
    }
    match &steps[2] {
        TransformationStep::TransientExecution(t) => {
            assert!(t.spectre_pht && !t.spectre_stl);
            assert_eq!(t.speculation_window, 50);
            assert!(!t.intermediate_resolve);
        }
        _ => panic!("expected transient execution"),
    }
    match &steps[3] {
        TransformationStep::Observations { effectful_instructions, control_flow_joins, end_of_program, .. } => {
            assert!(*effectful_instructions && *control_flow_joins && *end_of_program);
        }
        _ => panic!("expected observations"),
    }
    match &steps[5] {
        TransformationStep::InitGlobalVariables {
            low_security_memory_addresses,
            low_security_variables,
            high_security_variables,
            empty_cache_at_start,
            ..
        } => {
            assert_eq!(low_security_memory_addresses, &vec![2, 3, 16, 17, 18]);
            assert_eq!(low_security_variables.len(), 5);
            for name in ["rsp", "_cache", "_predictor", "_btb", "_pht"] {
                assert!(low_security_variables.iter().any(|n| n == name));
            }
            assert_eq!(high_security_variables, &vec![String::from("secret")]);
            assert!(*empty_cache_at_start);
        }
        _ => panic!("expected the initial state of global variables"),
    }
}

#[test]
fn normal_leaks_skip_transient_steps() {
    let env = environment(Check::OnlyNormalExecutionLeaks, Observe::Sequential, OptimizationLevel::Disabled);
    let steps = create_transformations(&env).unwrap();
    assert_eq!(kinds(&steps), vec!["unwind", "effects", "observations", "explicit", "init", "ssa"]);
    match &steps[2] {
        TransformationStep::Observations { effectful_instructions, control_flow_joins, .. } => {
            assert!(!*effectful_instructions && !*control_flow_joins);
        }
        _ => panic!("expected observations"),
    }
}

#[test]
fn all_leaks_keep_transient_execution_without_counterparts() {
    let env = environment(Check::AllLeaks, Observe::Full, OptimizationLevel::Basic);
    let steps = create_transformations(&env).unwrap();
    assert_eq!(kinds(&steps), vec!["unwind", "effects", "transient", "observations", "explicit", "init", "ssa", "optimizer"]);
    match &steps[2] {
        TransformationStep::TransientExecution(t) => assert!(t.intermediate_resolve),
        _ => panic!("expected transient execution"),
    }
}

#[test]
fn address_ranges_are_listed_once_in_order() {
    let ranges = [AddressRange { start: 5, end: 8 }, AddressRange { start: 6, end: 10 }, AddressRange { start: 9, end: 9 }];
    assert_eq!(address_ranges_to_addresses(&ranges), vec![5, 6, 7, 8, 9]);
    assert_eq!(address_ranges_to_addresses(&[]), Vec::<u64>::new());
}

#[test]
fn constant_propagation_reaches_operations_effects_and_edges() {
    let x = Variable::new("x", Sort::word());
    let c = BitVector::word_constant(7);
    let mut cfg = ControlFlowGraph::new();
    let b0 = cfg.new_block().unwrap();
    let b1 = cfg.new_block().unwrap();
    cfg.add_instruction(b0, Instruction::assign(x.clone(), c.clone()).unwrap()).unwrap();
    let mut load = Instruction::load(BitVector::word_variable("y"), Expression::variable(x.clone())).unwrap();
    load.add_effects(&vec![Effect::cache_fetch(Expression::variable(x.clone()), 64)]);
    cfg.add_instruction(b1, load).unwrap();
    let condition = BitVector::ult(Expression::variable(x.clone()), BitVector::word_constant(9)).unwrap();
    cfg.conditional_edge(b0, b1, condition, specbmc::hir::EdgeLabels::none()).unwrap();

    let result = ConstantPropagation::new().optimize(&mut cfg).unwrap();
    assert_eq!(result, OptimizationResult::Changed);

    let mut expected_load = Instruction::load(BitVector::word_variable("y"), c.clone()).unwrap();
    expected_load.add_effects(&vec![Effect::cache_fetch(c.clone(), 64)]);
    assert_eq!(cfg.block(b1).unwrap().instructions[0], expected_load);
    assert_eq!(cfg.block(b0).unwrap().instructions[0], Instruction::assign(x, c.clone()).unwrap());
    let expected_condition = BitVector::ult(c, BitVector::word_constant(9)).unwrap();
    assert_eq!(cfg.edge(b0, b1).unwrap().condition().unwrap(), &expected_condition);
}

#[test]
fn lowering_replaces_conversions_between_bit_vectors_and_booleans() {
    let y = Expression::variable(BitVector::variable("y", 8));
    let b = Expression::variable(Variable::new("b", Sort::boolean()));
    let mut program = Program::new();
    program.assign(Variable::new("x", Sort::boolean()), BitVector::to_boolean(y.clone()).unwrap()).unwrap();
    program.assign(BitVector::variable("z", 4), BitVector::from_boolean(4, b.clone()).unwrap()).unwrap();
    program.assumption(Boolean::constant(true)).unwrap();

    LowerToSMT::new().transform(&mut program).unwrap();

    let unequal = Expression::unequal(y, BitVector::constant_u64(0, 8)).unwrap();
    assert_eq!(program.node(0).unwrap(), &Node::assign(Variable::new("x", Sort::boolean()), unequal).unwrap());
    let choice = Expression::ite(b, BitVector::constant_u64(1, 4), BitVector::constant_u64(0, 4)).unwrap();
    assert_eq!(program.node(1).unwrap(), &Node::assign(BitVector::variable("z", 4), choice).unwrap());
    assert_eq!(program.node(2).unwrap(), &Node::assumption(Boolean::constant(true)).unwrap());
}

#[test]
fn inlining_and_unwinding_follow_the_environment() {
    let env = environment(Check::OnlyTransientExecutionLeaks, Observe::Parallel, OptimizationLevel::Full);
    assert_eq!(specbmc::hir::transformation::FunctionInlining::new_from_env(&env).recursion_limit, 2);
    let unwinding = specbmc::hir::transformation::LoopUnwinding::new_from_env(&env);
    assert_eq!(unwinding.unwinding_bound, 3);
    assert_eq!(unwinding.unwinding_guard, UnwindingGuard::Assertion);
}

#[test]
fn lir_optimizer_follows_the_optimization_level() {
    use_level(OptimizationLevel::Disabled, 0, 0);
    use_level(OptimizationLevel::Basic, 1, 1);
    use_level(OptimizationLevel::Full, 5, 5);
}

fn use_level(level: OptimizationLevel, repetitions: usize, repeated: usize) {
    let env = environment(Check::OnlyTransientExecutionLeaks, Observe::Parallel, level);
    let optimizer = specbmc::lir::optimization::Optimizer::new_from_env(&env);
    assert_eq!(optimizer.repetitions, repetitions);
    assert_eq!(optimizer.repeated_optimizations.len(), repeated);
}

#[test]
fn lir_optimizer_keeps_dead_code_for_counterexamples() {
    let mut env = environment(Check::OnlyTransientExecutionLeaks, Observe::Parallel, OptimizationLevel::Full);
    env.generate_counterexample = true;
    let optimizer = specbmc::lir::optimization::Optimizer::new_from_env(&env);
    assert_eq!(optimizer.repetitions, 5);
    assert_eq!(optimizer.repeated_optimizations.len(), 4);
    // x := true; y := x; unused := y; assert(y): nothing is removed as dead.
    let var = |name: &str| Variable::new(name, Sort::boolean());
    let mut program = Program::new();
    program.assign(var("x"), Boolean::constant(true)).unwrap();
    program.assign(var("y"), Expression::variable(var("x"))).unwrap();
    program.assign(var("unused"), Expression::variable(var("y"))).unwrap();
    program.assertion(Expression::variable(var("y"))).unwrap();
    optimizer.optimize(&mut program).unwrap();
    assert_eq!(program.nodes().len(), 4);
    assert_eq!(program.node(2).unwrap(), &Node::assign(var("unused"), Boolean::constant(true)).unwrap());
    assert_eq!(program.node(3).unwrap(), &Node::assertion(Boolean::constant(true)).unwrap());
}
