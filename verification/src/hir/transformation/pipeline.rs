//! The sequence of transformations an analysis applies, configured from its environment.
use crate::error::Error;
use crate::hir::transformation::{
    Check, InstructionEffects, LoopUnwinding, PredictorStrategy, SecurityLevel, TransientExecution, UnwindingGuard,
};
use crate::hir::transformation::optimization::{graph_level_passes, Optimizer};
use vstd::prelude::*;
use vstd::string::StringExecFns;

verus! {

/// Where the attacker observes.
#[derive(Clone, Copy, Debug, PartialEq, Eq, Structural)]
pub enum Observe {
    /// Only at the end of the program.
    Sequential,
    /// At each effectful instruction and control-flow join; transient execution resolves only
    /// when the speculation window is used up.
    Parallel,
    /// As `Parallel`, but transient execution can resolve at any time.
    Full,
}

/// How much the analysis optimizes.
#[derive(Clone, Copy, Debug, PartialEq, Eq, Structural)]
pub enum OptimizationLevel {
    Disabled,
    Basic,
    Full,
}

/// The addresses from `start` up to `end` (exclusive).
#[derive(Clone, Copy, Debug, PartialEq, Eq, Structural)]
pub struct AddressRange {
    pub start: u64,
    pub end: u64,
}

/// The settings of an analysis that decide its transformations.
#[derive(Debug)]
pub struct Environment {
    /// How often loops are unwound.
    pub unwind: usize,
    /// How often a recursive function is inlined within itself.
    pub recursion_limit: usize,
    /// What guards the last unwound iteration.
    pub unwinding_guard: UnwindingGuard,
    /// Whether the attacker sees the cache.
    pub cache: bool,
    /// Whether the attacker sees the branch-target buffer.
    pub branch_target_buffer: bool,
    /// Whether the attacker sees the pattern-history table.
    pub pattern_history_table: bool,
    /// Which leaks are checked.
    pub check: Check,
    /// Whether conditional branches can be mispredicted (Spectre-PHT).
    pub spectre_pht: bool,
    /// Whether stores can be bypassed (Spectre-STL).
    pub spectre_stl: bool,
    /// How mispredicted branches are predicted.
    pub predictor_strategy: PredictorStrategy,
    /// The length of the speculation window.
    pub speculation_window: usize,
    /// Where the attacker observes.
    pub observe: Observe,
    /// Whether the cache starts empty.
    pub start_with_empty_cache: bool,
    /// The security level of memory not listed below.
    pub memory_default_level: SecurityLevel,
    /// Memory the attacker knows.
    pub low_memory: Vec<AddressRange>,
    /// Memory the attacker does not know.
    pub high_memory: Vec<AddressRange>,
    /// The security level of registers not listed below.
    pub register_default_level: SecurityLevel,
    /// Registers the attacker knows.
    pub low_registers: Vec<String>,
    /// Registers the attacker does not know.
    pub high_registers: Vec<String>,
    /// How much the analysis optimizes.
    pub optimization_level: OptimizationLevel,
    /// Whether a counterexample is built from the model of a leak.
    pub generate_counterexample: bool,
}

/// A configured transformation of the analysis.
#[derive(Debug)]
pub enum TransformationStep {
    LoopUnwinding(LoopUnwinding),
    InstructionEffects(InstructionEffects),
    TransientExecution(TransientExecution),
    Observations {
        cache_available: bool,
        btb_available: bool,
        pht_available: bool,
        end_of_program: bool,
        effectful_instructions: bool,
        control_flow_joins: bool,
    },
    ExplicitEffects,
    InitGlobalVariables {
        default_memory_security_level: SecurityLevel,
        low_security_memory_addresses: Vec<u64>,
        high_security_memory_addresses: Vec<u64>,
        default_variable_security_level: SecurityLevel,
        low_security_variables: Vec<String>,
        high_security_variables: Vec<String>,
        empty_cache_at_start: bool,
    },
    NonSpecObsEquivalence { cache_available: bool, btb_available: bool, pht_available: bool },
    SsaTransformation,
    Optimizer(Optimizer),
}

/// The kind of a transformation step.
#[derive(Clone, Copy, Debug, PartialEq, Eq, Structural)]
pub enum StepKind {
    LoopUnwinding,
    InstructionEffects,
    TransientExecution,
    Observations,
    ExplicitEffects,
    InitGlobalVariables,
    NonSpecObsEquivalence,
    SsaTransformation,
    Optimizer,
}

/// The kind of a step.
pub open spec fn kind_of(s: TransformationStep) -> StepKind {
    match s {
        TransformationStep::LoopUnwinding(_) => StepKind::LoopUnwinding,
        TransformationStep::InstructionEffects(_) => StepKind::InstructionEffects,
        TransformationStep::TransientExecution(_) => StepKind::TransientExecution,
        TransformationStep::Observations { .. } => StepKind::Observations,
        TransformationStep::ExplicitEffects => StepKind::ExplicitEffects,
        TransformationStep::InitGlobalVariables { .. } => StepKind::InitGlobalVariables,
        TransformationStep::NonSpecObsEquivalence { .. } => StepKind::NonSpecObsEquivalence,
        TransformationStep::SsaTransformation => StepKind::SsaTransformation,
        TransformationStep::Optimizer(_) => StepKind::Optimizer,
    }
}

/// The kinds of the transformations for `env`, in order: loop unwinding and instruction
/// effects; transient execution unless only normal leaks are checked; observations, explicit
/// effects and the initial state of global variables; the non-speculative equivalence when
/// only transient leaks are checked; the SSA form; and the optimizer unless disabled.
pub open spec fn planned_kinds(env: Environment) -> Seq<StepKind> {
    seq![StepKind::LoopUnwinding, StepKind::InstructionEffects] + (if env.check != Check::OnlyNormalExecutionLeaks {
        seq![StepKind::TransientExecution]
    } else {
        Seq::empty()
    }) + seq![StepKind::Observations, StepKind::ExplicitEffects, StepKind::InitGlobalVariables] + (if env.check
        == Check::OnlyTransientExecutionLeaks {
        seq![StepKind::NonSpecObsEquivalence]
    } else {
        Seq::empty()
    }) + seq![StepKind::SsaTransformation] + (if env.optimization_level != OptimizationLevel::Disabled {
        seq![StepKind::Optimizer]
    } else {
        Seq::empty()
    })
}

/// Whether `x` lies in one of the ranges.
pub open spec fn in_ranges(ranges: Seq<AddressRange>, x: u64) -> bool {
    exists|i: int| 0 <= i < ranges.len() && (#[trigger] ranges[i]).start <= x < ranges[i].end
}

/// Whether the addresses are in strictly increasing order.
pub open spec fn strictly_increasing(s: Seq<u64>) -> bool {
    forall|i: int, j: int| 0 <= i < j < s.len() ==> s[i] < s[j]
}

/// Whether `s` lists exactly the addresses of the ranges, in increasing order.
pub open spec fn lists_addresses(s: Seq<u64>, ranges: Seq<AddressRange>) -> bool {
    strictly_increasing(s) && forall|x: u64| s.contains(x) <==> in_ranges(ranges, x)
}

/// The views of a sequence of strings.
pub open spec fn name_views(v: Seq<String>) -> Seq<Seq<char>> {
    Seq::new(v.len(), |i: int| v[i]@)
}

/// Whether no name occurs twice.
pub open spec fn distinct_names(s: Seq<Seq<char>>) -> bool {
    forall|i: int, j: int| 0 <= i < j < s.len() ==> s[i] != s[j]
}

/// The names of the variables of the microarchitectural components.
pub open spec fn component_names() -> Seq<Seq<char>> {
    seq!["_predictor"@, "_cache"@, "_btb"@, "_pht"@]
}

/// Whether `step` is configured as `env` says for its kind.
pub open spec fn configured(env: Environment, step: TransformationStep) -> bool {
    match step {
        TransformationStep::LoopUnwinding(u) => u.unwinding_bound == env.unwind && u.unwinding_guard
            == env.unwinding_guard,
        TransformationStep::InstructionEffects(e) => e.model_cache_effects == env.cache && e.model_btb_effects
            == env.branch_target_buffer && e.model_pht_effects == env.pattern_history_table,
        TransformationStep::TransientExecution(t) => t.spectre_pht == env.spectre_pht && t.spectre_stl
            == env.spectre_stl && t.stl_ignored_variables@.len() == 0 && t.predictor_strategy == env.predictor_strategy
            && t.speculation_window == env.speculation_window && t.intermediate_resolve == (env.observe
            != Observe::Parallel),
        TransformationStep::Observations {
            cache_available,
            btb_available,
            pht_available,
            end_of_program,
            effectful_instructions,
            control_flow_joins,
        } => cache_available == env.cache && btb_available == env.branch_target_buffer && pht_available
            == env.pattern_history_table && end_of_program && effectful_instructions == (env.observe
            != Observe::Sequential) && control_flow_joins == (env.observe != Observe::Sequential),
        TransformationStep::ExplicitEffects => true,
        TransformationStep::InitGlobalVariables {
            default_memory_security_level,
            low_security_memory_addresses,
            high_security_memory_addresses,
            default_variable_security_level,
            low_security_variables,
            high_security_variables,
            empty_cache_at_start,
        } => {
            &&& default_memory_security_level == env.memory_default_level
            &&& lists_addresses(low_security_memory_addresses@, env.low_memory@)
            &&& lists_addresses(high_security_memory_addresses@, env.high_memory@)
            &&& default_variable_security_level == env.register_default_level
            &&& distinct_names(name_views(low_security_variables@))
            &&& forall|n: Seq<char>|
                #[trigger] name_views(low_security_variables@).contains(n) <==> (name_views(env.low_registers@).contains(
                    n,
                ) || component_names().contains(n))
            &&& name_views(high_security_variables@) == name_views(env.high_registers@)
            &&& empty_cache_at_start == env.start_with_empty_cache
        },
        TransformationStep::NonSpecObsEquivalence { cache_available, btb_available, pht_available } =>
            cache_available == env.cache && btb_available == env.branch_target_buffer && pht_available
            == env.pattern_history_table,
        TransformationStep::SsaTransformation => true,
        TransformationStep::Optimizer(o) => o@ == graph_level_passes(env.optimization_level),
    }
}

impl LoopUnwinding {
    /// The loop unwinding the environment asks for.
    pub fn new_from_env(env: &Environment) -> (r: Self)
        ensures
            r == (LoopUnwinding { unwinding_bound: env.unwind, unwinding_guard: env.unwinding_guard }),
    {
        LoopUnwinding { unwinding_bound: env.unwind, unwinding_guard: env.unwinding_guard }
    }
}

/// Whether the steps have the kinds and are configured as `env` says.
pub open spec fn steps_configured(env: Environment, steps: Seq<TransformationStep>, kinds: Seq<StepKind>) -> bool {
    steps.len() == kinds.len() && forall|i: int|
        0 <= i < steps.len() ==> kind_of(#[trigger] steps[i]) == kinds[i] && configured(env, steps[i])
}

/// One more configured step.
proof fn lemma_steps_push(
    env: Environment,
    steps: Seq<TransformationStep>,
    kinds: Seq<StepKind>,
    s: TransformationStep,
    k: StepKind,
)
    requires
        steps_configured(env, steps, kinds),
        kind_of(s) == k,
        configured(env, s),
    ensures
        steps_configured(env, steps.push(s), kinds.push(k)),
{
    assert forall|i: int| 0 <= i < steps.push(s).len() implies kind_of(#[trigger] steps.push(s)[i]) == kinds.push(k)[i]
        && configured(env, steps.push(s)[i]) by {
        if i < steps.len() {
            assert(steps.push(s)[i] == steps[i]);
        }
    }
}

/// Inserts `x` into the strictly increasing `s`, unless it is there.
fn insert_address(s: &mut Vec<u64>, x: u64)
    requires
        strictly_increasing(old(s)@),
    ensures
        strictly_increasing(final(s)@),
        forall|y: u64| final(s)@.contains(y) <==> (old(s)@.contains(y) || y == x),
{
    let mut i: usize = 0;
    while i < s.len() && s[i] < x
        invariant
            0 <= i <= s@.len(),
            s@ == old(s)@,
            strictly_increasing(s@),
            forall|j: int| 0 <= j < i ==> s@[j] < x,
        decreases s@.len() - i,
    {
        i += 1;
    }
    if i < s.len() && s[i] == x {
        return;
    }
    let ghost before = s@;
    s.insert(i, x);
    proof {
        assert(s@ =~= before.insert(i as int, x));
        assert forall|a: int, b: int| 0 <= a < b < s@.len() implies s@[a] < s@[b] by {
            if b < i {
            } else if a < i && b == i {
            } else if a < i && b > i {
                assert(s@[b] == before[b - 1]);
            } else if a == i {
                assert(s@[b] == before[b - 1]);
                if i < before.len() {
                    assert(before[i as int] > x);
                }
            } else {
                assert(s@[a] == before[a - 1] && s@[b] == before[b - 1]);
            }
        }
        assert forall|y: u64| s@.contains(y) <==> (before.contains(y) || y == x) by {
            if s@.contains(y) {
                let k = choose|k: int| 0 <= k < s@.len() && s@[k] == y;
                if k < i {
                    assert(before[k] == y);
                } else if k > i {
                    assert(before[k - 1] == y);
                }
            }
            if before.contains(y) {
                let k = choose|k: int| 0 <= k < before.len() && before[k] == y;
                if k < i {
                    assert(s@[k] == y);
                } else {
                    assert(s@[k + 1] == y);
                }
            }
            if y == x {
                assert(s@[i as int] == x);
            }
        }
    }
}

/// The addresses of the ranges, each once, in increasing order.
pub fn address_ranges_to_addresses(ranges: &[AddressRange]) -> (r: Vec<u64>)
    ensures
        lists_addresses(r@, ranges@),
{
    let mut out: Vec<u64> = Vec::new();
    let mut k: usize = 0;
    while k < ranges.len()
        invariant
            0 <= k <= ranges@.len(),
            strictly_increasing(out@),
            forall|x: u64| out@.contains(x) <==> in_ranges(ranges@.take(k as int), x),
        decreases ranges@.len() - k,
    {
        let range = ranges[k];
        let ghost start = out@;
        if range.start < range.end {
            let mut a = range.start;
            while a < range.end
                invariant
                    0 <= k < ranges@.len(),
                    range == ranges@[k as int],
                    range.start <= a <= range.end,
                    strictly_increasing(out@),
                    forall|x: u64| out@.contains(x) <==> (start.contains(x) || (range.start <= x && x < a)),
                decreases range.end - a,
            {
                let ghost before = out@;
                insert_address(&mut out, a);
                proof {
                    assert forall|x: u64| out@.contains(x) <==> (start.contains(x) || (range.start <= x && x < a + 1)) by {
                        assert(out@.contains(x) <==> (before.contains(x) || x == a));
                    }
                }
                a += 1;
            }
        }
        proof {
            assert forall|x: u64| out@.contains(x) <==> in_ranges(ranges@.take(k + 1), x) by {
                assert(out@.contains(x) <==> (start.contains(x) || (range.start <= x && x < range.end)));
                if in_ranges(ranges@.take(k + 1), x) {
                    let i = choose|i: int| 0 <= i < k + 1 && (#[trigger] ranges@.take(k + 1)[i]).start <= x < ranges@.take(k + 1)[i].end;
                    if i < k {
                        assert(ranges@.take(k as int)[i] == ranges@.take(k + 1)[i]);
                        assert(in_ranges(ranges@.take(k as int), x));
                    } else {
                        assert(ranges@.take(k + 1)[i] == range);
                    }
                }
                if in_ranges(ranges@.take(k as int), x) {
                    let i = choose|i: int| 0 <= i < k && (#[trigger] ranges@.take(k as int)[i]).start <= x < ranges@.take(k as int)[i].end;
                    assert(ranges@.take(k + 1)[i] == ranges@.take(k as int)[i]);
                }
                if range.start <= x && x < range.end {
                    assert(ranges@.take(k + 1)[k as int] == range);
                }
            }
        }
        k += 1;
    }
    proof {
        assert(ranges@.take(ranges@.len() as int) =~= ranges@);
    }
    out
}

/// Adds `name` to `names` unless it is there.
fn add_name(names: &mut Vec<String>, name: String)
    requires
        distinct_names(name_views(old(names)@)),
    ensures
        distinct_names(name_views(final(names)@)),
        forall|n: Seq<char>| name_views(final(names)@).contains(n) <==> (name_views(old(names)@).contains(n) || n == name@),
{
    let ghost before = name_views(names@);
    let mut i: usize = 0;
    while i < names.len()
        invariant
            0 <= i <= names@.len(),
            names@ == old(names)@,
            distinct_names(name_views(old(names)@)),
            before == name_views(names@),
            forall|j: int| 0 <= j < i ==> names@[j]@ != name@,
        decreases names@.len() - i,
    {
        if names[i] == name {
            proof {
                assert(before[i as int] == name@);
                assert forall|n: Seq<char>| before.contains(n) <==> (before.contains(n) || n == name@) by {
                    if n == name@ {
                        assert(before[i as int] == n);
                    }
                }
            }
            return;
        }
        i += 1;
    }
    let ghost vn = name@;
    names.push(name);
    proof {
        assert(name_views(names@) =~= before.push(vn));
        assert forall|n: Seq<char>| before.push(vn).contains(n) <==> (before.contains(n) || n == vn) by {
            if before.push(vn).contains(n) {
                let k = choose|k: int| 0 <= k < before.push(vn).len() && #[trigger] before.push(vn)[k] == n;
                if k < before.len() {
                    assert(before[k] == n);
                }
            }
            if before.contains(n) {
                let k = choose|k: int| 0 <= k < before.len() && before[k] == n;
                assert(before.push(vn)[k] == n);
            }
            if n == vn {
                assert(before.push(vn)[before.len() as int] == n);
            }
        }
    }
}

/// A copy of the names.
fn copy_names(names: &Vec<String>) -> (r: Vec<String>)
    ensures
        name_views(r@) == name_views(names@),
{
    let mut out: Vec<String> = Vec::new();
    let mut i: usize = 0;
    while i < names.len()
        invariant
            0 <= i <= names@.len(),
            out@.len() == i,
            forall|j: int| 0 <= j < i ==> (#[trigger] out@[j])@ == names@[j]@,
        decreases names@.len() - i,
    {
        out.push(names[i].clone());
        i += 1;
    }
    assert(name_views(out@) =~= name_views(names@));
    out
}

/// The low-security variables: the low registers and the microarchitectural components.
fn low_security_variables(env: &Environment) -> (r: Vec<String>)
    ensures
        distinct_names(name_views(r@)),
        forall|n: Seq<char>|
            #[trigger] name_views(r@).contains(n) <==> (name_views(env.low_registers@).contains(n)
                || component_names().contains(n)),
{
    let mut names: Vec<String> = Vec::new();
    let mut i: usize = 0;
    while i < env.low_registers.len()
        invariant
            0 <= i <= env.low_registers@.len(),
            distinct_names(name_views(names@)),
            forall|n: Seq<char>|
                name_views(names@).contains(n) <==> name_views(env.low_registers@).take(i as int).contains(n),
        decreases env.low_registers@.len() - i,
    {
        let ghost before = name_views(names@);
        add_name(&mut names, env.low_registers[i].clone());
        proof {
            let t = name_views(env.low_registers@);
            assert forall|n: Seq<char>| name_views(names@).contains(n) <==> t.take(i + 1).contains(n) by {
                if t.take(i + 1).contains(n) {
                    let k = choose|k: int| 0 <= k < t.take(i + 1).len() && #[trigger] t.take(i + 1)[k] == n;
                    if k < i {
                        assert(t.take(i as int)[k] == n);
                    }
                }
                if t.take(i as int).contains(n) {
                    let k = choose|k: int| 0 <= k < t.take(i as int).len() && #[trigger] t.take(i as int)[k] == n;
                    assert(t.take(i + 1)[k] == n);
                }
                if n == env.low_registers@[i as int]@ {
                    assert(t.take(i + 1)[i as int] == n);
                }
            }
        }
        i += 1;
    }
    proof {
        assert(name_views(env.low_registers@).take(env.low_registers@.len() as int) =~= name_views(env.low_registers@));
        reveal_strlit("_predictor");
        reveal_strlit("_cache");
        reveal_strlit("_btb");
        reveal_strlit("_pht");
    }
    add_name(&mut names, String::from_str("_predictor"));
    add_name(&mut names, String::from_str("_cache"));
    add_name(&mut names, String::from_str("_btb"));
    add_name(&mut names, String::from_str("_pht"));
    proof {
        assert forall|n: Seq<char>| component_names().contains(n) <==> (n == "_predictor"@ || n == "_cache"@ || n
            == "_btb"@ || n == "_pht"@) by {
            if component_names().contains(n) {
                let k = choose|k: int| 0 <= k < 4 && #[trigger] component_names()[k] == n;
            }
            if n == "_predictor"@ {
                assert(component_names()[0] == n);
            }
            if n == "_cache"@ {
                assert(component_names()[1] == n);
            }
            if n == "_btb"@ {
                assert(component_names()[2] == n);
            }
            if n == "_pht"@ {
                assert(component_names()[3] == n);
            }
        }
    }
    names
}

/// The transformations of the analysis that `env` describes; see `planned_kinds` and
/// `configured`.
pub fn create_transformations(env: &Environment) -> (r: Result<Vec<TransformationStep>, Error>)
    ensures
        r matches Ok(steps) && steps@.len() == planned_kinds(*env).len() && forall|i: int|
            0 <= i < steps@.len() ==> kind_of(#[trigger] steps@[i]) == planned_kinds(*env)[i] && configured(
                *env,
                steps@[i],
            ),
{
    let mut steps: Vec<TransformationStep> = Vec::new();
    let ghost mut kinds: Seq<StepKind> = Seq::empty();
    let ghost e = *env;
    proof {
        assert(steps_configured(e, steps@, kinds));
    }
    let s = TransformationStep::LoopUnwinding(
        LoopUnwinding { unwinding_bound: env.unwind, unwinding_guard: env.unwinding_guard },
    );
    proof {
        lemma_steps_push(e, steps@, kinds, s, StepKind::LoopUnwinding);
        kinds = kinds.push(StepKind::LoopUnwinding);
    }
    steps.push(s);
    let s = TransformationStep::InstructionEffects(
        InstructionEffects {
            model_cache_effects: env.cache,
            model_btb_effects: env.branch_target_buffer,
            model_pht_effects: env.pattern_history_table,
        },
    );
    proof {
        lemma_steps_push(e, steps@, kinds, s, StepKind::InstructionEffects);
        kinds = kinds.push(StepKind::InstructionEffects);
    }
    steps.push(s);
    if env.check != Check::OnlyNormalExecutionLeaks {
        let s = TransformationStep::TransientExecution(
            TransientExecution {
                spectre_pht: env.spectre_pht,
                spectre_stl: env.spectre_stl,
                stl_ignored_variables: Vec::new(),
                predictor_strategy: env.predictor_strategy,
                speculation_window: env.speculation_window,
                intermediate_resolve: env.observe != Observe::Parallel,
            },
        );
        proof {
            lemma_steps_push(e, steps@, kinds, s, StepKind::TransientExecution);
            kinds = kinds.push(StepKind::TransientExecution);
        }
        steps.push(s);
    }
    let observe_all = env.observe != Observe::Sequential;
    let s = TransformationStep::Observations {
        cache_available: env.cache,
        btb_available: env.branch_target_buffer,
        pht_available: env.pattern_history_table,
        end_of_program: true,
        effectful_instructions: observe_all,
        control_flow_joins: observe_all,
    };
    proof {
        lemma_steps_push(e, steps@, kinds, s, StepKind::Observations);
        kinds = kinds.push(StepKind::Observations);
    }
    steps.push(s);
    let s = TransformationStep::ExplicitEffects;
    proof {
        lemma_steps_push(e, steps@, kinds, s, StepKind::ExplicitEffects);
        kinds = kinds.push(StepKind::ExplicitEffects);
    }
    steps.push(s);
    let low_addresses = address_ranges_to_addresses(env.low_memory.as_slice());
    let high_addresses = address_ranges_to_addresses(env.high_memory.as_slice());
    let low_variables = low_security_variables(env);
    let high_variables = copy_names(&env.high_registers);
    let s = TransformationStep::InitGlobalVariables {
        default_memory_security_level: env.memory_default_level,
        low_security_memory_addresses: low_addresses,
        high_security_memory_addresses: high_addresses,
        default_variable_security_level: env.register_default_level,
        low_security_variables: low_variables,
        high_security_variables: high_variables,
        empty_cache_at_start: env.start_with_empty_cache,
    };
    proof {
        lemma_steps_push(e, steps@, kinds, s, StepKind::InitGlobalVariables);
        kinds = kinds.push(StepKind::InitGlobalVariables);
    }
    steps.push(s);
    if env.check == Check::OnlyTransientExecutionLeaks {
        let s = TransformationStep::NonSpecObsEquivalence {
            cache_available: env.cache,
            btb_available: env.branch_target_buffer,
            pht_available: env.pattern_history_table,
        };
        proof {
            lemma_steps_push(e, steps@, kinds, s, StepKind::NonSpecObsEquivalence);
            kinds = kinds.push(StepKind::NonSpecObsEquivalence);
        }
        steps.push(s);
    }
    let s = TransformationStep::SsaTransformation;
    proof {
        lemma_steps_push(e, steps@, kinds, s, StepKind::SsaTransformation);
        kinds = kinds.push(StepKind::SsaTransformation);
    }
    steps.push(s);
    if env.optimization_level != OptimizationLevel::Disabled {
        let s = TransformationStep::Optimizer(Optimizer::new_from_env(env));
        proof {
            lemma_steps_push(e, steps@, kinds, s, StepKind::Optimizer);
            kinds = kinds.push(StepKind::Optimizer);
        }
        steps.push(s);
    }
    proof {
        assert(kinds =~= planned_kinds(*env));
    }
    Ok(steps)
}

} // verus!
