//! Explicit effects: each microarchitectural effect of an instruction becomes an assignment
//! to the variable of its component, placed before the instruction.
use crate::error::Error;
use crate::hir::transformation::{
    first_failure, ite_view, lemma_first_failure, lemma_prefixed_step, prefixed,
};
use crate::hir::{Block, BlockView, Effect, EffectView, Instruction, InstructionView, Operation, OperationView};
use crate::ir::Transform;
use crate::lir::{
    component_view, variable_view, BranchTargetBuffer, Cache, Expression, ExpressionView, OperatorView,
    PatternHistoryTable, Sort, Variable, VariableView,
};
use vstd::prelude::*;

verus! {

/// Makes the effects of instructions explicit.
#[derive(Clone, Copy, Debug, PartialEq, Eq, Structural)]
pub struct ExplicitEffects {}

/// The assignment, as variable and value, that makes effect `e` explicit:
/// - a cache fetch updates `_cache` by the fetch of the address;
/// - a branch target updates `_btb` by tracking the target at the location;
/// - a branch condition updates `_pht` to record the branch at the location as taken if the
///   condition holds and as not taken otherwise;
/// - a conditional effect assigns the value of the effect if the condition holds and leaves
///   the variable unchanged otherwise.
///
/// Fails when an address or location is no bit vector or a condition is not boolean.
pub open spec fn effect_assignment(e: EffectView) -> Result<(VariableView, ExpressionView), Error>
    decreases e,
{
    match e {
        EffectView::Conditional { condition, effect } => match effect_assignment(*effect) {
            Ok((variable, expr)) => if condition.sort is Bool {
                Ok((variable, ite_view(condition, expr, variable_view(variable))))
            } else {
                Err(Error::ExpectedBool(condition.sort))
            },
            Err(err) => Err(err),
        },
        EffectView::CacheFetch { address, bit_width } => if address.sort is BitVector {
            let cache = component_view("_cache"@, Sort::Cache);
            Ok(
                (
                    cache,
                    ExpressionView {
                        operator: OperatorView::Cache(Cache::Fetch(bit_width)),
                        operands: seq![variable_view(cache), address],
                        sort: Sort::Cache,
                    },
                ),
            )
        } else {
            Err(Error::ExpectedBitVector(address.sort))
        },
        EffectView::BranchTarget { location, target } => if !(location.sort is BitVector) {
            Err(Error::ExpectedBitVector(location.sort))
        } else if !(target.sort is BitVector) {
            Err(Error::ExpectedBitVector(target.sort))
        } else {
            let btb = component_view("_btb"@, Sort::BranchTargetBuffer);
            Ok(
                (
                    btb,
                    ExpressionView {
                        operator: OperatorView::BranchTargetBuffer(BranchTargetBuffer::Track),
                        operands: seq![variable_view(btb), location, target],
                        sort: Sort::BranchTargetBuffer,
                    },
                ),
            )
        },
        EffectView::BranchCondition { location, condition } => if !(location.sort is BitVector) {
            Err(Error::ExpectedBitVector(location.sort))
        } else if !(condition.sort is Bool) {
            Err(Error::ExpectedBool(condition.sort))
        } else {
            let pht = component_view("_pht"@, Sort::PatternHistoryTable);
            let record = |op: PatternHistoryTable|
                ExpressionView {
                    operator: OperatorView::PatternHistoryTable(op),
                    operands: seq![variable_view(pht), location],
                    sort: Sort::PatternHistoryTable,
                };
            Ok((pht, ite_view(condition, record(PatternHistoryTable::Taken), record(PatternHistoryTable::NotTaken))))
        },
    }
}

/// The error of an effect that cannot be made explicit.
pub open spec fn effect_error(e: EffectView) -> Error {
    match effect_assignment(e) {
        Err(err) => err,
        Ok(_) => Error::IndexOverflow,
    }
}

/// Whether effect `e` can be made explicit.
pub open spec fn effect_defined(e: EffectView) -> bool {
    effect_assignment(e) is Ok
}

/// `effect_defined` as a function.
pub open spec fn effect_checks() -> spec_fn(EffectView) -> bool {
    |e: EffectView| effect_defined(e)
}

/// The pseudo instruction at `address` that makes effect `e` explicit.
pub open spec fn effect_instruction(e: EffectView, address: Option<u64>) -> InstructionView {
    let (variable, expr) = effect_assignment(e)->Ok_0;
    InstructionView {
        operation: OperationView::Assign { variable, expr },
        effects: Seq::empty(),
        address: address,
        pseudo: true,
    }
}

/// The instructions placed before `i`: one for each of its effects, in order.
pub open spec fn explicit_effects_prefix(i: InstructionView) -> Seq<InstructionView> {
    Seq::new(i.effects.len(), |j: int| effect_instruction(i.effects[j], i.address))
}

/// `explicit_effects_prefix` as a function.
pub open spec fn explicit_effects_prefixes() -> spec_fn(InstructionView) -> Seq<InstructionView> {
    |i: InstructionView| explicit_effects_prefix(i)
}

/// Whether all effects of `i` can be made explicit.
pub open spec fn explicit_effects_defined(i: InstructionView) -> bool {
    forall|j: int| 0 <= j < i.effects.len() ==> effect_defined(#[trigger] i.effects[j])
}

/// `explicit_effects_defined` as a function.
pub open spec fn explicit_effects_checks() -> spec_fn(InstructionView) -> bool {
    |i: InstructionView| explicit_effects_defined(i)
}

/// The error of the first effect of `i` that cannot be made explicit.
pub open spec fn explicit_effects_error(i: InstructionView) -> Error {
    effect_error(i.effects[first_failure(i.effects, effect_checks())])
}

/// The variable and value of the assignment that makes `effect` explicit.
fn encode_effect(effect: &Effect) -> (r: Result<(Variable, Expression), Error>)
    ensures
        r is Ok <==> effect_defined(effect@),
        r matches Ok((v, x)) ==> effect_assignment(effect@) == Ok::<(VariableView, ExpressionView), Error>(
            (v@, x@),
        ),
        r matches Ok((v, x)) ==> x.sort == v.sort,
        r is Err ==> r == Err::<(Variable, Expression), Error>(effect_error(effect@)),
    decreases effect,
{
    match effect {
        Effect::Conditional { condition, effect } => {
            let (variable, expr) = encode_effect(effect)?;
            let current = Expression::variable(variable.clone());
            let value = Expression::ite(condition.clone(), expr, current)?;
            Ok((variable, value))
        },
        Effect::CacheFetch { address, bit_width } => encode_cache_fetch_effect(address, *bit_width),
        Effect::BranchTarget { location, target } => encode_branch_target_effect(location, target),
        Effect::BranchCondition { location, condition } => encode_branch_condition_effect(location, condition),
    }
}

/// `_cache` after fetching `bit_width` bits at `address`.
fn encode_cache_fetch_effect(address: &Expression, bit_width: usize) -> (r: Result<(Variable, Expression), Error>)
    ensures
        r is Ok <==> effect_defined(EffectView::CacheFetch { address: address@, bit_width }),
        r matches Ok((v, x)) ==> effect_assignment(EffectView::CacheFetch { address: address@, bit_width })
            == Ok::<(VariableView, ExpressionView), Error>((v@, x@)),
        r is Err ==> r == Err::<(Variable, Expression), Error>(
            effect_error(EffectView::CacheFetch { address: address@, bit_width }),
        ),
        r matches Ok((v, x)) ==> x.sort == v.sort,
{
    let cache = Cache::variable();
    let fetch = Cache::fetch(bit_width, Expression::variable(cache.clone()), address.clone())?;
    Ok((cache, fetch))
}

/// `_btb` after tracking `target` for the branch at `location`.
fn encode_branch_target_effect(location: &Expression, target: &Expression) -> (r: Result<(Variable, Expression), Error>)
    ensures
        r is Ok <==> effect_defined(EffectView::BranchTarget { location: location@, target: target@ }),
        r matches Ok((v, x)) ==> effect_assignment(EffectView::BranchTarget { location: location@, target: target@ })
            == Ok::<(VariableView, ExpressionView), Error>((v@, x@)),
        r is Err ==> r == Err::<(Variable, Expression), Error>(
            effect_error(EffectView::BranchTarget { location: location@, target: target@ }),
        ),
        r matches Ok((v, x)) ==> x.sort == v.sort,
{
    let btb = BranchTargetBuffer::variable();
    let track = BranchTargetBuffer::track(Expression::variable(btb.clone()), location.clone(), target.clone())?;
    Ok((btb, track))
}

/// `_pht` after recording the branch at `location` as taken if `condition` holds and as not
/// taken otherwise.
fn encode_branch_condition_effect(location: &Expression, condition: &Expression) -> (r: Result<
    (Variable, Expression),
    Error,
>)
    ensures
        r is Ok <==> effect_defined(EffectView::BranchCondition { location: location@, condition: condition@ }),
        r matches Ok((v, x)) ==> effect_assignment(
            EffectView::BranchCondition { location: location@, condition: condition@ },
        ) == Ok::<(VariableView, ExpressionView), Error>((v@, x@)),
        r is Err ==> r == Err::<(Variable, Expression), Error>(
            effect_error(EffectView::BranchCondition { location: location@, condition: condition@ }),
        ),
        r matches Ok((v, x)) ==> x.sort == v.sort,
{
    let pht = PatternHistoryTable::variable();
    let taken = PatternHistoryTable::taken(Expression::variable(pht.clone()), location.clone())?;
    let not_taken = PatternHistoryTable::not_taken(Expression::variable(pht.clone()), location.clone())?;
    let value = Expression::ite(condition.clone(), taken, not_taken)?;
    Ok((pht, value))
}

/// The instructions that make the effects of `inst` explicit.
fn effect_instructions(inst: &Instruction) -> (r: Result<Vec<Instruction>, Error>)
    ensures
        r is Ok <==> explicit_effects_defined(inst@),
        r matches Ok(v) ==> Seq::new(v@.len(), |i: int| v@[i]@) == explicit_effects_prefix(inst@),
        r is Err ==> r == Err::<Vec<Instruction>, Error>(explicit_effects_error(inst@)),
{
    let ghost effects = inst@.effects;
    let mut out: Vec<Instruction> = Vec::new();
    let mut j: usize = 0;
    while j < inst.effects.len()
        invariant
            0 <= j <= inst.effects@.len(),
            effects == inst@.effects,
            effects.len() == inst.effects@.len(),
            forall|k: int| 0 <= k < j ==> effect_defined(#[trigger] effects[k]),
            out@.len() == j,
            forall|k: int| 0 <= k < j ==> (#[trigger] out@[k])@ == effect_instruction(effects[k], inst.address),
        decreases inst.effects@.len() - j,
    {
        assert(inst.effects@[j as int]@ == effects[j as int]);
        match encode_effect(&inst.effects[j]) {
            Ok((variable, expr)) => {
                let mut e = Instruction::new(Operation::Assign { variable, expr });
                e.address = inst.address;
                e.pseudo = true;
                proof {
                    assert(e@.effects =~= Seq::<EffectView>::empty());
                }
                out.push(e);
            },
            Err(err) => {
                proof {
                    lemma_first_failure(effects, effect_checks(), j as int);
                }
                return Err(err);
            },
        }
        j += 1;
    }
    proof {
        assert(Seq::new(out@.len(), |i: int| out@[i]@) =~= explicit_effects_prefix(inst@));
    }
    Ok(out)
}

impl Transform<Block> for ExplicitEffects {
    fn name(&self) -> (r: &'static str)
        ensures
            r@ == "ExplicitEffects"@,
    {
        "ExplicitEffects"
    }

    fn description(&self) -> (r: &'static str)
        ensures
            r@ == "Make instruction effects explicit"@,
    {
        "Make instruction effects explicit"
    }

    /// Places before each instruction of `block` the assignments that make its effects
    /// explicit, at its address; fails with the error of the first effect that cannot be made
    /// explicit, and leaves the block unchanged then.
    fn transform(&self, block: &mut Block) -> (r: Result<(), Error>)
        ensures
            r is Ok <==> (forall|k: int|
                0 <= k < old(block)@.instructions.len() ==> explicit_effects_defined(
                    #[trigger] old(block)@.instructions[k],
                )),
            r is Ok ==> final(block)@ == (BlockView {
                instructions: prefixed(old(block)@.instructions, explicit_effects_prefixes()),
                ..old(block)@
            }),
            r is Err ==> final(block)@ == old(block)@ && r == Err::<(), Error>(
                explicit_effects_error(
                    old(block)@.instructions[first_failure(old(block)@.instructions, explicit_effects_checks())],
                ),
            ),
    {
        let ghost b0 = block@;
        let n = block.instructions.len();
        let mut out: Vec<Instruction> = Vec::new();
        let mut k: usize = 0;
        while k < n
            invariant
                0 <= k <= n,
                n == b0.instructions.len(),
                block@ == b0,
                block@ == old(block)@,
                forall|j: int| 0 <= j < k ==> explicit_effects_defined(#[trigger] b0.instructions[j]),
                Seq::new(out@.len(), |i: int| out@[i]@) == prefixed(
                    b0.instructions.take(k as int),
                    explicit_effects_prefixes(),
                ),
            decreases n - k,
        {
            proof {
                lemma_prefixed_step(b0.instructions, explicit_effects_prefixes(), k as int);
                assert(block.instructions@[k as int]@ == b0.instructions[k as int]);
            }
            match effect_instructions(&block.instructions[k]) {
                Ok(mut effects) => {
                    let ghost before = out@;
                    let ghost added = effects@;
                    out.append(&mut effects);
                    proof {
                        assert(Seq::new(out@.len(), |i: int| out@[i]@) =~= Seq::new(before.len(), |i: int| before[i]@)
                            + Seq::new(added.len(), |i: int| added[i]@));
                    }
                },
                Err(e) => {
                    proof {
                        lemma_first_failure(b0.instructions, explicit_effects_checks(), k as int);
                    }
                    return Err(e);
                },
            }
            out.push(block.instructions[k].clone());
            proof {
                assert(Seq::new(out@.len(), |i: int| out@[i]@) =~= prefixed(
                    b0.instructions.take(k + 1),
                    explicit_effects_prefixes(),
                ));
            }
            k += 1;
        }
        proof {
            assert(b0.instructions.take(n as int) =~= b0.instructions);
        }
        block.instructions = out;
        Ok(())
    }
}

} // verus!
