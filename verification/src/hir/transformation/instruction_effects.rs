//! The microarchitectural effects of instructions.
use crate::error::Error;
use crate::hir::transformation::{address_or_zero, location_view};
use crate::hir::{Block, BlockView, Effect, EffectView, Instruction, InstructionView, Operation, OperationView};
use crate::ir::Transform;
use crate::lir::{BitVector, Sort};
use vstd::prelude::*;

verus! {

/// Adds to instructions the effects on the modelled components: cache fetches of memory
/// accesses, branch targets and branch conditions.
#[derive(Debug, Clone, Copy, PartialEq, Eq, Structural)]
pub struct InstructionEffects {
    pub model_cache_effects: bool,
    pub model_btb_effects: bool,
    pub model_pht_effects: bool,
}

impl Default for InstructionEffects {
    fn default() -> (r: Self)
        ensures
            r == (InstructionEffects { model_cache_effects: false, model_btb_effects: false, model_pht_effects: false }),
    {
        InstructionEffects { model_cache_effects: false, model_btb_effects: false, model_pht_effects: false }
    }
}

/// Whether the memory accesses of `op` are on bit vectors (as their width is needed).
pub open spec fn accesses_bit_vectors(op: OperationView) -> bool {
    match op {
        OperationView::Store { expr, .. } => expr.sort is BitVector,
        OperationView::Load { variable, .. } => variable.sort is BitVector,
        _ => true,
    }
}

/// The width of a bit-vector sort.
pub open spec fn width_of(s: Sort) -> usize {
    match s {
        Sort::BitVector(w) => w,
        _ => 0,
    }
}

/// The effects of instruction `i` under the settings `m`: a cache fetch of the accessed
/// width at the address of a store or load; the target of a branch or call at its address
/// (only if the condition holds for a conditional branch); the condition of a conditional
/// branch at its address.
pub open spec fn effects_of(m: InstructionEffects, i: InstructionView) -> Seq<EffectView> {
    let location = location_view(address_or_zero(i.address));
    match i.operation {
        OperationView::Store { address, expr } => if m.model_cache_effects {
            seq![EffectView::CacheFetch { address, bit_width: width_of(expr.sort) }]
        } else {
            Seq::empty()
        },
        OperationView::Load { variable, address } => if m.model_cache_effects {
            seq![EffectView::CacheFetch { address, bit_width: width_of(variable.sort) }]
        } else {
            Seq::empty()
        },
        OperationView::Call { target } => if m.model_btb_effects {
            seq![EffectView::BranchTarget { location, target }]
        } else {
            Seq::empty()
        },
        OperationView::Branch { target } => if m.model_btb_effects {
            seq![EffectView::BranchTarget { location, target }]
        } else {
            Seq::empty()
        },
        OperationView::ConditionalBranch { condition, target } => (if m.model_btb_effects {
            seq![
                EffectView::Conditional {
                    condition,
                    effect: Box::new(EffectView::BranchTarget { location, target }),
                },
            ]
        } else {
            Seq::empty()
        }) + (if m.model_pht_effects {
            seq![EffectView::BranchCondition { location, condition }]
        } else {
            Seq::empty()
        }),
        _ => Seq::empty(),
    }
}

/// The views of effects.
pub open spec fn effect_views(s: Seq<Effect>) -> Seq<EffectView> {
    Seq::new(s.len(), |i: int| s[i]@)
}

impl InstructionEffects {
    /// The effects of `instruction`.
    pub fn instruction_effects(&self, instruction: &Instruction) -> (r: Vec<Effect>)
        requires
            self.model_cache_effects ==> accesses_bit_vectors(instruction@.operation),
        ensures
            effect_views(r@) == effects_of(*self, instruction@),
    {
        let mut effects: Vec<Effect> = Vec::new();
        let address = match instruction.address {
            Some(a) => a,
            None => 0,
        };
        match &instruction.operation {
            Operation::Store { address: a, expr } => {
                if self.model_cache_effects {
                    let bit_width = expr.sort.unwrap_bit_vector();
                    effects.push(Effect::cache_fetch(a.clone(), bit_width));
                }
            },
            Operation::Load { variable, address: a } => {
                if self.model_cache_effects {
                    let bit_width = variable.sort.unwrap_bit_vector();
                    effects.push(Effect::cache_fetch(a.clone(), bit_width));
                }
            },
            Operation::Call { target } | Operation::Branch { target } => {
                if self.model_btb_effects {
                    let location = BitVector::word_constant(address);
                    effects.push(Effect::branch_target(location, target.clone()));
                }
            },
            Operation::ConditionalBranch { condition, target } => {
                if self.model_btb_effects {
                    let location = BitVector::word_constant(address);
                    effects.push(Effect::branch_target(location, target.clone()).only_if(condition.clone()));
                }
                if self.model_pht_effects {
                    let location = BitVector::word_constant(address);
                    effects.push(Effect::branch_condition(location, condition.clone()));
                }
            },
            _ => {},
        }
        proof {
            assert(effect_views(effects@) =~= effects_of(*self, instruction@));
        }
        effects
    }

    /// Adds the effects of every instruction of `block`.
    pub fn transform_block(&self, block: &mut Block)
        requires
            self.model_cache_effects ==> forall|k: int|
                0 <= k < old(block)@.instructions.len() ==> accesses_bit_vectors(
                    #[trigger] old(block)@.instructions[k].operation,
                ),
        ensures
            final(block)@ == (BlockView {
                instructions: Seq::new(
                    old(block)@.instructions.len(),
                    |k: int|
                        InstructionView {
                            effects: old(block)@.instructions[k].effects + effects_of(*self, old(block)@.instructions[k]),
                            ..old(block)@.instructions[k]
                        },
                ),
                ..old(block)@
            }),
    {
        let ghost b0 = block@;
        let n = block.instructions.len();
        let mut k: usize = 0;
        while k < n
            invariant
                0 <= k <= n,
                n == b0.instructions.len(),
                block.index == b0.index,
                block.transient == b0.transient,
                block@.phi_nodes == b0.phi_nodes,
                block.instructions@.len() == n,
                self.model_cache_effects ==> forall|j: int|
                    0 <= j < b0.instructions.len() ==> accesses_bit_vectors(#[trigger] b0.instructions[j].operation),
                forall|j: int|
                    0 <= j < k ==> (#[trigger] block.instructions@[j])@ == (InstructionView {
                        effects: b0.instructions[j].effects + effects_of(*self, b0.instructions[j]),
                        ..b0.instructions[j]
                    }),
                forall|j: int| k <= j < n ==> (#[trigger] block.instructions@[j])@ == b0.instructions[j],
            decreases n - k,
        {
            let mut inst = block.instructions.remove(k);
            assert(inst@ == b0.instructions[k as int]);
            let effects = self.instruction_effects(&inst);
            inst.add_effects(&effects);
            proof {
                assert(Seq::new(effects@.len(), |i: int| effects@[i]@) =~= effect_views(effects@));
            }
            block.instructions.insert(k, inst);
            k += 1;
        }
        proof {
            assert(block@.instructions =~= Seq::new(
                b0.instructions.len(),
                |j: int|
                    InstructionView {
                        effects: b0.instructions[j].effects + effects_of(*self, b0.instructions[j]),
                        ..b0.instructions[j]
                    },
            ));
        }
    }
}

impl Transform<Instruction> for InstructionEffects {
    fn name(&self) -> (r: &'static str)
        ensures
            r@ == "InstructionEffects"@,
    {
        "InstructionEffects"
    }

    fn description(&self) -> (r: &'static str)
        ensures
            r@ == "Add instruction effects"@,
    {
        "Add instruction effects"
    }

    fn transform(&self, instruction: &mut Instruction) -> (r: Result<(), Error>)
        ensures
            r is Ok,
            !self.model_cache_effects || accesses_bit_vectors(old(instruction)@.operation) ==> final(instruction)@
                == (InstructionView {
                effects: old(instruction)@.effects + effects_of(*self, old(instruction)@),
                ..old(instruction)@
            }),
    {
        if self.model_cache_effects && !memory_accesses_on_bit_vectors(&instruction.operation) {
            return Ok(());
        }
        let effects = self.instruction_effects(instruction);
        instruction.add_effects(&effects);
        proof {
            assert(Seq::new(effects@.len(), |i: int| effects@[i]@) =~= effect_views(effects@));
        }
        Ok(())
    }
}

/// Whether the memory accesses of `op` are on bit vectors.
fn memory_accesses_on_bit_vectors(op: &Operation) -> (r: bool)
    ensures
        r == accesses_bit_vectors(op@),
{
    match op {
        Operation::Store { expr, .. } => expr.sort.is_bit_vector(),
        Operation::Load { variable, .. } => variable.sort.is_bit_vector(),
        _ => true,
    }
}

} // verus!
