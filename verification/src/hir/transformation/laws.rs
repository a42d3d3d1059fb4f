//! Laws of the encodings: they only add pseudo instructions, so each block keeps its real
//! instructions, in order, and with them the part of the speculation window it uses.
use crate::hir::transformation::{
    all_pseudo, entry_error, explicit_effects_prefixes, explicit_pc_prefixes, first_failure, gives_pseudo,
    has_entry_block, init_memory_instructions, init_stack_instructions, lemma_first_failure_exists,
    lemma_prefixed_keeps_real_instructions,
    lemma_real_instructions_append, lemma_real_instructions_of_pseudo, lemma_suffixed_keeps_real_instructions,
    nonspec_initialization, nonspec_outcome, nonspec_prefixes, not_index, observations_outcome, observe_all,
    observe_all_reversed, observed_end, observed_instructions, observed_joins, observed_writes, real_instructions,
    with_entry_appended, with_nonspec_blocks, write_observations, ExplicitProgramCounter, InitMemory, InitStack,
    Observations, ProgramCounterModelObservations,
};
use crate::hir::{GraphView, InstructionView};
use crate::lir::VariableView;
use vstd::prelude::*;

verus! {

/// Whether `h` has the blocks of `g`, at the same positions with the same indices and
/// transient marks, each with the same real instructions.
pub open spec fn same_real_instructions(g: GraphView, h: GraphView) -> bool {
    &&& h.blocks.len() == g.blocks.len()
    &&& forall|p: int|
        0 <= p < g.blocks.len() ==> (#[trigger] h.blocks[p]).index == g.blocks[p].index && h.blocks[p].transient
            == g.blocks[p].transient && real_instructions(h.blocks[p].instructions) == real_instructions(
            g.blocks[p].instructions,
        )
}

/// Making effects explicit keeps the real instructions of a block.
pub proof fn law_explicit_effects_keep_real_instructions(insts: Seq<InstructionView>)
    ensures
        real_instructions(crate::hir::transformation::prefixed(insts, explicit_effects_prefixes())) == real_instructions(
            insts,
        ),
{
    assert(gives_pseudo(explicit_effects_prefixes()));
    lemma_prefixed_keeps_real_instructions(insts, explicit_effects_prefixes());
}

/// Making the program counter explicit keeps the real instructions of a block.
pub proof fn law_explicit_pc_keeps_real_instructions(m: ExplicitProgramCounter, insts: Seq<InstructionView>)
    ensures
        real_instructions(crate::hir::transformation::prefixed(insts, explicit_pc_prefixes(m))) == real_instructions(
            insts,
        ),
{
    assert(gives_pseudo(explicit_pc_prefixes(m)));
    lemma_prefixed_keeps_real_instructions(insts, explicit_pc_prefixes(m));
}

/// The observations of the program-counter model keep the real instructions of a block.
pub proof fn law_pc_observations_keep_real_instructions(
    m: ProgramCounterModelObservations,
    transient: bool,
    insts: Seq<InstructionView>,
)
    ensures
        real_instructions(observed_instructions(m, transient, insts)) == real_instructions(insts),
    decreases insts.len(),
{
    if insts.len() > 0 {
        let x = insts.last();
        let rest = observed_instructions(m, transient, insts.drop_last());
        law_pc_observations_keep_real_instructions(m, transient, insts.drop_last());
        let added = match crate::hir::transformation::pc_observed(m, x) {
            Some(e) => seq![crate::hir::transformation::observation(m, transient, e)],
            None => Seq::<InstructionView>::empty(),
        };
        assert(all_pseudo(added));
        lemma_real_instructions_of_pseudo(added);
        lemma_real_instructions_append(rest + added, seq![x]);
        lemma_real_instructions_append(rest, added);
        assert(seq![x].drop_last() =~= Seq::<InstructionView>::empty());
        assert(real_instructions(seq![x]) =~= real_instructions(Seq::<InstructionView>::empty()) + if x.pseudo {
            Seq::<InstructionView>::empty()
        } else {
            seq![x]
        });
        assert(real_instructions(observed_instructions(m, transient, insts)) =~= real_instructions(insts));
    }
}

/// Observing writes, joins and the end of the program keeps the blocks and their real
/// instructions, whether the observation at the end succeeds or not.
pub proof fn law_observations_keep_real_instructions(m: Observations, g: GraphView)
    ensures
        same_real_instructions(g, observations_outcome(m, g).0),
{
    let vars = m.observable_views();
    let g1 = if m.observe_variable_writes {
        observed_writes(g, vars)
    } else {
        g
    };
    assert(same_real_instructions(g, g1)) by {
        if m.observe_variable_writes {
            assert(gives_pseudo(write_observations(vars)));
            assert forall|p: int| 0 <= p < g.blocks.len() implies real_instructions(
                (#[trigger] g1.blocks[p]).instructions,
            ) == real_instructions(g.blocks[p].instructions) by {
                lemma_suffixed_keeps_real_instructions(g.blocks[p].instructions, write_observations(vars));
            }
        }
    }
    let g2 = if m.observe_at_control_flow_joins {
        observed_joins(g1, vars)
    } else {
        g1
    };
    assert(same_real_instructions(g, g2)) by {
        if m.observe_at_control_flow_joins {
            assert(all_pseudo(observe_all_reversed(vars)));
            lemma_real_instructions_of_pseudo(observe_all_reversed(vars));
            assert forall|p: int| 0 <= p < g.blocks.len() implies real_instructions(
                (#[trigger] g2.blocks[p]).instructions,
            ) == real_instructions(g.blocks[p].instructions) by {
                assert(real_instructions(g1.blocks[p].instructions) == real_instructions(g.blocks[p].instructions));
                lemma_real_instructions_append(observe_all_reversed(vars), g1.blocks[p].instructions);
                assert(Seq::<InstructionView>::empty() + real_instructions(g1.blocks[p].instructions)
                    =~= real_instructions(g1.blocks[p].instructions));
            }
        }
    }
    if m.observe_at_end_of_program && crate::hir::transformation::has_exit_block(g2) {
        let e = g2.exit->Some_0;
        let w = choose|w: int| 0 <= w < g2.blocks.len() && (#[trigger] g2.blocks[w]).index == e;
        lemma_first_failure_exists(g2.blocks, not_index(e), w);
        let q = first_failure(g2.blocks, not_index(e));
        let g3 = observed_end(g2, vars);
        assert(all_pseudo(observe_all(vars)));
        lemma_real_instructions_of_pseudo(observe_all(vars));
        assert forall|p: int| 0 <= p < g.blocks.len() implies (#[trigger] g3.blocks[p]).index == g.blocks[p].index
            && g3.blocks[p].transient == g.blocks[p].transient && real_instructions(g3.blocks[p].instructions)
            == real_instructions(g.blocks[p].instructions) by {
            assert(g2.blocks[p].index == g.blocks[p].index);
            if p == q {
                lemma_real_instructions_append(g2.blocks[p].instructions, observe_all(vars));
                assert(real_instructions(g2.blocks[p].instructions) + Seq::<InstructionView>::empty()
                    =~= real_instructions(g2.blocks[p].instructions));
            }
        }
    }
}

/// Appending pseudo instructions to the entry block keeps the blocks and their real
/// instructions.
pub proof fn law_entry_appended_keeps_real_instructions(g: GraphView, insts: Seq<InstructionView>)
    requires
        has_entry_block(g),
        all_pseudo(insts),
    ensures
        same_real_instructions(g, with_entry_appended(g, insts)),
{
    let e = g.entry->Some_0;
    let w = choose|w: int| 0 <= w < g.blocks.len() && (#[trigger] g.blocks[w]).index == e;
    lemma_first_failure_exists(g.blocks, not_index(e), w);
    let q = first_failure(g.blocks, not_index(e));
    let h = with_entry_appended(g, insts);
    lemma_real_instructions_of_pseudo(insts);
    assert forall|p: int| 0 <= p < g.blocks.len() implies (#[trigger] h.blocks[p]).index == g.blocks[p].index
        && h.blocks[p].transient == g.blocks[p].transient && real_instructions(h.blocks[p].instructions)
        == real_instructions(g.blocks[p].instructions) by {
        if p == q {
            lemma_real_instructions_append(g.blocks[p].instructions, insts);
            assert(real_instructions(g.blocks[p].instructions) + Seq::<InstructionView>::empty()
                =~= real_instructions(g.blocks[p].instructions));
        }
    }
}

/// Setting up memory keeps the blocks and their real instructions.
pub proof fn law_init_memory_keeps_real_instructions(m: InitMemory, g: GraphView)
    requires
        has_entry_block(g),
    ensures
        same_real_instructions(g, with_entry_appended(g, init_memory_instructions(m))),
{
    let insts = init_memory_instructions(m);
    assert forall|k: int| 0 <= k < insts.len() implies (#[trigger] insts[k]).pseudo by {
        if k > 0 {
            match m.level() {
                crate::hir::transformation::SecurityLevel::Low => {
                    if k > 1 {
                        lemma_secret_stores_pseudo(m.high_addresses());
                        assert(insts[k] == crate::hir::transformation::secret_stores(
                            m.high_addresses(),
                        )[k - 2]);
                    }
                },
                crate::hir::transformation::SecurityLevel::High => {},
            }
        }
    }
    law_entry_appended_keeps_real_instructions(g, insts);
}

/// The stores of secret bytes are pseudo instructions.
proof fn lemma_secret_stores_pseudo(addrs: Seq<u64>)
    ensures
        all_pseudo(crate::hir::transformation::secret_stores(addrs)),
    decreases addrs.len(),
{
    if addrs.len() > 0 {
        lemma_secret_stores_pseudo(addrs.drop_last());
    }
}

/// Setting up the stack keeps the blocks and their real instructions.
pub proof fn law_init_stack_keeps_real_instructions(m: InitStack, g: GraphView)
    requires
        has_entry_block(g),
    ensures
        same_real_instructions(g, with_entry_appended(g, init_stack_instructions(m))),
{
    law_entry_appended_keeps_real_instructions(g, init_stack_instructions(m));
}

/// The non-speculative counterparts keep the blocks and their real instructions, whether
/// the entry block exists or not.
pub proof fn law_nonspec_keeps_real_instructions(g: GraphView)
    ensures
        same_real_instructions(g, nonspec_outcome(g).0),
{
    let g1 = with_nonspec_blocks(g);
    assert(gives_pseudo(nonspec_prefixes()));
    assert forall|p: int| 0 <= p < g.blocks.len() implies real_instructions((#[trigger] g1.blocks[p]).instructions)
        == real_instructions(g.blocks[p].instructions) by {
        lemma_prefixed_keeps_real_instructions(g.blocks[p].instructions, nonspec_prefixes());
    }
    if has_entry_block(g1) {
        let vars = crate::hir::transformation::distinct_components(
            crate::hir::transformation::blocks_variables(g.blocks),
        );
        law_entry_appended_keeps_real_instructions(g1, nonspec_initialization(vars));
    }
}

} // verus!
