//! Transformations of control-flow graphs.

mod explicit_effects;
mod explicit_memory;
mod explicit_program_counter;
mod fold;
mod function_inlining;
mod initial_state;
mod insertion;
mod laws;
mod instruction_effects;
mod instruction_ref;
mod loop_nests;
mod loop_unwinding;
mod non_spec_obs_equiv;
mod observations;
pub mod optimization;
mod pc_model_observations;
mod pipeline;
mod reorder_buffer;
mod resolve_edges;
mod speculation_window;
mod transient_execution;
mod transient_graphs;
mod transient_transform;

pub use self::function_inlining::{
    block_indices, budget, call_address, call_site, call_labels, depth_at, inline_call, inlined_at_call, inlined_block, inlined_graph, inlined_stack,
    inserted_indices, law_inlining_keeps_caller_blocks, law_limit_zero_inlines_nothing, lemma_budget_step,
    lemma_inlined_at_call_keeps, lemma_inlined_block_keeps, lemma_inlined_stack_keeps, next_call, no_call, return_labels, FunctionInlining, Inlining,
};
pub use self::instruction_ref::{
    belongs_at, insert_position, ref_lt, sorted_insert, InstructionRef, InstructionRefMap,
};
pub use self::transient_execution::{
    law_store_bypass_follows_the_predictor, law_transient_start_follows_the_predictor,
    add_transient_execution_start, barrier_encoding, barrier_step, branch_defined, branch_step,
    split_applies, split_error, start_step, store_step, branch_encoding, branch_prefix,
    branch_successors, predicted, speculation_edges, speculation_instructions, taken_first,
    taken_labels, transient_conditional_branch, PredictorStrategy, transient_barrier, conditional, location_view, no_labels, not_view, predictor_view, pseudo,
    spec_win, spec_win_view, speculate_view, start_applies, start_encoding, start_instructions,
    store_applies, store_encoding, taken_view, transient_store, window_constant_view, window_view,
};
pub use self::speculation_window::{
    block_cost, cut_graph, exhausted_at, positions, remove_unreachable_transient_edges,
    resolve_edge, entries_exist, exhausted, exhausted_positions, is_least_window_bound,
    is_window_bound, keeps, last_missing_entry, nat_windows, remaining_windows, window_after,
    window_analysis, window_at_entry,
};
pub use self::fold::{fold_results, lemma_fold_prefix_err, lemma_fold_push};
pub use self::transient_graphs::{
    address_or_zero, block_refs, law_transient_graph_blocks_are_transient, default_graph, default_step, lemma_defined_prefix, step_defined,
    transient_defined, transient_graph, transient_graph_defined, transient_step, with_resolve_block, instruction_refs, lemma_refs_fold_block, lemma_refs_fold_err,
    lemma_refs_fold_next, lemma_refs_prefix,
    skips_stl, speculates, TransientExecution, TransientView,
};
pub use self::resolve_edges::{
    add_transient_resolve_edges, all_transient, append_spec_win_decrease_to_all_blocks,
    effect_split_step, lemma_candidates_not_resolve, set_all_transient, effect_splits, effectful_desc, resolve_candidates,
    resolve_step, split_blocks_at_effectful_instructions, window_decrease, window_left_view,
    window_used_up_view, with_resolve_edges, with_window_decrease,
};
pub use self::instruction_effects::{
    accesses_bit_vectors, effect_views, effects_of, width_of, InstructionEffects,
};
pub use self::pc_model_observations::{
    all_pc_observable, ite_view, pc_instruction_error, observation, observed_instructions, pc_error, pc_observable,
    pc_observed, Check, ProgramCounterModelObservations,
};
pub use self::loop_unwinding::{
    among, back_nodes, law_unwinding_keeps_entry_and_exit, cut_back_edge, cut_step, more_copies, rewire_result,
    rewire_step, unwound, unwound_nodes, lemma_more_copies_err, lemma_more_copies_step,
    lemma_more_copies_zero, LoopUnwinding, UnwindingGuard,
};
pub use self::reorder_buffer::{
    block_written, graph_written, lemma_reorder_buffer_push, rb_push, reorder_buffer,
    reorder_buffer_vars, restore_instructions, restore_variables, save_instructions,
    save_variables, saved_variable_for, saved_view, variable_views_of,
};
pub use self::transient_transform::{
    embed_step, rollback_labels, transient_transform, with_appended, MAX_SPEC_WINDOW,
};
pub use self::insertion::{
    all_pseudo, first_failure, gives_pseudo, lemma_first_failure, lemma_first_failure_exists, lemma_prefixed_keeps_real_instructions,
    lemma_prefixed_step, lemma_real_instructions_append, lemma_real_instructions_of_pseudo,
    lemma_suffixed_keeps_real_instructions, lemma_suffixed_step, prefixed, real_instructions, suffixed,
};
pub use self::explicit_program_counter::{
    address_variable_view, explicit_pc_assignment, explicit_pc_checks, explicit_pc_defined, explicit_pc_error,
    explicit_pc_prefix, explicit_pc_prefixes, pc_variable_view, ExplicitProgramCounter,
};
pub use self::explicit_effects::{
    effect_assignment, effect_checks, effect_defined, effect_error, effect_instruction, explicit_effects_checks,
    explicit_effects_defined, explicit_effects_error, explicit_effects_prefix, explicit_effects_prefixes,
    ExplicitEffects,
};
pub use self::explicit_memory::{
    explicit_memory_operation, law_explicit_memory_removes_accesses, memory_view, ExplicitMemory,
};
pub use self::observations::{
    exit_error, has_exit_block, in_degree, not_index, observations_outcome, observe_all, observe_all_reversed,
    observe_view, observed_end, observed_joins, observed_writes, write_observation, write_observations,
    Observations,
};
pub use self::initial_state::{
    entry_error, has_entry_block, havoc_view, init_memory_instructions, init_stack_instructions, low_equivalent_view, memory_byte_view,
    register_view, secret_stores, secret_view, views_of, with_entry_appended, InitMemory, InitStack,
    SecurityLevel, STACK_BASE,
};
pub use self::non_spec_obs_equiv::{
    blocks_variables, distinct_components, instructions_variables, mentions_component, nonspec_expression,
    nonspec_initialization, nonspec_operation, nonspec_outcome, nonspec_prefix, nonspec_prefixes, nonspec_variable,
    operation_variables, with_nonspec_blocks, NonSpecObsEquivalence,
};
pub use self::laws::{
    law_entry_appended_keeps_real_instructions, law_explicit_effects_keep_real_instructions,
    law_explicit_pc_keeps_real_instructions, law_init_memory_keeps_real_instructions,
    law_init_stack_keeps_real_instructions, law_nonspec_keeps_real_instructions,
    law_observations_keep_real_instructions, law_pc_observations_keep_real_instructions, same_real_instructions,
};
pub use self::loop_nests::{
    initial_loop_nodes, is_loop_nest, loop_positions, merged_nodes, node_views, removed_edge_guard, unwind_loop_step, unwound_cfg,
    NaturalLoop,
};
pub use self::pipeline::{
    address_ranges_to_addresses, component_names, configured, create_transformations, distinct_names, in_ranges,
    kind_of, lists_addresses, name_views, planned_kinds, strictly_increasing, AddressRange, Environment, Observe,
    OptimizationLevel, StepKind, TransformationStep,
};
