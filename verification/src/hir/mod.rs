//! High-Level Intermediate Representation (HIR): control-flow graphs of instructions.

mod block;
mod control_flow_graph;
mod dead_ends;
mod edge;
mod equality;
mod instruction;
mod operation;
mod phi_node;
mod program;
pub mod transformation;

pub use self::instruction::{plain, Effect, EffectView, Instruction, InstructionView};
pub use self::operation::{
    operation_read, operation_written, Operation, OperationView,
};
pub use self::phi_node::{incoming_views, phi_node_views, phi_read, PhiNode, PhiNodeView};
pub use self::block::{instruction_views, law_remove_undoes_insert, real_instruction_count, Block, BlockView};
pub use self::program::{
    law_inserted_function_is_found, name_view, Function, FunctionView, InlinedProgram, Program, ProgramEntry, ProgramEntryView, ProgramView,
};
pub use self::edge::{Edge, EdgeLabels, EdgeView};
pub use self::control_flow_graph::{
    block_views, copy_index, distinct_indices, edge_views, enters, law_remove_edge_undoes_add,
    law_split_keeps_instructions, law_split_moves_out_edges, lemma_filtered_edges,
    lemma_leaving_edges, head_of, leaves, same_graph, tail_of, unconditional,
    ControlFlowGraph, GraphView,
};
pub use self::dead_ends::{
    closed_backwards, dead_end_guards, guard_view, is_path, law_no_dead_ends_remain, leads_to_exit, live_blocks, live_edges, live_index_of, marked,
    reaches, unmarked, without_dead_ends, RemovedEdgeGuard,
};
