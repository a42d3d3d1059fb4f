//! The variables that a transient execution may change and that a rollback restores.
use crate::hir::transformation::pseudo;
use crate::hir::{operation_written, BlockView, ControlFlowGraph, Instruction, InstructionView, Operation, OperationView};
use crate::lir::{variable_view, Expression, Variable, VariableView};
use vstd::prelude::*;
use vstd::string::StringExecFns;

verus! {

/// The variables written by the instructions, in order.
pub open spec fn block_written(insts: Seq<InstructionView>) -> Seq<VariableView>
    decreases insts.len(),
{
    if insts.len() == 0 {
        Seq::empty()
    } else {
        block_written(insts.drop_last()) + operation_written(insts.last().operation)
    }
}

/// The variables written by the instructions of the blocks, block by block.
pub open spec fn graph_written(blocks: Seq<BlockView>) -> Seq<VariableView>
    decreases blocks.len(),
{
    if blocks.len() == 0 {
        Seq::empty()
    } else {
        graph_written(blocks.drop_last()) + block_written(blocks.last().instructions)
    }
}

/// `r` with `x` added, unless `x` is rollback persistent or in `r` already.
pub open spec fn rb_push(r: Seq<VariableView>, x: VariableView) -> Seq<VariableView> {
    if x.rollback_persistent || r.contains(x) {
        r
    } else {
        r.push(x)
    }
}

/// The variables of `s` that are not rollback persistent, without repetitions, in the order
/// of their first occurrence.
pub open spec fn reorder_buffer(s: Seq<VariableView>) -> Seq<VariableView>
    decreases s.len(),
{
    if s.len() == 0 {
        Seq::empty()
    } else {
        rb_push(reorder_buffer(s.drop_last()), s.last())
    }
}

/// The reorder buffer of a sequence with one more variable.
pub proof fn lemma_reorder_buffer_push(s: Seq<VariableView>, x: VariableView)
    ensures
        reorder_buffer(s.push(x)) == rb_push(reorder_buffer(s), x),
{
    assert(s.push(x).drop_last() =~= s);
}

/// The views of variables.
pub open spec fn variable_views_of(s: Seq<Variable>) -> Seq<VariableView> {
    Seq::new(s.len(), |i: int| s[i]@)
}

/// The variable that saves `v` while a transient execution runs.
pub open spec fn saved_view(v: VariableView) -> VariableView {
    VariableView { name: "_RB_"@ + v.name, sort: v.sort, rollback_persistent: false, version: None }
}

/// The instructions that save the variables.
pub open spec fn save_instructions(vars: Seq<VariableView>) -> Seq<InstructionView> {
    Seq::new(
        vars.len(),
        |i: int| pseudo(OperationView::Assign { variable: saved_view(vars[i]), expr: variable_view(vars[i]) }),
    )
}

/// The instructions that restore the variables.
pub open spec fn restore_instructions(vars: Seq<VariableView>) -> Seq<InstructionView> {
    Seq::new(
        vars.len(),
        |i: int| pseudo(OperationView::Assign { variable: vars[i], expr: variable_view(saved_view(vars[i])) }),
    )
}

/// Whether `v` is among `vars`.
fn contains_variable(vars: &Vec<Variable>, v: &Variable) -> (r: bool)
    ensures
        r == variable_views_of(vars@).contains(v@),
{
    let mut i: usize = 0;
    while i < vars.len()
        invariant
            0 <= i <= vars@.len(),
            forall|j: int| 0 <= j < i ==> vars@[j]@ != v@,
        decreases vars@.len() - i,
    {
        if vars[i].equals(v) {
            assert(variable_views_of(vars@)[i as int] == v@);
            return true;
        }
        i += 1;
    }
    proof {
        if variable_views_of(vars@).contains(v@) {
            let j = choose|j: int| 0 <= j < vars@.len() && variable_views_of(vars@)[j] == v@;
            assert(vars@[j]@ == v@);
        }
    }
    false
}

/// The variables that the instructions of `cfg` write and that are not rollback persistent,
/// without repetitions, in the order of their first occurrence.
pub fn reorder_buffer_vars(cfg: &ControlFlowGraph) -> (r: Vec<Variable>)
    ensures
        variable_views_of(r@) == reorder_buffer(graph_written(cfg@.blocks)),
{
    let ghost g = cfg@;
    let mut out: Vec<Variable> = Vec::new();
    let mut bi: usize = 0;
    while bi < cfg.blocks.len()
        invariant
            0 <= bi <= cfg.blocks@.len(),
            g == cfg@,
            variable_views_of(out@) == reorder_buffer(graph_written(g.blocks.take(bi as int))),
        decreases cfg.blocks@.len() - bi,
    {
        let block = &cfg.blocks[bi];
        let ghost insts = g.blocks[bi as int].instructions;
        let ghost before = graph_written(g.blocks.take(bi as int));
        proof {
            assert(block@ == g.blocks[bi as int]);
            assert(insts.take(0) =~= Seq::<InstructionView>::empty());
            assert(before + block_written(insts.take(0)) =~= before);
        }
        let mut k: usize = 0;
        while k < block.instructions.len()
            invariant
                0 <= k <= block.instructions@.len(),
                block@.instructions == insts,
                before == graph_written(g.blocks.take(bi as int)),
                variable_views_of(out@) == reorder_buffer(before + block_written(insts.take(k as int))),
            decreases block.instructions@.len() - k,
        {
            let ghost cur = before + block_written(insts.take(k as int));
            proof {
                assert(insts.take(k + 1).drop_last() =~= insts.take(k as int));
                assert(block.instructions@[k as int]@ == insts[k as int]);
            }
            match &block.instructions[k].operation {
                Operation::Assign { variable, .. } | Operation::Load { variable, .. } => {
                    proof {
                        assert(before + block_written(insts.take(k + 1)) =~= cur.push(variable@));
                        lemma_reorder_buffer_push(cur, variable@);
                    }
                    if !variable.rollback_persistent && !contains_variable(&out, variable) {
                        let ghost o = out@;
                        out.push(variable.clone());
                        proof {
                            assert(variable_views_of(out@) =~= variable_views_of(o).push(variable@));
                        }
                    }
                },
                _ => {
                    proof {
                        assert(before + block_written(insts.take(k + 1)) =~= cur);
                    }
                },
            }
            k += 1;
        }
        proof {
            assert(insts.take(insts.len() as int) =~= insts);
            assert(g.blocks.take(bi + 1).drop_last() =~= g.blocks.take(bi as int));
        }
        bi += 1;
    }
    proof {
        assert(g.blocks.take(g.blocks.len() as int) =~= g.blocks);
    }
    out
}

/// The variable that saves `var` while a transient execution runs: `_RB_` and its name.
pub fn saved_variable_for(var: &Variable) -> (r: Variable)
    ensures
        r@ == saved_view(var@),
{
    let name = String::from_str("_RB_").concat(var.name.as_str());
    proof {
        reveal_strlit("_RB_");
    }
    Variable::from_string(name, var.sort.clone())
}

/// The instructions that save the variables: `_RB_v := v` for each `v`, as pseudo
/// instructions.
pub fn save_variables(vars: &Vec<Variable>) -> (r: Vec<Instruction>)
    ensures
        Seq::new(r@.len(), |i: int| r@[i]@) == save_instructions(variable_views_of(vars@)),
{
    let mut out: Vec<Instruction> = Vec::new();
    let mut i: usize = 0;
    while i < vars.len()
        invariant
            0 <= i <= vars@.len(),
            out@.len() == i,
            Seq::new(out@.len(), |j: int| out@[j]@) == save_instructions(variable_views_of(vars@.take(i as int))),
        decreases vars@.len() - i,
    {
        let saved = saved_variable_for(&vars[i]);
        let inst = match Instruction::assign(saved, Expression::variable(vars[i].clone())) {
            Ok(inst) => inst.into_pseudo(),
            Err(_) => {
                proof {
                    assert(false);
                }
                Instruction::skip()
            },
        };
        let ghost o = out@;
        let ghost iv = inst@;
        proof {
            assert(iv == save_instructions(variable_views_of(vars@.take(i + 1)))[i as int]);
        }
        out.push(inst);
        proof {
            assert forall|j: int| 0 <= j < o.len() implies out@[j]@ == save_instructions(variable_views_of(vars@.take(i + 1)))[j] by {
                assert(out@[j] == o[j]);
                assert(Seq::new(o.len(), |jj: int| o[jj]@)[j] == save_instructions(variable_views_of(vars@.take(i as int)))[j]);
                assert(vars@.take(i + 1)[j] == vars@.take(i as int)[j]);
            }
            assert(Seq::new(out@.len(), |j: int| out@[j]@) =~= save_instructions(variable_views_of(vars@.take(i + 1))));
        }
        i += 1;
    }
    proof {
        assert(vars@.take(vars@.len() as int) =~= vars@);
    }
    out
}

/// The instructions that restore the variables: `v := _RB_v` for each `v`, as pseudo
/// instructions.
pub fn restore_variables(vars: &Vec<Variable>) -> (r: Vec<Instruction>)
    ensures
        Seq::new(r@.len(), |i: int| r@[i]@) == restore_instructions(variable_views_of(vars@)),
{
    let mut out: Vec<Instruction> = Vec::new();
    let mut i: usize = 0;
    while i < vars.len()
        invariant
            0 <= i <= vars@.len(),
            out@.len() == i,
            Seq::new(out@.len(), |j: int| out@[j]@) == restore_instructions(variable_views_of(vars@.take(i as int))),
        decreases vars@.len() - i,
    {
        let saved = saved_variable_for(&vars[i]);
        let inst = match Instruction::assign(vars[i].clone(), Expression::variable(saved)) {
            Ok(inst) => inst.into_pseudo(),
            Err(_) => {
                proof {
                    assert(false);
                }
                Instruction::skip()
            },
        };
        let ghost o = out@;
        let ghost iv = inst@;
        proof {
            assert(iv == restore_instructions(variable_views_of(vars@.take(i + 1)))[i as int]);
        }
        out.push(inst);
        proof {
            assert forall|j: int| 0 <= j < o.len() implies out@[j]@ == restore_instructions(variable_views_of(vars@.take(i + 1)))[j] by {
                assert(out@[j] == o[j]);
                assert(Seq::new(o.len(), |jj: int| o[jj]@)[j] == restore_instructions(variable_views_of(vars@.take(i as int)))[j]);
                assert(vars@.take(i + 1)[j] == vars@.take(i as int)[j]);
            }
            assert(Seq::new(out@.len(), |j: int| out@[j]@) =~= restore_instructions(variable_views_of(vars@.take(i + 1))));
        }
        i += 1;
    }
    proof {
        assert(vars@.take(vars@.len() as int) =~= vars@);
    }
    out
}

} // verus!
