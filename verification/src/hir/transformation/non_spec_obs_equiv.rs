//! Observational equivalence without speculation: each microarchitectural component (a
//! rollback-persistent variable) gets a non-speculative counterpart named with the suffix
//! `_ns`. Outside transient blocks, each instruction on components is repeated on the
//! counterparts, and each observation requires the counterparts to be indistinguishable; at
//! the entry, the counterparts start equal to the components.
use crate::error::Error;
use crate::hir::transformation::initial_state::append_to_entry;
use crate::hir::transformation::{entry_error, has_entry_block, lemma_prefixed_step, prefixed, pseudo, with_entry_appended};
use crate::hir::{
    block_views, operation_read, operation_written, Block, BlockView, ControlFlowGraph, GraphView, Instruction,
    InstructionView, Operation, OperationView,
};
use crate::ir::Transform;
use crate::lir::{variable_view, Expression, ExpressionView, Operator, OperatorView, Variable, VariableView};
use vstd::prelude::*;
use vstd::string::StringExecFns;

verus! {

/// Adds the non-speculative observational-equivalence constraints.
#[derive(Clone, Copy, Debug, PartialEq, Eq, Structural)]
pub struct NonSpecObsEquivalence {}

/// The non-speculative counterpart of a component variable; other variables stay.
pub open spec fn nonspec_variable(v: VariableView) -> VariableView {
    if v.rollback_persistent {
        VariableView { name: v.name + "_ns"@, sort: v.sort, rollback_persistent: false, version: None }
    } else {
        v
    }
}

/// The expression with each component variable replaced by its counterpart.
pub open spec fn nonspec_expression(e: ExpressionView) -> ExpressionView
    decreases e,
{
    match e.operator {
        OperatorView::Variable(v) => ExpressionView {
            operator: OperatorView::Variable(nonspec_variable(v)),
            operands: e.operands,
            sort: e.sort,
        },
        _ => ExpressionView {
            operator: e.operator,
            operands: Seq::new(
                e.operands.len(),
                |i: int|
                    if 0 <= i < e.operands.len() {
                        nonspec_expression(e.operands[i])
                    } else {
                        arbitrary()
                    },
            ),
            sort: e.sort,
        },
    }
}

/// The operation with each component variable it reads or writes replaced by its counterpart.
pub open spec fn nonspec_operation(op: OperationView) -> OperationView {
    match op {
        OperationView::Assign { variable, expr } => OperationView::Assign {
            variable: nonspec_variable(variable),
            expr: nonspec_expression(expr),
        },
        OperationView::Store { address, expr } => OperationView::Store {
            address: nonspec_expression(address),
            expr: nonspec_expression(expr),
        },
        OperationView::Load { variable, address } => OperationView::Load {
            variable: nonspec_variable(variable),
            address: nonspec_expression(address),
        },
        OperationView::Call { target } => OperationView::Call { target: nonspec_expression(target) },
        OperationView::Branch { target } => OperationView::Branch { target: nonspec_expression(target) },
        OperationView::ConditionalBranch { condition, target } => OperationView::ConditionalBranch {
            condition: nonspec_expression(condition),
            target: nonspec_expression(target),
        },
        OperationView::Observable { expr } => OperationView::Observable { expr: nonspec_expression(expr) },
        OperationView::Indistinguishable { expr } => OperationView::Indistinguishable { expr: nonspec_expression(expr) },
        OperationView::Assert { condition } => OperationView::Assert { condition: nonspec_expression(condition) },
        OperationView::Assume { condition } => OperationView::Assume { condition: nonspec_expression(condition) },
        OperationView::Skip => OperationView::Skip,
        OperationView::Barrier => OperationView::Barrier,
    }
}

/// The variables an operation reads, then those it writes.
pub open spec fn operation_variables(op: OperationView) -> Seq<VariableView> {
    operation_read(op) + operation_written(op)
}

/// Whether the operation reads or writes a component.
pub open spec fn mentions_component(op: OperationView) -> bool {
    exists|k: int| 0 <= k < operation_variables(op).len() && (#[trigger] operation_variables(op)[k]).rollback_persistent
}

/// The instruction placed before `i`: for an observation, the requirement that its
/// expression over the counterparts is indistinguishable; for another instruction on
/// components, a copy on the counterparts.
pub open spec fn nonspec_prefix(i: InstructionView) -> Seq<InstructionView> {
    match i.operation {
        OperationView::Observable { expr } => seq![
            pseudo(OperationView::Indistinguishable { expr: nonspec_expression(expr) }),
        ],
        _ => if mentions_component(i.operation) {
            seq![InstructionView { operation: nonspec_operation(i.operation), pseudo: true, ..i }]
        } else {
            Seq::empty()
        },
    }
}

/// `nonspec_prefix` as a function.
pub open spec fn nonspec_prefixes() -> spec_fn(InstructionView) -> Seq<InstructionView> {
    |i: InstructionView| nonspec_prefix(i)
}

/// The graph with the counterpart instructions placed in every block that is not transient.
pub open spec fn with_nonspec_blocks(g: GraphView) -> GraphView {
    GraphView {
        blocks: Seq::new(
            g.blocks.len(),
            |p: int|
                if g.blocks[p].transient {
                    g.blocks[p]
                } else {
                    BlockView { instructions: prefixed(g.blocks[p].instructions, nonspec_prefixes()), ..g.blocks[p] }
                },
        ),
        ..g
    }
}

/// The variables of the operations of `insts`, instruction after instruction.
pub open spec fn instructions_variables(insts: Seq<InstructionView>) -> Seq<VariableView>
    decreases insts.len(),
{
    if insts.len() == 0 {
        Seq::empty()
    } else {
        instructions_variables(insts.drop_last()) + operation_variables(insts.last().operation)
    }
}

/// The variables of the operations of the blocks, block after block.
pub open spec fn blocks_variables(bs: Seq<BlockView>) -> Seq<VariableView>
    decreases bs.len(),
{
    if bs.len() == 0 {
        Seq::empty()
    } else {
        blocks_variables(bs.drop_last()) + instructions_variables(bs.last().instructions)
    }
}

/// The components among `s`, each once, in the order of first occurrence.
pub open spec fn distinct_components(s: Seq<VariableView>) -> Seq<VariableView>
    decreases s.len(),
{
    if s.len() == 0 {
        Seq::empty()
    } else {
        let d = distinct_components(s.drop_last());
        if s.last().rollback_persistent && !d.contains(s.last()) {
            d.push(s.last())
        } else {
            d
        }
    }
}

/// The assignments that start each counterpart of `vars` equal to its component.
pub open spec fn nonspec_initialization(vars: Seq<VariableView>) -> Seq<InstructionView> {
    Seq::new(
        vars.len(),
        |j: int| pseudo(OperationView::Assign { variable: nonspec_variable(vars[j]), expr: variable_view(vars[j]) }),
    )
}

/// The graph after the transformation, and whether it succeeded: the counterpart
/// instructions are placed, then the initialization of the counterparts of the components of
/// `g` is appended to the entry block, which must exist.
pub open spec fn nonspec_outcome(g: GraphView) -> (GraphView, Result<(), Error>) {
    let g1 = with_nonspec_blocks(g);
    if has_entry_block(g1) {
        (with_entry_appended(g1, nonspec_initialization(distinct_components(blocks_variables(g.blocks)))), Ok(()))
    } else {
        (g1, Err(entry_error(g1)))
    }
}

/// The counterpart of `v`.
fn nonspec_var(v: &Variable) -> (r: Variable)
    ensures
        r@ == nonspec_variable(v@),
{
    if v.rollback_persistent {
        proof {
            reveal_strlit("_ns");
        }
        Variable::from_string(v.name.clone().concat("_ns"), v.sort.clone())
    } else {
        v.clone()
    }
}

/// The expression over the counterparts.
fn nonspec_expr(e: &Expression) -> (r: Expression)
    ensures
        r@ == nonspec_expression(e@),
    decreases e,
{
    match &e.operator {
        Operator::Variable(v) => {
            let mut r = e.clone();
            let ghost operands = r@.operands;
            r.operator = Operator::Variable(nonspec_var(v));
            assert(r@.operands =~= operands);
            r
        },
        _ => {
            let mut operands: Vec<Expression> = Vec::new();
            let mut i: usize = 0;
            while i < e.operands.len()
                invariant
                    0 <= i <= e.operands@.len(),
                    operands@.len() == i,
                    forall|j: int| 0 <= j < i ==> (#[trigger] operands@[j])@ == nonspec_expression(e.operands@[j]@),
                decreases e.operands@.len() - i,
            {
                proof {
                    assert(decreases_to!(e => e.operands@[i as int]));
                }
                operands.push(nonspec_expr(&e.operands[i]));
                i += 1;
            }
            let r = Expression { operator: e.operator.clone(), operands, sort: e.sort.clone() };
            assert(r@.operands =~= nonspec_expression(e@).operands);
            r
        },
    }
}

/// The operation on the counterparts.
fn nonspec_op(op: &Operation) -> (r: Operation)
    ensures
        r@ == nonspec_operation(op@),
{
    match op {
        Operation::Assign { variable, expr } => Operation::Assign { variable: nonspec_var(variable), expr: nonspec_expr(expr) },
        Operation::Store { address, expr } => Operation::Store { address: nonspec_expr(address), expr: nonspec_expr(expr) },
        Operation::Load { variable, address } => Operation::Load {
            variable: nonspec_var(variable),
            address: nonspec_expr(address),
        },
        Operation::Call { target } => Operation::Call { target: nonspec_expr(target) },
        Operation::Branch { target } => Operation::Branch { target: nonspec_expr(target) },
        Operation::ConditionalBranch { condition, target } => Operation::ConditionalBranch {
            condition: nonspec_expr(condition),
            target: nonspec_expr(target),
        },
        Operation::Observable { expr } => Operation::Observable { expr: nonspec_expr(expr) },
        Operation::Indistinguishable { expr } => Operation::Indistinguishable { expr: nonspec_expr(expr) },
        Operation::Assert { condition } => Operation::Assert { condition: nonspec_expr(condition) },
        Operation::Assume { condition } => Operation::Assume { condition: nonspec_expr(condition) },
        Operation::Skip => Operation::Skip,
        Operation::Barrier => Operation::Barrier,
    }
}

/// The variables of the operation, read then written.
fn variables_of_operation(op: &Operation) -> (r: Vec<Variable>)
    ensures
        Seq::new(r@.len(), |i: int| r@[i]@) == operation_variables(op@),
{
    let read = op.variables_read();
    let written = op.variables_written();
    let mut out: Vec<Variable> = Vec::new();
    let mut i: usize = 0;
    while i < read.len()
        invariant
            0 <= i <= read@.len(),
            out@.len() == i,
            forall|j: int| 0 <= j < i ==> (#[trigger] out@[j])@ == read@[j]@,
        decreases read@.len() - i,
    {
        out.push(read[i].clone());
        i += 1;
    }
    let mut k: usize = 0;
    while k < written.len()
        invariant
            0 <= k <= written@.len(),
            out@.len() == read@.len() + k,
            forall|j: int| 0 <= j < read@.len() ==> (#[trigger] out@[j])@ == read@[j]@,
            forall|j: int| 0 <= j < k ==> (#[trigger] out@[read@.len() + j])@ == written@[j]@,
        decreases written@.len() - k,
    {
        out.push(written[k].clone());
        k += 1;
    }
    proof {
        assert forall|j: int| 0 <= j < out@.len() implies out@[j]@ == operation_variables(op@)[j] by {
            if j >= read@.len() {
                assert(out@[read@.len() + (j - read@.len())]@ == written@[j - read@.len()]@);
            }
        }
        assert(Seq::new(out@.len(), |i: int| out@[i]@) =~= operation_variables(op@));
    }
    out
}

/// Whether the operation reads or writes a component.
fn mentions_component_exec(op: &Operation) -> (r: bool)
    ensures
        r == mentions_component(op@),
{
    let vars = variables_of_operation(op);
    let ghost vs = Seq::new(vars@.len(), |i: int| vars@[i]@);
    let mut i: usize = 0;
    while i < vars.len()
        invariant
            0 <= i <= vars@.len(),
            vs == Seq::new(vars@.len(), |i: int| vars@[i]@),
            vs == operation_variables(op@),
            forall|j: int| 0 <= j < i ==> !(#[trigger] vs[j]).rollback_persistent,
        decreases vars@.len() - i,
    {
        if vars[i].rollback_persistent {
            assert(vs[i as int].rollback_persistent);
            return true;
        }
        i += 1;
    }
    false
}

/// The instruction placed before `inst`, if any.
fn nonspec_instruction(inst: &Instruction) -> (r: Vec<Instruction>)
    ensures
        Seq::new(r@.len(), |i: int| r@[i]@) == nonspec_prefix(inst@),
{
    let mut out: Vec<Instruction> = Vec::new();
    match &inst.operation {
        Operation::Observable { expr } => {
            out.push(Instruction::indistinguishable(nonspec_expr(expr)).into_pseudo());
        },
        _ => {
            if mentions_component_exec(&inst.operation) {
                let mut copy = inst.clone();
                copy.operation = nonspec_op(&inst.operation);
                copy.pseudo = true;
                out.push(copy);
            }
        },
    }
    assert(Seq::new(out@.len(), |i: int| out@[i]@) =~= nonspec_prefix(inst@));
    out
}

/// Places the counterpart instructions in `block`.
fn nonspec_block(block: &mut Block)
    ensures
        final(block)@ == (BlockView { instructions: prefixed(old(block)@.instructions, nonspec_prefixes()), ..old(block)@ }),
{
    let ghost b0 = block@;
    let n = block.instructions.len();
    let mut out: Vec<Instruction> = Vec::new();
    let mut k: usize = 0;
    while k < n
        invariant
            0 <= k <= n,
            n == b0.instructions.len(),
            block@ == b0,
            Seq::new(out@.len(), |i: int| out@[i]@) == prefixed(b0.instructions.take(k as int), nonspec_prefixes()),
        decreases n - k,
    {
        proof {
            lemma_prefixed_step(b0.instructions, nonspec_prefixes(), k as int);
            assert(block.instructions@[k as int]@ == b0.instructions[k as int]);
        }
        let mut before = nonspec_instruction(&block.instructions[k]);
        let ghost a = out@;
        let ghost b = before@;
        out.append(&mut before);
        out.push(block.instructions[k].clone());
        proof {
            assert(Seq::new(out@.len(), |i: int| out@[i]@) =~= prefixed(b0.instructions.take(k + 1), nonspec_prefixes()));
        }
        k += 1;
    }
    proof {
        assert(b0.instructions.take(n as int) =~= b0.instructions);
    }
    block.instructions = out;
}

/// The variables of the operations of the blocks, block after block.
fn graph_variables(blocks: &Vec<Block>) -> (r: Vec<Variable>)
    ensures
        Seq::new(r@.len(), |i: int| r@[i]@) == blocks_variables(block_views(blocks@)),
{
    let ghost bs = block_views(blocks@);
    let mut out: Vec<Variable> = Vec::new();
    let mut p: usize = 0;
    while p < blocks.len()
        invariant
            0 <= p <= blocks@.len(),
            bs == block_views(blocks@),
            Seq::new(out@.len(), |i: int| out@[i]@) == blocks_variables(bs.take(p as int)),
        decreases blocks@.len() - p,
    {
        let ghost insts = bs[p as int].instructions;
        let ghost start = Seq::new(out@.len(), |i: int| out@[i]@);
        let mut k: usize = 0;
        while k < blocks[p].instructions.len()
            invariant
                0 <= p < blocks@.len(),
                bs == block_views(blocks@),
                insts == bs[p as int].instructions,
                0 <= k <= insts.len(),
                insts.len() == blocks@[p as int].instructions@.len(),
                start == blocks_variables(bs.take(p as int)),
                Seq::new(out@.len(), |i: int| out@[i]@) == start + instructions_variables(insts.take(k as int)),
            decreases insts.len() - k,
        {
            proof {
                assert(insts.take(k + 1).drop_last() =~= insts.take(k as int));
                assert(blocks@[p as int].instructions@[k as int]@ == insts[k as int]);
            }
            let mut vars = variables_of_operation(&blocks[p].instructions[k].operation);
            let ghost a = out@;
            let ghost b = vars@;
            out.append(&mut vars);
            proof {
                assert(Seq::new(out@.len(), |i: int| out@[i]@) =~= Seq::new(a.len(), |i: int| a[i]@) + Seq::new(
                    b.len(),
                    |i: int| b[i]@,
                ));
                assert(Seq::new(out@.len(), |i: int| out@[i]@) =~= start + instructions_variables(insts.take(k + 1)));
            }
            k += 1;
        }
        proof {
            assert(insts.take(insts.len() as int) =~= insts);
            assert(bs.take(p + 1).drop_last() =~= bs.take(p as int));
        }
        p += 1;
    }
    proof {
        assert(bs.take(blocks@.len() as int) =~= bs);
    }
    out
}

/// The components among `vars`, each once, in the order of first occurrence.
fn components_of(vars: &Vec<Variable>) -> (r: Vec<Variable>)
    ensures
        Seq::new(r@.len(), |i: int| r@[i]@) == distinct_components(Seq::new(vars@.len(), |i: int| vars@[i]@)),
{
    let ghost s = Seq::new(vars@.len(), |i: int| vars@[i]@);
    let mut out: Vec<Variable> = Vec::new();
    let mut j: usize = 0;
    while j < vars.len()
        invariant
            0 <= j <= vars@.len(),
            s == Seq::new(vars@.len(), |i: int| vars@[i]@),
            Seq::new(out@.len(), |i: int| out@[i]@) == distinct_components(s.take(j as int)),
        decreases vars@.len() - j,
    {
        let ghost d = Seq::new(out@.len(), |i: int| out@[i]@);
        proof {
            assert(s.take(j + 1).drop_last() =~= s.take(j as int));
            assert(s.take(j + 1).last() == vars@[j as int]@);
        }
        if vars[j].rollback_persistent {
            let mut seen = false;
            let mut i: usize = 0;
            while i < out.len()
                invariant
                    0 <= i <= out@.len(),
                    0 <= j < vars@.len(),
                    d == Seq::new(out@.len(), |i: int| out@[i]@),
                    seen <==> exists|k: int| 0 <= k < i && d[k] == vars@[j as int]@,
                decreases out@.len() - i,
            {
                if out[i].equals(&vars[j]) {
                    assert(d[i as int] == vars@[j as int]@);
                    seen = true;
                }
                i += 1;
            }
            proof {
                if d.contains(vars@[j as int]@) {
                    let k = choose|k: int| 0 <= k < d.len() && d[k] == vars@[j as int]@;
                    assert(d[k] == vars@[j as int]@);
                }
            }
            if !seen {
                out.push(vars[j].clone());
                proof {
                    assert(Seq::new(out@.len(), |i: int| out@[i]@) =~= d.push(vars@[j as int]@));
                }
            }
        }
        j += 1;
    }
    proof {
        assert(s.take(vars@.len() as int) =~= s);
    }
    out
}

/// Places the counterpart instructions in every block that is not transient.
fn nonspec_blocks(cfg: &mut ControlFlowGraph)
    ensures
        final(cfg)@ == with_nonspec_blocks(old(cfg)@),
{
    let ghost g0 = cfg@;
    let n = cfg.blocks.len();
    let mut p: usize = 0;
    while p < n
        invariant
            0 <= p <= n,
            n == g0.blocks.len(),
            cfg.blocks@.len() == n,
            cfg@.edges == g0.edges,
            cfg.entry == g0.entry,
            cfg.exit == g0.exit,
            cfg.next_index == g0.next_index,
            forall|j: int| 0 <= j < p ==> #[trigger] cfg@.blocks[j] == with_nonspec_blocks(g0).blocks[j],
            forall|j: int| p <= j < n ==> #[trigger] cfg@.blocks[j] == g0.blocks[j],
        decreases n - p,
    {
        let ghost gbefore = cfg@;
        let ghost before = cfg.blocks@;
        proof {
            assert(gbefore.blocks[p as int] == g0.blocks[p as int]);
            assert(gbefore.blocks[p as int] == before[p as int]@);
        }
        if !cfg.blocks[p].transient {
            let mut block = cfg.blocks.remove(p);
            nonspec_block(&mut block);
            cfg.blocks.insert(p, block);
            assert(cfg.blocks@ =~= before.update(p as int, block));
        }
        proof {
            assert forall|j: int| 0 <= j < p + 1 implies #[trigger] cfg@.blocks[j] == with_nonspec_blocks(g0).blocks[j] by {
                if j < p {
                    assert(gbefore.blocks[j] == with_nonspec_blocks(g0).blocks[j]);
                }
            }
            assert forall|j: int| p + 1 <= j < n implies #[trigger] cfg@.blocks[j] == g0.blocks[j] by {
                assert(gbefore.blocks[j] == g0.blocks[j]);
            }
        }
        p += 1;
    }
    assert(cfg@.blocks =~= with_nonspec_blocks(g0).blocks);
}

/// The assignments that start each counterpart equal to its component.
fn nonspec_init(components: &Vec<Variable>) -> (r: Vec<Instruction>)
    ensures
        Seq::new(r@.len(), |i: int| r@[i]@) == nonspec_initialization(Seq::new(components@.len(), |i: int| components@[i]@)),
{
    let mut init: Vec<Instruction> = Vec::new();
    let ghost cs = Seq::new(components@.len(), |i: int| components@[i]@);
    let mut j: usize = 0;
    while j < components.len()
        invariant
            0 <= j <= components@.len(),
            cs == Seq::new(components@.len(), |i: int| components@[i]@),
            init@.len() == j,
            forall|k: int| 0 <= k < j ==> (#[trigger] init@[k])@ == nonspec_initialization(cs)[k],
        decreases components@.len() - j,
    {
        let v = &components[j];
        init.push(
            Instruction::new(Operation::Assign { variable: nonspec_var(v), expr: Expression::variable(v.clone()) }).into_pseudo(),
        );
        j += 1;
    }
    assert(Seq::new(init@.len(), |i: int| init@[i]@) =~= nonspec_initialization(cs));
    init
}

impl Transform<ControlFlowGraph> for NonSpecObsEquivalence {
    fn name(&self) -> (r: &'static str)
        ensures
            r@ == "NonSpecObsEquivalence"@,
    {
        "NonSpecObsEquivalence"
    }

    fn description(&self) -> (r: &'static str)
        ensures
            r@ == "Add non-speculative observational equivalence constraints"@,
    {
        "Add non-speculative observational equivalence constraints"
    }

    /// Places the counterpart instructions in every block that is not transient, then starts
    /// the counterparts equal to the components at the entry; see `nonspec_outcome`.
    fn transform(&self, cfg: &mut ControlFlowGraph) -> (r: Result<(), Error>)
        ensures
            (final(cfg)@, r) == nonspec_outcome(old(cfg)@),
    {
        let ghost g0 = cfg@;
        let all = graph_variables(&cfg.blocks);
        let components = components_of(&all);
        nonspec_blocks(cfg);
        let init = nonspec_init(&components);
        let ghost iv = Seq::new(init@.len(), |i: int| init@[i]@);
        proof {
            assert(iv == nonspec_initialization(distinct_components(blocks_variables(g0.blocks))));
        }
        append_to_entry(cfg, init)?;
        Ok(())
    }
}

} // verus!
