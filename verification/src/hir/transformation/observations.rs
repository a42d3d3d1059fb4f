//! Observations: the attacker observes chosen variables where they are written, at the start
//! of blocks where control flow joins, and at the end of the program.
use crate::error::Error;
use crate::hir::transformation::{first_failure, lemma_first_failure, lemma_suffixed_step, pseudo, suffixed};
use crate::hir::{
    block_views, edge_views, Block, BlockView, ControlFlowGraph, Edge, EdgeView, GraphView, Instruction,
    InstructionView, Operation, OperationView,
};
use crate::ir::Transform;
use crate::lir::{variable_view, Expression, Variable, VariableView};
use vstd::prelude::*;

verus! {

/// Adds observations of the observable variables.
#[derive(Debug)]
pub struct Observations {
    pub observable_variables: Vec<Variable>,
    pub observe_variable_writes: bool,
    pub observe_at_control_flow_joins: bool,
    pub observe_at_end_of_program: bool,
}

impl Observations {
    /// The views of the observable variables.
    pub open spec fn observable_views(&self) -> Seq<VariableView> {
        Seq::new(self.observable_variables@.len(), |i: int| self.observable_variables@[i]@)
    }
}

/// The pseudo instruction that observes variable `v`.
pub open spec fn observe_view(v: VariableView) -> InstructionView {
    pseudo(OperationView::Observable { expr: variable_view(v) })
}

/// Observations of `vars`, in order.
pub open spec fn observe_all(vars: Seq<VariableView>) -> Seq<InstructionView> {
    Seq::new(vars.len(), |j: int| observe_view(vars[j]))
}

/// Observations of `vars`, in reverse order.
pub open spec fn observe_all_reversed(vars: Seq<VariableView>) -> Seq<InstructionView> {
    Seq::new(vars.len(), |j: int| observe_view(vars[vars.len() - 1 - j]))
}

/// The observation placed after `i`: of the variable it writes, if that is observable.
pub open spec fn write_observation(vars: Seq<VariableView>, i: InstructionView) -> Seq<InstructionView> {
    match i.operation {
        OperationView::Assign { variable, .. } => if vars.contains(variable) {
            seq![observe_view(variable)]
        } else {
            Seq::empty()
        },
        OperationView::Load { variable, .. } => if vars.contains(variable) {
            seq![observe_view(variable)]
        } else {
            Seq::empty()
        },
        _ => Seq::empty(),
    }
}

/// `write_observation` for `vars`.
pub open spec fn write_observations(vars: Seq<VariableView>) -> spec_fn(InstructionView) -> Seq<InstructionView> {
    |i: InstructionView| write_observation(vars, i)
}

/// The graph with each write of an observable variable observed right after it.
pub open spec fn observed_writes(g: GraphView, vars: Seq<VariableView>) -> GraphView {
    GraphView {
        blocks: Seq::new(
            g.blocks.len(),
            |p: int| BlockView { instructions: suffixed(g.blocks[p].instructions, write_observations(vars)), ..g.blocks[p] },
        ),
        ..g
    }
}

/// The number of edges of `edges` that enter block `b`.
pub open spec fn in_degree(edges: Seq<EdgeView>, b: usize) -> nat
    decreases edges.len(),
{
    if edges.len() == 0 {
        0
    } else {
        in_degree(edges.drop_last(), b) + if edges.last().tail == b {
            1nat
        } else {
            0nat
        }
    }
}

/// The graph with all observable variables observed, in reverse order, at the start of each
/// block that more than one edge enters.
pub open spec fn observed_joins(g: GraphView, vars: Seq<VariableView>) -> GraphView {
    GraphView {
        blocks: Seq::new(
            g.blocks.len(),
            |p: int|
                if in_degree(g.edges, g.blocks[p].index) > 1 {
                    BlockView { instructions: observe_all_reversed(vars) + g.blocks[p].instructions, ..g.blocks[p] }
                } else {
                    g.blocks[p]
                },
        ),
        ..g
    }
}

/// Whether block view `b` lacks index `e`.
pub open spec fn not_index(e: usize) -> spec_fn(BlockView) -> bool {
    |b: BlockView| b.index != e
}

/// Whether the exit block of `g` is set and exists.
pub open spec fn has_exit_block(g: GraphView) -> bool {
    g.exit matches Some(e) && exists|p: int| 0 <= p < g.blocks.len() && (#[trigger] g.blocks[p]).index == e
}

/// The error when the exit block of `g` is not set or does not exist.
pub open spec fn exit_error(g: GraphView) -> Error {
    match g.exit {
        Some(e) => Error::BlockNotFound(e),
        None => Error::NoExit,
    }
}

/// The graph with all observable variables observed, in order, at the end of the (first)
/// exit block.
pub open spec fn observed_end(g: GraphView, vars: Seq<VariableView>) -> GraphView {
    let p = first_failure(g.blocks, not_index(g.exit->Some_0));
    GraphView {
        blocks: g.blocks.update(p, BlockView { instructions: g.blocks[p].instructions + observe_all(vars), ..g.blocks[p] }),
        ..g
    }
}

/// The graph after the enabled kinds of observations, in the order writes, joins, end, and
/// whether they succeeded: observing at the end needs the exit block.
pub open spec fn observations_outcome(m: Observations, g: GraphView) -> (GraphView, Result<(), Error>) {
    let vars = m.observable_views();
    let g1 = if m.observe_variable_writes {
        observed_writes(g, vars)
    } else {
        g
    };
    let g2 = if m.observe_at_control_flow_joins {
        observed_joins(g1, vars)
    } else {
        g1
    };
    if !m.observe_at_end_of_program {
        (g2, Ok(()))
    } else if has_exit_block(g2) {
        (observed_end(g2, vars), Ok(()))
    } else {
        (g2, Err(exit_error(g2)))
    }
}

/// The observations of `vars`, in order.
fn observe_instructions(vars: &Vec<Variable>) -> (r: Vec<Instruction>)
    ensures
        Seq::new(r@.len(), |i: int| r@[i]@) == observe_all(Seq::new(vars@.len(), |i: int| vars@[i]@)),
{
    let mut out: Vec<Instruction> = Vec::new();
    let mut j: usize = 0;
    while j < vars.len()
        invariant
            0 <= j <= vars@.len(),
            out@.len() == j,
            forall|k: int| 0 <= k < j ==> (#[trigger] out@[k])@ == observe_view(vars@[k]@),
        decreases vars@.len() - j,
    {
        out.push(Instruction::observable(Expression::variable(vars[j].clone())).into_pseudo());
        j += 1;
    }
    assert(Seq::new(out@.len(), |i: int| out@[i]@) =~= observe_all(Seq::new(vars@.len(), |i: int| vars@[i]@)));
    out
}

/// The number of edges of `edges` that enter block `b`.
fn in_degree_of(edges: &Vec<Edge>, b: usize) -> (r: usize)
    ensures
        r == in_degree(edge_views(edges@), b),
{
    let mut count: usize = 0;
    let mut i: usize = 0;
    while i < edges.len()
        invariant
            0 <= i <= edges@.len(),
            count <= i,
            count == in_degree(edge_views(edges@).take(i as int), b),
        decreases edges@.len() - i,
    {
        proof {
            assert(edge_views(edges@).take(i + 1).drop_last() =~= edge_views(edges@).take(i as int));
        }
        if edges[i].tail == b {
            count += 1;
        }
        i += 1;
    }
    assert(edge_views(edges@).take(edges@.len() as int) =~= edge_views(edges@));
    count
}

/// The position of the first block with index `e`, if any.
pub(crate) fn find_block(blocks: &Vec<Block>, e: usize) -> (r: Option<usize>)
    ensures
        r is None <==> !(exists|p: int| 0 <= p < blocks@.len() && (#[trigger] block_views(blocks@)[p]).index == e),
        r matches Some(p) ==> p == first_failure(block_views(blocks@), not_index(e)) && p < blocks@.len(),
{
    let mut i: usize = 0;
    while i < blocks.len()
        invariant
            0 <= i <= blocks@.len(),
            forall|j: int| 0 <= j < i ==> (#[trigger] block_views(blocks@)[j]).index != e,
        decreases blocks@.len() - i,
    {
        if blocks[i].index == e {
            proof {
                assert(block_views(blocks@)[i as int].index == e);
                assert forall|j: int| 0 <= j < i implies (not_index(e))(#[trigger] block_views(blocks@)[j]) by {}
                lemma_first_failure(block_views(blocks@), not_index(e), i as int);
            }
            return Some(i);
        }
        i += 1;
    }
    None
}

impl Observations {
    /// Whether `v` is observable.
    fn is_observable(&self, v: &Variable) -> (r: bool)
        ensures
            r == self.observable_views().contains(v@),
    {
        let mut i: usize = 0;
        while i < self.observable_variables.len()
            invariant
                0 <= i <= self.observable_variables@.len(),
                forall|j: int| 0 <= j < i ==> self.observable_variables@[j]@ != v@,
            decreases self.observable_variables@.len() - i,
        {
            if self.observable_variables[i].equals(v) {
                assert(self.observable_views()[i as int] == v@);
                return true;
            }
            i += 1;
        }
        proof {
            if self.observable_views().contains(v@) {
                let j = choose|j: int| 0 <= j < self.observable_views().len() && self.observable_views()[j] == v@;
                assert(self.observable_variables@[j]@ == v@);
            }
        }
        false
    }

    /// The observation placed after `inst`, if any.
    fn write_observation_of(&self, inst: &Instruction) -> (r: Vec<Instruction>)
        ensures
            Seq::new(r@.len(), |i: int| r@[i]@) == write_observation(self.observable_views(), inst@),
    {
        let mut out: Vec<Instruction> = Vec::new();
        match &inst.operation {
            Operation::Assign { variable, .. } | Operation::Load { variable, .. } => {
                if self.is_observable(variable) {
                    out.push(Instruction::observable(Expression::variable(variable.clone())).into_pseudo());
                }
            },
            _ => {},
        }
        assert(Seq::new(out@.len(), |i: int| out@[i]@) =~= write_observation(self.observable_views(), inst@));
        out
    }

    /// Observes each write of an observable variable in `block` right after it.
    fn observe_writes_in_block(&self, block: &mut Block)
        ensures
            final(block)@ == (BlockView {
                instructions: suffixed(old(block)@.instructions, write_observations(self.observable_views())),
                ..old(block)@
            }),
    {
        let ghost b0 = block@;
        let ghost f = write_observations(self.observable_views());
        let n = block.instructions.len();
        let mut out: Vec<Instruction> = Vec::new();
        let mut k: usize = 0;
        while k < n
            invariant
                0 <= k <= n,
                n == b0.instructions.len(),
                block@ == b0,
                f == write_observations(self.observable_views()),
                Seq::new(out@.len(), |i: int| out@[i]@) == suffixed(b0.instructions.take(k as int), f),
            decreases n - k,
        {
            proof {
                lemma_suffixed_step(b0.instructions, f, k as int);
                assert(block.instructions@[k as int]@ == b0.instructions[k as int]);
            }
            let ghost before = out@;
            out.push(block.instructions[k].clone());
            let mut obs = self.write_observation_of(&block.instructions[k]);
            let ghost mid = out@;
            let ghost added = obs@;
            out.append(&mut obs);
            proof {
                assert(Seq::new(out@.len(), |i: int| out@[i]@) =~= suffixed(b0.instructions.take(k + 1), f));
            }
            k += 1;
        }
        proof {
            assert(b0.instructions.take(n as int) =~= b0.instructions);
        }
        block.instructions = out;
    }

    /// Observes each write of an observable variable right after it.
    fn place_observe_at_variable_writes(&self, cfg: &mut ControlFlowGraph)
        ensures
            final(cfg)@ == observed_writes(old(cfg)@, self.observable_views()),
    {
        let ghost g0 = cfg@;
        let n = cfg.blocks.len();
        let mut p: usize = 0;
        while p < n
            invariant
                0 <= p <= n,
                n == g0.blocks.len(),
                cfg.blocks@.len() == n,
                cfg@.edges == g0.edges,
                cfg.entry == g0.entry,
                cfg.exit == g0.exit,
                cfg.next_index == g0.next_index,
                g0 == old(cfg)@,
                forall|j: int| 0 <= j < p ==> #[trigger] cfg@.blocks[j] == observed_writes(g0, self.observable_views()).blocks[j],
                forall|j: int| p <= j < n ==> #[trigger] cfg@.blocks[j] == g0.blocks[j],
            decreases n - p,
        {
            let ghost gbefore = cfg@;
            let ghost before = cfg.blocks@;
            proof {
                assert(gbefore.blocks[p as int] == g0.blocks[p as int]);
                assert(gbefore.blocks[p as int] == before[p as int]@);
            }
            let mut block = cfg.blocks.remove(p);
            self.observe_writes_in_block(&mut block);
            cfg.blocks.insert(p, block);
            proof {
                assert(cfg.blocks@ =~= before.update(p as int, block));
                assert forall|j: int| 0 <= j < p + 1 implies #[trigger] cfg@.blocks[j] == observed_writes(
                    g0,
                    self.observable_views(),
                ).blocks[j] by {
                    if j < p {
                        assert(gbefore.blocks[j] == observed_writes(g0, self.observable_views()).blocks[j]);
                    }
                }
                assert forall|j: int| p + 1 <= j < n implies #[trigger] cfg@.blocks[j] == g0.blocks[j] by {
                    assert(gbefore.blocks[j] == g0.blocks[j]);
                }
            }
            p += 1;
        }
        assert(cfg@.blocks =~= observed_writes(g0, self.observable_views()).blocks);
    }

    /// Observes all observable variables, in reverse order, at the start of each block that
    /// more than one edge enters.
    fn place_observe_at_control_flow_joins(&self, cfg: &mut ControlFlowGraph)
        ensures
            final(cfg)@ == observed_joins(old(cfg)@, self.observable_views()),
    {
        let ghost g0 = cfg@;
        let ghost vars = self.observable_views();
        let n = cfg.blocks.len();
        let mut p: usize = 0;
        while p < n
            invariant
                0 <= p <= n,
                n == g0.blocks.len(),
                cfg.blocks@.len() == n,
                cfg@.edges == g0.edges,
                cfg.entry == g0.entry,
                cfg.exit == g0.exit,
                cfg.next_index == g0.next_index,
                g0 == old(cfg)@,
                vars == self.observable_views(),
                forall|j: int| 0 <= j < p ==> #[trigger] cfg@.blocks[j] == observed_joins(g0, vars).blocks[j],
                forall|j: int| p <= j < n ==> #[trigger] cfg@.blocks[j] == g0.blocks[j],
            decreases n - p,
        {
            let ghost gbefore = cfg@;
            let ghost before = cfg.blocks@;
            proof {
                assert(gbefore.blocks[p as int] == g0.blocks[p as int]);
                assert(gbefore.blocks[p as int] == before[p as int]@);
            }
            let degree = in_degree_of(&cfg.edges, cfg.blocks[p].index);
            if degree > 1 {
                let mut block = cfg.blocks.remove(p);
                let mut instructions: Vec<Instruction> = Vec::new();
                let m = self.observable_variables.len();
                let mut j: usize = 0;
                while j < m
                    invariant
                        0 <= j <= m,
                        m == vars.len(),
                        vars == self.observable_views(),
                        instructions@.len() == j,
                        forall|k: int| 0 <= k < j ==> (#[trigger] instructions@[k])@ == observe_view(vars[m - 1 - k]),
                    decreases m - j,
                {
                    let v = &self.observable_variables[m - 1 - j];
                    instructions.push(Instruction::observable(Expression::variable(v.clone())).into_pseudo());
                    j += 1;
                }
                let ghost prefix = instructions@;
                let ghost rest = block.instructions@;
                instructions.append(&mut block.instructions);
                block.instructions = instructions;
                proof {
                    assert(block@.instructions =~= observe_all_reversed(vars) + g0.blocks[p as int].instructions);
                }
                cfg.blocks.insert(p, block);
                assert(cfg.blocks@ =~= before.update(p as int, block));
            }
            proof {
                assert forall|j: int| 0 <= j < p + 1 implies #[trigger] cfg@.blocks[j] == observed_joins(g0, vars).blocks[j] by {
                    if j < p {
                        assert(gbefore.blocks[j] == observed_joins(g0, vars).blocks[j]);
                    }
                }
                assert forall|j: int| p + 1 <= j < n implies #[trigger] cfg@.blocks[j] == g0.blocks[j] by {
                    assert(gbefore.blocks[j] == g0.blocks[j]);
                }
            }
            p += 1;
        }
        assert(cfg@.blocks =~= observed_joins(g0, vars).blocks);
    }

    /// Observes all observable variables, in order, at the end of the exit block; fails if
    /// the exit block is not set or does not exist.
    fn place_observe_at_end_of_program(&self, cfg: &mut ControlFlowGraph) -> (r: Result<(), Error>)
        ensures
            r is Ok <==> has_exit_block(old(cfg)@),
            r is Ok ==> final(cfg)@ == observed_end(old(cfg)@, self.observable_views()),
            r is Err ==> final(cfg)@ == old(cfg)@ && r == Err::<(), Error>(exit_error(old(cfg)@)),
    {
        let e = cfg.exit()?;
        match find_block(&cfg.blocks, e) {
            None => Err(Error::BlockNotFound(e)),
            Some(p) => {
                let ghost g0 = cfg@;
                let mut block = cfg.blocks.remove(p);
                assert(block@ == g0.blocks[p as int]);
                let mut obs = observe_instructions(&self.observable_variables);
                let ghost rest = obs@;
                block.instructions.append(&mut obs);
                proof {
                    assert(block@.instructions =~= g0.blocks[p as int].instructions + observe_all(self.observable_views()));
                }
                cfg.blocks.insert(p, block);
                proof {
                    assert(cfg@.blocks =~= observed_end(g0, self.observable_views()).blocks);
                }
                Ok(())
            },
        }
    }
}

impl Transform<ControlFlowGraph> for Observations {
    fn name(&self) -> (r: &'static str)
        ensures
            r@ == "Observations"@,
    {
        "Observations"
    }

    fn description(&self) -> (r: &'static str)
        ensures
            r@ == "Add observations"@,
    {
        "Add observations"
    }

    /// Adds the enabled kinds of observations; see `observations_outcome`.
    fn transform(&self, cfg: &mut ControlFlowGraph) -> (r: Result<(), Error>)
        ensures
            (final(cfg)@, r) == observations_outcome(*self, old(cfg)@),
    {
        if self.observe_variable_writes {
            self.place_observe_at_variable_writes(cfg);
        }
        if self.observe_at_control_flow_joins {
            self.place_observe_at_control_flow_joins(cfg);
        }
        if self.observe_at_end_of_program {
            self.place_observe_at_end_of_program(cfg)?;
        }
        Ok(())
    }
}

} // verus!
