//! Phi node elimination: a phi node whose incoming variables are all the same,
//! `x2 = phi[x1, x1, ..., x1]`, is replaced by the assignment `x2 := x1` at the top of its
//! block. The graph is expected to be in static single assignment form.
use crate::error::Error;
use crate::hir::transformation::optimization::Optimization;
use crate::hir::{
    instruction_views, phi_node_views, plain, Block, BlockView, ControlFlowGraph, GraphView, Instruction,
    InstructionView, OperationView, PhiNode, PhiNodeView,
};
use crate::lir::optimization::OptimizationResult;
use crate::lir::{variable_view, Expression};
use vstd::prelude::*;

verus! {

/// Phi node elimination of control-flow graphs.
#[derive(Debug, Clone, Copy, PartialEq, Eq, Structural)]
pub struct PhiElimination {}

/// Whether all incoming variables of the phi node are the same (so for none or one).
pub open spec fn all_same(p: PhiNodeView) -> bool {
    forall|i: int| 0 <= i < p.incoming.len() ==> #[trigger] p.incoming[i].0 == p.incoming[0].0
}

/// The assignment that replaces a phi node: its variable takes its first incoming variable.
pub open spec fn phi_assignment(p: PhiNodeView) -> InstructionView {
    plain(OperationView::Assign { variable: p.out, expr: variable_view(p.incoming[0].0) })
}

/// The phi nodes that stay: those whose incoming variables differ.
pub open spec fn necessary_phis(ps: Seq<PhiNodeView>) -> Seq<PhiNodeView>
    decreases ps.len(),
{
    if ps.len() == 0 {
        Seq::empty()
    } else if all_same(ps.last()) {
        necessary_phis(ps.drop_last())
    } else {
        necessary_phis(ps.drop_last()).push(ps.last())
    }
}

/// The assignments that replace the phi nodes whose incoming variables are all the same, in
/// the order of the phi nodes (a phi node without incoming variables is dropped).
pub open spec fn phi_assignments(ps: Seq<PhiNodeView>) -> Seq<InstructionView>
    decreases ps.len(),
{
    if ps.len() == 0 {
        Seq::empty()
    } else if all_same(ps.last()) && ps.last().incoming.len() > 0 {
        phi_assignments(ps.drop_last()).push(phi_assignment(ps.last()))
    } else {
        phi_assignments(ps.drop_last())
    }
}

/// The block with its unnecessary phi nodes replaced by assignments at its top.
pub open spec fn phi_eliminated_block(b: BlockView) -> BlockView {
    BlockView {
        phi_nodes: necessary_phis(b.phi_nodes),
        instructions: phi_assignments(b.phi_nodes) + b.instructions,
        ..b
    }
}

/// The graph with the unnecessary phi nodes of every block replaced.
pub open spec fn phis_eliminated(g: GraphView) -> GraphView {
    GraphView { blocks: Seq::new(g.blocks.len(), |p: int| phi_eliminated_block(g.blocks[p])), ..g }
}

/// Whether some phi node of the graph has all its incoming variables the same.
pub open spec fn has_unnecessary_phi(g: GraphView) -> bool {
    exists|p: int, k: int|
        0 <= p < g.blocks.len() && 0 <= k < g.blocks[p].phi_nodes.len() && #[trigger] all_same(
            g.blocks[p].phi_nodes[k],
        )
}

/// A phi node that would be replaced by an assignment of a variable of another sort.
pub open spec fn ill_sorted(p: PhiNodeView) -> bool {
    all_same(p) && p.incoming.len() > 0 && p.incoming[0].0.sort != p.out.sort
}

/// The last ill-sorted phi node of `ps`: the first one met when they are replaced from the
/// last to the first.
pub open spec fn first_ill_sorted_in(ps: Seq<PhiNodeView>) -> Option<PhiNodeView>
    decreases ps.len(),
{
    if ps.len() == 0 {
        None
    } else if ill_sorted(ps.last()) {
        Some(ps.last())
    } else {
        first_ill_sorted_in(ps.drop_last())
    }
}

/// The first ill-sorted phi node met when the blocks are visited in order.
pub open spec fn first_ill_sorted(bs: Seq<BlockView>) -> Option<PhiNodeView>
    decreases bs.len(),
{
    if bs.len() == 0 {
        None
    } else {
        match first_ill_sorted(bs.drop_last()) {
            Some(p) => Some(p),
            None => first_ill_sorted_in(bs.last().phi_nodes),
        }
    }
}

/// Whether all incoming variables of `phi` are the same.
fn is_all_same(phi: &PhiNode) -> (r: bool)
    ensures
        r == all_same(phi@),
{
    let n = phi.incoming.len();
    let mut i: usize = 1;
    if n == 0 {
        return true;
    }
    while i < n
        invariant
            1 <= i <= n,
            n == phi@.incoming.len(),
            forall|j: int| 0 <= j < i ==> #[trigger] phi@.incoming[j].0 == phi@.incoming[0].0,
        decreases n - i,
    {
        if !phi.incoming[i].0.equals(&phi.incoming[0].0) {
            assert(phi@.incoming[i as int].0 != phi@.incoming[0].0);
            return false;
        }
        i += 1;
    }
    true
}

/// The last ill-sorted phi node of `phis` (see `first_ill_sorted_in`).
fn find_ill_sorted_in(phis: &Vec<PhiNode>) -> (r: Option<&PhiNode>)
    ensures
        r matches Some(p) ==> first_ill_sorted_in(phi_node_views(phis@)) == Some(p@),
        r is None ==> first_ill_sorted_in(phi_node_views(phis@)) is None,
{
    let ghost pv = phi_node_views(phis@);
    let mut k: usize = phis.len();
    proof {
        assert(pv.take(phis@.len() as int) =~= pv);
    }
    while k > 0
        invariant
            0 <= k <= phis@.len(),
            pv == phi_node_views(phis@),
            first_ill_sorted_in(pv) == first_ill_sorted_in(pv.take(k as int)),
        decreases k,
    {
        let phi = &phis[k - 1];
        proof {
            assert(pv.take(k as int).drop_last() =~= pv.take(k - 1));
            assert(pv.take(k as int).last() == phi@);
        }
        if is_all_same(phi) && phi.incoming.len() > 0 && !phi.incoming[0].0.sort.equals(&phi.out.sort) {
            return Some(phi);
        }
        k -= 1;
    }
    None
}

/// The first ill-sorted phi node of the graph (see `first_ill_sorted`).
fn find_ill_sorted(cfg: &ControlFlowGraph) -> (r: Option<&PhiNode>)
    ensures
        r matches Some(p) ==> first_ill_sorted(cfg@.blocks) == Some(p@),
        r is None ==> first_ill_sorted(cfg@.blocks) is None,
{
    let ghost bs = cfg@.blocks;
    let mut p: usize = 0;
    proof {
        assert(bs.take(0) =~= Seq::<BlockView>::empty());
    }
    while p < cfg.blocks.len()
        invariant
            0 <= p <= cfg.blocks@.len(),
            bs == cfg@.blocks,
            first_ill_sorted(bs.take(p as int)) is None,
        decreases cfg.blocks@.len() - p,
    {
        proof {
            assert(bs.take(p + 1).drop_last() =~= bs.take(p as int));
            assert(bs.take(p + 1).last() == cfg.blocks@[p as int]@);
        }
        match find_ill_sorted_in(&cfg.blocks[p].phi_nodes) {
            Some(phi) => {
                proof {
                    lemma_first_ill_sorted_prefix(bs, p + 1);
                }
                return Some(phi);
            },
            None => {},
        }
        p += 1;
    }
    proof {
        assert(bs.take(bs.len() as int) =~= bs);
    }
    None
}

/// An ill-sorted phi node met first among the first blocks is met first among all.
proof fn lemma_first_ill_sorted_prefix(bs: Seq<BlockView>, p: int)
    requires
        0 <= p <= bs.len(),
        first_ill_sorted(bs.take(p)) is Some,
    ensures
        first_ill_sorted(bs) == first_ill_sorted(bs.take(p)),
    decreases bs.len() - p,
{
    if p < bs.len() {
        assert(bs.take(p + 1).drop_last() =~= bs.take(p));
        lemma_first_ill_sorted_prefix(bs, p + 1);
    } else {
        assert(bs.take(p) =~= bs);
    }
}

/// The block with its unnecessary phi nodes replaced (see `phi_eliminated_block`).
fn eliminate_in_block(b: &Block) -> (r: Block)
    requires
        first_ill_sorted_in(b@.phi_nodes) is None,
    ensures
        r@ == phi_eliminated_block(b@),
{
    let ghost pv = b@.phi_nodes;
    let mut kept: Vec<PhiNode> = Vec::new();
    let mut instructions: Vec<Instruction> = Vec::new();
    let mut k: usize = 0;
    proof {
        assert(pv.take(0) =~= Seq::<PhiNodeView>::empty());
        assert(pv.take(pv.len() as int) =~= pv);
        lemma_no_ill_sorted_prefix(pv, pv.len() as int);
    }
    while k < b.phi_nodes.len()
        invariant
            0 <= k <= b.phi_nodes@.len(),
            pv == b@.phi_nodes,
            forall|j: int| 0 <= j < pv.len() ==> !ill_sorted(#[trigger] pv[j]),
            phi_node_views(kept@) == necessary_phis(pv.take(k as int)),
            instruction_views(instructions@) == phi_assignments(pv.take(k as int)),
        decreases b.phi_nodes@.len() - k,
    {
        let phi = &b.phi_nodes[k];
        proof {
            assert(pv.take(k + 1).drop_last() =~= pv.take(k as int));
            assert(pv.take(k + 1).last() == phi@);
            assert(!ill_sorted(pv[k as int]));
        }
        let ghost kept_before = phi_node_views(kept@);
        let ghost insts_before = instruction_views(instructions@);
        if is_all_same(phi) {
            if phi.incoming.len() > 0 {
                let first = Expression::variable(phi.incoming[0].0.clone());
                let assignment = Instruction::assign(phi.out.clone(), first).unwrap();
                instructions.push(assignment);
                assert(instruction_views(instructions@) =~= insts_before.push(phi_assignment(phi@)));
            }
        } else {
            kept.push(phi.clone());
            assert(phi_node_views(kept@) =~= kept_before.push(phi@));
        }
        k += 1;
    }
    let ghost assignments = instruction_views(instructions@);
    let mut i: usize = 0;
    while i < b.instructions.len()
        invariant
            0 <= i <= b.instructions@.len(),
            instruction_views(instructions@) == assignments + b@.instructions.take(i as int),
        decreases b.instructions@.len() - i,
    {
        let ghost before = instruction_views(instructions@);
        instructions.push(b.instructions[i].clone());
        proof {
            assert(instruction_views(instructions@) =~= before.push(b@.instructions[i as int]));
            assert(b@.instructions.take(i + 1) =~= b@.instructions.take(i as int).push(b@.instructions[i as int]));
        }
        i += 1;
    }
    proof {
        assert(pv.take(pv.len() as int) =~= pv);
        assert(b@.instructions.take(b@.instructions.len() as int) =~= b@.instructions);
    }
    Block { index: b.index, phi_nodes: kept, instructions, transient: b.transient }
}

/// The phi node met first is ill-sorted.
proof fn lemma_first_ill_sorted_in_is_ill_sorted(ps: Seq<PhiNodeView>)
    ensures
        first_ill_sorted_in(ps) matches Some(p) ==> ill_sorted(p),
    decreases ps.len(),
{
    if ps.len() > 0 {
        lemma_first_ill_sorted_in_is_ill_sorted(ps.drop_last());
    }
}

/// The phi node met first in the graph is ill-sorted.
proof fn lemma_first_ill_sorted_is_ill_sorted(bs: Seq<BlockView>)
    ensures
        first_ill_sorted(bs) matches Some(p) ==> ill_sorted(p),
    decreases bs.len(),
{
    if bs.len() > 0 {
        lemma_first_ill_sorted_is_ill_sorted(bs.drop_last());
        lemma_first_ill_sorted_in_is_ill_sorted(bs.last().phi_nodes);
    }
}

/// Without an ill-sorted phi node met first, there is none at all.
proof fn lemma_no_ill_sorted_prefix(ps: Seq<PhiNodeView>, k: int)
    requires
        0 <= k <= ps.len(),
        first_ill_sorted_in(ps.take(k)) is None,
    ensures
        forall|j: int| 0 <= j < k ==> !ill_sorted(#[trigger] ps[j]),
    decreases k,
{
    if k > 0 {
        assert(ps.take(k).drop_last() =~= ps.take(k - 1));
        assert(ps.take(k).last() == ps[k - 1]);
        lemma_no_ill_sorted_prefix(ps, k - 1);
    }
}

/// Without an ill-sorted phi node in the graph, there is none in any block.
proof fn lemma_no_ill_sorted_block(bs: Seq<BlockView>, p: int)
    requires
        0 <= p < bs.len(),
        first_ill_sorted(bs) is None,
    ensures
        first_ill_sorted_in(bs[p].phi_nodes) is None,
    decreases bs.len(),
{
    if p < bs.len() - 1 {
        lemma_no_ill_sorted_block(bs.drop_last(), p);
    }
}

impl PhiElimination {
    /// The optimization.
    pub fn new() -> (r: Self) {
        PhiElimination {}
    }
}

impl Optimization for PhiElimination {
    /// Replaces every phi node whose incoming variables are all the same by an assignment at
    /// the top of its block; fails, changing nothing, where such an assignment would be
    /// ill-sorted.
    fn optimize(&self, cfg: &mut ControlFlowGraph) -> (r: Result<OptimizationResult, Error>)
        ensures
            first_ill_sorted(old(cfg)@.blocks) matches Some(p) ==> r == Err::<OptimizationResult, Error>(
                Error::ExpectedSort { expected: p.out.sort, actual: p.incoming[0].0.sort },
            ) && final(cfg)@ == old(cfg)@,
            first_ill_sorted(old(cfg)@.blocks) is None ==> r is Ok && final(cfg)@ == phis_eliminated(old(cfg)@),
            first_ill_sorted(old(cfg)@.blocks) is None ==> (r == Ok::<OptimizationResult, Error>(
                OptimizationResult::Changed,
            ) <==> has_unnecessary_phi(old(cfg)@)),
    {
        if let Some(phi) = find_ill_sorted(cfg) {
            proof {
                lemma_first_ill_sorted_is_ill_sorted(cfg@.blocks);
            }
            return Err(Error::ExpectedSort { expected: phi.out.sort.clone(), actual: phi.incoming[0].0.sort.clone() });
        }
        let ghost g = cfg@;
        let mut blocks: Vec<Block> = Vec::new();
        let mut changed = false;
        let mut p: usize = 0;
        while p < cfg.blocks.len()
            invariant
                0 <= p <= cfg.blocks@.len(),
                g == cfg@,
                first_ill_sorted(g.blocks) is None,
                blocks@.len() == p,
                forall|j: int| 0 <= j < p ==> (#[trigger] blocks@[j])@ == phi_eliminated_block(g.blocks[j]),
                changed == (exists|q: int, k: int|
                    0 <= q < p && 0 <= k < g.blocks[q].phi_nodes.len() && #[trigger] all_same(g.blocks[q].phi_nodes[k])),
            decreases cfg.blocks@.len() - p,
        {
            let b = &cfg.blocks[p];
            proof {
                assert(b@ == g.blocks[p as int]);
                lemma_no_ill_sorted_block(g.blocks, p as int);
            }
            let mut k: usize = 0;
            let mut here = false;
            while k < b.phi_nodes.len()
                invariant
                    0 <= k <= b.phi_nodes@.len(),
                    b@ == g.blocks[p as int],
                    here == (exists|kk: int| 0 <= kk < k && #[trigger] all_same(g.blocks[p as int].phi_nodes[kk])),
                decreases b.phi_nodes@.len() - k,
            {
                proof {
                    assert(b@.phi_nodes[k as int] == b.phi_nodes@[k as int]@);
                }
                if is_all_same(&b.phi_nodes[k]) {
                    here = true;
                }
                k += 1;
            }
            let nb = eliminate_in_block(b);
            blocks.push(nb);
            proof {
                if changed {
                    let (q, kk) = choose|q: int, kk: int|
                        0 <= q < p && 0 <= kk < g.blocks[q].phi_nodes.len() && #[trigger] all_same(
                            g.blocks[q].phi_nodes[kk],
                        );
                    assert(0 <= q < p + 1 && all_same(g.blocks[q].phi_nodes[kk]));
                }
                if here {
                    let kk = choose|kk: int| 0 <= kk < b@.phi_nodes.len() && #[trigger] all_same(g.blocks[p as int].phi_nodes[kk]);
                    assert(all_same(g.blocks[p as int].phi_nodes[kk]));
                }
            }
            changed = changed || here;
            p += 1;
        }
        cfg.blocks = blocks;
        proof {
            assert(cfg@.blocks =~= phis_eliminated(g).blocks);
            assert(cfg@ =~= phis_eliminated(g));
        }
        if changed {
            Ok(OptimizationResult::Changed)
        } else {
            Ok(OptimizationResult::Unchanged)
        }
    }
}

} // verus!
