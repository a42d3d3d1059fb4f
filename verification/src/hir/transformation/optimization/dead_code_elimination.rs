//! Dead code elimination on control-flow graphs, mark and sweep: the phi nodes and
//! instructions that are needed (the instructions that write nothing or have effects, and,
//! transitively, the last definitions of the variables that needed phi nodes, needed
//! instructions and edge conditions read) are marked; all others are removed. The graph is
//! expected to be in static single assignment form.
use crate::error::Error;
use crate::hir::transformation::optimization::Optimization;
use crate::hir::{
    block_views, instruction_views, operation_read, operation_written, phi_node_views, phi_read, Block, BlockView,
    ControlFlowGraph, EdgeView, GraphView, Instruction, InstructionView, PhiNode, PhiNodeView,
};
use crate::lir::optimization::OptimizationResult;
use crate::lir::{variables_of, Variable, VariableView};
use vstd::prelude::*;

verus! {

/// Dead code elimination of control-flow graphs.
#[derive(Debug, Clone, Copy, PartialEq, Eq, Structural)]
pub struct DeadCodeElimination {}

/// A place where variables are defined: a phi node or an instruction.
pub enum SiteView {
    Phi(PhiNodeView),
    Inst(InstructionView),
}

/// The sites of a block: its phi nodes, then its instructions.
pub open spec fn block_sites(b: BlockView) -> Seq<SiteView> {
    b.phi_nodes.map_values(|p: PhiNodeView| SiteView::Phi(p)) + b.instructions.map_values(
        |i: InstructionView| SiteView::Inst(i),
    )
}

/// The sites of the blocks `bs`, one block after the other.
pub open spec fn flat_sites(bs: Seq<BlockView>) -> Seq<SiteView>
    decreases bs.len(),
{
    if bs.len() == 0 {
        Seq::empty()
    } else {
        flat_sites(bs.drop_last()) + block_sites(bs.last())
    }
}

/// The variables a site writes: the variable of a phi node, those an instruction writes.
pub open spec fn site_written(s: SiteView) -> Seq<VariableView> {
    match s {
        SiteView::Phi(p) => seq![p.out],
        SiteView::Inst(i) => operation_written(i.operation),
    }
}

/// The variables a site reads: the incoming variables of a phi node, those an instruction
/// reads.
pub open spec fn site_read(s: SiteView) -> Seq<VariableView> {
    match s {
        SiteView::Phi(p) => phi_read(p),
        SiteView::Inst(i) => operation_read(i.operation),
    }
}

/// A critical site is never removed: an instruction that writes nothing or has effects.
/// Phi nodes are not critical.
pub open spec fn dce_critical(s: SiteView) -> bool {
    match s {
        SiteView::Phi(_) => false,
        SiteView::Inst(i) => operation_written(i.operation).len() == 0 || i.effects.len() > 0,
    }
}

/// Site `j` of `flat` is the last one that writes `v`.
pub open spec fn last_writer(flat: Seq<SiteView>, j: int, v: VariableView) -> bool {
    &&& 0 <= j < flat.len()
    &&& site_written(flat[j]).contains(v)
    &&& forall|k: int| j < k < flat.len() ==> !site_written(#[trigger] flat[k]).contains(v)
}

/// Site `j` is the last writer of a variable that site `i` reads.
pub open spec fn needs(flat: Seq<SiteView>, i: int, j: int) -> bool {
    exists|m: int| 0 <= m < site_read(flat[i]).len() && last_writer(flat, j, #[trigger] site_read(flat[i])[m])
}

/// The variables the condition of an edge reads.
pub open spec fn edge_reads(e: EdgeView) -> Seq<VariableView> {
    match e.condition {
        Some(c) => variables_of(c),
        None => Seq::empty(),
    }
}

/// Site `j` is the last writer of a variable that the condition of an edge reads.
pub open spec fn edge_needs(edges: Seq<EdgeView>, flat: Seq<SiteView>, j: int) -> bool {
    exists|e: int, m: int|
        0 <= e < edges.len() && 0 <= m < edge_reads(edges[e]).len() && last_writer(
            flat,
            j,
            #[trigger] edge_reads(edges[e])[m],
        )
}

/// `marks` marks the least set of sites of `flat` that holds every critical one, every one
/// an edge condition needs, and, with each, those it needs. The unmarked sites are dead:
/// every phi node and every instruction that is not critical and defines no needed variable.
pub open spec fn needed_marks(edges: Seq<EdgeView>, flat: Seq<SiteView>, marks: Seq<bool>) -> bool {
    &&& marks.len() == flat.len()
    &&& forall|i: int| 0 <= i < flat.len() && dce_critical(flat[i]) ==> #[trigger] marks[i]
    &&& forall|j: int| 0 <= j < flat.len() && edge_needs(edges, flat, j) ==> #[trigger] marks[j]
    &&& forall|i: int, j: int| 0 <= i < flat.len() && marks[i] && #[trigger] needs(flat, i, j) ==> #[trigger] marks[j]
    &&& exists|rank: Seq<nat>| #[trigger] rank.len() == flat.len() && forall|j: int|
        0 <= j < flat.len() && #[trigger] marks[j] && !dce_critical(flat[j]) && !edge_needs(edges, flat, j)
            ==> exists|i: int| 0 <= i < flat.len() && marks[i] && rank[i] < rank[j] && #[trigger] needs(flat, i, j)
}

/// The items whose mark is set, in order.
pub open spec fn kept_items<A>(items: Seq<A>, marks: Seq<bool>) -> Seq<A>
    decreases items.len(),
{
    if items.len() == 0 {
        Seq::empty()
    } else {
        let rest = kept_items(items.drop_last(), marks);
        if marks[items.len() - 1] {
            rest.push(items.last())
        } else {
            rest
        }
    }
}

/// The position of the first site of block `p` among the sites of `bs`.
pub open spec fn offset(bs: Seq<BlockView>, p: int) -> nat {
    flat_sites(bs.take(p)).len()
}

/// Block `p` of `bs` with the phi nodes and instructions kept whose marks (counted over all
/// sites of `bs`) are set.
pub open spec fn swept_block(bs: Seq<BlockView>, marks: Seq<bool>, p: int) -> BlockView {
    let o = offset(bs, p) as int;
    let np = bs[p].phi_nodes.len() as int;
    BlockView {
        phi_nodes: kept_items(bs[p].phi_nodes, marks.subrange(o, o + np)),
        instructions: kept_items(bs[p].instructions, marks.subrange(o + np, o + np + bs[p].instructions.len())),
        ..bs[p]
    }
}

/// The graph with the phi nodes and instructions kept whose marks are set.
pub open spec fn swept(g: GraphView, marks: Seq<bool>) -> GraphView {
    GraphView { blocks: Seq::new(g.blocks.len(), |p: int| swept_block(g.blocks, marks, p)), ..g }
}

/// The sites of one more block follow those before it.
proof fn lemma_flat_take(bs: Seq<BlockView>, p: int)
    requires
        0 <= p < bs.len(),
    ensures
        flat_sites(bs.take(p + 1)) == flat_sites(bs.take(p)) + block_sites(bs[p]),
{
    assert(bs.take(p + 1).drop_last() =~= bs.take(p));
}

/// A phi node or an instruction of a block.
enum Site {
    Phi(PhiNode),
    Inst(Instruction),
}

impl Site {
    spec fn view(&self) -> SiteView {
        match self {
            Site::Phi(p) => SiteView::Phi(p@),
            Site::Inst(i) => SiteView::Inst(i@),
        }
    }

    fn is_critical(&self) -> (r: bool)
        ensures
            r == dce_critical(self@),
    {
        match self {
            Site::Phi(_) => false,
            Site::Inst(i) => i.variables_written().len() == 0 || i.has_effects(),
        }
    }

    fn writes(&self) -> (r: Vec<&Variable>)
        ensures
            r@.len() == site_written(self@).len(),
            forall|m: int| 0 <= m < r@.len() ==> (#[trigger] r@[m])@ == site_written(self@)[m],
    {
        match self {
            Site::Phi(p) => {
                let r = vec![p.out()];
                assert(site_written(self@) =~= seq![p@.out]);
                r
            },
            Site::Inst(i) => i.variables_written(),
        }
    }

    fn reads(&self) -> (r: Vec<&Variable>)
        ensures
            r@.len() == site_read(self@).len(),
            forall|m: int| 0 <= m < r@.len() ==> (#[trigger] r@[m])@ == site_read(self@)[m],
    {
        match self {
            Site::Phi(p) => p.incoming_variables(),
            Site::Inst(i) => i.variables_read(),
        }
    }
}

/// The views of a sequence of sites.
spec fn site_views(s: Seq<Site>) -> Seq<SiteView> {
    Seq::new(s.len(), |i: int| s[i]@)
}

/// All sites of the blocks, one block after the other.
fn flatten(cfg: &ControlFlowGraph) -> (r: Vec<Site>)
    ensures
        site_views(r@) == flat_sites(cfg@.blocks),
{
    let ghost bs = cfg@.blocks;
    let mut r: Vec<Site> = Vec::new();
    let mut p: usize = 0;
    proof {
        assert(bs.take(0) =~= Seq::<BlockView>::empty());
        assert(site_views(r@) =~= Seq::<SiteView>::empty());
    }
    while p < cfg.blocks.len()
        invariant
            0 <= p <= cfg.blocks@.len(),
            bs == cfg@.blocks,
            site_views(r@) == flat_sites(bs.take(p as int)),
        decreases cfg.blocks@.len() - p,
    {
        let ghost before = site_views(r@);
        let block = &cfg.blocks[p];
        let ghost b = bs[p as int];
        proof {
            assert(block@ == b);
        }
        let mut k: usize = 0;
        while k < block.phi_nodes.len()
            invariant
                0 <= k <= block.phi_nodes@.len(),
                block@ == b,
                site_views(r@) == before + b.phi_nodes.take(k as int).map_values(|q: PhiNodeView| SiteView::Phi(q)),
            decreases block.phi_nodes@.len() - k,
        {
            let ghost mid = site_views(r@);
            r.push(Site::Phi(block.phi_nodes[k].clone()));
            proof {
                assert(site_views(r@) =~= mid.push(SiteView::Phi(block.phi_nodes@[k as int]@)));
                assert(b.phi_nodes[k as int] == block.phi_nodes@[k as int]@);
                assert(b.phi_nodes.take(k + 1).map_values(|q: PhiNodeView| SiteView::Phi(q)) =~= b.phi_nodes.take(
                    k as int,
                ).map_values(|q: PhiNodeView| SiteView::Phi(q)).push(SiteView::Phi(b.phi_nodes[k as int])));
            }
            k += 1;
        }
        proof {
            assert(b.phi_nodes.take(block.phi_nodes@.len() as int) =~= b.phi_nodes);
        }
        let ghost middle = site_views(r@);
        let mut i: usize = 0;
        while i < block.instructions.len()
            invariant
                0 <= i <= block.instructions@.len(),
                block@ == b,
                site_views(r@) == middle + b.instructions.take(i as int).map_values(
                    |x: InstructionView| SiteView::Inst(x),
                ),
            decreases block.instructions@.len() - i,
        {
            let ghost mid = site_views(r@);
            r.push(Site::Inst(block.instructions[i].clone()));
            proof {
                assert(site_views(r@) =~= mid.push(SiteView::Inst(block.instructions@[i as int]@)));
                assert(b.instructions[i as int] == block.instructions@[i as int]@);
                assert(b.instructions.take(i + 1).map_values(|x: InstructionView| SiteView::Inst(x))
                    =~= b.instructions.take(i as int).map_values(|x: InstructionView| SiteView::Inst(x)).push(
                    SiteView::Inst(b.instructions[i as int]),
                ));
            }
            i += 1;
        }
        proof {
            assert(b.instructions.take(block.instructions@.len() as int) =~= b.instructions);
            assert(site_views(r@) =~= before + block_sites(b));
            lemma_flat_take(bs, p as int);
        }
        p += 1;
    }
    proof {
        assert(bs.take(bs.len() as int) =~= bs);
    }
    r
}

/// Whether `site` writes `var`.
fn writes_variable(site: &Site, var: &Variable) -> (r: bool)
    ensures
        r == site_written(site@).contains(var@),
{
    let written = site.writes();
    let mut i: usize = 0;
    while i < written.len()
        invariant
            0 <= i <= written@.len(),
            written@.len() == site_written(site@).len(),
            forall|m: int| 0 <= m < written@.len() ==> (#[trigger] written@[m])@ == site_written(site@)[m],
            forall|m: int| 0 <= m < i ==> site_written(site@)[m] != var@,
        decreases written@.len() - i,
    {
        if written[i].equals(var) {
            assert(site_written(site@)[i as int] == var@);
            return true;
        }
        i += 1;
    }
    false
}

/// The position of the last instruction of `flat` that writes `var`.
fn find_last_writer(flat: &Vec<Site>, var: &Variable) -> (r: Option<usize>)
    ensures
        r matches Some(j) ==> last_writer(site_views(flat@), j as int, var@),
        r is None ==> forall|k: int|
            0 <= k < flat@.len() ==> !site_written(#[trigger] site_views(flat@)[k]).contains(var@),
{
    let ghost v = site_views(flat@);
    let mut j: usize = flat.len();
    while j > 0
        invariant
            0 <= j <= flat@.len(),
            v == site_views(flat@),
            forall|k: int| j <= k < flat@.len() ==> !site_written(#[trigger] v[k]).contains(var@),
        decreases j,
    {
        j -= 1;
        if writes_variable(&flat[j], var) {
            return Some(j);
        }
    }
    None
}

/// Marks `j` and queues it, if it is not marked yet.
fn mark_one(marks: &mut Vec<bool>, queue: &mut Vec<usize>, j: usize)
    requires
        j < old(marks)@.len(),
    ensures
        final(marks)@ == old(marks)@.update(j as int, true),
        old(marks)@[j as int] ==> final(queue)@ == old(queue)@,
        !old(marks)@[j as int] ==> final(queue)@ == old(queue)@.push(j),
{
    if !marks[j] {
        marks.set(j, true);
        queue.push(j);
    } else {
        assert(marks@ =~= marks@.update(j as int, true));
    }
}

/// Whether `q` holds `k`.
proof fn lemma_queue_keeps(old_queue: Seq<usize>, queue: Seq<usize>, k: usize)
    requires
        old_queue.contains(k),
        forall|q: int| 0 <= q < old_queue.len() ==> queue[q] == old_queue[q],
        queue.len() >= old_queue.len(),
    ensures
        queue.contains(k),
{
    let q = choose|q: int| 0 <= q < old_queue.len() && old_queue[q] == k;
    assert(queue[q] == k);
}

/// The marks of the instructions that are needed (see `needed_marks`).
fn mark(cfg: &ControlFlowGraph, flat: &Vec<Site>) -> (r: Vec<bool>)
    ensures
        needed_marks(cfg@.edges, site_views(flat@), r@),
{
    let ghost v = site_views(flat@);
    let ghost edges = cfg@.edges;
    let n = flat.len();
    let mut marks: Vec<bool> = Vec::new();
    let mut queue: Vec<usize> = Vec::new();
    let mut i: usize = 0;
    while i < n
        invariant
            0 <= i <= n,
            n == flat@.len(),
            v == site_views(flat@),
            marks@.len() == i,
            forall|k: int| 0 <= k < i ==> (#[trigger] marks@[k] <==> dce_critical(v[k])),
            forall|q: int| 0 <= q < queue@.len() ==> #[trigger] queue@[q] < i && marks@[queue@[q] as int],
            forall|k: int| 0 <= k < i && dce_critical(v[k]) ==> queue@.contains(k as usize),
        decreases n - i,
    {
        let critical = flat[i].is_critical();
        proof {
            assert(v[i as int] == flat@[i as int]@);
        }
        let ghost old_queue = queue@;
        marks.push(critical);
        if critical {
            queue.push(i);
        }
        proof {
            assert forall|k: int| 0 <= k < i + 1 && dce_critical(v[k]) implies queue@.contains(k as usize) by {
                if k == i {
                    assert(queue@[old_queue.len() as int] == k as usize);
                } else {
                    lemma_queue_keeps(old_queue, queue@, k as usize);
                }
            }
        }
        i += 1;
    }
    // The instructions that edge conditions need are roots, too.
    let mut e: usize = 0;
    while e < cfg.edges.len()
        invariant
            0 <= e <= cfg.edges@.len(),
            n == flat@.len(),
            v == site_views(flat@),
            edges == cfg@.edges,
            marks@.len() == n,
            forall|k: int| 0 <= k < n && dce_critical(v[k]) ==> #[trigger] marks@[k],
            forall|q: int| 0 <= q < queue@.len() ==> #[trigger] queue@[q] < n && marks@[queue@[q] as int],
            forall|k: int| 0 <= k < n && #[trigger] marks@[k] ==> queue@.contains(k as usize),
            forall|k: int| 0 <= k < n && #[trigger] marks@[k] ==> dce_critical(v[k]) || edge_needs(edges, v, k),
            forall|x: int, m: int, j: int|
                0 <= x < e && 0 <= m < edge_reads(edges[x]).len() && #[trigger] last_writer(v, j, edge_reads(edges[x])[m])
                    ==> marks@[j],
        decreases cfg.edges@.len() - e,
    {
        proof {
            assert(cfg.edges@[e as int]@ == edges[e as int]);
        }
        match &cfg.edges[e].condition {
            None => {},
            Some(c) => {
                let reads = c.variables();
                let mut m: usize = 0;
                while m < reads.len()
                    invariant
                        0 <= m <= reads@.len(),
                        e < edges.len(),
                        n == flat@.len(),
                        v == site_views(flat@),
                        edges[e as int].condition == Some(c@),
                        reads@.len() == variables_of(c@).len(),
                        forall|k: int| 0 <= k < reads@.len() ==> (#[trigger] reads@[k])@ == variables_of(c@)[k],
                        marks@.len() == n,
                        forall|k: int| 0 <= k < n && dce_critical(v[k]) ==> #[trigger] marks@[k],
                        forall|q: int| 0 <= q < queue@.len() ==> #[trigger] queue@[q] < n && marks@[queue@[q] as int],
                        forall|k: int| 0 <= k < n && #[trigger] marks@[k] ==> queue@.contains(k as usize),
                        forall|k: int| 0 <= k < n && #[trigger] marks@[k] ==> dce_critical(v[k]) || edge_needs(edges, v, k),
                        forall|x: int, mm: int, j: int|
                            0 <= x < e && 0 <= mm < edge_reads(edges[x]).len() && #[trigger] last_writer(v, j, edge_reads(edges[x])[mm]) ==> marks@[j],
                        forall|mm: int, j: int|
                            0 <= mm < m && #[trigger] last_writer(v, j, edge_reads(edges[e as int])[mm]) ==> marks@[j],
                    decreases reads@.len() - m,
                {
                    let var = reads[m];
                    match find_last_writer(flat, var) {
                        Some(j) => {
                            let ghost old_marks = marks@;
                            let ghost old_queue = queue@;
                            mark_one(&mut marks, &mut queue, j);
                            proof {
                                assert(edge_reads(edges[e as int])[m as int] == var@);
                                assert(last_writer(v, j as int, edge_reads(edges[e as int])[m as int]));
                                assert(edge_needs(edges, v, j as int));
                                assert forall|k: int| 0 <= k < n && #[trigger] marks@[k] implies queue@.contains(k as usize) by {
                                    if k == j && !old_marks[k] {
                                        assert(queue@[old_queue.len() as int] == k as usize);
                                    } else {
                                        assert(old_marks[k]);
                                        lemma_queue_keeps(old_queue, queue@, k as usize);
                                    }
                                }
                                assert forall|mm: int, jj: int|
                                    0 <= mm < m + 1 && #[trigger] last_writer(v, jj, edge_reads(edges[e as int])[mm])
                                        implies marks@[jj] by {
                                    if mm == m {
                                        if jj != j {
                                            if jj < j {
                                                assert(site_written(v[j as int]).contains(var@));
                                            } else {
                                                assert(site_written(v[jj]).contains(var@));
                                            }
                                        }
                                    }
                                }
                            }
                        },
                        None => {
                            proof {
                                assert forall|jj: int| last_writer(v, jj, edge_reads(edges[e as int])[m as int]) implies false by {
                                    assert(site_written(v[jj]).contains(var@));
                                }
                            }
                        },
                    }
                    m += 1;
                }
            },
        }
        proof {
            assert forall|x: int, m: int, j: int|
                0 <= x < e + 1 && 0 <= m < edge_reads(edges[x]).len() && #[trigger] last_writer(v, j, edge_reads(edges[x])[m])
                    implies marks@[j] by {
                if x == e {
                    if edges[x].condition is None {
                        assert(edge_reads(edges[x]).len() == 0);
                    }
                }
            }
        }
        e += 1;
    }
    proof {
        assert forall|j: int| 0 <= j < n && edge_needs(edges, v, j) implies #[trigger] marks@[j] by {
            let (x, m) = choose|x: int, m: int|
                0 <= x < edges.len() && 0 <= m < edge_reads(edges[x]).len() && #[trigger] last_writer(v, j, edge_reads(edges[x])[m]);
        }
    }
    let ghost roots = marks@;
    let ghost mut rank: Seq<nat> = Seq::new(n as nat, |i: int| 0nat);
    let ghost mut marked: Set<int> = Set::new(|k: int| 0 <= k < n && marks@[k]);
    proof {
        assert(marked.subset_of(Set::new(|k: int| 0 <= k < n)));
        vstd::set_lib::lemma_int_range(0, n as int);
        assert(Set::new(|k: int| 0 <= k < n) =~= vstd::set_lib::set_int_range(0, n as int));
        vstd::set_lib::lemma_len_subset(marked, vstd::set_lib::set_int_range(0, n as int));
    }
    while queue.len() > 0
        invariant
            n == flat@.len(),
            v == site_views(flat@),
            marks@.len() == n,
            rank.len() == n,
            marked == Set::new(|k: int| 0 <= k < n && marks@[k]),
            marked.finite(),
            marked.len() <= n,
            forall|q: int| 0 <= q < queue@.len() ==> #[trigger] queue@[q] < n && marks@[queue@[q] as int],
            forall|k: int| 0 <= k < n && dce_critical(v[k]) ==> #[trigger] marks@[k],
            forall|j: int| 0 <= j < n && edge_needs(edges, v, j) ==> #[trigger] marks@[j],
            forall|k: int, j: int|
                0 <= k < n && marks@[k] && !queue@.contains(k as usize) && #[trigger] needs(v, k, j) ==> #[trigger] marks@[j],
            forall|j: int|
                0 <= j < n && #[trigger] marks@[j] && !dce_critical(v[j]) && !edge_needs(edges, v, j) ==> exists|k: int|
                    0 <= k < n && marks@[k] && rank[k] < rank[j] && #[trigger] needs(v, k, j),
        decreases n - marked.len(), queue@.len(),
    {
        let ghost full_queue = queue@;
        let index = queue.pop().unwrap();
        proof {
            assert forall|k: int| 0 <= k < n && #[trigger] full_queue.contains(k as usize) && k != index implies queue@.contains(
                k as usize,
            ) by {
                let q = choose|q: int| 0 <= q < full_queue.len() && full_queue[q] == k as usize;
                assert(full_queue[full_queue.len() - 1] == index);
                assert(queue@ =~= full_queue.drop_last());
                assert(q < queue@.len());
                assert(queue@[q] == k as usize);
            }
        }
        let reads = flat[index].reads();
        proof {
            assert(v[index as int] == flat@[index as int]@);
        }
        let ghost marked_before = marked;
        let ghost queue_after_pop = queue@;
        let mut u: usize = 0;
        while u < reads.len()
            invariant
                0 <= u <= reads@.len(),
                index < n,
                n == flat@.len(),
                v == site_views(flat@),
                reads@.len() == site_read(v[index as int]).len(),
                forall|m: int| 0 <= m < reads@.len() ==> (#[trigger] reads@[m])@ == site_read(v[index as int])[m],
                marks@.len() == n,
                rank.len() == n,
                marks@[index as int],
                marked == Set::new(|k: int| 0 <= k < n && marks@[k]),
                marked.finite(),
                marked.len() <= n,
                marked_before.subset_of(marked),
                marked.len() >= marked_before.len(),
                queue@.len() > queue_after_pop.len() ==> marked.len() > marked_before.len(),
                queue@.len() >= queue_after_pop.len(),
                forall|q: int| 0 <= q < queue_after_pop.len() ==> queue@[q] == queue_after_pop[q],
                forall|q: int| 0 <= q < queue@.len() ==> #[trigger] queue@[q] < n && marks@[queue@[q] as int],
                forall|k: int| 0 <= k < n && dce_critical(v[k]) ==> #[trigger] marks@[k],
                forall|j: int| 0 <= j < n && edge_needs(edges, v, j) ==> #[trigger] marks@[j],
                forall|k: int, j: int|
                    0 <= k < n && marks@[k] && !queue@.contains(k as usize) && k != index && #[trigger] needs(v, k, j)
                        ==> #[trigger] marks@[j],
                forall|m: int, j: int|
                    0 <= m < u && #[trigger] last_writer(v, j, site_read(v[index as int])[m]) ==> marks@[j],
                forall|j: int|
                    0 <= j < n && #[trigger] marks@[j] && !dce_critical(v[j]) && !edge_needs(edges, v, j) ==> exists|k: int|
                        0 <= k < n && marks@[k] && rank[k] < rank[j] && #[trigger] needs(v, k, j),
            decreases reads@.len() - u,
        {
            let var = reads[u];
            if let Some(def) = find_last_writer(flat, var) {
                if !marks[def] {
                    let ghost old_marks = marks@;
                    let ghost old_queue = queue@;
                    marks.set(def, true);
                    queue.push(def);
                    proof {
                        rank = rank.update(def as int, rank[index as int] + 1);
                        assert(needs(v, index as int, def as int)) by {
                            assert(last_writer(v, def as int, site_read(v[index as int])[u as int]));
                        }
                        let old_marked = marked;
                        marked = Set::new(|k: int| 0 <= k < n && marks@[k]);
                        assert(marked =~= old_marked.insert(def as int));
                        assert(marked.subset_of(Set::new(|k: int| 0 <= k < n)));
                        vstd::set_lib::lemma_int_range(0, n as int);
                        assert(Set::new(|k: int| 0 <= k < n) =~= vstd::set_lib::set_int_range(0, n as int));
                        vstd::set_lib::lemma_len_subset(marked, vstd::set_lib::set_int_range(0, n as int));
                        assert forall|j: int|
                            0 <= j < n && #[trigger] marks@[j] && !dce_critical(v[j]) && !edge_needs(edges, v, j)
                                implies exists|k: int| 0 <= k < n && marks@[k] && rank[k] < rank[j] && #[trigger] needs(v, k, j) by {
                            if j == def {
                                assert(marks@[index as int] && rank[index as int] < rank[j] && needs(v, index as int, j));
                            } else {
                                let k = choose|k: int| 0 <= k < n && old_marks[k] && rank[k] < rank[j] && #[trigger] needs(v, k, j);
                                assert(marks@[k] && rank[k] < rank[j] && needs(v, k, j));
                            }
                        }
                        assert forall|k: int, j: int|
                            0 <= k < n && marks@[k] && !queue@.contains(k as usize) && k != index
                                && #[trigger] needs(v, k, j) implies #[trigger] marks@[j] by {
                            if k != def {
                                if old_queue.contains(k as usize) {
                                    let q = choose|q: int| 0 <= q < old_queue.len() && old_queue[q] == k as usize;
                                    assert(queue@[q] == k as usize);
                                }
                            } else {
                                assert(queue@[queue@.len() - 1] == k as usize);
                            }
                        }
                    }
                }
            } else {
                proof {
                    assert forall|j: int| last_writer(v, j, site_read(v[index as int])[u as int]) implies false by {
                        assert(site_written(v[j]).contains(var@));
                    }
                }
            }
            u += 1;
        }
        proof {
            assert forall|k: int, j: int|
                0 <= k < n && marks@[k] && !queue@.contains(k as usize) && #[trigger] needs(v, k, j) implies #[trigger] marks@[j] by {
                if k == index {
                    let m = choose|m: int|
                        0 <= m < site_read(v[k]).len() && last_writer(
                            v,
                            j,
                            #[trigger] site_read(v[k])[m],
                        );
                    assert(last_writer(v, j, site_read(v[index as int])[m]));
                }
            }
            if queue@.len() == queue_after_pop.len() {
                assert(marked.len() >= marked_before.len());
            }
        }
    }
    proof {
        assert forall|k: int, j: int| 0 <= k < n && marks@[k] && #[trigger] needs(v, k, j) implies #[trigger] marks@[j] by {
            assert(!queue@.contains(k as usize));
        }
        assert(rank.len() == v.len());
    }
    marks
}

/// The instructions of `insts` whose marks, from position `start` of `marks` on, are set.
fn keep_marked(insts: &Vec<Instruction>, marks: &Vec<bool>, start: usize) -> (r: Vec<Instruction>)
    requires
        start + insts@.len() <= marks@.len(),
    ensures
        instruction_views(r@) == kept_items(instruction_views(insts@), marks@.subrange(start as int, start + insts@.len())),
{
    let ghost iv = instruction_views(insts@);
    let ghost ms = marks@.subrange(start as int, start + insts@.len());
    let total = marks.len();
    let mut r: Vec<Instruction> = Vec::new();
    let mut i: usize = 0;
    while i < insts.len()
        invariant
            0 <= i <= insts@.len(),
            start + insts@.len() <= marks@.len(),
            total == marks@.len(),
            iv == instruction_views(insts@),
            ms == marks@.subrange(start as int, start + insts@.len()),
            instruction_views(r@) == kept_items(iv.take(i as int), ms),
        decreases insts@.len() - i,
    {
        proof {
            assert(iv.take(i + 1).drop_last() =~= iv.take(i as int));
            assert(ms[i as int] == marks@[start + i]);
        }
        let ghost before = instruction_views(r@);
        if marks[start + i] {
            r.push(insts[i].clone());
            assert(instruction_views(r@) =~= before.push(iv[i as int]));
        }
        i += 1;
    }
    assert(iv.take(insts@.len() as int) =~= iv);
    r
}

/// The phi nodes of `phis` whose marks, from position `start` of `marks` on, are set.
fn keep_marked_phi_nodes(phis: &Vec<PhiNode>, marks: &Vec<bool>, start: usize) -> (r: Vec<PhiNode>)
    requires
        start + phis@.len() <= marks@.len(),
    ensures
        phi_node_views(r@) == kept_items(phi_node_views(phis@), marks@.subrange(start as int, start + phis@.len())),
{
    let ghost pv = phi_node_views(phis@);
    let ghost ms = marks@.subrange(start as int, start + phis@.len());
    let total = marks.len();
    let mut r: Vec<PhiNode> = Vec::new();
    let mut i: usize = 0;
    while i < phis.len()
        invariant
            0 <= i <= phis@.len(),
            start + phis@.len() <= marks@.len(),
            total == marks@.len(),
            pv == phi_node_views(phis@),
            ms == marks@.subrange(start as int, start + phis@.len()),
            phi_node_views(r@) == kept_items(pv.take(i as int), ms),
        decreases phis@.len() - i,
    {
        proof {
            assert(pv.take(i + 1).drop_last() =~= pv.take(i as int));
            assert(ms[i as int] == marks@[start + i]);
        }
        let ghost before = phi_node_views(r@);
        if marks[start + i] {
            r.push(phis[i].clone());
            assert(phi_node_views(r@) =~= before.push(pv[i as int]));
        }
        i += 1;
    }
    assert(pv.take(phis@.len() as int) =~= pv);
    r
}

/// Removes the phi nodes and instructions whose marks are not set (see `swept`).
fn sweep(cfg: &mut ControlFlowGraph, marks: &Vec<bool>)
    requires
        marks@.len() == flat_sites(old(cfg)@.blocks).len(),
    ensures
        final(cfg)@ == swept(old(cfg)@, marks@),
{
    let ghost g = cfg@;
    let ghost bs = g.blocks;
    let n = cfg.blocks.len();
    let total = marks.len();
    let mut blocks: Vec<Block> = Vec::new();
    let mut start: usize = 0;
    let mut p: usize = 0;
    proof {
        assert(bs.take(0) =~= Seq::<BlockView>::empty());
        assert(block_views(blocks@) =~= Seq::<BlockView>::empty());
    }
    while p < n
        invariant
            0 <= p <= n,
            n == bs.len(),
            g == cfg@,
            bs == g.blocks,
            marks@.len() == flat_sites(bs).len(),
            total == marks@.len(),
            start == offset(bs, p as int),
            block_views(blocks@) == Seq::new(p as nat, |q: int| swept_block(bs, marks@, q)),
        decreases n - p,
    {
        proof {
            lemma_flat_take(bs, p as int);
            lemma_flat_prefix_len(bs, p + 1);
            assert(cfg.blocks@[p as int]@ == bs[p as int]);
        }
        let block = &cfg.blocks[p];
        proof {
            assert(block_sites(bs[p as int]).len() == block.phi_nodes@.len() + block.instructions@.len());
        }
        let np = block.phi_nodes.len();
        let phi_nodes = keep_marked_phi_nodes(&block.phi_nodes, marks, start);
        let kept = keep_marked(&block.instructions, marks, start + np);
        let len = block.instructions.len();
        let ghost before = block_views(blocks@);
        blocks.push(Block { index: block.index, phi_nodes, instructions: kept, transient: block.transient });
        proof {
            assert(block_views(blocks@) =~= before.push(swept_block(bs, marks@, p as int)));
            assert(block_views(blocks@) =~= Seq::new((p + 1) as nat, |q: int| swept_block(bs, marks@, q)));
        }
        start = start + np + len;
        p += 1;
    }
    cfg.blocks = blocks;
    proof {
        assert(cfg@.blocks =~= swept(g, marks@).blocks);
        assert(cfg@ =~= swept(g, marks@));
    }
}

/// The sites before block `p` are no more than all of them.
proof fn lemma_flat_prefix_len(bs: Seq<BlockView>, p: int)
    requires
        0 <= p <= bs.len(),
    ensures
        flat_sites(bs.take(p)).len() <= flat_sites(bs).len(),
    decreases bs.len() - p,
{
    if p < bs.len() {
        lemma_flat_take(bs, p);
        lemma_flat_prefix_len(bs, p + 1);
    } else {
        assert(bs.take(p) =~= bs);
    }
}

/// A site marked by one least marking is marked by every other one.
proof fn lemma_marked_in_both(
    edges: Seq<EdgeView>,
    flat: Seq<SiteView>,
    m1: Seq<bool>,
    rank: Seq<nat>,
    m2: Seq<bool>,
    j: int,
)
    requires
        needed_marks(edges, flat, m2),
        m1.len() == flat.len(),
        rank.len() == flat.len(),
        forall|k: int|
            0 <= k < flat.len() && #[trigger] m1[k] && !dce_critical(flat[k]) && !edge_needs(edges, flat, k)
                ==> exists|i: int| 0 <= i < flat.len() && m1[i] && rank[i] < rank[k] && #[trigger] needs(flat, i, k),
        0 <= j < flat.len(),
        m1[j],
    ensures
        m2[j],
    decreases rank[j],
{
    if !dce_critical(flat[j]) && !edge_needs(edges, flat, j) {
        let i = choose|i: int| 0 <= i < flat.len() && m1[i] && rank[i] < rank[j] && #[trigger] needs(flat, i, j);
        lemma_marked_in_both(edges, flat, m1, rank, m2, i);
        assert(m2[i] && needs(flat, i, j));
    }
}

/// The needed sites are marked in one way only.
pub proof fn lemma_needed_marks_unique(edges: Seq<EdgeView>, flat: Seq<SiteView>, m1: Seq<bool>, m2: Seq<bool>)
    requires
        needed_marks(edges, flat, m1),
        needed_marks(edges, flat, m2),
    ensures
        m1 == m2,
{
    let r1 = choose|rank: Seq<nat>| #[trigger] rank.len() == flat.len() && forall|j: int|
        0 <= j < flat.len() && #[trigger] m1[j] && !dce_critical(flat[j]) && !edge_needs(edges, flat, j)
            ==> exists|i: int| 0 <= i < flat.len() && m1[i] && rank[i] < rank[j] && #[trigger] needs(flat, i, j);
    let r2 = choose|rank: Seq<nat>| #[trigger] rank.len() == flat.len() && forall|j: int|
        0 <= j < flat.len() && #[trigger] m2[j] && !dce_critical(flat[j]) && !edge_needs(edges, flat, j)
            ==> exists|i: int| 0 <= i < flat.len() && m2[i] && rank[i] < rank[j] && #[trigger] needs(flat, i, j);
    assert forall|j: int| 0 <= j < flat.len() implies m1[j] == m2[j] by {
        if m1[j] {
            lemma_marked_in_both(edges, flat, m1, r1, m2, j);
        }
        if m2[j] {
            lemma_marked_in_both(edges, flat, m2, r2, m1, j);
        }
    }
    assert(m1 =~= m2);
}

impl DeadCodeElimination {
    /// The optimization.
    pub fn new() -> (r: Self) {
        DeadCodeElimination {}
    }
}

impl Optimization for DeadCodeElimination {
    /// Removes every phi node and instruction that is not needed (see `needed_marks`).
    fn optimize(&self, cfg: &mut ControlFlowGraph) -> (r: Result<OptimizationResult, Error>)
        ensures
            exists|marks: Seq<bool>|
                #[trigger] needed_marks(old(cfg)@.edges, flat_sites(old(cfg)@.blocks), marks) && {
                    &&& (forall|i: int| 0 <= i < marks.len() ==> marks[i]) ==> r == Ok::<OptimizationResult, Error>(
                        OptimizationResult::Unchanged,
                    ) && final(cfg)@ == old(cfg)@
                    &&& !(forall|i: int| 0 <= i < marks.len() ==> marks[i]) ==> r == Ok::<
                        OptimizationResult,
                        Error,
                    >(OptimizationResult::Changed) && final(cfg)@ == swept(old(cfg)@, marks)
                },
    {
        let flat = flatten(cfg);
        let marks = mark(cfg, &flat);
        let mut all = true;
        let mut i: usize = 0;
        while i < marks.len()
            invariant
                0 <= i <= marks@.len(),
                all <==> forall|k: int| 0 <= k < i ==> marks@[k],
            decreases marks@.len() - i,
        {
            if !marks[i] {
                all = false;
            }
            i += 1;
        }
        if all {
            return Ok(OptimizationResult::Unchanged);
        }
        sweep(cfg, &marks);
        Ok(OptimizationResult::Changed)
    }
}

} // verus!
