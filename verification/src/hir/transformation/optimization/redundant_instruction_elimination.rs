use crate::error::Error;
use crate::hir::{
    head_of, instruction_views, operation_written, BlockView, ControlFlowGraph, EdgeView, GraphView, Instruction,
    InstructionView,
};
use crate::lir::optimization::OptimizationResult;
use vstd::prelude::*;

verus! {

/// Redundant instruction elimination: visits the blocks in a topological order, computes the
/// instructions available at each block (those available at the end of every predecessor)
/// and removes each instruction that writes nothing and is available already. The graph is
/// expected to be acyclic and in static single assignment form.
#[derive(Debug, Clone, Copy, PartialEq, Eq, Structural)]
pub struct RedundantInstructionElimination {}

/// Whether instruction `i` writes a variable.
pub open spec fn writes(i: InstructionView) -> bool {
    operation_written(i.operation).len() > 0
}

/// The set of the instructions in `s`.
pub open spec fn view_set(s: Seq<InstructionView>) -> Set<InstructionView> {
    Set::new(|x: InstructionView| s.contains(x))
}

/// The instructions of `insts` that stay, and the instructions available after them, when
/// `avail` are available before: an instruction that writes nothing and is available is
/// dropped; the others stay, and those that write nothing become available.
pub open spec fn eliminated(insts: Seq<InstructionView>, avail: Set<InstructionView>) -> (
    Seq<InstructionView>,
    Set<InstructionView>,
)
    decreases insts.len(),
{
    if insts.len() == 0 {
        (Seq::empty(), avail)
    } else {
        let (kept, out) = eliminated(insts.drop_last(), avail);
        let i = insts.last();
        if writes(i) {
            (kept.push(i), out)
        } else if out.contains(i) {
            (kept, out)
        } else {
            (kept.push(i), out.insert(i))
        }
    }
}

/// The instructions available at the start of a block with predecessors `preds`: those
/// available at the end of all of them, none where there is no predecessor. `outs` holds the
/// instructions available at the end of each visited block, by block position; a predecessor
/// not visited yet is an error.
pub open spec fn available_in(g: GraphView, outs: Seq<Option<Set<InstructionView>>>, preds: Seq<usize>) -> Result<
    Set<InstructionView>,
    Error,
>
    decreases preds.len(),
{
    if preds.len() == 0 {
        Ok(Set::empty())
    } else {
        let p = preds.last();
        match available_in(g, outs, preds.drop_last()) {
            Err(e) => Err(e),
            Ok(s) => if !g.has_block(p) {
                Err(Error::BlockNotFound(p))
            } else {
                match outs[g.block_pos(p)] {
                    None => Err(Error::UnorderedPredecessor(p)),
                    Some(o) => if preds.len() == 1 {
                        Ok(o)
                    } else {
                        Ok(s.intersect(o))
                    },
                }
            },
        }
    }
}

/// The indices of the predecessors of block `b`, in the order of the edges.
pub open spec fn predecessors(g: GraphView, b: usize) -> Seq<usize> {
    g.in_edges(b).map_values(|e: EdgeView| head_of(e))
}

/// Visiting block `b`: the graph with the block's redundant instructions removed, the
/// available sets with the block's one recorded, and whether an instruction was removed.
pub open spec fn eliminated_at(g: GraphView, outs: Seq<Option<Set<InstructionView>>>, b: usize) -> Result<
    (GraphView, Seq<Option<Set<InstructionView>>>, bool),
    Error,
> {
    if !g.has_block(b) {
        Err(Error::BlockNotFound(b))
    } else {
        match available_in(g, outs, predecessors(g, b)) {
            Err(e) => Err(e),
            Ok(inp) => {
                let blk = g.block(b);
                let (kept, out) = eliminated(blk.instructions, inp);
                let changed = kept.len() != blk.instructions.len();
                Ok(
                    (
                        if changed {
                            g.with_block(b, BlockView { instructions: kept, ..blk })
                        } else {
                            g
                        },
                        outs.update(g.block_pos(b), Some(out)),
                        changed,
                    ),
                )
            },
        }
    }
}

/// Visiting the blocks of `order` in turn.
pub open spec fn eliminated_in_order(
    g: GraphView,
    outs: Seq<Option<Set<InstructionView>>>,
    order: Seq<usize>,
) -> Result<(GraphView, Seq<Option<Set<InstructionView>>>, bool), Error>
    decreases order.len(),
{
    if order.len() == 0 {
        Ok((g, outs, false))
    } else {
        match eliminated_in_order(g, outs, order.drop_last()) {
            Err(e) => Err(e),
            Ok((g1, o1, c1)) => match eliminated_at(g1, o1, order.last()) {
                Err(e) => Err(e),
                Ok((g2, o2, c2)) => Ok((g2, o2, c1 || c2)),
            },
        }
    }
}

/// The graph after redundant instruction elimination along `order`, and whether an
/// instruction was removed.
pub open spec fn redundancy_eliminated(g: GraphView, order: Seq<usize>) -> Result<(GraphView, bool), Error> {
    match eliminated_in_order(g, Seq::new(g.blocks.len(), |i: int| None::<Set<InstructionView>>), order) {
        Err(e) => Err(e),
        Ok((h, _outs, changed)) => Ok((h, changed)),
    }
}

/// A failure on a prefix of the predecessors is the failure on all of them.
proof fn lemma_available_in_prefix_err(
    g: GraphView,
    outs: Seq<Option<Set<InstructionView>>>,
    preds: Seq<usize>,
    k: int,
)
    requires
        0 <= k <= preds.len(),
        available_in(g, outs, preds.take(k)) is Err,
    ensures
        available_in(g, outs, preds) == available_in(g, outs, preds.take(k)),
    decreases preds.len() - k,
{
    if k < preds.len() {
        assert(preds.take(k + 1).drop_last() =~= preds.take(k));
        lemma_available_in_prefix_err(g, outs, preds, k + 1);
    } else {
        assert(preds.take(k) =~= preds);
    }
}

/// A failure on a prefix of the order is the failure on all of it.
proof fn lemma_in_order_prefix_err(
    g: GraphView,
    outs: Seq<Option<Set<InstructionView>>>,
    order: Seq<usize>,
    k: int,
)
    requires
        0 <= k <= order.len(),
        eliminated_in_order(g, outs, order.take(k)) is Err,
    ensures
        eliminated_in_order(g, outs, order) == eliminated_in_order(g, outs, order.take(k)),
    decreases order.len() - k,
{
    if k < order.len() {
        assert(order.take(k + 1).drop_last() =~= order.take(k));
        lemma_in_order_prefix_err(g, outs, order, k + 1);
    } else {
        assert(order.take(k) =~= order);
    }
}

/// Whether `list` holds an instruction equal to `inst`.
fn contains(list: &Vec<Instruction>, inst: &Instruction) -> (r: bool)
    ensures
        r == instruction_views(list@).contains(inst@),
{
    let mut i: usize = 0;
    while i < list.len()
        invariant
            0 <= i <= list@.len(),
            forall|j: int| 0 <= j < i ==> list@[j]@ != inst@,
        decreases list@.len() - i,
    {
        if list[i].equals(inst) {
            assert(instruction_views(list@)[i as int] == inst@);
            return true;
        }
        i += 1;
    }
    proof {
        if instruction_views(list@).contains(inst@) {
            let j = choose|j: int| 0 <= j < instruction_views(list@).len() && instruction_views(list@)[j] == inst@;
            assert(list@[j]@ == inst@);
        }
    }
    false
}

/// A copy of `list`.
fn copied(list: &Vec<Instruction>) -> (r: Vec<Instruction>)
    ensures
        instruction_views(r@) == instruction_views(list@),
{
    let mut r: Vec<Instruction> = Vec::new();
    let mut i: usize = 0;
    while i < list.len()
        invariant
            0 <= i <= list@.len(),
            instruction_views(r@) == instruction_views(list@).take(i as int),
        decreases list@.len() - i,
    {
        let ghost before = instruction_views(r@);
        r.push(list[i].clone());
        assert(instruction_views(r@) =~= before.push(list@[i as int]@));
        assert(instruction_views(r@) =~= instruction_views(list@).take(i + 1));
        i += 1;
    }
    assert(instruction_views(list@).take(list@.len() as int) =~= instruction_views(list@));
    r
}

/// Adding an instruction to a list adds it to the list's set.
proof fn lemma_view_set_push(s: Seq<InstructionView>, x: InstructionView)
    ensures
        view_set(s.push(x)) == view_set(s).insert(x),
{
    assert forall|y: InstructionView| #[trigger] s.push(x).contains(y) <==> (s.contains(y) || y == x) by {
        if s.push(x).contains(y) {
            let k = choose|k: int| 0 <= k < s.push(x).len() && s.push(x)[k] == y;
            if k < s.len() {
                assert(s[k] == y);
            }
        }
        if s.contains(y) {
            let k = choose|k: int| 0 <= k < s.len() && s[k] == y;
            assert(s.push(x)[k] == y);
        }
        if y == x {
            assert(s.push(x)[s.len() as int] == y);
        }
    }
    assert(view_set(s.push(x)) =~= view_set(s).insert(x));
}

/// The instructions of `a` that `b` holds too.
fn intersection(a: &Vec<Instruction>, b: &Vec<Instruction>) -> (r: Vec<Instruction>)
    ensures
        view_set(instruction_views(r@)) == view_set(instruction_views(a@)).intersect(view_set(instruction_views(b@))),
{
    let ghost av = instruction_views(a@);
    let ghost bv = instruction_views(b@);
    let mut r: Vec<Instruction> = Vec::new();
    let mut i: usize = 0;
    proof {
        assert(view_set(instruction_views(r@)) =~= view_set(av.take(0)).intersect(view_set(bv)));
    }
    while i < a.len()
        invariant
            0 <= i <= a@.len(),
            av == instruction_views(a@),
            bv == instruction_views(b@),
            view_set(instruction_views(r@)) == view_set(av.take(i as int)).intersect(view_set(bv)),
        decreases a@.len() - i,
    {
        let ghost before = instruction_views(r@);
        proof {
            assert(av.take(i + 1) =~= av.take(i as int).push(av[i as int]));
            lemma_view_set_push(av.take(i as int), av[i as int]);
        }
        if contains(b, &a[i]) {
            r.push(a[i].clone());
            proof {
                assert(instruction_views(r@) =~= before.push(av[i as int]));
                lemma_view_set_push(before, av[i as int]);
                assert(view_set(instruction_views(r@)) =~= view_set(av.take(i + 1)).intersect(view_set(bv)));
            }
        } else {
            proof {
                assert(view_set(instruction_views(r@)) =~= view_set(av.take(i + 1)).intersect(view_set(bv)));
            }
        }
        i += 1;
    }
    proof {
        assert(av.take(a@.len() as int) =~= av);
    }
    r
}

/// The instructions of `insts` that stay, whether one was dropped, and the instructions
/// available after them (see `eliminated`).
fn eliminate(insts: &Vec<Instruction>, avail: Vec<Instruction>) -> (r: (Vec<Instruction>, Vec<Instruction>))
    ensures
        (instruction_views(r.0@), view_set(instruction_views(r.1@))) == eliminated(
            instruction_views(insts@),
            view_set(instruction_views(avail@)),
        ),
{
    let ghost iv = instruction_views(insts@);
    let ghost a0 = view_set(instruction_views(avail@));
    let mut kept: Vec<Instruction> = Vec::new();
    let mut out = avail;
    let mut i: usize = 0;
    while i < insts.len()
        invariant
            0 <= i <= insts@.len(),
            iv == instruction_views(insts@),
            (instruction_views(kept@), view_set(instruction_views(out@))) == eliminated(iv.take(i as int), a0),
        decreases insts@.len() - i,
    {
        let ghost k0 = instruction_views(kept@);
        let ghost o0 = instruction_views(out@);
        proof {
            assert(iv.take(i + 1).drop_last() =~= iv.take(i as int));
            assert(iv.take(i + 1).last() == iv[i as int]);
        }
        let inst = &insts[i];
        if !inst.variables_written().is_empty() {
            kept.push(inst.clone());
            proof {
                assert(instruction_views(kept@) =~= k0.push(iv[i as int]));
            }
        } else if !contains(&out, inst) {
            out.push(inst.clone());
            kept.push(inst.clone());
            proof {
                assert(instruction_views(kept@) =~= k0.push(iv[i as int]));
                assert(instruction_views(out@) =~= o0.push(iv[i as int]));
                lemma_view_set_push(o0, iv[i as int]);
            }
        }
        i += 1;
    }
    proof {
        assert(iv.take(insts@.len() as int) =~= iv);
    }
    (kept, out)
}

/// The instructions available at the start of a block with predecessors `preds` (see
/// `available_in`).
fn available_at(
    cfg: &ControlFlowGraph,
    outs: &Vec<Option<Vec<Instruction>>>,
    preds: &Vec<usize>,
) -> (r: Result<Vec<Instruction>, Error>)
    requires
        cfg.wf(),
        outs@.len() == cfg@.blocks.len(),
    ensures
        match available_in(cfg@, out_sets(outs@), preds@) {
            Ok(s) => r is Ok && view_set(instruction_views(r.unwrap()@)) == s,
            Err(e) => r == Err::<Vec<Instruction>, Error>(e),
        },
{
    let ghost g = cfg@;
    let mut acc: Vec<Instruction> = Vec::new();
    let mut i: usize = 0;
    proof {
        assert(preds@.take(0) =~= Seq::<usize>::empty());
        assert(view_set(instruction_views(acc@)) =~= Set::<InstructionView>::empty());
    }
    while i < preds.len()
        invariant
            0 <= i <= preds@.len(),
            cfg.wf(),
            g == cfg@,
            outs@.len() == g.blocks.len(),
            available_in(g, out_sets(outs@), preds@.take(i as int)) == Ok::<Set<InstructionView>, Error>(
                view_set(instruction_views(acc@)),
            ),
        decreases preds@.len() - i,
    {
        let p = preds[i];
        proof {
            assert(preds@.take(i + 1).drop_last() =~= preds@.take(i as int));
            assert(preds@.take(i + 1).last() == p);
        }
        let pos = match cfg.block_position(p) {
            Some(pos) => pos,
            None => {
                proof {
                    lemma_available_in_prefix_err(g, out_sets(outs@), preds@, i + 1);
                }
                return Err(Error::BlockNotFound(p));
            },
        };
        match &outs[pos] {
            None => {
                proof {
                    assert(out_sets(outs@)[pos as int] is None);
                    lemma_available_in_prefix_err(g, out_sets(outs@), preds@, i + 1);
                }
                return Err(Error::UnorderedPredecessor(p));
            },
            Some(o) => {
                if i == 0 {
                    acc = copied(o);
                } else {
                    acc = intersection(&acc, o);
                }
            },
        }
        i += 1;
    }
    proof {
        assert(preds@.take(preds@.len() as int) =~= preds@);
    }
    Ok(acc)
}

/// The available sets of a list of optional instruction lists.
pub open spec fn out_sets(outs: Seq<Option<Vec<Instruction>>>) -> Seq<Option<Set<InstructionView>>> {
    outs.map_values(
        |o: Option<Vec<Instruction>>|
            match o {
                Some(v) => Some(view_set(instruction_views(v@))),
                None => None,
            },
    )
}

/// `order` lists each block of the graph once, every edge leading from a block to a later
/// one (so the graph has no cycle).
pub open spec fn is_topological_order(g: GraphView, order: Seq<usize>) -> bool {
    &&& order.len() == g.blocks.len()
    &&& forall|i: int, j: int| 0 <= i < j < order.len() ==> order[i] != order[j]
    &&& forall|i: int| 0 <= i < order.len() ==> g.has_block(#[trigger] order[i])
    &&& forall|e: int, i: int, j: int|
        #![trigger g.edges[e], order[i], order[j]]
        0 <= e < g.edges.len() && 0 <= i < order.len() && 0 <= j < order.len() && order[i] == g.edges[e].head
            && order[j] == g.edges[e].tail ==> i < j
}

impl RedundantInstructionElimination {
    /// The optimization.
    pub fn new() -> (r: Self) {
        RedundantInstructionElimination {}
    }

    /// Removes redundant instructions, visiting the blocks in `order` (a topological order of
    /// the graph; see `redundancy_eliminated`). Says whether an instruction was removed.
    pub fn optimize(&self, cfg: &mut ControlFlowGraph, order: &[usize]) -> (r: Result<OptimizationResult, Error>)
        requires
            old(cfg).wf(),
            is_topological_order(old(cfg)@, order@),
        ensures
            final(cfg).wf(),
            match redundancy_eliminated(old(cfg)@, order@) {
                Ok((g, changed)) => final(cfg)@ == g && r == Ok::<OptimizationResult, Error>(
                    if changed {
                        OptimizationResult::Changed
                    } else {
                        OptimizationResult::Unchanged
                    },
                ),
                Err(e) => r == Err::<OptimizationResult, Error>(e),
            },
    {
        let ghost g0 = cfg@;
        let mut outs: Vec<Option<Vec<Instruction>>> = Vec::new();
        let mut j: usize = 0;
        while j < cfg.blocks.len()
            invariant
                0 <= j <= cfg.blocks@.len(),
                outs@.len() == j,
                forall|k: int| 0 <= k < j ==> (#[trigger] outs@[k]) is None,
            decreases cfg.blocks@.len() - j,
        {
            outs.push(None);
            j += 1;
        }
        assert(out_sets(outs@) =~= Seq::new(g0.blocks.len(), |i: int| None::<Set<InstructionView>>));
        let mut changed = false;
        let mut i: usize = 0;
        proof {
            assert(order@.take(0) =~= Seq::<usize>::empty());
        }
        while i < order.len()
            invariant
                0 <= i <= order@.len(),
                g0 == old(cfg)@,
                cfg.wf(),
                outs@.len() == cfg@.blocks.len(),
                eliminated_in_order(
                    g0,
                    Seq::new(g0.blocks.len(), |i: int| None::<Set<InstructionView>>),
                    order@.take(i as int),
                ) == Ok::<(GraphView, Seq<Option<Set<InstructionView>>>, bool), Error>(
                    (cfg@, out_sets(outs@), changed),
                ),
            decreases order@.len() - i,
        {
            let b = order[i];
            proof {
                assert(order@.take(i + 1).drop_last() =~= order@.take(i as int));
                assert(order@.take(i + 1).last() == b);
            }
            let r = self.visit(cfg, &mut outs, b);
            match r {
                Err(e) => {
                    proof {
                        lemma_in_order_prefix_err(
                            g0,
                            Seq::new(g0.blocks.len(), |i: int| None::<Set<InstructionView>>),
                            order@,
                            i + 1,
                        );
                    }
                    return Err(e);
                },
                Ok(c) => {
                    changed = changed || c;
                },
            }
            i += 1;
        }
        proof {
            assert(order@.take(order@.len() as int) =~= order@);
        }
        if changed {
            Ok(OptimizationResult::Changed)
        } else {
            Ok(OptimizationResult::Unchanged)
        }
    }

    /// Visits block `b` (see `eliminated_at`).
    fn visit(&self, cfg: &mut ControlFlowGraph, outs: &mut Vec<Option<Vec<Instruction>>>, b: usize) -> (r: Result<
        bool,
        Error,
    >)
        requires
            old(cfg).wf(),
            old(outs)@.len() == old(cfg)@.blocks.len(),
        ensures
            final(cfg).wf(),
            final(outs)@.len() == final(cfg)@.blocks.len(),
            match eliminated_at(old(cfg)@, out_sets(old(outs)@), b) {
                Ok((g, o, c)) => r == Ok::<bool, Error>(c) && final(cfg)@ == g && out_sets(final(outs)@) == o,
                Err(e) => r == Err::<bool, Error>(e),
            },
    {
        let ghost g = cfg@;
        let pos = match cfg.block_position(b) {
            Some(pos) => pos,
            None => {
                return Err(Error::BlockNotFound(b));
            },
        };
        let preds = cfg.predecessor_indices(b)?;
        let inp = available_at(cfg, outs, &preds)?;
        let (kept, out) = eliminate(&cfg.blocks[pos].instructions, inp);
        proof {
            assert(cfg.blocks@[pos as int]@ == g.block(b));
        }
        let ghost before = outs@;
        outs.set(pos, Some(out));
        proof {
            assert(out_sets(outs@) =~= out_sets(before).update(pos as int, Some(view_set(instruction_views(out@)))));
        }
        if kept.len() != cfg.blocks[pos].instructions.len() {
            cfg.set_instructions(b, kept)?;
            proof {
                g.lemma_with_block(b, BlockView { instructions: instruction_views(kept@), ..g.block(b) });
            }
            Ok(true)
        } else {
            Ok(false)
        }
    }
}

/// Whether an instruction writes a variable, as a predicate.
pub open spec fn writing() -> spec_fn(InstructionView) -> bool {
    |i: InstructionView| writes(i)
}

/// Redundant instruction elimination within a block keeps, in order, every instruction that
/// writes a variable; of the instructions that write nothing it keeps none that was
/// available before and no two equal ones; the instructions available after the block are
/// those available before and the kept ones that write nothing.
pub proof fn law_elimination_keeps_writes_and_drops_repeats(insts: Seq<InstructionView>, avail: Set<InstructionView>)
    ensures
        eliminated(insts, avail).0.filter(writing()) == insts.filter(writing()),
        forall|k: int|
            0 <= k < eliminated(insts, avail).0.len() && !writes(#[trigger] eliminated(insts, avail).0[k])
                ==> !avail.contains(eliminated(insts, avail).0[k]),
        forall|j: int, k: int|
            0 <= j < k < eliminated(insts, avail).0.len() && !writes(#[trigger] eliminated(insts, avail).0[j])
                ==> eliminated(insts, avail).0[j] != #[trigger] eliminated(insts, avail).0[k],
        forall|x: InstructionView|
            #[trigger] eliminated(insts, avail).1.contains(x) <==> (avail.contains(x) || (eliminated(
                insts,
                avail,
            ).0.contains(x) && !writes(x))),
    decreases insts.len(),
{
    if insts.len() > 0 {
        let rest = insts.drop_last();
        law_elimination_keeps_writes_and_drops_repeats(rest, avail);
        let (kept0, out0) = eliminated(rest, avail);
        let (kept, out) = eliminated(insts, avail);
        let i = insts.last();
        assert(insts =~= rest.push(i));
        rest.lemma_filter_push(i, writing());
        if writes(i) || !out0.contains(i) {
            kept0.lemma_filter_push(i, writing());
            assert(kept == kept0.push(i));
            assert forall|x: InstructionView| kept.contains(x) <==> (kept0.contains(x) || x == i) by {
                if kept.contains(x) {
                    let k = choose|k: int| 0 <= k < kept.len() && kept[k] == x;
                    if k < kept0.len() {
                        assert(kept0[k] == x);
                    }
                }
                if kept0.contains(x) {
                    let k = choose|k: int| 0 <= k < kept0.len() && kept0[k] == x;
                    assert(kept[k] == x);
                }
                if x == i {
                    assert(kept[kept0.len() as int] == x);
                }
            }
            assert forall|j: int, k: int|
                0 <= j < k < kept.len() && !writes(#[trigger] kept[j]) implies kept[j] != #[trigger] kept[k] by {
                if k == kept0.len() {
                    assert(kept0.contains(kept[j]));
                }
            }
        }
    }
}

} // verus!
