use crate::error::Error;
use crate::hir::transformation::insertion::{first_failure, lemma_first_failure};
use crate::hir::transformation::pipeline::Environment;
use crate::hir::{
    Block, BlockView, ControlFlowGraph, EdgeLabels, GraphView, InlinedProgram, Instruction, InstructionView, Operation,
    OperationView, Program, ProgramView,
};
use crate::lir::{Constant, Operator, OperatorView};
use vstd::prelude::*;
use vstd::string::StringExecFns;

verus! {

/// Inlines the functions that the entry function calls, recursively; a function is inlined
/// within itself at most `recursion_limit` times.
#[derive(Debug, Clone, Copy, PartialEq, Eq, Structural)]
pub struct FunctionInlining {
    pub recursion_limit: usize,
}

/// The address that instruction `i` calls, where it calls a constant address.
pub open spec fn call_address(i: InstructionView) -> Option<u64> {
    match i.operation {
        OperationView::Call { target } => match target.operator {
            OperatorView::Constant(Constant::BitVector(v)) => Some(v.value),
            _ => None,
        },
        _ => None,
    }
}

/// Whether an instruction does not call a constant address.
pub open spec fn no_call() -> spec_fn(InstructionView) -> bool {
    |i: InstructionView| call_address(i) is None
}

/// The position of the first instruction of `insts` that calls a constant address.
pub open spec fn next_call(insts: Seq<InstructionView>) -> Option<int> {
    if exists|k: int| 0 <= k < insts.len() && !no_call()(#[trigger] insts[k]) {
        Some(first_failure(insts, no_call()))
    } else {
        None
    }
}

/// How many more inlinings the call depths `d` allow below `limit`.
pub open spec fn budget(d: Seq<usize>, limit: usize) -> nat
    decreases d.len(),
{
    if d.len() == 0 {
        0
    } else {
        budget(d.drop_last(), limit) + if d.last() < limit {
            (limit - d.last()) as nat
        } else {
            0nat
        }
    }
}

/// One more call at a depth below the limit uses up one inlining.
pub proof fn lemma_budget_step(d: Seq<usize>, limit: usize, i: int)
    requires
        0 <= i < d.len(),
        d[i] < limit,
    ensures
        budget(d.update(i, (d[i] + 1) as usize), limit) + 1 == budget(d, limit),
    decreases d.len(),
{
    let e = d.update(i, (d[i] + 1) as usize);
    if i == d.len() - 1 {
        assert(e.drop_last() =~= d.drop_last());
    } else {
        lemma_budget_step(d.drop_last(), limit, i);
        assert(e.drop_last() =~= d.drop_last().update(i, (d[i] + 1) as usize));
    }
}

/// The call depth of the function at position `fp`; positions outside `d` count as exhausted.
pub open spec fn depth_at(d: Seq<usize>, fp: int, limit: usize) -> int {
    if 0 <= fp < d.len() {
        d[fp] as int
    } else {
        limit as int
    }
}

/// The labels of an edge that calls a function.
pub open spec fn call_labels() -> EdgeLabels {
    EdgeLabels { taken: false, speculate: false, rollback: false, call: true, ret: false }
}

/// The labels of an edge that returns from a function.
pub open spec fn return_labels() -> EdgeLabels {
    EdgeLabels { taken: false, speculate: false, rollback: false, call: false, ret: true }
}

/// The indices that the `n` blocks of an inserted graph get from `start` on.
pub open spec fn inserted_indices(start: usize, n: nat) -> Seq<usize> {
    Seq::new(n, |q: int| (start + q) as usize)
}

/// The graph after inlining the graph `f` at the call at position `k` of block `b`: the
/// block is split after the call, the blocks and edges of `f` are added with indices from
/// the one after the split-off block on, a call edge leads from `b` to the entry of `f` and
/// a return edge from the exit of `f` to the split-off block.
#[verifier::opaque]
pub open spec fn inline_call(g: GraphView, b: usize, k: int, f: GraphView) -> Result<GraphView, Error> {
    match g.split_result(b, (k + 1) as usize) {
        Err(e) => Err(e),
        Ok(g1) => match g1.embed_result(f) {
            Err(e) => Err(e),
            Ok(g2) => match f.entry {
                None => Err(Error::NoEntry),
                Some(fe) => match f.exit {
                    None => Err(Error::NoExit),
                    Some(fx) => {
                        let s = g1.next_index;
                        match g2.unconditional_result(b, (s + f.block_pos(fe)) as usize, call_labels()) {
                            Err(e) => Err(e),
                            Ok(g3) => g3.unconditional_result((s + f.block_pos(fx)) as usize, g.next_index, return_labels()),
                        }
                    },
                },
            },
        },
    }
}

/// The graph after inlining the first call of block `b` and everything it leads to, under
/// the call depths `d` (by function position): the callee's graph is inlined at the call
/// (see `inline_call`), then the split-off rest of the block is inlined at the same depths
/// and the callee's blocks, the last one first, with the callee's depth one higher. Nothing
/// happens where the block calls no constant address, no function is at that address, or
/// its depth reached `limit`. Only the first `size` instructions of the block are searched
/// for a call; `size` bounds the block's length.
pub open spec fn inlined_block(
    limit: usize,
    p: ProgramView,
    g: GraphView,
    b: usize,
    d: Seq<usize>,
    size: nat,
) -> Result<GraphView, Error>
    decreases budget(d, limit), 0nat, size, 1nat,
{
    if !g.has_block(b) {
        Err(Error::BlockNotFound(b))
    } else {
        match call_site(p, g.block(b).instructions, size) {
            None => Ok(g),
            Some((k, fp)) => if depth_at(d, fp, limit) >= limit {
                Ok(g)
            } else {
                inlined_at_call(limit, p, g, b, k, fp, d, size)
            },
        }
    }
}

/// The position of the first instruction among the first `size` of `all` that calls a
/// constant address, and the position of the function of `p` at that address, if both exist.
#[verifier::opaque]
pub open spec fn call_site(p: ProgramView, all: Seq<InstructionView>, size: nat) -> Option<(int, int)> {
    let insts = all.take(if size < all.len() { size as int } else { all.len() as int });
    match next_call(insts) {
        None => None,
        Some(k) => match p.position_of_address(call_address(insts[k]).unwrap()) {
            None => None,
            Some(fp) => Some((k, fp)),
        },
    }
}

/// The graph after inlining the function at position `fp` of `p` at the call at position `k`
/// of block `b` (see `inline_call`), then the split-off rest of the block at the same call
/// depths `d`, then the callee's blocks, the last one first, with the callee's depth one
/// higher. Nothing happens unless the callee's depth is below `limit` and `size` is positive.
pub open spec fn inlined_at_call(
    limit: usize,
    p: ProgramView,
    g: GraphView,
    b: usize,
    k: int,
    fp: int,
    d: Seq<usize>,
    size: nat,
) -> Result<GraphView, Error>
    decreases budget(d, limit), 0nat, size, 0nat,
{
    if 0 <= fp < d.len() && d[fp] < limit && size > 0 {
        let f = p.functions[fp].cfg;
        match inline_call(g, b, k, f) {
            Err(e) => Err(e),
            Ok(g4) => {
                proof {
                    lemma_budget_step(d, limit, fp);
                }
                match inlined_block(limit, p, g4, g.next_index, d, (size - 1) as nat) {
                    Err(e) => Err(e),
                    Ok(g5) => inlined_stack(
                        limit,
                        p,
                        g5,
                        inserted_indices((g.next_index + 1) as usize, f.blocks.len()),
                        d.update(fp, (d[fp] + 1) as usize),
                    ),
                }
            },
        }
    } else {
        Ok(g)
    }
}

/// The graph after inlining the blocks of `stack` under the call depths `d`, the last block
/// first, each with everything it leads to.
pub open spec fn inlined_stack(
    limit: usize,
    p: ProgramView,
    g: GraphView,
    stack: Seq<usize>,
    d: Seq<usize>,
) -> Result<GraphView, Error>
    decreases budget(d, limit), 1nat, 0nat, stack.len(),
{
    if stack.len() == 0 {
        Ok(g)
    } else {
        let b = stack.last();
        match inlined_block(limit, p, g, b, d, g.block(b).instructions.len()) {
            Err(e) => Err(e),
            Ok(g1) => inlined_stack(limit, p, g1, stack.drop_last(), d),
        }
    }
}

/// The indices of the blocks of `g`, in order.
pub open spec fn block_indices(g: GraphView) -> Seq<usize> {
    g.blocks.map_values(|blk: BlockView| blk.index)
}

/// The graph `g` with the calls of program `p` inlined: its blocks, the last one first, are
/// inlined with every call depth zero.
pub open spec fn inlined_graph(limit: usize, p: ProgramView, g: GraphView) -> Result<GraphView, Error> {
    inlined_stack(limit, p, g, block_indices(g), Seq::new(p.functions.len(), |i: int| 0usize))
}

/// The address that `inst` calls, where it calls a constant address.
fn call_address_of(inst: &Instruction) -> (r: Option<u64>)
    ensures
        r == call_address(inst@),
{
    match &inst.operation {
        Operation::Call { target } => match &target.operator {
            Operator::Constant(Constant::BitVector(v)) => Some(v.value),
            _ => None,
        },
        _ => None,
    }
}

/// The position and target of the first instruction of `block` that calls a constant address.
fn find_next_call_in_block(block: &Block) -> (r: Option<(usize, u64)>)
    ensures
        match r {
            None => next_call(block@.instructions) is None,
            Some((k, a)) => next_call(block@.instructions) == Some(k as int) && k < block@.instructions.len()
                && call_address(block@.instructions[k as int]) == Some(a),
        },
{
    let ghost insts = block@.instructions;
    let mut i: usize = 0;
    while i < block.instructions.len()
        invariant
            0 <= i <= block.instructions@.len(),
            insts == block@.instructions,
            insts.len() == block.instructions@.len(),
            forall|j: int| 0 <= j < i ==> no_call()(#[trigger] insts[j]),
        decreases block.instructions@.len() - i,
    {
        match call_address_of(&block.instructions[i]) {
            Some(a) => {
                proof {
                    assert(insts[i as int] == block.instructions@[i as int]@);
                    assert(!no_call()(insts[i as int]));
                    lemma_first_failure(insts, no_call(), i as int);
                }
                return Some((i, a));
            },
            None => {
                assert(insts[i as int] == block.instructions@[i as int]@);
            },
        }
        i += 1;
    }
    None
}

/// The call site of `block` (see `call_site`), for a block of at most `size` instructions.
fn find_call_site(program: &Program, block: &Block, size: Ghost<nat>) -> (r: Option<(usize, usize)>)
    requires
        program.wf(),
        block@.instructions.len() <= size@,
    ensures
        match call_site(program@, block@.instructions, size@) {
            None => r is None,
            Some((k, fp)) => r matches Some((k2, fp2)) && k2 == k && fp2 == fp && k < block@.instructions.len()
                && fp < program@.functions.len() && k < usize::MAX,
        },
{
    let ghost all = block@.instructions;
    let ghost insts = all.take(if size@ < all.len() { size@ as int } else { all.len() as int });
    proof {
        reveal(call_site);
        assert(insts =~= all);
    }
    let n = block.instructions.len();
    let (k, address) = match find_next_call_in_block(block) {
        Some(x) => x,
        None => {
            return None;
        },
    };
    let fp = match program.position_of_address(address) {
        Some(fp) => fp,
        None => {
            return None;
        },
    };
    proof {
        assert(next_call(insts) == Some(k as int));
        assert(call_address(insts[k as int]) == Some(address));
        assert(program@.position_of_address(address) == Some(fp as int));
    }
    Some((k, fp))
}

/// `depth` with the entry at `fp` one higher.
fn deeper(depth: &Vec<usize>, fp: usize) -> (r: Vec<usize>)
    requires
        fp < depth@.len(),
        depth@[fp as int] < usize::MAX,
    ensures
        r@ == depth@.update(fp as int, (depth@[fp as int] + 1) as usize),
{
    let mut r: Vec<usize> = Vec::new();
    let mut i: usize = 0;
    while i < depth.len()
        invariant
            0 <= i <= depth@.len(),
            fp < depth@.len(),
            depth@[fp as int] < usize::MAX,
            r@ == depth@.update(fp as int, (depth@[fp as int] + 1) as usize).take(i as int),
        decreases depth@.len() - i,
    {
        if i == fp {
            r.push(depth[i] + 1);
        } else {
            r.push(depth[i]);
        }
        assert(r@ =~= depth@.update(fp as int, (depth@[fp as int] + 1) as usize).take(i + 1));
        i += 1;
    }
    assert(r@ =~= depth@.update(fp as int, (depth@[fp as int] + 1) as usize));
    r
}

/// After splitting block `b` of a well-formed graph, the new block holds the instructions
/// from `at` on.
proof fn lemma_split_tail(g: GraphView, b: usize, at: int)
    requires
        g.wf(),
        g.has_block(b),
        0 <= at <= g.block(b).instructions.len(),
        g.next_index < usize::MAX,
    ensures
        g.split(b, at).block_pos(g.next_index) == g.blocks.len(),
        g.split(b, at).block(g.next_index).instructions == g.block(b).instructions.skip(at),
{
    let s = g.split(b, at);
    g.lemma_split_wf(b, at);
    let n = g.blocks.len() as int;
    assert(s.blocks[n].index == g.next_index);
    s.lemma_block_pos(n);
}

/// Splitting a block keeps the entry and every block index.
proof fn lemma_split_keeps_blocks(g: GraphView, b: usize, at: int)
    requires
        g.has_block(b),
    ensures
        g.split(b, at).entry == g.entry,
        forall|x: usize| g.has_block(x) ==> #[trigger] g.split(b, at).has_block(x),
{
    let s = g.split(b, at);
    let pos = g.block_pos(b);
    assert(g.blocks[pos].index == b);
    assert forall|x: usize| g.has_block(x) implies #[trigger] s.has_block(x) by {
        let i = choose|i: int| 0 <= i < g.blocks.len() && (#[trigger] g.blocks[i]).index == x;
        assert(s.blocks[i].index == x);
    }
}

/// Adding the blocks of `h` keeps the entry and every block index.
proof fn lemma_embed_keeps_blocks(g: GraphView, h: GraphView)
    ensures
        g.embed(h).entry == g.entry,
        forall|x: usize| g.has_block(x) ==> #[trigger] g.embed(h).has_block(x),
{
    let e = g.embed(h);
    assert forall|x: usize| g.has_block(x) implies #[trigger] e.has_block(x) by {
        let i = choose|i: int| 0 <= i < g.blocks.len() && (#[trigger] g.blocks[i]).index == x;
        assert(e.blocks[i].index == x);
    }
}

/// Adding an edge keeps the entry and every block index.
proof fn lemma_edge_keeps_blocks(g: GraphView, h: usize, t: usize, labels: EdgeLabels)
    ensures
        g.unconditional_result(h, t, labels) matches Ok(g2) ==> g2.entry == g.entry && forall|x: usize|
            g.has_block(x) ==> #[trigger] g2.has_block(x),
{
    if let Ok(g2) = g.unconditional_result(h, t, labels) {
        assert forall|x: usize| g.has_block(x) implies #[trigger] g2.has_block(x) by {
            let i = choose|i: int| 0 <= i < g.blocks.len() && (#[trigger] g.blocks[i]).index == x;
            assert(g2.blocks[i].index == x);
        }
    }
}

/// Inlining a graph at a call keeps the entry and every block index.
proof fn lemma_inline_call_keeps(g: GraphView, b: usize, k: int, f: GraphView)
    ensures
        inline_call(g, b, k, f) matches Ok(h) ==> h.entry == g.entry && forall|x: usize|
            g.has_block(x) ==> #[trigger] h.has_block(x),
{
    reveal(inline_call);
    if let Ok(g1) = g.split_result(b, (k + 1) as usize) {
        lemma_split_keeps_blocks(g, b, ((k + 1) as usize) as int);
        if let Ok(g2) = g1.embed_result(f) {
            lemma_embed_keeps_blocks(g1, f);
            if f.entry is Some && f.exit is Some {
                let s = g1.next_index;
                let entry = (s + f.block_pos(f.entry.unwrap())) as usize;
                let exit = (s + f.block_pos(f.exit.unwrap())) as usize;
                lemma_edge_keeps_blocks(g2, b, entry, call_labels());
                if let Ok(g3) = g2.unconditional_result(b, entry, call_labels()) {
                    lemma_edge_keeps_blocks(g3, exit, g.next_index, return_labels());
                }
            }
        }
    }
}

/// Inlining at a block keeps the entry and every block index.
pub proof fn lemma_inlined_block_keeps(limit: usize, p: ProgramView, g: GraphView, b: usize, d: Seq<usize>, size: nat)
    ensures
        inlined_block(limit, p, g, b, d, size) matches Ok(h) ==> h.entry == g.entry && forall|x: usize|
            g.has_block(x) ==> #[trigger] h.has_block(x),
    decreases budget(d, limit), 0nat, size, 1nat,
{
    if g.has_block(b) {
        if let Some((k, fp)) = call_site(p, g.block(b).instructions, size) {
            lemma_inlined_at_call_keeps(limit, p, g, b, k, fp, d, size);
        }
    }
}

/// Inlining at a call keeps the entry and every block index.
pub proof fn lemma_inlined_at_call_keeps(
    limit: usize,
    p: ProgramView,
    g: GraphView,
    b: usize,
    k: int,
    fp: int,
    d: Seq<usize>,
    size: nat,
)
    ensures
        inlined_at_call(limit, p, g, b, k, fp, d, size) matches Ok(h) ==> h.entry == g.entry && forall|x: usize|
            g.has_block(x) ==> #[trigger] h.has_block(x),
    decreases budget(d, limit), 0nat, size, 0nat,
{
    if 0 <= fp < d.len() && d[fp] < limit && size > 0 {
        let f = p.functions[fp].cfg;
        lemma_inline_call_keeps(g, b, k, f);
        if let Ok(g4) = inline_call(g, b, k, f) {
            lemma_budget_step(d, limit, fp);
            lemma_inlined_block_keeps(limit, p, g4, g.next_index, d, (size - 1) as nat);
            if let Ok(g5) = inlined_block(limit, p, g4, g.next_index, d, (size - 1) as nat) {
                lemma_inlined_stack_keeps(
                    limit,
                    p,
                    g5,
                    inserted_indices((g.next_index + 1) as usize, f.blocks.len()),
                    d.update(fp, (d[fp] + 1) as usize),
                );
            }
        }
    }
}

/// Inlining the blocks of a stack keeps the entry and every block index.
pub proof fn lemma_inlined_stack_keeps(limit: usize, p: ProgramView, g: GraphView, stack: Seq<usize>, d: Seq<usize>)
    ensures
        inlined_stack(limit, p, g, stack, d) matches Ok(h) ==> h.entry == g.entry && forall|x: usize|
            g.has_block(x) ==> #[trigger] h.has_block(x),
    decreases budget(d, limit), 1nat, 0nat, stack.len(),
{
    if stack.len() > 0 {
        let b = stack.last();
        lemma_inlined_block_keeps(limit, p, g, b, d, g.block(b).instructions.len());
        if let Ok(g1) = inlined_block(limit, p, g, b, d, g.block(b).instructions.len()) {
            lemma_inlined_stack_keeps(limit, p, g1, stack.drop_last(), d);
        }
    }
}

/// Inlining keeps the entry block and every block of the caller: the blocks of the inlined
/// functions and the split-off rests of blocks only come in addition.
pub proof fn law_inlining_keeps_caller_blocks(limit: usize, p: ProgramView, g: GraphView)
    ensures
        inlined_graph(limit, p, g) matches Ok(h) ==> h.entry == g.entry && forall|x: usize|
            g.has_block(x) ==> #[trigger] h.has_block(x),
{
    lemma_inlined_stack_keeps(limit, p, g, block_indices(g), Seq::new(p.functions.len(), |i: int| 0usize));
}

/// With the blocks of `stack` all in `g`, inlining them with recursion limit zero changes
/// nothing.
proof fn lemma_limit_zero_stack(p: ProgramView, g: GraphView, stack: Seq<usize>, d: Seq<usize>)
    requires
        forall|i: int| 0 <= i < stack.len() ==> g.has_block(#[trigger] stack[i]),
    ensures
        inlined_stack(0, p, g, stack, d) == Ok::<GraphView, Error>(g),
    decreases stack.len(),
{
    if stack.len() > 0 {
        let b = stack.last();
        assert(g.has_block(stack[stack.len() - 1]));
        assert(inlined_block(0, p, g, b, d, g.block(b).instructions.len()) == Ok::<GraphView, Error>(g));
        lemma_limit_zero_stack(p, g, stack.drop_last(), d);
    }
}

/// With recursion limit zero, inlining leaves the graph as it is.
pub proof fn law_limit_zero_inlines_nothing(p: ProgramView, g: GraphView)
    ensures
        inlined_graph(0, p, g) == Ok::<GraphView, Error>(g),
{
    let stack = block_indices(g);
    assert forall|i: int| 0 <= i < stack.len() implies g.has_block(#[trigger] stack[i]) by {
        assert(g.blocks[i].index == stack[i]);
    }
    lemma_limit_zero_stack(p, g, stack, Seq::new(p.functions.len(), |i: int| 0usize));
}

/// The indices `start`, `start + 1`, ... of `n` inserted blocks.
fn inserted(start: usize, n: usize) -> (r: Vec<usize>)
    requires
        start + n <= usize::MAX,
    ensures
        r@ == inserted_indices(start, n as nat),
{
    let mut r: Vec<usize> = Vec::new();
    let mut q: usize = 0;
    while q < n
        invariant
            0 <= q <= n,
            start + n <= usize::MAX,
            r@ == inserted_indices(start, n as nat).take(q as int),
        decreases n - q,
    {
        r.push(start + q);
        assert(r@ =~= inserted_indices(start, n as nat).take(q + 1));
        q += 1;
    }
    assert(r@ =~= inserted_indices(start, n as nat));
    r
}

/// Inlines the graph `f` at the call at position `k` of block `b` (see `inline_call`).
fn inline_call_at(cfg: &mut ControlFlowGraph, b: usize, k: usize, f: &ControlFlowGraph) -> (r: Result<(), Error>)
    requires
        old(cfg).wf(),
        f.wf(),
        old(cfg)@.has_block(b),
        k < old(cfg)@.block(b).instructions.len(),
        k < usize::MAX,
    ensures
        final(cfg).wf(),
        match inline_call(old(cfg)@, b, k as int, f@) {
            Ok(h) => r is Ok && final(cfg)@ == h,
            Err(e) => r == Err::<(), Error>(e),
        },
        r is Ok ==> old(cfg).next_index + 1 + f@.blocks.len() <= usize::MAX && final(cfg)@.has_block(
            old(cfg).next_index,
        ) && final(cfg)@.block(old(cfg).next_index).instructions.len() + k + 1 == old(cfg)@.block(
            b,
        ).instructions.len(),
{
    let ghost g = cfg@;
    proof {
        reveal(inline_call);
    }
    let ret = cfg.split_block_at(b, k + 1)?;
    let s = cfg.next_index;
    let _mapping = cfg.insert(f)?;
    let ghost g2 = cfg@;
    let fe = f.entry()?;
    let fx = f.exit()?;
    let ep = match f.block_position(fe) {
        Some(q) => q,
        None => {
            return Err(Error::BlockNotFound(fe));
        },
    };
    let xp = match f.block_position(fx) {
        Some(q) => q,
        None => {
            return Err(Error::BlockNotFound(fx));
        },
    };
    cfg.unconditional_edge(b, s + ep, EdgeLabels::none().call())?;
    let ghost g3 = cfg@;
    cfg.unconditional_edge(s + xp, ret, EdgeLabels::none().ret())?;
    proof {
        lemma_split_tail(g, b, k + 1);
        let n = g.blocks.len() as int;
        g2.lemma_block_pos(n);
        g3.lemma_block_pos(n);
        cfg@.lemma_block_pos(n);
    }
    Ok(())
}

impl FunctionInlining {
    /// The inlining that the environment asks for: with its recursion limit.
    pub fn new_from_env(env: &Environment) -> (r: Self)
        ensures
            r.recursion_limit == env.recursion_limit,
    {
        FunctionInlining { recursion_limit: env.recursion_limit }
    }

    /// The entry function of `program` with the functions it calls inlined (see
    /// `inlined_graph`); fails if the program has no entry function.
    pub fn inline(&self, program: &Program) -> (r: Result<InlinedProgram, Error>)
        requires
            program.wf(),
        ensures
            match program@.entry_position() {
                None => r == Err::<InlinedProgram, Error>(Error::NoEntryFunction),
                Some(i) => match inlined_graph(self.recursion_limit, program@, program@.functions[i].cfg) {
                    Ok(g) => r is Ok && r.unwrap().cfg@ == g,
                    Err(e) => r == Err::<InlinedProgram, Error>(e),
                },
            },
    {
        let entry = match program.entry_function() {
            Some(f) => f,
            None => {
                return Err(Error::NoEntryFunction);
            },
        };
        let mut cfg = entry.cfg.clone();
        self.inline_calls(&mut cfg, program)?;
        Ok(InlinedProgram::new(cfg))
    }

    /// Inlines the calls of `cfg` (see `inlined_graph`).
    fn inline_calls(&self, cfg: &mut ControlFlowGraph, program: &Program) -> (r: Result<(), Error>)
        requires
            old(cfg).wf(),
            program.wf(),
        ensures
            final(cfg).wf(),
            match inlined_graph(self.recursion_limit, program@, old(cfg)@) {
                Ok(g) => r is Ok && final(cfg)@ == g,
                Err(e) => r == Err::<(), Error>(e),
            },
    {
        let ghost g = cfg@;
        let mut stack: Vec<usize> = Vec::new();
        let mut i: usize = 0;
        while i < cfg.blocks.len()
            invariant
                0 <= i <= cfg.blocks@.len(),
                g == cfg@,
                stack@ == block_indices(g).take(i as int),
            decreases cfg.blocks@.len() - i,
        {
            stack.push(cfg.blocks[i].index);
            assert(stack@ =~= block_indices(g).take(i + 1));
            i += 1;
        }
        assert(stack@ =~= block_indices(g));
        let mut depth: Vec<usize> = Vec::new();
        let mut j: usize = 0;
        while j < program.functions.len()
            invariant
                0 <= j <= program.functions@.len(),
                depth@ == Seq::new(j as nat, |i: int| 0usize),
            decreases program.functions@.len() - j,
        {
            depth.push(0);
            assert(depth@ =~= Seq::new((j + 1) as nat, |i: int| 0usize));
            j += 1;
        }
        assert(depth@ =~= Seq::new(program@.functions.len(), |i: int| 0usize));
        self.inline_stack(cfg, program, stack, &depth)
    }

    /// Inlines the blocks of `stack`, the last one first (see `inlined_stack`).
    fn inline_stack(
        &self,
        cfg: &mut ControlFlowGraph,
        program: &Program,
        stack: Vec<usize>,
        depth: &Vec<usize>,
    ) -> (r: Result<(), Error>)
        requires
            old(cfg).wf(),
            program.wf(),
            depth@.len() == program@.functions.len(),
        ensures
            final(cfg).wf(),
            match inlined_stack(self.recursion_limit, program@, old(cfg)@, stack@, depth@) {
                Ok(g) => r is Ok && final(cfg)@ == g,
                Err(e) => r == Err::<(), Error>(e),
            },
        decreases budget(depth@, self.recursion_limit), 1nat, 0nat, stack@.len(),
    {
        let ghost goal = inlined_stack(self.recursion_limit, program@, cfg@, stack@, depth@);
        let mut i: usize = stack.len();
        assert(stack@.take(i as int) =~= stack@);
        while i > 0
            invariant
                0 <= i <= stack@.len(),
                cfg.wf(),
                program.wf(),
                depth@.len() == program@.functions.len(),
                goal == inlined_stack(self.recursion_limit, program@, old(cfg)@, stack@, depth@),
                goal == inlined_stack(self.recursion_limit, program@, cfg@, stack@.take(i as int), depth@),
            decreases i,
        {
            let ghost gc = cfg@;
            let b = stack[i - 1];
            let ghost size = cfg@.block(b).instructions.len();
            proof {
                let st = stack@.take(i as int);
                assert(b == st.last());
                assert(st.drop_last() =~= stack@.take(i - 1));
            }
            let r = self.inline_block(cfg, program, b, depth, Ghost(size));
            i -= 1;
            match r {
                Err(e) => {
                    proof {
                        assert(inlined_block(self.recursion_limit, program@, gc, b, depth@, size) == Err::<GraphView, Error>(e));
                    }
                    return Err(e);
                },
                Ok(()) => {},
            }
        }
        assert(stack@.take(0) =~= Seq::<usize>::empty());
        Ok(())
    }

    /// Inlines the first call of block `b` and everything it leads to (see `inlined_block`).
    #[verifier::spinoff_prover]
    fn inline_block(
        &self,
        cfg: &mut ControlFlowGraph,
        program: &Program,
        b: usize,
        depth: &Vec<usize>,
        size: Ghost<nat>,
    ) -> (r: Result<(), Error>)
        requires
            old(cfg).wf(),
            program.wf(),
            depth@.len() == program@.functions.len(),
            old(cfg)@.has_block(b) ==> old(cfg)@.block(b).instructions.len() <= size@,
        ensures
            final(cfg).wf(),
            match inlined_block(self.recursion_limit, program@, old(cfg)@, b, depth@, size@) {
                Ok(g) => r is Ok && final(cfg)@ == g,
                Err(e) => r == Err::<(), Error>(e),
            },
        decreases budget(depth@, self.recursion_limit), 0nat, size@, 1nat,
    {
        let ghost g = cfg@;
        let ghost p = program@;
        let ghost limit = self.recursion_limit;
        let block = cfg.block(b)?;
        let (k, fp) = match find_call_site(program, block, size) {
            Some(x) => x,
            None => {
                return Ok(());
            },
        };
        proof {
            assert(block@ == g.block(b));
            assert(call_site(p, g.block(b).instructions, size@) == Some((k as int, fp as int)));
        }
        if depth[fp] >= self.recursion_limit {
            return Ok(());
        }
        proof {
            assert(inlined_block(limit, p, g, b, depth@, size@) == inlined_at_call(
                limit,
                p,
                g,
                b,
                k as int,
                fp as int,
                depth@,
                size@,
            ));
        }
        self.inline_at_call(cfg, program, b, k, fp, depth, size)
    }

    /// Inlines the function at position `fp` at the call at position `k` of block `b`, and
    /// everything that leads to (see `inlined_at_call`).
    fn inline_at_call(
        &self,
        cfg: &mut ControlFlowGraph,
        program: &Program,
        b: usize,
        k: usize,
        fp: usize,
        depth: &Vec<usize>,
        size: Ghost<nat>,
    ) -> (r: Result<(), Error>)
        requires
            old(cfg).wf(),
            program.wf(),
            depth@.len() == program@.functions.len(),
            old(cfg)@.has_block(b),
            k < old(cfg)@.block(b).instructions.len() <= size@,
            k < usize::MAX,
            fp < depth@.len(),
            depth@[fp as int] < self.recursion_limit,
        ensures
            final(cfg).wf(),
            match inlined_at_call(self.recursion_limit, program@, old(cfg)@, b, k as int, fp as int, depth@, size@) {
                Ok(g) => r is Ok && final(cfg)@ == g,
                Err(e) => r == Err::<(), Error>(e),
            },
        decreases budget(depth@, self.recursion_limit), 0nat, size@, 0nat,
    {
        let ghost limit = self.recursion_limit;
        let func = &program.functions[fp];
        proof {
            assert(func@ == program@.functions[fp as int]);
            assert(func.cfg.wf());
        }
        let ret = cfg.next_index;
        inline_call_at(cfg, b, k, &func.cfg)?;
        let callees = inserted(ret + 1, func.cfg.blocks.len());
        let callee_depth = deeper(depth, fp);
        proof {
            lemma_budget_step(depth@, limit, fp as int);
        }
        self.inline_block(cfg, program, ret, depth, Ghost((size@ - 1) as nat))?;
        self.inline_stack(cfg, program, callees, &callee_depth)
    }
}

/// Takes the function named `main` as the whole program, without inlining.
#[derive(Debug, Clone, Copy, PartialEq, Eq, Structural)]
pub struct Inlining {}

impl Inlining {
    /// The inlining.
    pub fn new() -> (r: Self) {
        Inlining {}
    }

    /// The graph of the function named `main`; fails if there is none.
    pub fn inline(&self, program: &Program) -> (r: Result<InlinedProgram, Error>)
        ensures
            match program@.position_of_name("main"@) {
                None => r == Err::<InlinedProgram, Error>(Error::NoEntryFunction),
                Some(i) => r is Ok && r.unwrap().cfg@ == program@.functions[i].cfg,
            },
    {
        let name = String::from_str("main");
        proof {
            reveal_strlit("main");
        }
        match program.function_by_name(&name) {
            Some(f) => Ok(InlinedProgram::new(f.cfg.clone())),
            None => Err(Error::NoEntryFunction),
        }
    }
}

} // verus!
