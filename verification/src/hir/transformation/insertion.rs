//! Instructions placed before each instruction of a block, and the first instruction of a
//! block for which they cannot be built.
use crate::hir::InstructionView;
use vstd::prelude::*;

verus! {

/// `insts` with the instructions `f(i)` placed before each instruction `i`.
pub open spec fn prefixed(
    insts: Seq<InstructionView>,
    f: spec_fn(InstructionView) -> Seq<InstructionView>,
) -> Seq<InstructionView>
    decreases insts.len(),
{
    if insts.len() == 0 {
        Seq::empty()
    } else {
        prefixed(insts.drop_last(), f) + f(insts.last()) + seq![insts.last()]
    }
}

/// The index of the first element of `insts` that fails `ok`.
pub open spec fn first_failure<A>(insts: Seq<A>, ok: spec_fn(A) -> bool) -> int {
    choose|k: int| 0 <= k < insts.len() && !ok(insts[k]) && forall|j: int| 0 <= j < k ==> ok(#[trigger] insts[j])
}

/// The first failure is the failing element that only passing ones precede.
pub proof fn lemma_first_failure<A>(insts: Seq<A>, ok: spec_fn(A) -> bool, k: int)
    requires
        0 <= k < insts.len(),
        !ok(insts[k]),
        forall|j: int| 0 <= j < k ==> ok(#[trigger] insts[j]),
    ensures
        first_failure(insts, ok) == k,
{
    let k0 = first_failure(insts, ok);
    assert(0 <= k0 < insts.len() && !ok(insts[k0]) && forall|j: int| 0 <= j < k0 ==> ok(#[trigger] insts[j]));
    if k0 < k {
        assert(ok(insts[k0]));
    }
    if k < k0 {
        assert(ok(insts[k]));
    }
}

/// Where some element fails, a first failing one exists, no later than it.
pub proof fn lemma_first_failure_exists<A>(insts: Seq<A>, ok: spec_fn(A) -> bool, k: int)
    requires
        0 <= k < insts.len(),
        !ok(insts[k]),
    ensures
        0 <= first_failure(insts, ok) <= k,
        !ok(insts[first_failure(insts, ok)]),
        forall|j: int| 0 <= j < first_failure(insts, ok) ==> ok(#[trigger] insts[j]),
    decreases k,
{
    if forall|j: int| 0 <= j < k ==> ok(#[trigger] insts[j]) {
        lemma_first_failure(insts, ok, k);
    } else {
        let j = choose|j: int| 0 <= j < k && !ok(#[trigger] insts[j]);
        lemma_first_failure_exists(insts, ok, j);
    }
}

/// Placing instructions before the first `k + 1` instructions extends doing so before the
/// first `k` by the instructions of instruction `k` and instruction `k` itself.
pub proof fn lemma_prefixed_step(insts: Seq<InstructionView>, f: spec_fn(InstructionView) -> Seq<InstructionView>, k: int)
    requires
        0 <= k < insts.len(),
    ensures
        prefixed(insts.take(k + 1), f) == prefixed(insts.take(k), f) + f(insts[k]) + seq![insts[k]],
{
    assert(insts.take(k + 1).drop_last() =~= insts.take(k));
}

/// `insts` with the instructions `f(i)` placed after each instruction `i`.
pub open spec fn suffixed(
    insts: Seq<InstructionView>,
    f: spec_fn(InstructionView) -> Seq<InstructionView>,
) -> Seq<InstructionView>
    decreases insts.len(),
{
    if insts.len() == 0 {
        Seq::empty()
    } else {
        suffixed(insts.drop_last(), f) + seq![insts.last()] + f(insts.last())
    }
}

/// Placing instructions after the first `k + 1` instructions extends doing so after the
/// first `k` by instruction `k` and its instructions.
pub proof fn lemma_suffixed_step(insts: Seq<InstructionView>, f: spec_fn(InstructionView) -> Seq<InstructionView>, k: int)
    requires
        0 <= k < insts.len(),
    ensures
        suffixed(insts.take(k + 1), f) == suffixed(insts.take(k), f) + seq![insts[k]] + f(insts[k]),
{
    assert(insts.take(k + 1).drop_last() =~= insts.take(k));
}

/// The instructions of `insts` that are no pseudo instructions, in order.
pub open spec fn real_instructions(insts: Seq<InstructionView>) -> Seq<InstructionView>
    decreases insts.len(),
{
    if insts.len() == 0 {
        Seq::empty()
    } else {
        real_instructions(insts.drop_last()) + if insts.last().pseudo {
            Seq::empty()
        } else {
            seq![insts.last()]
        }
    }
}

/// Whether `f` gives pseudo instructions only.
pub open spec fn gives_pseudo(f: spec_fn(InstructionView) -> Seq<InstructionView>) -> bool {
    forall|i: InstructionView, k: int| 0 <= k < f(i).len() ==> (#[trigger] f(i)[k]).pseudo
}

/// Whether all instructions of `s` are pseudo instructions.
pub open spec fn all_pseudo(s: Seq<InstructionView>) -> bool {
    forall|k: int| 0 <= k < s.len() ==> (#[trigger] s[k]).pseudo
}

/// The real instructions of a concatenation are those of its parts.
pub proof fn lemma_real_instructions_append(a: Seq<InstructionView>, b: Seq<InstructionView>)
    ensures
        real_instructions(a + b) == real_instructions(a) + real_instructions(b),
    decreases b.len(),
{
    if b.len() == 0 {
        assert(a + b =~= a);
        assert(real_instructions(a) + real_instructions(b) =~= real_instructions(a));
    } else {
        assert((a + b).drop_last() =~= a + b.drop_last());
        lemma_real_instructions_append(a, b.drop_last());
        assert((a + b).last() == b.last());
        assert(real_instructions(a + b) =~= real_instructions(a) + real_instructions(b));
    }
}

/// Pseudo instructions only have no real instructions.
pub proof fn lemma_real_instructions_of_pseudo(s: Seq<InstructionView>)
    requires
        all_pseudo(s),
    ensures
        real_instructions(s) == Seq::<InstructionView>::empty(),
    decreases s.len(),
{
    if s.len() > 0 {
        assert(all_pseudo(s.drop_last()));
        lemma_real_instructions_of_pseudo(s.drop_last());
        assert(s.last().pseudo);
    }
}

/// Placing pseudo instructions before instructions keeps the real instructions.
pub proof fn lemma_prefixed_keeps_real_instructions(insts: Seq<InstructionView>, f: spec_fn(InstructionView) -> Seq<InstructionView>)
    requires
        gives_pseudo(f),
    ensures
        real_instructions(prefixed(insts, f)) == real_instructions(insts),
    decreases insts.len(),
{
    if insts.len() > 0 {
        let rest = prefixed(insts.drop_last(), f);
        let x = insts.last();
        lemma_prefixed_keeps_real_instructions(insts.drop_last(), f);
        assert(all_pseudo(f(x)));
        lemma_real_instructions_of_pseudo(f(x));
        lemma_real_instructions_append(rest + f(x), seq![x]);
        lemma_real_instructions_append(rest, f(x));
        assert(seq![x].drop_last() =~= Seq::<InstructionView>::empty());
        assert(real_instructions(seq![x]) =~= real_instructions(Seq::<InstructionView>::empty()) + if x.pseudo {
            Seq::<InstructionView>::empty()
        } else {
            seq![x]
        });
        assert(real_instructions(prefixed(insts, f)) =~= real_instructions(insts));
    }
}

/// Placing pseudo instructions after instructions keeps the real instructions.
pub proof fn lemma_suffixed_keeps_real_instructions(insts: Seq<InstructionView>, f: spec_fn(InstructionView) -> Seq<InstructionView>)
    requires
        gives_pseudo(f),
    ensures
        real_instructions(suffixed(insts, f)) == real_instructions(insts),
    decreases insts.len(),
{
    if insts.len() > 0 {
        let rest = suffixed(insts.drop_last(), f);
        let x = insts.last();
        lemma_suffixed_keeps_real_instructions(insts.drop_last(), f);
        assert(all_pseudo(f(x)));
        lemma_real_instructions_of_pseudo(f(x));
        lemma_real_instructions_append(rest + seq![x], f(x));
        lemma_real_instructions_append(rest, seq![x]);
        assert(seq![x].drop_last() =~= Seq::<InstructionView>::empty());
        assert(real_instructions(seq![x]) =~= real_instructions(Seq::<InstructionView>::empty()) + if x.pseudo {
            Seq::<InstructionView>::empty()
        } else {
            seq![x]
        });
        assert(real_instructions(suffixed(insts, f)) =~= real_instructions(insts));
    }
}

} // verus!
