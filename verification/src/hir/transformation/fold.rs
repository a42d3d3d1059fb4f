//! Sequences of steps that may fail: the outcome of applying the steps in order.
use crate::error::Error;
use vstd::prelude::*;

verus! {

/// The outcome of applying `step` to `init` and each item in order, stopping at the first
/// error.
pub open spec fn fold_results<S, A>(init: S, items: Seq<A>, step: spec_fn(S, A) -> Result<S, Error>) -> Result<S, Error>
    decreases items.len(),
{
    if items.len() == 0 {
        Ok(init)
    } else {
        match fold_results(init, items.drop_last(), step) {
            Ok(s) => step(s, items.last()),
            Err(e) => Err(e),
        }
    }
}

/// One more item: one more step, unless an error came before.
pub proof fn lemma_fold_push<S, A>(init: S, items: Seq<A>, step: spec_fn(S, A) -> Result<S, Error>, x: A)
    ensures
        fold_results(init, items.push(x), step) == (match fold_results(init, items, step) {
            Ok(s) => step(s, x),
            Err(e) => Err(e),
        }),
{
    assert(items.push(x).drop_last() =~= items);
}

/// Once a prefix fails, the whole sequence fails with its error.
pub proof fn lemma_fold_prefix_err<S, A>(init: S, items: Seq<A>, step: spec_fn(S, A) -> Result<S, Error>, n: int)
    requires
        0 <= n <= items.len(),
        fold_results(init, items.take(n), step) is Err,
    ensures
        fold_results(init, items, step) == fold_results(init, items.take(n), step),
    decreases items.len(),
{
    if items.len() > n {
        assert(items.drop_last().take(n) =~= items.take(n));
        lemma_fold_prefix_err(init, items.drop_last(), step, n);
    } else {
        assert(items.take(n) =~= items);
    }
}

} // verus!
