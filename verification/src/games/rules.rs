//! The legality rule a game variant plugs into the move algebra.

use crate::cards::{Card, Rank, Suit};
use vstd::prelude::*;

verus! {

/// Decides which card may lie directly on which inside a run that is moved
/// as a group.
///
/// An implementation promises that `check` computes `admits`.
pub trait RunRule<R: Rank, S: Suit>: Sized {
    /// Whether `above` may lie directly on `below` in a run.
    ///
    /// An implementation that is verified defines it. One that is not
    /// leaves it as it stands here, some relation of which nothing more is
    /// known, and so promises of `check` that it gives the same answer for
    /// the same rule and cards.
    open spec fn admits(&self, below: Card<R, S>, above: Card<R, S>) -> bool {
        arbitrary::<spec_fn(Self, Card<R, S>, Card<R, S>) -> bool>()(*self, below, above)
    }

    /// Computes `admits`.
    fn check(&self, below: &Card<R, S>, above: &Card<R, S>) -> (ok: bool)
        ensures
            ok == self.admits(*below, *above),
    ;
}

/// The default rule: each card's ordinal is exactly one less than that of
/// the card below it.
#[derive(Debug, Clone, Copy, PartialEq, Eq)]
pub struct DescendingRun;

impl<R: Rank, S: Suit> RunRule<R, S> for DescendingRun {
    open spec fn admits(&self, below: Card<R, S>, above: Card<R, S>) -> bool {
        above.rank.rank_value() + 1 == below.rank.rank_value()
    }

    fn check(&self, below: &Card<R, S>, above: &Card<R, S>) -> (ok: bool) {
        let low: usize = above.rank.ordinal();
        let high: usize = below.rank.ordinal();
        low < high && high - low == 1
    }
}

/// The rule that admits every run.
#[derive(Debug, Clone, Copy, PartialEq, Eq)]
pub struct AnyRun;

impl<R: Rank, S: Suit> RunRule<R, S> for AnyRun {
    open spec fn admits(&self, below: Card<R, S>, above: Card<R, S>) -> bool {
        true
    }

    fn check(&self, below: &Card<R, S>, above: &Card<R, S>) -> (ok: bool) {
        true
    }
}

/// Whether the cards at `index` and `index + 1` of `run` may lie on each
/// other under `rule`.
pub open spec fn step_admitted<R: Rank, S: Suit, P: RunRule<R, S>>(
    rule: P,
    run: Seq<Card<R, S>>,
    index: int,
) -> bool {
    rule.admits(run[index], run[index + 1])
}

/// Whether `run`, listed bottom first, is legal under `rule`: every card but
/// the bottom one may lie on the card below it.
pub open spec fn legal_run<R: Rank, S: Suit, P: RunRule<R, S>>(
    rule: P,
    run: Seq<Card<R, S>>,
) -> bool {
    forall|index: int| 0 <= index < run.len() - 1 ==> #[trigger] step_admitted(rule, run, index)
}

/// Checks the cards of `stack` from `start` through the top against `rule`.
pub(crate) fn run_is_legal<R: Rank, S: Suit, P: RunRule<R, S>>(
    stack: &Vec<Card<R, S>>,
    start: usize,
    rule: &P,
) -> (ok: bool)
    requires
        start < stack@.len(),
    ensures
        ok == legal_run(*rule, stack@.subrange(start as int, stack@.len() as int)),
{
    let ghost run = stack@.subrange(start as int, stack@.len() as int);
    let mut at: usize = start;
    while at < stack.len() - 1
        invariant
            start <= at < stack@.len(),
            run == stack@.subrange(start as int, stack@.len() as int),
            forall|index: int| 0 <= index < at - start ==> #[trigger] step_admitted(*rule, run, index),
        decreases stack@.len() - at,
    {
        let ok = rule.check(&stack[at], &stack[at + 1]);
        if !ok {
            assert(!step_admitted(*rule, run, at - start));
            return false;
        }
        at = at + 1;
    }
    true
}

} // verus!
