//! What holds of every board and every move.

use crate::cards::{clones_exactly, Card, Rank, Suit};
use crate::games::model::{
    after_move, can_carry_out, cards_on, move_error, move_outcome, relocate, run_from,
    stack_copy_of, stacks_copy_of, total_cards,
};
use crate::games::rules::{legal_run, RunRule};
use crate::games::{BoardError, Move, MoveResult};
use vstd::multiset::group_multiset_axioms;
use vstd::prelude::*;
use vstd::seq_lib::{lemma_multiset_commutative, to_multiset_len};

verus! {

/// Replacing one stack takes that stack's cards off the board and puts the
/// new stack's cards on it.
pub proof fn lemma_cards_after_update<T>(stacks: Seq<Seq<T>>, column: int, stack: Seq<T>)
    requires
        0 <= column < stacks.len(),
    ensures
        cards_on(stacks.update(column, stack)).add(stacks[column].to_multiset()) == cards_on(
            stacks,
        ).add(stack.to_multiset()),
    decreases stacks.len(),
{
    broadcast use group_multiset_axioms;

    let updated = stacks.update(column, stack);
    let before = stacks.drop_last();
    let taken = stacks[column].to_multiset();
    let put = stack.to_multiset();
    if column == stacks.len() - 1 {
        assert(updated.drop_last() =~= before);
    } else {
        lemma_cards_after_update(before, column, stack);
        assert(updated.drop_last() =~= before.update(column, stack));
        assert forall|card: T|
            cards_on(updated).add(taken).count(card) == cards_on(stacks).add(put).count(
                card,
            ) by {
            assert(cards_on(before.update(column, stack)).add(taken).count(card) == cards_on(
                before,
            ).add(put).count(card));
        }
    }
}

/// Lifting a run off one stack and setting it down on another, or on the
/// same one, keeps the cards that are on the board.
pub proof fn lemma_relocate_keeps_the_cards<T>(stacks: Seq<Seq<T>>, row: int, start: int, to: int)
    requires
        0 <= row < stacks.len(),
        0 <= to < stacks.len(),
        0 <= start <= stacks[row].len(),
    ensures
        cards_on(relocate(stacks, row, start, to)) == cards_on(stacks),
{
    broadcast use group_multiset_axioms;

    let kept = stacks[row].take(start);
    let run = run_from(stacks, row, start);
    let lifted = stacks.update(row, kept);
    let moved = relocate(stacks, row, start, to);
    lemma_cards_after_update(stacks, row, kept);
    lemma_cards_after_update(lifted, to, lifted[to] + run);
    lemma_multiset_commutative(kept, run);
    lemma_multiset_commutative(lifted[to], run);
    assert(kept + run =~= stacks[row]);
    assert forall|card: T| cards_on(moved).count(card) == cards_on(stacks).count(card) by {
        assert(cards_on(lifted).add(stacks[row].to_multiset()).count(card) == cards_on(
            stacks,
        ).add(kept.to_multiset()).count(card));
        assert(cards_on(moved).add(lifted[to].to_multiset()).count(card) == cards_on(lifted).add(
            (lifted[to] + run).to_multiset(),
        ).count(card));
        assert(stacks[row].to_multiset().count(card) == kept.to_multiset().add(
            run.to_multiset(),
        ).count(card));
        assert((lifted[to] + run).to_multiset().count(card) == lifted[to].to_multiset().add(
            run.to_multiset(),
        ).count(card));
    }
}

/// A move that can be carried out keeps the number of stacks and the cards
/// that are on the board: every card is there as often as before, and so
/// there are as many cards as before.
pub proof fn lemma_carrying_out_keeps_the_cards<T>(stacks: Seq<Seq<T>>, mv: Move)
    requires
        can_carry_out(stacks, mv),
    ensures
        after_move(stacks, mv).len() == stacks.len(),
        cards_on(after_move(stacks, mv)) == cards_on(stacks),
        total_cards(after_move(stacks, mv)) == total_cards(stacks),
{
    match mv {
        Move::Individual { from, to } => {
            lemma_individual_is_a_run_of_one(stacks, from, to);
            lemma_relocate_keeps_the_cards(
                stacks,
                from as int,
                stacks[from as int].len() - 1,
                to as int,
            );
        },
        Move::Stack { row, start, to } => {
            lemma_relocate_keeps_the_cards(stacks, row as int, start as int, to as int);
        },
    }
    lemma_total_counts_the_cards(stacks);
    lemma_total_counts_the_cards(after_move(stacks, mv));
}

/// Moving the top card of a stack is moving the run that begins at the
/// top card.
pub proof fn lemma_individual_is_a_run_of_one<T>(stacks: Seq<Seq<T>>, from: usize, to: usize)
    requires
        can_carry_out(stacks, Move::Individual { from, to }),
    ensures
        after_move(stacks, Move::Individual { from, to }) == relocate(
            stacks,
            from as int,
            stacks[from as int].len() - 1,
            to as int,
        ),
{
    let source = stacks[from as int];
    let top = source.len() - 1;
    let lifted = stacks.update(from as int, source.drop_last());
    assert(lifted[to as int] + run_from(stacks, from as int, top) =~= lifted[to as int].push(
        source.last(),
    ));
}

/// The number of cards on the board is the size of the multiset of them.
pub proof fn lemma_total_counts_the_cards<T>(stacks: Seq<Seq<T>>)
    ensures
        total_cards(stacks) == cards_on(stacks).len(),
    decreases stacks.len(),
{
    broadcast use group_multiset_axioms;

    if stacks.len() > 0 {
        lemma_total_counts_the_cards(stacks.drop_last());
        to_multiset_len(stacks.last());
    }
}

/// A legal move keeps the number of stacks, the number of cards, and the
/// cards themselves.
pub proof fn lemma_move_conserves_cards<R: Rank, S: Suit, P: RunRule<R, S>>(
    stacks: Seq<Seq<Card<R, S>>>,
    mv: Move,
    rule: P,
)
    requires
        move_error(stacks, mv, rule) is None,
    ensures
        total_cards(after_move(stacks, mv)) == total_cards(stacks),
        cards_on(after_move(stacks, mv)) == cards_on(stacks),
        after_move(stacks, mv).len() == stacks.len(),
{
    lemma_carrying_out_keeps_the_cards(stacks, mv);
}

/// A move that names a stack index, or a start index, past the end is
/// refused as out of range, whatever the rule.
pub proof fn lemma_out_of_range_is_refused<R: Rank, S: Suit, P: RunRule<R, S>>(
    stacks: Seq<Seq<Card<R, S>>>,
    mv: Move,
    rule: P,
)
    requires
        match mv {
            Move::Individual { from, to } => from >= stacks.len() || to >= stacks.len(),
            Move::Stack { row, start, to } => {
                ||| row >= stacks.len()
                ||| to >= stacks.len()
                ||| start >= stacks[row as int].len()
            },
        },
    ensures
        move_error(stacks, mv, rule) == Some(BoardError::IndexOutOfRange),
{
}

/// The cards a stack move relocates lie on the destination in the order
/// they had on the source, directly above what the destination held.
pub proof fn lemma_run_keeps_its_order<R: Rank, S: Suit, P: RunRule<R, S>>(
    stacks: Seq<Seq<Card<R, S>>>,
    row: usize,
    start: usize,
    to: usize,
    rule: P,
)
    requires
        move_error(stacks, Move::Stack { row, start, to }, rule) is None,
        row != to,
    ensures
        ({
            let after = after_move(stacks, Move::Stack { row, start, to });
            let moved = stacks[row as int].len() - start;
            &&& after[to as int].len() == stacks[to as int].len() + moved
            &&& after[to as int].take(stacks[to as int].len() as int) == stacks[to as int]
            &&& forall|k: int|
                0 <= k < moved ==> #[trigger] after[to as int][stacks[to as int].len() + k]
                    == stacks[row as int][start + k]
            &&& after[row as int] == stacks[row as int].take(start as int)
        }),
{
}

/// A move onto its own source succeeds wherever the source holds the cards
/// it names, and for a run wherever the run is legal; it leaves every stack
/// as it was.
pub proof fn lemma_self_move_changes_nothing<R: Rank, S: Suit, P: RunRule<R, S>>(
    stacks: Seq<Seq<Card<R, S>>>,
    mv: Move,
    rule: P,
)
    requires
        mv.source() == mv.target(),
        mv.source() < stacks.len(),
        match mv {
            Move::Individual { from, to } => stacks[from as int].len() > 0,
            Move::Stack { row, start, to } => {
                &&& start < stacks[row as int].len()
                &&& legal_run(rule, run_from(stacks, row as int, start as int))
            },
        },
    ensures
        move_error(stacks, mv, rule) is None,
        after_move(stacks, mv) == stacks,
        move_outcome(stacks, mv) == MoveResult::Unchanged,
{
    match mv {
        Move::Individual { from, to } => {
            let source = stacks[from as int];
            assert(source.drop_last().push(source.last()) =~= source);
        },
        Move::Stack { row, start, to } => {
            let source = stacks[row as int];
            assert(source.take(start as int) + run_from(stacks, row as int, start as int)
                =~= source);
        },
    }
}

/// A legal move changes no stack but its source and its destination.
pub proof fn lemma_other_stacks_stay<R: Rank, S: Suit, P: RunRule<R, S>>(
    stacks: Seq<Seq<Card<R, S>>>,
    mv: Move,
    rule: P,
    column: int,
)
    requires
        move_error(stacks, mv, rule) is None,
        0 <= column < stacks.len(),
        column != mv.source(),
        column != mv.target(),
    ensures
        after_move(stacks, mv)[column] == stacks[column],
{
}

/// Copying commutes with moving: the move carried out on a copy of the
/// stacks gives a copy of what it gives on the stacks themselves.
pub proof fn lemma_move_on_a_copy<R: Rank, S: Suit>(
    stacks: Seq<Seq<Card<R, S>>>,
    copy: Seq<Seq<Card<R, S>>>,
    mv: Move,
)
    requires
        stacks_copy_of(stacks, copy),
        can_carry_out(stacks, mv),
    ensures
        can_carry_out(copy, mv),
        stacks_copy_of(after_move(stacks, mv), after_move(copy, mv)),
{
    let moved = after_move(stacks, mv);
    let moved_copy = after_move(copy, mv);
    assert forall|column: int| 0 <= column < moved.len() implies stack_copy_of(
        moved[column],
        #[trigger] moved_copy[column],
    ) by {
        assert(stack_copy_of(stacks[column], copy[column]));
    }
}

/// A copy of the stacks has as many stacks and as many cards.
pub proof fn lemma_copy_keeps_the_count<R: Rank, S: Suit>(
    stacks: Seq<Seq<Card<R, S>>>,
    copy: Seq<Seq<Card<R, S>>>,
)
    requires
        stacks_copy_of(stacks, copy),
    ensures
        copy.len() == stacks.len(),
        total_cards(copy) == total_cards(stacks),
    decreases stacks.len(),
{
    if stacks.len() > 0 {
        assert forall|column: int| 0 <= column < stacks.drop_last().len() implies stack_copy_of(
            stacks.drop_last()[column],
            #[trigger] copy.drop_last()[column],
        ) by {
            assert(stack_copy_of(stacks[column], copy[column]));
        }
        lemma_copy_keeps_the_count(stacks.drop_last(), copy.drop_last());
    }
}

/// Where the clone of a rank is that rank and the clone of a suit that
/// suit, a copy of the stacks equals the stacks.
pub proof fn lemma_exact_copy<R: Rank, S: Suit>(
    stacks: Seq<Seq<Card<R, S>>>,
    copy: Seq<Seq<Card<R, S>>>,
)
    requires
        stacks_copy_of(stacks, copy),
        clones_exactly::<R>(),
        clones_exactly::<S>(),
    ensures
        copy == stacks,
{
    assert forall|column: int| 0 <= column < stacks.len() implies copy[column] == stacks[column] by {
        assert(stack_copy_of(stacks[column], copy[column]));
        assert(copy[column] =~= stacks[column]);
    }
}

} // verus!
