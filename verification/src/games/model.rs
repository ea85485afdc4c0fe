//! The mathematical model of a board and of what a move does to it.
//!
//! A board is a sequence of stacks, a stack a sequence of cards with the
//! bottom card at index 0 and the top card last.

use crate::cards::{copy_of, Card, Rank, Suit};
use crate::games::rules::{legal_run, RunRule};
use crate::games::{BoardError, Move, MoveResult};
use vstd::multiset::Multiset;
use vstd::prelude::*;

verus! {

impl Move {
    /// The index of the stack the cards leave.
    pub open spec fn source(self) -> usize {
        match self {
            Move::Individual { from, to } => from,
            Move::Stack { row, start, to } => row,
        }
    }

    /// The index of the stack the cards arrive on.
    pub open spec fn target(self) -> usize {
        match self {
            Move::Individual { from, to } => to,
            Move::Stack { row, start, to } => to,
        }
    }
}

/// The stacks held by nested vectors, as sequences.
pub open spec fn columns_of<T>(stacks: Seq<Vec<T>>) -> Seq<Seq<T>> {
    Seq::new(stacks.len(), |column: int| stacks[column]@)
}

/// The number of cards on all stacks together.
pub open spec fn total_cards<T>(stacks: Seq<Seq<T>>) -> nat
    decreases stacks.len(),
{
    if stacks.len() == 0 {
        0
    } else {
        total_cards(stacks.drop_last()) + stacks.last().len()
    }
}

/// The cards on all stacks together, each as often as it occurs.
pub open spec fn cards_on<T>(stacks: Seq<Seq<T>>) -> Multiset<T>
    decreases stacks.len(),
{
    if stacks.len() == 0 {
        Multiset::empty()
    } else {
        cards_on(stacks.drop_last()).add(stacks.last().to_multiset())
    }
}

/// The cards of stack `row` from index `start` through the top.
pub open spec fn run_from<T>(stacks: Seq<Seq<T>>, row: int, start: int) -> Seq<T> {
    stacks[row].subrange(start, stacks[row].len() as int)
}

/// Whether every index that `mv` names exists on `stacks`.
pub open spec fn indices_in_range<T>(stacks: Seq<Seq<T>>, mv: Move) -> bool {
    match mv {
        Move::Individual { from, to } => from < stacks.len() && to < stacks.len(),
        Move::Stack { row, start, to } => {
            &&& row < stacks.len()
            &&& to < stacks.len()
            &&& start < stacks[row as int].len()
        },
    }
}

/// Why `mv` is refused on `stacks` under `rule`, or `None` where it is
/// legal. Indices are judged first, then the source, then the run.
pub open spec fn move_error<R: Rank, S: Suit, P: RunRule<R, S>>(
    stacks: Seq<Seq<Card<R, S>>>,
    mv: Move,
    rule: P,
) -> Option<BoardError> {
    if !indices_in_range(stacks, mv) {
        Some(BoardError::IndexOutOfRange)
    } else {
        match mv {
            Move::Individual { from, to } => {
                if stacks[from as int].len() == 0 {
                    Some(BoardError::EmptySource)
                } else {
                    None
                }
            },
            Move::Stack { row, start, to } => {
                if !legal_run(rule, run_from(stacks, row as int, start as int)) {
                    Some(BoardError::IllegalRun)
                } else {
                    None
                }
            },
        }
    }
}

/// Whether `mv` can be carried out on `stacks` whatever the rule says: its
/// indices exist and a single card's source is not empty.
pub open spec fn can_carry_out<T>(stacks: Seq<Seq<T>>, mv: Move) -> bool {
    &&& indices_in_range(stacks, mv)
    &&& mv matches Move::Individual { from, to } ==> stacks[from as int].len() > 0
}

/// The stacks after the cards of stack `row` from `start` through the top
/// have been lifted off and set down, in the same order, on stack `to`.
pub open spec fn relocate<T>(stacks: Seq<Seq<T>>, row: int, start: int, to: int) -> Seq<Seq<T>> {
    let lifted = stacks.update(row, stacks[row].take(start));
    lifted.update(to, lifted[to] + run_from(stacks, row, start))
}

/// The stacks after a legal `mv`.
pub open spec fn after_move<T>(stacks: Seq<Seq<T>>, mv: Move) -> Seq<Seq<T>> {
    match mv {
        Move::Individual { from, to } => {
            let lifted = stacks.update(from as int, stacks[from as int].drop_last());
            lifted.update(to as int, lifted[to as int].push(stacks[from as int].last()))
        },
        Move::Stack { row, start, to } => relocate(stacks, row as int, start as int, to as int),
    }
}

/// What a legal `mv` reports: nothing changed where source and destination
/// coincide, else the number of cards that changed stacks.
pub open spec fn move_outcome<T>(stacks: Seq<Seq<T>>, mv: Move) -> MoveResult {
    if mv.source() == mv.target() {
        MoveResult::Unchanged
    } else {
        match mv {
            Move::Individual { from, to } => MoveResult::Moved { cards: 1 },
            Move::Stack { row, start, to } => MoveResult::Moved {
                cards: (stacks[row as int].len() - start) as usize,
            },
        }
    }
}

/// `copy` has a card that cloning may give for each card of `stack`, in the
/// same order.
pub open spec fn stack_copy_of<R: Rank, S: Suit>(
    stack: Seq<Card<R, S>>,
    copy: Seq<Card<R, S>>,
) -> bool {
    &&& copy.len() == stack.len()
    &&& forall|index: int| 0 <= index < stack.len() ==> copy_of(stack[index], #[trigger] copy[index])
}

/// `copy` has a stack that copying may give for each stack of `stacks`, in
/// the same order.
pub open spec fn stacks_copy_of<R: Rank, S: Suit>(
    stacks: Seq<Seq<Card<R, S>>>,
    copy: Seq<Seq<Card<R, S>>>,
) -> bool {
    &&& copy.len() == stacks.len()
    &&& forall|column: int|
        0 <= column < stacks.len() ==> stack_copy_of(stacks[column], #[trigger] copy[column])
}

} // verus!
