//! Boards, moves, and the operations that apply a move or branch on it.

pub mod deal;
pub mod deal_laws;
pub mod laws;
pub mod model;
pub mod rules;
pub mod shenzen;

use crate::cards::{clones_exactly, Card, Rank, Suit};
use crate::games::deal::{deal, deal_descending, deal_evenly, deal_fits};
use crate::games::deal_laws::lemma_deal_holds_the_deck;
use crate::games::laws::{
    lemma_carrying_out_keeps_the_cards, lemma_copy_keeps_the_count, lemma_exact_copy,
    lemma_move_on_a_copy,
};
use crate::games::model::{
    after_move, can_carry_out, cards_on, columns_of, move_error, move_outcome, stack_copy_of,
    stacks_copy_of, total_cards,
};
use crate::games::rules::{run_is_legal, DescendingRun, RunRule};
use vstd::prelude::*;

verus! {

/// A request to relocate cards between the stacks of a board.
#[derive(Debug, Clone, Copy, PartialEq, Eq)]
pub enum Move {
    /// Take the top card of stack `from` and put it on top of stack `to`.
    Individual { from: usize, to: usize },
    /// Take the cards of stack `row` from index `start` through the top and
    /// put them, in the same order, on top of stack `to`.
    Stack { row: usize, start: usize, to: usize },
}

/// What a move that succeeded did.
#[derive(Debug, Clone, Copy, PartialEq, Eq)]
pub enum MoveResult {
    /// `cards` cards went from one stack to another.
    Moved { cards: usize },
    /// Source and destination were the same stack; nothing changed.
    Unchanged,
}

/// Why an operation on a board was refused.
#[derive(Debug, Clone, Copy, PartialEq, Eq)]
pub enum BoardError {
    /// A stack index, or an index into a stack, is past the end.
    IndexOutOfRange,
    /// A single-card move names a source stack with no cards.
    EmptySource,
    /// The cards a stack move would lift do not form a legal run.
    IllegalRun,
    /// The cards cannot be dealt into the requested shape.
    InvalidDeckSize,
}

/// How a fresh deck is dealt into stacks.
#[derive(Debug, Clone, Copy, PartialEq, Eq)]
pub enum BoardConfig {
    /// Round-robin: the card at index `i` goes to stack `i % stacks`.
    Even,
    /// Consecutive blocks of the deck: each stack gets one card fewer than
    /// the stack before it, the first stack as many as the deck allows,
    /// and what is left over goes to the last stack.
    Descending,
}

/// A tableau: a fixed number of stacks of cards.
///
/// Index 0 of a stack is its bottom card, the last index its top card. The
/// view of a board is the sequence of its stacks, each a sequence of cards.
#[derive(Debug)]
pub struct Board<R: Rank, S: Suit> {
    stacks: Vec<Vec<Card<R, S>>>,
}

impl<R: Rank, S: Suit> View for Board<R, S> {
    type V = Seq<Seq<Card<R, S>>>;

    closed spec fn view(&self) -> Seq<Seq<Card<R, S>>> {
        columns_of(self.stacks@)
    }
}

impl<R: Rank, S: Suit> Board<R, S> {
    /// Deals `cards` into `num_stacks` stacks in the shape `config` names.
    ///
    /// Fails with `InvalidDeckSize` where there is no stack to deal to, or
    /// where a descending deal would need a block of negative size.
    pub fn new(cards: Vec<Card<R, S>>, config: BoardConfig, num_stacks: usize) -> (result: Result<
        Self,
        BoardError,
    >)
        ensures
            match result {
                Ok(board) => {
                    &&& deal_fits(cards@.len() as int, config, num_stacks as int)
                    &&& board@ == deal(cards@, config, num_stacks as int)
                    &&& board@.len() == num_stacks
                    &&& cards_on(board@) == cards@.to_multiset()
                    &&& total_cards(board@) == cards@.len()
                },
                Err(error) => {
                    &&& error == BoardError::InvalidDeckSize
                    &&& !deal_fits(cards@.len() as int, config, num_stacks as int)
                },
            },
    {
        if num_stacks == 0 {
            return Err(BoardError::InvalidDeckSize);
        }
        proof {
            if deal_fits(cards@.len() as int, config, num_stacks as int) {
                lemma_deal_holds_the_deck(cards@, config, num_stacks as int);
            }
        }
        match config {
            BoardConfig::Even => Ok(Board { stacks: deal_evenly(cards, num_stacks) }),
            BoardConfig::Descending => match deal_descending(cards, num_stacks) {
                Some(stacks) => Ok(Board { stacks }),
                None => Err(BoardError::InvalidDeckSize),
            },
        }
    }

    /// A board that holds exactly the given stacks.
    pub fn from_stacks(stacks: Vec<Vec<Card<R, S>>>) -> (board: Self)
        ensures
            board@ == columns_of(stacks@),
    {
        Board { stacks }
    }

    /// Applies `mv` under the default rule, by which a run is legal when
    /// each of its cards has an ordinal one less than the card below it.
    ///
    /// On success the board is the old one with the cards relocated; on
    /// failure it is unchanged.
    pub fn apply_move(&mut self, mv: Move) -> (result: Result<MoveResult, BoardError>)
        ensures
            match result {
                Ok(outcome) => {
                    &&& move_error(old(self)@, mv, DescendingRun) is None
                    &&& final(self)@ == after_move(old(self)@, mv)
                    &&& outcome == move_outcome(old(self)@, mv)
                },
                Err(error) => {
                    &&& move_error(old(self)@, mv, DescendingRun) == Some(error)
                    &&& final(self)@ == old(self)@
                },
            },
            final(self)@.len() == old(self)@.len(),
            cards_on(final(self)@) == cards_on(old(self)@),
            total_cards(final(self)@) == total_cards(old(self)@),
    {
        self.apply_move_with(mv, &DescendingRun)
    }

    /// Applies `mv` under the run rule that the caller supplies.
    ///
    /// The indices are checked first, then that a single card's source is
    /// not empty, then that a run is legal under `rule`; nothing is changed
    /// before all checks have passed. A move onto its own source succeeds
    /// and changes nothing.
    pub fn apply_move_with<P: RunRule<R, S>>(&mut self, mv: Move, rule: &P) -> (result: Result<
        MoveResult,
        BoardError,
    >)
        ensures
            match result {
                Ok(outcome) => {
                    &&& move_error(old(self)@, mv, *rule) is None
                    &&& final(self)@ == after_move(old(self)@, mv)
                    &&& outcome == move_outcome(old(self)@, mv)
                },
                Err(error) => {
                    &&& move_error(old(self)@, mv, *rule) == Some(error)
                    &&& final(self)@ == old(self)@
                },
            },
            final(self)@.len() == old(self)@.len(),
            cards_on(final(self)@) == cards_on(old(self)@),
            total_cards(final(self)@) == total_cards(old(self)@),
    {
        match self.refusal(mv, rule) {
            Some(error) => Err(error),
            None => Ok(self.carry_out(mv)),
        }
    }

    /// A board of its own with `mv` applied under the default rule; this
    /// board stays as it is.
    pub fn next_board(&self, mv: Move) -> (result: Result<Board<R, S>, BoardError>)
        ensures
            match result {
                Ok(next) => {
                    &&& move_error(self@, mv, DescendingRun) is None
                    &&& stacks_copy_of(after_move(self@, mv), next@)
                    &&& next@.len() == self@.len()
                    &&& total_cards(next@) == total_cards(self@)
                    &&& clones_exactly::<R>() && clones_exactly::<S>() ==> next@ == after_move(
                        self@,
                        mv,
                    )
                },
                Err(error) => move_error(self@, mv, DescendingRun) == Some(error),
            },
    {
        self.next_board_with(mv, &DescendingRun)
    }

    /// A board of its own with `mv` applied under the run rule that the
    /// caller supplies; this board stays as it is.
    ///
    /// The move is judged on this board. The successor shares no storage
    /// with it: every card is cloned, and the move is carried out on the
    /// clones. So the successor holds, card for card, clones of what the
    /// move gives on this board; where cloning a rank and a suit gives
    /// back an equal value, it holds exactly that.
    pub fn next_board_with<P: RunRule<R, S>>(&self, mv: Move, rule: &P) -> (result: Result<
        Board<R, S>,
        BoardError,
    >)
        ensures
            match result {
                Ok(next) => {
                    &&& move_error(self@, mv, *rule) is None
                    &&& stacks_copy_of(after_move(self@, mv), next@)
                    &&& next@.len() == self@.len()
                    &&& total_cards(next@) == total_cards(self@)
                    &&& clones_exactly::<R>() && clones_exactly::<S>() ==> next@ == after_move(
                        self@,
                        mv,
                    )
                },
                Err(error) => move_error(self@, mv, *rule) == Some(error),
            },
    {
        match self.refusal(mv, rule) {
            Some(error) => Err(error),
            None => {
                let mut next = Board { stacks: copy_stacks(&self.stacks) };
                proof {
                    lemma_move_on_a_copy(self@, next@, mv);
                }
                next.carry_out(mv);
                proof {
                    lemma_carrying_out_keeps_the_cards(self@, mv);
                    lemma_copy_keeps_the_count(after_move(self@, mv), next@);
                    if clones_exactly::<R>() && clones_exactly::<S>() {
                        lemma_exact_copy(after_move(self@, mv), next@);
                    }
                }
                Ok(next)
            },
        }
    }

    /// Why `mv` is refused on this board under `rule`, if it is.
    fn refusal<P: RunRule<R, S>>(&self, mv: Move, rule: &P) -> (refusal: Option<BoardError>)
        ensures
            refusal == move_error(self@, mv, *rule),
    {
        let columns: usize = self.stacks.len();
        match mv {
            Move::Individual { from, to } => {
                if from >= columns || to >= columns {
                    Some(BoardError::IndexOutOfRange)
                } else if self.stacks[from].len() == 0 {
                    Some(BoardError::EmptySource)
                } else {
                    None
                }
            },
            Move::Stack { row, start, to } => {
                if row >= columns || to >= columns {
                    Some(BoardError::IndexOutOfRange)
                } else if start >= self.stacks[row].len() {
                    Some(BoardError::IndexOutOfRange)
                } else if !run_is_legal(&self.stacks[row], start, rule) {
                    Some(BoardError::IllegalRun)
                } else {
                    None
                }
            },
        }
    }

    /// Relocates the cards that `mv` names.
    fn carry_out(&mut self, mv: Move) -> (outcome: MoveResult)
        requires
            can_carry_out(old(self)@, mv),
        ensures
            final(self)@ == after_move(old(self)@, mv),
            outcome == move_outcome(old(self)@, mv),
            final(self)@.len() == old(self)@.len(),
            cards_on(final(self)@) == cards_on(old(self)@),
            total_cards(final(self)@) == total_cards(old(self)@),
    {
        proof {
            lemma_carrying_out_keeps_the_cards(self@, mv);
        }
        match mv {
            Move::Individual { from, to } => {
                if let Some(card) = self.stacks[from].pop() {
                    self.stacks[to].push(card);
                }
                assert(self@ =~= after_move(old(self)@, mv));
                if from == to {
                    MoveResult::Unchanged
                } else {
                    MoveResult::Moved { cards: 1 }
                }
            },
            Move::Stack { row, start, to } => {
                let height: usize = self.stacks[row].len();
                let mut run = self.stacks[row].split_off(start);
                self.stacks[to].append(&mut run);
                assert(self@ =~= after_move(old(self)@, mv));
                if row == to {
                    MoveResult::Unchanged
                } else {
                    MoveResult::Moved { cards: height - start }
                }
            },
        }
    }

    /// All stacks, bottom card first.
    pub fn board(&self) -> (stacks: &Vec<Vec<Card<R, S>>>)
        ensures
            columns_of(stacks@) == self@,
    {
        &self.stacks
    }

    /// The number of stacks.
    pub fn columns(&self) -> (count: usize)
        ensures
            count == self@.len(),
    {
        self.stacks.len()
    }

    /// The number of cards on stack `column`, or `IndexOutOfRange` where
    /// the board has no such stack.
    pub fn column_length(&self, column: usize) -> (result: Result<usize, BoardError>)
        ensures
            match result {
                Ok(length) => column < self@.len() && length == self@[column as int].len(),
                Err(error) => column >= self@.len() && error == BoardError::IndexOutOfRange,
            },
    {
        if column < self.stacks.len() {
            Ok(self.stacks[column].len())
        } else {
            Err(BoardError::IndexOutOfRange)
        }
    }

    /// The card at index `column_row.1` of stack `column_row.0`, or
    /// `IndexOutOfRange` where the board has no such stack or the stack no
    /// such index.
    pub fn card_at(&self, column_row: (usize, usize)) -> (result: Result<&Card<R, S>, BoardError>)
        ensures
            match result {
                Ok(card) => {
                    &&& column_row.0 < self@.len()
                    &&& column_row.1 < self@[column_row.0 as int].len()
                    &&& *card == self@[column_row.0 as int][column_row.1 as int]
                },
                Err(error) => {
                    &&& error == BoardError::IndexOutOfRange
                    &&& column_row.0 >= self@.len() || column_row.1 >= self@[column_row.0 as int].len()
                },
            },
    {
        let (column, row) = column_row;
        if column >= self.stacks.len() {
            return Err(BoardError::IndexOutOfRange);
        }
        let stack = &self.stacks[column];
        if row >= stack.len() {
            return Err(BoardError::IndexOutOfRange);
        }
        Ok(&stack[row])
    }
}

/// A copy of one stack that shares nothing with it.
fn copy_stack<R: Rank, S: Suit>(stack: &Vec<Card<R, S>>) -> (copy: Vec<Card<R, S>>)
    ensures
        stack_copy_of(stack@, copy@),
{
    let mut copy: Vec<Card<R, S>> = Vec::new();
    let mut at: usize = 0;
    while at < stack.len()
        invariant
            at <= stack@.len(),
            stack_copy_of(stack@.take(at as int), copy@),
        decreases stack@.len() - at,
    {
        copy.push(stack[at].clone());
        at = at + 1;
    }
    copy
}

/// A copy of all stacks that shares nothing with them.
fn copy_stacks<R: Rank, S: Suit>(stacks: &Vec<Vec<Card<R, S>>>) -> (copy: Vec<Vec<Card<R, S>>>)
    ensures
        stacks_copy_of(columns_of(stacks@), columns_of(copy@)),
{
    let mut copy: Vec<Vec<Card<R, S>>> = Vec::new();
    let mut at: usize = 0;
    while at < stacks.len()
        invariant
            at <= stacks@.len(),
            copy@.len() == at,
            stacks_copy_of(columns_of(stacks@).take(at as int), columns_of(copy@)),
        decreases stacks@.len() - at,
    {
        let ghost before = columns_of(copy@);
        copy.push(copy_stack(&stacks[at]));
        assert forall|column: int| 0 <= column <= at implies stack_copy_of(
            columns_of(stacks@)[column],
            #[trigger] columns_of(copy@)[column],
        ) by {
            if column < at {
                assert(columns_of(copy@)[column] == before[column]);
            }
        }
        at = at + 1;
    }
    copy
}

} // verus!
