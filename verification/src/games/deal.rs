//! Dealing a deck into the stacks of a fresh board.
//!
//! An even deal goes round the stacks card by card. A descending deal cuts
//! the deck into consecutive blocks: the first stack gets the largest block,
//! each later stack one card fewer, and the last stack also takes whatever
//! is left over. The first block is made as large as the deck allows, so
//! fewer cards are left over than there are stacks.

use crate::games::deal_laws::{
    lemma_descending_start_step, lemma_descending_starts_in_deck, lemma_descending_top_bounds,
};
use crate::games::model::columns_of;
use crate::games::BoardConfig;
use vstd::arithmetic::div_mod::lemma_fundamental_div_mod_converse;
use vstd::prelude::*;

verus! {

/// How many cards stack `column` gets when `total` cards go round `stacks`
/// stacks: the full rounds, and one more for the stacks that the last,
/// partial round reaches.
pub open spec fn even_share(total: int, stacks: int, column: int) -> int {
    total / stacks + if column < total % stacks {
        1int
    } else {
        0int
    }
}

/// The even deal: stack `column` holds, bottom first, the cards at indices
/// `column`, `column + stacks`, `column + 2 * stacks`, and so on.
pub open spec fn even_deal<T>(cards: Seq<T>, stacks: int) -> Seq<Seq<T>> {
    Seq::new(
        stacks as nat,
        |column: int|
            Seq::new(
                even_share(cards.len() as int, stacks, column) as nat,
                |turn: int| cards[turn * stacks + column],
            ),
    )
}

/// `0 + 1 + ... + (count - 1)`.
pub open spec fn triangle(count: int) -> int {
    count * (count - 1) / 2
}

/// The size of the first block of a descending deal: the largest size for
/// which blocks that shrink by one card per stack do not need more than
/// `total` cards.
pub open spec fn descending_top(total: int, stacks: int) -> int {
    (total + triangle(stacks)) / stacks
}

/// The index in the deck at which the block of stack `column` begins.
pub open spec fn descending_start(total: int, stacks: int, column: int) -> int {
    column * descending_top(total, stacks) - triangle(column)
}

/// The index in the deck at which the block of stack `column` ends: where
/// the next block begins, or for the last stack the end of the deck.
pub open spec fn descending_end(total: int, stacks: int, column: int) -> int {
    if column == stacks - 1 {
        total
    } else {
        descending_start(total, stacks, column + 1)
    }
}

/// The descending deal: stack `column` holds its block of the deck.
pub open spec fn descending_deal<T>(cards: Seq<T>, stacks: int) -> Seq<Seq<T>> {
    Seq::new(
        stacks as nat,
        |column: int|
            cards.subrange(
                descending_start(cards.len() as int, stacks, column),
                descending_end(cards.len() as int, stacks, column),
            ),
    )
}

/// Whether `total` cards can be dealt into `stacks` stacks in the shape that
/// `config` asks for. There must be a stack to deal to, and a descending
/// deal needs enough cards that no block has a negative size.
pub open spec fn deal_fits(total: int, config: BoardConfig, stacks: int) -> bool {
    match config {
        BoardConfig::Even => stacks >= 1,
        BoardConfig::Descending => stacks >= 1 && total >= triangle(stacks),
    }
}

/// The stacks that `cards` are dealt into.
pub open spec fn deal<T>(cards: Seq<T>, config: BoardConfig, stacks: int) -> Seq<Seq<T>> {
    match config {
        BoardConfig::Even => even_deal(cards, stacks),
        BoardConfig::Descending => descending_deal(cards, stacks),
    }
}

/// `count` stacks without cards.
fn empty_stacks<T>(count: usize) -> (out: Vec<Vec<T>>)
    ensures
        out@.len() == count,
        forall|column: int| 0 <= column < count ==> (#[trigger] out@[column])@.len() == 0,
{
    let mut out: Vec<Vec<T>> = Vec::new();
    let mut made: usize = 0;
    while made < count
        invariant
            made <= count,
            out@.len() == made,
            forall|column: int| 0 <= column < made ==> (#[trigger] out@[column])@.len() == 0,
        decreases count - made,
    {
        out.push(Vec::new());
        made = made + 1;
    }
    out
}

/// Deals `cards` round `stacks` stacks.
pub(crate) fn deal_evenly<T>(cards: Vec<T>, stacks: usize) -> (out: Vec<Vec<T>>)
    requires
        stacks >= 1,
    ensures
        columns_of(out@) == even_deal(cards@, stacks as int),
{
    let ghost all = cards@;
    let mut out = empty_stacks(stacks);
    let mut column: usize = 0;
    let ghost mut turn: int = 0;
    for card in dealt: cards
        invariant
            dealt.seq() == all,
            out@.len() == stacks,
            column < stacks,
            turn >= 0,
            dealt.index() == turn * stacks + column,
            forall|c: int|
                0 <= c < stacks ==> (#[trigger] out@[c])@.len() == turn + if c < column {
                    1int
                } else {
                    0int
                },
            forall|c: int, t: int|
                0 <= c < stacks && 0 <= t < out@[c]@.len() ==> #[trigger] out@[c]@[t] == all[t
                    * stacks + c],
    {
        out[column].push(card);
        column = column + 1;
        if column == stacks {
            column = 0;
            proof {
                assert((turn + 1) * stacks == turn * stacks + stacks) by (nonlinear_arith);
                turn = turn + 1;
            }
        }
    }
    proof {
        lemma_fundamental_div_mod_converse(all.len() as int, stacks as int, turn, column as int);
        assert(columns_of(out@) =~~= even_deal(all, stacks as int));
    }
    out
}

/// Deals `cards` into blocks of descending size, or reports that the deck
/// is too small for `stacks` such blocks.
pub(crate) fn deal_descending<T>(cards: Vec<T>, stacks: usize) -> (result: Option<Vec<Vec<T>>>)
    requires
        stacks >= 1,
    ensures
        match result {
            Some(out) => {
                &&& cards@.len() >= triangle(stacks as int)
                &&& columns_of(out@) == descending_deal(cards@, stacks as int)
            },
            None => cards@.len() < triangle(stacks as int),
        },
{
    let ghost all = cards@;
    let total: usize = cards.len();
    assert(stacks * (stacks - 1) <= 0xffff_ffff_ffff_ffff * 0xffff_ffff_ffff_ffff)
        by (nonlinear_arith)
        requires
            1 <= stacks <= 0xffff_ffff_ffff_ffff,
    ;
    let needed: u128 = (stacks as u128) * ((stacks - 1) as u128) / 2;
    if needed > total as u128 {
        return None;
    }
    proof {
        lemma_descending_top_bounds(total as int, stacks as int);
    }
    let sum: u128 = total as u128 + needed;
    let top: usize = (sum / (stacks as u128)) as usize;
    let rest: usize = (sum % (stacks as u128)) as usize;
    let mut cards = cards;
    let mut out = empty_stacks(stacks);
    let mut column: usize = stacks;
    let mut at: usize = total - rest;
    while column > 0
        invariant
            stacks >= 1,
            total == all.len(),
            total >= triangle(stacks as int),
            top == descending_top(total as int, stacks as int),
            top >= stacks - 1,
            column <= stacks,
            out@.len() == stacks,
            at == descending_start(total as int, stacks as int, column as int),
            cards@ == all.take(
                if column == stacks {
                    total as int
                } else {
                    at as int
                },
            ),
            forall|c: int|
                column <= c < stacks ==> (#[trigger] out@[c])@ == all.subrange(
                    descending_start(total as int, stacks as int, c),
                    descending_end(total as int, stacks as int, c),
                ),
        decreases column,
    {
        proof {
            lemma_descending_start_step(total as int, stacks as int, column - 1);
            lemma_descending_starts_in_deck(total as int, stacks as int, column - 1);
            lemma_descending_starts_in_deck(total as int, stacks as int, column as int);
        }
        column = column - 1;
        at = at - (top - column);
        let block = cards.split_off(at);
        assert(block@ =~= all.subrange(
            descending_start(total as int, stacks as int, column as int),
            descending_end(total as int, stacks as int, column as int),
        ));
        out[column] = block;
    }
    Some(out)
}

} // verus!
