//! What holds of every deal.

use crate::games::deal::{
    deal, deal_fits, descending_deal, descending_end, descending_start, descending_top,
    even_deal, even_share, triangle,
};
use crate::games::laws::{lemma_cards_after_update, lemma_total_counts_the_cards};
use crate::games::model::{cards_on, total_cards};
use crate::games::BoardConfig;
use vstd::arithmetic::div_mod::{
    lemma_fundamental_div_mod, lemma_fundamental_div_mod_converse, lemma_mod_pos_bound,
};
use vstd::multiset::{group_multiset_axioms, Multiset};
use vstd::prelude::*;
use vstd::seq_lib::{lemma_multiset_commutative, to_multiset_build, to_multiset_len};

verus! {

/// Going one stack further adds the stack's index to the triangle.
pub proof fn lemma_triangle_step(count: int)
    ensures
        triangle(count + 1) == triangle(count) + count,
{
    assert((count + 1) * count == count * (count - 1) + 2 * count) by (nonlinear_arith);
}

/// Where the deck is large enough, the blocks of a descending deal use all
/// cards but fewer than `stacks` of them, and no block has a negative size.
pub proof fn lemma_descending_top_bounds(total: int, stacks: int)
    requires
        stacks >= 1,
        total >= triangle(stacks),
    ensures
        stacks - 1 <= descending_top(total, stacks) <= total,
        descending_start(total, stacks, stacks) <= total,
        total - descending_start(total, stacks, stacks) < stacks,
        descending_start(total, stacks, stacks) == total - (total + triangle(stacks)) % stacks,
{
    let sum = total + triangle(stacks);
    let top = descending_top(total, stacks);
    lemma_fundamental_div_mod(sum, stacks);
    lemma_mod_pos_bound(sum, stacks);
    lemma_twice_triangle(stacks);
    assert(stacks * top == top * stacks) by (nonlinear_arith);
    if top < stacks - 1 {
        assert(stacks * top + stacks <= stacks * (stacks - 1)) by (nonlinear_arith)
            requires
                top + 1 <= stacks - 1,
                stacks >= 1,
        ;
    }
    if stacks == 1 {
        assert(stacks * (stacks - 1) == 0 && stacks * top == top) by (nonlinear_arith)
            requires
                stacks == 1,
        ;
    }
    if stacks >= 2 && top > total {
        assert(stacks * top >= 2 * total + 2) by (nonlinear_arith)
            requires
                top >= total + 1,
                stacks >= 2,
                total >= 0,
        ;
    }
}

/// Twice the triangle of `count` is `count * (count - 1)`: the product of
/// two neighbours is even.
pub proof fn lemma_twice_triangle(count: int)
    requires
        count >= 0,
    ensures
        2 * triangle(count) == count * (count - 1),
        triangle(count) >= 0,
    decreases count,
{
    if count > 0 {
        lemma_twice_triangle(count - 1);
        lemma_triangle_step(count - 1);
        assert(count * (count - 1) == (count - 1) * (count - 2) + 2 * (count - 1))
            by (nonlinear_arith);
    }
}

/// The block of stack `column` has `descending_top - column` cards.
pub proof fn lemma_descending_start_step(total: int, stacks: int, column: int)
    ensures
        descending_start(total, stacks, column + 1) == descending_start(total, stacks, column)
            + descending_top(total, stacks) - column,
{
    let top = descending_top(total, stacks);
    lemma_triangle_step(column);
    assert((column + 1) * top == column * top + top) by (nonlinear_arith);
}

/// Where the deck is large enough, the blocks begin at indices that do not
/// decrease from stack to stack and stay inside the deck.
pub proof fn lemma_descending_starts_in_deck(total: int, stacks: int, column: int)
    requires
        stacks >= 1,
        total >= triangle(stacks),
        0 <= column <= stacks,
    ensures
        0 <= descending_start(total, stacks, column) <= descending_start(total, stacks, stacks)
            <= total,
    decreases stacks - column,
{
    lemma_descending_top_bounds(total, stacks);
    if column < stacks {
        lemma_descending_starts_in_deck(total, stacks, column + 1);
        lemma_descending_start_step(total, stacks, column);
    }
    lemma_descending_starts_from_zero(total, stacks, column);
}

/// Where no block has a negative size, no block begins before the deck.
proof fn lemma_descending_starts_from_zero(total: int, stacks: int, column: int)
    requires
        0 <= column <= stacks,
        descending_top(total, stacks) >= stacks - 1,
    ensures
        0 <= descending_start(total, stacks, column),
    decreases column,
{
    if column > 0 {
        lemma_descending_starts_from_zero(total, stacks, column - 1);
        lemma_descending_start_step(total, stacks, column - 1);
    }
}

/// In an even deal no stack gets more cards than a stack before it, and no
/// two stacks differ by more than one card.
pub proof fn lemma_even_shares_are_level(total: int, stacks: int, first: int, second: int)
    requires
        0 <= first <= second,
    ensures
        even_share(total, stacks, second) <= even_share(total, stacks, first) <= even_share(
            total,
            stacks,
            second,
        ) + 1,
{
}

/// In a descending deal that fits, each stack but the last holds one card
/// fewer than the stack before it, and the last stack holds what its turn
/// gives it and the cards left over, which are fewer than there are stacks.
pub proof fn lemma_descending_shape<T>(cards: Seq<T>, stacks: int, column: int)
    requires
        stacks >= 1,
        cards.len() >= triangle(stacks),
        0 <= column < stacks,
    ensures
        ({
            let dealt = descending_deal(cards, stacks);
            let top = descending_top(cards.len() as int, stacks);
            let left_over = (cards.len() + triangle(stacks)) % stacks;
            &&& top >= stacks - 1
            &&& 0 <= left_over < stacks
            &&& column < stacks - 1 ==> dealt[column].len() == top - column
            &&& column == stacks - 1 ==> dealt[column].len() == top - column + left_over
        }),
{
    let total = cards.len() as int;
    lemma_descending_top_bounds(total, stacks);
    lemma_descending_starts_in_deck(total, stacks, column);
    lemma_descending_starts_in_deck(total, stacks, column + 1);
    lemma_descending_start_step(total, stacks, column);
    lemma_twice_triangle(stacks);
    lemma_mod_pos_bound(total + triangle(stacks), stacks);
}

/// Dealing one card more puts that card on top of the stack whose turn it
/// is and leaves the rest of the even deal as it was: the card at index `i`
/// of the deck goes to stack `i % stacks`.
pub proof fn lemma_even_deal_step<T>(cards: Seq<T>, stacks: int, card: T)
    requires
        stacks >= 1,
    ensures
        0 <= cards.len() % (stacks as nat) < stacks,
        ({
            let dealt = even_deal(cards, stacks);
            let turn = (cards.len() % (stacks as nat)) as int;
            even_deal(cards.push(card), stacks) == dealt.update(turn, dealt[turn].push(card))
        }),
{
    let total = cards.len() as int;
    let rounds = total / stacks;
    let turn = total % stacks;
    let dealt = even_deal(cards, stacks);
    let longer = even_deal(cards.push(card), stacks);
    let expected = dealt.update(turn, dealt[turn].push(card));
    lemma_fundamental_div_mod(total, stacks);
    lemma_mod_pos_bound(total, stacks);
    assert(stacks * rounds == rounds * stacks) by (nonlinear_arith);
    if turn + 1 < stacks {
        lemma_fundamental_div_mod_converse(total + 1, stacks, rounds, turn + 1);
    } else {
        assert((rounds + 1) * stacks == rounds * stacks + stacks) by (nonlinear_arith);
        lemma_fundamental_div_mod_converse(total + 1, stacks, rounds + 1, 0);
    }
    assert forall|column: int| 0 <= column < stacks implies #[trigger] longer[column]
        == expected[column] by {
        assert(even_share(total + 1, stacks, column) == even_share(total, stacks, column) + if column
            == turn {
            1int
        } else {
            0int
        });
        assert forall|index: int| 0 <= index < expected[column].len() implies longer[column][index]
            == expected[column][index] by {
            if index < rounds {
                assert(index * stacks + column < rounds * stacks) by (nonlinear_arith)
                    requires
                        0 <= index <= rounds - 1,
                        0 <= column < stacks,
                ;
            }
        }
    }
}

/// An even deal puts the cards of the deck on the board, each as often as
/// the deck holds it.
pub proof fn lemma_even_deal_keeps_the_cards<T>(cards: Seq<T>, stacks: int)
    requires
        stacks >= 1,
    ensures
        cards_on(even_deal(cards, stacks)) == cards.to_multiset(),
    decreases cards.len(),
{
    broadcast use group_multiset_axioms;

    if cards.len() == 0 {
        lemma_no_cards_on_empty_stacks(even_deal(cards, stacks));
        assert(cards.to_multiset() =~= Multiset::empty()) by {
            to_multiset_len(cards);
        }
    } else {
        let before = cards.drop_last();
        let card = cards.last();
        let dealt = even_deal(before, stacks);
        let turn = (before.len() % (stacks as nat)) as int;
        assert(before.push(card) =~= cards);
        lemma_even_deal_keeps_the_cards(before, stacks);
        lemma_even_deal_step(before, stacks, card);
        lemma_cards_after_update(dealt, turn, dealt[turn].push(card));
        to_multiset_build(before, card);
        to_multiset_build(dealt[turn], card);
        assert forall|other: T|
            cards_on(even_deal(cards, stacks)).count(other) == cards.to_multiset().count(
                other,
            ) by {
            assert(cards_on(even_deal(cards, stacks)).add(dealt[turn].to_multiset()).count(other)
                == cards_on(dealt).add(dealt[turn].push(card).to_multiset()).count(other));
        }
    }
}

/// Stacks that are all empty hold no cards.
proof fn lemma_no_cards_on_empty_stacks<T>(stacks: Seq<Seq<T>>)
    requires
        forall|column: int| 0 <= column < stacks.len() ==> (#[trigger] stacks[column]).len() == 0,
    ensures
        cards_on(stacks) == Multiset::<T>::empty(),
    decreases stacks.len(),
{
    broadcast use group_multiset_axioms;

    if stacks.len() > 0 {
        lemma_no_cards_on_empty_stacks(stacks.drop_last());
        to_multiset_len(stacks.last());
    }
}

/// The first `columns` stacks of a descending deal that fits hold the cards
/// of the deck before the block of the next stack.
proof fn lemma_descending_deal_prefix<T>(cards: Seq<T>, stacks: int, columns: int)
    requires
        stacks >= 1,
        cards.len() >= triangle(stacks),
        0 <= columns <= stacks,
    ensures
        cards_on(descending_deal(cards, stacks).take(columns)) == cards.take(
            if columns == stacks {
                cards.len() as int
            } else {
                descending_start(cards.len() as int, stacks, columns)
            },
        ).to_multiset(),
    decreases columns,
{
    broadcast use group_multiset_axioms;

    let total = cards.len() as int;
    let dealt = descending_deal(cards, stacks);
    if columns > 0 {
        let begin = descending_start(total, stacks, columns - 1);
        let end = descending_end(total, stacks, columns - 1);
        lemma_descending_deal_prefix(cards, stacks, columns - 1);
        lemma_descending_starts_in_deck(total, stacks, columns - 1);
        lemma_descending_starts_in_deck(total, stacks, columns);
        lemma_descending_start_step(total, stacks, columns - 1);
        lemma_descending_top_bounds(total, stacks);
        assert(dealt.take(columns).drop_last() =~= dealt.take(columns - 1));
        assert(cards.take(begin) + cards.subrange(begin, end) =~= cards.take(end));
        lemma_multiset_commutative(cards.take(begin), cards.subrange(begin, end));
    } else {
        assert(0 * descending_top(total, stacks) == 0) by (nonlinear_arith);
        assert(cards.take(0).to_multiset() =~= Multiset::empty()) by {
            to_multiset_len(cards.take(0));
        }
    }
}

/// A descending deal that fits puts the cards of the deck on the board,
/// each as often as the deck holds it.
pub proof fn lemma_descending_deal_keeps_the_cards<T>(cards: Seq<T>, stacks: int)
    requires
        stacks >= 1,
        cards.len() >= triangle(stacks),
    ensures
        cards_on(descending_deal(cards, stacks)) == cards.to_multiset(),
{
    let dealt = descending_deal(cards, stacks);
    lemma_descending_deal_prefix(cards, stacks, stacks);
    assert(dealt.take(stacks) =~= dealt);
    assert(cards.take(cards.len() as int) =~= cards);
}

/// A deal that fits makes the number of stacks asked for and puts the cards
/// of the deck on the board, each as often as the deck holds it.
pub proof fn lemma_deal_holds_the_deck<T>(cards: Seq<T>, config: BoardConfig, stacks: int)
    requires
        deal_fits(cards.len() as int, config, stacks),
    ensures
        deal(cards, config, stacks).len() == stacks,
        cards_on(deal(cards, config, stacks)) == cards.to_multiset(),
        total_cards(deal(cards, config, stacks)) == cards.len(),
{
    match config {
        BoardConfig::Even => lemma_even_deal_keeps_the_cards(cards, stacks),
        BoardConfig::Descending => lemma_descending_deal_keeps_the_cards(cards, stacks),
    }
    lemma_total_counts_the_cards(deal(cards, config, stacks));
    to_multiset_len(cards);
}

} // verus!
