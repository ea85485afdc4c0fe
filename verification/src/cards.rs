//! Cards and the capabilities a game variant's rank and suit types provide.

use std::fmt::Display;
use std::hash::Hash;
use vstd::prelude::*;
use vstd::string::StringExecFns;
use vstd::string::to_string_from_display_ensures;

verus! {

/// An ordered category of card value with a numeric ordinal.
///
/// The ordinal is what adjacency rules compare. An implementation promises
/// that `ordinal` computes `rank_value` and that the value is positive.
pub trait Rank: Ord + Hash + Eq + Clone {
    /// The ordinal as a mathematical number.
    ///
    /// An implementation that is verified defines it. One that is not
    /// leaves it as it stands here, some function of the rank of which
    /// nothing more is known, and so promises of `ordinal` that equal
    /// ranks have equal ordinals.
    open spec fn rank_value(&self) -> nat {
        arbitrary::<spec_fn(Self) -> nat>()(*self)
    }

    /// The positive ordinal of this rank.
    fn ordinal(&self) -> (n: usize)
        ensures
            n == self.rank_value(),
            n >= 1,
    ;
}

/// An ordered category that groups cards; it has no ordinal.
pub trait Suit: Ord + Hash + Eq + Clone {}

/// A playing card: a rank and a suit, with no identity beyond the pair.
#[derive(PartialEq, Eq, PartialOrd, Ord, Debug, Hash)]
pub struct Card<R: Rank, S: Suit> {
    pub rank: R,
    pub suit: S,
}

impl<R: Rank, S: Suit> Clone for Card<R, S> {
    /// A card whose rank and suit are clones of this card's.
    fn clone(&self) -> (copy: Self)
        ensures
            copy_of(*self, copy),
    {
        Card { rank: self.rank.clone(), suit: self.suit.clone() }
    }
}

/// `copy` is a card that cloning `card` may give: its rank is a clone of the
/// rank and its suit a clone of the suit.
pub open spec fn copy_of<R: Rank, S: Suit>(card: Card<R, S>, copy: Card<R, S>) -> bool {
    cloned::<R>(card.rank, copy.rank) && cloned::<S>(card.suit, copy.suit)
}

/// Whether every clone of a `T` equals the value it was cloned from.
pub open spec fn clones_exactly<T: Clone>() -> bool {
    forall|source: T, copy: T| #[trigger] cloned::<T>(source, copy) ==> source == copy
}

impl<R: Rank, S: Suit> Card<R, S> {
    /// The card's text: the suit's text directly followed by the rank's.
    pub fn label(&self) -> (text: String) where R: Display, S: Display
        ensures
            is_label_of(text@, *self),
    {
        let suit = self.suit.to_string();
        let rank = self.rank.to_string();
        let ghost suit_text = suit;
        let text = suit.concat(rank.as_str());
        proof {
            assert(label_parts(*self, suit_text, rank, text@));
        }
        text
    }
}

/// `text` is `suit` followed by `rank`, and these are texts that the suit
/// and the rank of `card` display as.
pub open spec fn label_parts<R: Rank + Display, S: Suit + Display>(
    card: Card<R, S>,
    suit: String,
    rank: String,
    text: Seq<char>,
) -> bool {
    &&& to_string_from_display_ensures::<S>(&card.suit, suit)
    &&& to_string_from_display_ensures::<R>(&card.rank, rank)
    &&& text == suit@ + rank@
}

/// `text` is a label of `card`: some text its suit displays as, with no
/// separator before some text its rank displays as.
pub open spec fn is_label_of<R: Rank + Display, S: Suit + Display>(
    text: Seq<char>,
    card: Card<R, S>,
) -> bool {
    exists|suit: String, rank: String| #[trigger] label_parts(card, suit, rank, text)
}

} // verus!
