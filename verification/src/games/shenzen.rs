//! The ranks, suits and deck of the dragon patience.

use crate::cards::{Card, Rank, Suit};
use vstd::prelude::*;

verus! {

#[derive(Debug, Clone, Copy, PartialEq, Eq, PartialOrd, Ord, Hash)]
pub enum ShenzenSuit {
    Green,
    Red,
    Black,
    Flower,
}

#[derive(Debug, Clone, Copy, PartialEq, Eq, PartialOrd, Ord, Hash)]
pub enum ShenzenRank {
    Dragon,
    One,
    Two,
    Three,
    Four,
    Five,
    Six,
    Seven,
    Eight,
    Nine,
}

impl Rank for ShenzenRank {
    /// The pips count as their number; a dragon stands apart at 11, next
    /// to no pip.
    open spec fn rank_value(&self) -> nat {
        match self {
            ShenzenRank::Dragon => 11,
            ShenzenRank::One => 1,
            ShenzenRank::Two => 2,
            ShenzenRank::Three => 3,
            ShenzenRank::Four => 4,
            ShenzenRank::Five => 5,
            ShenzenRank::Six => 6,
            ShenzenRank::Seven => 7,
            ShenzenRank::Eight => 8,
            ShenzenRank::Nine => 9,
        }
    }

    fn ordinal(&self) -> (n: usize) {
        match self {
            ShenzenRank::Dragon => 11,
            ShenzenRank::One => 1,
            ShenzenRank::Two => 2,
            ShenzenRank::Three => 3,
            ShenzenRank::Four => 4,
            ShenzenRank::Five => 5,
            ShenzenRank::Six => 6,
            ShenzenRank::Seven => 7,
            ShenzenRank::Eight => 8,
            ShenzenRank::Nine => 9,
        }
    }
}

impl Suit for ShenzenSuit {}

pub struct ShenzenDeck {}

impl ShenzenDeck {
    /// How many cards of a colour are dragons.
    pub open spec fn dragons_per_colour() -> int {
        4
    }

    /// The colour of the dragon at index `index` of the deck.
    pub open spec fn colour_at(index: int) -> ShenzenSuit {
        if index < Self::dragons_per_colour() {
            ShenzenSuit::Green
        } else if index < 2 * Self::dragons_per_colour() {
            ShenzenSuit::Red
        } else {
            ShenzenSuit::Black
        }
    }

    /// The deck: the green dragons, then the red ones, then the black ones.
    pub open spec fn cards() -> Seq<Card<ShenzenRank, ShenzenSuit>> {
        Seq::new(
            (3 * Self::dragons_per_colour()) as nat,
            |index: int| Card { rank: ShenzenRank::Dragon, suit: Self::colour_at(index) },
        )
    }

    /// The deck, the same cards in the same order at every call.
    pub fn generate() -> (deck: Vec<Card<ShenzenRank, ShenzenSuit>>)
        ensures
            deck@ == Self::cards(),
            deck@.len() == 12,
    {
        vec![
            Card { rank: ShenzenRank::Dragon, suit: ShenzenSuit::Green },
            Card { rank: ShenzenRank::Dragon, suit: ShenzenSuit::Green },
            Card { rank: ShenzenRank::Dragon, suit: ShenzenSuit::Green },
            Card { rank: ShenzenRank::Dragon, suit: ShenzenSuit::Green },
            Card { rank: ShenzenRank::Dragon, suit: ShenzenSuit::Red },
            Card { rank: ShenzenRank::Dragon, suit: ShenzenSuit::Red },
            Card { rank: ShenzenRank::Dragon, suit: ShenzenSuit::Red },
            Card { rank: ShenzenRank::Dragon, suit: ShenzenSuit::Red },
            Card { rank: ShenzenRank::Dragon, suit: ShenzenSuit::Black },
            Card { rank: ShenzenRank::Dragon, suit: ShenzenSuit::Black },
            Card { rank: ShenzenRank::Dragon, suit: ShenzenSuit::Black },
            Card { rank: ShenzenRank::Dragon, suit: ShenzenSuit::Black },
        ]
    }
}

} // verus!
