use std::collections::HashSet;
use std::fmt;

use tableau::cards::{Card, Rank, Suit};
use tableau::games::shenzen::{ShenzenDeck, ShenzenRank, ShenzenSuit};

#[derive(Debug, Clone, Copy, Hash, PartialEq, Eq, PartialOrd, Ord)]
enum Pip {
    Ace,
    Ten,
    King,
}

#[derive(Debug, Clone, Copy, Hash, PartialEq, Eq, PartialOrd, Ord)]
enum Colour {
    Spades,
    Hearts,
}

impl Rank for Pip {
    fn ordinal(&self) -> usize {
        match self {
            Pip::Ace => 1,
            Pip::Ten => 10,
            Pip::King => 13,
        }
    }
}

impl Suit for Colour {}

impl fmt::Display for Pip {
    fn fmt(&self, f: &mut fmt::Formatter<'_>) -> fmt::Result {
        f.write_str(match self {
            Pip::Ace => "A",
            Pip::Ten => "10",
            Pip::King => "K",
        })
    }
}

impl fmt::Display for Colour {
    fn fmt(&self, f: &mut fmt::Formatter<'_>) -> fmt::Result {
        f.write_str(match self {
            Colour::Spades => "♠",
            Colour::Hearts => "♥",
        })
    }
}

#[test]
fn label_is_suit_then_rank_without_separator() {
    let ace = Card {
        rank: Pip::Ace,
        suit: Colour::Spades,
    };
    let ten = Card {
        rank: Pip::Ten,
        suit: Colour::Hearts,
    };
    assert_eq!(ace.label(), "♠A");
    assert_eq!(ten.label(), "♥10");
    assert_eq!(
        ten.label(),
        format!("{}{}", Colour::Hearts, Pip::Ten)
    );
}

#[test]
fn cards_are_equal_when_rank_and_suit_match() {
    let king = Card {
        rank: Pip::King,
        suit: Colour::Hearts,
    };
    assert_eq!(
        king,
        Card {
            rank: Pip::King,
            suit: Colour::Hearts
        }
    );
    assert_ne!(
        king,
        Card {
            rank: Pip::King,
            suit: Colour::Spades
        }
    );
    assert_ne!(
        king,
        Card {
            rank: Pip::Ten,
            suit: Colour::Hearts
        }
    );
}

#[test]
fn cards_order_by_rank_then_suit() {
    let low = Card {
        rank: Pip::Ace,
        suit: Colour::Hearts,
    };
    let high = Card {
        rank: Pip::Ten,
        suit: Colour::Spades,
    };
    let same_rank = Card {
        rank: Pip::Ten,
        suit: Colour::Hearts,
    };
    assert!(low < high);
    assert!(high < same_rank);
    assert!(low.clone() <= low);
}

#[test]
fn equal_cards_hash_alike() {
    let mut seen = HashSet::new();
    assert!(seen.insert(Card {
        rank: Pip::Ace,
        suit: Colour::Spades
    }));
    assert!(!seen.insert(Card {
        rank: Pip::Ace,
        suit: Colour::Spades
    }));
    assert!(seen.insert(Card {
        rank: Pip::Ace,
        suit: Colour::Hearts
    }));
    assert_eq!(seen.len(), 2);
}

#[test]
fn clone_keeps_rank_and_suit() {
    let ten = Card {
        rank: Pip::Ten,
        suit: Colour::Hearts,
    };
    let copy = ten.clone();
    assert_eq!(copy.rank, Pip::Ten);
    assert_eq!(copy.suit, Colour::Hearts);
}

#[test]
fn shenzen_ordinals() {
    assert_eq!(ShenzenRank::One.ordinal(), 1);
    assert_eq!(ShenzenRank::Two.ordinal(), 2);
    assert_eq!(ShenzenRank::Three.ordinal(), 3);
    assert_eq!(ShenzenRank::Four.ordinal(), 4);
    assert_eq!(ShenzenRank::Five.ordinal(), 5);
    assert_eq!(ShenzenRank::Six.ordinal(), 6);
    assert_eq!(ShenzenRank::Seven.ordinal(), 7);
    assert_eq!(ShenzenRank::Eight.ordinal(), 8);
    assert_eq!(ShenzenRank::Nine.ordinal(), 9);
    assert_eq!(ShenzenRank::Dragon.ordinal(), 11);
}

#[test]
fn shenzen_ranks_and_suits_are_ordered_as_declared() {
    assert!(ShenzenRank::Dragon < ShenzenRank::One);
    assert!(ShenzenRank::One < ShenzenRank::Nine);
    assert!(ShenzenSuit::Green < ShenzenSuit::Red);
    assert!(ShenzenSuit::Red < ShenzenSuit::Black);
    assert!(ShenzenSuit::Black < ShenzenSuit::Flower);
}

#[test]
fn shenzen_deck_is_four_dragons_of_each_colour() {
    let deck = ShenzenDeck::generate();
    assert_eq!(deck.len(), 12);
    for (index, card) in deck.iter().enumerate() {
        assert_eq!(card.rank, ShenzenRank::Dragon);
        let suit = match index / 4 {
            0 => ShenzenSuit::Green,
            1 => ShenzenSuit::Red,
            _ => ShenzenSuit::Black,
        };
        assert_eq!(card.suit, suit);
    }
}

#[test]
fn shenzen_deck_is_the_same_at_every_call() {
    assert_eq!(ShenzenDeck::generate(), ShenzenDeck::generate());
    assert!(!ShenzenDeck::generate().is_empty());
}
