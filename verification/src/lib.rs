//! A tableau engine for solitaire-style card games.
//!
//! The crate keeps a board as a fixed number of stacks of cards, applies
//! moves to it under a legality rule that each game variant supplies, and
//! branches a board into an independent successor without touching the
//! source. Every executable function carries a contract over the
//! mathematical view of the board, a sequence of sequences of cards.

pub mod cards;
pub mod games;
