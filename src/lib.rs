//! A single table of Texas Hold'em: cards and the deck, hand ranking, the
//! betting ledger of each player, and the state machine that drives a table
//! through pre-flop, flop, turn, river and showdown.
//!
//! Amounts of money are counted in thousandths of a chip, so that a blind of a
//! quarter chip and its half are exact.

pub mod deck;
pub mod hand;
pub mod player;
pub mod game;
