//! Poker hand strength and starting-hand range combinatorics for
//! Texas Hold'em style games.
//!
//! `poker` holds the card model, the hand and deck containers and the hand
//! ranking engine. `holdem` holds the two-card classifier and the range
//! notation calculator.

pub mod error;
pub mod holdem;
pub mod poker;
