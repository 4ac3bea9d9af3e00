//! Cards, containers of cards, and the ranking of five to seven card hands.

pub mod best_five;
pub mod card;
pub mod deck;
pub mod hand;
pub mod rank;
pub mod rank_set;
pub mod suit_sets;
