//! Two-card starting hands: their classification and the range notation.

pub mod evaluator;
pub mod hand_evaluator;
pub mod range;
