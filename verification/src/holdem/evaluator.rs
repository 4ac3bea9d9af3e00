//! Measures of starting-hand ranges.

pub mod range;
