//! A multi-armed bandit testbed: a fixed set of arms, each a biased coin
//! with a hidden true win probability, is played round by round under a
//! chosen strategy, while running statistics and a cumulative regret
//! metric are maintained.
//!
//! Probabilities are exact fixed-point fractions of [`SCALE`]; an arm's
//! estimated probability is the exact rational `wins / plays`. Random
//! draws enter the library as plain integers, so every decision rule is
//! verified for each possible draw.

use vstd::prelude::*;

pub mod arm;
pub mod casino;
pub mod sample;
pub mod select;
pub mod strategy;

verus! {

/// Denominator of every fixed-point probability in the library: a
/// probability `p` in `[0, 1]` is carried as the integer `p * SCALE`.
pub const SCALE: u64 = 1_000_000;

} // verus!
