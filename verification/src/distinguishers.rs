//! Distinguishers: accumulators that score key guesses against traces.
pub mod cpa;
pub mod dpa;
