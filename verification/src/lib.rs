//! Statistical side-channel distinguishers over integer traces: mergeable
//! accumulators for correlation, difference of means, signal-to-noise ratio
//! and Welch's t-test, and the ranking of key guesses by score.
//!
//! Every accumulator keeps sufficient statistics only, as exact integers in
//! `i128`: counts, sums and sums of squares. An accumulator is created with
//! its shape, fed one trace at a time, and merged with others of the same
//! shape. Its model is a tuple of mathematical sums, and the contracts state
//! what the sums are after every operation. Over the models the crate proves
//! that merging is associative and commutative with the empty accumulator as
//! identity, and that every way to cut a batch into chunks, in any order and
//! with the merges grouped in any way, gives the accumulator of one pass over
//! the batch.
//!
//! Scores are compared, never computed, here: they are held as order keys,
//! integers that compare as the scores do. What is rounded (means, variances,
//! correlation coefficients, t-values) is left to the caller, who derives it
//! from the exact sums.
//!
//! - [`array`]: the integer arrays that hold the sums, on top of `ndarray`
//! - [`sums`]: sequences and grids of integers under element-wise addition
//! - [`reduction`]: reductions of a batch, and why they all agree
//! - [`processors`]: running moments of traces
//! - [`leakage_detection`]: Welch's t-test and signal-to-noise ratio
//! - [`leakage`]: leakage models evaluated into arrays
//! - [`distinguishers`]: correlation and differential power analysis
//! - [`fast_cpa`]: correlation on the mean traces of metadata values
//! - [`util`]: maxima and rankings of scores
pub mod array;
pub mod distinguishers;
pub mod fast_cpa;
pub mod leakage;
pub mod leakage_detection;
pub mod processors;
pub mod reduction;
pub mod sums;
pub mod util;
