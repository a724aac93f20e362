//! The sum of the decimal digits of a text, found by cutting the text into
//! segments, summing each segment on its own, and adding up the sums.
//!
//! The segmenter cuts the text in one of three ways. A worker sums one
//! segment. The coordinator says which worker to start and which to wait for,
//! and folds what the workers found into one total, or into the first
//! failure. Every step is a function from plain values to plain values, so
//! the workers may run one after the other or each on a thread of its own:
//! the result is the same, and `pipeline::result_of` says what it is.
//!
//! `samples` holds smaller pieces that stand on their own.
pub mod scan;
pub mod text;
pub mod digits;
pub mod error;
pub mod segment;
pub mod partition;
pub mod spacing;
pub mod worker;
pub mod coordinator;
pub mod pipeline;
pub mod laws;
pub mod samples;
