//! What can go wrong between the raw input and the final total.
use vstd::prelude::*;

verus! {

/// A failure of the pipeline. Each one is fatal: where a run ends in one, no
/// total is.
#[derive(Clone, Copy, Debug, PartialEq, Eq, Structural)]
pub enum PipelineError {
    /// The raw input holds no decimal digit. Found before any worker starts.
    InvalidInput,
    /// A worker met a character that is no decimal digit.
    InvalidDigit {
        /// The index of the segment that holds it.
        segment: usize,
        /// How many characters of the segment come before it.
        position: usize,
        /// The character itself.
        found: char,
    },
    /// A worker ended without a result.
    JoinFailure {
        /// The index of the segment it was given.
        segment: usize,
    },
}

} // verus!
