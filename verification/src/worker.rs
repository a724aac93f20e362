//! The worker: one segment in, its partial result out.
use vstd::prelude::*;
use crate::digits::{InvalidDigit, digit_total, first_invalid, digit_sum};
use crate::segment::Segment;
use crate::text::all_digits;

verus! {

/// What one worker found: the sum of the digits of one segment.
#[derive(Clone, Copy, Debug, PartialEq, Eq, Structural)]
pub struct PartialResult {
    /// The index of the segment that was summed.
    pub index: usize,
    /// The sum of its digits.
    pub sum: u128,
}

/// Sums the digits of `segment`, which the worker owns from here on. Fails on
/// the first character of the segment that is no decimal digit.
pub fn run(segment: Segment) -> (r: Result<PartialResult, InvalidDigit>)
    ensures
        match r {
            Ok(partial) => all_digits(segment.text@) && partial.index == segment.index
                && partial.sum == digit_total(segment.text@),
            Err(e) => !all_digits(segment.text@) && e == first_invalid(segment.text@),
        },
{
    match digit_sum(segment.text.as_str()) {
        Ok(sum) => Ok(PartialResult { index: segment.index, sum }),
        Err(e) => Err(e),
    }
}

} // verus!
