//! What holds of every run, whatever the input.
use vstd::prelude::*;
use crate::coordinator::{collected, dispatched, first_failure, lemma_collected_is_reduced,
    lemma_dispatched_all, lemma_sum_done_prefix, sum_done, unbounded, Coordinator, Event,
    JoinOutcome};
use crate::digits::{digit_total, first_invalid, lemma_digit_total_bound,
    lemma_digit_total_of_digits, lemma_keeping_digits};
use crate::error::PipelineError;
use crate::partition::{lemma_even_chunks_flatten, lemma_fixed_chunks_flatten, lemma_has_segment,
    lemma_segmented_partition, lemma_single_token, lemma_tokens_flatten};
use crate::pipeline::{is_outcome_of, is_result_of, lemma_reduced_is_verdict,
    lemma_segments_total_flatten, result_of, segments_total, verdict};
use crate::scan::{lemma_first_where, lemma_first_where_is};
use crate::segment::{admits, lemma_chunk_count, lemma_chunk_start, lemma_has_digit,
    lemma_token_len, segmented, token_len, tokens, Policy};
use crate::text::{all_digits, digits_of, has_digit, is_digit, is_whitespace, text_len};

verus! {

/// `s` holds decimal digits and whitespace, and nothing else.
pub open spec fn digits_and_whitespace(s: Seq<char>) -> bool {
    forall|i: int| 0 <= i < s.len() ==> is_digit(#[trigger] s[i]) || is_whitespace(s[i])
}

/// Two runs on the same input, with the same policy and the same number of
/// workers, return the same.
pub proof fn lemma_runs_agree(
    first: Result<u128, PipelineError>,
    second: Result<u128, PipelineError>,
    input: Seq<char>,
    policy: Policy,
    workers: nat,
)
    requires
        is_result_of(first, input, policy, workers),
        is_result_of(second, input, policy, workers),
    ensures
        first == second,
{
}

/// A run on an input without a digit ends in `InvalidInput`, whatever the
/// policy and however many workers there are; and each policy can be applied
/// to such an input with any number of workers but none.
pub proof fn lemma_no_digit_is_invalid_input(input: Seq<char>, policy: Policy, workers: nat)
    requires
        !has_digit(input),
    ensures
        result_of(input, policy, workers) == Err::<nat, PipelineError>(PipelineError::InvalidInput),
        workers >= 1 ==> admits(input, policy, workers),
{
    lemma_has_digit(input);
}

/// Segments that hold nothing but digits reduce to the sum of the digits of
/// all of them, one after the other.
pub proof fn lemma_verdict_of_digits(segs: Seq<Seq<char>>)
    requires
        forall|k: int| 0 <= k < segs.len() ==> all_digits(#[trigger] segs[k]),
    ensures
        verdict(segs) == Ok::<nat, PipelineError>(digit_total(segs.flatten())),
{
    lemma_first_where_is(segs, |t: Seq<char>| !all_digits(t), segs.len());
    lemma_segments_total_flatten(segs);
}

/// Every token of a text of digits and whitespace holds nothing but digits.
pub proof fn lemma_tokens_of_digits(s: Seq<char>)
    requires
        digits_and_whitespace(s),
    ensures
        forall|k: int| 0 <= k < tokens(s).len() ==> all_digits(#[trigger] tokens(s)[k]),
    decreases s.len(),
{
    if s.len() == 0 {
    } else if is_whitespace(s[0]) {
        let t = s.drop_first();
        lemma_tokens_of_digits(t);
        assert(tokens(s) == tokens(t));
    } else {
        lemma_token_len(s);
        let n = token_len(s) as int;
        let tail = s.skip(n);
        lemma_tokens_of_digits(tail);
        assert forall|k: int| 0 <= k < tokens(s).len() implies all_digits(
            #[trigger] tokens(s)[k],
        ) by {
            if k > 0 {
                assert(tokens(s)[k] == tokens(tail)[k - 1]);
            }
        }
    }
}

/// Under the token policy, a run on a text of digits and whitespace that holds
/// a digit returns the sum of all its digits, however many workers there are.
pub proof fn lemma_token_total(input: Seq<char>, workers: nat)
    requires
        digits_and_whitespace(input),
        has_digit(input),
    ensures
        result_of(input, Policy::Token, workers) == Ok::<nat, PipelineError>(digit_total(input)),
{
    lemma_tokens_of_digits(input);
    lemma_verdict_of_digits(tokens(input));
    lemma_tokens_flatten(input);
    lemma_keeping_digits(input, |c: char| !is_whitespace(c));
}

/// Under either of the two chunking policies, a run on a text that holds a
/// digit returns the sum of all its digits, whatever else the text holds and
/// however many workers there are.
pub proof fn lemma_chunk_total(input: Seq<char>, policy: Policy, workers: nat)
    requires
        policy != Policy::Token,
        admits(input, policy, workers),
        has_digit(input),
    ensures
        result_of(input, policy, workers) == Ok::<nat, PipelineError>(digit_total(input)),
{
    let digits = digits_of(input);
    let segs = segmented(input, policy, workers);
    lemma_digit_total_of_digits(input);
    match policy {
        Policy::FixedCount => {
            lemma_even_chunks_flatten(digits, workers);
            assert forall|k: int| 0 <= k < segs.len() implies all_digits(#[trigger] segs[k]) by {
                lemma_chunk_start(digits.len(), workers, k as nat);
            }
        },
        _ => {
            let size = text_len(input) / workers;
            if size == 0 {
                seq![digits].lemma_flatten_singleton();
            } else {
                lemma_fixed_chunks_flatten(digits, size);
                assert forall|k: int| 0 <= k < segs.len() implies all_digits(
                    #[trigger] segs[k],
                ) by {
                    lemma_chunk_count(digits.len(), size, k as nat);
                }
            }
        },
    }
    lemma_verdict_of_digits(segs);
}

/// On a text of digits and whitespace that holds a digit, the three policies
/// lead to one and the same result: the sum of all its digits.
pub proof fn lemma_policies_agree(input: Seq<char>, workers: nat)
    requires
        digits_and_whitespace(input),
        has_digit(input),
        admits(input, Policy::FixedCount, workers),
        admits(input, Policy::BoundaryPreserving, workers),
    ensures
        result_of(input, Policy::Token, workers) == Ok::<nat, PipelineError>(digit_total(input)),
        result_of(input, Policy::FixedCount, workers) == result_of(input, Policy::Token, workers),
        result_of(input, Policy::BoundaryPreserving, workers) == result_of(
            input,
            Policy::Token,
            workers,
        ),
{
    lemma_token_total(input, workers);
    lemma_chunk_total(input, Policy::FixedCount, workers);
    lemma_chunk_total(input, Policy::BoundaryPreserving, workers);
}

/// Under the token policy, a run on a text without whitespace that holds a
/// digit has one segment, and returns what the digit extractor makes of the
/// whole text: the sum of its digits, or its first character that is none.
pub proof fn lemma_single_segment(input: Seq<char>, workers: nat)
    requires
        forall|i: int| 0 <= i < input.len() ==> !is_whitespace(#[trigger] input[i]),
        has_digit(input),
    ensures
        segmented(input, Policy::Token, workers) == seq![input],
        result_of(input, Policy::Token, workers) == if all_digits(input) {
            Ok::<nat, PipelineError>(digit_total(input))
        } else {
            Err::<nat, PipelineError>(
                PipelineError::InvalidDigit {
                    segment: 0,
                    position: first_invalid(input).position,
                    found: first_invalid(input).found,
                },
            )
        },
{
    lemma_single_token(input);
    let segs = seq![input];
    if all_digits(input) {
        lemma_first_where_is(segs, |t: Seq<char>| !all_digits(t), 1);
        assert(segments_total(segs) == segments_total(segs.drop_last()) + digit_total(
            segs.last(),
        ));
    } else {
        lemma_first_where_is(segs, |t: Seq<char>| !all_digits(t), 0);
    }
}

/// Whoever drives the coordinator, and in whatever order the workers finish:
/// once the input is cut, each worker has been started as asked, and each
/// wait has been answered with what that worker found, the coordinator holds
/// the result of the run.
pub proof fn lemma_driven_run(
    input: Seq<char>,
    policy: Policy,
    workers: nat,
    outcomes: Seq<JoinOutcome>,
)
    requires
        admits(input, policy, workers),
        has_digit(input),
        input.len() <= usize::MAX,
        outcomes.len() == segmented(input, policy, workers).len() <= usize::MAX,
        forall|i: int|
            0 <= i < outcomes.len() ==> is_outcome_of(
                #[trigger] outcomes[i],
                segmented(input, policy, workers)[i],
            ),
    ensures
        collected(
            dispatched(
                Coordinator::Idle.after(Event::Segmented { count: outcomes.len() as usize }),
                outcomes.len(),
            ),
            outcomes,
        ) matches Coordinator::Reduced { result } && unbounded(result) == result_of(
            input,
            policy,
            workers,
        ),
{
    let segs = segmented(input, policy, workers);
    let count = outcomes.len() as usize;
    lemma_reduced_is_verdict(outcomes, segs);
    lemma_has_segment(input, policy, workers);
    lemma_dispatched_all(count, 0);
    let k = first_failure(outcomes) as int;
    lemma_first_where(outcomes, |o: JoinOutcome| !(o is Done));
    lemma_sum_done_prefix(outcomes, k);
    lemma_outcomes_fit(input, policy, workers, outcomes);
    lemma_collected_is_reduced(outcomes);
}

/// What the workers of one input found fits into the total, all of it
/// together.
pub proof fn lemma_outcomes_fit(
    input: Seq<char>,
    policy: Policy,
    workers: nat,
    outcomes: Seq<JoinOutcome>,
)
    requires
        admits(input, policy, workers),
        input.len() <= usize::MAX,
        outcomes.len() == segmented(input, policy, workers).len(),
        forall|i: int|
            0 <= i < outcomes.len() ==> is_outcome_of(
                #[trigger] outcomes[i],
                segmented(input, policy, workers)[i],
            ),
    ensures
        sum_done(outcomes) <= 9 * input.len(),
{
    let segs = segmented(input, policy, workers);
    lemma_sum_done_below_total(outcomes, segs);
    lemma_segments_total_flatten(segs);
    lemma_digit_total_bound(segs.flatten());
    lemma_segmented_partition(input, policy, workers);
}

/// The partial results of some of the segments add up to no more than the
/// sum of the digits of all of them.
pub proof fn lemma_sum_done_below_total(outcomes: Seq<JoinOutcome>, segs: Seq<Seq<char>>)
    requires
        outcomes.len() == segs.len(),
        forall|i: int| 0 <= i < segs.len() ==> is_outcome_of(#[trigger] outcomes[i], segs[i]),
    ensures
        sum_done(outcomes) <= segments_total(segs),
    decreases segs.len(),
{
    if segs.len() > 0 {
        let n = segs.len() - 1;
        assert(is_outcome_of(outcomes[n], segs[n]));
        lemma_sum_done_below_total(outcomes.drop_last(), segs.drop_last());
    }
}

} // verus!
