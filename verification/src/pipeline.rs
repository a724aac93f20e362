//! The whole run on one thread: cut the input, sum each segment, reduce.
//!
//! `result_of` says what a run returns, whoever performs it and in whatever
//! order the workers finish. `run` performs one on the calling thread, with
//! the coordinator deciding each step.
use vstd::prelude::*;
use crate::coordinator::{first_failure, reduced, sum_done, Action, Coordinator, Event, JoinOutcome};
use crate::digits::{digit_total, first_invalid, lemma_digit_total_bound, lemma_digit_total_concat};
use crate::error::PipelineError;
use crate::scan::{first_where, lemma_first_where, lemma_first_where_is};
use crate::partition::{lemma_has_segment, lemma_segmented_partition};
use crate::segment::{admits, segment, segmented, texts, Policy};
use crate::text::{all_digits, byte_len, has_digit};
use crate::worker;

verus! {

/// The sum of the digits of all of `segs`.
pub open spec fn segments_total(segs: Seq<Seq<char>>) -> nat
    decreases segs.len(),
{
    if segs.len() == 0 {
        0
    } else {
        segments_total(segs.drop_last()) + digit_total(segs.last())
    }
}

/// The index of the first segment that holds a character that is no decimal
/// digit, or the number of segments where none does.
pub open spec fn first_bad(segs: Seq<Seq<char>>) -> nat {
    first_where(segs, |t: Seq<char>| !all_digits(t))
}

/// What the segments `segs` reduce to: the sum of all their digits where they
/// hold nothing else, and else the first character that is no digit in the
/// first segment that holds one.
pub open spec fn verdict(segs: Seq<Seq<char>>) -> Result<nat, PipelineError> {
    let k = first_bad(segs);
    if k == segs.len() {
        Ok(segments_total(segs))
    } else {
        Err(
            PipelineError::InvalidDigit {
                segment: k as usize,
                position: first_invalid(segs[k as int]).position,
                found: first_invalid(segs[k as int]).found,
            },
        )
    }
}

/// What a run on `input` returns.
pub open spec fn result_of(input: Seq<char>, policy: Policy, workers: nat) -> Result<
    nat,
    PipelineError,
> {
    if has_digit(input) {
        verdict(segmented(input, policy, workers))
    } else {
        Err(PipelineError::InvalidInput)
    }
}

/// `r` is what a run on `input` returns: the total that `result_of` gives, as
/// a machine number, or the error that it gives.
pub open spec fn is_result_of(
    r: Result<u128, PipelineError>,
    input: Seq<char>,
    policy: Policy,
    workers: nat,
) -> bool {
    match r {
        Ok(total) => result_of(input, policy, workers) == Ok::<nat, PipelineError>(total as nat),
        Err(e) => result_of(input, policy, workers) == Err::<nat, PipelineError>(e),
    }
}

/// The sum over segments is the sum over their characters, one segment after
/// the other.
pub proof fn lemma_segments_total_flatten(segs: Seq<Seq<char>>)
    ensures
        segments_total(segs) == digit_total(segs.flatten()),
    decreases segs.len(),
{
    if segs.len() > 0 {
        let before = segs.drop_last();
        lemma_segments_total_flatten(before);
        before.lemma_flatten_push(segs.last());
        assert(before.push(segs.last()) == segs);
        lemma_digit_total_concat(before.flatten(), segs.last());
    }
}

/// The sum over the first `i` segments is no more than the sum over all.
pub proof fn lemma_segments_total_prefix(segs: Seq<Seq<char>>, i: int)
    requires
        0 <= i <= segs.len(),
    ensures
        segments_total(segs.take(i)) <= segments_total(segs),
    decreases segs.len() - i,
{
    if i < segs.len() {
        lemma_segments_total_prefix(segs, i + 1);
        assert(segs.take(i + 1).drop_last() == segs.take(i));
    } else {
        assert(segs.take(i) == segs);
    }
}

/// `outcome` is what waiting for the worker of a segment with the text `text`
/// yields, where the worker runs to its end.
pub open spec fn is_outcome_of(outcome: JoinOutcome, text: Seq<char>) -> bool {
    match outcome {
        JoinOutcome::Done(partial) => all_digits(text) && partial.sum == digit_total(text),
        JoinOutcome::BadDigit(e) => !all_digits(text) && e == first_invalid(text),
        JoinOutcome::Crashed => false,
    }
}

/// Where every worker runs to its end, the outcomes of the workers, taken in
/// the order of their segments, reduce to what the segments reduce to. How the
/// workers were run, and which of them finished first, makes no difference.
pub proof fn lemma_reduced_is_verdict(outcomes: Seq<JoinOutcome>, segs: Seq<Seq<char>>)
    requires
        outcomes.len() == segs.len(),
        forall|i: int| 0 <= i < segs.len() ==> is_outcome_of(#[trigger] outcomes[i], segs[i]),
    ensures
        reduced(outcomes) == verdict(segs),
{
    let failed = |o: JoinOutcome| !(o is Done);
    let bad = |t: Seq<char>| !all_digits(t);
    let k = first_failure(outcomes);
    lemma_first_where(outcomes, failed);
    assert forall|i: int| 0 <= i < k implies !bad(#[trigger] segs[i]) by {
        assert(is_outcome_of(outcomes[i], segs[i]));
    }
    lemma_first_where_is(segs, bad, k);
    if k == outcomes.len() {
        lemma_sum_done_is_total(outcomes, segs);
    }
}

/// Where every worker summed its segment, the partial results add up to the
/// sum of the digits of all segments.
pub proof fn lemma_sum_done_is_total(outcomes: Seq<JoinOutcome>, segs: Seq<Seq<char>>)
    requires
        outcomes.len() == segs.len(),
        forall|i: int| 0 <= i < segs.len() ==> is_outcome_of(#[trigger] outcomes[i], segs[i]),
        forall|i: int| 0 <= i < segs.len() ==> #[trigger] outcomes[i] is Done,
    ensures
        sum_done(outcomes) == segments_total(segs),
    decreases segs.len(),
{
    if segs.len() > 0 {
        lemma_sum_done_is_total(outcomes.drop_last(), segs.drop_last());
    }
}

/// Runs the pipeline on `input`, one worker after the other: cuts the input
/// as `policy` says, sums each segment, and adds up the sums. Returns the
/// first failure instead, where there is one.
pub fn run(input: &str, policy: Policy, workers: usize) -> (r: Result<u128, PipelineError>)
    requires
        admits(input@, policy, workers as nat),
    ensures
        is_result_of(r, input@, policy, workers as nat),
{
    let idle = Coordinator::new();
    let segs = match segment(input, policy, workers) {
        Ok(segs) => segs,
        Err(_) => {
            let (rejected, _) = idle.step(Event::Rejected);
            return rejected.result().unwrap();
        },
    };
    let count: usize = segs.len();
    // A text has no more characters than bytes, and the bytes can be counted.
    let bytes: usize = byte_len(input);
    let ghost all = texts(segs@);
    let ghost given = segs@;
    proof {
        assert(input@.len() <= bytes <= usize::MAX);
        lemma_segmented_partition(input@, policy, workers as nat);
        lemma_segments_total_flatten(all);
        lemma_digit_total_bound(all.flatten());
    }
    proof {
        lemma_has_segment(input@, policy, workers as nat);
    }
    let (mut state, _) = idle.step(Event::Segmented { count });
    let mut started: usize = 0;
    while started < count
        invariant
            0 < count,
            started <= count,
            started < count ==> state == (Coordinator::Dispatching { count, next: started }),
            started == count ==> state == (Coordinator::Collecting { count, next: 0, total: 0 }),
        decreases count - started,
    {
        let (next_state, _) = state.step(Event::Spawned);
        state = next_state;
        started += 1;
    }
    for seg in it: segs
        invariant
            it.seq() == given,
            has_digit(input@),
            all == segmented(input@, policy, workers as nat),
            all == texts(given),
            count == given.len(),
            segments_total(all) <= u128::MAX,
            forall|j: int| 0 <= j < it.index() ==> all_digits(#[trigger] all[j]),
            it.index() < count ==> (state matches Coordinator::Collecting {
                count: expected,
                next,
                total,
            } && expected == count && next == it.index() && total == segments_total(
                all.take(it.index() as int),
            )),
            it.index() == count ==> (state matches Coordinator::Reduced { result: Ok(total) }
                && total == segments_total(all)),
    {
        let ghost i = it.index() as int;
        proof {
            assert(all.take(i + 1).drop_last() == all.take(i));
            lemma_segments_total_prefix(all, i + 1);
        }
        let outcome = JoinOutcome::returned(worker::run(seg));
        let (next_state, action) = state.step(Event::Joined { outcome });
        state = next_state;
        if let Action::Report { result: Err(e) } = action {
            proof {
                lemma_first_where_is(all, |t: Seq<char>| !all_digits(t), i as nat);
            }
            return Err(e);
        }
    }
    proof {
        lemma_first_where_is(all, |t: Seq<char>| !all_digits(t), count as nat);
    }
    state.result().unwrap()
}

} // verus!
