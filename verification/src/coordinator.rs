//! The coordinator: a state machine that says which worker to start and which
//! to wait for, folds the partial results into one total, and gives up at the
//! first failure.
//!
//! The coordinator does no work of its own. Whoever drives it performs each
//! [`Action`] and reports back with the matching [`Event`].
use vstd::prelude::*;
use crate::digits::InvalidDigit;
use crate::error::PipelineError;
use crate::scan::{first_where, lemma_first_where, lemma_first_where_is};
use crate::worker::PartialResult;

verus! {

/// What waiting for one worker yields.
#[derive(Clone, Copy, Debug, PartialEq, Eq, Structural)]
pub enum JoinOutcome {
    /// The worker summed its segment.
    Done(PartialResult),
    /// The worker met a character that is no decimal digit.
    BadDigit(InvalidDigit),
    /// The worker ended without a result.
    Crashed,
}

impl JoinOutcome {
    /// The outcome for a worker that ran to its end and returned `r`.
    pub fn returned(r: Result<PartialResult, InvalidDigit>) -> (outcome: JoinOutcome)
        ensures
            outcome == match r {
                Ok(partial) => JoinOutcome::Done(partial),
                Err(e) => JoinOutcome::BadDigit(e),
            },
    {
        match r {
            Ok(partial) => JoinOutcome::Done(partial),
            Err(e) => JoinOutcome::BadDigit(e),
        }
    }
}

/// The error that the coordinator reports where the worker of segment
/// `segment` did not sum it.
pub open spec fn failure(segment: usize, outcome: JoinOutcome) -> PipelineError {
    match outcome {
        JoinOutcome::BadDigit(e) => PipelineError::InvalidDigit {
            segment,
            position: e.position,
            found: e.found,
        },
        _ => PipelineError::JoinFailure { segment },
    }
}

/// What `outcome` adds to the total.
pub open spec fn contribution(outcome: JoinOutcome) -> nat {
    match outcome {
        JoinOutcome::Done(partial) => partial.sum as nat,
        _ => 0,
    }
}

/// The sum of the partial results among `outcomes`.
pub open spec fn sum_done(outcomes: Seq<JoinOutcome>) -> nat
    decreases outcomes.len(),
{
    if outcomes.len() == 0 {
        0
    } else {
        sum_done(outcomes.drop_last()) + contribution(outcomes.last())
    }
}

/// The position of the first outcome that is no partial result, or the number
/// of outcomes where each is one.
pub open spec fn first_failure(outcomes: Seq<JoinOutcome>) -> nat {
    first_where(outcomes, |o: JoinOutcome| !(o is Done))
}

/// What the outcomes of all workers, in the order of their segments, reduce
/// to: the sum of the partial results where no worker failed, and else the
/// failure of the first segment whose worker did.
pub open spec fn reduced(outcomes: Seq<JoinOutcome>) -> Result<nat, PipelineError> {
    let k = first_failure(outcomes);
    if k == outcomes.len() {
        Ok(sum_done(outcomes))
    } else {
        Err(failure(k as usize, outcomes[k as int]))
    }
}

/// What the driver tells the coordinator.
#[derive(Clone, Copy, Debug, PartialEq, Eq)]
pub enum Event {
    /// The segmenter cut the input into `count` segments. An input with a
    /// digit has a segment; a count of zero is taken as an input without one.
    Segmented { count: usize },
    /// The segmenter found no decimal digit in the input.
    Rejected,
    /// The worker that was asked for has been started.
    Spawned,
    /// The wait that was asked for has ended.
    Joined { outcome: JoinOutcome },
}

/// What the coordinator asks the driver to do next.
#[derive(Clone, Copy, Debug, PartialEq, Eq)]
pub enum Action {
    /// Cut the input into segments.
    Segment,
    /// Start the worker for the segment `index`, and hand the segment over.
    Spawn { index: usize },
    /// Wait for the worker of the segment `index`.
    Join { index: usize },
    /// Stop, with `result` as the outcome of the whole run.
    Report { result: Result<u128, PipelineError> },
}

/// The state of one run.
#[derive(Clone, Copy, Debug, PartialEq, Eq)]
pub enum Coordinator {
    /// Nothing has happened yet.
    Idle,
    /// The workers of the segments before `next` have been started.
    Dispatching { count: usize, next: usize },
    /// All `count` workers have been started, and those of the segments before
    /// `next` have been waited for; `total` is the sum of their results.
    Collecting { count: usize, next: usize, total: u128 },
    /// The run is over.
    Reduced { result: Result<u128, PipelineError> },
}

impl Coordinator {
    /// A state that a run can reach: there is always a next segment to start
    /// or to wait for while the run is under way.
    pub open spec fn wf(self) -> bool {
        match self {
            Coordinator::Dispatching { count, next } => next < count,
            Coordinator::Collecting { count, next, total } => next < count,
            _ => true,
        }
    }

    /// `event` answers what the coordinator asked for in this state, and the
    /// total still fits after it.
    pub open spec fn accepts(self, event: Event) -> bool {
        match (self, event) {
            (Coordinator::Idle, Event::Segmented { count }) => true,
            (Coordinator::Idle, Event::Rejected) => true,
            (Coordinator::Dispatching { count, next }, Event::Spawned) => true,
            (Coordinator::Collecting { count, next, total }, Event::Joined { outcome }) => total
                + contribution(outcome) <= u128::MAX,
            _ => false,
        }
    }

    /// The state after `event`.
    pub open spec fn after(self, event: Event) -> Coordinator {
        match (self, event) {
            (Coordinator::Idle, Event::Segmented { count }) => if count == 0 {
                Coordinator::Reduced { result: Err(PipelineError::InvalidInput) }
            } else {
                Coordinator::Dispatching { count, next: 0 }
            },
            (Coordinator::Idle, Event::Rejected) => Coordinator::Reduced {
                result: Err(PipelineError::InvalidInput),
            },
            (Coordinator::Dispatching { count, next }, Event::Spawned) => if next + 1 < count {
                Coordinator::Dispatching { count, next: (next + 1) as usize }
            } else {
                Coordinator::Collecting { count, next: 0, total: 0 }
            },
            (
                Coordinator::Collecting { count, next, total },
                Event::Joined { outcome: JoinOutcome::Done(partial) },
            ) => if next + 1 < count {
                Coordinator::Collecting {
                    count,
                    next: (next + 1) as usize,
                    total: (total + partial.sum) as u128,
                }
            } else {
                Coordinator::Reduced { result: Ok((total + partial.sum) as u128) }
            },
            (Coordinator::Collecting { count, next, total }, Event::Joined { outcome }) => {
                Coordinator::Reduced { result: Err(failure(next, outcome)) }
            },
            _ => self,
        }
    }

    /// What the coordinator asks for in this state.
    pub open spec fn instruction(self) -> Action {
        match self {
            Coordinator::Idle => Action::Segment,
            Coordinator::Dispatching { count, next } => Action::Spawn { index: next },
            Coordinator::Collecting { count, next, total } => Action::Join { index: next },
            Coordinator::Reduced { result } => Action::Report { result },
        }
    }

    /// The coordinator of a run that has not begun.
    pub fn new() -> (c: Coordinator)
        ensures
            c == Coordinator::Idle,
    {
        Coordinator::Idle
    }

    /// What the coordinator asks for in this state.
    pub fn pending(&self) -> (action: Action)
        ensures
            action == self.instruction(),
    {
        match *self {
            Coordinator::Idle => Action::Segment,
            Coordinator::Dispatching { count, next } => Action::Spawn { index: next },
            Coordinator::Collecting { count, next, total } => Action::Join { index: next },
            Coordinator::Reduced { result } => Action::Report { result },
        }
    }

    /// The outcome of the run, once it is over.
    pub fn result(&self) -> (r: Option<Result<u128, PipelineError>>)
        ensures
            r == match *self {
                Coordinator::Reduced { result } => Some(result),
                _ => None,
            },
    {
        match *self {
            Coordinator::Reduced { result } => Some(result),
            _ => None,
        }
    }

    /// Whether `event` may be handed to `step` in this state.
    pub fn can_step(&self, event: &Event) -> (b: bool)
        ensures
            b == (self.wf() && self.accepts(*event)),
    {
        let well_formed = match *self {
            Coordinator::Dispatching { count, next } => next < count,
            Coordinator::Collecting { count, next, total } => next < count,
            _ => true,
        };
        well_formed && match (*self, *event) {
            (Coordinator::Idle, Event::Segmented { count }) => true,
            (Coordinator::Idle, Event::Rejected) => true,
            (Coordinator::Dispatching { count, next }, Event::Spawned) => true,
            (
                Coordinator::Collecting { count, next, total },
                Event::Joined { outcome: JoinOutcome::Done(partial) },
            ) => partial.sum <= u128::MAX - total,
            (Coordinator::Collecting { count, next, total }, Event::Joined { outcome }) => true,
            _ => false,
        }
    }

    /// Takes `event` in, and says what to do next.
    ///
    /// Workers are started in the order of their segments and waited for in
    /// the same order. The first failure ends the run: nothing that the later
    /// workers found is asked for again.
    pub fn step(self, event: Event) -> (r: (Coordinator, Action))
        requires
            self.wf(),
            self.accepts(event),
        ensures
            r.0 == self.after(event),
            r.1 == r.0.instruction(),
            r.0.wf(),
    {
        let next_state = match (self, event) {
            (Coordinator::Idle, Event::Segmented { count }) => if count == 0 {
                Coordinator::Reduced { result: Err(PipelineError::InvalidInput) }
            } else {
                Coordinator::Dispatching { count, next: 0 }
            },
            (Coordinator::Idle, Event::Rejected) => Coordinator::Reduced {
                result: Err(PipelineError::InvalidInput),
            },
            (Coordinator::Dispatching { count, next }, Event::Spawned) => if next + 1 < count {
                Coordinator::Dispatching { count, next: next + 1 }
            } else {
                Coordinator::Collecting { count, next: 0, total: 0 }
            },
            (
                Coordinator::Collecting { count, next, total },
                Event::Joined { outcome: JoinOutcome::Done(partial) },
            ) => if next + 1 < count {
                Coordinator::Collecting { count, next: next + 1, total: total + partial.sum }
            } else {
                Coordinator::Reduced { result: Ok(total + partial.sum) }
            },
            (
                Coordinator::Collecting { count, next, total },
                Event::Joined { outcome: JoinOutcome::BadDigit(e) },
            ) => Coordinator::Reduced {
                result: Err(
                    PipelineError::InvalidDigit {
                        segment: next,
                        position: e.position,
                        found: e.found,
                    },
                ),
            },
            (
                Coordinator::Collecting { count, next, total },
                Event::Joined { outcome: JoinOutcome::Crashed },
            ) => Coordinator::Reduced { result: Err(PipelineError::JoinFailure { segment: next }) },
            _ => self,
        };
        (next_state, next_state.pending())
    }
}

/// Folds the outcomes of all workers, given in the order of their segments,
/// into one result: the sum of the partial results, or the failure of the
/// first segment whose worker did not sum it. Nothing after that failure is
/// looked at.
pub fn reduce(outcomes: &Vec<JoinOutcome>) -> (r: Result<u128, PipelineError>)
    requires
        sum_done(outcomes@.take(first_failure(outcomes@) as int)) <= u128::MAX,
    ensures
        match r {
            Ok(total) => reduced(outcomes@) == Ok::<nat, PipelineError>(total as nat),
            Err(e) => reduced(outcomes@) == Err::<nat, PipelineError>(e),
        },
{
    let ghost k = first_failure(outcomes@) as int;
    let mut total: u128 = 0;
    let mut i: usize = 0;
    proof {
        lemma_first_where(outcomes@, |o: JoinOutcome| !(o is Done));
    }
    while i < outcomes.len()
        invariant
            i <= k <= outcomes.len(),
            k == first_failure(outcomes@),
            total == sum_done(outcomes@.take(i as int)),
            sum_done(outcomes@.take(k)) <= u128::MAX,
        decreases outcomes.len() - i,
    {
        proof {
            lemma_first_where(outcomes@, |o: JoinOutcome| !(o is Done));
        }
        match outcomes[i] {
            JoinOutcome::Done(partial) => {
                proof {
                    lemma_first_where_is(outcomes@, |o: JoinOutcome| !(o is Done), i as nat + 1);
                    assert(outcomes@.take(i + 1).drop_last() == outcomes@.take(i as int));
                    assert(outcomes@.take(k).take(i + 1) == outcomes@.take(i + 1));
                    lemma_sum_done_prefix(outcomes@.take(k), i + 1);
                }
                total = total + partial.sum;
            },
            JoinOutcome::BadDigit(e) => {
                return Err(
                    PipelineError::InvalidDigit {
                        segment: i,
                        position: e.position,
                        found: e.found,
                    },
                );
            },
            JoinOutcome::Crashed => {
                return Err(PipelineError::JoinFailure { segment: i });
            },
        }
        i += 1;
    }
    proof {
        assert(outcomes@.take(i as int) == outcomes@);
    }
    Ok(total)
}

/// The sum over the first `i` outcomes is no more than the sum over all.
pub proof fn lemma_sum_done_prefix(outcomes: Seq<JoinOutcome>, i: int)
    requires
        0 <= i <= outcomes.len(),
    ensures
        sum_done(outcomes.take(i)) <= sum_done(outcomes),
    decreases outcomes.len() - i,
{
    if i < outcomes.len() {
        lemma_sum_done_prefix(outcomes, i + 1);
        assert(outcomes.take(i + 1).drop_last() == outcomes.take(i));
    } else {
        assert(outcomes.take(i) == outcomes);
    }
}

/// Taking one outcome out takes its contribution out of the sum.
pub proof fn lemma_sum_done_remove(outcomes: Seq<JoinOutcome>, i: int)
    requires
        0 <= i < outcomes.len(),
    ensures
        sum_done(outcomes) == sum_done(outcomes.remove(i)) + contribution(outcomes[i]),
    decreases outcomes.len(),
{
    if i < outcomes.len() - 1 {
        lemma_sum_done_remove(outcomes.drop_last(), i);
        assert(outcomes.remove(i).drop_last() == outcomes.drop_last().remove(i));
    }
}

/// The total does not depend on the order in which the workers finish: two
/// sequences that hold the same outcomes, each as often as the other, have the
/// same sum.
pub proof fn lemma_sum_done_any_order(a: Seq<JoinOutcome>, b: Seq<JoinOutcome>)
    requires
        a.to_multiset() == b.to_multiset(),
    ensures
        sum_done(a) == sum_done(b),
    decreases a.len(),
{
    vstd::seq_lib::to_multiset_len(a);
    vstd::seq_lib::to_multiset_len(b);
    if a.len() > 0 {
        let x = a.last();
        let i = a.len() - 1;
        vstd::seq_lib::to_multiset_contains(a, x);
        vstd::seq_lib::to_multiset_contains(b, x);
        let j = choose|j: int| 0 <= j < b.len() && b[j] == x;
        vstd::seq_lib::to_multiset_remove(a, i);
        vstd::seq_lib::to_multiset_remove(b, j);
        lemma_sum_done_any_order(a.remove(i), b.remove(j));
        lemma_sum_done_remove(a, i);
        lemma_sum_done_remove(b, j);
    }
}

/// Where every worker summed its segment, the result of the run does not
/// depend on the order in which the outcomes are folded.
pub proof fn lemma_reduced_any_order(a: Seq<JoinOutcome>, b: Seq<JoinOutcome>)
    requires
        a.to_multiset() == b.to_multiset(),
        forall|i: int| 0 <= i < a.len() ==> #[trigger] a[i] is Done,
    ensures
        reduced(a) == reduced(b),
{
    lemma_sum_done_any_order(a, b);
    assert forall|j: int| 0 <= j < b.len() implies #[trigger] b[j] is Done by {
        vstd::seq_lib::to_multiset_contains(a, b[j]);
        vstd::seq_lib::to_multiset_contains(b, b[j]);
    }
    lemma_first_where_is(a, |o: JoinOutcome| !(o is Done), a.len());
    lemma_first_where_is(b, |o: JoinOutcome| !(o is Done), b.len());
    vstd::seq_lib::to_multiset_len(a);
    vstd::seq_lib::to_multiset_len(b);
}

/// The state in which the coordinator is after `times` workers more have
/// been started, for as long as it was dispatching.
pub open spec fn dispatched(state: Coordinator, times: nat) -> Coordinator
    decreases times,
{
    if times == 0 || !(state is Dispatching) {
        state
    } else {
        dispatched(state.after(Event::Spawned), (times - 1) as nat)
    }
}

/// Workers are started in the order of their segments, and once each has
/// been started the coordinator begins to collect, with the first segment and
/// a total of nothing.
pub proof fn lemma_dispatched_all(count: usize, next: usize)
    requires
        next < count,
    ensures
        dispatched(Coordinator::Dispatching { count, next }, (count - next) as nat) == (
        Coordinator::Collecting { count, next: 0, total: 0 }),
    decreases count - next,
{
    let state = Coordinator::Dispatching { count, next };
    assert(dispatched(state, (count - next) as nat) == dispatched(
        state.after(Event::Spawned),
        (count - next - 1) as nat,
    ));
    if next + 1 < count {
        lemma_dispatched_all(count, (next + 1) as usize);
    } else {
        assert(dispatched(state.after(Event::Spawned), 0) == state.after(Event::Spawned));
    }
}

/// The state in which the coordinator is after it was handed `outcomes`, one
/// after the other, for as long as it was collecting.
pub open spec fn collected(state: Coordinator, outcomes: Seq<JoinOutcome>) -> Coordinator
    decreases outcomes.len(),
{
    if outcomes.len() == 0 || !(state is Collecting) {
        state
    } else {
        collected(state.after(Event::Joined { outcome: outcomes[0] }), outcomes.drop_first())
    }
}

/// What `result` is as a number without a bound.
pub open spec fn unbounded(result: Result<u128, PipelineError>) -> Result<nat, PipelineError> {
    match result {
        Ok(total) => Ok(total as nat),
        Err(e) => Err(e),
    }
}

/// The coordinator is a fold that stops at the first failure: from the start
/// of collection, with one outcome for each worker and in the order of the
/// segments, it ends with what the outcomes reduce to.
pub proof fn lemma_collected_is_reduced(outcomes: Seq<JoinOutcome>)
    requires
        0 < outcomes.len() <= usize::MAX,
        sum_done(outcomes.take(first_failure(outcomes) as int)) <= u128::MAX,
    ensures
        collected(
            Coordinator::Collecting { count: outcomes.len() as usize, next: 0, total: 0 },
            outcomes,
        ) matches Coordinator::Reduced { result } && unbounded(result) == reduced(outcomes),
{
    assert(outcomes.skip(0) == outcomes);
    lemma_first_where(outcomes, |o: JoinOutcome| !(o is Done));
    lemma_collected_from(outcomes, 0);
}

/// The same, from any point of the collection on.
proof fn lemma_collected_from(outcomes: Seq<JoinOutcome>, next: nat)
    requires
        next < outcomes.len() <= usize::MAX,
        next <= first_failure(outcomes) <= outcomes.len(),
        sum_done(outcomes.take(first_failure(outcomes) as int)) <= u128::MAX,
    ensures
        collected(
            Coordinator::Collecting {
                count: outcomes.len() as usize,
                next: next as usize,
                total: sum_done(outcomes.take(next as int)) as u128,
            },
            outcomes.skip(next as int),
        ) matches Coordinator::Reduced { result } && unbounded(result) == reduced(outcomes),
    decreases outcomes.len() - next,
{
    let k = first_failure(outcomes) as int;
    let n = next as int;
    let rest = outcomes.skip(n);
    let state = Coordinator::Collecting {
        count: outcomes.len() as usize,
        next: next as usize,
        total: sum_done(outcomes.take(next as int)) as u128,
    };
    lemma_first_where(outcomes, |o: JoinOutcome| !(o is Done));
    assert(rest.drop_first() == outcomes.skip(n + 1));
    let after = state.after(Event::Joined { outcome: rest[0] });
    assert(collected(state, rest) == collected(after, rest.drop_first()));
    if next < k {
        assert(outcomes.take(n + 1).drop_last() == outcomes.take(next as int));
        lemma_sum_done_prefix(outcomes.take(k), n + 1);
        lemma_sum_done_prefix(outcomes.take(k), next as int);
        assert(outcomes.take(k).take(next as int) == outcomes.take(next as int));
        if n + 1 < outcomes.len() {
            lemma_collected_from(outcomes, next + 1);
        }
    }
}

} // verus!
