use digit_pipeline::coordinator::{reduce, Action, Coordinator, Event, JoinOutcome};
use digit_pipeline::digits::{digit_sum, InvalidDigit};
use digit_pipeline::error::PipelineError;
use digit_pipeline::pipeline::run;
use digit_pipeline::segment::{
    is_admitted, segment, split_fixed_count, split_fixed_length, split_tokens, Policy, Segment,
    DEFAULT_WORKERS,
};
use digit_pipeline::text::{byte_len, chars_of, is_separator, string_of, to_digit};
use digit_pipeline::worker::{self, PartialResult};

const DATA: &str = "86967897737416471853297327050364959
11861322575564723963297542624962850
70856234701860851907960690014725639
38397966707106094172783238747669219
52380795257888236525459303330302837
58495327135744041048897885734297812
69920216438980873548808413720956532
16278424637452589860345374828574668";

fn texts(segs: &[Segment]) -> Vec<String> {
    segs.iter().map(|s| s.text.clone()).collect()
}

fn indices(segs: &[Segment]) -> Vec<usize> {
    segs.iter().map(|s| s.index).collect()
}

fn partials(segs: Vec<Segment>) -> Vec<u128> {
    segs.into_iter().map(|s| worker::run(s).unwrap().sum).collect()
}

fn digits(s: &str) -> String {
    s.chars().filter(|c| c.is_ascii_digit()).collect()
}

#[test]
fn scenario_token_policy() {
    let segs = split_tokens("123 45").unwrap();
    assert_eq!(texts(&segs), vec!["123", "45"]);
    assert_eq!(indices(&segs), vec![0, 1]);
    assert_eq!(partials(segs), vec![6, 9]);
    assert_eq!(run("123 45", Policy::Token, 10), Ok(15));
}

#[test]
fn scenario_fixed_count_policy() {
    let segs = split_fixed_count("9999", 2).unwrap();
    assert_eq!(texts(&segs), vec!["99", "99"]);
    assert_eq!(indices(&segs), vec![0, 1]);
    assert_eq!(partials(segs), vec![18, 18]);
    assert_eq!(run("9999", Policy::FixedCount, 2), Ok(36));
}

#[test]
fn scenario_invalid_digit() {
    let segs = split_tokens("12a3").unwrap();
    assert_eq!(texts(&segs), vec!["12a3"]);
    let only = segs.into_iter().next().unwrap();
    assert_eq!(worker::run(only), Err(InvalidDigit { position: 2, found: 'a' }));
    assert_eq!(
        run("12a3", Policy::Token, 10),
        Err(PipelineError::InvalidDigit { segment: 0, position: 2, found: 'a' })
    );
}

#[test]
fn reference_data_by_tokens() {
    let segs = split_tokens(DATA).unwrap();
    assert_eq!(segs.len(), 8);
    assert_eq!(segs[0].text, "86967897737416471853297327050364959");
    assert_eq!(segs[7].text, "16278424637452589860345374828574668");
    assert_eq!(partials(segs), vec![187, 157, 154, 177, 153, 172, 165, 177]);
    assert_eq!(run(DATA, Policy::Token, 10), Ok(1342));
}

#[test]
fn reference_data_by_count() {
    let segs = split_fixed_count(DATA, 10).unwrap();
    assert_eq!(segs.len(), 10);
    assert!(segs.iter().all(|s| s.text.len() == 28));
    assert_eq!(segs[0].text, "8696789773741647185329732705");
    assert_eq!(run(DATA, Policy::FixedCount, 10), Ok(1342));
}

#[test]
fn reference_data_by_length() {
    assert_eq!(byte_len(DATA), 287);
    let segs = split_fixed_length(DATA, 10).unwrap();
    assert_eq!(segs.len(), 10);
    assert_eq!(segs[0].text, "8696789773741647185329732705");
    assert_eq!(segs[1].text, "0364959118613225755647239632");
    assert_eq!(segs[2].text, "9754262496285070856234701860");
    assert_eq!(run(DATA, Policy::BoundaryPreserving, 10), Ok(1342));
}

#[test]
fn no_digit_is_invalid_input() {
    let policies = [Policy::Token, Policy::FixedCount, Policy::BoundaryPreserving];
    for input in ["", "   ", "\n\t", "abc", "a b c"] {
        for workers in [1usize, 3, 10, 1000] {
            assert_eq!(split_tokens(input).unwrap_err(), PipelineError::InvalidInput);
            assert_eq!(split_fixed_count(input, workers).unwrap_err(), PipelineError::InvalidInput);
            assert_eq!(
                split_fixed_length(input, workers).unwrap_err(),
                PipelineError::InvalidInput
            );
            for policy in policies {
                assert!(is_admitted(input, policy, workers));
                assert_eq!(segment(input, policy, workers).unwrap_err(), PipelineError::InvalidInput);
                assert_eq!(run(input, policy, workers), Err(PipelineError::InvalidInput));
            }
        }
    }
}

#[test]
fn one_digit_needs_no_segment_length() {
    for input in ["5", "a5", " 5 ", "x\n5"] {
        for workers in [1usize, 2, 10, 1000] {
            assert!(is_admitted(input, Policy::BoundaryPreserving, workers));
            let segs = split_fixed_length(input, workers).unwrap();
            assert_eq!(texts(&segs), vec!["5"]);
            assert_eq!(indices(&segs), vec![0]);
            assert_eq!(run(input, Policy::BoundaryPreserving, workers), Ok(5));
        }
    }
}

#[test]
fn two_digits_need_a_segment_length() {
    assert!(is_admitted("12", Policy::BoundaryPreserving, 1));
    assert!(is_admitted("12", Policy::BoundaryPreserving, 2));
    assert!(!is_admitted("12", Policy::BoundaryPreserving, 3));
    assert!(!is_admitted("1 2", Policy::BoundaryPreserving, 4));
    assert!(is_admitted("1 2", Policy::BoundaryPreserving, 3));
    assert_eq!(run("1 2", Policy::BoundaryPreserving, 3), Ok(3));
}

#[test]
fn tokens_ignore_runs_of_whitespace() {
    let segs = split_tokens("  12\t\t3\n\n456 \u{3000}7\u{a0}").unwrap();
    assert_eq!(texts(&segs), vec!["12", "3", "456", "7"]);
    assert_eq!(indices(&segs), vec![0, 1, 2, 3]);
}

#[test]
fn tokens_keep_what_is_no_whitespace() {
    let segs = split_tokens("1-2 x 3,4").unwrap();
    assert_eq!(texts(&segs), vec!["1-2", "x", "3,4"]);
}

#[test]
fn tokens_match_split_whitespace() {
    for input in ["123 45", " 1  2 ", DATA, "7", "1\u{2003}2\u{85}3", "a1\r\nb2"] {
        let expected: Vec<String> = input.split_whitespace().map(|s| s.to_string()).collect();
        assert_eq!(texts(&split_tokens(input).unwrap()), expected);
    }
}

#[test]
fn fixed_count_gives_exactly_that_many_chunks() {
    let segs = split_fixed_count("12345", 4).unwrap();
    assert_eq!(texts(&segs), vec!["12", "3", "4", "5"]);
    let segs = split_fixed_count("1234567890", 4).unwrap();
    assert_eq!(texts(&segs), vec!["123", "456", "78", "90"]);
    let segs = split_fixed_count("12", 3).unwrap();
    assert_eq!(texts(&segs), vec!["1", "2", ""]);
    assert_eq!(indices(&segs), vec![0, 1, 2]);
    let segs = split_fixed_count("1234", 1).unwrap();
    assert_eq!(texts(&segs), vec!["1234"]);
}

#[test]
fn fixed_count_chunks_differ_by_one_at_most() {
    for n in 1..=12usize {
        let segs = split_fixed_count(DATA, n).unwrap();
        assert_eq!(segs.len(), n);
        let shortest = segs.iter().map(|s| s.text.len()).min().unwrap();
        let longest = segs.iter().map(|s| s.text.len()).max().unwrap();
        assert!(longest - shortest <= 1);
        assert!(segs.last().unwrap().text.len() == shortest);
    }
}

#[test]
fn fixed_count_leaves_out_what_is_no_digit() {
    let segs = split_fixed_count("1a2b 3", 2).unwrap();
    assert_eq!(texts(&segs), vec!["12", "3"]);
    assert_eq!(run("1a2b 3", Policy::FixedCount, 2), Ok(6));
}

#[test]
fn fixed_length_cuts_after_every_segment_length() {
    let segs = split_fixed_length("123456 789", 3).unwrap();
    assert_eq!(texts(&segs), vec!["123", "456", "789"]);
    let segs = split_fixed_length("123456 789", 4).unwrap();
    assert_eq!(texts(&segs), vec!["12", "34", "56", "78", "9"]);
    assert_eq!(indices(&segs), vec![0, 1, 2, 3, 4]);
    let segs = split_fixed_length("123456 789", 1).unwrap();
    assert_eq!(texts(&segs), vec!["123456789"]);
    let segs = split_fixed_length("123456 789", 10).unwrap();
    assert_eq!(segs.len(), 9);
    assert!(segs.iter().all(|s| s.text.len() == 1));
}

#[test]
fn fixed_length_counts_the_input_in_bytes() {
    // Nine bytes for three characters without a digit, then six digits.
    let input = "\u{3000}\u{3000}\u{3000}123456";
    assert_eq!(byte_len(input), 15);
    let segs = split_fixed_length(input, 3).unwrap();
    assert_eq!(texts(&segs), vec!["12345", "6"]);
}

#[test]
fn admitted_configurations() {
    assert!(is_admitted("12", Policy::Token, 0));
    assert!(!is_admitted("12", Policy::FixedCount, 0));
    assert!(is_admitted("12", Policy::FixedCount, 5));
    assert!(!is_admitted("12", Policy::BoundaryPreserving, 0));
    assert!(is_admitted("12", Policy::BoundaryPreserving, 2));
    assert!(!is_admitted("12", Policy::BoundaryPreserving, 3));
    assert!(is_admitted("", Policy::BoundaryPreserving, 1));
    assert!(is_admitted("", Policy::BoundaryPreserving, 10));
    assert!(is_admitted("abc", Policy::BoundaryPreserving, 10));
    assert!(is_admitted("5", Policy::BoundaryPreserving, 10));
    assert!(!is_admitted("", Policy::BoundaryPreserving, 0));
    assert!(!is_admitted("5", Policy::BoundaryPreserving, 0));
}

#[test]
fn segment_follows_the_policy() {
    assert_eq!(texts(&segment("12 345", Policy::Token, 2).unwrap()), vec!["12", "345"]);
    assert_eq!(texts(&segment("12 345", Policy::FixedCount, 2).unwrap()), vec!["123", "45"]);
    assert_eq!(
        texts(&segment("12 345", Policy::BoundaryPreserving, 3).unwrap()),
        vec!["12", "34", "5"]
    );
}

#[test]
fn segments_hold_the_digits_of_the_input_in_order() {
    for input in [DATA, "1 2 3", " 007 ", "12a3 4b", "9"] {
        for policy in [Policy::Token, Policy::FixedCount, Policy::BoundaryPreserving] {
            for n in 1..=byte_len(input).min(12) {
                let segs = segment(input, policy, n).unwrap();
                let joined: String = texts(&segs).concat();
                assert_eq!(digits(&joined), digits(input));
            }
        }
    }
}

#[test]
fn digit_sum_adds_the_digit_values() {
    assert_eq!(digit_sum(""), Ok(0));
    assert_eq!(digit_sum("0"), Ok(0));
    assert_eq!(digit_sum("0123456789"), Ok(45));
    assert_eq!(digit_sum("999"), Ok(27));
}

#[test]
fn digit_sum_stops_at_the_first_bad_character() {
    assert_eq!(digit_sum("12a3b"), Err(InvalidDigit { position: 2, found: 'a' }));
    assert_eq!(digit_sum(" 1"), Err(InvalidDigit { position: 0, found: ' ' }));
    assert_eq!(digit_sum("1\u{663}"), Err(InvalidDigit { position: 1, found: '\u{663}' }));
    assert_eq!(digit_sum("\u{e9}\u{e9}5x"), Err(InvalidDigit { position: 0, found: '\u{e9}' }));
    assert_eq!(digit_sum("55\u{e9}"), Err(InvalidDigit { position: 2, found: '\u{e9}' }));
}

#[test]
fn character_classes_agree_with_std() {
    for code in 0..=0x10FFFFu32 {
        if let Some(c) = char::from_u32(code) {
            assert_eq!(is_separator(c), c.is_whitespace(), "whitespace {:x}", code);
            assert_eq!(to_digit(c).map(u32::from), c.to_digit(10), "digit {:x}", code);
        }
    }
}

#[test]
fn text_round_trip() {
    let chars = chars_of("a1 \u{e9}\u{3000}z");
    assert_eq!(chars, vec!['a', '1', ' ', '\u{e9}', '\u{3000}', 'z']);
    assert_eq!(string_of(&chars, 0, 6), "a1 \u{e9}\u{3000}z");
    assert_eq!(string_of(&chars, 1, 4), "1 \u{e9}");
    assert_eq!(string_of(&chars, 3, 3), "");
    assert_eq!(byte_len("a1 \u{e9}\u{3000}z"), 9);
}

#[test]
fn worker_sums_its_segment() {
    let segment = Segment { index: 3, text: String::from("907") };
    assert_eq!(worker::run(segment), Ok(PartialResult { index: 3, sum: 16 }));
    let empty = Segment { index: 0, text: String::new() };
    assert_eq!(worker::run(empty), Ok(PartialResult { index: 0, sum: 0 }));
}

#[test]
fn worker_reports_the_bad_character() {
    let segment = Segment { index: 5, text: String::from("9x8y") };
    assert_eq!(worker::run(segment), Err(InvalidDigit { position: 1, found: 'x' }));
}

fn done(index: usize, sum: u128) -> JoinOutcome {
    JoinOutcome::Done(PartialResult { index, sum })
}

#[test]
fn coordinator_walks_through_its_states() {
    let idle = Coordinator::new();
    assert_eq!(idle, Coordinator::Idle);
    assert_eq!(idle.pending(), Action::Segment);
    assert_eq!(idle.result(), None);

    let (state, action) = idle.step(Event::Segmented { count: 2 });
    assert_eq!(state, Coordinator::Dispatching { count: 2, next: 0 });
    assert_eq!(action, Action::Spawn { index: 0 });

    let (state, action) = state.step(Event::Spawned);
    assert_eq!(state, Coordinator::Dispatching { count: 2, next: 1 });
    assert_eq!(action, Action::Spawn { index: 1 });

    let (state, action) = state.step(Event::Spawned);
    assert_eq!(state, Coordinator::Collecting { count: 2, next: 0, total: 0 });
    assert_eq!(action, Action::Join { index: 0 });

    let (state, action) = state.step(Event::Joined { outcome: done(0, 6) });
    assert_eq!(state, Coordinator::Collecting { count: 2, next: 1, total: 6 });
    assert_eq!(action, Action::Join { index: 1 });
    assert_eq!(state.result(), None);

    let (state, action) = state.step(Event::Joined { outcome: done(1, 9) });
    assert_eq!(state, Coordinator::Reduced { result: Ok(15) });
    assert_eq!(action, Action::Report { result: Ok(15) });
    assert_eq!(state.result(), Some(Ok(15)));
}

#[test]
fn coordinator_stops_at_the_first_failure() {
    let collecting = Coordinator::Collecting { count: 3, next: 1, total: 40 };
    let bad = JoinOutcome::BadDigit(InvalidDigit { position: 2, found: 'a' });
    let (state, action) = collecting.step(Event::Joined { outcome: bad });
    let error = PipelineError::InvalidDigit { segment: 1, position: 2, found: 'a' };
    assert_eq!(state, Coordinator::Reduced { result: Err(error) });
    assert_eq!(action, Action::Report { result: Err(error) });
    assert!(!state.can_step(&Event::Joined { outcome: done(2, 1) }));

    let (state, _) = collecting.step(Event::Joined { outcome: JoinOutcome::Crashed });
    assert_eq!(state.result(), Some(Err(PipelineError::JoinFailure { segment: 1 })));
}

#[test]
fn coordinator_without_segments() {
    let (state, action) = Coordinator::new().step(Event::Rejected);
    assert_eq!(state, Coordinator::Reduced { result: Err(PipelineError::InvalidInput) });
    assert_eq!(action, Action::Report { result: Err(PipelineError::InvalidInput) });
    let (state, action) = Coordinator::new().step(Event::Segmented { count: 0 });
    assert_eq!(state, Coordinator::Reduced { result: Err(PipelineError::InvalidInput) });
    assert_eq!(action, Action::Report { result: Err(PipelineError::InvalidInput) });
}

#[test]
fn coordinator_accepts_what_it_asked_for() {
    let idle = Coordinator::Idle;
    let dispatching = Coordinator::Dispatching { count: 2, next: 0 };
    let collecting = Coordinator::Collecting { count: 2, next: 0, total: 1 };
    let reduced = Coordinator::Reduced { result: Ok(1) };
    let joined = Event::Joined { outcome: done(0, 1) };
    assert!(idle.can_step(&Event::Segmented { count: 1 }));
    assert!(idle.can_step(&Event::Rejected));
    assert!(!idle.can_step(&Event::Spawned));
    assert!(!idle.can_step(&joined));
    assert!(dispatching.can_step(&Event::Spawned));
    assert!(!dispatching.can_step(&Event::Rejected));
    assert!(!dispatching.can_step(&joined));
    assert!(collecting.can_step(&joined));
    assert!(collecting.can_step(&Event::Joined { outcome: JoinOutcome::Crashed }));
    assert!(!collecting.can_step(&Event::Spawned));
    assert!(!reduced.can_step(&joined));
    assert!(!reduced.can_step(&Event::Segmented { count: 1 }));
}

#[test]
fn coordinator_refuses_a_state_that_no_run_reaches() {
    let joined = Event::Joined { outcome: done(0, 1) };
    assert!(!Coordinator::Collecting { count: 2, next: 2, total: 0 }.can_step(&joined));
    assert!(!Coordinator::Collecting { count: 0, next: 0, total: 0 }.can_step(&joined));
    assert!(!Coordinator::Dispatching { count: 1, next: 1 }.can_step(&Event::Spawned));
    assert!(Coordinator::Dispatching { count: 1, next: 0 }.can_step(&Event::Spawned));
}

#[test]
fn coordinator_refuses_a_total_that_does_not_fit() {
    let collecting = Coordinator::Collecting { count: 2, next: 0, total: u128::MAX - 5 };
    assert!(collecting.can_step(&Event::Joined { outcome: done(0, 5) }));
    assert!(!collecting.can_step(&Event::Joined { outcome: done(0, 6) }));
    let bad = JoinOutcome::BadDigit(InvalidDigit { position: 0, found: 'x' });
    assert!(collecting.can_step(&Event::Joined { outcome: bad }));
}

#[test]
fn join_outcome_of_a_worker() {
    let partial = PartialResult { index: 1, sum: 4 };
    assert_eq!(JoinOutcome::returned(Ok(partial)), JoinOutcome::Done(partial));
    let bad = InvalidDigit { position: 0, found: '?' };
    assert_eq!(JoinOutcome::returned(Err(bad)), JoinOutcome::BadDigit(bad));
}

#[test]
fn reduce_adds_the_partial_results() {
    assert_eq!(reduce(&vec![]), Ok(0));
    assert_eq!(reduce(&vec![done(0, 6), done(1, 9)]), Ok(15));
    assert_eq!(reduce(&vec![done(0, u128::MAX - 1), done(1, 1)]), Ok(u128::MAX));
}

#[test]
fn reduce_reports_the_first_failure_only() {
    let bad = JoinOutcome::BadDigit(InvalidDigit { position: 7, found: 'q' });
    assert_eq!(
        reduce(&vec![done(0, 6), bad, JoinOutcome::Crashed, done(3, 1)]),
        Err(PipelineError::InvalidDigit { segment: 1, position: 7, found: 'q' })
    );
    assert_eq!(
        reduce(&vec![done(0, 6), done(1, 2), JoinOutcome::Crashed, bad]),
        Err(PipelineError::JoinFailure { segment: 2 })
    );
    assert_eq!(
        reduce(&vec![JoinOutcome::Crashed, done(1, u128::MAX), done(2, u128::MAX)]),
        Err(PipelineError::JoinFailure { segment: 0 })
    );
}

#[test]
fn reduce_does_not_depend_on_the_order() {
    let outcomes = vec![done(0, 187), done(1, 157), done(2, 154), done(3, 177)];
    let mut shuffled = vec![outcomes[2], outcomes[0], outcomes[3], outcomes[1]];
    assert_eq!(reduce(&outcomes), Ok(675));
    assert_eq!(reduce(&shuffled), Ok(675));
    shuffled.reverse();
    assert_eq!(reduce(&shuffled), Ok(675));
}

#[test]
fn coordinator_and_reduce_agree() {
    let bad = JoinOutcome::BadDigit(InvalidDigit { position: 1, found: 'z' });
    let cases = vec![
        vec![done(0, 1)],
        vec![done(0, 1), done(1, 2), done(2, 3)],
        vec![done(0, 1), bad, done(2, 3)],
        vec![JoinOutcome::Crashed, bad],
        vec![done(0, 1), done(1, 2), JoinOutcome::Crashed],
    ];
    for outcomes in cases {
        let mut state = Coordinator::Collecting { count: outcomes.len(), next: 0, total: 0 };
        for outcome in &outcomes {
            let event = Event::Joined { outcome: *outcome };
            if state.can_step(&event) {
                state = state.step(event).0;
            }
        }
        assert_eq!(state.result(), Some(reduce(&outcomes)));
    }
}

#[test]
fn run_is_deterministic() {
    for policy in [Policy::Token, Policy::FixedCount, Policy::BoundaryPreserving] {
        let first = run(DATA, policy, 10);
        for _ in 0..5 {
            assert_eq!(run(DATA, policy, 10), first);
        }
    }
    let failing = run("12 3x 4y", Policy::Token, 10);
    assert_eq!(failing, Err(PipelineError::InvalidDigit { segment: 1, position: 1, found: 'x' }));
    assert_eq!(run("12 3x 4y", Policy::Token, 10), failing);
}

#[test]
fn token_total_is_the_digit_sum_whatever_the_worker_count() {
    let input = " 12 345\n6\t7890 ";
    for workers in [0usize, 1, 2, 10, 1000] {
        assert_eq!(run(input, Policy::Token, workers), Ok(45));
    }
}

#[test]
fn policies_agree_on_digits_and_whitespace() {
    for input in [DATA, "123 45", "9999", "1 2 3 4 5 6", "  42  "] {
        let expected: u128 = input.chars().filter_map(|c| c.to_digit(10)).map(u128::from).sum();
        for workers in 1..=byte_len(input).min(12) {
            assert_eq!(run(input, Policy::Token, workers), Ok(expected));
            assert_eq!(run(input, Policy::FixedCount, workers), Ok(expected));
            assert_eq!(run(input, Policy::BoundaryPreserving, workers), Ok(expected));
        }
    }
}

#[test]
fn policies_differ_on_other_characters() {
    assert_eq!(
        run("12a3", Policy::Token, 2),
        Err(PipelineError::InvalidDigit { segment: 0, position: 2, found: 'a' })
    );
    assert_eq!(run("12a3", Policy::FixedCount, 2), Ok(6));
    assert_eq!(run("12a3", Policy::BoundaryPreserving, 2), Ok(6));
}

#[test]
fn input_without_separators_is_one_segment() {
    for input in ["8675309", "1", "12a3"] {
        let segs = split_tokens(input).unwrap();
        assert_eq!(texts(&segs), vec![input]);
        let expected = match digit_sum(input) {
            Ok(total) => Ok(total),
            Err(e) => Err(PipelineError::InvalidDigit {
                segment: 0,
                position: e.position,
                found: e.found,
            }),
        };
        assert_eq!(run(input, Policy::Token, 10), expected);
    }
}

#[test]
fn later_segments_are_named_by_their_index() {
    assert_eq!(
        run("11 22 3\u{e9}3 4x", Policy::Token, 4),
        Err(PipelineError::InvalidDigit { segment: 2, position: 1, found: '\u{e9}' })
    );
}

#[test]
fn cut_by_length_is_spaces_and_tokens() {
    for (input, workers) in [(DATA, DEFAULT_WORKERS), ("123456 789", 4), ("1234567", 3), ("5", 1)] {
        let size = input.len() / workers;
        let mut spaced = String::new();
        for (i, c) in digits(input).chars().enumerate() {
            if i != 0 && i % size == 0 {
                spaced.push(' ');
            }
            spaced.push(c);
        }
        assert_eq!(split_tokens(&spaced), split_fixed_length(input, workers));
    }
}

#[test]
fn default_number_of_workers() {
    assert_eq!(DEFAULT_WORKERS, 10);
    assert_eq!(run(DATA, Policy::FixedCount, DEFAULT_WORKERS), Ok(1342));
}

#[test]
fn segments_can_be_compared() {
    let segs = split_tokens("1 22").unwrap();
    assert_eq!(
        segs,
        vec![
            Segment { index: 0, text: String::from("1") },
            Segment { index: 1, text: String::from("22") },
        ]
    );
    assert_eq!(segs[1].clone(), segs[1]);
}

/// Drives the coordinator as a program with workers of its own would: the
/// workers finish in the order `finish`, and are waited for as asked.
fn drive(
    input: &str,
    policy: Policy,
    workers: usize,
    finish: &[usize],
) -> Result<u128, PipelineError> {
    let mut waiting: Vec<Option<Segment>> = Vec::new();
    let mut started: Vec<Option<Segment>> = Vec::new();
    let mut found: Vec<Option<JoinOutcome>> = Vec::new();
    let mut state = Coordinator::new();
    let mut action = state.pending();
    loop {
        let event = match action {
            Action::Segment => match segment(input, policy, workers) {
                Ok(segs) => {
                    waiting = segs.into_iter().map(Some).collect();
                    Event::Segmented { count: waiting.len() }
                }
                Err(_) => Event::Rejected,
            },
            Action::Spawn { index } => {
                assert_eq!(index, started.len());
                started.push(waiting[index].take());
                Event::Spawned
            }
            Action::Join { index } => {
                if found.is_empty() {
                    let count = started.len();
                    found = vec![None; count];
                    for &i in finish.iter().filter(|&&i| i < count) {
                        let seg = started[i].take().unwrap();
                        found[i] = Some(JoinOutcome::returned(worker::run(seg)));
                    }
                }
                Event::Joined { outcome: found[index].take().unwrap() }
            }
            Action::Report { result } => return result,
        };
        assert!(state.can_step(&event));
        (state, action) = state.step(event);
    }
}

#[test]
fn any_driver_gets_the_result_of_the_run() {
    let orders: [&[usize]; 3] = [
        &[0, 1, 2, 3, 4, 5, 6, 7, 8, 9],
        &[9, 8, 7, 6, 5, 4, 3, 2, 1, 0],
        &[3, 9, 0, 7, 1, 8, 2, 6, 4, 5],
    ];
    for input in [DATA, "123 45", "12a3 4 5b 6", "1 2 3 4 5 6 7 8 9 0", "nothing"] {
        for policy in [Policy::Token, Policy::FixedCount, Policy::BoundaryPreserving] {
            for finish in orders {
                let workers = input.len().min(10);
                assert_eq!(drive(input, policy, workers, finish), run(input, policy, workers));
            }
        }
    }
    for input in ["", "5", "abc", " \n "] {
        for policy in [Policy::Token, Policy::FixedCount, Policy::BoundaryPreserving] {
            for finish in orders {
                assert_eq!(drive(input, policy, 10, finish), run(input, policy, 10));
            }
        }
    }
    assert_eq!(drive(DATA, Policy::Token, 10, orders[2]), Ok(1342));
    assert_eq!(
        drive("12a3 4 5b 6", Policy::Token, 10, orders[1]),
        Err(PipelineError::InvalidDigit { segment: 0, position: 2, found: 'a' })
    );
}
