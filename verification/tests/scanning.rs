use collatz_explorer::cycle::{classify_orbit, detect_outcome, Outcome};
use collatz_explorer::records::{
    checkpoint_record, read_last_start, resolve_start, solution_record,
};
use collatz_explorer::rng::Rng;
use collatz_explorer::options::{default_options, ScanOptions};
use collatz_explorer::scan::{stats_due, Action, Phase, ScanEngine};
use num_bigint::BigUint;

fn big(n: u64) -> BigUint {
    BigUint::from(n)
}

fn options(random: bool, viz: bool, count: Option<u64>, interval: u64) -> ScanOptions {
    let mut o = default_options();
    o.random_mode = random;
    o.visualization_enabled = viz;
    o.count = count;
    o.progress_interval = interval;
    o.visualization_sample_interval = 3;
    o
}

#[test]
fn defaults_are_as_documented() {
    let o = default_options();
    assert!(o.start.is_none());
    assert!(o.count.is_none());
    assert!(o.resume);
    assert_eq!(o.checkpoint_path, "progress.txt");
    assert_eq!(o.solution_path, "solution.txt");
    assert_eq!(o.progress_interval, 1000);
    assert!(!o.random_mode);
    assert!(o.visualization_enabled);
    assert_eq!(o.visualization_sample_interval, 1000);
    assert_eq!(o.visualization_max_history, 10000);
}

#[test]
fn checkpoint_record_is_decimal() {
    assert_eq!(checkpoint_record(&big(0)), "0");
    assert_eq!(checkpoint_record(&big(1249)), "1249");
    let n = BigUint::from(1u32) << 68u32;
    assert_eq!(checkpoint_record(&n), "295147905179352825856");
}

#[test]
fn solution_record_is_tagged() {
    assert_eq!(
        solution_record(Outcome::NontrivialCycle, &big(17)),
        Some(String::from("NONTRIVIAL_CYCLE_START 17"))
    );
    assert_eq!(
        solution_record(Outcome::StepsOverflow, &big(0)),
        Some(String::from("RUNAWAY_STEPS_OVERFLOW_START 0"))
    );
    assert_eq!(solution_record(Outcome::ReachesOne, &big(17)), None);
}

#[test]
fn last_number_of_a_checkpoint_file_counts() {
    let lines: Vec<String> = ["12", "", "  34  ", "oops", "\t"].iter().map(|s| s.to_string()).collect();
    assert_eq!(read_last_start(&lines), Some(big(34)));
}

#[test]
fn checkpoint_file_without_number_gives_nothing() {
    assert_eq!(read_last_start(&Vec::new()), None);
    let lines: Vec<String> = ["", "x", "-5", "1.5", "_1", "++1", "+"].iter().map(|s| s.to_string()).collect();
    assert_eq!(read_last_start(&lines), None);
}

#[test]
fn checkpoint_numbers_may_carry_a_sign_and_separators() {
    let lines = vec![String::from("+1_000")];
    assert_eq!(read_last_start(&lines), Some(big(1000)));
    let lines = vec![String::from("\u{a0}007\u{3000}")];
    assert_eq!(read_last_start(&lines), Some(big(7)));
}

#[test]
fn explicit_start_wins() {
    assert_eq!(resolve_start(Some(big(5)), true, Some(big(9))), big(5));
    assert_eq!(resolve_start(Some(big(5)), false, None), big(5));
}

#[test]
fn resume_goes_on_behind_the_checkpoint() {
    assert_eq!(resolve_start(None, true, Some(big(9))), big(10));
}

#[test]
fn default_start_is_two_to_the_68() {
    let default = BigUint::from(1u32) << 68u32;
    assert_eq!(resolve_start(None, true, None), default);
    assert_eq!(resolve_start(None, false, Some(big(9))), default);
    assert_eq!(resolve_start(None, false, None), default);
}

#[test]
fn written_checkpoint_resumes_at_the_next_value() {
    let v = BigUint::from(1u32) << 90u32;
    let lines = vec![checkpoint_record(&v)];
    let start = resolve_start(None, true, read_last_start(&lines));
    assert_eq!(start, v + 1u32);
}

#[test]
fn stats_are_due_after_half_a_second() {
    assert!(!stats_due(0));
    assert!(!stats_due(499));
    assert!(stats_due(500));
    assert!(stats_due(u64::MAX));
}

#[test]
fn sequential_candidates_count_up_from_the_start() {
    let mut engine = ScanEngine::new(big(1000), &options(false, false, None, 100));
    let mut rng = Rng::from_state(1, 2);
    assert!(engine.opens_with_checkpoint());
    assert_eq!(engine.candidate(&mut rng), Some(big(1000)));
    let actions = engine.record(Outcome::ReachesOne, false);
    assert_eq!(actions, vec![Action::WriteCheckpoint]);
    assert_eq!(engine.candidate(&mut rng), Some(big(1001)));
    assert_eq!(engine.record(Outcome::ReachesOne, false), vec![]);
    assert_eq!(engine.processed(), 2);
    assert_eq!(engine.phase(), Phase::Scanning);
    assert_eq!(rng.state(), (1, 2));
}

#[test]
fn full_run_leaves_the_last_candidate_in_the_checkpoint() {
    let mut engine = ScanEngine::new(big(1000), &options(false, false, Some(250), 100));
    let mut rng = Rng::from_state(1, 2);
    let mut written: Vec<BigUint> = Vec::new();
    if engine.opens_with_checkpoint() {
        written.push(engine.candidate(&mut rng).unwrap());
    }
    let mut steps = 0;
    while engine.phase() == Phase::Scanning {
        let current = engine.candidate(&mut rng).unwrap();
        let outcome = detect_outcome(&current);
        assert_eq!(outcome, Outcome::ReachesOne);
        for action in engine.record(outcome, false) {
            match action {
                Action::WriteCheckpoint => written.push(current.clone()),
                other => panic!("{:?}", other),
            }
        }
        steps += 1;
    }
    assert_eq!(steps, 250);
    assert_eq!(engine.phase(), Phase::LimitReached);
    assert_eq!(engine.processed(), 250);
    assert_eq!(written, vec![big(1000), big(1000), big(1100), big(1200), big(1249)]);
    assert!(written.windows(2).all(|w| w[0] <= w[1]));
    assert_eq!(written.last(), Some(&big(1249)));
}

#[test]
fn overflow_ends_the_scan_with_a_solution() {
    let mut engine = ScanEngine::new(big(7), &options(false, false, None, 1000));
    let mut rng = Rng::from_state(1, 2);
    let current = engine.candidate(&mut rng).unwrap();
    let outcome = classify_orbit(|v: &BigUint| v + 1u32, &current, 5);
    assert_eq!(outcome, Outcome::StepsOverflow);
    let actions = engine.record(outcome, true);
    assert_eq!(
        actions,
        vec![
            Action::WriteCheckpoint,
            Action::WriteSolution(Outcome::StepsOverflow),
            Action::WriteCheckpoint
        ]
    );
    assert_eq!(
        solution_record(outcome, &current),
        Some(String::from("RUNAWAY_STEPS_OVERFLOW_START 7"))
    );
    assert_eq!(engine.phase(), Phase::Found);
    assert_eq!(engine.processed(), 0);
    // the scan has halted: nothing more is asked for
    assert_eq!(engine.record(Outcome::ReachesOne, true), vec![]);
    assert_eq!(engine.phase(), Phase::Found);
    assert_eq!(engine.processed(), 0);
}

#[test]
fn nontrivial_cycle_ends_the_scan_off_the_cadence() {
    let mut engine = ScanEngine::new(big(7), &options(false, true, None, 4));
    assert_eq!(
        engine.record(Outcome::ReachesOne, false),
        vec![Action::WriteCheckpoint, Action::SendDraw]
    );
    assert_eq!(
        engine.record(Outcome::NontrivialCycle, false),
        vec![Action::WriteSolution(Outcome::NontrivialCycle), Action::WriteCheckpoint]
    );
    assert_eq!(engine.phase(), Phase::Found);
    assert_eq!(engine.processed(), 1);
}

#[test]
fn samples_and_statistics_go_to_the_display() {
    let mut engine = ScanEngine::new(big(7), &options(false, true, None, 1000));
    assert_eq!(
        engine.record(Outcome::ReachesOne, true),
        vec![
            Action::WriteCheckpoint,
            Action::SendDraw,
            Action::SendStats { processed: 1, delta: 1 }
        ]
    );
    assert_eq!(engine.record(Outcome::ReachesOne, false), vec![]);
    assert_eq!(engine.record(Outcome::ReachesOne, false), vec![]);
    assert_eq!(
        engine.record(Outcome::ReachesOne, true),
        vec![Action::SendDraw, Action::SendStats { processed: 4, delta: 3 }]
    );
}

#[test]
fn limit_sends_the_last_candidate_to_the_display() {
    let mut engine = ScanEngine::new(big(7), &options(false, true, Some(2), 1000));
    engine.record(Outcome::ReachesOne, false);
    assert_eq!(
        engine.record(Outcome::ReachesOne, true),
        vec![
            Action::SendStats { processed: 2, delta: 2 },
            Action::SendDraw,
            Action::WriteCheckpoint
        ]
    );
    assert_eq!(engine.phase(), Phase::LimitReached);
}

#[test]
fn limit_of_zero_stops_after_the_first_candidate() {
    let mut engine = ScanEngine::new(big(7), &options(false, false, Some(0), 1000));
    assert_eq!(
        engine.record(Outcome::ReachesOne, false),
        vec![Action::WriteCheckpoint, Action::WriteCheckpoint]
    );
    assert_eq!(engine.phase(), Phase::LimitReached);
}

#[test]
fn interval_of_zero_counts_as_one() {
    let mut engine = ScanEngine::new(big(7), &options(false, false, None, 0));
    for _ in 0..5 {
        assert_eq!(engine.record(Outcome::ReachesOne, false), vec![Action::WriteCheckpoint]);
    }
}

#[test]
fn random_mode_writes_no_checkpoint() {
    let mut engine = ScanEngine::new(big(7), &options(true, false, Some(3), 1));
    let mut rng = Rng::from_state(5, 6);
    assert!(!engine.opens_with_checkpoint());
    let low = BigUint::from(1u32) << 68u32;
    let high = (BigUint::from(1u32) << 2000u32) - 1u32;
    for _ in 0..2 {
        let c = engine.candidate(&mut rng).expect("a candidate");
        assert!(c >= low && c <= high);
        assert_eq!(engine.record(Outcome::ReachesOne, false), vec![]);
    }
    assert_ne!(rng.state(), (5, 6));
    assert_eq!(
        engine.record(Outcome::StepsOverflow, false),
        vec![Action::WriteSolution(Outcome::StepsOverflow)]
    );
    assert_eq!(engine.phase(), Phase::Found);
}
