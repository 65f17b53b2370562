use collatz_explorer::options::parse_args;
use num_bigint::BigUint;

fn words(list: &[&str]) -> Vec<String> {
    list.iter().map(|s| s.to_string()).collect()
}

fn big(n: u64) -> BigUint {
    BigUint::from(n)
}

#[test]
fn no_words_give_the_defaults() {
    let o = parse_args(&Vec::new());
    assert_eq!(o.start, None);
    assert_eq!(o.count, None);
    assert!(o.resume);
    assert_eq!(o.checkpoint_path, "progress.txt");
    assert_eq!(o.solution_path, "solution.txt");
    assert_eq!(o.progress_interval, 1000);
    assert!(!o.random_mode);
    assert!(o.visualization_enabled);
    assert_eq!(o.visualization_sample_interval, 1000);
    assert_eq!(o.visualization_max_history, 10000);
}

#[test]
fn flags_take_their_values() {
    let o = parse_args(&words(&[
        "--start", "123456789012345678901234567890", "-n", "250", "--output", "p.txt",
        "--solution", "s.txt", "-pi", "100", "--viz-interval", "7", "--viz-max-steps", "5000",
    ]));
    assert_eq!(o.start, "123456789012345678901234567890".parse::<BigUint>().ok());
    assert_eq!(o.count, Some(250));
    assert_eq!(o.checkpoint_path, "p.txt");
    assert_eq!(o.solution_path, "s.txt");
    assert_eq!(o.progress_interval, 100);
    assert_eq!(o.visualization_sample_interval, 7);
    assert_eq!(o.visualization_max_history, 5000);
}

#[test]
fn short_and_long_flags_mean_the_same() {
    let o = parse_args(&words(&["-s", "5", "--count", "6", "-o", "a", "--progress-interval", "9"]));
    assert_eq!(o.start, Some(big(5)));
    assert_eq!(o.count, Some(6));
    assert_eq!(o.checkpoint_path, "a");
    assert_eq!(o.progress_interval, 9);
    let o = parse_args(&words(&["--progress", "b"]));
    assert_eq!(o.checkpoint_path, "b");
}

#[test]
fn switches() {
    let o = parse_args(&words(&["--no-resume", "--random", "--no-viz"]));
    assert!(!o.resume);
    assert!(o.random_mode);
    assert!(!o.visualization_enabled);
    let o = parse_args(&words(&["--no-resume", "--resume", "--random", "--no-random", "--no-viz", "--viz"]));
    assert!(o.resume);
    assert!(!o.random_mode);
    assert!(o.visualization_enabled);
}

#[test]
fn small_history_is_raised() {
    let o = parse_args(&words(&["--viz-max-steps", "5"]));
    assert_eq!(o.visualization_max_history, 100);
    let o = parse_args(&words(&["--viz-max-steps", "100"]));
    assert_eq!(o.visualization_max_history, 100);
    let o = parse_args(&words(&["--viz-max-steps", "101"]));
    assert_eq!(o.visualization_max_history, 101);
}

#[test]
fn bad_values_unset_start_and_count_but_keep_intervals() {
    let o = parse_args(&words(&["5", "6", "--start", "x", "--count", "-1"]));
    assert_eq!(o.start, None);
    assert_eq!(o.count, None);
    let o = parse_args(&words(&["-pi", "x", "--viz-interval", "", "--viz-max-steps", "1_0"]));
    assert_eq!(o.progress_interval, 1000);
    assert_eq!(o.visualization_sample_interval, 1000);
    assert_eq!(o.visualization_max_history, 10000);
}

#[test]
fn flag_without_value_counts_for_nothing() {
    let o = parse_args(&words(&["--no-viz", "--start"]));
    assert_eq!(o.start, None);
    assert!(!o.visualization_enabled);
}

#[test]
fn flag_takes_the_next_word_whatever_it_is() {
    let o = parse_args(&words(&["--output", "--random", "--solution", "7"]));
    assert_eq!(o.checkpoint_path, "--random");
    assert_eq!(o.solution_path, "7");
    assert!(!o.random_mode);
    assert_eq!(o.start, None);
}

#[test]
fn bare_numbers_are_start_then_count() {
    let o = parse_args(&words(&["1000", "250", "9"]));
    assert_eq!(o.start, Some(big(1000)));
    assert_eq!(o.count, Some(250));
    let o = parse_args(&words(&["--start", "4", "250"]));
    assert_eq!(o.start, Some(big(4)));
    assert_eq!(o.count, Some(250));
}

#[test]
fn bare_number_too_large_for_a_count_is_dropped() {
    let o = parse_args(&words(&["1", "99999999999999999999999", "3"]));
    assert_eq!(o.start, Some(big(1)));
    assert_eq!(o.count, Some(3));
}

#[test]
fn numbers_with_separators_are_starts_but_no_counts() {
    let o = parse_args(&words(&["1_000", "2_000", "+3"]));
    assert_eq!(o.start, Some(big(1000)));
    assert_eq!(o.count, Some(3));
}

#[test]
fn other_words_are_dropped() {
    let o = parse_args(&words(&["hello", "--what", "-5"]));
    assert_eq!(o.start, None);
    assert_eq!(o.count, None);
}

#[test]
fn count_at_the_edge_of_64_bits() {
    let o = parse_args(&words(&["--count", "18446744073709551615"]));
    assert_eq!(o.count, Some(u64::MAX));
    let o = parse_args(&words(&["--count", "18446744073709551616"]));
    assert_eq!(o.count, None);
}
