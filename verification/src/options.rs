//! Reading the options of a scan from the words of a command line.
//!
//! The words are read from left to right. A flag that takes a value takes the word behind
//! it; where there is none, the flag counts for nothing. A word that is no flag is taken for
//! the start if it is a number and no start is set, else for the count if it is a number that
//! fits and no count is set, and dropped otherwise.

use crate::biguint::{from_decimal, value};
use crate::notation::{decimal_value, digits_value, is_digit};
use num_bigint::BigUint;
use vstd::prelude::*;

verus! {

/// The smallest history that the display is given when one is asked for.
pub const MIN_HISTORY: u64 = 100;

/// What a scan is told to do.
pub struct ScanOptions {
    /// The first starting value, if one is asked for.
    pub start: Option<BigUint>,
    /// After how many candidates the scan stops, if it is to stop at all.
    pub count: Option<u64>,
    /// Whether to go on from the checkpoint.
    pub resume: bool,
    /// Where the checkpoint record is kept.
    pub checkpoint_path: String,
    /// Where the solution record is kept.
    pub solution_path: String,
    /// Every how many candidates the checkpoint is written.
    pub progress_interval: u64,
    /// Whether candidates are drawn at random.
    pub random_mode: bool,
    /// Whether trajectories and statistics are sent to a display.
    pub visualization_enabled: bool,
    /// Every how many candidates one is sent to the display.
    pub visualization_sample_interval: u64,
    /// How many samples the display keeps.
    pub visualization_max_history: u64,
}

/// The options of a scan, as contracts speak of them.
pub struct OptionsView {
    pub start: Option<nat>,
    pub count: Option<u64>,
    pub resume: bool,
    pub checkpoint_path: Seq<char>,
    pub solution_path: Seq<char>,
    pub progress_interval: u64,
    pub random_mode: bool,
    pub visualization_enabled: bool,
    pub visualization_sample_interval: u64,
    pub visualization_max_history: u64,
}

impl View for ScanOptions {
    type V = OptionsView;

    open spec fn view(&self) -> OptionsView {
        OptionsView {
            start: match self.start {
                Some(s) => Some(value(s)),
                None => None,
            },
            count: self.count,
            resume: self.resume,
            checkpoint_path: self.checkpoint_path@,
            solution_path: self.solution_path@,
            progress_interval: self.progress_interval,
            random_mode: self.random_mode,
            visualization_enabled: self.visualization_enabled,
            visualization_sample_interval: self.visualization_sample_interval,
            visualization_max_history: self.visualization_max_history,
        }
    }
}

/// The options a scan has when it is told nothing.
pub open spec fn defaults() -> OptionsView {
    OptionsView {
        start: None,
        count: None,
        resume: true,
        checkpoint_path: "progress.txt"@,
        solution_path: "solution.txt"@,
        progress_interval: 1000,
        random_mode: false,
        visualization_enabled: true,
        visualization_sample_interval: 1000,
        visualization_max_history: 10000,
    }
}

/// The options a scan has when it is told nothing.
pub fn default_options() -> (options: ScanOptions)
    ensures
        options@ == defaults(),
{
    ScanOptions {
        start: None,
        count: None,
        resume: true,
        checkpoint_path: String::from_str("progress.txt"),
        solution_path: String::from_str("solution.txt"),
        progress_interval: 1000,
        random_mode: false,
        visualization_enabled: true,
        visualization_sample_interval: 1000,
        visualization_max_history: 10000,
    }
}

/// The number that a text denotes as a count, if it denotes one: an optional plus sign, then
/// decimal digits and nothing else, and no more than 64 bits can hold.
pub open spec fn count_value(s: Seq<char>) -> Option<u64> {
    let body = if s.len() > 0 && s[0] == '+' {
        s.drop_first()
    } else {
        s
    };
    if body.len() > 0 && (forall|i: int| 0 <= i < body.len() ==> is_digit(#[trigger] body[i]))
        && digits_value(body) <= u64::MAX {
        Some(digits_value(body) as u64)
    } else {
        None
    }
}

/// Whether `word` is a flag that takes the word behind it as its value.
pub open spec fn takes_value(word: Seq<char>) -> bool {
    ||| word == "--start"@
    ||| word == "-s"@
    ||| word == "--count"@
    ||| word == "-n"@
    ||| word == "--output"@
    ||| word == "-o"@
    ||| word == "--progress"@
    ||| word == "--solution"@
    ||| word == "--progress-interval"@
    ||| word == "-pi"@
    ||| word == "--viz-interval"@
    ||| word == "--viz-max-steps"@
}

/// The options after a flag has taken its value.
pub open spec fn with_value(o: OptionsView, flag: Seq<char>, v: Seq<char>) -> OptionsView {
    if flag == "--start"@ || flag == "-s"@ {
        OptionsView { start: decimal_value(v), ..o }
    } else if flag == "--count"@ || flag == "-n"@ {
        OptionsView { count: count_value(v), ..o }
    } else if flag == "--output"@ || flag == "-o"@ || flag == "--progress"@ {
        OptionsView { checkpoint_path: v, ..o }
    } else if flag == "--solution"@ {
        OptionsView { solution_path: v, ..o }
    } else if flag == "--progress-interval"@ || flag == "-pi"@ {
        match count_value(v) {
            Some(n) => OptionsView { progress_interval: n, ..o },
            None => o,
        }
    } else if flag == "--viz-interval"@ {
        match count_value(v) {
            Some(n) => OptionsView { visualization_sample_interval: n, ..o },
            None => o,
        }
    } else {
        match count_value(v) {
            Some(n) => OptionsView {
                visualization_max_history: if n < MIN_HISTORY {
                    MIN_HISTORY
                } else {
                    n
                },
                ..o
            },
            None => o,
        }
    }
}

/// The options after a word that takes no value: a switch, or a number without a flag.
pub open spec fn with_word(o: OptionsView, word: Seq<char>) -> OptionsView {
    if word == "--resume"@ {
        OptionsView { resume: true, ..o }
    } else if word == "--no-resume"@ {
        OptionsView { resume: false, ..o }
    } else if word == "--random"@ {
        OptionsView { random_mode: true, ..o }
    } else if word == "--no-random"@ {
        OptionsView { random_mode: false, ..o }
    } else if word == "--viz"@ {
        OptionsView { visualization_enabled: true, ..o }
    } else if word == "--no-viz"@ {
        OptionsView { visualization_enabled: false, ..o }
    } else if decimal_value(word) is Some && o.start is None {
        OptionsView { start: decimal_value(word), ..o }
    } else if count_value(word) is Some && o.count is None {
        OptionsView { count: count_value(word), ..o }
    } else {
        o
    }
}

/// The options after the words from `at` on have been read.
pub open spec fn parsed(words: Seq<Seq<char>>, at: int, o: OptionsView) -> OptionsView
    decreases words.len() - at,
{
    if at < 0 || at >= words.len() {
        o
    } else if takes_value(words[at]) {
        if at + 1 < words.len() {
            parsed(words, at + 2, with_value(o, words[at], words[at + 1]))
        } else {
            o
        }
    } else {
        parsed(words, at + 1, with_word(o, words[at]))
    }
}

/// `str::eq`: two texts are equal exactly when they hold the same characters.
#[verifier::external_body]
fn same(a: &str, b: &str) -> (r: bool)
    ensures
        r == (a@ == b@),
{
    a == b
}

/// `str::parse` to a `u64`: the text has to be an optional plus sign followed by decimal
/// digits, and the number must not be larger than a `u64` can hold. Anything else gives
/// nothing.
#[verifier::external_body]
fn parse_count(text: &str) -> (r: Option<u64>)
    ensures
        r == count_value(text@),
{
    text.parse::<u64>().ok()
}

fn parse_number(text: &str) -> (r: Option<BigUint>)
    ensures
        match r {
            Some(n) => decimal_value(text@) == Some(value(n)),
            None => decimal_value(text@) is None,
        },
{
    match from_decimal(text) {
        Ok(n) => Some(n),
        Err(_) => None,
    }
}

fn is_value_flag(word: &str) -> (r: bool)
    ensures
        r == takes_value(word@),
{
    same(word, "--start") || same(word, "-s") || same(word, "--count") || same(word, "-n") || same(
        word,
        "--output",
    ) || same(word, "-o") || same(word, "--progress") || same(word, "--solution") || same(
        word,
        "--progress-interval",
    ) || same(word, "-pi") || same(word, "--viz-interval") || same(word, "--viz-max-steps")
}

fn set_value(options: &mut ScanOptions, flag: &str, v: &String)
    ensures
        final(options)@ == with_value(old(options)@, flag@, v@),
{
    if same(flag, "--start") || same(flag, "-s") {
        options.start = parse_number(v.as_str());
    } else if same(flag, "--count") || same(flag, "-n") {
        options.count = parse_count(v.as_str());
    } else if same(flag, "--output") || same(flag, "-o") || same(flag, "--progress") {
        options.checkpoint_path = v.clone();
    } else if same(flag, "--solution") {
        options.solution_path = v.clone();
    } else if same(flag, "--progress-interval") || same(flag, "-pi") {
        match parse_count(v.as_str()) {
            Some(n) => {
                options.progress_interval = n;
            },
            None => {},
        }
    } else if same(flag, "--viz-interval") {
        match parse_count(v.as_str()) {
            Some(n) => {
                options.visualization_sample_interval = n;
            },
            None => {},
        }
    } else {
        match parse_count(v.as_str()) {
            Some(n) => {
                options.visualization_max_history = if n < MIN_HISTORY {
                    MIN_HISTORY
                } else {
                    n
                };
            },
            None => {},
        }
    }
}

fn set_word(options: &mut ScanOptions, word: &str)
    ensures
        final(options)@ == with_word(old(options)@, word@),
{
    if same(word, "--resume") {
        options.resume = true;
    } else if same(word, "--no-resume") {
        options.resume = false;
    } else if same(word, "--random") {
        options.random_mode = true;
    } else if same(word, "--no-random") {
        options.random_mode = false;
    } else if same(word, "--viz") {
        options.visualization_enabled = true;
    } else if same(word, "--no-viz") {
        options.visualization_enabled = false;
    } else {
        if options.start.is_none() {
            match parse_number(word) {
                Some(n) => {
                    options.start = Some(n);
                    return ;
                },
                None => {},
            }
        }
        if options.count.is_none() {
            match parse_count(word) {
                Some(n) => {
                    options.count = Some(n);
                },
                None => {},
            }
        }
    }
}

/// Reads the options of a scan from the words of a command line, the name of the program
/// left out.
pub fn parse_args(words: &Vec<String>) -> (options: ScanOptions)
    ensures
        options@ == parsed(words@.map_values(|w: String| w@), 0, defaults()),
{
    let ghost texts = words@.map_values(|w: String| w@);
    let mut options = default_options();
    let mut at: usize = 0;
    while at < words.len()
        invariant
            at <= words.len(),
            texts == words@.map_values(|w: String| w@),
            parsed(texts, 0, defaults()) == parsed(texts, at as int, options@),
        decreases words.len() - at,
    {
        let word = words[at].as_str();
        if is_value_flag(word) {
            if at + 1 < words.len() {
                set_value(&mut options, word, &words[at + 1]);
                at += 2;
            } else {
                at = words.len();
            }
        } else {
            set_word(&mut options, word);
            at += 1;
        }
    }
    options
}

} // verus!
