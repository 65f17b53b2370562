//! The two records that a scan leaves behind, and how a scan finds its place again.
//!
//! The checkpoint record is the decimal text of the scan position. The solution record is a
//! tag that names the finding, a space, and the decimal text of the starting value that led
//! to it. Reading a checkpoint back takes the last line that holds a number.

use crate::biguint::{from_decimal, one, shifted_left, sum, to_decimal, value};
use crate::cycle::Outcome;
use crate::notation::{decimal_text, decimal_value, is_digit, lemma_decimal_text_denotes};
use num_bigint::BigUint;
use vstd::arithmetic::power2::pow2;
use vstd::prelude::*;

verus! {

/// The exponent of the power of two at which a scan starts when nothing else is said.
pub const DEFAULT_START_BITS: u16 = 68;

/// The tag of the solution record for an outcome; there is none for an orbit that reaches 1.
pub open spec fn finding_tag(outcome: Outcome) -> Option<Seq<char>> {
    match outcome {
        Outcome::ReachesOne => None,
        Outcome::NontrivialCycle => Some("NONTRIVIAL_CYCLE_START"@),
        Outcome::StepsOverflow => Some("RUNAWAY_STEPS_OVERFLOW_START"@),
    }
}

/// The text of the solution record for an outcome and the starting value that led to it.
pub open spec fn solution_text(outcome: Outcome, start: nat) -> Option<Seq<char>> {
    match finding_tag(outcome) {
        Some(tag) => Some(tag + " "@ + decimal_text(start)),
        None => None,
    }
}

/// Whether `c` is white space: one of the characters with the Unicode property White_Space.
pub open spec fn is_whitespace(c: char) -> bool {
    let u = c as u32;
    ||| 0x09 <= u <= 0x0D
    ||| u == 0x20
    ||| u == 0x85
    ||| u == 0xA0
    ||| u == 0x1680
    ||| 0x2000 <= u <= 0x200A
    ||| u == 0x2028
    ||| u == 0x2029
    ||| u == 0x202F
    ||| u == 0x205F
    ||| u == 0x3000
}

/// The text without the white space it starts with.
pub open spec fn trimmed_start(s: Seq<char>) -> Seq<char>
    decreases s.len(),
{
    if s.len() > 0 && is_whitespace(s.first()) {
        trimmed_start(s.drop_first())
    } else {
        s
    }
}

/// The text without the white space it ends with.
pub open spec fn trimmed_end(s: Seq<char>) -> Seq<char>
    decreases s.len(),
{
    if s.len() > 0 && is_whitespace(s.last()) {
        trimmed_end(s.drop_last())
    } else {
        s
    }
}

/// The text without the white space around it.
pub open spec fn trimmed(s: Seq<char>) -> Seq<char> {
    trimmed_end(trimmed_start(s))
}

/// The number that a line of a checkpoint file holds, if it holds one.
pub open spec fn line_value(line: Seq<char>) -> Option<nat> {
    decimal_value(trimmed(line))
}

/// The number on the last line that holds one.
pub open spec fn last_value(lines: Seq<Seq<char>>) -> Option<nat>
    decreases lines.len(),
{
    if lines.len() == 0 {
        None
    } else if line_value(lines.last()) is Some {
        line_value(lines.last())
    } else {
        last_value(lines.drop_last())
    }
}

/// Where a scan starts: at the value asked for; failing that, if it is to resume and a
/// checkpoint was found, right behind the checkpoint; and at two to the power of
/// `DEFAULT_START_BITS` otherwise.
pub open spec fn start_value(explicit: Option<nat>, resume: bool, checkpoint: Option<nat>) -> nat {
    match explicit {
        Some(s) => s,
        None => match checkpoint {
            Some(last) if resume => last + 1,
            _ => pow2(DEFAULT_START_BITS as nat),
        },
    }
}

/// `str::trim`: the text without leading and trailing white space, where white space is what
/// the Unicode property White_Space says.
#[verifier::external_body]
fn trim(text: &str) -> (r: &str)
    ensures
        r@ == trimmed(text@),
{
    text.trim()
}

/// The text of the checkpoint record for a scan position.
pub fn checkpoint_record(position: &BigUint) -> (r: String)
    ensures
        r@ == decimal_text(value(*position)),
{
    to_decimal(position)
}

/// The text of the solution record for an outcome and the starting value that led to it;
/// `None` for an orbit that reaches 1, which is no finding.
pub fn solution_record(outcome: Outcome, start: &BigUint) -> (r: Option<String>)
    ensures
        match r {
            Some(text) => solution_text(outcome, value(*start)) == Some(text@),
            None => solution_text(outcome, value(*start)) is None,
        },
{
    let tag = match outcome {
        Outcome::ReachesOne => {
            return None;
        },
        Outcome::NontrivialCycle => "NONTRIVIAL_CYCLE_START",
        Outcome::StepsOverflow => "RUNAWAY_STEPS_OVERFLOW_START",
    };
    let mut text = String::from_str(tag);
    text.append(" ");
    let digits = to_decimal(start);
    text.append(digits.as_str());
    Some(text)
}

/// Reads a scan position back from the lines of a checkpoint file: the number on the last
/// line that holds one. Lines that hold nothing, or something else, are passed over.
pub fn read_last_start(lines: &Vec<String>) -> (r: Option<BigUint>)
    ensures
        match r {
            Some(v) => last_value(lines@.map_values(|l: String| l@)) == Some(value(v)),
            None => last_value(lines@.map_values(|l: String| l@)) is None,
        },
{
    let ghost texts = lines@.map_values(|l: String| l@);
    let mut last: Option<BigUint> = None;
    let mut i: usize = 0;
    while i < lines.len()
        invariant
            i <= lines.len(),
            texts == lines@.map_values(|l: String| l@),
            match last {
                Some(v) => last_value(texts.take(i as int)) == Some(value(v)),
                None => last_value(texts.take(i as int)) is None,
            },
        decreases lines.len() - i,
    {
        let t = trim(lines[i].as_str());
        proof {
            assert(texts.take(i + 1).drop_last() =~= texts.take(i as int));
            assert(texts.take(i + 1).last() == lines@[i as int]@);
        }
        if !t.is_empty() {
            match from_decimal(t) {
                Ok(v) => {
                    last = Some(v);
                },
                Err(_) => {},
            }
        }
        i += 1;
    }
    assert(texts.take(lines.len() as int) =~= texts);
    last
}

/// Decides where a scan starts. See `start_value`.
pub fn resolve_start(explicit: Option<BigUint>, resume: bool, checkpoint: Option<BigUint>) -> (r:
    BigUint)
    ensures
        value(r) == start_value(
            match explicit {
                Some(s) => Some(value(s)),
                None => None,
            },
            resume,
            match checkpoint {
                Some(c) => Some(value(c)),
                None => None,
            },
        ),
{
    match explicit {
        Some(s) => s,
        None => {
            if resume {
                match checkpoint {
                    Some(last) => {
                        return sum(&last, &one());
                    },
                    None => {},
                }
            }
            let r = shifted_left(&one(), DEFAULT_START_BITS);
            assert(1 * pow2(DEFAULT_START_BITS as nat) == pow2(DEFAULT_START_BITS as nat));
            r
        },
    }
}

/// Law: the checkpoint record of a position, read back, gives that position: its text holds
/// no white space and denotes the number it was written for.
pub proof fn lemma_checkpoint_reads_back(position: nat)
    ensures
        line_value(decimal_text(position)) == Some(position),
        last_value(seq![decimal_text(position)]) == Some(position),
{
    let t = decimal_text(position);
    lemma_decimal_text_denotes(position);
    assert(is_digit(t.first()) && is_digit(t.last()));
    assert(trimmed_start(t) == t);
    assert(trimmed_end(t) == t);
    assert(seq![t].last() == t);
}

/// Law: a scan that resumes without a start of its own goes on with the number right behind
/// the one its checkpoint record holds.
pub proof fn lemma_resume_follows_checkpoint(position: nat)
    ensures
        start_value(None, true, last_value(seq![decimal_text(position)])) == position + 1,
{
    lemma_checkpoint_reads_back(position);
}

} // verus!
