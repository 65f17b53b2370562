//! Drawing a number from an inclusive range without modulo bias.
//!
//! A candidate is read from as many generator bytes as the size of the range takes to write
//! down. A candidate that falls outside the range is thrown away and another one is drawn, so
//! that every number of the range is as likely as any other.

use crate::biguint::{
    difference,
    duplicate,
    from_bytes_be,
    less_than,
    one,
    sum,
    to_bytes_be,
    value,
};
use crate::notation::{
    be_bytes,
    be_digits,
    be_value,
    byte_strings,
    lemma_be_digits_floor,
    lemma_be_digits_lead,
    lemma_be_value_bound,
};
use crate::rng::{draws_for, state_after, stream_bytes, Rng};
use num_bigint::BigUint;
use vstd::prelude::*;

verus! {

/// How many numbers the range from `low` to `high`, both included, holds.
pub open spec fn span(low: nat, high: nat) -> nat {
    (high - low + 1) as nat
}

/// How many bytes a candidate for a range of `span` numbers is read from.
pub open spec fn candidate_len(span: nat) -> nat {
    be_bytes(span).len()
}

/// The candidate that a generator in state `s` yields when `len` bytes are read from it.
pub open spec fn candidate(s: (u64, u64), len: nat) -> nat {
    be_value(stream_bytes(s, len))
}

/// Rejection sampling from state `s`, with `attempts` candidates at most: the first candidate
/// below `span`, if there is one among them, and the state the generator is left in.
pub open spec fn sample(s: (u64, u64), span: nat, len: nat, attempts: nat) -> (
    Option<nat>,
    (u64, u64),
)
    decreases attempts,
{
    if attempts == 0 {
        (None, s)
    } else if candidate(s, len) < span {
        (Some(candidate(s, len)), state_after(s, draws_for(len)))
    } else {
        sample(state_after(s, draws_for(len)), span, len, (attempts - 1) as nat)
    }
}

/// What a draw from the range `low` to `high` gives from state `s`, with `attempts` candidates
/// at most: the number drawn, if a candidate was accepted, and the state the generator is left
/// in. A range of one number or none gives `low` and leaves the generator alone.
pub open spec fn drawn(s: (u64, u64), low: nat, high: nat, attempts: nat) -> (
    Option<nat>,
    (u64, u64),
) {
    if low >= high {
        (Some(low), s)
    } else {
        let found = sample(s, span(low, high), candidate_len(span(low, high)), attempts);
        match found.0 {
            Some(v) => (Some(low + v), found.1),
            None => (None, found.1),
        }
    }
}

/// Law: whatever rejection sampling accepts lies below the span.
pub proof fn lemma_sample_is_below_span(s: (u64, u64), span: nat, len: nat, attempts: nat)
    ensures
        sample(s, span, len, attempts).0 matches Some(v) ==> v < span,
    decreases attempts,
{
    if attempts > 0 && candidate(s, len) >= span {
        lemma_sample_is_below_span(
            state_after(s, draws_for(len)),
            span,
            len,
            (attempts - 1) as nat,
        );
    }
}

/// Law: a number drawn from a range that is not empty lies in that range.
pub proof fn lemma_drawn_is_in_range(s: (u64, u64), low: nat, high: nat, attempts: nat)
    requires
        low <= high,
    ensures
        drawn(s, low, high, attempts).0 matches Some(v) ==> low <= v <= high,
{
    if low < high {
        lemma_sample_is_below_span(s, span(low, high), candidate_len(span(low, high)), attempts);
    }
}

/// Law: a range of one number gives that number, whatever the generator holds.
pub proof fn lemma_drawn_from_single(s: (u64, u64), only: nat, attempts: nat)
    ensures
        drawn(s, only, only, attempts) == (Some(only), s),
{
}

/// Law: candidates are dense in the span: there are fewer than 256 times as many candidates as
/// numbers in the range, so that a candidate is accepted with a chance of more than 1 in 256.
pub proof fn lemma_candidates_are_dense(span: nat, s: (u64, u64))
    requires
        span > 0,
    ensures
        candidate_len(span) >= 1,
        candidate(s, candidate_len(span)) < byte_strings(candidate_len(span)),
        byte_strings(candidate_len(span)) <= 256 * span,
{
    lemma_be_digits_lead(span);
    lemma_be_digits_floor(span);
    lemma_be_value_bound(stream_bytes(s, candidate_len(span)));
    assert(be_bytes(span) == be_digits(span));
}

impl Rng {
    /// Draws a number from the range `low` to `high_inclusive` by rejection sampling, with
    /// `attempts` candidates at most. The result is `None` when every candidate was thrown
    /// away; the generator has then moved on by all of them, and the next call goes on where
    /// this one stopped.
    pub fn try_gen_range_biguint(
        &mut self,
        low: &BigUint,
        high_inclusive: &BigUint,
        attempts: u64,
    ) -> (r: Option<BigUint>)
        ensures
            match r {
                Some(v) => drawn(
                    old(self)@,
                    value(*low),
                    value(*high_inclusive),
                    attempts as nat,
                ).0 == Some(value(v)),
                None => drawn(old(self)@, value(*low), value(*high_inclusive), attempts as nat).0
                    is None,
            },
            final(self)@ == drawn(old(self)@, value(*low), value(*high_inclusive), attempts as nat).1,
            r matches Some(v) ==> (value(*low) <= value(*high_inclusive) ==> value(*low) <= value(v)
                <= value(*high_inclusive)),
    {
        if !less_than(low, high_inclusive) {
            return Some(duplicate(low));
        }
        let width = difference(high_inclusive, low);
        let size = sum(&width, &one());
        let span_bytes = to_bytes_be(&size);
        let len = span_bytes.len();
        let ghost count = span(value(*low), value(*high_inclusive));
        let mut tries: u64 = 0;
        while tries < attempts
            invariant
                tries <= attempts,
                value(*low) < value(*high_inclusive),
                count == span(value(*low), value(*high_inclusive)),
                value(size) == count,
                len == candidate_len(count),
                sample(old(self)@, count, len as nat, attempts as nat) == sample(
                    self@,
                    count,
                    len as nat,
                    (attempts - tries) as nat,
                ),
            decreases attempts - tries,
        {
            let ghost before = self@;
            let bytes = self.next_bytes(len);
            let v = from_bytes_be(bytes.as_slice());
            assert(value(v) == candidate(before, len as nat));
            if less_than(&v, &size) {
                assert(sample(before, count, len as nat, (attempts - tries) as nat) == (
                    Some(value(v)),
                    self@,
                ));
                proof {
                    lemma_drawn_is_in_range(
                        old(self)@,
                        value(*low),
                        value(*high_inclusive),
                        attempts as nat,
                    );
                }
                return Some(sum(low, &v));
            }
            assert(sample(before, count, len as nat, (attempts - tries) as nat) == sample(
                self@,
                count,
                len as nat,
                (attempts - tries - 1) as nat,
            ));
            tries += 1;
        }
        None
    }

    /// Draws a number from the range `low` to `high_inclusive` by rejection sampling, with as
    /// many candidates as a 64-bit counter can count. See `try_gen_range_biguint`.
    pub fn gen_range_biguint(&mut self, low: &BigUint, high_inclusive: &BigUint) -> (r: Option<
        BigUint,
    >)
        ensures
            match r {
                Some(v) => drawn(
                    old(self)@,
                    value(*low),
                    value(*high_inclusive),
                    u64::MAX as nat,
                ).0 == Some(value(v)),
                None => drawn(old(self)@, value(*low), value(*high_inclusive), u64::MAX as nat).0
                    is None,
            },
            final(self)@ == drawn(old(self)@, value(*low), value(*high_inclusive), u64::MAX as nat).1,
            r matches Some(v) ==> (value(*low) <= value(*high_inclusive) ==> value(*low) <= value(v)
                <= value(*high_inclusive)),
    {
        self.try_gen_range_biguint(low, high_inclusive, u64::MAX)
    }
}

} // verus!
