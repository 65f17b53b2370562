//! A small deterministic bit generator (xorshift128+) with explicit, owned state.
//!
//! Every consumer holds its own generator. The state is two 64-bit words that are never both
//! zero: the all-zero state would be a fixed point that only ever produces zeros.

use std::time::Duration;
use std::time::SystemTime;
use std::time::SystemTimeError;
use vstd::prelude::*;

verus! {

#[verifier::external_type_specification]
#[verifier::external_body]
pub struct ExSystemTime(std::time::SystemTime);

#[verifier::external_type_specification]
#[verifier::external_body]
pub struct ExSystemTimeError(std::time::SystemTimeError);

/// `SystemTime::now`: the current reading of the system clock. Nothing is known of it.
#[verifier::external_body]
fn clock_now() -> SystemTime {
    SystemTime::now()
}

/// `SystemTime::duration_since`, measured from the Unix epoch: the time elapsed since then, or
/// an error when the clock reads a time before it. Nothing is known of the outcome.
#[verifier::external_body]
fn since_epoch(t: &SystemTime) -> Result<Duration, SystemTimeError> {
    t.duration_since(std::time::UNIX_EPOCH)
}

/// `Duration::as_nanos`: the whole duration in nanoseconds. Nothing is known of the number.
#[verifier::external_body]
fn whole_nanos(d: &Duration) -> u128 {
    d.as_nanos()
}

/// First seed multiplier (the 64-bit golden ratio constant).
pub const SEED_MIX_LOW: u64 = 0x9E37_79B9_7F4A_7C15;

/// Second seed multiplier.
pub const SEED_MIX_HIGH: u64 = 0xD1B5_4A32_D192_ED03;

/// The state that follows `s` in the xorshift128+ recurrence.
pub open spec fn next_state(s: (u64, u64)) -> (u64, u64) {
    let t = s.0 ^ (s.0 << 23);
    (s.1, t ^ s.1 ^ (t >> 18) ^ (s.1 >> 5))
}

/// The number that a generator in state `s` produces while it moves on to `next_state(s)`.
pub open spec fn output(s: (u64, u64)) -> u64 {
    next_state(s).1.wrapping_add(s.1)
}

/// The state reached from `s` after `k` draws.
pub open spec fn state_after(s: (u64, u64), k: nat) -> (u64, u64)
    decreases k,
{
    if k == 0 {
        s
    } else {
        next_state(state_after(s, (k - 1) as nat))
    }
}

/// A state with the all-zero state replaced by `(0, 1)`.
pub open spec fn corrected(s: (u64, u64)) -> (u64, u64) {
    if s.0 == 0 && s.1 == 0 {
        (0, 1)
    } else {
        s
    }
}

/// The state that a generator seeded with `nanos` starts in: the low and the high half of the
/// seed, each scrambled by a multiplication that wraps, and corrected if both came out zero.
pub open spec fn seed_state(nanos: u128) -> (u64, u64) {
    corrected(
        ((nanos as u64).wrapping_mul(SEED_MIX_LOW), ((nanos >> 64) as u64).wrapping_mul(SEED_MIX_HIGH)),
    )
}

/// Byte `j` of `r`, counted from the most significant byte.
pub open spec fn be_byte(r: u64, j: int) -> u8 {
    (r >> ((8 * (7 - j)) as u64)) as u8
}

/// The first `len` bytes of the stream that a generator in state `s` produces: each draw
/// contributes its eight bytes, most significant first.
pub open spec fn stream_bytes(s: (u64, u64), len: nat) -> Seq<u8> {
    Seq::new(len, |i: int| be_byte(output(state_after(s, (i / 8) as nat)), i % 8))
}

/// How many draws it takes to produce `len` bytes.
pub open spec fn draws_for(len: nat) -> nat {
    (len + 7) / 8
}

/// The generator. Its view is the pair of state words.
pub struct Rng {
    s0: u64,
    s1: u64,
}

impl View for Rng {
    type V = (u64, u64);

    closed spec fn view(&self) -> (u64, u64) {
        (self.s0, self.s1)
    }
}

/// Law: the recurrence never leads from a state that is not all zero to the all-zero state.
pub proof fn lemma_state_stays_nonzero(s: (u64, u64))
    requires
        s != (0u64, 0u64),
    ensures
        next_state(s) != (0u64, 0u64),
{
    let a = s.0;
    let b = s.1;
    assert(!(a == 0 && b == 0) ==> !(b == 0 && ((a ^ (a << 23)) ^ b ^ ((a ^ (a << 23)) >> 18) ^ (b
        >> 5)) == 0)) by (bit_vector);
}

/// Law: no number of draws leads from a state that is not all zero to the all-zero state.
pub proof fn lemma_stream_stays_nonzero(s: (u64, u64), k: nat)
    requires
        s != (0u64, 0u64),
    ensures
        state_after(s, k) != (0u64, 0u64),
    decreases k,
{
    if k > 0 {
        lemma_stream_stays_nonzero(s, (k - 1) as nat);
        lemma_state_stays_nonzero(state_after(s, (k - 1) as nat));
    }
}

impl Rng {
    #[verifier::type_invariant]
    spec fn nonzero(self) -> bool {
        !(self.s0 == 0 && self.s1 == 0)
    }

    /// A generator in the given state; the all-zero state is corrected to `(0, 1)`.
    pub fn from_state(s0: u64, s1: u64) -> (rng: Rng)
        ensures
            rng@ == corrected((s0, s1)),
            rng@ != (0u64, 0u64),
    {
        if s0 == 0 && s1 == 0 {
            Rng { s0: 0, s1: 1 }
        } else {
            Rng { s0, s1 }
        }
    }

    /// The two state words.
    pub fn state(&self) -> (s: (u64, u64))
        ensures
            s == self@,
            s != (0u64, 0u64),
    {
        proof {
            use_type_invariant(self);
        }
        (self.s0, self.s1)
    }

    /// A generator seeded with a number of nanoseconds.
    pub fn from_seed(nanos: u128) -> (rng: Rng)
        ensures
            rng@ == seed_state(nanos),
            rng@ != (0u64, 0u64),
    {
        let s0 = (#[verifier::truncate] (nanos as u64)).wrapping_mul(SEED_MIX_LOW);
        let s1 = (#[verifier::truncate] ((nanos >> 64) as u64)).wrapping_mul(SEED_MIX_HIGH);
        Rng::from_state(s0, s1)
    }

    /// A generator seeded from the system clock: the nanoseconds since the Unix epoch, or 0
    /// when the clock reads a time before it.
    pub fn seeded() -> (rng: Rng)
        ensures
            rng@ != (0u64, 0u64),
            exists|nanos: u128| rng@ == seed_state(nanos),
    {
        let now = clock_now();
        let nanos = match since_epoch(&now) {
            Ok(elapsed) => whole_nanos(&elapsed),
            Err(_) => 0,
        };
        Rng::from_seed(nanos)
    }

    /// Draws the next number and moves the state on by one step of the recurrence.
    pub fn next_u64(&mut self) -> (r: u64)
        ensures
            r == output(old(self)@),
            final(self)@ == next_state(old(self)@),
            final(self)@ != (0u64, 0u64),
    {
        proof {
            use_type_invariant(&*self);
            lemma_state_stays_nonzero(self@);
        }
        let mut s1 = self.s0;
        let s0 = self.s1;
        s1 ^= s1 << 23;
        let s1_new = s1 ^ s0 ^ (s1 >> 18) ^ (s0 >> 5);
        *self = Rng { s0, s1: s1_new };
        s1_new.wrapping_add(s0)
    }

    /// Draws `len` bytes: as many numbers as it takes, the bytes of each taken from the most
    /// significant down, and of the last number only as many as are still missing.
    pub fn next_bytes(&mut self, len: usize) -> (bytes: Vec<u8>)
        ensures
            bytes@ == stream_bytes(old(self)@, len as nat),
            final(self)@ == state_after(old(self)@, draws_for(len as nat)),
            final(self)@ != (0u64, 0u64),
    {
        let mut buf: Vec<u8> = Vec::new();
        let mut i: usize = 0;
        let ghost mut draws: nat = 0;
        proof {
            use_type_invariant(&*self);
        }
        while i < len
            invariant
                i <= len,
                buf@.len() == i,
                draws == draws_for(i as nat),
                i < len ==> i % 8 == 0,
                self@ == state_after(old(self)@, draws),
                self@ != (0u64, 0u64),
                forall|j: int|
                    0 <= j < i ==> #[trigger] buf@[j] == stream_bytes(old(self)@, len as nat)[j],
            decreases len - i,
        {
            let r = self.next_u64();
            let take: usize = if len - i < 8 {
                len - i
            } else {
                8
            };
            let mut k: usize = 0;
            while k < take
                invariant
                    k <= take,
                    take <= 8,
                    i + take <= len,
                    i % 8 == 0,
                    buf@.len() == i + k,
                    draws == draws_for(i as nat),
                    r == output(state_after(old(self)@, draws)),
                    forall|j: int|
                        0 <= j < i + k ==> #[trigger] buf@[j] == stream_bytes(
                            old(self)@,
                            len as nat,
                        )[j],
                decreases take - k,
            {
                let shift: u64 = 8 * (7 - k as u64);
                let byte = #[verifier::truncate] ((r >> shift) as u8);
                proof {
                    assert((i + k) / 8 == draws);
                    assert((i + k) % 8 == k);
                }
                buf.push(byte);
                k += 1;
            }
            proof {
                draws = draws + 1;
            }
            i += take;
        }
        assert(buf@ =~= stream_bytes(old(self)@, len as nat));
        buf
    }
}

} // verus!
