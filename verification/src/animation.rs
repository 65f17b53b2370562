//! What the display shows between two messages: one trajectory, walked a few steps at a time,
//! and a sliding window over the magnitudes it has come by.

use crate::biguint::{difference, equal, one, shifted_left, to_bytes_be, value};
use crate::notation::{
    bit_length,
    lemma_be_digits_lead,
    lemma_bit_length_of_byte,
    lemma_bit_length_of_digits,
};
use crate::orbit::{collatz, collatz_next};
use crate::records::DEFAULT_START_BITS;
use crate::rng::Rng;
use crate::scan::{random_draw, RANDOM_HIGH_BITS};
use num_bigint::BigUint;
use std::collections::VecDeque;
use vstd::arithmetic::power2::{lemma_pow2_pos, pow2};
use vstd::prelude::*;

verus! {

/// Beyond how many bits a magnitude is no longer told apart, so that one huge value does not
/// flatten the rest of the picture.
pub const MAGNITUDE_CAP: usize = 5000;

/// The most steps a trajectory is walked per tick.
pub const MAX_STEPS_PER_TICK: usize = 2000;

/// How many ticks it takes to fill the window.
pub const TICKS_PER_WINDOW: usize = 60;

/// The number of bits of `n`, held at `MAGNITUDE_CAP`.
pub open spec fn capped_bits(n: nat) -> usize {
    if bit_length(n) > MAGNITUDE_CAP {
        MAGNITUDE_CAP
    } else {
        bit_length(n) as usize
    }
}

/// The sample that stands for `n` in the window: its capped number of bits, and 1 for 0.
pub open spec fn magnitude(n: nat) -> usize {
    if capped_bits(n) == 0 {
        1
    } else {
        capped_bits(n)
    }
}

/// The window after a sample has come in: the oldest sample leaves when the window would
/// hold more than `max_points`.
pub open spec fn pushed(window: Seq<usize>, sample: usize, max_points: usize) -> Seq<usize> {
    if window.len() + 1 > max_points {
        window.push(sample).drop_first()
    } else {
        window.push(sample)
    }
}

/// A trajectory that stands at `n`, and its window, after it has been walked for `steps`
/// steps at most: every value the walk stands on leaves its sample, and the walk ends early
/// on the value 1.
pub open spec fn walked(n: nat, window: Seq<usize>, max_points: usize, steps: nat) -> (
    nat,
    Seq<usize>,
)
    decreases steps,
{
    if steps == 0 {
        (n, window)
    } else if n == 1 {
        (n, pushed(window, magnitude(n), max_points))
    } else {
        walked(collatz(n), pushed(window, magnitude(n), max_points), max_points, (steps - 1) as nat)
    }
}

/// How many samples a window keeps when `max_steps` are asked for: at least one.
pub open spec fn window_size(max_steps: usize) -> usize {
    if max_steps == 0 {
        1
    } else {
        max_steps
    }
}

/// How many steps a trajectory is walked per tick for a window of `max_points` samples: a
/// sixtieth of the window, but at least 1 and at most `MAX_STEPS_PER_TICK`.
pub open spec fn tick_steps(max_points: usize) -> usize {
    if max_points / TICKS_PER_WINDOW < 1 {
        1
    } else if max_points / TICKS_PER_WINDOW > MAX_STEPS_PER_TICK {
        MAX_STEPS_PER_TICK
    } else {
        max_points / TICKS_PER_WINDOW
    }
}

/// The animation, as contracts speak of it.
pub struct AnimationView {
    pub current: Option<nat>,
    pub window: Seq<usize>,
    pub max_points: usize,
    pub steps_per_tick: usize,
}

impl AnimationView {
    /// The animation after a new trajectory has come in: it starts over with that one.
    pub open spec fn begun(self, start: nat) -> AnimationView {
        AnimationView { current: Some(start), window: seq![], ..self }
    }

    /// The animation after a tick. `fresh` says whether a new trajectory has come in since
    /// the tick before, and `draw` what a draw of a random starting value gives. An
    /// animation without a trajectory stays as it is. One with a trajectory walks it; if the
    /// walk ends on 1 and there is no fresh trajectory, the animation starts over with the
    /// value drawn, and stays where it is if none was drawn.
    pub open spec fn ticked(self, fresh: bool, draw: Option<nat>) -> AnimationView {
        match self.current {
            None => self,
            Some(n) => {
                let w = walked(n, self.window, self.max_points, self.steps_per_tick as nat);
                if w.0 == 1 && !fresh {
                    match draw {
                        Some(v) => AnimationView { current: Some(v), window: seq![], ..self },
                        None => AnimationView { current: Some(w.0), window: w.1, ..self },
                    }
                } else {
                    AnimationView { current: Some(w.0), window: w.1, ..self }
                }
            },
        }
    }

    /// Whether a tick of this animation draws a random starting value.
    pub open spec fn draws(self, fresh: bool) -> bool {
        self.current matches Some(n) && walked(
            n,
            self.window,
            self.max_points,
            self.steps_per_tick as nat,
        ).0 == 1 && !fresh
    }
}

/// The animation.
pub struct Animation {
    current: Option<BigUint>,
    window: VecDeque<usize>,
    max_points: usize,
    steps_per_tick: usize,
    random_low: BigUint,
    random_high: BigUint,
}

impl View for Animation {
    type V = AnimationView;

    closed spec fn view(&self) -> AnimationView {
        AnimationView {
            current: match self.current {
                Some(n) => Some(value(n)),
                None => None,
            },
            window: self.window@,
            max_points: self.max_points,
            steps_per_tick: self.steps_per_tick,
        }
    }
}

/// Law: a window that holds no more than `max_points` samples still does after a sample has
/// come in, and is never empty then.
pub proof fn lemma_pushed_stays_bounded(window: Seq<usize>, sample: usize, max_points: usize)
    requires
        window.len() <= max_points,
        max_points >= 1,
    ensures
        1 <= pushed(window, sample, max_points).len() <= max_points,
        pushed(window, sample, max_points).last() == sample,
{
}

/// Law: a walk keeps the window within its size.
pub proof fn lemma_walked_stays_bounded(n: nat, window: Seq<usize>, max_points: usize, steps: nat)
    requires
        window.len() <= max_points,
        max_points >= 1,
    ensures
        walked(n, window, max_points, steps).1.len() <= max_points,
    decreases steps,
{
    if steps > 0 {
        lemma_pushed_stays_bounded(window, magnitude(n), max_points);
        if n != 1 {
            lemma_walked_stays_bounded(
                collatz(n),
                pushed(window, magnitude(n), max_points),
                max_points,
                (steps - 1) as nat,
            );
        }
    }
}

/// The number of bits of `n`, counted from its bytes and held at `MAGNITUDE_CAP`.
pub fn bit_len_biguint(n: &BigUint) -> (bits: usize)
    ensures
        bits == capped_bits(value(*n)),
{
    let bytes = to_bytes_be(n);
    if bytes.len() == 0 {
        proof {
            if value(*n) > 0 {
                lemma_be_digits_lead(value(*n));
            }
        }
        return 0;
    }
    let leading = bytes[0].leading_zeros() as usize;
    proof {
        lemma_bit_length_of_byte(bytes[0]);
        if value(*n) > 0 {
            lemma_bit_length_of_digits(value(*n));
        } else {
            assert(bit_length(0) == 0);
            assert(bytes@ == seq![0u8]);
        }
    }
    let all: usize = match bytes.len().checked_mul(8) {
        Some(v) => v,
        None => usize::MAX,
    };
    let bits = all.saturating_sub(leading);
    if bits > MAGNITUDE_CAP {
        MAGNITUDE_CAP
    } else {
        bits
    }
}

impl Animation {
    /// Whether the animation is in order: its window holds no more samples than it may, and
    /// its settings are those that `new` gave it.
    pub closed spec fn well_formed(&self) -> bool {
        &&& self.max_points >= 1
        &&& self.steps_per_tick == tick_steps(self.max_points)
        &&& self.window@.len() <= self.max_points
        &&& value(self.random_low) == pow2(DEFAULT_START_BITS as nat)
        &&& value(self.random_high) == pow2(RANDOM_HIGH_BITS as nat) - 1
    }

    /// An animation without a trajectory, with a window of `max_steps` samples.
    pub fn new(max_steps: usize) -> (animation: Animation)
        ensures
            animation.well_formed(),
            animation@ == (AnimationView {
                current: None,
                window: seq![],
                max_points: window_size(max_steps),
                steps_per_tick: tick_steps(window_size(max_steps)),
            }),
    {
        let max_points = if max_steps == 0 {
            1
        } else {
            max_steps
        };
        let per_tick = max_points / TICKS_PER_WINDOW;
        let steps_per_tick = if per_tick < 1 {
            1
        } else if per_tick > MAX_STEPS_PER_TICK {
            MAX_STEPS_PER_TICK
        } else {
            per_tick
        };
        let unit = one();
        let random_low = shifted_left(&unit, DEFAULT_START_BITS);
        let above = shifted_left(&unit, RANDOM_HIGH_BITS);
        proof {
            lemma_pow2_pos(RANDOM_HIGH_BITS as nat);
            assert(1 * pow2(DEFAULT_START_BITS as nat) == pow2(DEFAULT_START_BITS as nat));
            assert(1 * pow2(RANDOM_HIGH_BITS as nat) == pow2(RANDOM_HIGH_BITS as nat));
        }
        let random_high = difference(&above, &unit);
        Animation {
            current: None,
            window: VecDeque::new(),
            max_points,
            steps_per_tick,
            random_low,
            random_high,
        }
    }

    /// Starts over with a new trajectory.
    pub fn begin(&mut self, start: BigUint)
        requires
            old(self).well_formed(),
        ensures
            final(self).well_formed(),
            final(self)@ == old(self)@.begun(value(start)),
    {
        self.window.clear();
        self.current = Some(start);
    }

    /// The window of samples.
    pub fn window(&self) -> (window: &VecDeque<usize>)
        ensures
            window@ == self@.window,
            self.well_formed() ==> window@.len() <= self@.max_points,
    {
        &self.window
    }

    /// Whether the animation has a trajectory.
    pub fn is_running(&self) -> (running: bool)
        ensures
            running == self@.current is Some,
    {
        self.current.is_some()
    }

    /// Moves the animation on by one tick. `fresh` says whether a new trajectory has come in
    /// since the tick before. The generator is drawn from only when the walk has ended on 1
    /// and there is no fresh trajectory. The result says whether the animation had a
    /// trajectory to walk.
    pub fn tick(&mut self, fresh: bool, rng: &mut Rng) -> (moved: bool)
        requires
            old(self).well_formed(),
        ensures
            final(self).well_formed(),
            moved == old(self)@.current is Some,
            final(self)@ == old(self)@.ticked(
                fresh,
                if old(self)@.draws(fresh) {
                    random_draw(old(rng)@).0
                } else {
                    None
                },
            ),
            final(rng)@ == (if old(self)@.draws(fresh) {
                random_draw(old(rng)@).1
            } else {
                old(rng)@
            }),
    {
        let mut n = match self.current.take() {
            Some(n) => n,
            None => {
                return false;
            },
        };
        let unit = one();
        let max_points = self.max_points;
        let steps = self.steps_per_tick;
        let ghost first = value(n);
        let ghost before = self.window@;
        let mut taken: usize = 0;
        while taken < steps
            invariant_except_break
                taken <= steps,
                walked(first, before, max_points, steps as nat) == walked(
                    value(n),
                    self.window@,
                    max_points,
                    (steps - taken) as nat,
                ),
            invariant
                max_points >= 1,
                value(unit) == 1,
                self.window@.len() <= max_points,
                self.max_points == old(self).max_points,
                self.steps_per_tick == old(self).steps_per_tick,
                self.random_low == old(self).random_low,
                self.random_high == old(self).random_high,
            ensures
                walked(first, before, max_points, steps as nat) == (value(n), self.window@),
            decreases steps - taken,
        {
            let bits = bit_len_biguint(&n);
            let sample = if bits == 0 {
                1
            } else {
                bits
            };
            let ghost prior = self.window@;
            proof {
                lemma_pushed_stays_bounded(prior, sample, max_points);
            }
            self.window.push_back(sample);
            if self.window.len() > max_points {
                let _ = self.window.pop_front();
            }
            assert(self.window@ =~= pushed(prior, sample, max_points));
            if equal(&n, &unit) {
                break ;
            }
            n = collatz_next(&n);
            taken += 1;
        }
        if equal(&n, &unit) && !fresh {
            match rng.gen_range_biguint(&self.random_low, &self.random_high) {
                Some(v) => {
                    n = v;
                    self.window.clear();
                },
                None => {},
            }
        }
        self.current = Some(n);
        true
    }
}

} // verus!
