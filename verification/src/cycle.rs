//! Classifying an orbit by where it ends up, with two pointers and no memory of the path.
//!
//! A slow pointer takes one step per round and a fast pointer two. Where they meet, the orbit
//! has entered a cycle; a walk once around that cycle tells whether it holds the number 1.

use crate::biguint::{duplicate, equal, one, value};
use crate::orbit::{
    collatz,
    collatz_next,
    computes,
    lemma_one_cycles,
    lemma_orbit_repeats,
    lemma_orbit_splits,
    lemma_orbit_wraps,
    orbit,
};
use num_bigint::BigUint;
use vstd::prelude::*;

verus! {

/// What becomes of an orbit.
#[derive(Debug, Clone, Copy, PartialEq, Eq, Structural)]
pub enum Outcome {
    /// The orbit enters the cycle that holds 1.
    ReachesOne,
    /// The orbit enters a cycle that does not hold 1.
    NontrivialCycle,
    /// The pointers did not meet within the step ceiling.
    StepsOverflow,
}

/// Whether the two pointers stand on the same value in round `k`: the slow one has then taken
/// `k + 1` steps from the start and the fast one `2 * k + 3`.
pub open spec fn meets_at(map: spec_fn(nat) -> nat, start: nat, k: nat) -> bool {
    orbit(map, start, k + 1) == orbit(map, start, 2 * k + 3)
}

/// Whether the pointers meet in one of the rounds `0` to `ceiling - 1`.
pub open spec fn meets_within(map: spec_fn(nat) -> nat, start: nat, ceiling: nat) -> bool {
    exists|k: nat| k < ceiling && meets_at(map, start, k)
}

/// Whether the orbit of `start` comes by the number 1.
pub open spec fn visits_one(map: spec_fn(nat) -> nat, start: nat) -> bool {
    exists|k: nat| orbit(map, start, k) == 1
}

/// Whether the number 1 lies on a cycle of `map`.
pub open spec fn one_recurs(map: spec_fn(nat) -> nat) -> bool {
    exists|p: nat| p > 0 && orbit(map, 1, p) == 1
}

/// The outcome for the orbit of `start` under `map`, with `ceiling` rounds allowed for the
/// pointers to meet.
pub open spec fn verdict(map: spec_fn(nat) -> nat, start: nat, ceiling: nat) -> Outcome {
    if !meets_within(map, start, ceiling) {
        Outcome::StepsOverflow
    } else if visits_one(map, start) && one_recurs(map) {
        Outcome::ReachesOne
    } else {
        Outcome::NontrivialCycle
    }
}

/// The state of the chase before round `round`, seen through one map: where the pointers
/// stand, and that they met in no earlier round.
spec fn chasing(map: spec_fn(nat) -> nat, start: nat, round: nat, slow: nat, fast: nat) -> bool {
    &&& orbit(map, start, round + 1) == slow
    &&& orbit(map, start, 2 * round + 3) == fast
    &&& forall|k: nat| k < round ==> !#[trigger] meets_at(map, start, k)
}

/// The state of the walk around the cycle after `taken` steps from `meet`, seen through one
/// map: where the walk stands, that it has not come by 1 and not come back to `meet`.
spec fn walking(map: spec_fn(nat) -> nat, meet: nat, taken: nat, at: nat) -> bool {
    &&& orbit(map, meet, taken) == at
    &&& forall|i: nat| i < taken ==> #[trigger] orbit(map, meet, i) != 1
    &&& forall|i: nat| 0 < i <= taken ==> #[trigger] orbit(map, meet, i) != meet
}

proof fn lemma_meeting_point_cycles(map: spec_fn(nat) -> nat, start: nat, k: nat)
    requires
        meets_at(map, start, k),
    ensures
        orbit(map, orbit(map, start, k + 1), k + 2) == orbit(map, start, k + 1),
{
    lemma_orbit_splits(map, start, k + 1, k + 2);
}

proof fn lemma_verdict_one_found(
    map: spec_fn(nat) -> nat,
    start: nat,
    ceiling: nat,
    k: nat,
    taken: nat,
)
    requires
        k < ceiling,
        meets_at(map, start, k),
        orbit(map, orbit(map, start, k + 1), taken) == 1,
    ensures
        verdict(map, start, ceiling) == Outcome::ReachesOne,
{
    let meet = orbit(map, start, k + 1);
    lemma_orbit_splits(map, start, k + 1, taken);
    assert(orbit(map, start, k + 1 + taken) == 1);
    lemma_meeting_point_cycles(map, start, k);
    lemma_orbit_splits(map, meet, taken, k + 2);
    lemma_orbit_splits(map, meet, k + 2, taken);
    assert(orbit(map, 1, k + 2) == 1);
}

proof fn lemma_verdict_one_missed(
    map: spec_fn(nat) -> nat,
    start: nat,
    ceiling: nat,
    k: nat,
    meet: nat,
    lap: nat,
)
    requires
        k < ceiling,
        meets_at(map, start, k),
        meet == orbit(map, start, k + 1),
        lap > 0,
        orbit(map, meet, lap) == meet,
        forall|i: nat| i < lap ==> #[trigger] orbit(map, meet, i) != 1,
    ensures
        verdict(map, start, ceiling) == Outcome::NontrivialCycle,
{
    if visits_one(map, start) && one_recurs(map) {
        let t = choose|t: nat| orbit(map, start, t) == 1;
        let p = choose|p: nat| p > 0 && orbit(map, 1, p) == 1;
        lemma_orbit_repeats(map, 1, p, k + 1);
        lemma_orbit_splits(map, start, t, p * (k + 1));
        assert(p * (k + 1) >= k + 1) by (nonlinear_arith)
            requires
                p >= 1,
        ;
        let far = (t + p * (k + 1) - (k + 1)) as nat;
        lemma_orbit_splits(map, start, k + 1, far);
        assert(orbit(map, meet, far) == 1);
        lemma_orbit_wraps(map, meet, lap, far);
        assert(far % lap < lap) by (nonlinear_arith)
            requires
                lap > 0,
        ;
        assert(false);
    }
}

/// Classifies the orbit of `start` under the map that `step` computes, allowing `ceiling`
/// rounds for the two pointers to meet.
///
/// `step` has to accept every number and to be a function of the number it is given. The
/// outcome is then the verdict on the orbit: `StepsOverflow` when the pointers do not meet in
/// any of the rounds allowed, `ReachesOne` when they do and the orbit ends in a cycle through
/// 1, `NontrivialCycle` when they do and it ends in another cycle.
pub fn classify_orbit<F: Fn(&BigUint) -> BigUint>(step: F, start: &BigUint, ceiling: u64) -> (outcome:
    Outcome)
    requires
        forall|x: BigUint| step.requires((&x,)),
        exists|map: spec_fn(nat) -> nat| computes(step, map),
    ensures
        forall|map: spec_fn(nat) -> nat| #[trigger]
            computes(step, map) ==> outcome == verdict(map, value(*start), ceiling as nat),
{
    let ghost origin = value(*start);
    let ghost model = choose|map: spec_fn(nat) -> nat| computes(step, map);
    let mut tortoise = step(start);
    let between = step(&tortoise);
    let mut hare = step(&between);
    let mut round: u64 = 0;
    proof {
        assert forall|map: spec_fn(nat) -> nat| #[trigger] computes(step, map) implies chasing(
            map,
            origin,
            0,
            value(tortoise),
            value(hare),
        ) by {
            reveal_with_fuel(orbit, 4);
        }
    }
    loop
        invariant_except_break
            forall|x: BigUint| step.requires((&x,)),
            origin == value(*start),
            round <= ceiling,
            forall|map: spec_fn(nat) -> nat| #[trigger]
                computes(step, map) ==> chasing(map, origin, round as nat, value(tortoise), value(hare)),
        ensures
            round < ceiling,
            value(tortoise) == value(hare),
            forall|map: spec_fn(nat) -> nat| #[trigger]
                computes(step, map) ==> chasing(map, origin, round as nat, value(tortoise), value(hare)),
        decreases ceiling - round,
    {
        if round >= ceiling {
            proof {
                assert forall|map: spec_fn(nat) -> nat| #[trigger]
                    computes(step, map) implies verdict(map, origin, ceiling as nat)
                    == Outcome::StepsOverflow by {
                    assert(chasing(map, origin, round as nat, value(tortoise), value(hare)));
                }
            }
            return Outcome::StepsOverflow;
        }
        if equal(&tortoise, &hare) {
            break ;
        }
        let slow = step(&tortoise);
        let middle = step(&hare);
        let fast = step(&middle);
        proof {
            assert forall|map: spec_fn(nat) -> nat| #[trigger]
                computes(step, map) implies chasing(
                map,
                origin,
                (round + 1) as nat,
                value(slow),
                value(fast),
            ) by {
                assert(chasing(map, origin, round as nat, value(tortoise), value(hare)));
                assert(orbit(map, origin, (round + 2) as nat) == value(slow));
                assert(orbit(map, origin, (2 * round + 4) as nat) == value(middle));
                assert(orbit(map, origin, (2 * round + 5) as nat) == value(fast));
                assert(!meets_at(map, origin, round as nat));
            }
        }
        tortoise = slow;
        hare = fast;
        round += 1;
    }
    // The pointers have met: the orbit is on a cycle, and the meeting point comes back to
    // itself after `round + 2` steps at the latest.
    let meet = tortoise;
    let mut x = duplicate(&meet);
    let unit = one();
    let ghost mut taken: nat = 0;
    proof {
        assert(chasing(model, origin, round as nat, value(meet), value(hare)));
        lemma_meeting_point_cycles(model, origin, round as nat);
    }
    loop
        invariant
            forall|x: BigUint| step.requires((&x,)),
            origin == value(*start),
            value(unit) == 1,
            round < ceiling,
            computes(step, model),
            orbit(model, value(meet), (round + 2) as nat) == value(meet),
            taken < round + 2,
            forall|map: spec_fn(nat) -> nat| #[trigger]
                computes(step, map) ==> meets_at(map, origin, round as nat) && orbit(
                    map,
                    origin,
                    (round + 1) as nat,
                ) == value(meet) && walking(map, value(meet), taken, value(x)),
        decreases round + 2 - taken,
    {
        if equal(&x, &unit) {
            proof {
                assert forall|map: spec_fn(nat) -> nat| #[trigger]
                    computes(step, map) implies verdict(map, origin, ceiling as nat)
                    == Outcome::ReachesOne by {
                    assert(walking(map, value(meet), taken, value(x)));
                    lemma_verdict_one_found(map, origin, ceiling as nat, round as nat, taken);
                }
            }
            return Outcome::ReachesOne;
        }
        let next = step(&x);
        let back = equal(&next, &meet);
        proof {
            assert forall|map: spec_fn(nat) -> nat| #[trigger]
                computes(step, map) implies orbit(map, value(meet), taken + 1) == value(next) && (
            forall|i: nat| i < taken + 1 ==> #[trigger] orbit(map, value(meet), i) != 1) by {
                assert(walking(map, value(meet), taken, value(x)));
            }
        }
        if back {
            proof {
                assert forall|map: spec_fn(nat) -> nat| #[trigger]
                    computes(step, map) implies verdict(map, origin, ceiling as nat)
                    == Outcome::NontrivialCycle by {
                    assert(orbit(map, value(meet), taken + 1) == value(next));
                    lemma_verdict_one_missed(
                        map,
                        origin,
                        ceiling as nat,
                        round as nat,
                        value(meet),
                        taken + 1,
                    );
                }
            }
            return Outcome::NontrivialCycle;
        }
        proof {
            assert forall|map: spec_fn(nat) -> nat| #[trigger]
                computes(step, map) implies walking(map, value(meet), taken + 1, value(next)) by {
                assert(walking(map, value(meet), taken, value(x)));
                assert(orbit(map, value(meet), taken + 1) == value(next));
            }
            assert(walking(model, value(meet), taken + 1, value(next)));
            taken = taken + 1;
        }
        x = next;
    }
}

/// Law: a Collatz orbit that comes by 1 is classified as reaching 1, provided the ceiling
/// leaves the pointers two rounds more than the steps it takes the orbit to get there.
pub proof fn lemma_orbit_to_one_is_detected(start: nat, steps: nat, ceiling: nat)
    requires
        orbit(|n: nat| collatz(n), start, steps) == 1,
        steps + 2 <= ceiling,
    ensures
        verdict(|n: nat| collatz(n), start, ceiling) == Outcome::ReachesOne,
{
    let map = |n: nat| collatz(n);
    lemma_one_cycles();
    // a round in which the slow pointer is past the first 1 and the fast pointer a whole
    // number of laps ahead
    let k: nat = if (steps + 1) % 3 == 0 {
        (steps - 1) as nat
    } else if (steps + 2) % 3 == 0 {
        steps
    } else {
        steps + 1
    };
    assert(k + 1 >= steps && (k + 2) % 3 == 0 && k < ceiling);
    let slow = orbit(map, start, k + 1);
    let ahead = (k + 1 - steps) as nat;
    lemma_orbit_splits(map, start, steps, ahead);
    assert(slow == orbit(map, 1, ahead));
    // the slow pointer stands on the cycle of 1, so three steps bring it back
    lemma_orbit_splits(map, 1, ahead, 3);
    lemma_orbit_splits(map, 1, 3, ahead);
    assert(orbit(map, slow, 3) == slow);
    let laps = (k + 2) / 3;
    lemma_orbit_repeats(map, slow, 3, laps);
    assert(3 * laps == k + 2);
    lemma_orbit_splits(map, start, k + 1, k + 2);
    assert(meets_at(map, start, k));
    assert(orbit(map, 1, 3) == 1);
}

/// Classifies the Collatz orbit of `start`, with the whole range of a 64-bit counter allowed
/// for the pointers to meet.
pub fn detect_outcome(start: &BigUint) -> (outcome: Outcome)
    ensures
        outcome == verdict(|n: nat| collatz(n), value(*start), u64::MAX as nat),
        outcome == Outcome::ReachesOne ==> visits_one(|n: nat| collatz(n), value(*start)),
        outcome == Outcome::NontrivialCycle ==> !visits_one(|n: nat| collatz(n), value(*start)),
{
    proof {
        lemma_one_cycles();
        assert(computes(collatz_next, |n: nat| collatz(n)));
        assert(one_recurs(|n: nat| collatz(n))) by {
            assert(orbit(|n: nat| collatz(n), 1, 3) == 1);
        }
    }
    classify_orbit(collatz_next, start, u64::MAX)
}

} // verus!
