//! Orbits: the sequences that arise when a map on the natural numbers is applied again and
//! again to a starting value.

use crate::biguint::{from_u64, half, is_even, product, sum, value};
use num_bigint::BigUint;
use vstd::prelude::*;

verus! {

/// The Collatz map: an even number is halved, an odd one is tripled and incremented.
pub open spec fn collatz(n: nat) -> nat {
    if n % 2 == 0 {
        n / 2
    } else {
        3 * n + 1
    }
}

/// The value that `k` applications of `map` lead to from `start`.
pub open spec fn orbit(map: spec_fn(nat) -> nat, start: nat, k: nat) -> nat
    decreases k,
{
    if k == 0 {
        start
    } else {
        map(orbit(map, start, (k - 1) as nat))
    }
}

/// Whether the executable function `step` computes `map`: whatever it returns for a number
/// holds the image of that number.
pub open spec fn computes<F: Fn(&BigUint) -> BigUint>(step: F, map: spec_fn(nat) -> nat) -> bool {
    forall|x: BigUint, y: BigUint| #[trigger] step.ensures((&x,), y) ==> value(y) == map(value(x))
}

/// The successor of `n` in its Collatz orbit.
pub fn collatz_next(n: &BigUint) -> (r: BigUint)
    ensures
        value(r) == collatz(value(*n)),
{
    if is_even(n) {
        half(n)
    } else {
        let tripled = product(n, &from_u64(3));
        sum(&tripled, &from_u64(1))
    }
}

/// Law: an orbit can be walked in two legs: `a + b` steps from `start` lead where `b` steps
/// lead from the value that `a` steps lead to.
pub proof fn lemma_orbit_splits(map: spec_fn(nat) -> nat, start: nat, a: nat, b: nat)
    ensures
        orbit(map, start, a + b) == orbit(map, orbit(map, start, a), b),
    decreases b,
{
    if b > 0 {
        lemma_orbit_splits(map, start, a, (b - 1) as nat);
    }
}

/// Law: a value that returns to itself after `p` steps returns to itself after every multiple
/// of `p` steps.
pub proof fn lemma_orbit_repeats(map: spec_fn(nat) -> nat, at: nat, p: nat, times: nat)
    requires
        orbit(map, at, p) == at,
    ensures
        orbit(map, at, p * times) == at,
    decreases times,
{
    if times > 0 {
        lemma_orbit_repeats(map, at, p, (times - 1) as nat);
        assert(p * times == p * (times - 1) + p) by (nonlinear_arith);
        lemma_orbit_splits(map, at, p * (times - 1) as nat, p);
    } else {
        assert(p * times == 0) by (nonlinear_arith)
            requires
                times == 0,
        ;
    }
}

/// Law: on a cycle of length `p`, the value after `i` steps is the value after `i % p` steps.
pub proof fn lemma_orbit_wraps(map: spec_fn(nat) -> nat, at: nat, p: nat, i: nat)
    requires
        p > 0,
        orbit(map, at, p) == at,
    ensures
        orbit(map, at, i) == orbit(map, at, i % p),
{
    let q = i / p;
    let r = i % p;
    vstd::arithmetic::div_mod::lemma_fundamental_div_mod(i as int, p as int);
    lemma_orbit_repeats(map, at, p, q);
    lemma_orbit_splits(map, at, p * q, r);
}

/// Law: the Collatz orbit of 1 is the cycle 1, 4, 2.
pub proof fn lemma_one_cycles()
    ensures
        orbit(|n: nat| collatz(n), 1, 1) == 4,
        orbit(|n: nat| collatz(n), 1, 2) == 2,
        orbit(|n: nat| collatz(n), 1, 3) == 1,
{
    reveal_with_fuel(orbit, 4);
}

} // verus!
