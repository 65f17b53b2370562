use collatz_explorer::rng::Rng;
use num_bigint::BigUint;

fn reference_next(s0: &mut u64, s1: &mut u64) -> u64 {
    let mut a = *s0;
    let b = *s1;
    *s0 = b;
    a ^= a << 23;
    *s1 = a ^ b ^ (a >> 18) ^ (b >> 5);
    s1.wrapping_add(b)
}

#[test]
fn all_zero_state_is_corrected() {
    assert_eq!(Rng::from_state(0, 0).state(), (0, 1));
    assert_eq!(Rng::from_seed(0).state(), (0, 1));
}

#[test]
fn other_states_are_kept() {
    assert_eq!(Rng::from_state(7, 0).state(), (7, 0));
    assert_eq!(Rng::from_state(0, 9).state(), (0, 9));
}

#[test]
fn seed_is_scrambled_by_halves() {
    let nanos: u128 = (5u128 << 64) | 3u128;
    let expected = (
        3u64.wrapping_mul(0x9E37_79B9_7F4A_7C15),
        5u64.wrapping_mul(0xD1B5_4A32_D192_ED03),
    );
    assert_eq!(Rng::from_seed(nanos).state(), expected);
}

#[test]
fn clock_seed_is_never_all_zero() {
    let rng = Rng::seeded();
    assert_ne!(rng.state(), (0, 0));
}

#[test]
fn first_draw_from_one_one() {
    let mut rng = Rng::from_state(1, 1);
    // t = 1 ^ (1 << 23); s1' = t ^ 1 ^ (t >> 18) ^ 0
    let t: u64 = 1 ^ (1 << 23);
    let s1 = t ^ 1 ^ (t >> 18);
    assert_eq!(rng.next_u64(), s1.wrapping_add(1));
    assert_eq!(rng.state(), (1, s1));
}

#[test]
fn draws_follow_the_recurrence() {
    let mut rng = Rng::from_state(0x1234_5678_9ABC_DEF0, 0x0FED_CBA9_8765_4321);
    let (mut s0, mut s1) = (0x1234_5678_9ABC_DEF0u64, 0x0FED_CBA9_8765_4321u64);
    for _ in 0..1000 {
        assert_eq!(rng.next_u64(), reference_next(&mut s0, &mut s1));
        assert_eq!(rng.state(), (s0, s1));
        assert_ne!(rng.state(), (0, 0));
    }
}

#[test]
fn bytes_come_most_significant_first() {
    let mut rng = Rng::from_state(11, 22);
    let (mut s0, mut s1) = (11u64, 22u64);
    let a = reference_next(&mut s0, &mut s1).to_be_bytes();
    let b = reference_next(&mut s0, &mut s1).to_be_bytes();
    let bytes = rng.next_bytes(11);
    let mut expected = a.to_vec();
    expected.extend_from_slice(&b[..3]);
    assert_eq!(bytes, expected);
    assert_eq!(rng.state(), (s0, s1));
}

#[test]
fn no_bytes_leave_the_generator_alone() {
    let mut rng = Rng::from_state(11, 22);
    assert_eq!(rng.next_bytes(0), Vec::<u8>::new());
    assert_eq!(rng.state(), (11, 22));
}

#[test]
fn samples_stay_in_range() {
    let mut rng = Rng::from_state(42, 4242);
    let low = BigUint::from(10u32);
    let high = BigUint::from(20u32);
    let mut seen = [false; 11];
    for _ in 0..5000 {
        let v = rng.gen_range_biguint(&low, &high).expect("a sample");
        assert!(v >= low && v <= high);
        let digits = v.to_u64_digits();
        seen[(digits[0] - 10) as usize] = true;
    }
    assert!(seen.iter().all(|s| *s));
}

#[test]
fn single_number_range_gives_that_number() {
    let mut rng = Rng::from_state(42, 4242);
    let five = BigUint::from(5u32);
    for _ in 0..100 {
        assert_eq!(rng.gen_range_biguint(&five, &five), Some(five.clone()));
    }
    assert_eq!(rng.state(), (42, 4242));
}

#[test]
fn empty_range_gives_low() {
    let mut rng = Rng::from_state(1, 2);
    let low = BigUint::from(9u32);
    let high = BigUint::from(3u32);
    assert_eq!(rng.gen_range_biguint(&low, &high), Some(low.clone()));
    assert_eq!(rng.state(), (1, 2));
}

#[test]
fn sample_is_low_plus_first_accepted_candidate() {
    // a span of 11 takes one byte; candidates are the top bytes of successive draws
    let (mut s0, mut s1) = (42u64, 4242u64);
    let mut expected = None;
    for _ in 0..10_000 {
        let top = (reference_next(&mut s0, &mut s1) >> 56) as u32;
        if top < 11 {
            expected = Some(BigUint::from(10 + top));
            break;
        }
    }
    let mut rng = Rng::from_state(42, 4242);
    let got = rng.gen_range_biguint(&BigUint::from(10u32), &BigUint::from(20u32));
    assert_eq!(got, expected);
    assert_eq!(rng.state(), (s0, s1));
}

#[test]
fn no_attempts_give_no_sample() {
    let mut rng = Rng::from_state(42, 4242);
    let got = rng.try_gen_range_biguint(&BigUint::from(10u32), &BigUint::from(20u32), 0);
    assert_eq!(got, None);
    assert_eq!(rng.state(), (42, 4242));
}

#[test]
fn rejected_attempts_move_the_generator_on() {
    let (mut s0, mut s1) = (42u64, 4242u64);
    let first = (reference_next(&mut s0, &mut s1) >> 56) as u32;
    let mut rng = Rng::from_state(42, 4242);
    let got = rng.try_gen_range_biguint(&BigUint::from(10u32), &BigUint::from(20u32), 1);
    if first < 11 {
        assert_eq!(got, Some(BigUint::from(10 + first)));
    } else {
        assert_eq!(got, None);
    }
    assert_eq!(rng.state(), (s0, s1));
}

#[test]
fn wide_ranges_are_sampled_too() {
    let mut rng = Rng::from_state(3, 5);
    let low = BigUint::from(1u32) << 68u32;
    let high = (BigUint::from(1u32) << 2000u32) - 1u32;
    for _ in 0..50 {
        let v = rng.gen_range_biguint(&low, &high).expect("a sample");
        assert!(v >= low && v <= high);
    }
}
