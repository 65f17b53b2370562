use collatz_explorer::animation::{bit_len_biguint, Animation};
use collatz_explorer::canvas::{VIZ_H, VIZ_W};
use collatz_explorer::plot::{highest, render, GRID, INK, PAPER};
use collatz_explorer::rng::Rng;
use num_bigint::BigUint;
use std::collections::VecDeque;

fn big(n: u64) -> BigUint {
    BigUint::from(n)
}

fn samples(a: &Animation) -> Vec<usize> {
    a.window().iter().copied().collect()
}

#[test]
fn bit_lengths() {
    assert_eq!(bit_len_biguint(&big(0)), 0);
    assert_eq!(bit_len_biguint(&big(1)), 1);
    assert_eq!(bit_len_biguint(&big(2)), 2);
    assert_eq!(bit_len_biguint(&big(255)), 8);
    assert_eq!(bit_len_biguint(&big(256)), 9);
    assert_eq!(bit_len_biguint(&big(u64::MAX)), 64);
    assert_eq!(bit_len_biguint(&(BigUint::from(1u32) << 68u32)), 69);
}

#[test]
fn bit_lengths_are_capped() {
    assert_eq!(bit_len_biguint(&(BigUint::from(1u32) << 4998u32)), 4999);
    assert_eq!(bit_len_biguint(&(BigUint::from(1u32) << 4999u32)), 5000);
    assert_eq!(bit_len_biguint(&(BigUint::from(1u32) << 6000u32)), 5000);
}

#[test]
fn idle_animation_stays_idle() {
    let mut a = Animation::new(100);
    let mut rng = Rng::from_state(1, 2);
    assert!(!a.is_running());
    assert!(!a.tick(false, &mut rng));
    assert!(!a.is_running());
    assert!(samples(&a).is_empty());
    assert_eq!(rng.state(), (1, 2));
}

#[test]
fn small_window_walks_one_step_per_tick() {
    let mut a = Animation::new(10);
    let mut rng = Rng::from_state(1, 2);
    a.begin(big(6));
    assert!(a.is_running());
    // 6 -> 3 -> 10 -> 5 -> 16: magnitudes 3, 2, 4, 3, 5
    let mut seen = Vec::new();
    for _ in 0..5 {
        assert!(a.tick(true, &mut rng));
        seen = samples(&a);
    }
    assert_eq!(seen, vec![3, 2, 4, 3, 5]);
    assert_eq!(rng.state(), (1, 2));
}

#[test]
fn large_window_walks_several_steps_per_tick() {
    let mut a = Animation::new(240);
    let mut rng = Rng::from_state(1, 2);
    a.begin(big(6));
    a.tick(true, &mut rng);
    // four steps per tick
    assert_eq!(samples(&a), vec![3, 2, 4, 3]);
}

#[test]
fn window_slides() {
    let mut a = Animation::new(3);
    let mut rng = Rng::from_state(1, 2);
    a.begin(big(6));
    for _ in 0..5 {
        a.tick(true, &mut rng);
    }
    assert_eq!(samples(&a), vec![4, 3, 5]);
}

#[test]
fn window_of_zero_keeps_one_sample() {
    let mut a = Animation::new(0);
    let mut rng = Rng::from_state(1, 2);
    a.begin(big(6));
    a.tick(true, &mut rng);
    a.tick(true, &mut rng);
    assert_eq!(samples(&a), vec![2]);
}

#[test]
fn new_trajectory_starts_over() {
    let mut a = Animation::new(10);
    let mut rng = Rng::from_state(1, 2);
    a.begin(big(6));
    a.tick(true, &mut rng);
    a.tick(true, &mut rng);
    a.begin(big(1024));
    assert!(samples(&a).is_empty());
    a.tick(true, &mut rng);
    assert_eq!(samples(&a), vec![11]);
}

#[test]
fn walk_rests_on_one_while_fresh() {
    let mut a = Animation::new(10);
    let mut rng = Rng::from_state(1, 2);
    a.begin(big(2));
    a.tick(true, &mut rng);
    a.tick(true, &mut rng);
    a.tick(true, &mut rng);
    // 2, then 1 twice: the walk does not leave 1
    assert_eq!(samples(&a), vec![2, 1, 1]);
    assert_eq!(rng.state(), (1, 2));
}

#[test]
fn idle_walk_on_one_draws_a_new_trajectory() {
    let mut a = Animation::new(10);
    let mut rng = Rng::from_state(1, 2);
    a.begin(big(1));
    a.tick(false, &mut rng);
    assert!(samples(&a).is_empty());
    assert_ne!(rng.state(), (1, 2));
    a.tick(false, &mut rng);
    let w = samples(&a);
    assert_eq!(w.len(), 1);
    assert!(w[0] >= 69 && w[0] <= 2000);
}

#[test]
fn highest_sample() {
    assert_eq!(highest(&VecDeque::new()), 1);
    assert_eq!(highest(&VecDeque::from(vec![0, 0])), 1);
    assert_eq!(highest(&VecDeque::from(vec![3, 9, 4])), 9);
}

#[test]
fn too_few_samples_leave_the_surface_alone() {
    let mut buf = vec![5u32; VIZ_W * VIZ_H];
    assert!(!render(&VecDeque::new(), &mut buf));
    assert!(!render(&VecDeque::from(vec![7]), &mut buf));
    assert!(buf.iter().all(|px| *px == 5));
}

#[test]
fn picture_has_backdrop_and_curve() {
    let mut buf = vec![5u32; VIZ_W * VIZ_H];
    assert!(render(&VecDeque::from(vec![1, 8]), &mut buf));
    // paper, grid and ink only
    assert!(buf.iter().all(|px| *px == PAPER || *px == GRID || *px == INK));
    // a grid line, away from axes and curve
    assert_eq!(buf[5 * VIZ_W + 50], GRID);
    assert_eq!(buf[495 * VIZ_W + 3], PAPER);
    // the axes
    assert_eq!(buf[490 * VIZ_W + 250], INK);
    assert_eq!(buf[250 * VIZ_W + 10], INK);
    // the ends of the curve: sample 1 of 8 low on the left, sample 8 of 8 at the top right
    assert_eq!(buf[(10 + 479 - 479 / 8) * VIZ_W + 10], INK);
    assert_eq!(buf[10 * VIZ_W + 489], INK);
    // one pixel of the curve per column between the two
    for x in 11..489 {
        let inked = (11..490).filter(|y| buf[y * VIZ_W + x] == INK).count();
        assert_eq!(inked, 1, "{}", x);
    }
}

#[test]
fn flat_curve_runs_along_the_top() {
    let mut buf = vec![5u32; VIZ_W * VIZ_H];
    assert!(render(&VecDeque::from(vec![4, 4, 4]), &mut buf));
    for x in 10..=489 {
        assert_eq!(buf[10 * VIZ_W + x], INK);
    }
    assert_eq!(buf[11 * VIZ_W + 301], PAPER);
}
