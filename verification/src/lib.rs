//! Exploring the Collatz conjecture on numbers of any size.
//!
//! The library classifies orbits with two pointers and constant memory (`cycle`), walks
//! through starting values in order or at random and says what has to be recorded on the way
//! (`scan`, `records`, `options`), draws unbiased random numbers from a range (`rng`,
//! `sampler`), and prepares the picture of a trajectory for a display (`animation`, `plot`,
//! `canvas`). Numbers are the `BigUint` of `num_bigint`; `biguint` says what is taken on
//! trust about them, and `notation` how numbers are written as bytes and as text.

pub mod animation;
pub mod biguint;
pub mod canvas;
pub mod cycle;
pub mod notation;
pub mod options;
pub mod orbit;
pub mod plot;
pub mod records;
pub mod rng;
pub mod sampler;
pub mod scan;
