//! The arbitrary-precision numbers of `num_bigint`, as far as this library uses them.
//!
//! A `BigUint` is opaque to the verifier. Everything the library knows of one is the natural
//! number it holds, `value`, and what the functions below state of that number. None of these
//! statements is proved here: each restates what `num_bigint` documents and implements.

use crate::notation::{be_bytes, be_value, decimal_text, decimal_value};
use num_bigint::BigUint;
use num_bigint::ParseBigIntError;
use num_integer::Integer;
use num_traits::One;
use std::str::FromStr;
use vstd::arithmetic::power2::pow2;
use vstd::prelude::*;

verus! {

#[verifier::external_type_specification]
#[verifier::external_body]
pub struct ExBigUint(num_bigint::BigUint);

#[verifier::external_type_specification]
#[verifier::external_body]
pub struct ExParseBigIntError(num_bigint::ParseBigIntError);

/// The natural number that a `BigUint` holds.
pub uninterp spec fn value(n: BigUint) -> nat;

/// `BigUint::from` on a `u64`: the result holds the same number.
#[verifier::external_body]
pub(crate) fn from_u64(x: u64) -> (r: BigUint)
    ensures
        value(r) == x,
{
    BigUint::from(x)
}

/// `One::one` of `BigUint`: the number 1.
#[verifier::external_body]
pub(crate) fn one() -> (r: BigUint)
    ensures
        value(r) == 1,
{
    One::one()
}

/// `Clone::clone` of `BigUint`: the copy holds the same number.
#[verifier::external_body]
pub(crate) fn duplicate(n: &BigUint) -> (r: BigUint)
    ensures
        value(r) == value(*n),
{
    n.clone()
}

/// `PartialEq::eq` of `BigUint`: two values are equal exactly when they hold the same number.
#[verifier::external_body]
pub(crate) fn equal(a: &BigUint, b: &BigUint) -> (r: bool)
    ensures
        r == (value(*a) == value(*b)),
{
    a == b
}

/// `PartialOrd::lt` of `BigUint`: the order of the values is the order of the numbers.
#[verifier::external_body]
pub(crate) fn less_than(a: &BigUint, b: &BigUint) -> (r: bool)
    ensures
        r == (value(*a) < value(*b)),
{
    a < b
}

/// `Integer::is_even` of `BigUint`: whether the number is divisible by 2.
#[verifier::external_body]
pub(crate) fn is_even(n: &BigUint) -> (r: bool)
    ensures
        r == (value(*n) % 2 == 0),
{
    Integer::is_even(n)
}

/// `Shr::shr` of `&BigUint` by one bit: the number halved, rounded down.
#[verifier::external_body]
pub(crate) fn half(n: &BigUint) -> (r: BigUint)
    ensures
        value(r) == value(*n) / 2,
{
    n >> 1u32
}

/// `Shl::shl` of `&BigUint`: the number times two to the power of `bits`.
#[verifier::external_body]
pub(crate) fn shifted_left(n: &BigUint, bits: u16) -> (r: BigUint)
    ensures
        value(r) == value(*n) * pow2(bits as nat),
{
    n << bits
}

/// `Mul::mul` of two `&BigUint`: the product of the numbers.
#[verifier::external_body]
pub(crate) fn product(a: &BigUint, b: &BigUint) -> (r: BigUint)
    ensures
        value(r) == value(*a) * value(*b),
{
    a * b
}

/// `Add::add` of two `&BigUint`: the sum of the numbers.
#[verifier::external_body]
pub(crate) fn sum(a: &BigUint, b: &BigUint) -> (r: BigUint)
    ensures
        value(r) == value(*a) + value(*b),
{
    a + b
}

/// `Sub::sub` of two `&BigUint`: the difference of the numbers. The subtraction panics when
/// the second number is the larger one, so such a pair is not accepted.
#[verifier::external_body]
pub(crate) fn difference(a: &BigUint, b: &BigUint) -> (r: BigUint)
    requires
        value(*a) >= value(*b),
    ensures
        value(r) == value(*a) - value(*b),
{
    a - b
}

/// `BigUint::to_bytes_be`: the shortest big-endian byte string that denotes the number, and
/// one zero byte for 0.
#[verifier::external_body]
pub(crate) fn to_bytes_be(n: &BigUint) -> (r: Vec<u8>)
    ensures
        r@ == be_bytes(value(*n)),
{
    n.to_bytes_be()
}

/// `BigUint::from_bytes_be`: the number that the bytes denote, most significant byte first;
/// leading zero bytes count for nothing and no bytes at all denote 0.
#[verifier::external_body]
pub(crate) fn from_bytes_be(bytes: &[u8]) -> (r: BigUint)
    ensures
        value(r) == be_value(bytes@),
{
    BigUint::from_bytes_be(bytes)
}

/// `BigUint::to_str_radix` with radix 10: the decimal digits of the number, without leading
/// zeros, and `0` for 0.
#[verifier::external_body]
pub(crate) fn to_decimal(n: &BigUint) -> (r: String)
    ensures
        r@ == decimal_text(value(*n)),
{
    n.to_str_radix(10)
}

/// `FromStr::from_str` of `BigUint`: parses a decimal number. It accepts an optional plus sign
/// followed by digits, which underscores may separate; the first character after the sign must
/// be a digit. Any other text is an error.
#[verifier::external_body]
pub(crate) fn from_decimal(text: &str) -> (r: Result<BigUint, ParseBigIntError>)
    ensures
        match r {
            Ok(n) => decimal_value(text@) == Some(value(n)),
            Err(_) => decimal_value(text@) is None,
        },
{
    BigUint::from_str(text)
}

} // verus!
