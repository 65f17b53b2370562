//! How natural numbers are written down: as big-endian bytes, as decimal text, and how many
//! bits they take.

use vstd::prelude::*;

verus! {

/// The number that a sequence of bytes denotes when the first byte is the most significant.
pub open spec fn be_value(bytes: Seq<u8>) -> nat
    decreases bytes.len(),
{
    if bytes.len() == 0 {
        0
    } else {
        be_value(bytes.drop_last()) * 256 + bytes.last() as nat
    }
}

/// The bytes of a positive number, most significant first, without leading zeros; none for 0.
pub open spec fn be_digits(n: nat) -> Seq<u8>
    decreases n,
{
    if n == 0 {
        Seq::empty()
    } else {
        be_digits(n / 256).push((n % 256) as u8)
    }
}

/// The shortest big-endian byte string that denotes `n`; the number 0 is written as one zero
/// byte.
pub open spec fn be_bytes(n: nat) -> Seq<u8> {
    if n == 0 {
        seq![0u8]
    } else {
        be_digits(n)
    }
}

/// 256 to the power of `len`: the number of byte strings of that length.
pub open spec fn byte_strings(len: nat) -> nat
    decreases len,
{
    if len == 0 {
        1
    } else {
        256 * byte_strings((len - 1) as nat)
    }
}

/// The number of binary digits of `n`: 0 for 0, and one more than for `n / 2` otherwise.
pub open spec fn bit_length(n: nat) -> nat
    decreases n,
{
    if n == 0 {
        0
    } else {
        1 + bit_length(n / 2)
    }
}

/// Law: the bytes of a number denote that number.
pub proof fn lemma_be_bytes_denote(n: nat)
    ensures
        be_value(be_bytes(n)) == n,
        be_value(be_digits(n)) == n,
    decreases n,
{
    if n == 0 {
        assert(seq![0u8].drop_last() =~= Seq::<u8>::empty());
        assert(be_value(seq![0u8]) == 0) by {
            reveal_with_fuel(be_value, 2);
        }
    } else {
        lemma_be_bytes_denote(n / 256);
        let d = be_digits(n);
        assert(d.drop_last() =~= be_digits(n / 256));
        assert(d.last() == (n % 256) as u8);
    }
}

/// Law: a number's bytes are as few as can be: they begin with a byte that is not zero, unless
/// the number is 0.
pub proof fn lemma_be_digits_lead(n: nat)
    requires
        n > 0,
    ensures
        be_digits(n).len() > 0,
        be_digits(n)[0] != 0,
    decreases n,
{
    if n / 256 > 0 {
        lemma_be_digits_lead(n / 256);
    } else {
        assert(be_digits(n / 256) =~= Seq::<u8>::empty());
    }
}

/// Law: a byte string denotes a number below the count of byte strings of its length.
pub proof fn lemma_be_value_bound(bytes: Seq<u8>)
    ensures
        be_value(bytes) < byte_strings(bytes.len()),
    decreases bytes.len(),
{
    if bytes.len() > 0 {
        lemma_be_value_bound(bytes.drop_last());
    }
}

/// Law: a positive number is at least the count of byte strings one byte shorter than its
/// own, so that of all byte strings of its length more than one in 256 denotes a smaller
/// number or the number itself.
pub proof fn lemma_be_digits_floor(n: nat)
    requires
        n > 0,
    ensures
        byte_strings((be_digits(n).len() - 1) as nat) <= n,
    decreases n,
{
    if n / 256 > 0 {
        lemma_be_digits_floor(n / 256);
    } else {
        assert(be_digits(n / 256) =~= Seq::<u8>::empty());
    }
}

/// Law: appending a byte to the bytes of a positive number adds eight binary digits.
pub proof fn lemma_bit_length_shift8(v: nat, low: nat)
    requires
        v > 0,
        low < 256,
    ensures
        bit_length(v * 256 + low) == bit_length(v) + 8,
{
    let n = v * 256 + low;
    reveal_with_fuel(bit_length, 9);
    assert(n / 2 / 2 / 2 / 2 / 2 / 2 / 2 / 2 == v);
    assert(n / 2 / 2 / 2 / 2 / 2 / 2 / 2 > 0);
}

/// Law: a byte has as many binary digits as eight less its leading zeros.
pub proof fn lemma_bit_length_of_byte(byte: u8)
    ensures
        bit_length(byte as nat) == 8 - vstd::std_specs::bits::u8_leading_zeros(byte),
{
    vstd::std_specs::bits::axiom_u8_leading_zeros(byte);
    let z = vstd::std_specs::bits::u8_leading_zeros(byte);
    reveal_with_fuel(bit_length, 9);
    if z == 8 {
    } else {
        let top = (7 - z) as u8;
        let cut = (8 - z) as u8;
        assert((byte >> top) & 1u8 != 0u8);
        assert(byte >> cut == 0u8);
        assert((top == 7 ==> byte >= 128) && (top == 6 ==> 64 <= byte < 128) && (top == 5 ==> 32
            <= byte < 64) && (top == 4 ==> 16 <= byte < 32) && (top == 3 ==> 8 <= byte < 16) && (top
            == 2 ==> 4 <= byte < 8) && (top == 1 ==> 2 <= byte < 4) && (top == 0 ==> 1 <= byte < 2))
            by (bit_vector)
            requires
                top < 8,
                cut == top + 1,
                (byte >> top) & 1u8 != 0u8,
                byte >> cut == 0u8,
        ;
    }
}

/// Law: the binary digits of a number, counted from its bytes: eight for every byte after the
/// first, and those of the first byte.
pub proof fn lemma_bit_length_of_digits(n: nat)
    requires
        n > 0,
    ensures
        bit_length(n) == 8 * (be_digits(n).len() - 1) + bit_length(be_digits(n)[0] as nat),
    decreases n,
{
    let d = be_digits(n);
    if n / 256 > 0 {
        lemma_bit_length_of_digits(n / 256);
        lemma_be_digits_lead(n / 256);
        lemma_bit_length_shift8(n / 256, n % 256);
        assert(d[0] == be_digits(n / 256)[0]);
    } else {
        assert(be_digits(n / 256) =~= Seq::<u8>::empty());
        assert(d[0] as nat == n);
    }
}

/// The character that stands for the decimal digit `d`.
pub open spec fn digit_char(d: nat) -> char {
    (d + 48) as u8 as char
}

/// Whether `c` is one of the characters `0` to `9`.
pub open spec fn is_digit(c: char) -> bool {
    48 <= c as u32 <= 57
}

/// The decimal digit that the character `c` stands for.
pub open spec fn digit_of(c: char) -> nat {
    (c as u32 - 48) as nat
}

/// The decimal text of `n`: its digits, most significant first, without leading zeros; the
/// number 0 is written `0`.
pub open spec fn decimal_text(n: nat) -> Seq<char>
    decreases n,
{
    if n < 10 {
        seq![digit_char(n)]
    } else {
        decimal_text(n / 10).push(digit_char(n % 10))
    }
}

/// The number that a string of decimal digits denotes; an underscore between or after the
/// digits separates them and stands for nothing.
pub open spec fn digits_value(s: Seq<char>) -> nat
    decreases s.len(),
{
    if s.len() == 0 {
        0
    } else if s.last() == '_' {
        digits_value(s.drop_last())
    } else {
        digits_value(s.drop_last()) * 10 + digit_of(s.last())
    }
}

/// The text without one leading plus sign. A second plus sign directly behind the first keeps
/// both in place.
pub open spec fn unsigned_part(s: Seq<char>) -> Seq<char> {
    if s.len() > 0 && s[0] == '+' && !(s.len() > 1 && s[1] == '+') {
        s.drop_first()
    } else {
        s
    }
}

/// Whether the text is made of decimal digits and underscores and starts with a digit.
pub open spec fn is_digit_string(s: Seq<char>) -> bool {
    &&& s.len() > 0
    &&& s[0] != '_'
    &&& forall|i: int| 0 <= i < s.len() ==> is_digit(#[trigger] s[i]) || s[i] == '_'
}

/// The number that a text denotes in decimal, if it denotes one: an optional plus sign, then
/// digits, which underscores may separate.
pub open spec fn decimal_value(s: Seq<char>) -> Option<nat> {
    if is_digit_string(unsigned_part(s)) {
        Some(digits_value(unsigned_part(s)))
    } else {
        None
    }
}

/// Law: the decimal text of a number is made of digits alone and denotes that number.
pub proof fn lemma_decimal_text_denotes(n: nat)
    ensures
        decimal_text(n).len() > 0,
        forall|i: int| 0 <= i < decimal_text(n).len() ==> is_digit(#[trigger] decimal_text(n)[i]),
        digits_value(decimal_text(n)) == n,
        decimal_value(decimal_text(n)) == Some(n),
    decreases n,
{
    let t = decimal_text(n);
    if n < 10 {
        assert(t.drop_last() =~= Seq::<char>::empty());
        assert(digits_value(t) == n) by {
            reveal_with_fuel(digits_value, 2);
        }
    } else {
        lemma_decimal_text_denotes(n / 10);
        assert(t.drop_last() =~= decimal_text(n / 10));
        assert(t.last() == digit_char(n % 10));
        assert(t[0] == decimal_text(n / 10)[0]);
    }
    assert(t[0] != '+');
    assert(t[0] != '_');
    assert(unsigned_part(t) == t);
}

} // verus!
