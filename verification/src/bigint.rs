//! Integers of any size, held by `num_bigint::BigInt`.

use crate::numbers::{le_value, pow256, signed_le_value};
use crate::text::{
    after_sign, all_digits, digits_value, is_decimal, is_digit, is_negative, signed_decimal,
};
use num_bigint::{BigInt, Sign};
use num_traits::ToPrimitive;
use vstd::prelude::*;

verus! {

/// `num_bigint::BigInt`, of which nothing is seen but the integer that it holds.
#[verifier::external_type_specification]
#[verifier::external_body]
pub struct ExBigInt(BigInt);

/// The mathematical integer that a `BigInt` holds.
pub uninterp spec fn big_value(b: BigInt) -> int;

/// A decimal digit or an underscore.
pub open spec fn is_digit_or_underscore(b: u8) -> bool {
    is_digit(b) || b == 0x5f
}

/// The decimal digits of `s`, in their order: `s` without what is no digit.
pub open spec fn digits_of(s: Seq<u8>) -> Seq<u8> {
    s.filter(|b: u8| is_digit(b))
}

/// The integer that `s` spells for `BigInt::parse_bytes` in base 10: an optional sign,
/// then a decimal digit, then decimal digits and underscores. The underscores do not
/// count.
pub open spec fn long_literal(s: Seq<u8>) -> Option<int> {
    let body = after_sign(s);
    if body.len() > 0 && is_digit(body[0]) && (forall|i: int|
        0 <= i < body.len() ==> is_digit_or_underscore(#[trigger] body[i])) {
        let magnitude = digits_value(digits_of(body)) as int;
        Some(
            if is_negative(s) {
                -magnitude
            } else {
                magnitude
            },
        )
    } else {
        None
    }
}

/// `BigInt::parse_bytes` in base 10: the integer that the text spells, or nothing where
/// the text is no integer literal.
#[verifier::external_body]
pub(crate) fn big_parse_bytes(buf: &[u8], radix: u32) -> (r: Option<BigInt>)
    requires
        radix == 10,
    ensures
        match r {
            Some(b) => long_literal(buf@) == Some(big_value(b)),
            None => long_literal(buf@) is None,
        },
{
    BigInt::parse_bytes(buf, radix)
}

/// `BigInt::from_bytes_le` with a positive sign: the number that the bytes spell, least
/// significant byte first.
#[verifier::external_body]
pub(crate) fn big_from_bytes_le(bytes: &[u8]) -> (r: BigInt)
    ensures
        big_value(r) == le_value(bytes@),
{
    BigInt::from_bytes_le(Sign::Plus, bytes)
}

/// Subtraction of `BigInt`: the difference of the two integers.
#[verifier::external_body]
pub(crate) fn big_sub(a: BigInt, b: BigInt) -> (r: BigInt)
    ensures
        big_value(r) == big_value(a) - big_value(b),
{
    a - b
}

/// `ToPrimitive::to_i64` of `BigInt`: the integer itself where it fits in 64 bits, and
/// nothing where it does not.
#[verifier::external_body]
pub(crate) fn big_to_i64(b: &BigInt) -> (r: Option<i64>)
    ensures
        r == (if i64::MIN <= big_value(*b) <= i64::MAX {
            Some(big_value(*b) as i64)
        } else {
            None
        }),
{
    b.to_i64()
}

/// `BigInt::clone`: the copy holds the same integer.
#[verifier::external_body]
pub(crate) fn big_clone(b: &BigInt) -> (r: BigInt)
    ensures
        big_value(r) == big_value(*b),
{
    b.clone()
}

/// `BigInt::eq`: two values compare equal exactly when they hold the same integer.
#[verifier::external_body]
pub(crate) fn big_eq(a: &BigInt, b: &BigInt) -> (r: bool)
    ensures
        r == (big_value(*a) == big_value(*b)),
{
    a.eq(b)
}

/// `BigInt::from` on a 128-bit integer: the same integer.
#[verifier::external_body]
pub(crate) fn big_from_i128(i: i128) -> (r: BigInt)
    ensures
        big_value(r) == i,
{
    BigInt::from(i)
}

/// Where `s` holds digits only, its digits are `s`.
proof fn lemma_digits_of_digits(s: Seq<u8>)
    requires
        all_digits(s),
    ensures
        digits_of(s) == s,
    decreases s.len(),
{
    reveal(Seq::filter);
    if s.len() > 0 {
        assert(is_digit(s.last()));
        assert forall|i: int| 0 <= i < s.drop_last().len() implies is_digit(
            #[trigger] s.drop_last()[i],
        ) by {
            assert(is_digit(s[i]));
        }
        lemma_digits_of_digits(s.drop_last());
        assert(s.drop_last().push(s.last()) =~= s);
    }
}

/// A sign and decimal digits spell the same integer as a literal of any size as they
/// do as a literal of 64 bits.
pub proof fn lemma_long_literal_of_decimal(s: Seq<u8>)
    requires
        signed_decimal(s) is Some,
    ensures
        long_literal(s) == signed_decimal(s),
{
    let body = after_sign(s);
    lemma_digits_of_digits(body);
    assert(is_digit(body[0]));
    assert forall|i: int| 0 <= i < body.len() implies is_digit_or_underscore(
        #[trigger] body[i],
    ) by {
        assert(is_digit(body[i]));
    }
}

/// Reads an integer of any size: an optional sign, then decimal digits. There is no
/// result where the text is anything else.
pub fn parse_decimal(s: &[u8]) -> (r: Option<BigInt>)
    ensures
        match r {
            Some(i) => signed_decimal(s@) == Some(big_value(i)),
            None => signed_decimal(s@) is None,
        },
{
    if is_decimal(s) {
        proof {
            lemma_long_literal_of_decimal(s@);
        }
        big_parse_bytes(s, 10)
    } else {
        None
    }
}

/// The bytes that spell 256 to the power `n`, least significant byte first: `n` zero
/// bytes, then a one.
pub open spec fn power_bytes(n: nat) -> Seq<u8> {
    Seq::new(n + 1, |i: int| if i == n { 1u8 } else { 0u8 })
}

/// `power_bytes(n)` spells 256 to the power `n`.
proof fn lemma_power_bytes(n: nat)
    ensures
        le_value(power_bytes(n)) == pow256(n),
    decreases n,
{
    if n == 0 {
        assert(le_value(power_bytes(0).drop_first()) == 0);
    } else {
        lemma_power_bytes((n - 1) as nat);
        assert(power_bytes(n).drop_first() =~= power_bytes((n - 1) as nat));
    }
}

/// Decodes an integer from its two's-complement bytes, least significant byte first. The
/// sign is the high bit of the last byte; no bytes spell zero.
pub fn decode_binary_long(bytes: &[u8]) -> (r: BigInt)
    ensures
        big_value(r) == signed_le_value(bytes@),
{
    let negative = bytes.len() > 0 && bytes[bytes.len() - 1] >= 0x80;
    let val = big_from_bytes_le(bytes);
    if negative {
        let mut power: Vec<u8> = Vec::new();
        let mut i: usize = 0;
        while i < bytes.len()
            invariant
                i <= bytes@.len(),
                power@.len() == i,
                forall|k: int| 0 <= k < i ==> power@[k] == 0,
            decreases bytes@.len() - i,
        {
            power.push(0);
            i += 1;
        }
        power.push(1);
        proof {
            assert(power@ =~= power_bytes(bytes@.len()));
            lemma_power_bytes(bytes@.len());
        }
        big_sub(val, big_from_bytes_le(power.as_slice()))
    } else {
        val
    }
}

} // verus!
