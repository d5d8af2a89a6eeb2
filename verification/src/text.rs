//! Numbers and strings written as text: the payloads of the opcodes that end in a
//! newline.

use vstd::prelude::*;
use vstd::utf8::{decode_utf8, is_scalar, valid_utf8};

verus! {

/// An ASCII decimal digit.
pub open spec fn is_digit(b: u8) -> bool {
    0x30 <= b <= 0x39
}

/// Whether `s` holds decimal digits only.
pub open spec fn all_digits(s: Seq<u8>) -> bool {
    forall|i: int| 0 <= i < s.len() ==> is_digit(#[trigger] s[i])
}

/// The number that the decimal digits `s` spell.
pub open spec fn digits_value(s: Seq<u8>) -> nat
    decreases s.len(),
{
    if s.len() == 0 {
        0
    } else {
        10 * digits_value(s.drop_last()) + (s.last() - 0x30) as nat
    }
}

/// Whether `s` starts with `-`.
pub open spec fn is_negative(s: Seq<u8>) -> bool {
    s.len() > 0 && s[0] == 0x2d
}

/// Whether `s` starts with `+`.
pub open spec fn is_positive(s: Seq<u8>) -> bool {
    s.len() > 0 && s[0] == 0x2b
}

/// `s` without its leading sign, if it has one.
pub open spec fn after_sign(s: Seq<u8>) -> Seq<u8> {
    if is_negative(s) || is_positive(s) {
        s.subrange(1, s.len() as int)
    } else {
        s
    }
}

/// The integer that `s` spells: an optional sign, then one decimal digit or more.
pub open spec fn signed_decimal(s: Seq<u8>) -> Option<int> {
    let body = after_sign(s);
    if body.len() > 0 && all_digits(body) {
        Some(
            if is_negative(s) {
                -(digits_value(body) as int)
            } else {
                digits_value(body) as int
            },
        )
    } else {
        None
    }
}

/// The integer that `s` spells, where it fits in 64 bits.
pub open spec fn i64_literal(s: Seq<u8>) -> Option<i64> {
    match signed_decimal(s) {
        Some(v) => if i64::MIN <= v <= i64::MAX {
            Some(v as i64)
        } else {
            None
        },
        None => None,
    }
}

/// The memo id that `s` spells: an optional `+`, then one decimal digit or more, the
/// whole fitting in 32 bits.
pub open spec fn u32_literal(s: Seq<u8>) -> Option<u32> {
    if is_negative(s) {
        None
    } else {
        match signed_decimal(s) {
            Some(v) => if v <= u32::MAX {
                Some(v as u32)
            } else {
                None
            },
            None => None,
        }
    }
}

/// The digits of a prefix spell no more than the digits of the whole.
pub(crate) proof fn lemma_digits_prefix(s: Seq<u8>, k: int)
    requires
        0 <= k <= s.len(),
        all_digits(s),
    ensures
        digits_value(s.subrange(0, k)) <= digits_value(s),
    decreases s.len() - k,
{
    if k == s.len() {
        assert(s.subrange(0, k) =~= s);
    } else {
        lemma_digits_prefix(s, k + 1);
        assert(s.subrange(0, k + 1).drop_last() =~= s.subrange(0, k));
    }
}

/// Reads the decimal digits of `s` from `start` on. The result is their value, where
/// there is one digit at least, nothing but digits, and the value is no more than `cap`.
fn parse_digits(s: &[u8], start: usize, cap: u64) -> (r: Option<u64>)
    requires
        start <= s@.len(),
    ensures
        r == ({
            let body = s@.subrange(start as int, s@.len() as int);
            if body.len() > 0 && all_digits(body) && digits_value(body) <= cap {
                Some(digits_value(body) as u64)
            } else {
                None
            }
        }),
{
    let ghost body = s@.subrange(start as int, s@.len() as int);
    if start == s.len() {
        return None;
    }
    let mut acc: u64 = 0;
    let mut i: usize = start;
    while i < s.len()
        invariant
            start <= i <= s@.len(),
            body == s@.subrange(start as int, s@.len() as int),
            all_digits(body.subrange(0, i - start)),
            acc == digits_value(body.subrange(0, i - start)),
            acc <= cap,
        decreases s@.len() - i,
    {
        let b: u8 = s[i];
        if b < 0x30 || b > 0x39 {
            assert(!is_digit(body[i - start]));
            return None;
        }
        let next: u128 = (acc as u128) * 10 + ((b - 0x30) as u128);
        proof {
            assert(body.subrange(0, i + 1 - start).drop_last() =~= body.subrange(0, i - start));
        }
        if next > cap as u128 {
            proof {
                if all_digits(body) {
                    lemma_digits_prefix(body, i + 1 - start);
                }
            }
            return None;
        }
        acc = next as u64;
        i += 1;
    }
    assert(body.subrange(0, i - start) =~= body);
    Some(acc)
}

/// Reads an integer that fits in 64 bits: an optional sign, then decimal digits.
pub fn parse_i64(s: &[u8]) -> (r: Option<i64>)
    ensures
        r == i64_literal(s@),
{
    if s.len() == 0 {
        return None;
    }
    if s[0] == 0x2d {
        match parse_digits(s, 1, 0x8000_0000_0000_0000) {
            Some(v) => {
                if v == 0x8000_0000_0000_0000 {
                    Some(i64::MIN)
                } else {
                    Some(-(v as i64))
                }
            },
            None => None,
        }
    } else if s[0] == 0x2b {
        match parse_digits(s, 1, 0x7fff_ffff_ffff_ffff) {
            Some(v) => Some(v as i64),
            None => None,
        }
    } else {
        assert(s@.subrange(0, s@.len() as int) =~= s@);
        match parse_digits(s, 0, 0x7fff_ffff_ffff_ffff) {
            Some(v) => Some(v as i64),
            None => None,
        }
    }
}

/// Whether `s` is an optional sign and then one decimal digit or more.
pub fn is_decimal(s: &[u8]) -> (r: bool)
    ensures
        r == (signed_decimal(s@) is Some),
{
    if s.len() == 0 {
        return false;
    }
    let start: usize = if s[0] == 0x2d || s[0] == 0x2b {
        1
    } else {
        0
    };
    let ghost body = after_sign(s@);
    assert(body =~= s@.subrange(start as int, s@.len() as int));
    if start == s.len() {
        return false;
    }
    let mut i: usize = start;
    while i < s.len()
        invariant
            start <= i <= s@.len(),
            body == after_sign(s@),
            body == s@.subrange(start as int, s@.len() as int),
            forall|k: int| 0 <= k < i - start ==> is_digit(#[trigger] body[k]),
        decreases s@.len() - i,
    {
        if s[i] < 0x30 || s[i] > 0x39 {
            assert(!is_digit(body[i - start]));
            return false;
        }
        i += 1;
    }
    true
}

/// Reads a memo id: an optional `+`, then decimal digits, the whole fitting in 32 bits.
pub fn parse_u32(s: &[u8]) -> (r: Option<u32>)
    ensures
        r == u32_literal(s@),
{
    if s.len() == 0 {
        return None;
    }
    if s[0] == 0x2d {
        None
    } else if s[0] == 0x2b {
        match parse_digits(s, 1, 0xffff_ffff) {
            Some(v) => Some(v as u32),
            None => None,
        }
    } else {
        assert(s@.subrange(0, s@.len() as int) =~= s@);
        match parse_digits(s, 0, 0xffff_ffff) {
            Some(v) => Some(v as u32),
            None => None,
        }
    }
}

/// Whether `s` stands between two double quotes or between two single quotes.
pub open spec fn is_quoted(s: Seq<u8>) -> bool {
    s.len() >= 2 && s[0] == s[s.len() - 1] && (s[0] == 0x22 || s[0] == 0x27)
}

/// What stands between the quotes of `s`.
pub open spec fn unquoted(s: Seq<u8>) -> Seq<u8> {
    s.subrange(1, s.len() - 1)
}

/// The value of a hexadecimal digit, in either case.
pub open spec fn hex_digit(b: u8) -> Option<u8> {
    if 0x30 <= b <= 0x39 {
        Some((b - 0x30) as u8)
    } else if 0x61 <= b <= 0x66 {
        Some((b - 0x61 + 10) as u8)
    } else if 0x41 <= b <= 0x46 {
        Some((b - 0x41 + 10) as u8)
    } else {
        None
    }
}

/// The byte that a backslash and the letter `b` stand for in a string literal; `\x` is
/// not among them.
pub open spec fn simple_escape(b: u8) -> Option<u8> {
    if b == 0x5c {
        Some(0x5cu8)
    } else if b == 0x61 {
        Some(0x07u8)
    } else if b == 0x62 {
        Some(0x08u8)
    } else if b == 0x74 {
        Some(0x09u8)
    } else if b == 0x6e {
        Some(0x0au8)
    } else if b == 0x76 {
        Some(0x0bu8)
    } else if b == 0x66 {
        Some(0x0cu8)
    } else if b == 0x72 {
        Some(0x0du8)
    } else {
        None
    }
}

/// The bytes that the string literal `s` stands for from position `i` on, after `acc`.
/// A backslash starts an escape: `\\ \a \b \t \n \v \f \r`, or `\x` and two
/// hexadecimal digits. Every other byte stands for itself. There is no result where a
/// backslash starts anything else.
pub open spec fn unescape(s: Seq<u8>, i: int, acc: Seq<u8>) -> Option<Seq<u8>>
    decreases s.len() - i,
{
    if !(0 <= i < s.len()) {
        Some(acc)
    } else if s[i] != 0x5c {
        unescape(s, i + 1, acc.push(s[i]))
    } else if i + 1 >= s.len() {
        None
    } else if s[i + 1] == 0x78 {
        if i + 3 < s.len() && hex_digit(s[i + 2]) is Some && hex_digit(s[i + 3]) is Some {
            unescape(
                s,
                i + 4,
                acc.push((16 * hex_digit(s[i + 2])->0 + hex_digit(s[i + 3])->0) as u8),
            )
        } else {
            None
        }
    } else {
        match simple_escape(s[i + 1]) {
            Some(b) => unescape(s, i + 2, acc.push(b)),
            None => None,
        }
    }
}

/// The number that the hexadecimal digits `s` spell, where `s` holds nothing else.
pub open spec fn hex_value(s: Seq<u8>) -> Option<nat>
    decreases s.len(),
{
    if s.len() == 0 {
        Some(0nat)
    } else {
        match (hex_value(s.drop_last()), hex_digit(s.last())) {
            (Some(h), Some(d)) => Some(16 * h + d as nat),
            _ => None,
        }
    }
}

/// Whether an escape starts at position `i` of `s`: a backslash and then `u` or `U`.
pub open spec fn escape_starts(s: Seq<u8>, i: int) -> bool {
    0 <= i && i + 1 < s.len() && s[i] == 0x5c && (s[i + 1] == 0x75 || s[i + 1] == 0x55)
}

/// The characters that the raw-unicode-escaped text `s` stands for from position `i`
/// on, after `acc`. A backslash and `u` start `\uXXXX`, a backslash and `U` start
/// `\UXXXXXXXX`, with hexadecimal digits that give a Unicode scalar value. Every other
/// byte stands for the character with its number, a backslash before anything else
/// too. There is no result where an escape has too few digits, holds what is no
/// hexadecimal digit, or gives a number that is no scalar value.
pub open spec fn unescape_unicode(s: Seq<u8>, i: int, acc: Seq<char>) -> Option<Seq<char>>
    decreases s.len() - i,
{
    if !(0 <= i < s.len()) {
        Some(acc)
    } else if escape_starts(s, i) {
        let n: int = if s[i + 1] == 0x75 {
            4
        } else {
            8
        };
        if i + 2 + n > s.len() {
            None
        } else {
            match hex_value(s.subrange(i + 2, i + 2 + n)) {
                Some(code) => if code <= u32::MAX && is_scalar(code as u32) {
                    unescape_unicode(s, i + 2 + n, acc.push(code as u32 as char))
                } else {
                    None
                },
                None => None,
            }
        }
    } else {
        unescape_unicode(s, i + 1, acc.push(s[i] as char))
    }
}

/// The bytes of the characters of `s`, each taken by its number modulo 256.
pub open spec fn latin1(s: Seq<char>) -> Seq<u8> {
    Seq::new(s.len(), |i: int| ((s[i] as u32) % 256) as u8)
}

/// `String::from_utf8` of std: the text that the bytes encode, or nothing where they
/// are no UTF-8.
#[verifier::external_body]
pub(crate) fn string_from_utf8(bytes: Vec<u8>) -> (r: Option<String>)
    ensures
        match r {
            Some(s) => valid_utf8(bytes@) && s@ == decode_utf8(bytes@),
            None => !valid_utf8(bytes@),
        },
{
    String::from_utf8(bytes).ok()
}

/// `String::push` of std: the character is added at the end.
#[verifier::external_body]
pub(crate) fn string_push(s: &mut String, c: char)
    ensures
        final(s)@ == old(s)@.push(c),
{
    s.push(c)
}

/// `char::from_u32` of std: the character with the given number, or nothing where the
/// number is no Unicode scalar value.
#[verifier::external_body]
pub(crate) fn char_from_u32(code: u32) -> (r: Option<char>)
    ensures
        r == (if is_scalar(code) {
            Some(code as char)
        } else {
            None
        }),
{
    char::from_u32(code)
}

/// The value of the hexadecimal digit `b`.
pub fn parse_hex_digit(b: u8) -> (r: Option<u8>)
    ensures
        r == hex_digit(b),
{
    if 0x30 <= b && b <= 0x39 {
        Some(b - 0x30)
    } else if 0x61 <= b && b <= 0x66 {
        Some(b - 0x61 + 10)
    } else if 0x41 <= b && b <= 0x46 {
        Some(b - 0x41 + 10)
    } else {
        None
    }
}

/// The byte that a backslash and `b` stand for.
pub fn parse_simple_escape(b: u8) -> (r: Option<u8>)
    ensures
        r == simple_escape(b),
{
    if b == 0x5c {
        Some(0x5c)
    } else if b == 0x61 {
        Some(0x07)
    } else if b == 0x62 {
        Some(0x08)
    } else if b == 0x74 {
        Some(0x09)
    } else if b == 0x6e {
        Some(0x0a)
    } else if b == 0x76 {
        Some(0x0b)
    } else if b == 0x66 {
        Some(0x0c)
    } else if b == 0x72 {
        Some(0x0d)
    } else {
        None
    }
}

/// Decodes the escapes of a string literal, without its quotes.
pub fn decode_escapes(s: &[u8]) -> (r: Option<Vec<u8>>)
    ensures
        match r {
            Some(v) => unescape(s@, 0, Seq::empty()) == Some(v@),
            None => unescape(s@, 0, Seq::empty()) is None,
        },
{
    let mut out: Vec<u8> = Vec::new();
    let mut i: usize = 0;
    while i < s.len()
        invariant
            i <= s@.len(),
            unescape(s@, i as int, out@) == unescape(s@, 0, Seq::empty()),
        decreases s@.len() - i,
    {
        let b = s[i];
        if b != 0x5c {
            out.push(b);
            i += 1;
        } else if s.len() - i < 2 {
            return None;
        } else if s[i + 1] == 0x78 {
            if s.len() - i < 4 {
                return None;
            }
            match (parse_hex_digit(s[i + 2]), parse_hex_digit(s[i + 3])) {
                (Some(h1), Some(h2)) => {
                    out.push(16 * h1 + h2);
                    i += 4;
                },
                _ => {
                    return None;
                },
            }
        } else {
            match parse_simple_escape(s[i + 1]) {
                Some(e) => {
                    out.push(e);
                    i += 2;
                },
                None => {
                    return None;
                },
            }
        }
    }
    Some(out)
}

/// Reads the hexadecimal digits of `s` between `from` and `to`.
fn parse_hex(s: &[u8], from: usize, to: usize) -> (r: Option<u32>)
    requires
        from <= to <= s@.len(),
        to - from <= 8,
    ensures
        match r {
            Some(v) => hex_value(s@.subrange(from as int, to as int)) == Some(v as nat),
            None => hex_value(s@.subrange(from as int, to as int)) is None,
        },
{
    let ghost digits = s@.subrange(from as int, to as int);
    let mut acc: u32 = 0;
    let mut i: usize = from;
    while i < to
        invariant
            from <= i <= to <= s@.len(),
            to - from <= 8,
            digits == s@.subrange(from as int, to as int),
            hex_value(digits.subrange(0, i - from)) == Some(acc as nat),
            acc < pow16((i - from) as nat),
        decreases to - i,
    {
        proof {
            assert(digits.subrange(0, i + 1 - from).drop_last() =~= digits.subrange(0, i - from));
            lemma_pow16_bound((i - from) as nat);
        }
        match parse_hex_digit(s[i]) {
            Some(d) => {
                acc = acc * 16 + d as u32;
                i += 1;
            },
            None => {
                proof {
                    lemma_hex_prefix(digits, i + 1 - from);
                }
                return None;
            },
        }
    }
    assert(digits.subrange(0, i - from) =~= digits);
    Some(acc)
}

/// 16 to the power `n`.
pub open spec fn pow16(n: nat) -> nat
    decreases n,
{
    if n == 0 {
        1
    } else {
        16 * pow16((n - 1) as nat)
    }
}

/// Eight hexadecimal digits fit in 32 bits.
proof fn lemma_pow16_bound(n: nat)
    requires
        n <= 8,
    ensures
        pow16(n) <= 0x1_0000_0000,
        n < 8 ==> 16 * pow16(n) <= 0x1_0000_0000,
{
    reveal_with_fuel(pow16, 10);
}

/// Where a prefix of `s` is no hexadecimal number, `s` is none either.
proof fn lemma_hex_prefix(s: Seq<u8>, k: int)
    requires
        0 <= k <= s.len(),
        hex_value(s.subrange(0, k)) is None,
    ensures
        hex_value(s) is None,
    decreases s.len() - k,
{
    if k == s.len() {
        assert(s.subrange(0, k) =~= s);
    } else {
        assert(s.subrange(0, k + 1).drop_last() =~= s.subrange(0, k));
        lemma_hex_prefix(s, k + 1);
    }
}

/// Decodes raw-unicode-escaped text.
pub fn decode_unicode_escapes(s: &[u8]) -> (r: Option<String>)
    ensures
        match r {
            Some(v) => unescape_unicode(s@, 0, Seq::empty()) == Some(v@),
            None => unescape_unicode(s@, 0, Seq::empty()) is None,
        },
{
    let mut out = String::new();
    let mut i: usize = 0;
    while i < s.len()
        invariant
            i <= s@.len(),
            unescape_unicode(s@, i as int, out@) == unescape_unicode(s@, 0, Seq::empty()),
        decreases s@.len() - i,
    {
        let b = s[i];
        if !(b == 0x5c && s.len() - i >= 2 && (s[i + 1] == 0x75 || s[i + 1] == 0x55)) {
            string_push(&mut out, b as char);
            i += 1;
        } else {
            let n: usize = if s[i + 1] == 0x75 {
                4
            } else {
                8
            };
            if s.len() - i - 2 < n {
                return None;
            }
            match parse_hex(s, i + 2, i + 2 + n) {
                Some(code) => match char_from_u32(code) {
                    Some(c) => {
                        string_push(&mut out, c);
                        i = i + 2 + n;
                    },
                    None => {
                        return None;
                    },
                },
                None => {
                    return None;
                },
            }
        }
    }
    Some(out)
}

/// The bytes of the characters of `s`, each taken by its number modulo 256.
pub fn to_latin1(s: &String) -> (r: Vec<u8>)
    ensures
        r@ == latin1(s@),
{
    let mut out: Vec<u8> = Vec::new();
    for c in it: s.as_str().chars()
        invariant
            out@.len() == it.index(),
            it.seq() == s@,
            forall|k: int| 0 <= k < out@.len() ==> out@[k] == ((s@[k] as u32) % 256) as u8,
    {
        let code: u32 = c as u32;
        out.push((code % 256) as u8);
    }
    out
}

/// Whether the two byte strings are equal.
pub fn bytes_equal(x: &[u8], y: &[u8]) -> (r: bool)
    ensures
        r == (x@ == y@),
{
    if x.len() != y.len() {
        return false;
    }
    let mut i: usize = 0;
    while i < x.len()
        invariant
            i <= x@.len(),
            x@.len() == y@.len(),
            forall|k: int| 0 <= k < i ==> x@[k] == y@[k],
        decreases x@.len() - i,
    {
        if x[i] != y[i] {
            return false;
        }
        i += 1;
    }
    assert(x@ =~= y@);
    true
}

} // verus!
