//! Whole numbers in decimal.

use vstd::prelude::*;

use crate::text::{chars_of, digit, is_digit, keep, only, CharClass};

verus! {

/// The number that some digits write.
pub open spec fn digits_value(s: Seq<char>) -> nat
    decreases s.len(),
{
    if s.len() == 0 {
        0
    } else {
        digits_value(s.drop_last()) * 10 + (s.last() as nat - '0' as nat) as nat
    }
}

pub open spec fn all_digits(s: Seq<char>) -> bool {
    forall|i: int| 0 <= i < s.len() ==> is_digit(#[trigger] s[i])
}

/// `s` without the plus sign at its start, where more follows.
pub open spec fn unsigned_digits(s: Seq<char>) -> Seq<char> {
    if s.len() > 1 && s[0] == '+' {
        s.skip(1)
    } else {
        s
    }
}

/// The number of at most `max` that `s` writes: digits, which one plus sign
/// may come before. None for any other text.
pub open spec fn parse_unsigned(s: Seq<char>, max: nat) -> Option<nat> {
    let digits = unsigned_digits(s);
    if digits.len() > 0 && all_digits(digits) && digits_value(digits) <= max {
        Some(digits_value(digits))
    } else {
        None
    }
}

/// The number that `s` writes, or `default` where it writes none of at most
/// `max`.
pub open spec fn parse_or(s: Seq<char>, max: nat, default: nat) -> nat {
    match parse_unsigned(s, max) {
        Some(n) => n,
        None => default,
    }
}

/// The number that the digits of a text write, whatever stands between them;
/// zero where there are none or the number is too large.
pub open spec fn digits_number(s: Seq<char>) -> nat {
    parse_or(only(s, CharClass::Digit), u32::MAX as nat, 0)
}

/// The digit that stands for `d`.
pub open spec fn digit_char(d: nat) -> char {
    ('0' as nat + d) as char
}

/// `n` in decimal, without leading zeros.
pub open spec fn decimal(n: nat) -> Seq<char>
    decreases n,
{
    if n < 10 {
        seq![digit_char(n)]
    } else {
        decimal(n / 10).push(digit_char(n % 10))
    }
}

/// `n` in decimal, with a zero before it where it has one digit.
pub open spec fn two_digits(n: nat) -> Seq<char> {
    if n < 10 {
        seq!['0'] + decimal(n)
    } else {
        decimal(n)
    }
}

proof fn lemma_value_grows(s: Seq<char>, k: int)
    requires
        0 <= k <= s.len(),
        all_digits(s),
    ensures
        digits_value(s.take(k)) <= digits_value(s),
    decreases s.len() - k,
{
    if k < s.len() {
        assert(s.take(k + 1).drop_last() =~= s.take(k));
        assert(is_digit(s[k]));
        lemma_value_grows(s, k + 1);
    } else {
        assert(s.take(k) =~= s);
    }
}

/// Reading the decimal of a number gives the number back.
pub proof fn law_decimal_reads_back(n: nat, max: nat)
    requires
        n <= max,
    ensures
        parse_unsigned(decimal(n), max) == Some(n),
{
    lemma_decimal(n);
    assert(is_digit(decimal(n)[0]));
}

/// A decimal consists of digits that write the number.
pub proof fn lemma_decimal(n: nat)
    ensures
        decimal(n).len() > 0,
        all_digits(decimal(n)),
        digits_value(decimal(n)) == n,
    decreases n,
{
    if n < 10 {
        let s = decimal(n);
        assert(s.drop_last() =~= seq![]);
        assert(digits_value(s.drop_last()) == 0);
    } else {
        lemma_decimal(n / 10);
        assert(decimal(n).drop_last() =~= decimal(n / 10));
        assert forall|i: int| 0 <= i < decimal(n).len() implies is_digit(#[trigger] decimal(n)[i]) by {
            if i < decimal(n).len() - 1 {
                assert(is_digit(decimal(n / 10)[i]));
            }
        }
    }
}

/// The number of at most `max` that `s` writes.
pub fn read_unsigned(s: &[char], max: u64) -> (r: Option<u64>)
    ensures
        r is Some <==> parse_unsigned(s@, max as nat) is Some,
        r matches Some(n) ==> parse_unsigned(s@, max as nat) == Some(n as nat) && n <= max,
{
    let start: usize = if s.len() > 1 && s[0] == '+' {
        1
    } else {
        0
    };
    let ghost digits = unsigned_digits(s@);
    proof {
        assert(digits =~= s@.skip(start as int));
    }
    if start == s.len() {
        return None;
    }
    let mut i: usize = start;
    let mut n: u64 = 0;
    proof {
        assert(digits.take(0) =~= seq![]);
    }
    while i < s.len()
        invariant
            start <= i <= s@.len(),
            digits == unsigned_digits(s@),
            digits == s@.skip(start as int),
            n == digits_value(digits.take(i - start)),
            n <= max,
            forall|k: int| 0 <= k < i - start ==> is_digit(#[trigger] digits[k]),
        decreases s@.len() - i,
    {
        let c = s[i];
        proof {
            assert(c == digits[i - start]);
        }
        if !digit(c) {
            return None;
        }
        let d: u128 = (c as u32 - '0' as u32) as u128;
        let next: u128 = n as u128 * 10 + d;
        proof {
            assert(digits.take(i - start + 1).drop_last() =~= digits.take(i - start));
            assert(next == digits_value(digits.take(i - start + 1)));
        }
        if next > max as u128 {
            proof {
                if all_digits(digits) {
                    lemma_value_grows(digits, i - start + 1);
                }
            }
            return None;
        }
        n = next as u64;
        i += 1;
    }
    proof {
        assert(digits.take(digits.len() as int) =~= digits);
    }
    Some(n)
}

/// The `u32` that `s` writes, or `default`.
pub fn read_u32_or(s: &[char], default: u32) -> (r: u32)
    ensures
        r == parse_or(s@, u32::MAX as nat, default as nat),
{
    match read_unsigned(s, u32::MAX as u64) {
        Some(n) => n as u32,
        None => default,
    }
}

/// The number that the digits of `s` write.
pub fn read_digits(s: &[char]) -> (r: u32)
    ensures
        r == digits_number(s@),
{
    let digits = keep(s, CharClass::Digit);
    read_u32_or(digits.as_slice(), 0)
}

/// The number that the digits of `value` write, whatever stands between them;
/// zero where there are none or the number is too large.
pub fn parse_u32(value: &str) -> (r: u32)
    ensures
        r == digits_number(value@),
{
    let chars = chars_of(value);
    read_digits(chars.as_slice())
}

/// The `u8` that `s` writes, or `default`.
pub fn read_u8_or(s: &[char], default: u8) -> (r: u8)
    ensures
        r == parse_or(s@, u8::MAX as nat, default as nat),
{
    match read_unsigned(s, u8::MAX as u64) {
        Some(n) => n as u8,
        None => default,
    }
}

/// Appends `n` in decimal.
pub fn push_decimal(text: &mut String, n: u64)
    ensures
        final(text)@ == old(text)@ + decimal(n as nat),
    decreases n,
{
    if n >= 10 {
        push_decimal(text, n / 10);
    }
    let c: char = ('0' as u8 + (n % 10) as u8) as char;
    text.push(c);
    proof {
        assert(text@ =~= old(text)@ + decimal(n as nat));
    }
}

/// Appends `n` in decimal, with a zero before it where it has one digit.
pub fn push_two_digits(text: &mut String, n: u64)
    ensures
        final(text)@ == old(text)@ + two_digits(n as nat),
{
    if n < 10 {
        text.push('0');
    }
    push_decimal(text, n);
    proof {
        assert(text@ =~= old(text)@ + two_digits(n as nat));
    }
}

} // verus!
