//! How texts fall into lines, fields and words, and how numbers stand in them.

use vstd::prelude::*;

use crate::number::{
    all_digits, decimal, lemma_decimal, parse_or, parse_u32, push_decimal, push_two_digits,
    unsigned_digits,
};
use crate::reading::Real;
use crate::text::{
    chars_of, has_prefix, is_digit, is_space, last_position, law_find_is_first, law_only_concat,
    law_only_drops_others, law_only_keeps_its_class, law_rfind_is_last, lemma_run_before,
    lemma_run_of, lines, mentions, occurs_at, position, split, text_of, trim, trim_start, width,
    CharClass,
};

verus! {

/// The characters of a text, and the text of some characters, are the same.
pub proof fn law_characters_are_those_of_the_text(
    text: &str,
    chars: Vec<char>,
    slice: &[char],
    back: String,
)
    requires
        call_ensures(chars_of, (text,), chars),
        slice@ == chars@,
        call_ensures(text_of, (slice,), back),
    ensures
        back@ == text@,
{
}

/// The width of a character is its bytes in UTF-8.
pub proof fn law_width_is_in_bytes(c: char, r: usize)
    requires
        call_ensures(width, (c,), r),
    ensures
        c as u32 <= 0x7f ==> r == 1,
        0x7f < c as u32 <= 0x7ff ==> r == 2,
        0x7ff < c as u32 <= 0xffff ==> r == 3,
        0xffff < c as u32 ==> r == 4,
{
}

// ---- comparing readings ---------------------------------------------------

/// The bit patterns of numbers go up to that of infinity, once without and
/// once with the sign.
pub open spec fn writes_number(x: Real) -> bool {
    x.bits <= 0x7ff0_0000_0000_0000 || 0x8000_0000_0000_0000 <= x.bits <= 0xfff0_0000_0000_0000
}

/// Readings compare as numbers do: without signs the larger bit pattern is the
/// larger number; with signs the smaller one; one with a sign is below one
/// without, but for the two zeros, which are equal. What is no number compares
/// with nothing.
pub proof fn law_readings_compare_as_numbers(
    a: Real,
    b: Real,
    number: bool,
    reaches: bool,
    same: bool,
    positive: bool,
    zero: bool,
)
    requires
        call_ensures(Real::is_number, (a,), number),
        call_ensures(Real::reaches, (a, b), reaches),
        call_ensures(Real::same_as, (a, b), same),
        call_ensures(Real::is_positive, (a,), positive),
        call_ensures(Real::is_zero, (a,), zero),
    ensures
        number == writes_number(a),
        !writes_number(a) || !writes_number(b) ==> !reaches && !same,
        positive <==> 0 < a.bits <= 0x7ff0_0000_0000_0000,
        zero <==> a.bits == 0 || a.bits == 0x8000_0000_0000_0000,
        writes_number(a) && writes_number(b) ==> {
            let (minus_a, minus_b) = (a.bits >= 0x8000_0000_0000_0000, b.bits
                >= 0x8000_0000_0000_0000);
            let zeros = (a.bits == 0 || a.bits == 0x8000_0000_0000_0000) && (b.bits == 0 || b.bits
                == 0x8000_0000_0000_0000);
            &&& same <==> a.bits == b.bits || zeros
            &&& !minus_a && !minus_b ==> (reaches <==> a.bits >= b.bits)
            &&& minus_a && minus_b ==> (reaches <==> a.bits <= b.bits)
            &&& !minus_a && minus_b ==> reaches
            &&& minus_a && !minus_b ==> (reaches <==> zeros)
        },
{
}

// ---- lines and fields -----------------------------------------------------

/// A line feed ends a line, and a carriage return before it is no part of the
/// line.
pub proof fn law_line_feed_ends_a_line(line: Seq<char>, rest: Seq<char>)
    requires
        forall|i: int| 0 <= i < line.len() ==> #[trigger] line[i] != '\n',
    ensures
        line.len() == 0 || line.last() != '\r' ==> lines(line + seq!['\n'] + rest) == seq![line]
            + lines(rest),
        lines(line + seq!['\r', '\n'] + rest) == seq![line] + lines(rest),
{
    let plain = line + seq!['\n'] + rest;
    assert forall|i: int| 0 <= i < line.len() implies CharClass::Not('\n').holds(
        #[trigger] plain[i],
    ) by {
        assert(plain[i] == line[i]);
    }
    assert(plain[line.len() as int] == '\n');
    lemma_run_of(plain, 0, line.len() as int, CharClass::Not('\n'));
    assert(plain.take(line.len() as int) =~= line);
    assert(plain.skip(line.len() as int + 1) =~= rest);
    let returned = line + seq!['\r', '\n'] + rest;
    let end = line.len() as int + 1;
    assert forall|i: int| 0 <= i < end implies CharClass::Not('\n').holds(
        #[trigger] returned[i],
    ) by {
        if i < line.len() {
            assert(returned[i] == line[i]);
        } else {
            assert(returned[i] == '\r');
        }
    }
    assert(returned[end] == '\n');
    lemma_run_of(returned, 0, end, CharClass::Not('\n'));
    assert(returned.take(end) =~= line.push('\r'));
    assert(line.push('\r').drop_last() =~= line);
    assert(returned.skip(end + 1) =~= rest);
}

/// A text without a line feed is one line; no text is none.
pub proof fn law_last_line_needs_no_line_feed(line: Seq<char>)
    requires
        forall|i: int| 0 <= i < line.len() ==> #[trigger] line[i] != '\n',
    ensures
        line.len() > 0 ==> lines(line) == seq![line],
        line.len() == 0 ==> lines(line) == Seq::<Seq<char>>::empty(),
{
    lemma_run_of(line, 0, line.len() as int, CharClass::Not('\n'));
}

/// A separator parts a field from the others.
pub proof fn law_separator_parts_fields(field: Seq<char>, separator: char, rest: Seq<char>)
    requires
        forall|i: int| 0 <= i < field.len() ==> #[trigger] field[i] != separator,
    ensures
        split(field + seq![separator] + rest, separator) == seq![field] + split(rest, separator),
        split(field, separator) == seq![field],
{
    let s = field + seq![separator] + rest;
    let n = field.len() as int;
    assert forall|i: int| 0 <= i < n implies CharClass::Not(separator).holds(#[trigger] s[i]) by {
        assert(s[i] == field[i]);
    }
    assert(s[n] == separator);
    lemma_run_of(s, 0, n, CharClass::Not(separator));
    assert(s.take(n) =~= field);
    assert(s.skip(n + 1) =~= rest);
    lemma_run_of(field, 0, n, CharClass::Not(separator));
}

/// White space at the two ends of a text is trimmed, and nothing else.
pub proof fn law_trim_drops_white_space(before: Seq<char>, text: Seq<char>, after: Seq<char>)
    requires
        forall|i: int| 0 <= i < before.len() ==> is_space(#[trigger] before[i]),
        forall|i: int| 0 <= i < after.len() ==> is_space(#[trigger] after[i]),
        text.len() > 0,
        !is_space(text[0]),
        !is_space(text.last()),
    ensures
        trim(before + text + after) == text,
{
    let s = before + text + after;
    let n = before.len() as int;
    assert forall|i: int| 0 <= i < n implies CharClass::Space.holds(#[trigger] s[i]) by {
        assert(s[i] == before[i]);
    }
    assert(s[n] == text[0]);
    lemma_run_of(s, 0, n, CharClass::Space);
    let t = trim_start(s);
    assert(t =~= text + after);
    assert forall|i: int| text.len() <= i < t.len() implies CharClass::Space.holds(
        #[trigger] t[i],
    ) by {
        assert(t[i] == after[i - text.len()]);
    }
    assert(t[text.len() - 1] == text.last());
    lemma_run_before(t, text.len() as int, t.len() as int, CharClass::Space);
    assert(t.take(text.len() as int) =~= text);
}

/// A text that stands in another is found in it, at a place where it stands
/// and before every other; the last one after every other.
pub proof fn law_text_is_found(
    s: &[char],
    pattern: &str,
    before: Seq<char>,
    after: Seq<char>,
    found: bool,
    first: Option<usize>,
    last: Option<usize>,
    starts: bool,
)
    requires
        call_ensures(mentions, (s, pattern), found),
        call_ensures(position, (s, pattern), first),
        call_ensures(last_position, (s, pattern), last),
        call_ensures(has_prefix, (s, pattern), starts),
    ensures
        s@ == before + pattern@ + after ==> found && first is Some && last is Some && first->0
            <= before.len() <= last->0,
        found == first is Some && found == last is Some,
        first matches Some(i) ==> i + pattern@.len() <= s@.len() && s@.subrange(
            i as int,
            i + pattern@.len(),
        ) == pattern@,
        last matches Some(i) ==> i + pattern@.len() <= s@.len() && s@.subrange(
            i as int,
            i + pattern@.len(),
        ) == pattern@,
        starts <==> pattern@.len() <= s@.len() && s@.take(pattern@.len() as int) == pattern@,
{
    law_find_is_first(s@, pattern@);
    law_rfind_is_last(s@, pattern@);
    if s@ == before + pattern@ + after {
        let at = before.len() as int;
        assert(s@.subrange(at, at + pattern@.len()) =~= pattern@);
        assert(occurs_at(s@, pattern@, at));
    }
    assert(s@.subrange(0, pattern@.len() as int) =~= s@.take(pattern@.len() as int));
}

// ---- numbers --------------------------------------------------------------

/// `value` is the number of at most `max` that `text` writes, or `default`
/// where a character of it is neither a digit nor a plus sign, or where it is
/// empty.
pub open spec fn reads_as(text: Seq<char>, max: nat, default: nat, value: nat) -> bool {
    &&& forall|n: nat| text == #[trigger] decimal(n) ==> value == if n <= max {
        n
    } else {
        default
    }
    &&& (exists|i: int|
        0 <= i < text.len() && !('0' <= #[trigger] text[i] && text[i] <= '9') && text[i] != '+')
        ==> value == default
    &&& text.len() == 0 ==> value == default
}

pub proof fn lemma_reads_as(text: Seq<char>, max: nat, default: nat)
    ensures
        reads_as(text, max, default, parse_or(text, max, default)),
{
    let value = parse_or(text, max, default);
    assert forall|n: nat| text == #[trigger] decimal(n) implies value == if n <= max {
        n
    } else {
        default
    } by {
        lemma_decimal(n);
        assert(is_digit(decimal(n)[0]));
        assert(unsigned_digits(text) == text);
    }
    if exists|i: int|
        0 <= i < text.len() && !('0' <= #[trigger] text[i] && text[i] <= '9') && text[i] != '+' {
        let i = choose|i: int|
            0 <= i < text.len() && !('0' <= #[trigger] text[i] && text[i] <= '9') && text[i]
                != '+';
        let digits = unsigned_digits(text);
        let k = if digits == text {
            i
        } else {
            i - 1
        };
        if text.len() > 1 && text[0] == '+' {
            assert(text.skip(1)[i - 1] == text[i]);
            assert(!is_digit(digits[i - 1]));
        } else {
            assert(!is_digit(digits[i]));
        }
        assert(!all_digits(digits));
    }
}

/// The number of a text with other characters around its digits is the number
/// that they write; zero where it is too large or there are none.
pub proof fn law_number_among_others_is_read(
    value: &str,
    before: Seq<char>,
    n: nat,
    after: Seq<char>,
    r: u32,
)
    requires
        forall|i: int|
            0 <= i < before.len() ==> !('0' <= #[trigger] before[i] && before[i] <= '9'),
        forall|i: int| 0 <= i < after.len() ==> !('0' <= #[trigger] after[i] && after[i] <= '9'),
        call_ensures(parse_u32, (value,), r),
    ensures
        value@ == before + decimal(n) + after ==> r == if n <= u32::MAX {
            n
        } else {
            0
        },
        value@ == before ==> r == 0,
{
    lemma_decimal(n);
    assert forall|i: int| 0 <= i < decimal(n).len() implies CharClass::Digit.holds(
        #[trigger] decimal(n)[i],
    ) by {
        assert(is_digit(decimal(n)[i]));
    }
    law_only_keeps_its_class(decimal(n), CharClass::Digit);
    law_only_drops_others(before, CharClass::Digit);
    law_only_drops_others(after, CharClass::Digit);
    law_only_concat(before, decimal(n), CharClass::Digit);
    law_only_concat(before + decimal(n), after, CharClass::Digit);
    if value@ == before + decimal(n) + after {
        assert(crate::text::only(value@, CharClass::Digit) =~= decimal(n));
        lemma_reads_as(decimal(n), u32::MAX as nat, 0);
    }
}

/// A number is written with its last digit last, and the number without that
/// digit before it; below ten it is one digit.
pub proof fn law_decimal_digits(n: nat)
    ensures
        n < 10 ==> decimal(n) == seq![('0' as u32 + n) as char],
        n >= 10 ==> decimal(n) == decimal(n / 10) + seq![('0' as u32 + n % 10) as char],
{
    if n >= 10 {
        assert(decimal(n) =~= decimal(n / 10) + seq![('0' as u32 + n % 10) as char]);
    }
}

/// Numbers are appended in decimal; with two digits, a zero comes before a
/// single one.
pub proof fn law_numbers_are_appended(text: &mut String, other: &mut String, n: u64)
    requires
        call_ensures(push_decimal, (text, n), ()),
        call_ensures(push_two_digits, (other, n), ()),
    ensures
        final(text)@ == old(text)@ + decimal(n as nat),
        n >= 10 ==> final(other)@ == old(other)@ + decimal(n as nat),
        n < 10 ==> final(other)@ == old(other)@ + seq!['0', ('0' as u32 + n) as char],
{
    if n < 10 {
        assert(seq!['0'] + decimal(n as nat) =~= seq!['0', ('0' as u32 + n) as char]);
    }
}

} // verus!
