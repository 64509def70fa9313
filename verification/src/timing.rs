//! What a line of the server's log says of a slot.
//!
//! The whole numbers of a line are read here. Of its floating-point numbers
//! the text is found here; the caller reads the text and hands the number
//! back as a [`Real`].

use vstd::prelude::*;
use vstd::slice::slice_subrange;

use crate::number::{
    all_digits, decimal, law_decimal_reads_back, lemma_decimal, parse_or, parse_unsigned,
    read_u32_or, read_unsigned,
};
use crate::reading::{if_positive, or_nought, Real};
use crate::text::{
    all_ascii, byte_slice, chars_of, contains, digit, end_of_run, find, is_digit,
    is_digit_or_point, is_space, keep, last_position, lemma_byte_slice_ascii, lemma_run_before,
    lemma_run_end, lemma_run_of, matches_at, mentions, occurs_at, only, position, rfind, rows,
    run_end, run_start, slice_bytes, split_words, start_of_run, text_of, trim_start, utf8_width,
    without_leading, words, CharClass,
};

verus! {

/// Why a line cannot be read.
#[derive(Clone, Copy, Debug, PartialEq, Eq, Structural)]
pub enum Fault {
    /// A byte position falls inside a character or after the text.
    Boundary,
    /// A number leaves its range.
    Overflow,
}

// ---- numbers after a marker -----------------------------------------------

/// The run of `class` that starts at the first digit of `rest`, sliced by the
/// positions of its characters taken as byte positions. None where there is no
/// digit.
pub open spec fn first_run(rest: Seq<char>, class: CharClass) -> Result<Option<Seq<char>>, Fault> {
    let start = run_end(rest, 0, CharClass::NotDigit);
    if start < rest.len() {
        match byte_slice(rest, start, run_end(rest, start, class)) {
            Some(run) => Ok(Some(run)),
            None => Err(Fault::Boundary),
        }
    } else {
        Ok(None)
    }
}

/// The run of `class` after the first `marker` of a line.
pub open spec fn run_after(line: Seq<char>, marker: Seq<char>, class: CharClass) -> Result<
    Option<Seq<char>>,
    Fault,
> {
    match find(line, marker) {
        Some(at) => first_run(line.skip(at + marker.len()), class),
        None => Ok(None),
    }
}

/// The first whole number after `marker`; zero where there is none or it is
/// out of range.
pub open spec fn number_after(line: Seq<char>, marker: Seq<char>) -> Result<nat, Fault> {
    match run_after(line, marker, CharClass::Digit) {
        Ok(Some(run)) => Ok(parse_or(run, u32::MAX as nat, 0)),
        Ok(None) => Ok(0),
        Err(fault) => Err(fault),
    }
}

/// The text of the first number after `marker`: digits and decimal points,
/// from the first digit on.
pub open spec fn float_after(line: Seq<char>, marker: Seq<char>) -> Result<
    Option<Seq<char>>,
    Fault,
> {
    run_after(line, marker, CharClass::DigitOrPoint)
}

/// A digit run after a marker is read as it stands where one-byte characters
/// alone come before its end.
pub proof fn law_ascii_run_is_read(rest: Seq<char>, class: CharClass)
    requires
        all_ascii(rest.take(run_end(rest, run_end(rest, 0, CharClass::NotDigit), class))),
    ensures
        ({
            let start = run_end(rest, 0, CharClass::NotDigit);
            let end = run_end(rest, start, class);
            first_run(rest, class) == Ok::<Option<Seq<char>>, Fault>(
                if start < rest.len() {
                    Some(rest.subrange(start, end))
                } else {
                    None
                },
            )
        }),
{
    let start = run_end(rest, 0, CharClass::NotDigit);
    lemma_run_end(rest, 0, CharClass::NotDigit);
    lemma_run_end(rest, start, class);
    lemma_byte_slice_ascii(rest, start, run_end(rest, start, class));
}

/// A number after a marker is read: where one-byte characters without a digit
/// come between the two, and no digit follows the number.
pub proof fn law_number_after_marker_is_read(
    line: Seq<char>,
    marker: Seq<char>,
    filler: Seq<char>,
    n: nat,
    tail: Seq<char>,
)
    requires
        find(line, marker) is Some,
        line.skip(find(line, marker)->0 + marker.len()) == filler + decimal(n) + tail,
        all_ascii(filler),
        forall|i: int| 0 <= i < filler.len() ==> !is_digit(#[trigger] filler[i]),
        tail.len() > 0 ==> !is_digit(tail[0]),
        n <= u32::MAX,
    ensures
        number_after(line, marker) == Ok::<nat, Fault>(n),
{
    let digits = decimal(n);
    let rest = filler + digits + tail;
    let start = filler.len() as int;
    let end = start + digits.len();
    lemma_decimal(n);
    assert(all_digits(digits));
    assert forall|i: int| start <= i < end implies is_digit(#[trigger] rest[i]) by {
        assert(rest[i] == digits[i - start]);
    }
    assert forall|i: int| 0 <= i < start implies !is_digit(#[trigger] rest[i]) by {
        assert(rest[i] == filler[i]);
    }
    lemma_run_of(rest, 0, start, CharClass::NotDigit);
    lemma_run_of(rest, start, end, CharClass::Digit);
    assert forall|i: int| 0 <= i < end implies utf8_width(#[trigger] rest.take(end)[i]) == 1 by {
        if i < start {
            assert(rest[i] == filler[i]);
        } else {
            assert(is_digit(rest[i]));
        }
    }
    law_ascii_run_is_read(rest, CharClass::Digit);
    assert(rest.subrange(start, end) =~= digits);
    law_decimal_reads_back(n, u32::MAX as nat);
}

fn run_after_marker(line: &[char], marker: &str, class: CharClass) -> (r: Result<
    Option<Vec<char>>,
    Fault,
>)
    ensures
        r matches Err(fault) ==> run_after(line@, marker@, class) == Err::<
            Option<Seq<char>>,
            Fault,
        >(fault),
        r matches Ok(None) ==> run_after(line@, marker@, class) == Ok::<Option<Seq<char>>, Fault>(
            None,
        ),
        r matches Ok(Some(run)) ==> run_after(line@, marker@, class) == Ok::<
            Option<Seq<char>>,
            Fault,
        >(Some(run@)),
{
    match position(line, marker) {
        None => Ok(None),
        Some(at) => {
            let total: usize = line.len();
            let skip: usize = at + chars_of(marker).len();
            let rest = slice_subrange(line, skip, total);
            proof {
                assert(rest@ =~= line@.skip(at + marker@.len()));
            }
            let start: usize = end_of_run(rest, 0, CharClass::NotDigit);
            if start < rest.len() {
                let end: usize = end_of_run(rest, start, class);
                match slice_bytes(rest, start, end) {
                    Some(run) => Ok(Some(vstd::slice::slice_to_vec(run))),
                    None => Err(Fault::Boundary),
                }
            } else {
                Ok(None)
            }
        },
    }
}

fn read_number_after(line: &[char], marker: &str) -> (r: Result<u32, Fault>)
    ensures
        r matches Ok(n) ==> number_after(line@, marker@) == Ok::<nat, Fault>(n as nat),
        r matches Err(fault) ==> number_after(line@, marker@) == Err::<nat, Fault>(fault),
{
    match run_after_marker(line, marker, CharClass::Digit) {
        Ok(Some(run)) => Ok(read_u32_or(run.as_slice(), 0)),
        Ok(None) => Ok(0),
        Err(fault) => Err(fault),
    }
}

/// The first whole number after `marker`; zero where there is none or it is
/// out of range.
pub fn extract_number_after(line: &str, marker: &str) -> (r: u32)
    requires
        number_after(line@, marker@) is Ok,
    ensures
        number_after(line@, marker@) == Ok::<nat, Fault>(r as nat),
{
    let chars = chars_of(line);
    match read_number_after(chars.as_slice(), marker) {
        Ok(n) => n,
        Err(_) => 0,
    }
}

/// What a string holds, where there is one.
pub open spec fn text_view(text: Option<String>) -> Option<Seq<char>> {
    match text {
        Some(t) => Some(t@),
        None => None,
    }
}

fn find_float_after(line: &[char], marker: &str) -> (r: Result<Option<String>, Fault>)
    ensures
        r matches Ok(text) ==> float_after(line@, marker@) == Ok::<Option<Seq<char>>, Fault>(
            text_view(text),
        ),
        r matches Err(fault) ==> float_after(line@, marker@) == Err::<Option<Seq<char>>, Fault>(
            fault,
        ),
{
    match run_after_marker(line, marker, CharClass::DigitOrPoint) {
        Ok(Some(run)) => Ok(Some(text_of(run.as_slice()))),
        Ok(None) => Ok(None),
        Err(fault) => Err(fault),
    }
}

/// The text of the first number after `marker`.
pub fn extract_float_after(line: &str, marker: &str) -> (r: Option<String>)
    requires
        float_after(line@, marker@) is Ok,
    ensures
        float_after(line@, marker@) == Ok::<Option<Seq<char>>, Fault>(text_view(r)),
{
    let chars = chars_of(line);
    match find_float_after(chars.as_slice(), marker) {
        Ok(text) => text,
        Err(_) => None,
    }
}

// ---- slots ----------------------------------------------------------------

/// What follows the slot marker of a line: after `: id `, or, where that is
/// missing, after `id `. None where a line has neither after the word `slot`.
pub open spec fn after_slot_marker(line: Seq<char>) -> Option<Seq<char>> {
    match find(line, "slot"@) {
        None => None,
        Some(at) => {
            let rest = line.skip(at);
            match find(rest, ": id "@) {
                Some(i) => Some(rest.skip(i + 5)),
                None => match find(rest, "id "@) {
                    Some(i) => Some(rest.skip(i + 3)),
                    None => None,
                },
            }
        },
    }
}

/// The slot that a line speaks of: the number after the slot marker and white
/// space.
pub open spec fn slot_id(line: Seq<char>) -> Option<nat> {
    match after_slot_marker(line) {
        None => None,
        Some(after) => {
            let trimmed = trim_start(after);
            let digits = trimmed.take(run_end(trimmed, 0, CharClass::Digit));
            parse_unsigned(digits, usize::MAX as nat)
        },
    }
}

/// A line that numbers its slot after the slot marker is read as one of that
/// slot, where no digit follows the number.
pub proof fn law_numbered_slot_is_read(line: Seq<char>, n: nat, tail: Seq<char>)
    requires
        after_slot_marker(line) == Some(decimal(n) + tail),
        tail.len() > 0 ==> !is_digit(tail[0]),
        n <= usize::MAX,
    ensures
        slot_id(line) == Some(n),
{
    let digits = decimal(n);
    let after = digits + tail;
    lemma_decimal(n);
    assert(is_digit(digits[0]));
    assert(after[0] == digits[0]);
    assert(trim_start(after) =~= after);
    assert forall|i: int| 0 <= i < digits.len() implies is_digit(#[trigger] after[i]) by {
        assert(after[i] == digits[i]);
    }
    lemma_run_of(after, 0, digits.len() as int, CharClass::Digit);
    assert(after.take(digits.len() as int) =~= digits);
    law_decimal_reads_back(n, usize::MAX as nat);
}

pub open spec fn slot_view(slot: Option<usize>) -> Option<nat> {
    match slot {
        Some(n) => Some(n as nat),
        None => None,
    }
}

/// The slot that a line speaks of.
pub fn get_slot_id(line: &str) -> (r: Option<usize>)
    ensures
        slot_view(r) == slot_id(line@),
{
    let chars = chars_of(line);
    let at: usize = match position(chars.as_slice(), "slot") {
        None => return None,
        Some(at) => at,
    };
    let rest = slice_subrange(chars.as_slice(), at, chars.len());
    proof {
        assert(rest@ =~= line@.skip(at as int));
        reveal_strlit(": id ");
        reveal_strlit("id ");
    }
    let skip: usize = match position(rest, ": id ") {
        Some(i) => i + 5,
        None => match position(rest, "id ") {
            None => return None,
            Some(i) => i + 3,
        },
    };
    let after = slice_subrange(rest, skip, rest.len());
    proof {
        assert(after@ =~= rest@.skip(skip as int));
    }
    let trimmed = without_leading(after, CharClass::Space);
    let end: usize = end_of_run(trimmed, 0, CharClass::Digit);
    let digits = slice_subrange(trimmed, 0, end);
    proof {
        assert(digits@ =~= trimmed@.take(end as int));
    }
    match read_unsigned(digits, usize::MAX as u64) {
        Some(n) => Some(n as usize),
        None => None,
    }
}

// ---- context --------------------------------------------------------------

/// How much of its context a line says that its slot uses. The second number
/// of a result is always zero.
pub open spec fn ctx_usage(line: Seq<char>) -> Result<Option<(nat, nat)>, Fault> {
    let tokens = number_after(line, "n_tokens"@);
    let past = number_after(line, "n_past ="@);
    let last = number_after(line, "pos_max ="@);
    let counts = contains(line, "n_tokens"@) && (contains(
        line,
        "stop processing"@,
    ) || contains(line, "created context checkpoint"@));
    if counts && tokens is Err {
        Err(tokens->Err_0)
    } else if counts && tokens->Ok_0 > 0 {
        Ok(Some((tokens->Ok_0, 0)))
    } else if !contains(line, "slot update_slots"@) {
        Ok(None)
    } else if past is Err {
        Err(past->Err_0)
    } else if last is Err {
        Err(last->Err_0)
    } else if past->Ok_0 > 0 {
        Ok(Some((past->Ok_0, 0)))
    } else if last->Ok_0 == u32::MAX {
        Err(Fault::Overflow)
    } else if last->Ok_0 > 0 {
        Ok(Some((last->Ok_0 + 1, 0)))
    } else {
        Ok(None)
    }
}

pub open spec fn pair_view(pair: Option<(u32, u32)>) -> Option<(nat, nat)> {
    match pair {
        Some((a, b)) => Some((a as nat, b as nat)),
        None => None,
    }
}

/// How much of its context a line says that its slot uses, or why the line
/// cannot be read.
pub fn checked_ctx_usage(line: &str) -> (r: Result<Option<(u32, u32)>, Fault>)
    ensures
        r matches Ok(usage) ==> ctx_usage(line@) == Ok::<Option<(nat, nat)>, Fault>(
            pair_view(usage),
        ),
        r matches Err(fault) ==> ctx_usage(line@) == Err::<Option<(nat, nat)>, Fault>(fault),
{
    let chars = chars_of(line);
    let all = chars.as_slice();
    if mentions(all, "n_tokens") && (mentions(all, "stop processing") || mentions(
        all,
        "created context checkpoint",
    )) {
        match read_number_after(all, "n_tokens") {
            Err(fault) => return Err(fault),
            Ok(n) => if n > 0 {
                return Ok(Some((n, 0)));
            },
        }
    }
    if !mentions(all, "slot update_slots") {
        return Ok(None);
    }
    let past: u32 = match read_number_after(all, "n_past =") {
        Err(fault) => return Err(fault),
        Ok(n) => n,
    };
    let last: u32 = match read_number_after(all, "pos_max =") {
        Err(fault) => return Err(fault),
        Ok(n) => n,
    };
    if past > 0 {
        Ok(Some((past, 0)))
    } else if last == u32::MAX {
        Err(Fault::Overflow)
    } else if last > 0 {
        Ok(Some((last + 1, 0)))
    } else {
        Ok(None)
    }
}

/// How much of its context a line says that its slot uses.
pub fn parse_ctx_usage(line: &str) -> (r: Option<(u32, u32)>)
    requires
        ctx_usage(line@) is Ok,
    ensures
        ctx_usage(line@) == Ok::<Option<(nat, nat)>, Fault>(pair_view(r)),
{
    match checked_ctx_usage(line) {
        Ok(usage) => usage,
        Err(_) => None,
    }
}

// ---- speeds and times -----------------------------------------------------

/// The number right before `stop`: its digits and decimal points, which white
/// space may part from `stop`.
pub open spec fn number_before(line: Seq<char>, stop: int) -> Seq<char> {
    let end = run_start(line, stop, CharClass::Space);
    line.subrange(run_start(line, end, CharClass::DigitOrPoint), end)
}

/// The digits and decimal points of the last word that has a digit.
pub open spec fn last_numeral(list: Seq<Seq<char>>) -> Seq<char>
    decreases list.len(),
{
    if list.len() == 0 {
        seq![]
    } else if only(list.last(), CharClass::Digit).len() > 0 {
        only(list.last(), CharClass::DigitOrPoint)
    } else {
        last_numeral(list.drop_last())
    }
}

/// The last number between the last bracket that opens before `stop` and
/// `stop`.
pub open spec fn bracketed(line: Seq<char>, stop: int) -> Option<Seq<char>> {
    match rfind(line.take(stop), "("@) {
        Some(open) => Some(last_numeral(words(line.subrange(open + 1, stop)))),
        None => None,
    }
}

/// The bracketed number before the last `unit` of a line.
pub open spec fn last_rate(line: Seq<char>, unit: Seq<char>) -> Option<Seq<char>> {
    match rfind(line, unit) {
        Some(stop) => bracketed(line, stop),
        None => None,
    }
}

/// The position of the first `unit` from `at` on.
pub open spec fn unit_from(line: Seq<char>, at: int, unit: Seq<char>) -> Option<int> {
    match find(line.skip(at), unit) {
        Some(i) => Some(at + i),
        None => None,
    }
}

/// An `eval time` that is not the end of a `prompt eval time` stands at `i`.
pub open spec fn generation_time_at(line: Seq<char>, i: int) -> bool {
    occurs_at(line, "eval time"@, i) && !occurs_at(line, "prompt eval time"@, i - 7)
}

/// The position of the first time of generation, from `from` on.
pub open spec fn generation_time(line: Seq<char>, from: int) -> Option<int>
    decreases line.len() - from,
{
    if from >= line.len() {
        None
    } else if generation_time_at(line, from) {
        Some(from)
    } else {
        generation_time(line, from + 1)
    }
}

/// The bracketed number before the first `unit` after the time of generation.
pub open spec fn eval_rate(line: Seq<char>, unit: Seq<char>) -> Option<Seq<char>> {
    match generation_time(line, 0) {
        Some(at) => match unit_from(line, at, unit) {
            Some(stop) => bracketed(line, stop),
            None => None,
        },
        None => None,
    }
}

/// A line that times generation, not the prompt.
pub open spec fn times_generation(line: Seq<char>) -> bool {
    contains(line, "eval time"@) && !contains(line, "prompt eval time"@)
}

/// The number right before the first `tokens per second` after `head`.
pub open spec fn rate_after(line: Seq<char>, head: Seq<char>) -> Option<Seq<char>> {
    match find(line, head) {
        Some(at) => match unit_from(line, at, "tokens per second"@) {
            Some(stop) => Some(number_before(line, stop)),
            None => None,
        },
        None => None,
    }
}

/// A number is read as it stands, whatever comes before it: where white space
/// alone parts it from its unit, and no digit or decimal point precedes it.
pub proof fn law_number_before_unit_is_read(
    head: Seq<char>,
    number: Seq<char>,
    gap: Seq<char>,
    tail: Seq<char>,
)
    requires
        number.len() > 0,
        forall|i: int| 0 <= i < number.len() ==> is_digit_or_point(#[trigger] number[i]),
        forall|i: int| 0 <= i < gap.len() ==> is_space(#[trigger] gap[i]),
        head.len() > 0 ==> !is_digit_or_point(head.last()),
    ensures
        number_before(
            head + number + gap + tail,
            (head.len() + number.len() + gap.len()) as int,
        ) == number,
{
    let line = head + number + gap + tail;
    let start = head.len() as int;
    let end = start + number.len();
    let stop = end + gap.len();
    assert forall|i: int| end <= i < stop implies is_space(#[trigger] line[i]) by {
        assert(line[i] == gap[i - end]);
    }
    assert forall|i: int| start <= i < end implies is_digit_or_point(#[trigger] line[i]) by {
        assert(line[i] == number[i - start]);
    }
    assert(is_digit_or_point(line[end - 1]));
    if start > 0 {
        assert(line[start - 1] == head.last());
    }
    lemma_run_before(line, end, stop, CharClass::Space);
    lemma_run_before(line, start, end, CharClass::DigitOrPoint);
    assert(line.subrange(start, end) =~= number);
}

/// Of a bracket the last word with a digit is read, whatever numbers come
/// before it.
pub proof fn law_last_numeral_is_read(
    before: Seq<Seq<char>>,
    word: Seq<char>,
    after: Seq<Seq<char>>,
)
    requires
        only(word, CharClass::Digit).len() > 0,
        forall|i: int|
            0 <= i < after.len() ==> only(#[trigger] after[i], CharClass::Digit).len() == 0,
    ensures
        last_numeral(before.push(word) + after) == only(word, CharClass::DigitOrPoint),
    decreases after.len(),
{
    let list = before.push(word) + after;
    if after.len() == 0 {
        assert(list =~= before.push(word));
    } else {
        assert(list.last() == after[after.len() - 1]);
        assert(list.drop_last() =~= before.push(word) + after.drop_last());
        law_last_numeral_is_read(before, word, after.drop_last());
    }
}

/// The first time of generation is one, and none comes before it; where there
/// is none, the line holds none.
pub proof fn law_generation_time_is_first(line: Seq<char>, from: int)
    requires
        0 <= from,
    ensures
        match generation_time(line, from) {
            Some(at) => from <= at && generation_time_at(line, at) && forall|j: int|
                from <= j < at ==> !generation_time_at(line, j),
            None => forall|j: int| from <= j ==> !generation_time_at(line, j),
        },
    decreases line.len() - from,
{
    reveal_strlit("eval time");
    if from < line.len() && !generation_time_at(line, from) {
        law_generation_time_is_first(line, from + 1);
    }
}

fn find_number_before(line: &[char], stop: usize) -> (r: String)
    requires
        stop <= line@.len(),
    ensures
        r@ == number_before(line@, stop as int),
{
    let end: usize = start_of_run(line, stop, CharClass::Space);
    let start: usize = start_of_run(line, end, CharClass::DigitOrPoint);
    text_of(slice_subrange(line, start, end))
}

fn find_last_numeral(list: &Vec<Vec<char>>) -> (r: String)
    ensures
        r@ == last_numeral(rows(list@)),
{
    let ghost all = rows(list@);
    let mut i: usize = list.len();
    proof {
        assert(all.take(i as int) =~= all);
    }
    while i > 0
        invariant
            i <= list@.len(),
            all == rows(list@),
            last_numeral(all.take(i as int)) == last_numeral(all),
        decreases i,
    {
        i -= 1;
        proof {
            assert(all.take(i + 1).last() == list@[i as int]@);
            assert(all.take(i + 1).drop_last() =~= all.take(i as int));
        }
        if keep(list[i].as_slice(), CharClass::Digit).len() > 0 {
            let number = keep(list[i].as_slice(), CharClass::DigitOrPoint);
            return text_of(number.as_slice());
        }
    }
    String::new()
}

fn find_bracketed(line: &[char], stop: usize) -> (r: Option<String>)
    requires
        stop <= line@.len(),
    ensures
        text_view(r) == bracketed(line@, stop as int),
{
    let before = slice_subrange(line, 0, stop);
    proof {
        assert(before@ =~= line@.take(stop as int));
        reveal_strlit("(");
    }
    match last_position(before, "(") {
        Some(open) => {
            let section = split_words(slice_subrange(line, open + 1, stop));
            Some(find_last_numeral(&section))
        },
        None => None,
    }
}

fn find_last_rate(line: &[char], unit: &str) -> (r: Option<String>)
    ensures
        text_view(r) == last_rate(line@, unit@),
{
    match last_position(line, unit) {
        Some(stop) => find_bracketed(line, stop),
        None => None,
    }
}

fn find_unit_from(line: &[char], at: usize, unit: &str) -> (r: Option<usize>)
    requires
        at <= line@.len(),
    ensures
        r is Some <==> unit_from(line@, at as int, unit@) is Some,
        r matches Some(stop) ==> unit_from(line@, at as int, unit@) == Some(stop as int) && stop
            <= line@.len(),
{
    let total: usize = line.len();
    let rest = slice_subrange(line, at, total);
    proof {
        assert(rest@ =~= line@.skip(at as int));
    }
    match position(rest, unit) {
        Some(i) => Some(at + i),
        None => None,
    }
}

fn find_generation_time(line: &[char]) -> (r: Option<usize>)
    ensures
        r is Some <==> generation_time(line@, 0) is Some,
        r matches Some(at) ==> generation_time(line@, 0) == Some(at as int) && at < line@.len(),
{
    let time = chars_of("eval time");
    let prompt = chars_of("prompt eval time");
    let mut i: usize = 0;
    while i < line.len()
        invariant
            i <= line@.len(),
            time@ == "eval time"@,
            prompt@ == "prompt eval time"@,
            generation_time(line@, 0) == generation_time(line@, i as int),
        decreases line@.len() - i,
    {
        if matches_at(line, time.as_slice(), i) && !(i >= 7 && matches_at(
            line,
            prompt.as_slice(),
            i - 7,
        )) {
            return Some(i);
        }
        i += 1;
    }
    None
}

fn find_eval_rate(line: &[char], unit: &str) -> (r: Option<String>)
    ensures
        text_view(r) == eval_rate(line@, unit@),
{
    match find_generation_time(line) {
        Some(at) => match find_unit_from(line, at, unit) {
            Some(stop) => find_bracketed(line, stop),
            None => None,
        },
        None => None,
    }
}

fn find_rate_after(line: &[char], head: &str) -> (r: Option<String>)
    ensures
        text_view(r) == rate_after(line@, head@),
{
    match position(line, head) {
        Some(at) => match find_unit_from(line, at, "tokens per second") {
            Some(stop) => Some(find_number_before(line, stop)),
            None => None,
        },
        None => None,
    }
}

fn is_generation_line(line: &[char]) -> (r: bool)
    ensures
        r == times_generation(line@),
{
    mentions(line, "eval time") && !mentions(line, "prompt eval time")
}

/// The text of the prompt speed in a `prompt eval time` line.
pub fn parse_prompt_tps(line: &str) -> (r: Option<String>)
    ensures
        text_view(r) == rate_after(line@, "prompt eval time"@),
{
    let chars = chars_of(line);
    find_rate_after(chars.as_slice(), "prompt eval time")
}

/// The text of the prompt speed in a `prompt processing` line.
pub fn parse_prompt_processing_tps(line: &str) -> (r: Option<String>)
    ensures
        text_view(r) == rate_after(line@, "prompt processing"@),
{
    let chars = chars_of(line);
    find_rate_after(chars.as_slice(), "prompt processing")
}

/// The text of the time per token in a line that times generation.
pub open spec fn latency_text(line: Seq<char>) -> Option<Seq<char>> {
    if times_generation(line) {
        eval_rate(line, "ms per token"@)
    } else {
        None
    }
}

/// The text of the time per token in a line that times generation.
pub fn parse_latency(line: &str) -> (r: Option<String>)
    ensures
        text_view(r) == latency_text(line@),
{
    let chars = chars_of(line);
    if is_generation_line(chars.as_slice()) {
        find_eval_rate(chars.as_slice(), "ms per token")
    } else {
        None
    }
}

// ---- timing lines ---------------------------------------------------------

/// The numbers of a `print_timing` line. `F` is what stands for its
/// floating-point numbers: their texts, or their values.
#[derive(Debug)]
pub struct Timing<F> {
    pub progress: F,
    /// In milliseconds as a text, in seconds as a value.
    pub total_time: F,
    pub tokens_per_second: F,
    pub latency: F,
    pub eval_speed: F,
    pub draft_acceptance: F,
    pub n_decoded: u32,
}

pub open spec fn timing_view(t: Timing<Option<String>>) -> Timing<Option<Seq<char>>> {
    Timing {
        progress: text_view(t.progress),
        total_time: text_view(t.total_time),
        tokens_per_second: text_view(t.tokens_per_second),
        latency: text_view(t.latency),
        eval_speed: text_view(t.eval_speed),
        draft_acceptance: text_view(t.draft_acceptance),
        n_decoded: t.n_decoded,
    }
}

/// The number of decoded tokens in a timing line.
pub open spec fn decoded_count(line: Seq<char>) -> Result<nat, Fault> {
    if contains(line, "n_decoded"@) {
        number_after(line, "n_decoded ="@)
    } else if contains(line, "stop processing"@) {
        number_after(line, "n_tokens"@)
    } else {
        Ok(0)
    }
}

/// The numbers of a `print_timing` line, floating-point numbers as texts; none
/// of any other line.
pub open spec fn timing_texts(line: Seq<char>) -> Result<
    Option<Timing<Option<Seq<char>>>>,
    Fault,
> {
    if !contains(line, "print_timing"@) {
        Ok(None)
    } else {
        match (
            float_after(line, "progress = "@),
            float_after(line, "total time = "@),
            float_after(line, "draft acceptance = "@),
            decoded_count(line),
        ) {
            (Ok(progress), Ok(total_time), Ok(draft_acceptance), Ok(n_decoded)) => Ok(
                Some(
                    Timing {
                        progress,
                        total_time,
                        tokens_per_second: last_rate(line, "tokens per second"@),
                        latency: last_rate(line, "ms per token"@),
                        eval_speed: eval_rate(line, "tokens per second"@),
                        draft_acceptance,
                        n_decoded: n_decoded as u32,
                    },
                ),
            ),
            _ => Err(Fault::Boundary),
        }
    }
}

fn read_decoded_count(line: &[char]) -> (r: Result<u32, Fault>)
    ensures
        r matches Ok(n) ==> decoded_count(line@) == Ok::<nat, Fault>(n as nat),
        r matches Err(fault) ==> decoded_count(line@) == Err::<nat, Fault>(fault),
{
    if mentions(line, "n_decoded") {
        read_number_after(line, "n_decoded =")
    } else if mentions(line, "stop processing") {
        read_number_after(line, "n_tokens")
    } else {
        Ok(0)
    }
}

/// The numbers of a `print_timing` line, or why the line cannot be read.
pub fn checked_inference_stats(line: &str) -> (r: Result<Option<Timing<Option<String>>>, Fault>)
    ensures
        r matches Err(fault) ==> timing_texts(line@) == Err::<
            Option<Timing<Option<Seq<char>>>>,
            Fault,
        >(fault),
        r matches Ok(None) ==> timing_texts(line@) == Ok::<
            Option<Timing<Option<Seq<char>>>>,
            Fault,
        >(None),
        r matches Ok(Some(t)) ==> timing_texts(line@) == Ok::<
            Option<Timing<Option<Seq<char>>>>,
            Fault,
        >(Some(timing_view(t))),
{
    let chars = chars_of(line);
    let all = chars.as_slice();
    if !mentions(all, "print_timing") {
        return Ok(None);
    }
    match (
        find_float_after(all, "progress = "),
        find_float_after(all, "total time = "),
        find_float_after(all, "draft acceptance = "),
        read_decoded_count(all),
    ) {
        (Ok(progress), Ok(total_time), Ok(draft_acceptance), Ok(n_decoded)) => Ok(
            Some(
                Timing {
                    progress,
                    total_time,
                    tokens_per_second: find_last_rate(all, "tokens per second"),
                    latency: find_last_rate(all, "ms per token"),
                    eval_speed: find_eval_rate(all, "tokens per second"),
                    draft_acceptance,
                    n_decoded,
                },
            ),
        ),
        _ => Err(Fault::Boundary),
    }
}

/// The numbers of a `print_timing` line, floating-point numbers as texts.
pub fn parse_inference_stats(line: &str) -> (r: Option<Timing<Option<String>>>)
    requires
        timing_texts(line@) is Ok,
    ensures
        r matches None ==> timing_texts(line@) == Ok::<Option<Timing<Option<Seq<char>>>>, Fault>(
            None,
        ),
        r matches Some(t) ==> timing_texts(line@) == Ok::<
            Option<Timing<Option<Seq<char>>>>,
            Fault,
        >(Some(timing_view(t))),
{
    match checked_inference_stats(line) {
        Ok(timing) => timing,
        Err(_) => None,
    }
}

/// What is known of a slot's work.
#[derive(Clone, Copy, Debug, PartialEq, Eq, Structural)]
pub struct InferenceStats {
    pub progress: Real,
    pub time_seconds: Real,
    pub tokens_per_second: Real,
    pub n_decoded: u32,
    pub gen_speed_tps: Real,
    pub latency_ms_tok: Real,
    pub draft_acceptance: Real,
    pub n_decoded_max: u32,
    pub ctx_n_tokens: u32,
    pub ctx_used: u32,
}

/// The statistics of a timing line: a reading that is missing is zero, and the
/// generation speed is the last speed of the line where the line gives none
/// for generation.
pub open spec fn stats_of(t: Timing<Option<Real>>) -> InferenceStats {
    let tps = or_nought(t.tokens_per_second);
    let speed = or_nought(t.eval_speed);
    InferenceStats {
        progress: or_nought(t.progress),
        time_seconds: or_nought(t.total_time),
        tokens_per_second: tps,
        n_decoded: t.n_decoded,
        gen_speed_tps: if speed.positive() {
            speed
        } else {
            tps
        },
        latency_ms_tok: or_nought(t.latency),
        draft_acceptance: or_nought(t.draft_acceptance),
        n_decoded_max: 0,
        ctx_n_tokens: 0,
        ctx_used: 0,
    }
}

/// The statistics of a timing line from the values of its readings.
pub fn inference_stats(t: &Timing<Option<Real>>) -> (r: InferenceStats)
    ensures
        r == stats_of(*t),
{
    let tps = or_nought(t.tokens_per_second);
    let speed = or_nought(t.eval_speed);
    InferenceStats {
        progress: or_nought(t.progress),
        time_seconds: or_nought(t.total_time),
        tokens_per_second: tps,
        n_decoded: t.n_decoded,
        gen_speed_tps: if speed.is_positive() {
            speed
        } else {
            tps
        },
        latency_ms_tok: or_nought(t.latency),
        draft_acceptance: or_nought(t.draft_acceptance),
        n_decoded_max: 0,
        ctx_n_tokens: 0,
        ctx_used: 0,
    }
}

// ---- generation -----------------------------------------------------------

/// The text of the speed that a line that times generation gives for it.
pub open spec fn generation_rate(line: Seq<char>) -> Option<Seq<char>> {
    if times_generation(line) {
        eval_rate(line, "tokens per second"@)
    } else {
        None
    }
}

/// The generation speed of a line: what stands after `tg = `, or where that is
/// missing or zero the speed that the line gives in brackets.
pub open spec fn generation_speed(tg: Option<Real>, bracketed: Option<Real>) -> Real {
    let first = or_nought(tg);
    match bracketed {
        Some(speed) => if first.zero() {
            speed
        } else {
            first
        },
        None => first,
    }
}

/// What a line says of generation: the number of decoded tokens and the speed.
/// The number comes after `n_decoded =`; or after `n_tokens`, where a line
/// says that processing stopped; or after `ms /`, where a line times
/// generation. A number counts if it or the speed is above zero; the last one
/// only if both are.
pub open spec fn generation(line: Seq<char>, speed: Real) -> Result<Option<(nat, Real)>, Fault> {
    let by_count = contains(line, "n_decoded"@);
    let count = number_after(line, "n_decoded ="@);
    let by_stop = contains(line, "stop processing"@) && contains(
        line,
        "n_tokens"@,
    );
    let stopped = number_after(line, "n_tokens"@);
    let timed = number_after(line, "ms /"@);
    if by_count && count is Err {
        Err(count->Err_0)
    } else if by_count && (count->Ok_0 > 0 || speed.positive()) {
        Ok(Some((count->Ok_0, speed)))
    } else if by_stop && stopped is Err {
        Err(stopped->Err_0)
    } else if by_stop && (stopped->Ok_0 > 0 || speed.positive()) {
        Ok(Some((stopped->Ok_0, speed)))
    } else if times_generation(line) && timed is Err {
        Err(timed->Err_0)
    } else if times_generation(line) && timed->Ok_0 > 0 && speed.positive() {
        Ok(Some((timed->Ok_0, speed)))
    } else {
        Ok(None)
    }
}

pub open spec fn generation_view(g: Option<(u32, Real)>) -> Option<(nat, Real)> {
    match g {
        Some((n, speed)) => Some((n as nat, speed)),
        None => None,
    }
}

/// The generation speed of a line from the values of its two readings.
pub fn pick_generation_speed(tg: Option<Real>, bracketed: Option<Real>) -> (r: Real)
    ensures
        r == generation_speed(tg, bracketed),
{
    let first = or_nought(tg);
    match bracketed {
        Some(speed) => if first.is_zero() {
            speed
        } else {
            first
        },
        None => first,
    }
}

/// What a line says of generation, or why the line cannot be read.
pub fn checked_generation_stats(line: &str, gen_speed: Real) -> (r: Result<
    Option<(u32, Real)>,
    Fault,
>)
    ensures
        r matches Ok(g) ==> generation(line@, gen_speed) == Ok::<Option<(nat, Real)>, Fault>(
            generation_view(g),
        ),
        r matches Err(fault) ==> generation(line@, gen_speed) == Err::<Option<(nat, Real)>, Fault>(
            fault,
        ),
{
    let chars = chars_of(line);
    let all = chars.as_slice();
    let moving = gen_speed.is_positive();
    if mentions(all, "n_decoded") {
        match read_number_after(all, "n_decoded =") {
            Err(fault) => return Err(fault),
            Ok(n) => if n > 0 || moving {
                return Ok(Some((n, gen_speed)));
            },
        }
    }
    if mentions(all, "stop processing") && mentions(all, "n_tokens") {
        match read_number_after(all, "n_tokens") {
            Err(fault) => return Err(fault),
            Ok(n) => if n > 0 || moving {
                return Ok(Some((n, gen_speed)));
            },
        }
    }
    if is_generation_line(all) {
        match read_number_after(all, "ms /") {
            Err(fault) => return Err(fault),
            Ok(n) => if n > 0 && moving {
                return Ok(Some((n, gen_speed)));
            },
        }
    }
    Ok(None)
}

/// What a line says of generation: the number of decoded tokens and the speed.
pub fn parse_generation_stats(line: &str, gen_speed: Real) -> (r: Option<(u32, Real)>)
    requires
        generation(line@, gen_speed) is Ok,
    ensures
        generation(line@, gen_speed) == Ok::<Option<(nat, Real)>, Fault>(generation_view(r)),
{
    match checked_generation_stats(line, gen_speed) {
        Ok(g) => g,
        Err(_) => None,
    }
}

// ---- whole lines ----------------------------------------------------------

/// The floating-point numbers of a slot's log line, as texts or as values.
#[derive(Debug)]
pub struct LineFloats<F> {
    pub timing: Option<Timing<F>>,
    pub tg: F,
    pub generation: F,
    pub latency: F,
    pub prompt_eval: F,
    pub prompt_processing: F,
}

/// The texts of the floating-point numbers of a slot's log line.
pub open spec fn line_texts(line: Seq<char>) -> Result<LineFloats<Option<Seq<char>>>, Fault> {
    match (timing_texts(line), float_after(line, "tg = "@)) {
        (Ok(timing), Ok(tg)) => Ok(
            LineFloats {
                timing,
                tg,
                generation: generation_rate(line),
                latency: latency_text(line),
                prompt_eval: rate_after(line, "prompt eval time"@),
                prompt_processing: rate_after(line, "prompt processing"@),
            },
        ),
        _ => Err(Fault::Boundary),
    }
}

pub open spec fn floats_view(f: LineFloats<Option<String>>) -> LineFloats<Option<Seq<char>>> {
    LineFloats {
        timing: match f.timing {
            Some(t) => Some(timing_view(t)),
            None => None,
        },
        tg: text_view(f.tg),
        generation: text_view(f.generation),
        latency: text_view(f.latency),
        prompt_eval: text_view(f.prompt_eval),
        prompt_processing: text_view(f.prompt_processing),
    }
}

/// The texts of the floating-point numbers of a slot's log line.
pub fn scan_line(line: &str) -> (r: Result<LineFloats<Option<String>>, Fault>)
    ensures
        r matches Ok(f) ==> line_texts(line@) == Ok::<LineFloats<Option<Seq<char>>>, Fault>(
            floats_view(f),
        ),
        r matches Err(fault) ==> line_texts(line@) == Err::<LineFloats<Option<Seq<char>>>, Fault>(
            fault,
        ),
{
    let chars = chars_of(line);
    let all = chars.as_slice();
    match (checked_inference_stats(line), find_float_after(all, "tg = ")) {
        (Ok(timing), Ok(tg)) => Ok(
            LineFloats {
                timing,
                tg,
                generation: if is_generation_line(all) {
                    find_eval_rate(all, "tokens per second")
                } else {
                    None
                },
                latency: parse_latency(line),
                prompt_eval: parse_prompt_tps(line),
                prompt_processing: parse_prompt_processing_tps(line),
            },
        ),
        _ => Err(Fault::Boundary),
    }
}

/// What a log line says of its slot.
#[derive(Clone, Copy, Debug, PartialEq, Eq)]
pub struct LineReading {
    pub stats: Option<InferenceStats>,
    pub generation: Option<(u32, Real)>,
    pub latency: Option<Real>,
    pub prompt_tps: Option<Real>,
    /// The line ends a task or starts one.
    pub ends_prompt: bool,
    pub ctx_used: Option<u32>,
}

/// A line that ends a task or starts one.
pub open spec fn ends_prompt(line: Seq<char>) -> bool {
    contains(line, "stop processing"@) || contains(
        line,
        "launch_slot_"@,
    )
}

/// The prompt speed of a line: what a `prompt processing` line gives goes
/// before what a `prompt eval time` line gives, and only speeds above zero
/// count.
pub open spec fn prompt_speed(eval: Option<Real>, processing: Option<Real>) -> Option<Real> {
    if if_positive(processing) is Some {
        if_positive(processing)
    } else {
        if_positive(eval)
    }
}

/// `reading` is what `line` says, where its floating-point numbers are
/// `floats`.
pub open spec fn line_says(
    line: Seq<char>,
    floats: LineFloats<Option<Real>>,
    reading: LineReading,
) -> bool {
    let speed = generation_speed(floats.tg, floats.generation);
    &&& reading.stats == match floats.timing {
        Some(t) => Some(stats_of(t)),
        None => None,
    }
    &&& generation(line, speed) == Ok::<Option<(nat, Real)>, Fault>(
        generation_view(reading.generation),
    )
    &&& reading.latency == if_positive(floats.latency)
    &&& reading.prompt_tps == prompt_speed(floats.prompt_eval, floats.prompt_processing)
    &&& reading.ends_prompt == ends_prompt(line)
    &&& ctx_usage(line) == Ok::<Option<(nat, nat)>, Fault>(
        match reading.ctx_used {
            Some(n) => Some((n as nat, 0nat)),
            None => None,
        },
    )
}

/// What a log line says of its slot, from the values of its floating-point
/// numbers, or why the line cannot be read.
pub fn read_line(line: &str, floats: &LineFloats<Option<Real>>) -> (r: Result<LineReading, Fault>)
    ensures
        r matches Ok(reading) ==> line_says(line@, *floats, reading),
        r is Ok <==> generation(
            line@,
            generation_speed(floats.tg, floats.generation),
        ) is Ok && ctx_usage(line@) is Ok,
        r matches Err(fault) ==> fault == match generation(
            line@,
            generation_speed(floats.tg, floats.generation),
        ) {
            Err(first) => first,
            Ok(_) => ctx_usage(line@)->Err_0,
        },
{
    let stats = match &floats.timing {
        Some(t) => Some(inference_stats(t)),
        None => None,
    };
    let speed = pick_generation_speed(floats.tg, floats.generation);
    let generation = match checked_generation_stats(line, speed) {
        Ok(g) => g,
        Err(fault) => return Err(fault),
    };
    let ctx_used = match checked_ctx_usage(line) {
        Ok(Some((n, _))) => Some(n),
        Ok(None) => None,
        Err(fault) => return Err(fault),
    };
    let processing = if_positive(floats.prompt_processing);
    let prompt_tps = if processing.is_some() {
        processing
    } else {
        if_positive(floats.prompt_eval)
    };
    let chars = chars_of(line);
    let ends_prompt = mentions(chars.as_slice(), "stop processing") || mentions(
        chars.as_slice(),
        "launch_slot_",
    );
    Ok(
        LineReading {
            stats,
            generation,
            latency: if_positive(floats.latency),
            prompt_tps,
            ends_prompt,
            ctx_used,
        },
    )
}

} // verus!
