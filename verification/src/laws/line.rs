//! What a log line is read as.

use vstd::prelude::*;

use crate::number::{decimal, lemma_decimal};
use crate::text::{
    contains, find, is_digit, is_digit_or_point, is_space, law_find_is_first, law_one_word,
    law_only_drops_others, law_only_keeps_its_class, law_words_concat, lemma_find_split,
    lemma_rfind_split, lemma_run_of, lemma_unbordered, lemma_words_hold, occurs_at, only,
    unbordered, utf8_width, words, CharClass,
};
use crate::timing::{
    bracketed, eval_rate, extract_float_after, extract_number_after, float_after,
    generation_time, generation_time_at, last_rate, law_ascii_run_is_read,
    law_generation_time_is_first, law_last_numeral_is_read, law_number_after_marker_is_read,
    law_number_before_unit_is_read, number_after, parse_inference_stats, parse_latency,
    parse_prompt_processing_tps, parse_prompt_tps, rate_after, scan_line, text_view,
    timing_view, unit_from, Fault, LineFloats, Timing,
};

verus! {

// ---- shapes ---------------------------------------------------------------

/// Digits and decimal points, one at least.
pub open spec fn numeral(s: Seq<char>) -> bool {
    s.len() > 0 && forall|i: int|
        0 <= i < s.len() ==> ('0' <= #[trigger] s[i] && s[i] <= '9') || s[i] == '.'
}

/// White space alone.
pub open spec fn blank(s: Seq<char>) -> bool {
    forall|i: int| 0 <= i < s.len() ==> is_space(#[trigger] s[i])
}

/// One-byte characters alone, none of them a digit.
pub open spec fn plain_filler(s: Seq<char>) -> bool {
    forall|i: int|
        0 <= i < s.len() ==> (#[trigger] s[i]) as u32 <= 127 && !('0' <= s[i] && s[i] <= '9')
}

/// There is a string, and it holds `s`.
pub open spec fn gives(text: Option<String>, s: Seq<char>) -> bool {
    text is Some && text->0@ == s
}

/// A line with a number right before the first `unit` after the first
/// `marker`; white space may part the number from its unit.
pub open spec fn number_before_unit(
    line: Seq<char>,
    marker: Seq<char>,
    unit: Seq<char>,
    head: Seq<char>,
    middle: Seq<char>,
    number: Seq<char>,
    gap: Seq<char>,
    tail: Seq<char>,
) -> bool {
    &&& line == head + marker + middle + number + gap + unit + tail
    &&& !contains(head, marker)
    &&& !contains(marker + middle + number + gap, unit)
    &&& numeral(number)
    &&& blank(gap)
    &&& middle.len() > 0 ==> middle.last() != '.' && !('0' <= middle.last() && middle.last() <= '9')
}

/// A line with a number after the first `marker`, whose first character is a
/// digit, the first after the marker.
pub open spec fn number_after_marker(
    line: Seq<char>,
    marker: Seq<char>,
    head: Seq<char>,
    filler: Seq<char>,
    number: Seq<char>,
    tail: Seq<char>,
) -> bool {
    &&& line == head + marker + filler + number + tail
    &&& !contains(head, marker)
    &&& plain_filler(filler)
    &&& numeral(number)
    &&& '0' <= number[0] && number[0] <= '9'
    &&& tail.len() > 0 ==> tail[0] != '.' && !('0' <= tail[0] && tail[0] <= '9')
}

/// A line with the whole number `n` after the first `marker`, the first number
/// after it.
pub open spec fn count_after_marker(
    line: Seq<char>,
    marker: Seq<char>,
    head: Seq<char>,
    filler: Seq<char>,
    n: nat,
    tail: Seq<char>,
) -> bool {
    &&& line == head + marker + filler + decimal(n) + tail
    &&& !contains(head, marker)
    &&& plain_filler(filler)
    &&& tail.len() > 0 ==> !('0' <= tail[0] && tail[0] <= '9')
    &&& n <= u32::MAX
}

/// A text in which, after its last bracket, `word` is the last word with a
/// digit, and `number` its digits and decimal points.
pub open spec fn bracket_ends_with(
    s: Seq<char>,
    head: Seq<char>,
    inner: Seq<char>,
    word: Seq<char>,
    rest: Seq<char>,
    number: Seq<char>,
) -> bool {
    &&& s == head + "("@ + inner + word + rest
    &&& !contains(inner + word + rest, "("@)
    &&& inner.len() > 0 ==> is_space(inner.last())
    &&& word.len() > 0
    &&& forall|i: int| 0 <= i < word.len() ==> !is_space(#[trigger] word[i])
    &&& exists|i: int| 0 <= i < word.len() && '0' <= #[trigger] word[i] && word[i] <= '9'
    &&& rest.len() > 0 ==> is_space(rest[0])
    &&& forall|i: int| 0 <= i < rest.len() ==> !('0' <= #[trigger] rest[i] && rest[i] <= '9')
    &&& number == only(word, CharClass::DigitOrPoint)
}

// ---- lemmas ---------------------------------------------------------------

/// None of the words that a line is searched for overlaps itself.
proof fn lemma_words_unbordered()
    ensures
        unbordered("prompt eval time"@),
        unbordered("prompt processing"@),
        unbordered("tokens per second"@),
        unbordered("ms per token"@),
        unbordered("tg = "@),
        unbordered("progress = "@),
        unbordered("total time = "@),
        unbordered("draft acceptance = "@),
{
    reveal_strlit("prompt eval time");
    reveal_strlit("prompt processing");
    reveal_strlit("tokens per second");
    reveal_strlit("ms per token");
    reveal_strlit("tg = ");
    reveal_strlit("progress = ");
    reveal_strlit("total time = ");
    reveal_strlit("draft acceptance = ");
    lemma_unbordered("prompt eval time"@);
    let processing = "prompt processing"@;
    assert forall|d: int| 0 < d < processing.len() implies #[trigger] processing.skip(d)
        != processing.take(processing.len() - d) by {
        if processing.skip(d) == processing.take(processing.len() - d) {
            assert(processing.skip(d)[processing.len() - d - 1] == 'g');
            assert(processing[processing.len() - d - 1] == 'g');
        }
    }
    lemma_unbordered("tokens per second"@);
    lemma_unbordered("ms per token"@);
    lemma_unbordered("tg = "@);
    lemma_unbordered("progress = "@);
    lemma_unbordered("total time = "@);
    lemma_unbordered("draft acceptance = "@);
}

/// The same of the words that counts follow.
pub proof fn lemma_counters_unbordered()
    ensures
        unbordered("n_decoded ="@),
        unbordered("n_tokens"@),
        unbordered("n_past ="@),
        unbordered("pos_max ="@),
        unbordered("ms /"@),
        unbordered("slot"@),
        unbordered(": id "@),
        unbordered("id "@),
        unbordered("("@),
{
    reveal_strlit("n_decoded =");
    reveal_strlit("n_tokens");
    reveal_strlit("n_past =");
    reveal_strlit("pos_max =");
    reveal_strlit("ms /");
    reveal_strlit("slot");
    reveal_strlit(": id ");
    reveal_strlit("id ");
    reveal_strlit("(");
    lemma_unbordered("n_decoded ="@);
    lemma_unbordered("n_tokens"@);
    lemma_unbordered("n_past ="@);
    lemma_unbordered("pos_max ="@);
    lemma_unbordered("ms /"@);
    lemma_unbordered("slot"@);
    lemma_unbordered(": id "@);
    lemma_unbordered("id "@);
    lemma_unbordered("("@);
}

/// The first digit of a run, and what it holds, where the marker is known.
proof fn lemma_float_after(
    line: Seq<char>,
    marker: Seq<char>,
    head: Seq<char>,
    filler: Seq<char>,
    number: Seq<char>,
    tail: Seq<char>,
)
    requires
        marker.len() > 0,
        unbordered(marker),
        number_after_marker(line, marker, head, filler, number, tail),
    ensures
        float_after(line, marker) == Ok::<Option<Seq<char>>, Fault>(Some(number)),
{
    let rest = filler + number + tail;
    assert(line =~= head + marker + rest);
    lemma_find_split(head, marker, rest);
    let start = filler.len() as int;
    let end = start + number.len();
    assert forall|i: int| 0 <= i < start implies CharClass::NotDigit.holds(#[trigger] rest[i]) by {
        assert(rest[i] == filler[i]);
    }
    assert forall|i: int| start <= i < end implies CharClass::DigitOrPoint.holds(
        #[trigger] rest[i],
    ) by {
        assert(rest[i] == number[i - start]);
    }
    assert(rest[start] == number[0]);
    lemma_run_of(rest, 0, start, CharClass::NotDigit);
    if end < rest.len() {
        assert(rest[end] == tail[0]);
    }
    lemma_run_of(rest, start, end, CharClass::DigitOrPoint);
    assert forall|i: int| 0 <= i < end implies utf8_width(#[trigger] rest.take(end)[i]) == 1 by {
        if i < start {
            assert(rest[i] == filler[i]);
        } else {
            assert(CharClass::DigitOrPoint.holds(rest[i]));
        }
    }
    law_ascii_run_is_read(rest, CharClass::DigitOrPoint);
    assert(rest.subrange(start, end) =~= number);
}

/// A whole number after a marker.
pub proof fn lemma_count_after(
    line: Seq<char>,
    marker: Seq<char>,
    head: Seq<char>,
    filler: Seq<char>,
    n: nat,
    tail: Seq<char>,
)
    requires
        marker.len() > 0,
        unbordered(marker),
        count_after_marker(line, marker, head, filler, n, tail),
    ensures
        number_after(line, marker) == Ok::<nat, Fault>(n),
{
    let rest = filler + decimal(n) + tail;
    assert(line =~= head + marker + rest);
    lemma_find_split(head, marker, rest);
    law_number_after_marker_is_read(line, marker, filler, n, tail);
}

/// A number right before a unit.
proof fn lemma_rate_after(
    line: Seq<char>,
    marker: Seq<char>,
    head: Seq<char>,
    middle: Seq<char>,
    number: Seq<char>,
    gap: Seq<char>,
    tail: Seq<char>,
)
    requires
        marker.len() > 0,
        unbordered(marker),
        !is_digit_or_point(marker.last()),
        number_before_unit(
            line,
            marker,
            "tokens per second"@,
            head,
            middle,
            number,
            gap,
            tail,
        ),
    ensures
        rate_after(line, marker) == Some(number),
{
    let unit = "tokens per second"@;
    lemma_words_unbordered();
    reveal_strlit("tokens per second");
    let rest = middle + number + gap + unit + tail;
    assert(line =~= head + marker + rest);
    lemma_find_split(head, marker, rest);
    let inner = marker + middle + number + gap;
    assert(marker + rest =~= inner + unit + tail);
    lemma_find_split(inner, unit, tail);
    let before = head + marker + middle;
    assert(line =~= before + number + gap + (unit + tail));
    assert(before.last() == if middle.len() > 0 {
        middle.last()
    } else {
        marker.last()
    });
    law_number_before_unit_is_read(before, number, gap, unit + tail);
}

/// The last number of a bracket.
proof fn lemma_bracketed(
    line: Seq<char>,
    stop: int,
    head: Seq<char>,
    inner: Seq<char>,
    word: Seq<char>,
    rest: Seq<char>,
    number: Seq<char>,
)
    requires
        0 <= stop <= line.len(),
        bracket_ends_with(line.take(stop), head, inner, word, rest, number),
    ensures
        bracketed(line, stop) == Some(number),
{
    lemma_counters_unbordered();
    reveal_strlit("(");
    let section = inner + word + rest;
    assert(line.take(stop) =~= head + "("@ + section);
    lemma_rfind_split(head, "("@, section);
    assert(line.subrange(head.len() as int + 1, stop) =~= section) by {
        assert(line.take(stop).skip(head.len() as int + 1) =~= section);
    }
    assert(section =~= inner + (word + rest));
    law_words_concat(inner, word + rest);
    law_words_concat(word, rest);
    law_one_word(word);
    assert(words(section) =~= words(inner).push(word) + words(rest));
    let i = choose|i: int| 0 <= i < word.len() && '0' <= #[trigger] word[i] && word[i] <= '9';
    lemma_only_some(word, CharClass::Digit, i);
    assert forall|i: int| 0 <= i < rest.len() implies CharClass::NotDigit.holds(
        #[trigger] rest[i],
    ) by {}
    lemma_words_hold(rest, CharClass::NotDigit);
    assert forall|k: int| 0 <= k < words(rest).len() implies only(
        #[trigger] words(rest)[k],
        CharClass::Digit,
    ).len() == 0 by {
        assert forall|i: int| 0 <= i < words(rest)[k].len() implies !CharClass::Digit.holds(
            #[trigger] words(rest)[k][i],
        ) by {
            assert(CharClass::NotDigit.holds(words(rest)[k][i]));
        }
        law_only_drops_others(words(rest)[k], CharClass::Digit);
    }
    law_last_numeral_is_read(words(inner), word, words(rest));
}

/// A number of digits and decimal points is its own.
pub proof fn law_numeral_is_its_own(number: Seq<char>)
    requires
        numeral(number),
    ensures
        only(number, CharClass::DigitOrPoint) == number,
{
    assert forall|i: int| 0 <= i < number.len() implies CharClass::DigitOrPoint.holds(
        #[trigger] number[i],
    ) by {}
    law_only_keeps_its_class(number, CharClass::DigitOrPoint);
}

/// A text with a character of a class keeps some.
proof fn lemma_only_some(s: Seq<char>, class: CharClass, i: int)
    requires
        0 <= i < s.len(),
        class.holds(s[i]),
    ensures
        only(s, class).len() > 0,
    decreases s.len(),
{
    if i < s.len() - 1 {
        lemma_only_some(s.drop_last(), class, i);
    }
}

// ---- prompt speed ---------------------------------------------------------

/// The prompt speed of a `prompt eval time` line is the number right before
/// the first `tokens per second` after these words.
pub proof fn law_prompt_eval_speed_is_scanned(
    line: &str,
    head: Seq<char>,
    middle: Seq<char>,
    number: Seq<char>,
    gap: Seq<char>,
    tail: Seq<char>,
    floats: LineFloats<Option<String>>,
    parsed: Option<String>,
)
    requires
        number_before_unit(
            line@,
            "prompt eval time"@,
            "tokens per second"@,
            head,
            middle,
            number,
            gap,
            tail,
        ),
        call_ensures(scan_line, (line,), Ok::<LineFloats<Option<String>>, Fault>(floats)),
        call_ensures(parse_prompt_tps, (line,), parsed),
    ensures
        gives(floats.prompt_eval, number),
        gives(parsed, number),
{
    lemma_words_unbordered();
    reveal_strlit("prompt eval time");
    lemma_rate_after(line@, "prompt eval time"@, head, middle, number, gap, tail);
}

/// The prompt speed of a `prompt processing` line is the number right before
/// the first `tokens per second` after these words.
pub proof fn law_prompt_processing_speed_is_scanned(
    line: &str,
    head: Seq<char>,
    middle: Seq<char>,
    number: Seq<char>,
    gap: Seq<char>,
    tail: Seq<char>,
    floats: LineFloats<Option<String>>,
    parsed: Option<String>,
)
    requires
        number_before_unit(
            line@,
            "prompt processing"@,
            "tokens per second"@,
            head,
            middle,
            number,
            gap,
            tail,
        ),
        call_ensures(scan_line, (line,), Ok::<LineFloats<Option<String>>, Fault>(floats)),
        call_ensures(parse_prompt_processing_tps, (line,), parsed),
    ensures
        gives(floats.prompt_processing, number),
        gives(parsed, number),
{
    lemma_words_unbordered();
    reveal_strlit("prompt processing");
    lemma_rate_after(line@, "prompt processing"@, head, middle, number, gap, tail);
}

/// A line that does not time the prompt, or gives no speed, has no prompt
/// speed.
pub proof fn law_other_lines_have_no_prompt_speed(
    line: &str,
    floats: LineFloats<Option<String>>,
    eval: Option<String>,
    processing: Option<String>,
)
    requires
        call_ensures(scan_line, (line,), Ok::<LineFloats<Option<String>>, Fault>(floats)),
        call_ensures(parse_prompt_tps, (line,), eval),
        call_ensures(parse_prompt_processing_tps, (line,), processing),
    ensures
        !contains(line@, "prompt eval time"@) || !contains(line@, "tokens per second"@)
            ==> floats.prompt_eval is None && eval is None,
        !contains(line@, "prompt processing"@) || !contains(line@, "tokens per second"@)
            ==> floats.prompt_processing is None && processing is None,
{
    lemma_no_rate(line@, "prompt eval time"@);
    lemma_no_rate(line@, "prompt processing"@);
}

proof fn lemma_no_rate(line: Seq<char>, marker: Seq<char>)
    ensures
        !contains(line, marker) || !contains(line, "tokens per second"@) ==> rate_after(
            line,
            marker,
        ) is None,
{
    law_find_is_first(line, marker);
    if let Some(at) = find(line, marker) {
        lemma_no_unit(line, at, "tokens per second"@);
    }
}

/// A line without a unit has none from any place on.
proof fn lemma_no_unit(line: Seq<char>, at: int, unit: Seq<char>)
    requires
        0 <= at <= line.len(),
    ensures
        !contains(line, unit) ==> unit_from(line, at, unit) is None,
{
    let rest = line.skip(at);
    law_find_is_first(rest, unit);
    if contains(rest, unit) {
        let i = choose|i: int| occurs_at(rest, unit, i);
        assert(line.subrange(at + i, at + i + unit.len()) =~= rest.subrange(i, i + unit.len()));
        assert(occurs_at(line, unit, at + i));
    }
}

// ---- numbers after words --------------------------------------------------

/// The first number after a word is read.
pub proof fn law_number_after_word_is_read(
    line: &str,
    marker: &str,
    head: Seq<char>,
    filler: Seq<char>,
    number: Seq<char>,
    tail: Seq<char>,
    r: Option<String>,
)
    requires
        marker@.len() > 0,
        unbordered(marker@),
        number_after_marker(line@, marker@, head, filler, number, tail),
        call_ensures(extract_float_after, (line, marker), r),
    ensures
        gives(r, number),
{
    lemma_float_after(line@, marker@, head, filler, number, tail);
}

/// The first whole number after a word is read.
pub proof fn law_count_after_word_is_read(
    line: &str,
    marker: &str,
    head: Seq<char>,
    filler: Seq<char>,
    n: nat,
    tail: Seq<char>,
    r: u32,
)
    requires
        marker@.len() > 0,
        unbordered(marker@),
        count_after_marker(line@, marker@, head, filler, n, tail),
        call_ensures(extract_number_after, (line, marker), r),
    ensures
        r == n,
{
    lemma_count_after(line@, marker@, head, filler, n, tail);
}

/// Without the word there is no number.
pub proof fn law_no_word_no_number(line: &str, marker: &str, n: u32, text: Option<String>)
    requires
        !contains(line@, marker@),
        call_ensures(extract_number_after, (line, marker), n),
        call_ensures(extract_float_after, (line, marker), text),
    ensures
        n == 0,
        text is None,
{
    law_find_is_first(line@, marker@);
}

/// The generation speed after `tg = ` is the number that follows.
pub proof fn law_tg_is_scanned(
    line: &str,
    head: Seq<char>,
    filler: Seq<char>,
    number: Seq<char>,
    tail: Seq<char>,
    floats: LineFloats<Option<String>>,
)
    requires
        number_after_marker(line@, "tg = "@, head, filler, number, tail),
        call_ensures(scan_line, (line,), Ok::<LineFloats<Option<String>>, Fault>(floats)),
    ensures
        gives(floats.tg, number),
{
    lemma_words_unbordered();
    reveal_strlit("tg = ");
    lemma_float_after(line@, "tg = "@, head, filler, number, tail);
}

/// The progress of a timing line is the number after `progress = `.
pub proof fn law_progress_is_scanned(
    line: &str,
    head: Seq<char>,
    filler: Seq<char>,
    number: Seq<char>,
    tail: Seq<char>,
    floats: LineFloats<Option<String>>,
)
    requires
        contains(line@, "print_timing"@),
        number_after_marker(line@, "progress = "@, head, filler, number, tail),
        call_ensures(scan_line, (line,), Ok::<LineFloats<Option<String>>, Fault>(floats)),
    ensures
        floats.timing is Some,
        gives(floats.timing->0.progress, number),
{
    lemma_words_unbordered();
    reveal_strlit("progress = ");
    lemma_float_after(line@, "progress = "@, head, filler, number, tail);
}

/// The time of a timing line is the number after `total time = `.
pub proof fn law_total_time_is_scanned(
    line: &str,
    head: Seq<char>,
    filler: Seq<char>,
    number: Seq<char>,
    tail: Seq<char>,
    floats: LineFloats<Option<String>>,
)
    requires
        contains(line@, "print_timing"@),
        number_after_marker(line@, "total time = "@, head, filler, number, tail),
        call_ensures(scan_line, (line,), Ok::<LineFloats<Option<String>>, Fault>(floats)),
    ensures
        floats.timing is Some,
        gives(floats.timing->0.total_time, number),
{
    lemma_words_unbordered();
    reveal_strlit("total time = ");
    lemma_float_after(line@, "total time = "@, head, filler, number, tail);
}

/// The draft acceptance of a timing line is the number after
/// `draft acceptance = `.
pub proof fn law_draft_acceptance_is_scanned(
    line: &str,
    head: Seq<char>,
    filler: Seq<char>,
    number: Seq<char>,
    tail: Seq<char>,
    floats: LineFloats<Option<String>>,
)
    requires
        contains(line@, "print_timing"@),
        number_after_marker(line@, "draft acceptance = "@, head, filler, number, tail),
        call_ensures(scan_line, (line,), Ok::<LineFloats<Option<String>>, Fault>(floats)),
    ensures
        floats.timing is Some,
        gives(floats.timing->0.draft_acceptance, number),
{
    lemma_words_unbordered();
    reveal_strlit("draft acceptance = ");
    lemma_float_after(line@, "draft acceptance = "@, head, filler, number, tail);
}

/// What a line does not name, it gives no number of; a line that is no timing
/// line has no timing.
pub proof fn law_unnamed_numbers_are_missing(line: &str, floats: LineFloats<Option<String>>)
    requires
        call_ensures(scan_line, (line,), Ok::<LineFloats<Option<String>>, Fault>(floats)),
    ensures
        floats.timing is Some <==> contains(line@, "print_timing"@),
        !contains(line@, "tg = "@) ==> floats.tg is None,
        floats.timing matches Some(timing) ==> {
            &&& !contains(line@, "progress = "@) ==> timing.progress is None
            &&& !contains(line@, "total time = "@) ==> timing.total_time is None
            &&& !contains(line@, "draft acceptance = "@) ==> timing.draft_acceptance is None
            &&& !contains(line@, "tokens per second"@) ==> timing.tokens_per_second is None
                && timing.eval_speed is None
            &&& !contains(line@, "ms per token"@) ==> timing.latency is None
            &&& !contains(line@, "eval time"@) ==> timing.eval_speed is None
        },
        !contains(line@, "tokens per second"@) ==> floats.generation is None,
        !contains(line@, "ms per token"@) ==> floats.latency is None,
        !contains(line@, "eval time"@) || contains(line@, "prompt eval time"@)
            ==> floats.generation is None && floats.latency is None,
{
    law_find_is_first(line@, "tg = "@);
    law_find_is_first(line@, "progress = "@);
    law_find_is_first(line@, "total time = "@);
    law_find_is_first(line@, "draft acceptance = "@);
    crate::text::law_rfind_is_last(line@, "tokens per second"@);
    crate::text::law_rfind_is_last(line@, "ms per token"@);
    law_generation_time_is_first(line@, 0);
    if let Some(at) = generation_time(line@, 0) {
        assert(occurs_at(line@, "eval time"@, at));
        lemma_no_unit(line@, at, "tokens per second"@);
        lemma_no_unit(line@, at, "ms per token"@);
    }
}

// ---- bracketed numbers ----------------------------------------------------

/// The speed of a timing line is the number in the bracket before its last
/// `tokens per second`.
pub proof fn law_last_speed_is_scanned(
    line: &str,
    head: Seq<char>,
    inner: Seq<char>,
    word: Seq<char>,
    rest: Seq<char>,
    number: Seq<char>,
    tail: Seq<char>,
    floats: LineFloats<Option<String>>,
)
    requires
        contains(line@, "print_timing"@),
        line@ == head + "("@ + inner + word + rest + "tokens per second"@ + tail,
        bracket_ends_with(head + "("@ + inner + word + rest, head, inner, word, rest, number),
        !contains(tail, "tokens per second"@),
        call_ensures(scan_line, (line,), Ok::<LineFloats<Option<String>>, Fault>(floats)),
    ensures
        floats.timing is Some,
        gives(floats.timing->0.tokens_per_second, number),
{
    lemma_words_unbordered();
    reveal_strlit("tokens per second");
    lemma_last_rate(line@, "tokens per second"@, head, inner, word, rest, number, tail);
}

/// The latency of a timing line is the number in the bracket before its last
/// `ms per token`.
pub proof fn law_last_latency_is_scanned(
    line: &str,
    head: Seq<char>,
    inner: Seq<char>,
    word: Seq<char>,
    rest: Seq<char>,
    number: Seq<char>,
    tail: Seq<char>,
    floats: LineFloats<Option<String>>,
)
    requires
        contains(line@, "print_timing"@),
        line@ == head + "("@ + inner + word + rest + "ms per token"@ + tail,
        bracket_ends_with(head + "("@ + inner + word + rest, head, inner, word, rest, number),
        !contains(tail, "ms per token"@),
        call_ensures(scan_line, (line,), Ok::<LineFloats<Option<String>>, Fault>(floats)),
    ensures
        floats.timing is Some,
        gives(floats.timing->0.latency, number),
{
    lemma_words_unbordered();
    reveal_strlit("ms per token");
    lemma_last_rate(line@, "ms per token"@, head, inner, word, rest, number, tail);
}

proof fn lemma_last_rate(
    line: Seq<char>,
    unit: Seq<char>,
    head: Seq<char>,
    inner: Seq<char>,
    word: Seq<char>,
    rest: Seq<char>,
    number: Seq<char>,
    tail: Seq<char>,
)
    requires
        unit.len() > 0,
        unbordered(unit),
        line == head + "("@ + inner + word + rest + unit + tail,
        bracket_ends_with(head + "("@ + inner + word + rest, head, inner, word, rest, number),
        !contains(tail, unit),
    ensures
        last_rate(line, unit) == Some(number),
{
    let before = head + "("@ + inner + word + rest;
    lemma_rfind_split(before, unit, tail);
    assert(line.take(before.len() as int) =~= before);
    lemma_bracketed(line, before.len() as int, head, inner, word, rest, number);
}

/// A line in which the first time of generation, not of the prompt, stands at
/// `head`, and `number` in the bracket before the first `unit` after it.
pub open spec fn generation_gives(
    line: Seq<char>,
    unit: Seq<char>,
    head: Seq<char>,
    middle: Seq<char>,
    inner: Seq<char>,
    word: Seq<char>,
    rest: Seq<char>,
    number: Seq<char>,
    tail: Seq<char>,
) -> bool {
    let timed = "eval time"@ + middle + "("@ + inner + word + rest;
    &&& line == head + timed + unit + tail
    &&& forall|i: int|
        0 <= i < head.len() && #[trigger] occurs_at(line, "eval time"@, i) ==> occurs_at(
            line,
            "prompt eval time"@,
            i - 7,
        )
    &&& !occurs_at(line, "prompt eval time"@, head.len() - 7)
    &&& !contains(timed, unit)
    &&& bracket_ends_with(head + timed, head + "eval time"@ + middle, inner, word, rest, number)
}

proof fn lemma_eval_rate(
    line: Seq<char>,
    unit: Seq<char>,
    head: Seq<char>,
    middle: Seq<char>,
    inner: Seq<char>,
    word: Seq<char>,
    rest: Seq<char>,
    number: Seq<char>,
    tail: Seq<char>,
)
    requires
        unit.len() > 0,
        unbordered(unit),
        generation_gives(line, unit, head, middle, inner, word, rest, number, tail),
    ensures
        eval_rate(line, unit) == Some(number),
{
    let timed = "eval time"@ + middle + "("@ + inner + word + rest;
    let at = head.len() as int;
    reveal_strlit("eval time");
    law_generation_time_is_first(line, 0);
    assert(line.subrange(at, at + 9) =~= "eval time"@);
    assert(occurs_at(line, "eval time"@, at));
    assert(generation_time_at(line, at));
    assert forall|j: int| 0 <= j < at implies !generation_time_at(line, j) by {}
    assert(generation_time(line, 0) == Some(at));
    assert(line.skip(at) =~= timed + unit + tail);
    lemma_find_split(timed, unit, tail);
    let stop = at + timed.len();
    assert(line.take(stop) =~= head + timed);
    lemma_bracketed(line, stop, head + "eval time"@ + middle, inner, word, rest, number);
}

/// The generation speed of a timing line is the number in the bracket before
/// the first `tokens per second` after the time of generation, also where the
/// line times the prompt first.
pub proof fn law_eval_speed_is_scanned(
    line: &str,
    head: Seq<char>,
    middle: Seq<char>,
    inner: Seq<char>,
    word: Seq<char>,
    rest: Seq<char>,
    number: Seq<char>,
    tail: Seq<char>,
    floats: LineFloats<Option<String>>,
)
    requires
        contains(line@, "print_timing"@),
        generation_gives(line@, "tokens per second"@, head, middle, inner, word, rest, number, tail),
        call_ensures(scan_line, (line,), Ok::<LineFloats<Option<String>>, Fault>(floats)),
    ensures
        floats.timing is Some,
        gives(floats.timing->0.eval_speed, number),
{
    lemma_words_unbordered();
    reveal_strlit("tokens per second");
    lemma_eval_rate(line@, "tokens per second"@, head, middle, inner, word, rest, number, tail);
}

/// The generation speed of a line that times generation alone is the number in
/// the bracket before the first `tokens per second` after that time.
pub proof fn law_generation_speed_is_scanned(
    line: &str,
    head: Seq<char>,
    middle: Seq<char>,
    inner: Seq<char>,
    word: Seq<char>,
    rest: Seq<char>,
    number: Seq<char>,
    tail: Seq<char>,
    floats: LineFloats<Option<String>>,
)
    requires
        !contains(line@, "prompt eval time"@),
        generation_gives(line@, "tokens per second"@, head, middle, inner, word, rest, number, tail),
        call_ensures(scan_line, (line,), Ok::<LineFloats<Option<String>>, Fault>(floats)),
    ensures
        gives(floats.generation, number),
{
    lemma_words_unbordered();
    reveal_strlit("tokens per second");
    lemma_eval_rate(line@, "tokens per second"@, head, middle, inner, word, rest, number, tail);
    law_generation_time_is_first(line@, 0);
}

/// The latency of a line that times generation alone is the number in the
/// bracket before the first `ms per token` after that time.
pub proof fn law_generation_latency_is_scanned(
    line: &str,
    head: Seq<char>,
    middle: Seq<char>,
    inner: Seq<char>,
    word: Seq<char>,
    rest: Seq<char>,
    number: Seq<char>,
    tail: Seq<char>,
    floats: LineFloats<Option<String>>,
    parsed: Option<String>,
)
    requires
        !contains(line@, "prompt eval time"@),
        generation_gives(line@, "ms per token"@, head, middle, inner, word, rest, number, tail),
        call_ensures(scan_line, (line,), Ok::<LineFloats<Option<String>>, Fault>(floats)),
        call_ensures(parse_latency, (line,), parsed),
    ensures
        gives(floats.latency, number),
        gives(parsed, number),
{
    lemma_words_unbordered();
    reveal_strlit("ms per token");
    lemma_eval_rate(line@, "ms per token"@, head, middle, inner, word, rest, number, tail);
    law_generation_time_is_first(line@, 0);
}

/// A speed or a latency without a bracket before it is not read.
pub proof fn law_rate_without_bracket_is_missing(
    line: &str,
    floats: LineFloats<Option<String>>,
    parsed: Option<String>,
)
    requires
        !contains(line@, "("@),
        call_ensures(scan_line, (line,), Ok::<LineFloats<Option<String>>, Fault>(floats)),
        call_ensures(parse_latency, (line,), parsed),
    ensures
        floats.generation is None,
        floats.latency is None,
        parsed is None,
        floats.timing matches Some(timing) ==> timing.tokens_per_second is None
            && timing.latency is None && timing.eval_speed is None,
{
    assert forall|stop: int| 0 <= stop <= line@.len() implies #[trigger] bracketed(
        line@,
        stop,
    ) is None by {
        let before = line@.take(stop);
        crate::text::law_rfind_is_last(before, "("@);
        if contains(before, "("@) {
            let i = choose|i: int| occurs_at(before, "("@, i);
            assert(line@.subrange(i, i + "("@.len()) =~= before.subrange(i, i + "("@.len()));
            assert(occurs_at(line@, "("@, i));
        }
    }
    crate::text::law_rfind_is_last(line@, "tokens per second"@);
    crate::text::law_rfind_is_last(line@, "ms per token"@);
    law_generation_time_is_first(line@, 0);
    if let Some(at) = generation_time(line@, 0) {
        law_find_is_first(line@.skip(at), "tokens per second"@);
        law_find_is_first(line@.skip(at), "ms per token"@);
    }
}

/// A timing line is read alone as it is in a scan of the line.
pub proof fn law_timing_alone_is_that_of_the_scan(
    line: &str,
    timing: Option<Timing<Option<String>>>,
    floats: LineFloats<Option<String>>,
)
    requires
        call_ensures(parse_inference_stats, (line,), timing),
        call_ensures(scan_line, (line,), Ok::<LineFloats<Option<String>>, Fault>(floats)),
    ensures
        timing is Some <==> floats.timing is Some,
        timing matches Some(t) ==> {
            let s = floats.timing->0;
            &&& same_text_or_none(t.progress, s.progress)
            &&& same_text_or_none(t.total_time, s.total_time)
            &&& same_text_or_none(t.tokens_per_second, s.tokens_per_second)
            &&& same_text_or_none(t.latency, s.latency)
            &&& same_text_or_none(t.eval_speed, s.eval_speed)
            &&& same_text_or_none(t.draft_acceptance, s.draft_acceptance)
            &&& t.n_decoded == s.n_decoded
        },
{
    if timing is Some {
        let t = timing_view(timing->0);
        let s = timing_view(floats.timing->0);
        assert(t == s);
        assert(t.progress == text_view(timing->0.progress));
        assert(s.progress == text_view(floats.timing->0.progress));
    }
}

/// Two strings hold the same, or neither is there.
pub open spec fn same_text_or_none(a: Option<String>, b: Option<String>) -> bool {
    &&& a is Some <==> b is Some
    &&& a is Some ==> a->0@ == b->0@
}

/// A count that is too large is read as zero, and so is one that is not there.
pub proof fn law_count_out_of_range_is_zero(
    line: &str,
    marker: &str,
    head: Seq<char>,
    filler: Seq<char>,
    n: nat,
    tail: Seq<char>,
    r: u32,
)
    requires
        marker@.len() > 0,
        unbordered(marker@),
        !contains(head, marker@),
        plain_filler(filler),
        tail.len() > 0 ==> !('0' <= tail[0] && tail[0] <= '9'),
        call_ensures(extract_number_after, (line, marker), r),
    ensures
        line@ == head + marker@ + filler + decimal(n) + tail && n > u32::MAX ==> r == 0,
        line@ == head + marker@ + filler ==> r == 0,
{
    lemma_find_split(head, marker@, filler + decimal(n) + tail);
    lemma_find_split(head, marker@, filler);
    if line@ == head + marker@ + filler {
        assert forall|i: int| 0 <= i < filler.len() implies CharClass::NotDigit.holds(
            #[trigger] filler[i],
        ) by {}
        lemma_run_of(filler, 0, filler.len() as int, CharClass::NotDigit);
    }
    if line@ == head + marker@ + filler + decimal(n) + tail && n > u32::MAX {
        let rest = filler + decimal(n) + tail;
        assert(line@ =~= head + marker@ + rest);
        let digits = decimal(n);
        let start = filler.len() as int;
        let end = start + digits.len();
        lemma_decimal(n);
        assert forall|i: int| start <= i < end implies CharClass::Digit.holds(
            #[trigger] rest[i],
        ) by {
            assert(rest[i] == digits[i - start]);
            assert(is_digit(digits[i - start]));
        }
        assert forall|i: int| 0 <= i < start implies CharClass::NotDigit.holds(
            #[trigger] rest[i],
        ) by {
            assert(rest[i] == filler[i]);
        }
        lemma_run_of(rest, 0, start, CharClass::NotDigit);
        if end < rest.len() {
            assert(rest[end] == tail[0]);
        }
        lemma_run_of(rest, start, end, CharClass::Digit);
        assert forall|i: int| 0 <= i < end implies utf8_width(#[trigger] rest.take(end)[i])
            == 1 by {
            if i < start {
                assert(rest[i] == filler[i]);
            } else {
                assert(CharClass::Digit.holds(rest[i]));
            }
        }
        law_ascii_run_is_read(rest, CharClass::Digit);
        assert(rest.subrange(start, end) =~= digits);
        crate::laws::words::lemma_reads_as(digits, u32::MAX as nat, 0);
    }
}

/// The bytes of a text, in UTF-8.
pub open spec fn bytes(s: Seq<char>) -> nat
    decreases s.len(),
{
    if s.len() == 0 {
        0
    } else {
        utf8_width(s[0]) + bytes(s.skip(1))
    }
}

proof fn lemma_bytes(a: Seq<char>, b: Seq<char>)
    ensures
        crate::text::char_at_byte(a + b, 0, bytes(a) as int) == Some(a.len() as int),
{
    assert(a.skip(0) =~= a);
    assert((a + b).take(a.len() as int) =~= a);
    lemma_bytes_from(a + b, a, 0);
}

proof fn lemma_bytes_from(s: Seq<char>, a: Seq<char>, from: int)
    requires
        0 <= from <= a.len() <= s.len(),
        s.take(a.len() as int) == a,
    ensures
        crate::text::char_at_byte(s, from, bytes(a.skip(from)) as int) == Some(a.len() as int),
    decreases a.len() - from,
{
    let rest = a.skip(from);
    if from < a.len() {
        assert(rest[0] == a[from]);
        assert(s.take(a.len() as int)[from] == s[from]);
        assert(rest.skip(1) =~= a.skip(from + 1));
        lemma_bytes_from(s, a, from + 1);
    }
}

/// Where wider characters come before a number, its place among the characters
/// is taken for its place among the bytes.
pub proof fn law_number_is_sliced_by_bytes(
    line: &str,
    marker: &str,
    head: Seq<char>,
    filler: Seq<char>,
    number: Seq<char>,
    tail: Seq<char>,
    a: Seq<char>,
    b: Seq<char>,
    c: Seq<char>,
    r: Option<String>,
)
    requires
        marker@.len() > 0,
        unbordered(marker@),
        line@ == head + marker@ + filler + number + tail,
        !contains(head, marker@),
        forall|i: int|
            0 <= i < filler.len() ==> !('0' <= #[trigger] filler[i] && filler[i] <= '9'),
        numeral(number),
        '0' <= number[0] && number[0] <= '9',
        tail.len() > 0 ==> tail[0] != '.' && !('0' <= tail[0] && tail[0] <= '9'),
        filler + number + tail == a + b + c,
        bytes(a) == filler.len(),
        bytes(a + b) == filler.len() + number.len(),
        call_ensures(extract_float_after, (line, marker), r),
    ensures
        gives(r, b),
{
    let rest = filler + number + tail;
    assert(line@ =~= head + marker@ + rest);
    lemma_find_split(head, marker@, rest);
    let start = filler.len() as int;
    let end = start + number.len();
    assert forall|i: int| 0 <= i < start implies CharClass::NotDigit.holds(#[trigger] rest[i]) by {
        assert(rest[i] == filler[i]);
    }
    assert forall|i: int| start <= i < end implies CharClass::DigitOrPoint.holds(
        #[trigger] rest[i],
    ) by {
        assert(rest[i] == number[i - start]);
    }
    assert(rest[start] == number[0]);
    lemma_run_of(rest, 0, start, CharClass::NotDigit);
    if end < rest.len() {
        assert(rest[end] == tail[0]);
    }
    lemma_run_of(rest, start, end, CharClass::DigitOrPoint);
    assert(rest =~= a + (b + c));
    lemma_bytes(a, b + c);
    assert(rest =~= (a + b) + c);
    lemma_bytes(a + b, c);
    assert(rest.subrange(a.len() as int, (a + b).len() as int) =~= b);
}

} // verus!
