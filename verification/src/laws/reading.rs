//! What a log line says of its slot, once its numbers are read.

use vstd::prelude::*;

use crate::laws::line::{blank, count_after_marker, lemma_count_after, lemma_counters_unbordered};
use crate::number::{decimal, law_decimal_reads_back, lemma_decimal};
use crate::reading::Real;
use crate::text::{
    contains, find, is_digit, is_space, law_find_is_first, lemma_find_split, lemma_run_end,
    lemma_run_of, occurs_at, run_end, trim_start, utf8_width, CharClass,
};
use crate::timing::{
    extract_number_after, generation, get_slot_id, inference_stats, law_ascii_run_is_read,
    parse_ctx_usage, parse_generation_stats, pick_generation_speed, read_line, run_after,
    scan_line, slot_id, Fault, InferenceStats, LineFloats, LineReading, Timing,
};

verus! {

/// One-byte characters alone.
pub open spec fn one_byte(s: Seq<char>) -> bool {
    forall|i: int| 0 <= i < s.len() ==> (#[trigger] s[i]) as u32 <= 127
}

// ---- which lines can be read ----------------------------------------------

/// One-byte characters alone after every copy of a word.
pub open spec fn one_byte_after(line: Seq<char>, marker: Seq<char>) -> bool {
    forall|i: int|
        #![trigger occurs_at(line, marker, i)]
        occurs_at(line, marker, i) ==> one_byte(line.skip(i + marker.len()))
}

proof fn lemma_one_byte_run(line: Seq<char>, marker: Seq<char>, class: CharClass)
    requires
        one_byte_after(line, marker),
    ensures
        run_after(line, marker, class) is Ok,
{
    law_find_is_first(line, marker);
    if let Some(at) = find(line, marker) {
        let rest = line.skip(at + marker.len());
        let start = run_end(rest, 0, CharClass::NotDigit);
        lemma_run_end(rest, 0, CharClass::NotDigit);
        lemma_run_end(rest, start, class);
        let front = rest.take(run_end(rest, start, class));
        assert forall|i: int| 0 <= i < front.len() implies utf8_width(#[trigger] front[i]) == 1 by {
            assert(front[i] == rest[i]);
        }
        law_ascii_run_is_read(rest, class);
    }
}

/// A line can be scanned wherever one-byte characters alone follow the words
/// that numbers come after.
pub proof fn law_one_byte_line_is_scanned(
    line: &str,
    r: Result<LineFloats<Option<String>>, Fault>,
)
    requires
        one_byte_after(line@, "tg = "@),
        one_byte_after(line@, "progress = "@),
        one_byte_after(line@, "total time = "@),
        one_byte_after(line@, "draft acceptance = "@),
        one_byte_after(line@, "n_decoded ="@),
        one_byte_after(line@, "n_tokens"@),
        call_ensures(scan_line, (line,), r),
    ensures
        r is Ok,
{
    lemma_one_byte_run(line@, "tg = "@, CharClass::DigitOrPoint);
    lemma_one_byte_run(line@, "progress = "@, CharClass::DigitOrPoint);
    lemma_one_byte_run(line@, "total time = "@, CharClass::DigitOrPoint);
    lemma_one_byte_run(line@, "draft acceptance = "@, CharClass::DigitOrPoint);
    lemma_one_byte_run(line@, "n_decoded ="@, CharClass::Digit);
    lemma_one_byte_run(line@, "n_tokens"@, CharClass::Digit);
}

/// A line can be read wherever one-byte characters alone follow the words that
/// numbers come after, unless the position that it gives after `pos_max =` is
/// the largest number there is.
pub proof fn law_one_byte_line_is_read(
    line: &str,
    floats: &LineFloats<Option<Real>>,
    r: Result<LineReading, Fault>,
)
    requires
        one_byte_after(line@, "n_decoded ="@),
        one_byte_after(line@, "n_tokens"@),
        one_byte_after(line@, "ms /"@),
        one_byte_after(line@, "n_past ="@),
        one_byte_after(line@, "pos_max ="@),
        call_ensures(read_line, (line, floats), r),
    ensures
        r is Ok || (r == Err::<LineReading, Fault>(Fault::Overflow) && contains(
            line@,
            "pos_max ="@,
        )),
{
    lemma_one_byte_run(line@, "n_decoded ="@, CharClass::Digit);
    lemma_one_byte_run(line@, "n_tokens"@, CharClass::Digit);
    lemma_one_byte_run(line@, "ms /"@, CharClass::Digit);
    lemma_one_byte_run(line@, "n_past ="@, CharClass::Digit);
    lemma_one_byte_run(line@, "pos_max ="@, CharClass::Digit);
    law_find_is_first(line@, "pos_max ="@);
}

// ---- slots ----------------------------------------------------------------

/// The number at the start of a text, after white space.
proof fn lemma_leading_number(gap: Seq<char>, n: nat, tail: Seq<char>)
    requires
        blank(gap),
        tail.len() > 0 ==> !('0' <= tail[0] && tail[0] <= '9'),
    ensures
        ({
            let trimmed = trim_start(gap + decimal(n) + tail);
            trimmed.take(run_end(trimmed, 0, CharClass::Digit)) == decimal(n)
        }),
{
    let digits = decimal(n);
    let after = gap + digits + tail;
    lemma_decimal(n);
    assert(is_digit(digits[0]));
    assert forall|i: int| 0 <= i < gap.len() implies CharClass::Space.holds(#[trigger] after[i]) by {
        assert(after[i] == gap[i]);
    }
    assert(after[gap.len() as int] == digits[0]);
    lemma_run_of(after, 0, gap.len() as int, CharClass::Space);
    let trimmed = trim_start(after);
    assert(trimmed =~= digits + tail);
    assert forall|i: int| 0 <= i < digits.len() implies CharClass::Digit.holds(
        #[trigger] trimmed[i],
    ) by {
        assert(trimmed[i] == digits[i]);
    }
    if digits.len() < trimmed.len() {
        assert(trimmed[digits.len() as int] == tail[0]);
    }
    lemma_run_of(trimmed, 0, digits.len() as int, CharClass::Digit);
    assert(trimmed.take(digits.len() as int) =~= digits);
}

/// The slot of a line is the number after the first `: id ` that follows the
/// word `slot`.
pub proof fn law_slot_after_colon_is_read(
    line: &str,
    head: Seq<char>,
    middle: Seq<char>,
    gap: Seq<char>,
    n: nat,
    tail: Seq<char>,
    r: Option<usize>,
)
    requires
        line@ == head + "slot"@ + middle + ": id "@ + gap + decimal(n) + tail,
        !contains(head, "slot"@),
        !contains("slot"@ + middle, ": id "@),
        blank(gap),
        tail.len() > 0 ==> !('0' <= tail[0] && tail[0] <= '9'),
        n <= usize::MAX,
        call_ensures(get_slot_id, (line,), r),
    ensures
        r == Some(n as usize),
{
    lemma_counters_unbordered();
    reveal_strlit("slot");
    reveal_strlit(": id ");
    let after = gap + decimal(n) + tail;
    assert(line@ =~= head + "slot"@ + (middle + ": id "@ + after));
    lemma_find_split(head, "slot"@, middle + ": id "@ + after);
    assert("slot"@ + (middle + ": id "@ + after) =~= "slot"@ + middle + ": id "@ + after);
    lemma_find_split("slot"@ + middle, ": id "@, after);
    lemma_leading_number(gap, n, tail);
    law_decimal_reads_back(n, usize::MAX as nat);
    assert(slot_id(line@) == Some(n));
}

/// Where no `: id ` follows the word `slot`, the slot is the number after the
/// first `id `.
pub proof fn law_slot_without_colon_is_read(
    line: &str,
    head: Seq<char>,
    middle: Seq<char>,
    gap: Seq<char>,
    n: nat,
    tail: Seq<char>,
    r: Option<usize>,
)
    requires
        line@ == head + "slot"@ + middle + "id "@ + gap + decimal(n) + tail,
        !contains(head, "slot"@),
        !contains("slot"@ + middle + "id "@ + gap + decimal(n) + tail, ": id "@),
        !contains("slot"@ + middle, "id "@),
        blank(gap),
        tail.len() > 0 ==> !('0' <= tail[0] && tail[0] <= '9'),
        n <= usize::MAX,
        call_ensures(get_slot_id, (line,), r),
    ensures
        r == Some(n as usize),
{
    lemma_counters_unbordered();
    reveal_strlit("slot");
    reveal_strlit("id ");
    let after = gap + decimal(n) + tail;
    assert(line@ =~= head + "slot"@ + (middle + "id "@ + after));
    lemma_find_split(head, "slot"@, middle + "id "@ + after);
    let rest = "slot"@ + middle + "id "@ + after;
    assert("slot"@ + (middle + "id "@ + after) =~= rest);
    assert(rest =~= "slot"@ + middle + "id "@ + gap + decimal(n) + tail);
    law_find_is_first(rest, ": id "@);
    lemma_find_split("slot"@ + middle, "id "@, after);
    lemma_leading_number(gap, n, tail);
    law_decimal_reads_back(n, usize::MAX as nat);
    assert(slot_id(line@) == Some(n));
}

/// A line without the word `slot`, or without `id ` after it, speaks of no
/// slot.
pub proof fn law_other_lines_have_no_slot(line: &str, r: Option<usize>)
    requires
        !contains(line@, "slot"@) || !contains(line@, "id "@),
        call_ensures(get_slot_id, (line,), r),
    ensures
        r is None,
{
    law_find_is_first(line@, "slot"@);
    if let Some(at) = find(line@, "slot"@) {
        let rest = line@.skip(at);
        law_find_is_first(rest, ": id "@);
        law_find_is_first(rest, "id "@);
        reveal_strlit(": id ");
        reveal_strlit("id ");
        if contains(rest, ": id "@) {
            let i = choose|i: int| occurs_at(rest, ": id "@, i);
            assert(rest.subrange(i, i + 5) == ": id "@);
            assert(line@.subrange(at + i + 2, at + i + 5) =~= ": id "@.subrange(2, 5)) by {
                assert(rest.subrange(i, i + 5).subrange(2, 5) =~= line@.subrange(
                    at + i + 2,
                    at + i + 5,
                ));
            }
            assert(": id "@.subrange(2, 5) =~= "id "@);
            assert(occurs_at(line@, "id "@, at + i + 2));
        }
        if contains(rest, "id "@) {
            let i = choose|i: int| occurs_at(rest, "id "@, i);
            assert(line@.subrange(at + i, at + i + 3) =~= rest.subrange(i, i + 3));
            assert(occurs_at(line@, "id "@, at + i));
        }
    }
}

/// A line with no digit after the white space that follows its slot marker
/// speaks of no slot, and neither does one whose number is too large.
pub proof fn law_slot_needs_a_number(
    line: &str,
    head: Seq<char>,
    middle: Seq<char>,
    gap: Seq<char>,
    n: nat,
    tail: Seq<char>,
    r: Option<usize>,
)
    requires
        !contains(head, "slot"@),
        !contains("slot"@ + middle, ": id "@),
        blank(gap),
        call_ensures(get_slot_id, (line,), r),
    ensures
        line@ == head + "slot"@ + middle + ": id "@ + gap + tail && (tail.len() > 0 ==> !is_space(
            tail[0],
        ) && !('0' <= tail[0] && tail[0] <= '9')) ==> r is None,
        line@ == head + "slot"@ + middle + ": id "@ + gap + decimal(n) + tail && (tail.len() > 0
            ==> !('0' <= tail[0] && tail[0] <= '9')) && n > usize::MAX ==> r is None,
{
    lemma_counters_unbordered();
    reveal_strlit("slot");
    reveal_strlit(": id ");
    if line@ == head + "slot"@ + middle + ": id "@ + gap + tail && (tail.len() > 0 ==> !is_space(
        tail[0],
    ) && !('0' <= tail[0] && tail[0] <= '9')) {
        let after = gap + tail;
        assert(line@ =~= head + "slot"@ + (middle + ": id "@ + after));
        lemma_find_split(head, "slot"@, middle + ": id "@ + after);
        assert("slot"@ + (middle + ": id "@ + after) =~= "slot"@ + middle + ": id "@ + after);
        lemma_find_split("slot"@ + middle, ": id "@, after);
        assert forall|i: int| 0 <= i < gap.len() implies CharClass::Space.holds(
            #[trigger] after[i],
        ) by {
            assert(after[i] == gap[i]);
        }
        if tail.len() > 0 {
            assert(after[gap.len() as int] == tail[0]);
        }
        lemma_run_of(after, 0, gap.len() as int, CharClass::Space);
        let trimmed = trim_start(after);
        assert(trimmed =~= tail);
        lemma_run_of(trimmed, 0, 0, CharClass::Digit);
        assert(trimmed.take(0).len() == 0);
    }
    if line@ == head + "slot"@ + middle + ": id "@ + gap + decimal(n) + tail && (tail.len() > 0
        ==> !('0' <= tail[0] && tail[0] <= '9')) && n > usize::MAX {
        let after = gap + decimal(n) + tail;
        assert(line@ =~= head + "slot"@ + (middle + ": id "@ + after));
        lemma_find_split(head, "slot"@, middle + ": id "@ + after);
        assert("slot"@ + (middle + ": id "@ + after) =~= "slot"@ + middle + ": id "@ + after);
        lemma_find_split("slot"@ + middle, ": id "@, after);
        lemma_leading_number(gap, n, tail);
        lemma_decimal(n);
        assert(is_digit(decimal(n)[0]));
    }
}

// ---- context --------------------------------------------------------------

/// A line that says that processing stopped, or that a checkpoint of the
/// context was made, gives the tokens of the context after `n_tokens`.
pub proof fn law_context_tokens_are_read(
    line: &str,
    head: Seq<char>,
    filler: Seq<char>,
    n: nat,
    tail: Seq<char>,
    floats: &LineFloats<Option<Real>>,
    usage: Option<(u32, u32)>,
    reading: LineReading,
)
    requires
        contains(line@, "stop processing"@) || contains(line@, "created context checkpoint"@),
        contains(line@, "n_tokens"@),
        count_after_marker(line@, "n_tokens"@, head, filler, n, tail),
        n > 0,
        call_ensures(parse_ctx_usage, (line,), usage),
        call_ensures(read_line, (line, floats), Ok::<LineReading, Fault>(reading)),
    ensures
        usage == Some((n as u32, 0u32)),
        reading.ctx_used == Some(n as u32),
{
    lemma_counters_unbordered();
    reveal_strlit("n_tokens");
    lemma_count_after(line@, "n_tokens"@, head, filler, n, tail);
}

/// A line of an update of the slots gives the tokens of the context after
/// `n_past =`.
pub proof fn law_past_tokens_are_read(
    line: &str,
    head: Seq<char>,
    filler: Seq<char>,
    n: nat,
    tail: Seq<char>,
    floats: &LineFloats<Option<Real>>,
    usage: Option<(u32, u32)>,
    reading: LineReading,
)
    requires
        contains(line@, "slot update_slots"@),
        !contains(line@, "n_tokens"@),
        count_after_marker(line@, "n_past ="@, head, filler, n, tail),
        n > 0,
        call_ensures(parse_ctx_usage, (line,), usage),
        call_ensures(read_line, (line, floats), Ok::<LineReading, Fault>(reading)),
    ensures
        usage == Some((n as u32, 0u32)),
        reading.ctx_used == Some(n as u32),
{
    lemma_counters_unbordered();
    reveal_strlit("n_past =");
    lemma_count_after(line@, "n_past ="@, head, filler, n, tail);
}

/// Where such a line gives no `n_past =`, the tokens are one more than the
/// position after `pos_max =`.
pub proof fn law_last_position_is_read(
    line: &str,
    head: Seq<char>,
    filler: Seq<char>,
    n: nat,
    tail: Seq<char>,
    floats: &LineFloats<Option<Real>>,
    usage: Option<(u32, u32)>,
    reading: LineReading,
)
    requires
        contains(line@, "slot update_slots"@),
        !contains(line@, "n_tokens"@),
        !contains(line@, "n_past ="@),
        count_after_marker(line@, "pos_max ="@, head, filler, n, tail),
        0 < n < u32::MAX,
        call_ensures(parse_ctx_usage, (line,), usage),
        call_ensures(read_line, (line, floats), Ok::<LineReading, Fault>(reading)),
    ensures
        usage == Some(((n + 1) as u32, 0u32)),
        reading.ctx_used == Some((n + 1) as u32),
{
    lemma_counters_unbordered();
    reveal_strlit("pos_max =");
    lemma_count_after(line@, "pos_max ="@, head, filler, n, tail);
    law_find_is_first(line@, "n_past ="@);
}

/// Other lines say nothing of the context.
pub proof fn law_other_lines_have_no_context(
    line: &str,
    floats: &LineFloats<Option<Real>>,
    usage: Option<(u32, u32)>,
    reading: LineReading,
)
    requires
        !contains(line@, "slot update_slots"@),
        !contains(line@, "n_tokens"@) || (!contains(line@, "stop processing"@) && !contains(
            line@,
            "created context checkpoint"@,
        )),
        call_ensures(parse_ctx_usage, (line,), usage),
        call_ensures(read_line, (line, floats), Ok::<LineReading, Fault>(reading)),
    ensures
        usage is None,
        reading.ctx_used is None,
{
}

/// The context of a line in full: the count after `n_tokens`, where the line
/// says that processing stopped or a checkpoint was made and the count is
/// above zero; else, in a line of an update of the slots, the count after
/// `n_past =` where it is above zero, or one more than that after `pos_max =`
/// where that is; else nothing.
pub proof fn law_context_in_full(
    line: &str,
    tokens_marker: &str,
    past_marker: &str,
    last_marker: &str,
    tokens: u32,
    past: u32,
    last: u32,
    floats: &LineFloats<Option<Real>>,
    usage: Option<(u32, u32)>,
    reading: LineReading,
)
    requires
        tokens_marker@ == "n_tokens"@,
        past_marker@ == "n_past ="@,
        last_marker@ == "pos_max ="@,
        call_ensures(extract_number_after, (line, tokens_marker), tokens),
        call_ensures(extract_number_after, (line, past_marker), past),
        call_ensures(extract_number_after, (line, last_marker), last),
        call_ensures(parse_ctx_usage, (line,), usage),
        call_ensures(read_line, (line, floats), Ok::<LineReading, Fault>(reading)),
    ensures
        ({
            let counts = contains(line@, "n_tokens"@) && (contains(line@, "stop processing"@)
                || contains(line@, "created context checkpoint"@));
            let updates = contains(line@, "slot update_slots"@);
            let used = if counts && tokens > 0 {
                Some(tokens)
            } else if updates && past > 0 {
                Some(past)
            } else if updates && last > 0 {
                Some((last + 1) as u32)
            } else {
                None
            };
            &&& reading.ctx_used == used
            &&& usage == match used {
                Some(n) => Some((n, 0u32)),
                None => None,
            }
        }),
{
}

// ---- statistics -----------------------------------------------------------

/// A reading is what was given, or zero where nothing was.
pub open spec fn is_or_zero(value: Real, given: Option<Real>) -> bool {
    match given {
        Some(v) => value == v,
        None => value.bits == 0,
    }
}

/// The statistics of a timing line are its own readings, each in its place.
/// The generation speed is the one given for generation, or the last speed of
/// the line where that is not above zero.
pub proof fn law_statistics_are_the_readings(t: &Timing<Option<Real>>, r: InferenceStats)
    requires
        call_ensures(inference_stats, (t,), r),
    ensures
        is_or_zero(r.progress, t.progress),
        is_or_zero(r.time_seconds, t.total_time),
        is_or_zero(r.tokens_per_second, t.tokens_per_second),
        is_or_zero(r.latency_ms_tok, t.latency),
        is_or_zero(r.draft_acceptance, t.draft_acceptance),
        r.n_decoded == t.n_decoded,
        t.eval_speed is Some && t.eval_speed->0.positive() ==> r.gen_speed_tps == t.eval_speed->0,
        !(t.eval_speed is Some && t.eval_speed->0.positive()) ==> is_or_zero(
            r.gen_speed_tps,
            t.tokens_per_second,
        ),
        r.n_decoded_max == 0 && r.ctx_n_tokens == 0 && r.ctx_used == 0,
{
}

/// What a line says of its slot is what its numbers are: the statistics of its
/// timing, a latency above zero, a prompt speed above zero, that of a
/// `prompt processing` line first, and whether a task ends or starts.
pub proof fn law_reading_is_of_the_line(
    line: &str,
    floats: &LineFloats<Option<Real>>,
    stats: InferenceStats,
    r: LineReading,
)
    requires
        call_ensures(read_line, (line, floats), Ok::<LineReading, Fault>(r)),
        floats.timing matches Some(t) ==> call_ensures(inference_stats, (&t,), stats),
    ensures
        floats.timing is Some ==> r.stats == Some(stats),
        floats.timing is None ==> r.stats is None,
        floats.latency is Some && floats.latency->0.positive() ==> r.latency == floats.latency,
        !(floats.latency is Some && floats.latency->0.positive()) ==> r.latency is None,
        floats.prompt_processing is Some && floats.prompt_processing->0.positive() ==> r.prompt_tps
            == floats.prompt_processing,
        !(floats.prompt_processing is Some && floats.prompt_processing->0.positive()) ==> (
        floats.prompt_eval is Some && floats.prompt_eval->0.positive() ==> r.prompt_tps
            == floats.prompt_eval),
        !(floats.prompt_processing is Some && floats.prompt_processing->0.positive()) && !(
        floats.prompt_eval is Some && floats.prompt_eval->0.positive()) ==> r.prompt_tps is None,
        r.ends_prompt <==> contains(line@, "stop processing"@) || contains(
            line@,
            "launch_slot_"@,
        ),
{
}

// ---- generation -----------------------------------------------------------

/// The generation speed is the number after `tg = `, unless that is missing
/// or zero and the line gives one in brackets.
pub proof fn law_generation_speed_is_chosen(tg: Option<Real>, other: Option<Real>, r: Real)
    requires
        call_ensures(pick_generation_speed, (tg, other), r),
    ensures
        tg is Some && !tg->0.zero() ==> r == tg->0,
        !(tg is Some && !tg->0.zero()) && other is Some ==> r == other->0,
        other is None ==> is_or_zero(r, tg),
{
}

/// The number of decoded tokens of a line is the one after `n_decoded =`,
/// where it or the speed is above zero.
pub proof fn law_decoded_tokens_are_read(
    line: &str,
    head: Seq<char>,
    filler: Seq<char>,
    n: nat,
    tail: Seq<char>,
    speed: Real,
    r: Option<(u32, Real)>,
)
    requires
        contains(line@, "n_decoded"@),
        count_after_marker(line@, "n_decoded ="@, head, filler, n, tail),
        n > 0 || speed.positive(),
        call_ensures(parse_generation_stats, (line, speed), r),
    ensures
        r == Some((n as u32, speed)),
{
    lemma_counters_unbordered();
    reveal_strlit("n_decoded =");
    lemma_count_after(line@, "n_decoded ="@, head, filler, n, tail);
}

/// The number of decoded tokens of a line that says that processing stopped,
/// and does not say how many were decoded, is the one after `n_tokens`.
pub proof fn law_tokens_at_stop_are_read(
    line: &str,
    head: Seq<char>,
    filler: Seq<char>,
    n: nat,
    tail: Seq<char>,
    speed: Real,
    r: Option<(u32, Real)>,
)
    requires
        !contains(line@, "n_decoded"@),
        contains(line@, "stop processing"@),
        contains(line@, "n_tokens"@),
        count_after_marker(line@, "n_tokens"@, head, filler, n, tail),
        n > 0 || speed.positive(),
        call_ensures(parse_generation_stats, (line, speed), r),
    ensures
        r == Some((n as u32, speed)),
{
    lemma_counters_unbordered();
    reveal_strlit("n_tokens");
    lemma_count_after(line@, "n_tokens"@, head, filler, n, tail);
}

/// The number of decoded tokens of a line that times generation, and says
/// neither, is the one after `ms /`, where it and the speed are above zero.
pub proof fn law_timed_tokens_are_read(
    line: &str,
    head: Seq<char>,
    filler: Seq<char>,
    n: nat,
    tail: Seq<char>,
    speed: Real,
    r: Option<(u32, Real)>,
)
    requires
        !contains(line@, "n_decoded"@),
        !contains(line@, "stop processing"@) || !contains(line@, "n_tokens"@),
        contains(line@, "eval time"@),
        !contains(line@, "prompt eval time"@),
        count_after_marker(line@, "ms /"@, head, filler, n, tail),
        call_ensures(parse_generation_stats, (line, speed), r),
    ensures
        n > 0 && speed.positive() ==> r == Some((n as u32, speed)),
        n == 0 || !speed.positive() ==> r is None,
{
    lemma_counters_unbordered();
    reveal_strlit("ms /");
    lemma_count_after(line@, "ms /"@, head, filler, n, tail);
}

/// Other lines say nothing of generation.
pub proof fn law_other_lines_say_nothing_of_generation(
    line: &str,
    speed: Real,
    r: Option<(u32, Real)>,
)
    requires
        !contains(line@, "n_decoded"@),
        !contains(line@, "stop processing"@) || !contains(line@, "n_tokens"@),
        !contains(line@, "eval time"@) || contains(line@, "prompt eval time"@),
        call_ensures(parse_generation_stats, (line, speed), r),
    ensures
        r is None,
{
}

/// The generation of a line in full: the count after `n_decoded =`, where the
/// line has `n_decoded` and the count or the speed is above zero; else that
/// after `n_tokens`, where processing stopped and the count or the speed is;
/// else that after `ms /`, where the line times generation and both are; else
/// nothing.
pub proof fn law_generation_in_full(
    line: &str,
    decoded_marker: &str,
    tokens_marker: &str,
    timed_marker: &str,
    decoded: u32,
    tokens: u32,
    timed: u32,
    speed: Real,
    r: Option<(u32, Real)>,
)
    requires
        decoded_marker@ == "n_decoded ="@,
        tokens_marker@ == "n_tokens"@,
        timed_marker@ == "ms /"@,
        call_ensures(extract_number_after, (line, decoded_marker), decoded),
        call_ensures(extract_number_after, (line, tokens_marker), tokens),
        call_ensures(extract_number_after, (line, timed_marker), timed),
        call_ensures(parse_generation_stats, (line, speed), r),
    ensures
        ({
            let stops = contains(line@, "stop processing"@) && contains(line@, "n_tokens"@);
            let times = contains(line@, "eval time"@) && !contains(line@, "prompt eval time"@);
            r == if contains(line@, "n_decoded"@) && (decoded > 0 || speed.positive()) {
                Some((decoded, speed))
            } else if stops && (tokens > 0 || speed.positive()) {
                Some((tokens, speed))
            } else if times && timed > 0 && speed.positive() {
                Some((timed, speed))
            } else {
                None
            }
        }),
{
}

/// Generation is read of a whole line as it is of the line and the speed that
/// is chosen for it.
pub proof fn law_reading_has_the_generation(
    line: &str,
    floats: &LineFloats<Option<Real>>,
    speed: Real,
    parsed: Option<(u32, Real)>,
    r: LineReading,
)
    requires
        call_ensures(read_line, (line, floats), Ok::<LineReading, Fault>(r)),
        call_ensures(pick_generation_speed, (floats.tg, floats.generation), speed),
        call_ensures(parse_generation_stats, (line, speed), parsed),
    ensures
        r.generation == parsed,
{
}

/// The number of decoded tokens of a timing line is the one after
/// `n_decoded =`; or, where processing stopped, after `n_tokens`; or zero.
pub proof fn law_timing_counts_tokens(
    line: &str,
    head: Seq<char>,
    filler: Seq<char>,
    n: nat,
    tail: Seq<char>,
    floats: LineFloats<Option<String>>,
)
    requires
        contains(line@, "print_timing"@),
        call_ensures(scan_line, (line,), Ok::<LineFloats<Option<String>>, Fault>(floats)),
    ensures
        floats.timing is Some,
        contains(line@, "n_decoded"@) && count_after_marker(
            line@,
            "n_decoded ="@,
            head,
            filler,
            n,
            tail,
        ) ==> floats.timing->0.n_decoded == n,
        !contains(line@, "n_decoded"@) && contains(line@, "stop processing"@)
            && count_after_marker(line@, "n_tokens"@, head, filler, n, tail)
            ==> floats.timing->0.n_decoded == n,
        !contains(line@, "n_decoded"@) && !contains(line@, "stop processing"@)
            ==> floats.timing->0.n_decoded == 0,
{
    lemma_counters_unbordered();
    reveal_strlit("n_decoded =");
    reveal_strlit("n_tokens");
    if count_after_marker(line@, "n_decoded ="@, head, filler, n, tail) {
        lemma_count_after(line@, "n_decoded ="@, head, filler, n, tail);
    }
    if count_after_marker(line@, "n_tokens"@, head, filler, n, tail) {
        lemma_count_after(line@, "n_tokens"@, head, filler, n, tail);
    }
}

} // verus!
