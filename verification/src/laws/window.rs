//! What is left of a log without terminal codes, and which of its lines are
//! new or shown.

use vstd::prelude::*;

use crate::log::{
    count_lines, ends_in_code, get_last_lines, is_code, law_code_goes, law_plain_text_stays,
    law_strip_concat, plain_lines, read_new_log_lines, render_log_window, strip_ansi_codes,
    strip_codes,
};
use crate::text::{lines, texts};

verus! {

/// No escape character.
pub open spec fn escape_free(s: Seq<char>) -> bool {
    forall|i: int| 0 <= i < s.len() ==> #[trigger] s[i] != '\x1b'
}

/// Brackets, digits and semicolons alone.
pub open spec fn parameters(s: Seq<char>) -> bool {
    forall|i: int|
        0 <= i < s.len() ==> #[trigger] s[i] == '[' || s[i] == ';' || ('0' <= s[i] && s[i] <= '9')
}

/// A terminal code goes, and the text around it stays: an escape character,
/// its parameters, and one of the letters that end a code.
pub proof fn law_code_is_stripped(
    text: &str,
    before: Seq<char>,
    params: Seq<char>,
    letter: char,
    after: Seq<char>,
    r: String,
)
    requires
        text@ == before + seq!['\x1b'] + params + seq![letter] + after,
        escape_free(before),
        escape_free(after),
        parameters(params),
        letter == 'H' || letter == 'm' || letter == 'J' || letter == 'K',
        call_ensures(strip_ansi_codes, (text,), r),
    ensures
        r@ == before + after,
{
    let code = seq!['\x1b'] + params + seq![letter];
    assert(code.last() == letter);
    assert forall|i: int| 1 <= i < code.len() - 1 implies crate::log::within_code(
        #[trigger] code[i],
    ) by {
        assert(code[i] == params[i - 1]);
    }
    assert(is_code(code));
    assert(text@ =~= before + (code + after));
    law_plain_text_stays(before);
    law_plain_text_stays(after);
    law_strip_concat(before, code + after, false);
    law_code_goes(code, after);
}

/// Any other character ends a code too, and stays.
pub proof fn law_other_character_ends_a_code(
    text: &str,
    before: Seq<char>,
    params: Seq<char>,
    other: char,
    after: Seq<char>,
    r: String,
)
    requires
        text@ == before + seq!['\x1b'] + params + seq![other] + after,
        escape_free(before),
        escape_free(after),
        parameters(params),
        other != 'H' && other != 'm' && other != 'J' && other != 'K',
        other != '[' && other != ';' && other != '\x1b' && !('0' <= other && other <= '9'),
        call_ensures(strip_ansi_codes, (text,), r),
    ensures
        r@ == before + seq![other] + after,
{
    let open = seq!['\x1b'] + params;
    let rest = seq![other] + after;
    assert(text@ =~= before + (open + rest));
    law_plain_text_stays(before);
    law_plain_text_stays(after);
    law_strip_concat(before, open + rest, false);
    lemma_open_code(params);
    law_strip_concat(open, rest, false);
    assert(rest.skip(1) =~= after);
    assert(strip_codes(rest, true) =~= rest);
    assert(r@ =~= before + seq![other] + after);
}

/// A code that does not end goes too.
pub proof fn law_open_code_is_stripped(
    text: &str,
    before: Seq<char>,
    params: Seq<char>,
    r: String,
)
    requires
        text@ == before + seq!['\x1b'] + params,
        escape_free(before),
        parameters(params),
        call_ensures(strip_ansi_codes, (text,), r),
    ensures
        r@ == before,
{
    let open = seq!['\x1b'] + params;
    assert(text@ =~= before + open);
    law_plain_text_stays(before);
    law_strip_concat(before, open, false);
    lemma_open_code(params);
    assert(before + Seq::<char>::empty() =~= before);
}

proof fn lemma_open_code(params: Seq<char>)
    requires
        parameters(params),
    ensures
        strip_codes(seq!['\x1b'] + params, false) == Seq::<char>::empty(),
        ends_in_code(seq!['\x1b'] + params, false),
{
    let open = seq!['\x1b'] + params;
    assert(open.skip(1) =~= params);
    lemma_parameters(params);
}

proof fn lemma_parameters(params: Seq<char>)
    requires
        parameters(params),
    ensures
        strip_codes(params, true) == Seq::<char>::empty(),
        ends_in_code(params, true),
    decreases params.len(),
{
    if params.len() > 0 {
        assert(crate::log::within_code(params[0]));
        assert forall|i: int| 0 <= i < params.skip(1).len() implies #[trigger] params.skip(1)[i]
            == params[i + 1] by {}
        lemma_parameters(params.skip(1));
    }
}

/// Text without an escape character stays as it is.
pub proof fn law_text_without_codes_stays(text: &str, r: String)
    requires
        escape_free(text@),
        call_ensures(strip_ansi_codes, (text,), r),
    ensures
        r@ == text@,
{
    law_plain_text_stays(text@);
}

// ---- windows --------------------------------------------------------------

/// The window holds the last lines, in order: as many as asked for, or all of
/// them where there are fewer.
pub proof fn law_window_holds_the_last_lines(lines: &[String], count: usize, r: Vec<String>)
    requires
        call_ensures(render_log_window, (lines, count), r),
    ensures
        r@.len() <= count,
        r@.len() <= lines@.len(),
        r@.len() == count || r@.len() == lines@.len(),
        forall|k: int|
            0 <= k < r@.len() ==> (#[trigger] r@[k])@ == lines@[lines@.len() - r@.len() + k]@,
{
}

/// The last lines of a log are those of its text, without their codes.
pub proof fn law_last_lines_are_those_of_the_log(
    content: &str,
    n: usize,
    r: Vec<String>,
    k: int,
    line: &str,
    plain: String,
)
    requires
        call_ensures(get_last_lines, (content, n), r),
        0 <= k < r@.len(),
        line@ == lines(content@)[lines(content@).len() - r@.len() + k],
        call_ensures(strip_ansi_codes, (line,), plain),
    ensures
        r@[k]@ == plain@,
        r@.len() <= lines(content@).len(),
        r@.len() == n || r@.len() == lines(content@).len(),
{
    assert(texts(r@).len() == r@.len());
    assert(texts(r@)[k] == r@[k]@);
}

/// A log of no more lines than asked for is shown whole.
pub proof fn law_short_log_is_shown_whole(content: &str, n: usize, r: Vec<String>)
    requires
        call_ensures(get_last_lines, (content, n), r),
    ensures
        r@.len() == if lines(content@).len() <= n {
            lines(content@).len()
        } else {
            n as nat
        },
{
    assert(texts(r@).len() == r@.len());
}

// ---- new lines ------------------------------------------------------------

/// The lines of a log are counted.
pub proof fn law_lines_are_counted(content: &str, r: usize)
    requires
        call_ensures(count_lines, (content,), r),
    ensures
        r == lines(content@).len(),
{
}

/// Whole lines that were appended to a log are new, no others, and the log is
/// then read whole.
pub proof fn law_appended_lines_are_new(
    before: &str,
    content: &str,
    added: Seq<char>,
    seen: usize,
    count: &mut usize,
    r: Vec<String>,
    total: usize,
)
    requires
        content@ == before@ + added,
        before@.len() == 0 || before@.last() == '\n',
        call_ensures(count_lines, (before,), seen),
        *old(count) == seen,
        call_ensures(read_new_log_lines, (content, count), r),
        call_ensures(count_lines, (content,), total),
    ensures
        texts(r@) == plain_lines(added),
        *final(count) == total,
        r@.len() == lines(added).len(),
{
    crate::log::law_new_lines_are_appended(before@, added);
    assert(texts(r@).len() == r@.len());
}

/// A line of a log is plain where its codes are taken out.
pub proof fn law_plain_line_is_stripped(
    content: Seq<char>,
    i: int,
    line: &str,
    plain: String,
)
    requires
        0 <= i < lines(content).len(),
        line@ == lines(content)[i],
        call_ensures(strip_ansi_codes, (line,), plain),
    ensures
        plain_lines(content).len() == lines(content).len(),
        plain_lines(content)[i] == plain@,
{
}

/// Of a log with more lines than were seen, those after them are new, in
/// order.
pub proof fn law_lines_after_the_seen_are_new(
    content: &str,
    count: &mut usize,
    r: Vec<String>,
    k: int,
    line: &str,
    plain: String,
)
    requires
        *old(count) <= lines(content@).len(),
        call_ensures(read_new_log_lines, (content, count), r),
        0 <= k < r@.len(),
        line@ == lines(content@)[*old(count) + k],
        call_ensures(strip_ansi_codes, (line,), plain),
    ensures
        r@.len() == lines(content@).len() - *old(count),
        r@[k]@ == plain@,
        *final(count) == lines(content@).len(),
{
    assert(texts(r@).len() == r@.len());
    assert(texts(r@)[k] == r@[k]@);
}

/// Of a log that has become shorter, all lines are new.
pub proof fn law_shorter_log_is_all_new(content: &str, count: &mut usize, r: Vec<String>)
    requires
        *old(count) > lines(content@).len(),
        call_ensures(read_new_log_lines, (content, count), r),
    ensures
        texts(r@) == plain_lines(content@),
        *final(count) == lines(content@).len(),
{
}

/// Of a log that has as many lines as were seen, none is new.
pub proof fn law_no_more_lines_no_new_ones(content: &str, count: &mut usize, r: Vec<String>)
    requires
        *old(count) == lines(content@).len(),
        call_ensures(read_new_log_lines, (content, count), r),
    ensures
        r@.len() == 0,
        *final(count) == *old(count),
{
    assert(texts(r@).len() == r@.len());
}

} // verus!
