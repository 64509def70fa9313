//! The server's log: its lines without terminal codes, and the window of the
//! newest of them.

use vstd::prelude::*;

use crate::text::{
    chars_of, digit, is_digit, lemma_run_end, lines, rows, run_end, split_lines, texts, CharClass,
};

verus! {

/// The escape character.
pub const ESCAPE: char = '\x1b';

/// A character that ends a terminal code.
pub open spec fn ends_code(c: char) -> bool {
    c == 'H' || c == 'm' || c == 'J' || c == 'K'
}

/// A character that a terminal code may hold before its end.
pub open spec fn within_code(c: char) -> bool {
    c == '[' || is_digit(c) || c == ';'
}

/// What is left of `s` without terminal codes, where `in_code` says whether
/// it starts inside one. A code starts with the escape character. It holds
/// brackets, digits and semicolons, and the letter that ends it. Any other
/// character ends it too, and stays.
pub open spec fn strip_codes(s: Seq<char>, in_code: bool) -> Seq<char>
    decreases s.len(),
{
    if s.len() == 0 {
        seq![]
    } else {
        let c = s[0];
        let rest = s.skip(1);
        if c == ESCAPE {
            strip_codes(rest, true)
        } else if in_code && within_code(c) {
            strip_codes(rest, true)
        } else if in_code && ends_code(c) {
            strip_codes(rest, false)
        } else {
            seq![c] + strip_codes(rest, false)
        }
    }
}

/// The last `n` elements, or all of them where there are fewer.
pub open spec fn last_n<T>(s: Seq<T>, n: nat) -> Seq<T> {
    if s.len() > n {
        s.skip(s.len() - n)
    } else {
        s
    }
}

/// The lines of a log without terminal codes.
pub open spec fn plain_lines(content: Seq<char>) -> Seq<Seq<char>> {
    Seq::new(
        lines(content).len(),
        |i: int| strip_codes(lines(content)[i], false),
    )
}

/// `text` without terminal codes.
pub fn strip_ansi_codes(text: &str) -> (r: String)
    ensures
        r@ == strip_codes(text@, false),
{
    let chars = chars_of(text);
    strip_chars(chars.as_slice())
}

fn strip_chars(chars: &[char]) -> (r: String)
    ensures
        r@ == strip_codes(chars@, false),
{
    let mut r = String::new();
    let mut in_code = false;
    let mut i: usize = 0;
    proof {
        assert(chars@.skip(0) =~= chars@);
        assert(r@ + strip_codes(chars@, false) =~= strip_codes(chars@, false));
    }
    while i < chars.len()
        invariant
            i <= chars@.len(),
            r@ + strip_codes(chars@.skip(i as int), in_code) == strip_codes(chars@, false),
        decreases chars@.len() - i,
    {
        let c = chars[i];
        let ghost before = r@;
        let ghost rest = chars@.skip(i as int);
        proof {
            assert(rest.skip(1) =~= chars@.skip(i + 1));
        }
        i += 1;
        if c == ESCAPE {
            in_code = true;
        } else if in_code && (c == '[' || digit(c) || c == ';') {
        } else if in_code && (c == 'H' || c == 'm' || c == 'J' || c == 'K') {
            in_code = false;
        } else {
            in_code = false;
            r.push(c);
            proof {
                assert(before.push(c) + strip_codes(rest.skip(1), false) =~= before + (seq![c]
                    + strip_codes(rest.skip(1), false)));
            }
        }
    }
    proof {
        assert(chars@.skip(chars@.len() as int).len() == 0);
        assert(r@ + strip_codes(chars@.skip(chars@.len() as int), in_code) =~= r@);
    }
    r
}

/// The lines of a log without terminal codes.
fn strip_lines(content: &str) -> (r: Vec<String>)
    ensures
        texts(r@) == plain_lines(content@),
{
    let chars = chars_of(content);
    let all = split_lines(chars.as_slice());
    let mut r: Vec<String> = Vec::new();
    let mut i: usize = 0;
    while i < all.len()
        invariant
            i <= all@.len(),
            rows(all@) == lines(content@),
            r@.len() == i,
            forall|k: int|
                0 <= k < i ==> (#[trigger] r@[k])@ == strip_codes(
                    lines(content@)[k],
                    false,
                ),
        decreases all@.len() - i,
    {
        proof {
            assert(rows(all@)[i as int] == all@[i as int]@);
        }
        r.push(strip_chars(all[i].as_slice()));
        i += 1;
    }
    proof {
        assert(rows(all@).len() == all@.len());
        assert(texts(r@) =~= plain_lines(content@));
    }
    r
}

/// The elements from `start` on.
fn tail_from(lines: &[String], start: usize) -> (r: Vec<String>)
    requires
        start <= lines@.len(),
    ensures
        r@ == lines@.skip(start as int),
{
    let mut r: Vec<String> = Vec::new();
    let mut i: usize = start;
    while i < lines.len()
        invariant
            start <= i <= lines@.len(),
            r@ == lines@.subrange(start as int, i as int),
        decreases lines@.len() - i,
    {
        proof {
            assert(lines@.subrange(start as int, i + 1) =~= lines@.subrange(
                start as int,
                i as int,
            ).push(lines@[i as int]));
        }
        r.push(lines[i].clone());
        i += 1;
    }
    proof {
        assert(lines@.subrange(start as int, lines@.len() as int) =~= lines@.skip(start as int));
    }
    r
}

/// The last `count` of some lines.
pub fn render_log_window(lines: &[String], count: usize) -> (r: Vec<String>)
    ensures
        r@ == last_n(lines@, count as nat),
{
    let total: usize = lines.len();
    let start: usize = if total > count {
        total - count
    } else {
        0
    };
    let r = tail_from(lines, start);
    proof {
        assert(r@ =~= last_n(lines@, count as nat));
    }
    r
}

/// The last `n` lines of a log, without terminal codes.
pub fn get_last_lines(content: &str, n: usize) -> (r: Vec<String>)
    ensures
        texts(r@) == last_n(plain_lines(content@), n as nat),
{
    let all = strip_lines(content);
    let r = render_log_window(all.as_slice(), n);
    proof {
        assert(texts(r@) =~= last_n(texts(all@), n as nat));
    }
    r
}

/// The number of lines of a log.
pub fn count_lines(content: &str) -> (r: usize)
    ensures
        r == lines(content@).len(),
{
    let chars = chars_of(content);
    let all = split_lines(chars.as_slice());
    proof {
        assert(rows(all@).len() == all@.len());
    }
    all.len()
}

/// The lines, without terminal codes, that a log has gained since it had
/// `last_line_count` lines, which becomes the number of its lines now. A log
/// that has fewer lines than before is read from its start.
pub fn read_new_log_lines(content: &str, last_line_count: &mut usize) -> (r: Vec<String>)
    ensures
        *final(last_line_count) == lines(content@).len(),
        texts(r@) == new_lines(content@, *old(last_line_count) as nat),
{
    let all = strip_lines(content);
    let total: usize = all.len();
    proof {
        assert(texts(all@).len() == all@.len());
    }
    let start: usize = if total < *last_line_count {
        0
    } else {
        *last_line_count
    };
    *last_line_count = total;
    let r = tail_from(all.as_slice(), start);
    proof {
        assert(texts(r@) =~= texts(all@).skip(start as int));
    }
    r
}

/// The lines, without terminal codes, that `content` has beyond its first
/// `seen`; all of them where it has fewer than `seen`.
pub open spec fn new_lines(content: Seq<char>, seen: nat) -> Seq<Seq<char>> {
    let all = plain_lines(content);
    if all.len() < seen {
        all
    } else {
        all.skip(seen as int)
    }
}

/// Whether a text that starts inside a terminal code or not, as `in_code`
/// says, ends inside one.
pub open spec fn ends_in_code(s: Seq<char>, in_code: bool) -> bool
    decreases s.len(),
{
    if s.len() == 0 {
        in_code
    } else {
        let c = s[0];
        ends_in_code(s.skip(1), c == ESCAPE || (in_code && within_code(c)))
    }
}

/// Text after text loses its codes as the two do one after the other.
pub proof fn law_strip_concat(a: Seq<char>, b: Seq<char>, in_code: bool)
    ensures
        strip_codes(a + b, in_code) == strip_codes(a, in_code) + strip_codes(
            b,
            ends_in_code(a, in_code),
        ),
    decreases a.len(),
{
    if a.len() == 0 {
        assert(a + b =~= b);
        assert(strip_codes(a, in_code) + strip_codes(b, in_code) =~= strip_codes(b, in_code));
    } else {
        let c = a[0];
        let inside = c == ESCAPE || (in_code && within_code(c));
        assert((a + b).skip(1) =~= a.skip(1) + b);
        law_strip_concat(a.skip(1), b, inside);
        assert(strip_codes(a + b, in_code) =~= strip_codes(a, in_code) + strip_codes(
            b,
            ends_in_code(a, in_code),
        ));
    }
}

/// A whole terminal code: an escape character, what a code may hold, and the
/// letter that ends it.
pub open spec fn is_code(s: Seq<char>) -> bool {
    &&& s.len() >= 2
    &&& s[0] == ESCAPE
    &&& forall|i: int| 1 <= i < s.len() - 1 ==> within_code(#[trigger] s[i])
    &&& ends_code(s.last())
}

proof fn lemma_code_tail(s: Seq<char>)
    requires
        s.len() >= 1,
        forall|i: int| 0 <= i < s.len() - 1 ==> within_code(#[trigger] s[i]),
        ends_code(s.last()),
    ensures
        strip_codes(s, true) == Seq::<char>::empty(),
        !ends_in_code(s, true),
    decreases s.len(),
{
    if s.len() == 1 {
        assert(s[0] == s.last());
        assert(s.skip(1).len() == 0);
        assert(!ends_in_code(s.skip(1), false));
        assert(strip_codes(s.skip(1), false) =~= seq![]);
    } else {
        assert(within_code(s[0]));
        assert(s.skip(1).last() == s.last());
        lemma_code_tail(s.skip(1));
    }
}

/// A whole terminal code before a text leaves the text as it would be without.
pub proof fn law_code_goes(code: Seq<char>, text: Seq<char>)
    requires
        is_code(code),
    ensures
        strip_codes(code + text, false) == strip_codes(text, false),
        !ends_in_code(code, false),
{
    assert(code.skip(1).last() == code.last());
    lemma_code_tail(code.skip(1));
    law_strip_concat(code, text, false);
    assert(strip_codes(code, false) =~= seq![]);
    assert(seq![] + strip_codes(text, false) =~= strip_codes(text, false));
}

/// No escape character is left in a text without terminal codes.
pub proof fn law_stripped_has_no_escape(s: Seq<char>, in_code: bool)
    ensures
        forall|i: int|
            0 <= i < strip_codes(s, in_code).len() ==> #[trigger] strip_codes(s, in_code)[i]
                != ESCAPE,
    decreases s.len(),
{
    if s.len() > 0 {
        law_stripped_has_no_escape(s.skip(1), true);
        law_stripped_has_no_escape(s.skip(1), false);
        let kept = strip_codes(s.skip(1), false);
        let out = strip_codes(s, in_code);
        assert forall|i: int| 0 <= i < out.len() implies #[trigger] out[i] != ESCAPE by {
            if s[0] == ESCAPE || (in_code && within_code(s[0])) {
                assert(out[i] == strip_codes(s.skip(1), true)[i]);
            } else if in_code && ends_code(s[0]) {
                assert(out[i] == kept[i]);
            } else if i > 0 {
                assert(out[i] == kept[i - 1]);
            }
        }
    }
}

/// A text that holds no escape character stays as it is.
pub proof fn law_plain_text_stays(s: Seq<char>)
    requires
        forall|i: int| 0 <= i < s.len() ==> #[trigger] s[i] != ESCAPE,
    ensures
        strip_codes(s, false) == s,
        !ends_in_code(s, false),
    decreases s.len(),
{
    if s.len() > 0 {
        assert(s[0] != ESCAPE);
        assert forall|i: int| 0 <= i < s.skip(1).len() implies #[trigger] s.skip(1)[i] != ESCAPE by {
            assert(s.skip(1)[i] == s[i + 1]);
        }
        law_plain_text_stays(s.skip(1));
        assert(seq![s[0]] + s.skip(1) =~= s);
    }
}

/// Taking terminal codes out of a text a second time changes nothing.
pub proof fn law_strip_twice(s: Seq<char>)
    ensures
        strip_codes(strip_codes(s, false), false) == strip_codes(s, false),
{
    law_stripped_has_no_escape(s, false);
    law_plain_text_stays(strip_codes(s, false));
}

/// The lines of a text that ends with a line feed, and the lines of what
/// follows it, are the lines of the whole.
pub proof fn law_lines_concat(a: Seq<char>, b: Seq<char>)
    requires
        a.len() == 0 || a.last() == '\n',
    ensures
        lines(a + b) == lines(a) + lines(b),
    decreases a.len(),
{
    let stop = CharClass::Not('\n');
    if a.len() == 0 {
        assert(a + b =~= b);
        assert(lines(a) + lines(b) =~= lines(b));
    } else {
        let k = run_end(a, 0, stop);
        lemma_run_end(a, 0, stop);
        assert(k < a.len()) by {
            if k == a.len() {
                assert(stop.holds(a[a.len() - 1]));
            }
        }
        lemma_run_end_prefix(a, b, 0, stop);
        assert((a + b).take(k) =~= a.take(k));
        assert((a + b).skip(k + 1) =~= a.skip(k + 1) + b);
        if a.skip(k + 1).len() > 0 {
            assert(a.skip(k + 1).last() == a.last());
        }
        law_lines_concat(a.skip(k + 1), b);
        assert(lines(a + b) =~= lines(a) + lines(b));
    }
}

/// A run that ends inside `a` ends there in `a + b` too.
proof fn lemma_run_end_prefix(
    a: Seq<char>,
    b: Seq<char>,
    from: int,
    class: CharClass,
)
    requires
        0 <= from <= a.len(),
        run_end(a, from, class) < a.len(),
    ensures
        run_end(a + b, from, class) == run_end(a, from, class),
    decreases a.len() - from,
{
    if from < a.len() {
        assert((a + b)[from] == a[from]);
        if class.holds(a[from]) {
            lemma_run_end_prefix(a, b, from + 1, class);
        }
    }
}

/// A log that was read whole and then grew by whole lines gives, when it is
/// read again, the lines that it gained and no others.
pub proof fn law_new_lines_are_appended(seen: Seq<char>, added: Seq<char>)
    requires
        seen.len() == 0 || seen.last() == '\n',
    ensures
        new_lines(seen + added, lines(seen).len()) == plain_lines(added),
{
    law_lines_concat(seen, added);
    assert(new_lines(seen + added, lines(seen).len()) =~= plain_lines(added));
}

/// A log that has not changed since it was read whole has no new lines.
pub proof fn law_unchanged_log_has_no_new_lines(content: Seq<char>)
    ensures
        new_lines(content, lines(content).len()) == Seq::<Seq<char>>::empty(),
{
    assert(new_lines(content, lines(content).len()) =~= Seq::empty());
}

/// The window of the last lines is the same whether it is taken from all lines
/// or from a larger window.
pub proof fn law_window_of_window<T>(s: Seq<T>, larger: nat, smaller: nat)
    requires
        smaller <= larger,
    ensures
        last_n(last_n(s, larger), smaller) == last_n(s, smaller),
{
    assert(last_n(last_n(s, larger), smaller) =~= last_n(s, smaller));
}

} // verus!
