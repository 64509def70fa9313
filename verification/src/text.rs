//! Characters, words, lines and numbers: what the parsers are written in.
//!
//! A text is a sequence of characters. The functions here take character
//! slices and say over `Seq<char>` what they return.

use vstd::prelude::*;
use vstd::slice::slice_subrange;

verus! {

/// `String::push` of std: the character is appended at the end.
pub assume_specification[ String::push ](text: &mut String, c: char)
    ensures
        final(text)@ == old(text)@.push(c),
;

/// An ASCII decimal digit.
pub open spec fn is_digit(c: char) -> bool {
    '0' <= c && c <= '9'
}

/// A digit or a decimal point.
pub open spec fn is_digit_or_point(c: char) -> bool {
    is_digit(c) || c == '.'
}

/// A character with the Unicode property `White_Space`.
pub open spec fn is_space(c: char) -> bool {
    let u = c as u32;
    ||| 0x09 <= u <= 0x0d
    ||| u == 0x20
    ||| u == 0x85
    ||| u == 0xa0
    ||| u == 0x1680
    ||| 0x2000 <= u <= 0x200a
    ||| u == 0x2028
    ||| u == 0x2029
    ||| u == 0x202f
    ||| u == 0x205f
    ||| u == 0x3000
}

/// The number of bytes that a character takes in UTF-8.
pub open spec fn utf8_width(c: char) -> nat {
    let u = c as u32;
    if u < 0x80 {
        1
    } else if u < 0x800 {
        2
    } else if u < 0x10000 {
        3
    } else {
        4
    }
}

/// Every character takes one byte.
pub open spec fn all_ascii(s: Seq<char>) -> bool {
    forall|i: int| 0 <= i < s.len() ==> utf8_width(#[trigger] s[i]) == 1
}

pub fn digit(c: char) -> (r: bool)
    ensures
        r == is_digit(c),
{
    '0' <= c && c <= '9'
}

pub fn digit_or_point(c: char) -> (r: bool)
    ensures
        r == is_digit_or_point(c),
{
    digit(c) || c == '.'
}

pub fn space(c: char) -> (r: bool)
    ensures
        r == is_space(c),
{
    let u: u32 = c as u32;
    (0x09 <= u && u <= 0x0d) || u == 0x20 || u == 0x85 || u == 0xa0 || u == 0x1680 || (0x2000 <= u
        && u <= 0x200a) || u == 0x2028 || u == 0x2029 || u == 0x202f || u == 0x205f || u == 0x3000
}

pub fn width(c: char) -> (r: usize)
    ensures
        r == utf8_width(c),
        1 <= r <= 4,
{
    let u: u32 = c as u32;
    if u < 0x80 {
        1
    } else if u < 0x800 {
        2
    } else if u < 0x10000 {
        3
    } else {
        4
    }
}

/// The characters of a string.
pub fn chars_of(text: &str) -> (r: Vec<char>)
    ensures
        r@ == text@,
{
    let mut r: Vec<char> = Vec::new();
    for c in it: text.chars()
        invariant
            r@ == text@.take(it.index() as int),
            it.seq() == text@,
    {
        proof {
            assert(text@.take(it.index() as int + 1) =~= text@.take(it.index() as int).push(c));
        }
        r.push(c);
    }
    proof {
        assert(text@.take(text@.len() as int) =~= text@);
    }
    r
}

/// The string of some characters.
pub fn text_of(chars: &[char]) -> (r: String)
    ensures
        r@ == chars@,
{
    let mut r = String::new();
    let mut i: usize = 0;
    while i < chars.len()
        invariant
            i <= chars@.len(),
            r@ == chars@.take(i as int),
        decreases chars@.len() - i,
    {
        proof {
            assert(chars@.take(i as int + 1) =~= chars@.take(i as int).push(chars@[i as int]));
        }
        r.push(chars[i]);
        i += 1;
    }
    proof {
        assert(chars@.take(chars@.len() as int) =~= chars@);
    }
    r
}

// ---- searching ------------------------------------------------------------

/// `pattern` stands in `s` at position `i`.
pub open spec fn occurs_at(s: Seq<char>, pattern: Seq<char>, i: int) -> bool {
    0 <= i && i + pattern.len() <= s.len() && s.subrange(i, i + pattern.len()) == pattern
}

/// `pattern` stands somewhere in `s`.
pub open spec fn contains(s: Seq<char>, pattern: Seq<char>) -> bool {
    exists|i: int| occurs_at(s, pattern, i)
}

/// The first position, from `from` on, at which `pattern` stands in `s`.
pub open spec fn find_from(s: Seq<char>, pattern: Seq<char>, from: int) -> Option<int>
    decreases s.len() + 1 - from,
{
    if from + pattern.len() > s.len() {
        None
    } else if occurs_at(s, pattern, from) {
        Some(from)
    } else {
        find_from(s, pattern, from + 1)
    }
}

/// The first position at which `pattern` stands in `s`.
pub open spec fn find(s: Seq<char>, pattern: Seq<char>) -> Option<int> {
    find_from(s, pattern, 0)
}

/// The last position, up to `upto`, at which `pattern` stands in `s`.
pub open spec fn rfind_upto(s: Seq<char>, pattern: Seq<char>, upto: int) -> Option<int>
    decreases upto + 1,
{
    if upto < 0 {
        None
    } else if occurs_at(s, pattern, upto) {
        Some(upto)
    } else {
        rfind_upto(s, pattern, upto - 1)
    }
}

/// The last position at which `pattern` stands in `s`.
pub open spec fn rfind(s: Seq<char>, pattern: Seq<char>) -> Option<int> {
    rfind_upto(s, pattern, s.len() - pattern.len())
}

pub open spec fn starts_with(s: Seq<char>, prefix: Seq<char>) -> bool {
    occurs_at(s, prefix, 0)
}

/// What `find_from` returns is the first occurrence, and it returns nothing
/// only where there is none.
pub proof fn lemma_find_from(s: Seq<char>, pattern: Seq<char>, from: int)
    requires
        0 <= from,
    ensures
        find_from(s, pattern, from) matches Some(i) ==> {
            &&& from <= i
            &&& occurs_at(s, pattern, i)
            &&& forall|j: int| from <= j < i ==> !occurs_at(s, pattern, j)
        },
        find_from(s, pattern, from) is None ==> forall|j: int|
            from <= j ==> !occurs_at(s, pattern, j),
    decreases s.len() + 1 - from,
{
    if from + pattern.len() > s.len() {
    } else if occurs_at(s, pattern, from) {
    } else {
        lemma_find_from(s, pattern, from + 1);
    }
}

/// `find` returns the first occurrence, and nothing only where there is none.
pub proof fn law_find_is_first(s: Seq<char>, pattern: Seq<char>)
    ensures
        find(s, pattern) is Some <==> contains(s, pattern),
        find(s, pattern) matches Some(i) ==> {
            &&& occurs_at(s, pattern, i)
            &&& forall|j: int| 0 <= j < i ==> !occurs_at(s, pattern, j)
        },
{
    lemma_find_from(s, pattern, 0);
}

proof fn lemma_rfind_upto(s: Seq<char>, pattern: Seq<char>, upto: int)
    ensures
        rfind_upto(s, pattern, upto) matches Some(i) ==> {
            &&& i <= upto
            &&& occurs_at(s, pattern, i)
            &&& forall|j: int| i < j <= upto ==> !occurs_at(s, pattern, j)
        },
        rfind_upto(s, pattern, upto) is None ==> forall|j: int|
            j <= upto ==> !occurs_at(s, pattern, j),
    decreases upto + 1,
{
    if upto >= 0 && !occurs_at(s, pattern, upto) {
        lemma_rfind_upto(s, pattern, upto - 1);
    }
}

/// `rfind` returns the last occurrence, and nothing only where there is none.
pub proof fn law_rfind_is_last(s: Seq<char>, pattern: Seq<char>)
    ensures
        rfind(s, pattern) is Some <==> contains(s, pattern),
        rfind(s, pattern) matches Some(i) ==> {
            &&& occurs_at(s, pattern, i)
            &&& forall|j: int| i < j ==> !occurs_at(s, pattern, j)
        },
{
    lemma_rfind_upto(s, pattern, s.len() - pattern.len());
}

/// No copy of `p` can start inside another one.
pub open spec fn unbordered(p: Seq<char>) -> bool {
    forall|d: int| 0 < d < p.len() ==> #[trigger] p.skip(d) != p.take(p.len() - d)
}

/// A text whose first two characters do not come again, one after the other,
/// is unbordered.
pub proof fn lemma_unbordered(p: Seq<char>)
    requires
        forall|d: int|
            0 < d < p.len() ==> #[trigger] p[d] != p[0] || (d + 1 < p.len() && p[d + 1] != p[1]),
    ensures
        unbordered(p),
{
    assert forall|d: int| 0 < d < p.len() implies #[trigger] p.skip(d) != p.take(p.len() - d) by {
        if p.skip(d) == p.take(p.len() - d) {
            assert(p.skip(d)[0] == p.take(p.len() - d)[0]);
            assert(p[d] == p[0]);
            assert(p.skip(d)[1] == p.take(p.len() - d)[1]);
        }
    }
}

/// The first copy of a text is found where none stands before it.
pub proof fn lemma_find_split(head: Seq<char>, p: Seq<char>, tail: Seq<char>)
    requires
        p.len() > 0,
        unbordered(p),
        !contains(head, p),
    ensures
        find(head + p + tail, p) == Some(head.len() as int),
        (head + p + tail).skip(head.len() as int) == p + tail,
        (head + p + tail).skip((head.len() + p.len()) as int) == tail,
{
    let line = head + p + tail;
    let at = head.len() as int;
    let len = p.len() as int;
    law_find_is_first(line, p);
    assert(line.subrange(at, at + len) =~= p);
    assert(occurs_at(line, p, at));
    assert forall|i: int| 0 <= i < at implies !occurs_at(line, p, i) by {
        if occurs_at(line, p, i) {
            if i + len <= at {
                assert(head.subrange(i, i + len) =~= line.subrange(i, i + len));
                assert(occurs_at(head, p, i));
            } else {
                let d = at - i;
                let copy = line.subrange(i, i + len);
                assert(copy.skip(d) =~= p.take(len - d));
                assert(p.skip(d) != p.take(len - d));
            }
        }
    }
    assert(line.skip(at) =~= p + tail);
    assert(line.skip(at + len) =~= tail);
}

/// The last copy of a text is found where none stands after it.
pub proof fn lemma_rfind_split(head: Seq<char>, p: Seq<char>, tail: Seq<char>)
    requires
        p.len() > 0,
        unbordered(p),
        !contains(tail, p),
    ensures
        rfind(head + p + tail, p) == Some(head.len() as int),
{
    let line = head + p + tail;
    let at = head.len() as int;
    let len = p.len() as int;
    law_rfind_is_last(line, p);
    assert(line.subrange(at, at + len) =~= p);
    assert(occurs_at(line, p, at));
    assert forall|j: int| at < j implies !occurs_at(line, p, j) by {
        if occurs_at(line, p, j) {
            if j >= at + len {
                let k = j - at - len;
                assert(tail.subrange(k, k + len) =~= line.subrange(j, j + len));
                assert(occurs_at(tail, p, k));
            } else {
                let d = j - at;
                let copy = line.subrange(j, j + len);
                assert(copy.take(len - d) =~= p.skip(d));
                assert(p.skip(d) != p.take(len - d));
            }
        }
    }
}

/// Whether `pattern` stands in `s` at position `i`.
pub fn matches_at(s: &[char], pattern: &[char], i: usize) -> (r: bool)
    ensures
        r == occurs_at(s@, pattern@, i as int),
{
    let n: usize = s.len();
    if i > n || pattern.len() > n - i {
        return false;
    }
    let mut k: usize = 0;
    while k < pattern.len()
        invariant
            k <= pattern@.len(),
            n == s@.len(),
            i + pattern@.len() <= n,
            s@.subrange(i as int, i + k) =~= pattern@.take(k as int),
        decreases pattern@.len() - k,
    {
        if s[i + k] != pattern[k] {
            proof {
                assert(s@.subrange(i as int, i + pattern@.len())[k as int] != pattern@[k as int]);
            }
            return false;
        }
        k += 1;
    }
    proof {
        assert(pattern@.take(pattern@.len() as int) =~= pattern@);
    }
    true
}

/// The position of the first `pattern` in `s`.
pub fn position(s: &[char], pattern: &str) -> (r: Option<usize>)
    ensures
        r is Some <==> find(s@, pattern@) is Some,
        r matches Some(i) ==> find(s@, pattern@) == Some(i as int) && i + pattern@.len() <= s@.len(),
{
    let p = chars_of(pattern);
    let mut i: usize = 0;
    while i <= s.len() && p.len() <= s.len() - i
        invariant
            p@ == pattern@,
            i <= s@.len() + 1,
            find(s@, pattern@) == find_from(s@, pattern@, i as int),
        decreases s@.len() + 1 - i,
    {
        if matches_at(s, p.as_slice(), i) {
            return Some(i);
        }
        if i == s.len() {
            proof {
                assert(find_from(s@, pattern@, i as int + 1) is None);
            }
            return None;
        }
        i += 1;
    }
    None
}

/// The position of the last `pattern` in `s`.
pub fn last_position(s: &[char], pattern: &str) -> (r: Option<usize>)
    ensures
        r is Some <==> rfind(s@, pattern@) is Some,
        r matches Some(i) ==> rfind(s@, pattern@) == Some(i as int) && i + pattern@.len() <= s@.len(),
{
    let p = chars_of(pattern);
    if p.len() > s.len() {
        return None;
    }
    let mut i: usize = s.len() - p.len();
    loop
        invariant
            p@ == pattern@,
            i <= s@.len() - pattern@.len(),
            rfind(s@, pattern@) == rfind_upto(s@, pattern@, i as int),
        decreases i,
    {
        if matches_at(s, p.as_slice(), i) {
            return Some(i);
        }
        if i == 0 {
            proof {
                assert(rfind_upto(s@, pattern@, -1) is None);
            }
            return None;
        }
        i -= 1;
    }
}

/// Whether `pattern` stands somewhere in `s`.
pub fn mentions(s: &[char], pattern: &str) -> (r: bool)
    ensures
        r == contains(s@, pattern@),
{
    proof {
        law_find_is_first(s@, pattern@);
    }
    position(s, pattern).is_some()
}

/// Whether `s` starts with `prefix`.
pub fn has_prefix(s: &[char], prefix: &str) -> (r: bool)
    ensures
        r == starts_with(s@, prefix@),
{
    let p = chars_of(prefix);
    matches_at(s, p.as_slice(), 0)
}

/// Whether `s` holds the characters of `other` and no others.
pub fn same(s: &[char], other: &str) -> (r: bool)
    ensures
        r == (s@ == other@),
{
    let p = chars_of(other);
    if p.len() != s.len() {
        return false;
    }
    let r = matches_at(s, p.as_slice(), 0);
    proof {
        assert(s@.subrange(0, s@.len() as int) =~= s@);
    }
    r
}

/// Whether two strings hold the same characters.
pub fn same_text(a: &str, b: &str) -> (r: bool)
    ensures
        r == (a@ == b@),
{
    let s = chars_of(a);
    same(s.as_slice(), b)
}

// ---- runs of characters ---------------------------------------------------

/// A class of characters.
#[derive(Clone, Copy, Debug)]
pub enum CharClass {
    Space,
    NotSpace,
    Digit,
    NotDigit,
    DigitOrPoint,
    Is(char),
    Not(char),
}

impl CharClass {
    pub open spec fn holds(self, c: char) -> bool {
        match self {
            CharClass::Space => is_space(c),
            CharClass::NotSpace => !is_space(c),
            CharClass::Digit => is_digit(c),
            CharClass::NotDigit => !is_digit(c),
            CharClass::DigitOrPoint => is_digit_or_point(c),
            CharClass::Is(x) => c == x,
            CharClass::Not(x) => c != x,
        }
    }

    pub fn admits(self, c: char) -> (r: bool)
        ensures
            r == self.holds(c),
    {
        match self {
            CharClass::Space => space(c),
            CharClass::NotSpace => !space(c),
            CharClass::Digit => digit(c),
            CharClass::NotDigit => !digit(c),
            CharClass::DigitOrPoint => digit_or_point(c),
            CharClass::Is(x) => c == x,
            CharClass::Not(x) => c != x,
        }
    }
}

/// Where the run of characters of `class` that starts at `from` ends.
pub open spec fn run_end(s: Seq<char>, from: int, class: CharClass) -> int
    decreases s.len() - from,
{
    if from < s.len() && class.holds(s[from]) {
        run_end(s, from + 1, class)
    } else {
        from
    }
}

/// Where the run of characters of `class` that ends at `upto` starts.
pub open spec fn run_start(s: Seq<char>, upto: int, class: CharClass) -> int
    decreases upto,
{
    if 0 < upto && class.holds(s[upto - 1]) {
        run_start(s, upto - 1, class)
    } else {
        upto
    }
}

/// The characters of `class` in `s`, in order.
pub open spec fn only(s: Seq<char>, class: CharClass) -> Seq<char>
    decreases s.len(),
{
    if s.len() == 0 {
        seq![]
    } else if class.holds(s.last()) {
        only(s.drop_last(), class).push(s.last())
    } else {
        only(s.drop_last(), class)
    }
}

/// A run holds characters of the class alone, and a character of another
/// class or the end of the text follows it.
pub proof fn lemma_run_end(s: Seq<char>, from: int, class: CharClass)
    requires
        0 <= from <= s.len(),
    ensures
        from <= run_end(s, from, class) <= s.len(),
        forall|i: int| from <= i < run_end(s, from, class) ==> class.holds(#[trigger] s[i]),
        run_end(s, from, class) < s.len() ==> !class.holds(s[run_end(s, from, class)]),
    decreases s.len() - from,
{
    if from < s.len() && class.holds(s[from]) {
        lemma_run_end(s, from + 1, class);
    }
}

/// A run holds characters of the class alone, and a character of another
/// class or the start of the text comes before it.
pub proof fn lemma_run_start(s: Seq<char>, upto: int, class: CharClass)
    requires
        0 <= upto <= s.len(),
    ensures
        0 <= run_start(s, upto, class) <= upto,
        forall|i: int| run_start(s, upto, class) <= i < upto ==> class.holds(#[trigger] s[i]),
        run_start(s, upto, class) > 0 ==> !class.holds(s[run_start(s, upto, class) - 1]),
    decreases upto,
{
    if 0 < upto && class.holds(s[upto - 1]) {
        lemma_run_start(s, upto - 1, class);
    }
}

/// A run ends where the characters of its class do.
pub proof fn lemma_run_of(s: Seq<char>, from: int, end: int, class: CharClass)
    requires
        0 <= from <= end <= s.len(),
        forall|i: int| from <= i < end ==> class.holds(#[trigger] s[i]),
        end < s.len() ==> !class.holds(s[end]),
    ensures
        run_end(s, from, class) == end,
    decreases end - from,
{
    if from < end {
        lemma_run_of(s, from + 1, end, class);
    }
}

/// A run starts where the characters of its class do.
pub proof fn lemma_run_before(s: Seq<char>, start: int, upto: int, class: CharClass)
    requires
        0 <= start <= upto <= s.len(),
        forall|i: int| start <= i < upto ==> class.holds(#[trigger] s[i]),
        start > 0 ==> !class.holds(s[start - 1]),
    ensures
        run_start(s, upto, class) == start,
    decreases upto - start,
{
    if start < upto {
        lemma_run_before(s, start, upto - 1, class);
    }
}

/// The end of the run of `class` at `from`.
pub fn end_of_run(s: &[char], from: usize, class: CharClass) -> (r: usize)
    requires
        from <= s@.len(),
    ensures
        r == run_end(s@, from as int, class),
        from <= r <= s@.len(),
{
    let mut i: usize = from;
    while i < s.len() && class.admits(s[i])
        invariant
            from <= i <= s@.len(),
            run_end(s@, from as int, class) == run_end(s@, i as int, class),
        decreases s@.len() - i,
    {
        i += 1;
    }
    i
}

/// The start of the run of `class` before `upto`.
pub fn start_of_run(s: &[char], upto: usize, class: CharClass) -> (r: usize)
    requires
        upto <= s@.len(),
    ensures
        r == run_start(s@, upto as int, class),
        r <= upto,
{
    let mut i: usize = upto;
    while i > 0 && class.admits(s[i - 1])
        invariant
            i <= upto <= s@.len(),
            run_start(s@, upto as int, class) == run_start(s@, i as int, class),
        decreases i,
    {
        i -= 1;
    }
    i
}

/// The characters of `class` in `s`, in order.
pub fn keep(s: &[char], class: CharClass) -> (r: Vec<char>)
    ensures
        r@ == only(s@, class),
{
    let mut r: Vec<char> = Vec::new();
    let mut i: usize = 0;
    while i < s.len()
        invariant
            i <= s@.len(),
            r@ == only(s@.take(i as int), class),
        decreases s@.len() - i,
    {
        proof {
            assert(s@.take(i as int + 1).drop_last() =~= s@.take(i as int));
        }
        if class.admits(s[i]) {
            r.push(s[i]);
        }
        i += 1;
    }
    proof {
        assert(s@.take(s@.len() as int) =~= s@);
    }
    r
}

/// `s` without the white space at its start.
pub open spec fn trim_start(s: Seq<char>) -> Seq<char> {
    s.skip(run_end(s, 0, CharClass::Space))
}

/// `s` without the white space at its end.
pub open spec fn trim_end(s: Seq<char>) -> Seq<char> {
    s.take(run_start(s, s.len() as int, CharClass::Space))
}

/// `s` without the white space at its two ends.
pub open spec fn trim(s: Seq<char>) -> Seq<char> {
    trim_end(trim_start(s))
}

/// `s` without the characters `c` at its start.
pub open spec fn trim_start_char(s: Seq<char>, c: char) -> Seq<char> {
    s.skip(run_end(s, 0, CharClass::Is(c)))
}

/// `s` without the characters `c` at its end.
pub open spec fn trim_end_char(s: Seq<char>, c: char) -> Seq<char> {
    s.take(run_start(s, s.len() as int, CharClass::Is(c)))
}

/// `s` without the run of `class` at its start.
pub fn without_leading<'a>(s: &'a [char], class: CharClass) -> (r: &'a [char])
    ensures
        r@ == s@.skip(run_end(s@, 0, class)),
        r@.len() <= s@.len(),
{
    let k: usize = end_of_run(s, 0, class);
    let r = slice_subrange(s, k, s.len());
    proof {
        assert(s@.subrange(k as int, s@.len() as int) =~= s@.skip(k as int));
    }
    r
}

/// `s` without the run of `class` at its end.
pub fn without_trailing<'a>(s: &'a [char], class: CharClass) -> (r: &'a [char])
    ensures
        r@ == s@.take(run_start(s@, s@.len() as int, class)),
        r@.len() <= s@.len(),
{
    let k: usize = start_of_run(s, s.len(), class);
    let r = slice_subrange(s, 0, k);
    proof {
        assert(s@.subrange(0, k as int) =~= s@.take(k as int));
    }
    r
}

/// `s` without the white space at its two ends.
pub fn trimmed<'a>(s: &'a [char]) -> (r: &'a [char])
    ensures
        r@ == trim(s@),
{
    without_trailing(without_leading(s, CharClass::Space), CharClass::Space)
}

// ---- lines, fields and words ----------------------------------------------

/// What some character vectors hold.
pub open spec fn rows(v: Seq<Vec<char>>) -> Seq<Seq<char>> {
    Seq::new(v.len(), |i: int| v[i]@)
}

/// What some strings hold.
pub open spec fn texts(v: Seq<String>) -> Seq<Seq<char>> {
    Seq::new(v.len(), |i: int| v[i]@)
}

/// `line` without one carriage return at its end.
pub open spec fn chomp(line: Seq<char>) -> Seq<char> {
    if line.len() > 0 && line.last() == '\r' {
        line.drop_last()
    } else {
        line
    }
}

/// The lines of a text. A line ends with a line feed, which a carriage return
/// may come before; the last line may go without.
pub open spec fn lines(s: Seq<char>) -> Seq<Seq<char>>
    decreases s.len(),
{
    if s.len() == 0 {
        seq![]
    } else {
        let k = run_end(s, 0, CharClass::Not('\n'));
        if 0 <= k < s.len() {
            seq![chomp(s.take(k))] + lines(s.skip(k + 1))
        } else {
            seq![s]
        }
    }
}

/// The fields of a text that `separator` parts: one more than there are
/// separators.
pub open spec fn split(s: Seq<char>, separator: char) -> Seq<Seq<char>>
    decreases s.len(),
{
    let k = run_end(s, 0, CharClass::Not(separator));
    if 0 <= k < s.len() {
        seq![s.take(k)] + split(s.skip(k + 1), separator)
    } else {
        seq![s]
    }
}

/// The words of a text: its longest runs without white space.
pub open spec fn words(s: Seq<char>) -> Seq<Seq<char>>
    decreases s.len(),
{
    let start = run_end(s, 0, CharClass::Space);
    let end = run_end(s, start, CharClass::NotSpace);
    if 0 <= start < end <= s.len() {
        seq![s.subrange(start, end)] + words(s.skip(end))
    } else {
        seq![]
    }
}

/// The words of white space are none.
pub proof fn law_blank_has_no_words(s: Seq<char>)
    requires
        forall|i: int| 0 <= i < s.len() ==> is_space(#[trigger] s[i]),
    ensures
        words(s) == Seq::<Seq<char>>::empty(),
{
    lemma_run_of(s, 0, s.len() as int, CharClass::Space);
}

/// A word at the end of a text, white space around it, is the last of its
/// words, and the others are those of what comes before it.
pub proof fn law_last_word(before: Seq<char>, word: Seq<char>, gap: Seq<char>)
    requires
        before.len() == 0 || is_space(before.last()),
        word.len() > 0,
        forall|i: int| 0 <= i < word.len() ==> !is_space(#[trigger] word[i]),
        forall|i: int| 0 <= i < gap.len() ==> is_space(#[trigger] gap[i]),
    ensures
        words(before + word + gap) == words(before).push(word),
    decreases before.len(),
{
    let s = before + word + gap;
    let n = before.len() as int;
    let start = run_end(before, 0, CharClass::Space);
    lemma_run_end(before, 0, CharClass::Space);
    assert forall|i: int| 0 <= i < n implies s[i] == #[trigger] before[i] by {}
    assert forall|i: int| n <= i < n + word.len() implies !is_space(#[trigger] s[i]) by {
        assert(s[i] == word[i - n]);
    }
    assert forall|i: int| n + word.len() <= i < s.len() implies is_space(#[trigger] s[i]) by {
        assert(s[i] == gap[i - n - word.len()]);
    }
    if start == n {
        assert forall|i: int| 0 <= i < n implies is_space(#[trigger] s[i]) by {
            assert(CharClass::Space.holds(before[i]));
        }
        lemma_run_of(s, 0, n, CharClass::Space);
        lemma_run_of(s, n, n + word.len(), CharClass::NotSpace);
        assert(s.subrange(n, n + word.len()) =~= word);
        assert(s.skip(n + word.len()) =~= gap);
        law_blank_has_no_words(gap);
        assert(words(before) =~= Seq::<Seq<char>>::empty());
        assert(words(s) =~= words(before).push(word));
    } else {
        let end = run_end(before, start, CharClass::NotSpace);
        lemma_run_end(before, start, CharClass::NotSpace);
        assert(end < n) by {
            if end == n {
                assert(CharClass::NotSpace.holds(before[n - 1]));
            }
        }
        assert forall|i: int| 0 <= i < start implies CharClass::Space.holds(#[trigger] s[i]) by {
            assert(CharClass::Space.holds(before[i]));
        }
        assert forall|i: int| start <= i < end implies CharClass::NotSpace.holds(
            #[trigger] s[i],
        ) by {
            assert(CharClass::NotSpace.holds(before[i]));
        }
        lemma_run_of(s, 0, start, CharClass::Space);
        lemma_run_of(s, start, end, CharClass::NotSpace);
        assert(s.subrange(start, end) =~= before.subrange(start, end));
        let rest = before.skip(end);
        assert(s.skip(end) =~= rest + word + gap);
        assert(rest.last() == before.last());
        law_last_word(rest, word, gap);
        assert(words(s) =~= words(before).push(word));
    }
}

/// The words of a text are those of its parts, where white space or nothing
/// parts the two.
pub proof fn law_words_concat(a: Seq<char>, b: Seq<char>)
    requires
        a.len() == 0 || b.len() == 0 || is_space(a.last()) || is_space(b[0]),
    ensures
        words(a + b) == words(a) + words(b),
    decreases a.len(),
{
    let s = a + b;
    let n = a.len() as int;
    let start = run_end(a, 0, CharClass::Space);
    lemma_run_end(a, 0, CharClass::Space);
    assert forall|i: int| 0 <= i < n implies s[i] == #[trigger] a[i] by {}
    if b.len() == 0 {
        assert(s =~= a);
        assert(words(b) =~= Seq::<Seq<char>>::empty());
        assert(words(a) + words(b) =~= words(a));
    } else if start == n {
        let more = run_end(b, 0, CharClass::Space);
        let end = run_end(b, more, CharClass::NotSpace);
        lemma_run_end(b, 0, CharClass::Space);
        lemma_run_end(b, more, CharClass::NotSpace);
        assert forall|i: int| n <= i < s.len() implies s[i] == #[trigger] b[i - n] by {}
        assert forall|i: int| 0 <= i < n + more implies CharClass::Space.holds(#[trigger] s[i]) by {
            if i < n {
                assert(CharClass::Space.holds(a[i]));
            } else {
                assert(CharClass::Space.holds(b[i - n]));
            }
        }
        if more < b.len() {
            assert(s[n + more] == b[more]);
        }
        lemma_run_of(s, 0, n + more, CharClass::Space);
        assert forall|i: int| n + more <= i < n + end implies CharClass::NotSpace.holds(
            #[trigger] s[i],
        ) by {
            assert(CharClass::NotSpace.holds(b[i - n]));
        }
        if end < b.len() {
            assert(s[n + end] == b[end]);
        }
        lemma_run_of(s, n + more, n + end, CharClass::NotSpace);
        assert(s.subrange(n + more, n + end) =~= b.subrange(more, end));
        assert(s.skip(n + end) =~= b.skip(end));
        assert(words(a) =~= Seq::<Seq<char>>::empty());
        assert(words(a) + words(b) =~= words(b));
    } else {
        let end = run_end(a, start, CharClass::NotSpace);
        lemma_run_end(a, start, CharClass::NotSpace);
        assert forall|i: int| 0 <= i < start implies CharClass::Space.holds(#[trigger] s[i]) by {
            assert(CharClass::Space.holds(a[i]));
        }
        assert forall|i: int| start <= i < end implies CharClass::NotSpace.holds(
            #[trigger] s[i],
        ) by {
            assert(CharClass::NotSpace.holds(a[i]));
        }
        if end == n {
            assert(CharClass::NotSpace.holds(a[n - 1]));
            assert(s[n] == b[0]);
        }
        lemma_run_of(s, 0, start, CharClass::Space);
        lemma_run_of(s, start, end, CharClass::NotSpace);
        assert(s.subrange(start, end) =~= a.subrange(start, end));
        let rest = a.skip(end);
        assert(s.skip(end) =~= rest + b);
        if rest.len() > 0 {
            assert(rest.last() == a.last());
        }
        law_words_concat(rest, b);
        assert(words(s) =~= words(a) + words(b));
    }
}

/// A text without white space is one word.
pub proof fn law_one_word(word: Seq<char>)
    requires
        word.len() > 0,
        forall|i: int| 0 <= i < word.len() ==> !is_space(#[trigger] word[i]),
    ensures
        words(word) == seq![word],
{
    let empty = Seq::<char>::empty();
    law_last_word(empty, word, empty);
    law_blank_has_no_words(empty);
    assert(empty + word + empty =~= word);
    assert(words(empty).push(word) =~= seq![word]);
}

/// The words of a text hold characters of the text alone.
pub proof fn lemma_words_hold(s: Seq<char>, class: CharClass)
    requires
        forall|i: int| 0 <= i < s.len() ==> class.holds(#[trigger] s[i]),
    ensures
        forall|k: int, i: int|
            0 <= k < words(s).len() && 0 <= i < words(s)[k].len() ==> class.holds(
                #[trigger] words(s)[k][i],
            ),
    decreases s.len(),
{
    let start = run_end(s, 0, CharClass::Space);
    let end = run_end(s, start, CharClass::NotSpace);
    if 0 <= start < end <= s.len() {
        let rest = s.skip(end);
        assert forall|i: int| 0 <= i < rest.len() implies class.holds(#[trigger] rest[i]) by {
            assert(rest[i] == s[end + i]);
        }
        lemma_words_hold(rest, class);
        assert(words(s) =~= seq![s.subrange(start, end)] + words(rest));
        assert forall|k: int, i: int|
            0 <= k < words(s).len() && 0 <= i < words(s)[k].len() implies class.holds(
            #[trigger] words(s)[k][i],
        ) by {
            if k > 0 {
                assert(words(s)[k] == words(rest)[k - 1]);
                assert(class.holds(words(rest)[k - 1][i]));
            } else {
                assert(words(s)[0][i] == s[start + i]);
            }
        }
    }
}

/// The characters of a class are all of a text that holds no others.
pub proof fn law_only_keeps_its_class(s: Seq<char>, class: CharClass)
    requires
        forall|i: int| 0 <= i < s.len() ==> class.holds(#[trigger] s[i]),
    ensures
        only(s, class) == s,
    decreases s.len(),
{
    if s.len() > 0 {
        assert forall|i: int| 0 <= i < s.drop_last().len() implies class.holds(
            #[trigger] s.drop_last()[i],
        ) by {
            assert(class.holds(s[i]));
        }
        law_only_keeps_its_class(s.drop_last(), class);
        assert(class.holds(s[s.len() - 1]));
        assert(only(s, class) =~= s);
    } else {
        assert(only(s, class) =~= s);
    }
}

/// The characters of a class are none of a text that holds only others.
pub proof fn law_only_drops_others(s: Seq<char>, class: CharClass)
    requires
        forall|i: int| 0 <= i < s.len() ==> !class.holds(#[trigger] s[i]),
    ensures
        only(s, class) == Seq::<char>::empty(),
    decreases s.len(),
{
    if s.len() > 0 {
        assert forall|i: int| 0 <= i < s.drop_last().len() implies !class.holds(
            #[trigger] s.drop_last()[i],
        ) by {
            assert(!class.holds(s[i]));
        }
        law_only_drops_others(s.drop_last(), class);
        assert(!class.holds(s[s.len() - 1]));
    }
}

/// The characters of a class of a text are those of its parts.
pub proof fn law_only_concat(a: Seq<char>, b: Seq<char>, class: CharClass)
    ensures
        only(a + b, class) == only(a, class) + only(b, class),
    decreases b.len(),
{
    if b.len() == 0 {
        assert(a + b =~= a);
        assert(only(a, class) + only(b, class) =~= only(a, class));
    } else {
        assert((a + b).drop_last() =~= a + b.drop_last());
        assert((a + b).last() == b.last());
        law_only_concat(a, b.drop_last(), class);
        assert(only(a + b, class) =~= only(a, class) + only(b, class));
    }
}

/// The lines of a text.
pub fn split_lines(s: &[char]) -> (r: Vec<Vec<char>>)
    ensures
        rows(r@) == lines(s@),
{
    let mut r: Vec<Vec<char>> = Vec::new();
    let mut start: usize = 0;
    proof {
        assert(s@.skip(0) =~= s@);
        assert(rows(r@) + lines(s@) =~= lines(s@));
    }
    while start < s.len()
        invariant
            start <= s@.len(),
            rows(r@) + lines(s@.skip(start as int)) == lines(s@),
        decreases s@.len() - start,
    {
        let rest = slice_subrange(s, start, s.len());
        let ghost before = r@;
        proof {
            assert(rest@ =~= s@.skip(start as int));
        }
        let k: usize = end_of_run(rest, 0, CharClass::Not('\n'));
        if k < rest.len() {
            let line = if k > 0 && rest[k - 1] == '\r' {
                slice_subrange(rest, 0, k - 1)
            } else {
                slice_subrange(rest, 0, k)
            };
            proof {
                assert(line@ =~= chomp(rest@.take(k as int)));
                assert(rest@.skip(k + 1) =~= s@.skip(start + k + 1));
            }
            r.push(vstd::slice::slice_to_vec(line));
            proof {
                assert(rows(r@) =~= rows(before).push(line@));
                assert(rows(r@) + lines(s@.skip(start + k + 1)) =~= rows(before) + (seq![line@]
                    + lines(rest@.skip(k + 1))));
            }
            start = start + k + 1;
        } else {
            r.push(vstd::slice::slice_to_vec(rest));
            proof {
                assert(rows(r@) =~= rows(before).push(rest@));
                assert(s@.skip(s@.len() as int).len() == 0);
                assert(rows(r@) + lines(s@.skip(s@.len() as int)) =~= rows(before) + seq![rest@]);
            }
            start = s.len();
        }
    }
    proof {
        assert(s@.skip(s@.len() as int).len() == 0);
        assert(rows(r@) + lines(s@.skip(s@.len() as int)) =~= rows(r@));
    }
    r
}

/// The fields of a text that `separator` parts.
pub fn split_fields(s: &[char], separator: char) -> (r: Vec<Vec<char>>)
    ensures
        rows(r@) == split(s@, separator),
{
    let mut r: Vec<Vec<char>> = Vec::new();
    let mut start: usize = 0;
    proof {
        assert(s@.skip(0) =~= s@);
        assert(rows(r@) + split(s@, separator) =~= split(s@, separator));
    }
    loop
        invariant
            start <= s@.len(),
            rows(r@) + split(s@.skip(start as int), separator) == split(s@, separator),
        decreases s@.len() - start,
    {
        let rest = slice_subrange(s, start, s.len());
        let ghost before = r@;
        proof {
            assert(rest@ =~= s@.skip(start as int));
        }
        let k: usize = end_of_run(rest, 0, CharClass::Not(separator));
        if k < rest.len() {
            let field = slice_subrange(rest, 0, k);
            proof {
                assert(field@ =~= rest@.take(k as int));
                assert(rest@.skip(k + 1) =~= s@.skip(start + k + 1));
            }
            r.push(vstd::slice::slice_to_vec(field));
            proof {
                assert(rows(r@) =~= rows(before).push(field@));
                assert(rows(r@) + split(s@.skip(start + k + 1), separator) =~= rows(before) + (seq![
                    field@,
                ] + split(rest@.skip(k + 1), separator)));
            }
            start = start + k + 1;
        } else {
            r.push(vstd::slice::slice_to_vec(rest));
            proof {
                assert(rows(r@) =~= rows(before) + seq![rest@]);
            }
            return r;
        }
    }
}

/// The words of a text.
pub fn split_words(s: &[char]) -> (r: Vec<Vec<char>>)
    ensures
        rows(r@) == words(s@),
{
    let mut r: Vec<Vec<char>> = Vec::new();
    let mut done: usize = 0;
    proof {
        assert(s@.skip(0) =~= s@);
        assert(rows(r@) + words(s@) =~= words(s@));
    }
    loop
        invariant
            done <= s@.len(),
            rows(r@) + words(s@.skip(done as int)) == words(s@),
        decreases s@.len() - done,
    {
        let rest = slice_subrange(s, done, s.len());
        let ghost before = r@;
        proof {
            assert(rest@ =~= s@.skip(done as int));
        }
        let start: usize = end_of_run(rest, 0, CharClass::Space);
        let end: usize = end_of_run(rest, start, CharClass::NotSpace);
        if start < end {
            let word = slice_subrange(rest, start, end);
            proof {
                assert(rest@.skip(end as int) =~= s@.skip(done + end));
            }
            r.push(vstd::slice::slice_to_vec(word));
            proof {
                assert(rows(r@) =~= rows(before).push(word@));
                assert(rows(r@) + words(s@.skip(done + end)) =~= rows(before) + (seq![word@]
                    + words(rest@.skip(end as int))));
            }
            done = done + end;
        } else {
            proof {
                assert(rows(r@) + words(rest@) =~= rows(r@));
            }
            return r;
        }
    }
}

// ---- byte positions -------------------------------------------------------

/// The position of the character that starts `bytes` bytes after the start of
/// the character at `from`, in UTF-8; none where those bytes end inside a
/// character or after the text.
pub open spec fn char_at_byte(s: Seq<char>, from: int, bytes: int) -> Option<int>
    decreases s.len() - from,
{
    if bytes == 0 {
        Some(from)
    } else if from >= s.len() || bytes < utf8_width(s[from]) {
        None
    } else {
        char_at_byte(s, from + 1, bytes - utf8_width(s[from]))
    }
}

/// The characters in bytes `start..end` of a text, in UTF-8; none where either
/// end falls inside a character or after the text.
pub open spec fn byte_slice(s: Seq<char>, start: int, end: int) -> Option<Seq<char>> {
    match (char_at_byte(s, 0, start), char_at_byte(s, 0, end)) {
        (Some(i), Some(j)) => Some(s.subrange(i, j)),
        _ => None,
    }
}

proof fn lemma_char_at_byte_bounds(s: Seq<char>, from: int, bytes: int)
    requires
        0 <= from <= s.len(),
        0 <= bytes,
    ensures
        char_at_byte(s, from, bytes) matches Some(i) ==> from <= i <= s.len() && i - from <= bytes,
    decreases s.len() - from,
{
    if bytes > 0 && from < s.len() && bytes >= utf8_width(s[from]) {
        lemma_char_at_byte_bounds(s, from + 1, bytes - utf8_width(s[from]));
    }
}

proof fn lemma_char_at_byte_order(s: Seq<char>, from: int, a: int, b: int)
    requires
        0 <= from <= s.len(),
        0 <= a <= b,
    ensures
        char_at_byte(s, from, a) matches Some(i) ==> (char_at_byte(s, from, b) matches Some(j)
            ==> i <= j),
    decreases s.len() - from,
{
    if a > 0 && from < s.len() && a >= utf8_width(s[from]) {
        lemma_char_at_byte_order(s, from + 1, a - utf8_width(s[from]), b - utf8_width(s[from]));
    } else {
        lemma_char_at_byte_bounds(s, from, b);
    }
}

proof fn lemma_char_at_byte_ascii(s: Seq<char>, from: int, bytes: int)
    requires
        0 <= from,
        0 <= bytes,
        from + bytes <= s.len(),
        all_ascii(s.take(from + bytes)),
    ensures
        char_at_byte(s, from, bytes) == Some(from + bytes),
    decreases bytes,
{
    if bytes > 0 {
        assert(s.take(from + bytes)[from] == s[from]);
        lemma_char_at_byte_ascii(s, from + 1, bytes - 1);
    }
}

/// Where one-byte characters alone come before its end, a slice by bytes is
/// the slice by characters.
pub proof fn lemma_byte_slice_ascii(s: Seq<char>, start: int, end: int)
    requires
        0 <= start <= end <= s.len(),
        all_ascii(s.take(end)),
    ensures
        byte_slice(s, start, end) == Some(s.subrange(start, end)),
{
    assert forall|i: int| 0 <= i < start implies utf8_width(#[trigger] s.take(start)[i]) == 1 by {
        assert(s.take(end)[i] == s[i]);
    }
    lemma_char_at_byte_ascii(s, 0, start);
    lemma_char_at_byte_ascii(s, 0, end);
}

/// The position of the character that starts at byte `bytes`.
pub fn char_position(s: &[char], bytes: usize) -> (r: Option<usize>)
    ensures
        r is Some <==> char_at_byte(s@, 0, bytes as int) is Some,
        r matches Some(i) ==> char_at_byte(s@, 0, bytes as int) == Some(i as int) && i <= s@.len(),
{
    let mut i: usize = 0;
    let mut left: usize = bytes;
    while left > 0
        invariant
            i <= s@.len(),
            char_at_byte(s@, 0, bytes as int) == char_at_byte(s@, i as int, left as int),
        decreases left,
    {
        if i >= s.len() {
            return None;
        }
        let w: usize = width(s[i]);
        if left < w {
            return None;
        }
        left -= w;
        i += 1;
    }
    Some(i)
}

/// The characters in bytes `start..end`.
pub fn slice_bytes<'a>(s: &'a [char], start: usize, end: usize) -> (r: Option<&'a [char]>)
    requires
        start <= end,
    ensures
        r is Some <==> byte_slice(s@, start as int, end as int) is Some,
        r matches Some(t) ==> byte_slice(s@, start as int, end as int) == Some(t@),
{
    proof {
        lemma_char_at_byte_order(s@, 0, start as int, end as int);
    }
    match (char_position(s, start), char_position(s, end)) {
        (Some(i), Some(j)) => Some(slice_subrange(s, i, j)),
        _ => None,
    }
}

} // verus!
