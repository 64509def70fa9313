//! Where lines stand on the screen, and when the screen has to be drawn again.

use vstd::prelude::*;

use crate::color::{colored, format_colored, Color};
use crate::gpu::{all_numbers, gpu_list_eq, law_gpu_comparison, same_gpus, GpuInfo};
use crate::number::{decimal, push_decimal};
use crate::reading::Real;
use crate::render::{clear_rest, cleared, ended, println_line, repeat, repeated};
use crate::text::{same_text, texts};
use crate::timing::text_view;

verus! {

/// A text and the row that it starts in.
#[derive(Debug)]
pub struct Row {
    pub row: u16,
    pub text: String,
}

/// A text and the row that it starts in.
pub struct RowView {
    pub row: int,
    pub text: Seq<char>,
}

impl View for Row {
    type V = RowView;

    open spec fn view(&self) -> RowView {
        RowView { row: self.row as int, text: self.text@ }
    }
}

pub open spec fn row_views(rows: Seq<Row>) -> Seq<RowView> {
    Seq::new(rows.len(), |i: int| rows[i]@)
}

// ---- placing lines --------------------------------------------------------

/// Lines in one row after the other, from `y` on.
pub open spec fn placed(lines: Seq<Seq<char>>, y: int) -> Seq<RowView> {
    Seq::new(lines.len(), |i: int| RowView { row: y + i, text: lines[i] })
}

/// Lines in every second row, from `y` on, each with the rest of its row
/// cleared.
pub open spec fn spaced(lines: Seq<Seq<char>>, y: int) -> Seq<RowView> {
    Seq::new(lines.len(), |i: int| RowView { row: y + 2 * i, text: cleared(lines[i]) })
}

/// Lines in one row after the other, from `y` on; the row after them comes
/// with them.
pub fn place(lines: &[String], y: u16) -> (r: (Vec<Row>, u16))
    requires
        y + lines@.len() <= u16::MAX,
    ensures
        row_views(r.0@) == placed(texts(lines@), y as int),
        r.1 == y + lines@.len(),
{
    let mut rows: Vec<Row> = Vec::new();
    let mut row: u16 = y;
    let mut i: usize = 0;
    while i < lines.len()
        invariant
            i <= lines@.len(),
            y + lines@.len() <= u16::MAX,
            row == y + i,
            rows@.len() == i,
            forall|k: int|
                0 <= k < i ==> (#[trigger] rows@[k])@ == (RowView {
                    row: y + k,
                    text: lines@[k]@,
                }),
        decreases lines@.len() - i,
    {
        rows.push(Row { row, text: lines[i].clone() });
        row += 1;
        i += 1;
    }
    proof {
        assert(row_views(rows@) =~= placed(texts(lines@), y as int));
    }
    (rows, row)
}

/// Lines in every second row, from `y` on, each with the rest of its row
/// cleared; the row after them comes with them.
pub fn place_spaced(lines: &[String], y: u16) -> (r: (Vec<Row>, u16))
    requires
        y + 2 * lines@.len() <= u16::MAX,
    ensures
        row_views(r.0@) == spaced(texts(lines@), y as int),
        r.1 == y + 2 * lines@.len(),
{
    let mut rows: Vec<Row> = Vec::new();
    let mut row: u16 = y;
    let mut i: usize = 0;
    while i < lines.len()
        invariant
            i <= lines@.len(),
            y + 2 * lines@.len() <= u16::MAX,
            row == y + 2 * i,
            rows@.len() == i,
            forall|k: int|
                0 <= k < i ==> (#[trigger] rows@[k])@ == (RowView {
                    row: y + 2 * k,
                    text: cleared(lines@[k]@),
                }),
        decreases lines@.len() - i,
    {
        rows.push(Row { row, text: clear_rest(lines[i].as_str()) });
        row += 2;
        i += 1;
    }
    proof {
        assert(row_views(rows@) =~= spaced(texts(lines@), y as int));
    }
    (rows, row)
}

fn push_row(rows: &mut Vec<Row>, row: Row)
    ensures
        row_views(final(rows)@) == row_views(old(rows)@).push(row@),
{
    rows.push(row);
    proof {
        assert(row_views(rows@) =~= row_views(old(rows)@).push(row@));
    }
}

pub(crate) fn push_rows(rows: &mut Vec<Row>, more: Vec<Row>)
    ensures
        row_views(final(rows)@) == row_views(old(rows)@) + row_views(more@),
{
    let mut rest = more;
    rows.append(&mut rest);
    proof {
        assert(row_views(rows@) =~= row_views(old(rows)@) + row_views(more@));
    }
}

// ---- slots ----------------------------------------------------------------

/// The heading of a slot.
pub open spec fn slot_heading(slot: nat, all_idle: bool) -> Seq<char> {
    if all_idle {
        colored(Color::Grey, "SLOT "@ + decimal(slot) + " BARS  \u{2014}  IDLE"@)
    } else {
        colored(Color::Yellow, "SLOT "@ + decimal(slot) + " BARS"@)
    }
}

/// The rows of a slot, from `y` on: its heading, its bars in every second row,
/// and an empty row.
pub open spec fn slot_rows(slot: nat, all_idle: bool, bars: Seq<Seq<char>>, y: int) -> Seq<RowView> {
    seq![RowView { row: y, text: ended(slot_heading(slot, all_idle)) }] + spaced(bars, y + 1) + seq![
        RowView { row: y + 1 + 2 * bars.len(), text: ended(seq![]) },
    ]
}

/// The row after the first `n` slots.
pub open spec fn slots_end(n: nat, bars: Seq<Seq<Seq<char>>>, y: int) -> int
    decreases n,
{
    if n == 0 {
        y
    } else {
        slots_end((n - 1) as nat, bars, y) + 2 + 2 * bars[n - 1].len()
    }
}

/// The rows of the first `n` slots, from `y` on.
pub open spec fn slots_rows(n: nat, all_idle: bool, bars: Seq<Seq<Seq<char>>>, y: int) -> Seq<
    RowView,
>
    decreases n,
{
    if n == 0 {
        seq![]
    } else {
        slots_rows((n - 1) as nat, all_idle, bars, y) + slot_rows(
            (n - 1) as nat,
            all_idle,
            bars[n - 1],
            slots_end((n - 1) as nat, bars, y),
        )
    }
}

pub open spec fn bar_table(bars: Seq<Vec<String>>) -> Seq<Seq<Seq<char>>> {
    Seq::new(bars.len(), |i: int| texts(bars[i]@))
}

pub proof fn lemma_slots_end_grows(n: nat, m: nat, bars: Seq<Seq<Seq<char>>>, y: int)
    requires
        n <= m,
    ensures
        slots_end(n, bars, y) <= slots_end(m, bars, y),
    decreases m,
{
    if n < m {
        lemma_slots_end_grows(n, (m - 1) as nat, bars, y);
    }
}

fn heading_text(slot: usize, all_idle: bool) -> (r: String)
    ensures
        r@ == slot_heading(slot as nat, all_idle),
{
    let mut label = "SLOT ".to_string();
    push_decimal(&mut label, slot as u64);
    if all_idle {
        label.append(" BARS  \u{2014}  IDLE");
        format_colored(Color::Grey, label.as_str())
    } else {
        label.append(" BARS");
        format_colored(Color::Yellow, label.as_str())
    }
}

/// The row after all slots, where the screen has one for it.
pub fn slots_fit(bars: &Vec<Vec<String>>, y: u16) -> (r: Option<u16>)
    ensures
        match r {
            Some(end) => slots_end(bars@.len(), bar_table(bars@), y + 1) == end,
            None => slots_end(bars@.len(), bar_table(bars@), y + 1) > u16::MAX,
        },
{
    let ghost table = bar_table(bars@);
    if y == u16::MAX {
        proof {
            lemma_slots_end_grows(0, table.len(), table, y + 1);
        }
        return None;
    }
    let mut row: u16 = y + 1;
    let mut i: usize = 0;
    while i < bars.len()
        invariant
            i <= bars@.len(),
            table == bar_table(bars@),
            row == slots_end(i as nat, table, y + 1),
        decreases bars@.len() - i,
    {
        let room: usize = (u16::MAX - row) as usize;
        let len: usize = bars[i].len();
        proof {
            assert(table[i as int].len() == len);
            lemma_slots_end_grows((i + 1) as nat, table.len(), table, y + 1);
            assert(slots_end((i + 1) as nat, table, y + 1) == row + 2 + 2 * len);
        }
        if room < 2 || len > (room - 2) / 2 {
            return None;
        }
        row = row + 2 + 2 * (len as u16);
        i += 1;
    }
    Some(row)
}

/// The rows of the slots, from the row after `y` on; the row after them comes
/// with them.
pub fn render_slot_bars(bars: &Vec<Vec<String>>, all_idle: bool, y: u16) -> (r: (Vec<Row>, u16))
    requires
        slots_end(bars@.len(), bar_table(bars@), y + 1) <= u16::MAX,
    ensures
        row_views(r.0@) == slots_rows(bars@.len(), all_idle, bar_table(bars@), y + 1),
        r.1 == slots_end(bars@.len(), bar_table(bars@), y + 1),
{
    let ghost table = bar_table(bars@);
    proof {
        lemma_slots_end_grows(0, table.len(), table, y + 1);
        reveal_strlit("");
        assert(""@ =~= seq![]);
    }
    let mut rows: Vec<Row> = Vec::new();
    let mut row: u16 = y + 1;
    let mut i: usize = 0;
    proof {
        assert(row_views(rows@) =~= seq![]);
    }
    while i < bars.len()
        invariant
            i <= bars@.len(),
            table == bar_table(bars@),
            slots_end(bars@.len(), table, y + 1) <= u16::MAX,
            row == slots_end(i as nat, table, y + 1),
            row_views(rows@) == slots_rows(i as nat, all_idle, table, y + 1),
            ""@ == Seq::<char>::empty(),
        decreases bars@.len() - i,
    {
        let ghost before = row_views(rows@);
        let ghost at = row as int;
        proof {
            assert(table[i as int] == texts(bars@[i as int]@));
            assert(texts(bars@[i as int]@).len() == bars@[i as int]@.len());
            lemma_slots_end_grows((i + 1) as nat, table.len(), table, y + 1);
            assert(slots_end((i + 1) as nat, table, y + 1) == row + 2 + 2 * bars@[i as int]@.len());
        }
        let heading = println_line(heading_text(i, all_idle).as_str());
        push_row(&mut rows, Row { row, text: heading });
        let (block, next) = place_spaced(bars[i].as_slice(), row + 1);
        push_rows(&mut rows, block);
        push_row(&mut rows, Row { row: next, text: println_line("") });
        proof {
            assert(row_views(rows@) =~= before + slot_rows(
                i as nat,
                all_idle,
                table[i as int],
                at,
            ));
        }
        row = next + 1;
        i += 1;
    }
    (rows, row)
}

/// Rows stand one below the other, each from `y` to the row before `end`.
pub open spec fn go_down(rows: Seq<RowView>, y: int, end: int) -> bool {
    &&& y <= end
    &&& forall|i: int| 0 <= i < rows.len() ==> y <= (#[trigger] rows[i]).row < end
    &&& forall|i: int, j: int|
        0 <= i < j < rows.len() ==> (#[trigger] rows[i]).row < (#[trigger] rows[j]).row
}

/// Rows below rows that stand one below the other do so too.
pub proof fn lemma_go_down(a: Seq<RowView>, b: Seq<RowView>, y: int, middle: int, end: int)
    requires
        go_down(a, y, middle),
        go_down(b, middle, end),
    ensures
        go_down(a + b, y, end),
{
    let all = a + b;
    assert forall|i: int| 0 <= i < all.len() implies y <= (#[trigger] all[i]).row < end by {
        if i < a.len() {
            assert(all[i] == a[i]);
        } else {
            assert(all[i] == b[i - a.len()]);
        }
    }
    assert forall|i: int, j: int| 0 <= i < j < all.len() implies (#[trigger] all[i]).row < (
    #[trigger] all[j]).row by {
        if j < a.len() {
            assert(all[i] == a[i] && all[j] == a[j]);
        } else if i < a.len() {
            assert(all[i] == a[i] && all[j] == b[j - a.len()]);
        } else {
            assert(all[i] == b[i - a.len()] && all[j] == b[j - a.len()]);
        }
    }
}

/// The rows of the slots stand one below the other.
pub proof fn law_slot_rows_go_down(n: nat, all_idle: bool, bars: Seq<Seq<Seq<char>>>, y: int)
    ensures
        go_down(slots_rows(n, all_idle, bars, y), y, slots_end(n, bars, y)),
    decreases n,
{
    if n > 0 {
        let m = (n - 1) as nat;
        let at = slots_end(m, bars, y);
        law_slot_rows_go_down(m, all_idle, bars, y);
        assert(go_down(slot_rows(m, all_idle, bars[n - 1], at), at, slots_end(n, bars, y)));
        lemma_go_down(
            slots_rows(m, all_idle, bars, y),
            slot_rows(m, all_idle, bars[n - 1], at),
            y,
            at,
            slots_end(n, bars, y),
        );
    }
}

// ---- leftovers ------------------------------------------------------------

/// The width of the blank that goes over a row of the frame before.
pub const BLANK_WIDTH: usize = 120;

/// The rows that a frame leaves over, and clears: those from the first to the
/// one before the second. They go from the end `y` of the frame to that of the
/// terminal, or to that of the frame before where the terminal's height is not
/// known.
pub open spec fn leftover(y: u16, height: Option<u16>, prev_height: u16) -> (u16, u16) {
    match height {
        Some(h) => (if y > h { h } else { y }, h),
        None => (y, prev_height),
    }
}

/// A blank in each row from `first` to the one before `end`.
pub open spec fn blank_rows(first: int, end: int) -> Seq<RowView> {
    Seq::new(
        if end > first { (end - first) as nat } else { 0 },
        |i: int| RowView { row: first + i, text: cleared(repeated(' ', BLANK_WIDTH as nat)) },
    )
}

/// Blanks for the rows that a frame leaves over; the height of the frame, as
/// far as it fits the terminal, comes with them.
pub fn clear_leftover(y: u16, height: Option<u16>, prev_height: u16) -> (r: (Vec<Row>, u16))
    ensures
        row_views(r.0@) == blank_rows(
            leftover(y, height, prev_height).0 as int,
            leftover(y, height, prev_height).1 as int,
        ),
        r.1 == leftover(y, height, prev_height).0,
{
    let (first, end): (u16, u16) = match height {
        Some(h) => (if y > h { h } else { y }, h),
        None => (y, prev_height),
    };
    let blank = repeat(' ', BLANK_WIDTH);
    let mut rows: Vec<Row> = Vec::new();
    let mut row: u16 = first;
    proof {
        assert(row_views(rows@) =~= blank_rows(first as int, first as int));
    }
    while row < end
        invariant
            first <= row,
            row <= end || row == first,
            blank@ == repeated(' ', BLANK_WIDTH as nat),
            row_views(rows@) == blank_rows(first as int, row as int),
        decreases end - row,
    {
        push_row(&mut rows, Row { row, text: clear_rest(blank.as_str()) });
        row += 1;
        proof {
            assert(row_views(rows@) =~= blank_rows(first as int, row as int));
        }
    }
    proof {
        assert(row_views(rows@) =~= blank_rows(first as int, end as int));
    }
    (rows, first)
}

/// Where the terminal's height is known, every row below the frame is cleared,
/// and none of the frame's own.
pub proof fn law_rows_below_are_cleared(y: u16, height: u16, prev_height: u16, row: u16)
    ensures
        (exists|i: int|
            0 <= i < blank_rows(
                leftover(y, Some(height), prev_height).0 as int,
                leftover(y, Some(height), prev_height).1 as int,
            ).len() && (#[trigger] blank_rows(
                leftover(y, Some(height), prev_height).0 as int,
                leftover(y, Some(height), prev_height).1 as int,
            )[i]).row == row) <==> y <= row < height,
{
    let (first, end) = leftover(y, Some(height), prev_height);
    let blanks = blank_rows(first as int, end as int);
    if y <= row < height {
        assert(blanks[row - first].row == row);
    }
}

// ---- what is on the screen ------------------------------------------------

/// What the screen was last checked against.
#[derive(Debug)]
pub struct Seen {
    pub gpus: Vec<GpuInfo<Real>>,
    pub model: Option<String>,
    pub log_lines: Vec<String>,
}

/// What the screen was last checked against.
pub struct SeenView {
    pub gpus: Seq<GpuInfo<Real>>,
    pub model: Option<Seq<char>>,
    pub log_lines: Seq<Seq<char>>,
}

/// The lines of a log, where there is one.
pub open spec fn log_view(log_lines: Option<Vec<String>>) -> Option<Seq<Seq<char>>> {
    match log_lines {
        Some(lines) => Some(texts(lines@)),
        None => None,
    }
}

impl SeenView {
    /// The GPUs, the model or the log are no longer what they were. No log is
    /// no change.
    pub open spec fn differs(
        self,
        gpus: Seq<GpuInfo<Real>>,
        model: Option<Seq<char>>,
        log_lines: Option<Seq<Seq<char>>>,
    ) -> bool {
        ||| !same_gpus(self.gpus, gpus)
        ||| self.model != model
        ||| log_lines is Some && log_lines->0 != self.log_lines
    }

    /// What the screen was checked against after a further check.
    pub open spec fn after(
        self,
        gpus: Seq<GpuInfo<Real>>,
        model: Option<Seq<char>>,
        log_lines: Option<Seq<Seq<char>>>,
    ) -> SeenView {
        SeenView {
            gpus,
            model,
            log_lines: match log_lines {
                Some(lines) => lines,
                None => self.log_lines,
            },
        }
    }
}

fn same_option(a: &Option<String>, b: &Option<String>) -> (r: bool)
    ensures
        r == (text_view(*a) == text_view(*b)),
{
    match (a, b) {
        (Some(x), Some(y)) => same_text(x.as_str(), y.as_str()),
        (None, None) => true,
        _ => false,
    }
}

fn same_lines(a: &Vec<String>, b: &Vec<String>) -> (r: bool)
    ensures
        r == (texts(a@) == texts(b@)),
{
    proof {
        assert(texts(a@).len() == a@.len());
        assert(texts(b@).len() == b@.len());
    }
    if a.len() != b.len() {
        return false;
    }
    let mut i: usize = 0;
    while i < a.len()
        invariant
            i <= a@.len(),
            a@.len() == b@.len(),
            forall|k: int| 0 <= k < i ==> texts(a@)[k] == #[trigger] texts(b@)[k],
        decreases a@.len() - i,
    {
        if !same_text(a[i].as_str(), b[i].as_str()) {
            proof {
                assert(texts(a@)[i as int] != texts(b@)[i as int]);
            }
            return false;
        }
        i += 1;
    }
    proof {
        assert(texts(a@) =~= texts(b@));
    }
    true
}

impl View for Seen {
    type V = SeenView;

    open spec fn view(&self) -> SeenView {
        SeenView {
            gpus: self.gpus@,
            model: text_view(self.model),
            log_lines: texts(self.log_lines@),
        }
    }
}

impl Seen {
    /// Nothing has been seen.
    pub fn new() -> (r: Seen)
        ensures
            r@ == (SeenView { gpus: seq![], model: None, log_lines: seq![] }),
    {
        let r = Seen { gpus: Vec::new(), model: None, log_lines: Vec::new() };
        proof {
            assert(r@.gpus =~= seq![]);
            assert(r@.log_lines =~= seq![]);
        }
        r
    }

    /// Whether the screen has to be drawn again.
    pub fn differs(
        &self,
        gpus: &Vec<GpuInfo<Real>>,
        model: &Option<String>,
        log_lines: &Option<Vec<String>>,
    ) -> (r: bool)
        ensures
            r == self@.differs(gpus@, text_view(*model), log_view(*log_lines)),
    {
        if !gpu_list_eq(self.gpus.as_slice(), gpus.as_slice()) {
            return true;
        }
        if !same_option(&self.model, model) {
            return true;
        }
        match log_lines {
            Some(lines) => !same_lines(&self.log_lines, lines),
            None => false,
        }
    }

    /// Keeps what was seen for the next check.
    pub fn remember(
        &mut self,
        gpus: Vec<GpuInfo<Real>>,
        model: Option<String>,
        log_lines: Option<Vec<String>>,
    )
        ensures
            final(self)@ == old(self)@.after(gpus@, text_view(model), log_view(log_lines)),
    {
        self.gpus = gpus;
        self.model = model;
        match log_lines {
            Some(lines) => {
                self.log_lines = lines;
            },
            None => {},
        }
    }
}

/// What was just seen differs from itself only where a GPU has a reading that
/// is no number.
pub proof fn law_same_again_is_no_change(
    seen: SeenView,
    gpus: Seq<GpuInfo<Real>>,
    model: Option<Seq<char>>,
    log_lines: Option<Seq<Seq<char>>>,
)
    ensures
        seen.after(gpus, model, log_lines).differs(gpus, model, log_lines) <==> !(forall|i: int|
            0 <= i < gpus.len() ==> all_numbers(#[trigger] gpus[i])),
{
    law_gpu_comparison(gpus, gpus);
}

} // verus!
