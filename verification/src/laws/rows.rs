//! Which rows of the screen lines stand in, and when it is drawn again.

use vstd::prelude::*;

use crate::color::{colored, Color};
use crate::frame::{layout_frame, Bars, LogSection};
use crate::gpu::{gpu_list_eq, GpuInfo};
use crate::laws::drawing::printed;
use crate::number::decimal;
use crate::reading::Real;
use crate::screen::{
    bar_table, clear_leftover, place, place_spaced, placed, render_slot_bars, row_views,
    slots_end, slots_fit, slots_rows, Row, RowView, Seen,
};
use crate::text::texts;

verus! {

// ---- placing --------------------------------------------------------------

/// Lines are placed in one row after the other.
pub proof fn law_lines_are_placed(lines: &[String], y: u16, r: (Vec<Row>, u16))
    requires
        call_ensures(place, (lines, y), r),
    ensures
        r.0@.len() == lines@.len(),
        forall|i: int|
            0 <= i < lines@.len() ==> (#[trigger] r.0@[i]).row == y + i && r.0@[i].text@
                == lines@[i]@,
        r.1 == y + lines@.len(),
{
    let views = row_views(r.0@);
    assert(views.len() == r.0@.len());
    assert forall|i: int| 0 <= i < lines@.len() implies (#[trigger] r.0@[i]).row == y + i
        && r.0@[i].text@ == lines@[i]@ by {
        assert(views[i] == r.0@[i]@);
        assert(texts(lines@)[i] == lines@[i]@);
    }
}

/// Bars are placed in every second row, and clear the rest of it.
pub proof fn law_bars_are_placed(lines: &[String], y: u16, r: (Vec<Row>, u16))
    requires
        call_ensures(place_spaced, (lines, y), r),
    ensures
        r.0@.len() == lines@.len(),
        forall|i: int|
            0 <= i < lines@.len() ==> (#[trigger] r.0@[i]).row == y + 2 * i && r.0@[i].text@
                == lines@[i]@ + "\x1b[K"@,
        r.1 == y + 2 * lines@.len(),
{
    let views = row_views(r.0@);
    assert(views.len() == r.0@.len());
    assert forall|i: int| 0 <= i < lines@.len() implies (#[trigger] r.0@[i]).row == y + 2 * i
        && r.0@[i].text@ == lines@[i]@ + "\x1b[K"@ by {
        assert(views[i] == r.0@[i]@);
        assert(texts(lines@)[i] == lines@[i]@);
    }
}

// ---- slots ----------------------------------------------------------------

/// What the first slots take does not depend on those after them.
proof fn lemma_first_slots(
    n: nat,
    a: Seq<Seq<Seq<char>>>,
    b: Seq<Seq<Seq<char>>>,
    idle: bool,
    y: int,
)
    requires
        n <= a.len(),
        n <= b.len(),
        forall|i: int| 0 <= i < n ==> #[trigger] a[i] == b[i],
    ensures
        slots_end(n, a, y) == slots_end(n, b, y),
        slots_rows(n, idle, a, y) == slots_rows(n, idle, b, y),
    decreases n,
{
    if n > 0 {
        lemma_first_slots((n - 1) as nat, a, b, idle, y);
        assert(a[n - 1] == b[n - 1]);
    }
}

/// No slots take one row.
pub proof fn law_no_slots_take_one_row(
    bars: &Vec<Vec<String>>,
    all_idle: bool,
    y: u16,
    r: (Vec<Row>, u16),
)
    requires
        bars@.len() == 0,
        call_ensures(render_slot_bars, (bars, all_idle, y), r),
    ensures
        r.0@.len() == 0,
        r.1 == y + 1,
{
    assert(row_views(r.0@).len() == r.0@.len());
}

/// A further slot stands below the others: its heading, which gives its number
/// and whether the slots are idle; its bars, in every second row; an empty
/// row. The others stay where they are.
pub proof fn law_slots_stand_below_each_other(
    first: &Vec<Vec<String>>,
    bars: &Vec<Vec<String>>,
    own: Vec<String>,
    all_idle: bool,
    y: u16,
    a: (Vec<Row>, u16),
    r: (Vec<Row>, u16),
)
    requires
        bars@ == first@.push(own),
        call_ensures(render_slot_bars, (first, all_idle, y), a),
        call_ensures(render_slot_bars, (bars, all_idle, y), r),
    ensures
        ({
            let n = a.0@.len() as int;
            let k = own@.len() as int;
            let title = "SLOT "@ + decimal(first@.len());
            &&& r.0@.len() == n + k + 2
            &&& forall|i: int|
                0 <= i < n ==> (#[trigger] r.0@[i]).row == a.0@[i].row && r.0@[i].text@
                    == a.0@[i].text@
            &&& r.0@[n].row == a.1
            &&& !all_idle ==> r.0@[n].text@ == printed(
                colored(Color::Yellow, title + " BARS"@),
            )
            &&& all_idle ==> r.0@[n].text@ == printed(
                colored(Color::Grey, title + " BARS  \u{2014}  IDLE"@),
            )
            &&& forall|i: int|
                0 <= i < k ==> (#[trigger] r.0@[n + 1 + i]).row == a.1 + 1 + 2 * i && r.0@[n + 1
                    + i].text@ == own@[i]@ + "\x1b[K"@
            &&& r.0@[n + 1 + k].row == a.1 + 1 + 2 * k
            &&& r.0@[n + 1 + k].text@ == printed(seq![])
            &&& r.1 == a.1 + 2 + 2 * k
        }),
{
    let n = a.0@.len() as int;
    let k = own@.len() as int;
    let m = first@.len();
    let ta = bar_table(first@);
    let tb = bar_table(bars@);
    let va = row_views(a.0@);
    let vr = row_views(r.0@);
    assert(va.len() == n);
    assert(vr.len() == r.0@.len());
    assert(bars@.len() == m + 1);
    assert forall|i: int| 0 <= i < m implies #[trigger] ta[i] == tb[i] by {
        assert(bars@[i] == first@[i]);
    }
    lemma_first_slots(m, ta, tb, all_idle, y + 1);
    assert(tb[m as int] == texts(own@));
    let block = crate::screen::slot_rows(m, all_idle, texts(own@), a.1 as int);
    assert(vr == va + block);
    assert(texts(own@).len() == k);
    assert(block.len() == k + 2);
    assert forall|i: int| 0 <= i < n implies (#[trigger] r.0@[i]).row == a.0@[i].row
        && r.0@[i].text@ == a.0@[i].text@ by {
        assert(vr[i] == r.0@[i]@);
        assert(va[i] == a.0@[i]@);
    }
    assert(vr[n] == r.0@[n]@ && vr[n] == block[0]);
    assert forall|i: int| 0 <= i < k implies (#[trigger] r.0@[n + 1 + i]).row == a.1 + 1 + 2 * i
        && r.0@[n + 1 + i].text@ == own@[i]@ + "\x1b[K"@ by {
        assert(vr[n + 1 + i] == r.0@[n + 1 + i]@);
        assert(vr[n + 1 + i] == block[1 + i]);
        assert(texts(own@)[i] == own@[i]@);
    }
    assert(vr[n + 1 + k] == r.0@[n + 1 + k]@ && vr[n + 1 + k] == block[1 + k]);
}

/// Slots fit where the row after them is one that a screen can have, and that
/// is the row that comes with them.
pub proof fn law_slots_fit_where_their_rows_do(
    bars: &Vec<Vec<String>>,
    all_idle: bool,
    y: u16,
    fit: Option<u16>,
    r: (Vec<Row>, u16),
)
    requires
        call_ensures(slots_fit, (bars, y), fit),
    ensures
        fit is Some ==> call_requires(render_slot_bars, (bars, all_idle, y)),
        fit is Some && call_ensures(render_slot_bars, (bars, all_idle, y), r) ==> r.1 == fit->0,
        fit is None ==> slots_end(bars@.len(), bar_table(bars@), y + 1) > u16::MAX,
{
}

// ---- leftovers ------------------------------------------------------------

/// Every row from the end of a frame to that of the terminal is blanked, from
/// top to bottom; where the terminal's height is not known, to the end of the
/// frame before. The frame counts as no higher than the terminal.
pub proof fn law_leftover_rows_are_blanked(
    y: u16,
    height: Option<u16>,
    prev_height: u16,
    r: (Vec<Row>, u16),
)
    requires
        call_ensures(clear_leftover, (y, height, prev_height), r),
    ensures
        height matches Some(h) ==> {
            &&& y <= h ==> r.1 == y && r.0@.len() == h - y
            &&& y > h ==> r.1 == h && r.0@.len() == 0
        },
        height is None ==> {
            &&& r.1 == y
            &&& y <= prev_height ==> r.0@.len() == prev_height - y
            &&& y > prev_height ==> r.0@.len() == 0
        },
        forall|i: int|
            0 <= i < r.0@.len() ==> {
                let text = (#[trigger] r.0@[i]).text@;
                &&& r.0@[i].row == y + i
                &&& text.len() == 123
                &&& text.skip(120) == "\x1b[K"@
                &&& forall|k: int| 0 <= k < 120 ==> #[trigger] text[k] == ' '
            },
{
    let views = row_views(r.0@);
    assert(views.len() == r.0@.len());
    reveal_strlit("\x1b[K");
    assert forall|i: int| 0 <= i < r.0@.len() implies ({
        let text = (#[trigger] r.0@[i]).text@;
        &&& r.0@[i].row == y + i
        &&& text.len() == 123
        &&& text.skip(120) == "\x1b[K"@
        &&& forall|k: int| 0 <= k < 120 ==> #[trigger] text[k] == ' '
    }) by {
        assert(views[i] == r.0@[i]@);
        assert(r.0@[i].text@.skip(120) =~= "\x1b[K"@);
    }
}

// ---- changes --------------------------------------------------------------

/// The same lines.
pub open spec fn same_lines(a: Seq<String>, b: Seq<String>) -> bool {
    a.len() == b.len() && forall|i: int| 0 <= i < a.len() ==> (#[trigger] a[i])@ == b[i]@
}

/// The same model, or none on both sides.
pub open spec fn same_model(a: Option<String>, b: Option<String>) -> bool {
    &&& a is Some <==> b is Some
    &&& a is Some ==> a->0@ == b->0@
}

/// The screen is drawn again where the GPUs compare unequal, the model is
/// another, or the log has other lines; and only then.
pub proof fn law_any_change_is_a_difference(
    seen: &Seen,
    known: &[GpuInfo<Real>],
    now: &[GpuInfo<Real>],
    gpus: &Vec<GpuInfo<Real>>,
    model: &Option<String>,
    log_lines: &Option<Vec<String>>,
    same: bool,
    r: bool,
)
    requires
        call_ensures(Seen::differs, (seen, gpus, model, log_lines), r),
        known@ == seen.gpus@,
        now@ == gpus@,
        call_ensures(gpu_list_eq, (known, now), same),
    ensures
        r <==> !same || !same_model(seen.model, *model) || (log_lines is Some && !same_lines(
            seen.log_lines@,
            log_lines->0@,
        )),
{
    if let Some(lines) = log_lines {
        let a = texts(seen.log_lines@);
        let b = texts(lines@);
        assert(a.len() == seen.log_lines@.len() && b.len() == lines@.len());
        if same_lines(seen.log_lines@, lines@) {
            assert forall|i: int| 0 <= i < a.len() implies a[i] == b[i] by {
                assert(seen.log_lines@[i]@ == lines@[i]@);
            }
            assert(a =~= b);
        }
        if a == b {
            assert forall|i: int| 0 <= i < seen.log_lines@.len() implies (
            #[trigger] seen.log_lines@[i])@ == lines@[i]@ by {
                assert(a[i] == b[i]);
            }
        }
    }
}

/// What was seen is kept: the GPUs, the model, and the lines of the log where
/// there is one.
pub proof fn law_what_was_seen_is_kept(
    seen: &mut Seen,
    gpus: Vec<GpuInfo<Real>>,
    model: Option<String>,
    log_lines: Option<Vec<String>>,
)
    requires
        call_ensures(Seen::remember, (seen, gpus, model, log_lines), ()),
    ensures
        final(seen).gpus@ == gpus@,
        same_model(final(seen).model, model),
        log_lines matches Some(lines) ==> same_lines(final(seen).log_lines@, lines@),
        log_lines is None ==> same_lines(final(seen).log_lines@, old(seen).log_lines@),
{
    let after = texts(final(seen).log_lines@);
    assert(final(seen)@.log_lines == after);
    assert(final(seen)@.model == crate::timing::text_view(final(seen).model));
    assert(after.len() == final(seen).log_lines@.len());
    match log_lines {
        Some(lines) => {
            assert(after == texts(lines@));
            assert(texts(lines@).len() == lines@.len());
            assert forall|i: int| 0 <= i < lines@.len() implies (
            #[trigger] final(seen).log_lines@[i])@ == lines@[i]@ by {
                assert(after[i] == texts(lines@)[i]);
            }
        },
        None => {
            let before = texts(old(seen).log_lines@);
            assert(after == before);
            assert(before.len() == old(seen).log_lines@.len());
            assert forall|i: int| 0 <= i < before.len() implies (
            #[trigger] final(seen).log_lines@[i])@ == old(seen).log_lines@[i]@ by {
                assert(after[i] == before[i]);
            }
        },
    }
}

/// Nothing has been seen at first: without GPUs, model and log lines there is
/// no difference.
pub proof fn law_nothing_is_seen_at_first(r: Seen)
    requires
        call_ensures(Seen::new, (), r),
    ensures
        r.gpus@.len() == 0,
        r.model is None,
        r.log_lines@.len() == 0,
{
    assert(r@.log_lines.len() == 0);
    assert(texts(r.log_lines@).len() == r.log_lines@.len());
}

// ---- frames ---------------------------------------------------------------

/// The rows of a frame, from `from` on, are these.
pub open spec fn rows_are(all: Seq<Row>, from: int, own: Seq<Row>) -> bool {
    &&& from + own.len() <= all.len()
    &&& forall|i: int|
        0 <= i < own.len() ==> (#[trigger] all[from + i]).row == own[i].row && all[from + i].text@
            == own[i].text@
}

proof fn lemma_rows_are(all: Seq<Row>, before: Seq<RowView>, own: Seq<Row>, after: Seq<RowView>)
    requires
        row_views(all) == before + row_views(own) + after,
    ensures
        rows_are(all, before.len() as int, own),
        all.len() == before.len() + own.len() + after.len(),
{
    let n = before.len() as int;
    assert(row_views(all).len() == all.len());
    assert(row_views(own).len() == own.len());
    assert forall|i: int| 0 <= i < own.len() implies (#[trigger] all[n + i]).row == own[i].row
        && all[n + i].text@ == own[i].text@ by {
        assert(row_views(all)[n + i] == all[n + i]@);
        assert(row_views(own)[i] == own[i]@);
        assert(row_views(all)[n + i] == row_views(own)[i]);
    }
}

/// A frame is the header, from the top on; the GPUs below it; and nothing
/// more, where there is no log.
pub proof fn law_frame_without_log(
    header: &[String],
    gpus: &[String],
    top: (Vec<Row>, u16),
    middle: (Vec<Row>, u16),
    r: Option<(Vec<Row>, u16)>,
)
    requires
        call_ensures(layout_frame, (header, gpus, None::<&LogSection>), r),
        r is Some ==> call_ensures(place, (header, 0u16), top) && call_ensures(
            place,
            (gpus, top.1),
            middle,
        ),
    ensures
        r is Some <==> header@.len() + gpus@.len() <= u16::MAX,
        r matches Some((rows, end)) ==> {
            &&& rows@.len() == top.0@.len() + middle.0@.len()
            &&& rows_are(rows@, 0, top.0@)
            &&& rows_are(rows@, top.0@.len() as int, middle.0@)
            &&& end == middle.1
        },
{
    assert(texts(header@).len() == header@.len());
    assert(texts(gpus@).len() == gpus@.len());
    if let Some((rows, end)) = r {
        let a = row_views(top.0@);
        let b = row_views(middle.0@);
        let none = Seq::<RowView>::empty();
        assert(a.len() == top.0@.len());
        assert(row_views(rows@) =~= none + a + b);
        lemma_rows_are(rows@, none, top.0@, b);
        assert(row_views(rows@) =~= a + b + none);
        lemma_rows_are(rows@, a, middle.0@, none);
    }
}

/// With a log, its heading comes below the GPUs, the bars of the slots below
/// the heading, and the raw log below the bars.
pub proof fn law_frame_with_log(
    header: &[String],
    gpus: &[String],
    section: &LogSection,
    bars: &Vec<Vec<String>>,
    all_idle: bool,
    lines: &[String],
    raw: &[String],
    top: (Vec<Row>, u16),
    middle: (Vec<Row>, u16),
    heading: (Vec<Row>, u16),
    slots: (Vec<Row>, u16),
    bottom: (Vec<Row>, u16),
    rows: Vec<Row>,
    end: u16,
)
    requires
        call_ensures(layout_frame, (header, gpus, Some(section)), Some((rows, end))),
        section.bars == (Bars::Slots { bars: *bars, all_idle }),
        lines@ == section.heading@,
        raw@ == section.raw@,
        call_ensures(place, (header, 0u16), top),
        call_ensures(place, (gpus, top.1), middle),
        call_ensures(place, (lines, middle.1), heading),
        call_ensures(render_slot_bars, (bars, all_idle, heading.1), slots),
        call_ensures(place, (raw, slots.1), bottom),
    ensures
        ({
            let a = top.0@.len() as int;
            let b = a + middle.0@.len();
            let c = b + heading.0@.len();
            let d = c + slots.0@.len();
            &&& rows@.len() == d + bottom.0@.len()
            &&& rows_are(rows@, 0, top.0@)
            &&& rows_are(rows@, a, middle.0@)
            &&& rows_are(rows@, b, heading.0@)
            &&& rows_are(rows@, c, slots.0@)
            &&& rows_are(rows@, d, bottom.0@)
            &&& end == bottom.1
        }),
{
    lemma_frame(header, gpus, section, rows, end);
    let a = row_views(top.0@);
    let b = row_views(middle.0@);
    let c = row_views(heading.0@);
    let d = row_views(slots.0@);
    let e = row_views(bottom.0@);
    let none = Seq::<RowView>::empty();
    assert(a.len() == top.0@.len() && b.len() == middle.0@.len() && c.len() == heading.0@.len());
    assert(d.len() == slots.0@.len() && e.len() == bottom.0@.len());
    assert(texts(header@).len() == header@.len() && texts(gpus@).len() == gpus@.len());
    assert(row_views(rows@) =~= none + a + (b + c + d + e));
    lemma_rows_are(rows@, none, top.0@, b + c + d + e);
    assert(row_views(rows@) =~= a + b + (c + d + e));
    lemma_rows_are(rows@, a, middle.0@, c + d + e);
    assert(row_views(rows@) =~= (a + b) + c + (d + e));
    lemma_rows_are(rows@, a + b, heading.0@, d + e);
    assert(row_views(rows@) =~= (a + b + c) + d + e);
    lemma_rows_are(rows@, a + b + c, slots.0@, e);
    assert(row_views(rows@) =~= (a + b + c + d) + e + none);
    lemma_rows_are(rows@, a + b + c + d, bottom.0@, none);
}

/// Where there is no slot, what persists stands below the heading, one row
/// further down, in every second row.
pub proof fn law_frame_with_persisted_bars(
    header: &[String],
    gpus: &[String],
    section: &LogSection,
    bars: Vec<String>,
    own: &[String],
    lines: &[String],
    raw: &[String],
    top: (Vec<Row>, u16),
    middle: (Vec<Row>, u16),
    heading: (Vec<Row>, u16),
    below: (Vec<Row>, u16),
    bottom: (Vec<Row>, u16),
    rows: Vec<Row>,
    end: u16,
)
    requires
        call_ensures(layout_frame, (header, gpus, Some(section)), Some((rows, end))),
        section.bars == Bars::Persisted(bars),
        own@ == bars@,
        lines@ == section.heading@,
        raw@ == section.raw@,
        call_ensures(place, (header, 0u16), top),
        call_ensures(place, (gpus, top.1), middle),
        call_ensures(place, (lines, middle.1), heading),
        heading.1 < u16::MAX,
        call_ensures(place_spaced, (own, (heading.1 + 1) as u16), below),
        call_ensures(place, (raw, below.1), bottom),
    ensures
        ({
            let a = top.0@.len() as int;
            let b = a + middle.0@.len();
            let c = b + heading.0@.len();
            let d = c + below.0@.len();
            &&& rows@.len() == d + bottom.0@.len()
            &&& rows_are(rows@, 0, top.0@)
            &&& rows_are(rows@, a, middle.0@)
            &&& rows_are(rows@, b, heading.0@)
            &&& rows_are(rows@, c, below.0@)
            &&& rows_are(rows@, d, bottom.0@)
            &&& end == bottom.1
        }),
{
    lemma_frame(header, gpus, section, rows, end);
    let a = row_views(top.0@);
    let b = row_views(middle.0@);
    let c = row_views(heading.0@);
    let d = row_views(below.0@);
    let e = row_views(bottom.0@);
    let none = Seq::<RowView>::empty();
    assert(a.len() == top.0@.len() && b.len() == middle.0@.len() && c.len() == heading.0@.len());
    assert(d.len() == below.0@.len() && e.len() == bottom.0@.len());
    assert(texts(header@).len() == header@.len() && texts(gpus@).len() == gpus@.len());
    assert(texts(bars@).len() == bars@.len());
    assert(row_views(rows@) =~= none + a + (b + c + d + e));
    lemma_rows_are(rows@, none, top.0@, b + c + d + e);
    assert(row_views(rows@) =~= a + b + (c + d + e));
    lemma_rows_are(rows@, a, middle.0@, c + d + e);
    assert(row_views(rows@) =~= (a + b) + c + (d + e));
    lemma_rows_are(rows@, a + b, heading.0@, d + e);
    assert(row_views(rows@) =~= (a + b + c) + d + e);
    lemma_rows_are(rows@, a + b + c, below.0@, e);
    assert(row_views(rows@) =~= (a + b + c + d) + e + none);
    lemma_rows_are(rows@, a + b + c + d, bottom.0@, none);
}

/// A frame with a log is laid out wherever a screen can have its rows.
pub proof fn law_frame_that_fits_is_laid_out(
    header: &[String],
    gpus: &[String],
    section: &LogSection,
    bars: &Vec<Vec<String>>,
    all_idle: bool,
    y: u16,
    fit: Option<u16>,
    r: Option<(Vec<Row>, u16)>,
)
    requires
        call_ensures(layout_frame, (header, gpus, Some(section)), r),
        section.bars == (Bars::Slots { bars: *bars, all_idle }),
        y == header@.len() + gpus@.len() + section.heading@.len(),
        call_ensures(slots_fit, (bars, y), fit),
    ensures
        r is Some <==> fit is Some && fit->0 + section.raw@.len() <= u16::MAX,
{
    assert(texts(header@).len() == header@.len());
    assert(texts(gpus@).len() == gpus@.len());
}

proof fn lemma_frame(
    header: &[String],
    gpus: &[String],
    section: &LogSection,
    rows: Vec<Row>,
    end: u16,
)
    requires
        call_ensures(layout_frame, (header, gpus, Some(section)), Some((rows, end))),
    ensures
        ({
            let above = header@.len() as int + gpus@.len();
            let y = above + section.heading@.len();
            &&& row_views(rows@) == placed(texts(header@), 0) + placed(
                texts(gpus@),
                header@.len() as int,
            ) + (placed(texts(section.heading@), above) + section.bars.rows(y) + placed(
                texts(section.raw@),
                section.bars.end(y),
            ))
            &&& end == section.bars.end(y) + section.raw@.len()
        }),
{
    assert(texts(header@).len() == header@.len());
    assert(texts(gpus@).len() == gpus@.len());
}

} // verus!
