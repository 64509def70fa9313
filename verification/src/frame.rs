//! A whole frame: the sections of the screen, one below the other.

use vstd::prelude::*;

use crate::screen::{
    bar_table, go_down, law_slot_rows_go_down, lemma_go_down, lemma_slots_end_grows, place,
    place_spaced, placed, push_rows, render_slot_bars, row_views, slots_end, slots_fit, slots_rows,
    spaced, Row, RowView,
};
use crate::text::texts;

verus! {

/// The bars below the heading of the log.
#[derive(Debug)]
pub enum Bars {
    /// Those of each slot, and whether all slots are idle.
    Slots { bars: Vec<Vec<String>>, all_idle: bool },
    /// Those of what persists, where there is no slot.
    Persisted(Vec<String>),
}

/// The section of the log.
#[derive(Debug)]
pub struct LogSection {
    pub heading: Vec<String>,
    pub bars: Bars,
    pub raw: Vec<String>,
}

impl Bars {
    /// The rows of the bars below the row `y`.
    pub open spec fn rows(self, y: int) -> Seq<RowView> {
        match self {
            Bars::Slots { bars, all_idle } => slots_rows(
                bars@.len(),
                all_idle,
                bar_table(bars@),
                y + 1,
            ),
            Bars::Persisted(bars) => spaced(texts(bars@), y + 1),
        }
    }

    /// The row after the bars below the row `y`.
    pub open spec fn end(self, y: int) -> int {
        match self {
            Bars::Slots { bars, all_idle } => slots_end(bars@.len(), bar_table(bars@), y + 1),
            Bars::Persisted(bars) => y + 1 + 2 * bars@.len(),
        }
    }
}

impl LogSection {
    /// The rows of the section, from `y` on.
    pub open spec fn rows(self, y: int) -> Seq<RowView> {
        let below_heading = y + self.heading@.len();
        placed(texts(self.heading@), y) + self.bars.rows(below_heading) + placed(
            texts(self.raw@),
            self.bars.end(below_heading),
        )
    }

    /// The row after the section.
    pub open spec fn end(self, y: int) -> int {
        self.bars.end(y + self.heading@.len()) + self.raw@.len()
    }
}

/// The rows of a frame: the header, the GPUs, and the log where there is one.
pub open spec fn frame_rows(
    header: Seq<Seq<char>>,
    gpus: Seq<Seq<char>>,
    log: Option<&LogSection>,
) -> Seq<RowView> {
    let above = header.len() + gpus.len();
    placed(header, 0) + placed(gpus, header.len() as int) + match log {
        Some(section) => section.rows(above as int),
        None => seq![],
    }
}

/// The row after a frame.
pub open spec fn frame_end(
    header: Seq<Seq<char>>,
    gpus: Seq<Seq<char>>,
    log: Option<&LogSection>,
) -> int {
    let above = header.len() + gpus.len();
    match log {
        Some(section) => section.end(above as int),
        None => above as int,
    }
}

/// The row `n` below `y`, where a screen can have it.
fn below(y: u16, n: usize) -> (r: Option<u16>)
    ensures
        match r {
            Some(row) => row == y + n,
            None => y + n > u16::MAX,
        },
{
    if n <= (u16::MAX - y) as usize {
        Some(y + n as u16)
    } else {
        None
    }
}

/// The rows of the bars below the row `y`, and the row after them, where a
/// screen can have them all.
fn layout_bars(bars: &Bars, y: u16) -> (r: Option<(Vec<Row>, u16)>)
    ensures
        match r {
            Some((rows, end)) => row_views(rows@) == bars.rows(y as int) && end == bars.end(
                y as int,
            ),
            None => bars.end(y as int) > u16::MAX,
        },
{
    match bars {
        Bars::Slots { bars, all_idle } => match slots_fit(bars, y) {
            Some(_) => Some(render_slot_bars(bars, *all_idle, y)),
            None => None,
        },
        Bars::Persisted(bars) => {
            if y == u16::MAX || bars.len() > ((u16::MAX - y - 1) / 2) as usize {
                None
            } else {
                Some(place_spaced(bars.as_slice(), y + 1))
            }
        },
    }
}

/// The rows of the section of the log, from `y` on, and the row after them,
/// where a screen can have them all.
fn layout_log(section: &LogSection, y: u16) -> (r: Option<(Vec<Row>, u16)>)
    ensures
        match r {
            Some((rows, end)) => row_views(rows@) == section.rows(y as int) && end == section.end(
                y as int,
            ),
            None => section.end(y as int) > u16::MAX,
        },
{
    proof {
        lemma_bars_end(section.bars, y + section.heading@.len());
    }
    if below(y, section.heading.len()).is_none() {
        return None;
    }
    let (mut rows, below_heading) = place(section.heading.as_slice(), y);
    let (bars, end) = match layout_bars(&section.bars, below_heading) {
        Some(block) => block,
        None => return None,
    };
    if below(end, section.raw.len()).is_none() {
        return None;
    }
    let (raw, end) = place(section.raw.as_slice(), end);
    push_rows(&mut rows, bars);
    push_rows(&mut rows, raw);
    Some((rows, end))
}

/// Bars end below the row they start from.
proof fn lemma_bars_end(bars: Bars, y: int)
    ensures
        bars.end(y) > y,
{
    match bars {
        Bars::Slots { bars, all_idle } => {
            lemma_slots_end_grows(0, bars@.len(), bar_table(bars@), y + 1);
        },
        Bars::Persisted(_) => {},
    }
}

/// The rows of a frame and the row after them; nothing where the frame has
/// more rows than a screen can have.
pub fn layout_frame(header: &[String], gpus: &[String], log: Option<&LogSection>) -> (r: Option<
    (Vec<Row>, u16),
>)
    ensures
        match r {
            Some((rows, end)) => row_views(rows@) == frame_rows(texts(header@), texts(gpus@), log)
                && end == frame_end(texts(header@), texts(gpus@), log),
            None => frame_end(texts(header@), texts(gpus@), log) > u16::MAX,
        },
{
    proof {
        match log {
            Some(section) => lemma_bars_end(
                section.bars,
                (header@.len() + gpus@.len() + section.heading@.len()) as int,
            ),
            None => {},
        }
    }
    if below(0, header.len()).is_none() {
        return None;
    }
    let (mut rows, y) = place(header, 0);
    if below(y, gpus.len()).is_none() {
        return None;
    }
    let (block, y) = place(gpus, y);
    push_rows(&mut rows, block);
    match log {
        Some(section) => match layout_log(section, y) {
            Some((block, end)) => {
                push_rows(&mut rows, block);
                Some((rows, end))
            },
            None => None,
        },
        None => {
            proof {
                assert(row_views(rows@) =~= frame_rows(texts(header@), texts(gpus@), log));
            }
            Some((rows, y))
        },
    }
}

/// The rows of a frame stand one below the other: no line of it goes over
/// another.
pub proof fn law_frame_rows_go_down(
    header: Seq<Seq<char>>,
    gpus: Seq<Seq<char>>,
    log: Option<&LogSection>,
)
    ensures
        go_down(frame_rows(header, gpus, log), 0, frame_end(header, gpus, log)),
{
    let middle = header.len() as int;
    let above = (header.len() + gpus.len()) as int;
    let top = placed(header, 0) + placed(gpus, middle);
    assert(go_down(placed(header, 0), 0, middle));
    assert(go_down(placed(gpus, middle), middle, above));
    lemma_go_down(placed(header, 0), placed(gpus, middle), 0, middle, above);
    match log {
        Some(section) => {
            let y = above + section.heading@.len();
            let heading = placed(texts(section.heading@), above);
            let bars = section.bars.rows(y);
            let end = section.bars.end(y);
            let raw = placed(texts(section.raw@), end);
            lemma_bars_end(section.bars, y);
            match section.bars {
                Bars::Slots { bars, all_idle } => {
                    law_slot_rows_go_down(bars@.len(), all_idle, bar_table(bars@), y + 1);
                },
                Bars::Persisted(_) => {},
            }
            assert(go_down(heading, above, y));
            assert(go_down(bars, y, end));
            assert(go_down(raw, end, end + section.raw@.len()));
            lemma_go_down(heading, bars, above, y, end);
            lemma_go_down(heading + bars, raw, above, end, end + section.raw@.len());
            lemma_go_down(top, section.rows(above), 0, above, section.end(above));
        },
        None => {
            assert(top + seq![] =~= top);
        },
    }
}

} // verus!
