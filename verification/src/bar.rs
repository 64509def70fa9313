//! Bars: a label, a row of cells, and a caption.
//!
//! How many cells of a bar are full, and the text of a floating-point caption,
//! is floating-point work. It is done outside the library, from a [`Gauge`],
//! and comes back as a [`Measure`].

use vstd::prelude::*;

use crate::color::{foreground, law_foreground_is_a_code, selects, Color};
use crate::log::{
    ends_in_code, is_code, law_code_goes, law_plain_text_stays, law_strip_concat, strip_codes,
    within_code, ESCAPE,
};
use crate::reading::Real;
use crate::text::{chars_of, texts};

verus! {

/// The number of cells of a bar.
pub const BAR_WIDTH: usize = 25;

/// The number of characters that a label takes.
pub const LABEL_WIDTH: usize = 10;

// ---- bars -----------------------------------------------------------------

/// `n` spaces.
pub open spec fn spaces(n: nat) -> Seq<char> {
    Seq::new(n, |i: int| ' ')
}

/// `label` with spaces after it, up to `width` characters.
pub open spec fn padded(label: Seq<char>, width: nat) -> Seq<char> {
    if label.len() < width {
        label + spaces((width - label.len()) as nat)
    } else {
        label
    }
}

/// The first `n` cells of a bar: the code for its colour before each cell.
pub open spec fn cells(n: nat, filled: nat, on: Seq<char>, off: Seq<char>) -> Seq<char>
    decreases n,
{
    if n == 0 {
        seq![]
    } else {
        cells((n - 1) as nat, filled, on, off) + if n - 1 < filled {
            on.push('\u{2588}')
        } else {
            off.push('\u{2591}')
        }
    }
}

/// A bar: its label, its cells, and the code that ends colours. `on` and `off`
/// are the codes for full and for empty cells.
pub open spec fn bar(label: Seq<char>, filled: nat, on: Seq<char>, off: Seq<char>) -> Seq<char> {
    padded(label, LABEL_WIDTH as nat) + cells(BAR_WIDTH as nat, filled, on, off) + "\x1b[0m"@
}

/// Appends spaces after `label` up to `width` characters.
fn push_padded(text: &mut String, label: &str, width: usize)
    ensures
        final(text)@ == old(text)@ + padded(label@, width as nat),
{
    let len: usize = chars_of(label).len();
    text.append(label);
    let mut i: usize = len;
    proof {
        assert(old(text)@ + label@ + spaces(0) =~= old(text)@ + label@);
    }
    while i < width
        invariant
            len == label@.len(),
            len <= i,
            i <= width || i == len,
            text@ == old(text)@ + label@ + spaces((i - len) as nat),
        decreases width - i,
    {
        text.push(' ');
        i += 1;
        proof {
            assert(text@ =~= old(text)@ + label@ + spaces((i - len) as nat));
        }
    }
    proof {
        assert(text@ =~= old(text)@ + padded(label@, width as nat));
    }
}

/// The bar whose first `filled` cells are full, with the codes `on` and `off`
/// for the colours of full and of empty cells.
pub fn draw_bar(label: &str, filled: usize, on: &str, off: &str) -> (r: String)
    ensures
        r@ == bar(label@, filled as nat, on@, off@),
{
    let mut r = String::new();
    push_padded(&mut r, label, LABEL_WIDTH);
    let ghost head = padded(label@, LABEL_WIDTH as nat);
    let mut i: usize = 0;
    proof {
        assert(r@ =~= head + cells(0, filled as nat, on@, off@));
    }
    while i < BAR_WIDTH
        invariant
            i <= BAR_WIDTH,
            r@ == head + cells(i as nat, filled as nat, on@, off@),
        decreases BAR_WIDTH - i,
    {
        if i < filled {
            r.append(on);
            r.push('\u{2588}');
        } else {
            r.append(off);
            r.push('\u{2591}');
        }
        i += 1;
        proof {
            assert(r@ =~= head + cells(i as nat, filled as nat, on@, off@));
        }
    }
    r.append("\x1b[0m");
    r
}

/// The bar whose first `filled` cells are full, in the colours given.
pub fn format_bar(label: &str, filled: usize, color: Color, empty_color: Color) -> (r: String)
    ensures
        exists|on: Seq<char>, off: Seq<char>|
            selects(on, color) && selects(off, empty_color) && r@ == #[trigger] bar(
                label@,
                filled as nat,
                on,
                off,
            ),
{
    let ink = Ink::new(color, empty_color);
    draw_bar(label, filled, ink.on.as_str(), ink.off.as_str())
}

/// The blocks of the first `n` cells of a bar.
pub open spec fn blocks(n: nat, filled: nat) -> Seq<char> {
    Seq::new(
        n,
        |i: int|
            if i < filled {
                '\u{2588}'
            } else {
                '\u{2591}'
            },
    )
}

proof fn lemma_cells_show(n: nat, filled: nat, on: Seq<char>, off: Seq<char>)
    requires
        is_code(on),
        is_code(off),
    ensures
        strip_codes(cells(n, filled, on, off), false) == blocks(n, filled),
        !ends_in_code(cells(n, filled, on, off), false),
    decreases n,
{
    if n == 0 {
        assert(strip_codes(cells(0, filled, on, off), false) =~= blocks(0, filled));
    } else {
        let m = (n - 1) as nat;
        let before = cells(m, filled, on, off);
        let (code, block) = if m < filled {
            (on, seq!['\u{2588}'])
        } else {
            (off, seq!['\u{2591}'])
        };
        lemma_cells_show(m, filled, on, off);
        assert(cells(n, filled, on, off) =~= before + (code + block));
        law_strip_concat(before, code + block, false);
        law_code_goes(code, block);
        law_plain_text_stays(block);
        assert(blocks(m, filled) + block =~= blocks(n, filled));
        lemma_ends_concat(before, code + block, false);
        lemma_ends_concat(code, block, false);
    }
}

proof fn lemma_ends_concat(a: Seq<char>, b: Seq<char>, in_code: bool)
    ensures
        ends_in_code(a + b, in_code) == ends_in_code(b, ends_in_code(a, in_code)),
    decreases a.len(),
{
    if a.len() == 0 {
        assert(a + b =~= b);
    } else {
        assert((a + b).skip(1) =~= a.skip(1) + b);
        let c = a[0];
        lemma_ends_concat(a.skip(1), b, c == ESCAPE || (in_code && within_code(c)));
    }
}

/// A bar shows its label and its cells, full ones first: that is what is left
/// of it without terminal codes, whatever codes stand for its colours.
pub proof fn law_bar_shows(
    label: Seq<char>,
    filled: nat,
    on: Seq<char>,
    off: Seq<char>,
    color: Color,
    empty_color: Color,
)
    requires
        forall|i: int| 0 <= i < label.len() ==> #[trigger] label[i] != ESCAPE,
        selects(on, color),
        selects(off, empty_color),
    ensures
        strip_codes(bar(label, filled, on, off), false) == padded(label, LABEL_WIDTH as nat)
            + blocks(BAR_WIDTH as nat, filled),
{
    let head = padded(label, LABEL_WIDTH as nat);
    let body = cells(BAR_WIDTH as nat, filled, on, off);
    let close = "\x1b[0m"@;
    let empty = Seq::<char>::empty();
    reveal_strlit("\x1b[0m");
    law_foreground_is_a_code(on, color);
    law_foreground_is_a_code(off, empty_color);
    lemma_cells_show(BAR_WIDTH as nat, filled, on, off);
    assert forall|i: int| 0 <= i < head.len() implies #[trigger] head[i] != ESCAPE by {
        if i < label.len() {
            assert(head[i] == label[i]);
        }
    }
    law_plain_text_stays(head);
    assert(bar(label, filled, on, off) =~= head + (body + close));
    law_strip_concat(head, body + close, false);
    law_strip_concat(body, close, false);
    assert(is_code(close));
    law_code_goes(close, empty);
    assert(close + empty =~= close);
    assert(head + (blocks(BAR_WIDTH as nat, filled) + strip_codes(empty, false)) =~= head + blocks(
        BAR_WIDTH as nat,
        filled,
    ));
}

// ---- colours of a bar -----------------------------------------------------

/// The codes for full and for empty cells.
#[derive(Debug)]
pub struct Ink {
    pub on: String,
    pub off: String,
}

/// The codes for full and for empty cells.
pub struct InkView {
    pub on: Seq<char>,
    pub off: Seq<char>,
}

impl Ink {
    pub open spec fn codes(self) -> InkView {
        InkView { on: self.on@, off: self.off@ }
    }

    /// The codes for two colours.
    pub fn new(color: Color, empty_color: Color) -> (r: Ink)
        ensures
            r.codes().suits(color, empty_color),
    {
        Ink { on: foreground(color), off: foreground(empty_color) }
    }
}

impl InkView {
    /// The codes are for these colours.
    pub open spec fn suits(self, color: Color, empty_color: Color) -> bool {
        selects(self.on, color) && selects(self.off, empty_color)
    }
}

// ---- gauges ---------------------------------------------------------------

/// A number that a bar shows.
#[derive(Clone, Copy, Debug, PartialEq, Eq, Structural)]
pub enum Quantity {
    /// A reading.
    Value(Real),
    /// A reading times 100.
    Percent(Real),
    /// A count.
    Count(u32),
    /// A part of a whole, in percent; zero where the whole is.
    Share { part: u32, whole: u32 },
}

/// What stands after a bar, before its unit.
#[derive(Debug)]
pub enum Caption {
    /// The quantity, with so many decimal places.
    Places(u8),
    /// The quantity as a whole number, cut at the decimal point.
    Whole,
    /// A text of its own.
    Written(String),
}

/// What stands after a bar, before its unit.
pub enum CaptionView {
    Places(u8),
    Whole,
    Written(Seq<char>),
}

/// A bar to be drawn: full at `max`.
#[derive(Debug)]
pub struct Gauge {
    pub label: String,
    pub quantity: Quantity,
    pub max: u32,
    pub color: Color,
    pub caption: Caption,
    pub unit: String,
}

/// A bar to be drawn: full at `max`.
pub struct GaugeView {
    pub label: Seq<char>,
    pub quantity: Quantity,
    pub max: u32,
    pub color: Color,
    pub caption: CaptionView,
    pub unit: Seq<char>,
}

/// How a gauge comes out: the full cells of its bar, and the text of its
/// quantity as its caption asks for it.
#[derive(Debug)]
pub struct Measure {
    pub filled: usize,
    pub number: String,
}

/// How a gauge comes out.
pub struct MeasureView {
    pub filled: nat,
    pub number: Seq<char>,
}

impl View for Gauge {
    type V = GaugeView;

    open spec fn view(&self) -> GaugeView {
        GaugeView {
            label: self.label@,
            quantity: self.quantity,
            max: self.max,
            color: self.color,
            caption: match self.caption {
                Caption::Places(n) => CaptionView::Places(n),
                Caption::Whole => CaptionView::Whole,
                Caption::Written(text) => CaptionView::Written(text@),
            },
            unit: self.unit@,
        }
    }
}

impl View for Measure {
    type V = MeasureView;

    open spec fn view(&self) -> MeasureView {
        MeasureView { filled: self.filled as nat, number: self.number@ }
    }
}

pub open spec fn gauge_views(gauges: Seq<Gauge>) -> Seq<GaugeView> {
    Seq::new(gauges.len(), |i: int| gauges[i]@)
}

pub open spec fn measure_views(measures: Seq<Measure>) -> Seq<MeasureView> {
    Seq::new(measures.len(), |i: int| measures[i]@)
}

pub open spec fn ink_views(inks: Seq<Ink>) -> Seq<InkView> {
    Seq::new(inks.len(), |i: int| inks[i].codes())
}

/// There is an ink for the colour of each gauge.
pub open spec fn inks_suit(inks: Seq<InkView>, gauges: Seq<GaugeView>, empty_color: Color) -> bool {
    inks.len() == gauges.len() && forall|i: int|
        0 <= i < inks.len() ==> (#[trigger] inks[i]).suits(gauges[i].color, empty_color)
}

/// The bar of a gauge, a space, the caption and the unit.
pub open spec fn gauge_line(gauge: GaugeView, measure: MeasureView, ink: InkView) -> Seq<char> {
    bar(gauge.label, measure.filled, ink.on, ink.off) + " "@ + match gauge.caption {
        CaptionView::Written(text) => text,
        _ => measure.number,
    } + gauge.unit
}

/// The lines of some gauges.
pub open spec fn gauge_lines(
    gauges: Seq<GaugeView>,
    measures: Seq<MeasureView>,
    inks: Seq<InkView>,
) -> Seq<Seq<char>> {
    Seq::new(gauges.len(), |i: int| gauge_line(gauges[i], measures[i], inks[i]))
}

/// The bar of a gauge, a space, the caption and the unit.
pub fn draw_gauge(gauge: &Gauge, measure: &Measure, ink: &Ink) -> (r: String)
    ensures
        r@ == gauge_line(gauge@, measure@, ink.codes()),
{
    let mut r = draw_bar(
        gauge.label.as_str(),
        measure.filled,
        ink.on.as_str(),
        ink.off.as_str(),
    );
    r.append(" ");
    match &gauge.caption {
        Caption::Written(text) => r.append(text.as_str()),
        _ => r.append(measure.number.as_str()),
    }
    r.append(gauge.unit.as_str());
    r
}

/// The lines of some gauges.
pub fn draw_gauges(gauges: &Vec<Gauge>, measures: &Vec<Measure>, inks: &Vec<Ink>) -> (r: Vec<String>)
    requires
        measures@.len() == gauges@.len(),
        inks@.len() == gauges@.len(),
    ensures
        texts(r@) == gauge_lines(gauge_views(gauges@), measure_views(measures@), ink_views(inks@)),
{
    let mut r: Vec<String> = Vec::new();
    let mut i: usize = 0;
    while i < gauges.len()
        invariant
            i <= gauges@.len(),
            measures@.len() == gauges@.len(),
            inks@.len() == gauges@.len(),
            r@.len() == i,
            forall|k: int|
                0 <= k < i ==> (#[trigger] r@[k])@ == gauge_line(
                    gauges@[k]@,
                    measures@[k]@,
                    inks@[k].codes(),
                ),
        decreases gauges@.len() - i,
    {
        r.push(draw_gauge(&gauges[i], &measures[i], &inks[i]));
        i += 1;
    }
    proof {
        assert(texts(r@) =~= gauge_lines(
            gauge_views(gauges@),
            measure_views(measures@),
            ink_views(inks@),
        ));
    }
    r
}

/// The codes for the colours of some gauges.
pub fn inks_for(gauges: &Vec<Gauge>, empty_color: Color) -> (r: Vec<Ink>)
    ensures
        inks_suit(ink_views(r@), gauge_views(gauges@), empty_color),
{
    let mut r: Vec<Ink> = Vec::new();
    let mut i: usize = 0;
    while i < gauges.len()
        invariant
            i <= gauges@.len(),
            r@.len() == i,
            forall|k: int|
                0 <= k < i ==> (#[trigger] r@[k]).codes().suits(gauges@[k].color, empty_color),
        decreases gauges@.len() - i,
    {
        r.push(Ink::new(gauges[i].color, empty_color));
        i += 1;
    }
    proof {
        assert forall|k: int| 0 <= k < ink_views(r@).len() implies (#[trigger] ink_views(
            r@,
        )[k]).suits(gauge_views(gauges@)[k].color, empty_color) by {
            assert(r@[k].codes().suits(gauges@[k].color, empty_color));
        }
    }
    r
}

} // verus!
