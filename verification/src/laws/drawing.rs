//! What is drawn: bars, gauges and the lines of the sections.

use vstd::prelude::*;

use crate::bar::{
    bar, blocks, cells, draw_bar, draw_gauge, draw_gauges, format_bar, gauge_line, gauge_lines,
    gauge_views, ink_views, inks_for, inks_suit, law_bar_shows, measure_views, padded, spaces,
    Caption, Gauge, Ink, InkView, Measure, Quantity, LABEL_WIDTH,
};
use crate::color::{color_of, colored, selects, Color};
use crate::config::Config;
use crate::gpu::GpuInfo;
use crate::laws::window::escape_free;
use crate::log::{last_n, render_log_window, strip_ansi_codes};
use crate::number::decimal;
use crate::process::{params_view, LlamaServerInfo};
use crate::reading::Real;
use crate::render::{
    all_cleared, base_name, clear_rest, draw_gpu_section, draw_inference_bars, gauges_of_gpu,
    gauges_of_slot, gauges_of_slots, gpu_gauges, gpu_lines, gpu_section, header,
    inference_gauges, inference_lines, ink_table, measure_table, param_lines, println_line,
    render_gpu_section, render_header, render_inference_bars, render_log_heading,
    render_raw_log, render_slots, repeated, slot_gauges,
};
use crate::text::{lemma_run_before, texts, CharClass};
use crate::timing::InferenceStats;

verus! {

// ---- bars -----------------------------------------------------------------

/// `n` copies of a text.
pub open spec fn times(s: Seq<char>, n: nat) -> Seq<char>
    decreases n,
{
    if n == 0 {
        seq![]
    } else {
        times(s, (n - 1) as nat) + s
    }
}

/// A label of fewer than ten characters is followed by spaces up to ten; any
/// other label stays.
pub open spec fn is_padded(label: Seq<char>, head: Seq<char>) -> bool {
    &&& head.len() >= 10
    &&& head.len() == 10 || head.len() == label.len()
    &&& head.take(label.len() as int) == label
    &&& forall|i: int| label.len() <= i < head.len() ==> #[trigger] head[i] == ' '
}

/// A bar: its label; a full cell in the one colour, as many times as it is
/// filled, and an empty cell in the other for the rest of 25; the code that
/// ends colours.
pub open spec fn is_bar(
    text: Seq<char>,
    label: Seq<char>,
    filled: nat,
    on: Seq<char>,
    off: Seq<char>,
) -> bool {
    let full = if filled <= 25 {
        filled
    } else {
        25
    };
    exists|head: Seq<char>| #[trigger]
        is_padded(label, head) && text == head + times(on + seq!['\u{2588}'], full) + times(
            off + seq!['\u{2591}'],
            (25 - full) as nat,
        ) + "\x1b[0m"@
}

proof fn lemma_cells(n: nat, filled: nat, on: Seq<char>, off: Seq<char>)
    ensures
        ({
            let full = if filled <= n {
                filled
            } else {
                n
            };
            cells(n, filled, on, off) == times(on + seq!['\u{2588}'], full) + times(
                off + seq!['\u{2591}'],
                (n - full) as nat,
            )
        }),
    decreases n,
{
    let full = if filled <= n {
        filled
    } else {
        n
    };
    let a = on + seq!['\u{2588}'];
    let b = off + seq!['\u{2591}'];
    assert(on.push('\u{2588}') =~= a);
    assert(off.push('\u{2591}') =~= b);
    if n > 0 {
        lemma_cells((n - 1) as nat, filled, on, off);
        if n - 1 < filled {
            assert(times(b, 0) =~= seq![]);
        }
    }
    assert(cells(n, filled, on, off) =~= times(a, full) + times(b, (n - full) as nat));
}

proof fn lemma_bar(label: Seq<char>, filled: nat, on: Seq<char>, off: Seq<char>)
    ensures
        is_bar(bar(label, filled, on, off), label, filled, on, off),
{
    let full = if filled <= 25 {
        filled
    } else {
        25
    };
    let head = padded(label, LABEL_WIDTH as nat);
    lemma_cells(25, filled, on, off);
    assert(head.take(label.len() as int) =~= label);
    assert(is_padded(label, head));
    let a = times(on + seq!['\u{2588}'], full);
    let b = times(off + seq!['\u{2591}'], (25 - full) as nat);
    assert(bar(label, filled, on, off) =~= head + a + b + "\x1b[0m"@);
}

/// A bar has its label, its full cells in the one colour and its empty ones in
/// the other.
pub proof fn law_bar_has_full_and_empty_cells(
    label: &str,
    filled: usize,
    on: &str,
    off: &str,
    r: String,
)
    requires
        call_ensures(draw_bar, (label, filled, on, off), r),
    ensures
        is_bar(r@, label@, filled as nat, on@, off@),
{
    lemma_bar(label@, filled as nat, on@, off@);
}

/// A bar in two colours has the one in its full cells and the other in its
/// empty ones, and shows its label and blocks.
pub proof fn law_bar_has_its_colors(
    label: &str,
    filled: usize,
    color: Color,
    empty_color: Color,
    r: String,
)
    requires
        call_ensures(format_bar, (label, filled, color, empty_color), r),
    ensures
        exists|on: Seq<char>, off: Seq<char>|
            selects(on, color) && selects(off, empty_color) && #[trigger] is_bar(
                r@,
                label@,
                filled as nat,
                on,
                off,
            ),
{
    let (on, off) = choose|on: Seq<char>, off: Seq<char>|
        selects(on, color) && selects(off, empty_color) && r@ == #[trigger] bar(
            label@,
            filled as nat,
            on,
            off,
        );
    lemma_bar(label@, filled as nat, on, off);
    assert(is_bar(r@, label@, filled as nat, on, off));
}

/// Without its codes a bar is its label and 25 blocks, full ones first.
pub proof fn law_bar_shows_its_blocks(
    label: &str,
    filled: usize,
    color: Color,
    empty_color: Color,
    text: &str,
    r: String,
    plain: String,
)
    requires
        escape_free(label@),
        call_ensures(format_bar, (label, filled, color, empty_color), r),
        text@ == r@,
        call_ensures(strip_ansi_codes, (text,), plain),
    ensures
        plain@.len() >= 35,
        is_padded(label@, plain@.take(plain@.len() - 25)),
        forall|i: int|
            0 <= i < 25 ==> #[trigger] plain@[plain@.len() - 25 + i] == if i < filled {
                '\u{2588}'
            } else {
                '\u{2591}'
            },
{
    let (on, off) = choose|on: Seq<char>, off: Seq<char>|
        selects(on, color) && selects(off, empty_color) && r@ == #[trigger] bar(
            label@,
            filled as nat,
            on,
            off,
        );
    law_bar_shows(label@, filled as nat, on, off, color, empty_color);
    let head = padded(label@, LABEL_WIDTH as nat);
    assert(plain@ == head + blocks(25, filled as nat));
    assert(head.take(label@.len() as int) =~= label@);
    assert(plain@.take(plain@.len() - 25) =~= head);
    assert forall|i: int| 0 <= i < 25 implies #[trigger] plain@[plain@.len() - 25 + i] == if i
        < filled {
        '\u{2588}'
    } else {
        '\u{2591}'
    } by {
        assert(plain@[plain@.len() - 25 + i] == blocks(25, filled as nat)[i]);
    }
}

/// The codes of an ink are for its two colours, and each gauge has the ink of
/// its own colour.
pub proof fn law_inks_have_their_colors(
    color: Color,
    empty_color: Color,
    ink: Ink,
    gauges: &Vec<Gauge>,
    inks: Vec<Ink>,
)
    requires
        call_ensures(Ink::new, (color, empty_color), ink),
        call_ensures(inks_for, (gauges, empty_color), inks),
    ensures
        selects(ink.on@, color) && selects(ink.off@, empty_color),
        inks@.len() == gauges@.len(),
        forall|i: int|
            0 <= i < inks@.len() ==> selects((#[trigger] inks@[i]).on@, gauges@[i].color)
                && selects(inks@[i].off@, empty_color),
{
    assert(ink_views(inks@).len() == inks@.len());
    assert(gauge_views(gauges@).len() == gauges@.len());
    assert forall|i: int| 0 <= i < inks@.len() implies selects(
        (#[trigger] inks@[i]).on@,
        gauges@[i].color,
    ) && selects(inks@[i].off@, empty_color) by {
        assert(ink_views(inks@)[i] == inks@[i].codes());
        assert(gauge_views(gauges@)[i] == gauges@[i]@);
        assert(ink_views(inks@)[i].suits(gauge_views(gauges@)[i].color, empty_color));
    }
}

/// A gauge is drawn as its bar, a space, its caption and its unit; the caption
/// is the number that was measured, unless the gauge has a text of its own.
pub proof fn law_gauge_has_bar_caption_and_unit(
    gauge: &Gauge,
    measure: &Measure,
    ink: &Ink,
    label: &str,
    on: &str,
    off: &str,
    drawn: String,
    r: String,
)
    requires
        call_ensures(draw_gauge, (gauge, measure, ink), r),
        label@ == gauge.label@,
        on@ == ink.on@,
        off@ == ink.off@,
        call_ensures(draw_bar, (label, measure.filled, on, off), drawn),
    ensures
        gauge.caption matches Caption::Written(text) ==> r@ == drawn@ + " "@ + text@ + gauge.unit@,
        !(gauge.caption is Written) ==> r@ == drawn@ + " "@ + measure.number@ + gauge.unit@,
{
}

/// Each gauge is drawn with its own measure and its own ink, in order.
pub proof fn law_gauges_are_drawn_in_order(
    gauges: &Vec<Gauge>,
    measures: &Vec<Measure>,
    inks: &Vec<Ink>,
    r: Vec<String>,
    i: int,
    line: String,
)
    requires
        measures@.len() == gauges@.len(),
        inks@.len() == gauges@.len(),
        call_ensures(draw_gauges, (gauges, measures, inks), r),
        0 <= i < gauges@.len(),
        call_ensures(draw_gauge, (&gauges@[i], &measures@[i], &inks@[i]), line),
    ensures
        r@.len() == gauges@.len(),
        r@[i]@ == line@,
{
    assert(texts(r@).len() == r@.len());
    assert(texts(r@)[i] == r@[i]@);
    assert(gauge_views(gauges@)[i] == gauges@[i]@);
    assert(measure_views(measures@)[i] == measures@[i]@);
    assert(ink_views(inks@)[i] == inks@[i].codes());
}

// ---- slots ----------------------------------------------------------------

/// A gauge of a slot: its label, its quantity, where it is full, its caption
/// and its unit. All are in one colour.
pub open spec fn is_slot_gauge(
    gauge: Gauge,
    label: Seq<char>,
    quantity: Quantity,
    max: int,
    unit: Seq<char>,
) -> bool {
    &&& gauge.label@ == label
    &&& gauge.quantity == quantity
    &&& gauge.max == max
    &&& gauge.color == Color::DarkCyan
    &&& gauge.unit@ == unit
}

/// Each gauge of a slot shows the reading that its label names; progress comes
/// first, or is left out.
pub proof fn law_slot_gauges_show_their_readings(
    stats: &InferenceStats,
    skip_progress: bool,
    r: Vec<Gauge>,
)
    requires
        call_ensures(gauges_of_slot, (stats, skip_progress), r),
    ensures
        ({
            let n = if skip_progress {
                0int
            } else {
                1int
            };
            let decoded_max = if stats.n_decoded_max > 0 {
                stats.n_decoded_max as int
            } else {
                1000
            };
            &&& r@.len() == n + 6
            &&& !skip_progress ==> is_slot_gauge(
                r@[0],
                "Progress"@,
                Quantity::Percent(stats.progress),
                100,
                "%"@,
            ) && r@[0].caption == Caption::Places(0)
            &&& is_slot_gauge(
                r@[n],
                "Prompt t/s"@,
                Quantity::Value(stats.tokens_per_second),
                3000,
                "/s"@,
            ) && r@[n].caption is Whole
            &&& is_slot_gauge(
                r@[n + 1],
                "Gen t/s"@,
                Quantity::Value(stats.gen_speed_tps),
                100,
                "/s"@,
            ) && r@[n + 1].caption is Whole
            &&& is_slot_gauge(
                r@[n + 2],
                "Decoded"@,
                Quantity::Count(stats.n_decoded),
                decoded_max,
                ""@,
            ) && (r@[n + 2].caption matches Caption::Written(text) && text@ == decimal(
                stats.n_decoded as nat,
            ))
            &&& is_slot_gauge(
                r@[n + 3],
                "Draft"@,
                Quantity::Percent(stats.draft_acceptance),
                100,
                "%"@,
            ) && r@[n + 3].caption == Caption::Places(1)
            &&& is_slot_gauge(
                r@[n + 4],
                "Context"@,
                Quantity::Share { part: stats.ctx_used, whole: stats.ctx_n_tokens },
                100,
                " tokens"@,
            ) && (r@[n + 4].caption matches Caption::Written(text) && text@ == decimal(
                stats.ctx_used as nat,
            ) + " / "@ + decimal(stats.ctx_n_tokens as nat))
            &&& is_slot_gauge(
                r@[n + 5],
                "Latency"@,
                Quantity::Value(stats.latency_ms_tok),
                5,
                "ms"@,
            ) && r@[n + 5].caption == Caption::Places(2)
        }),
{
    let n = if skip_progress {
        0int
    } else {
        1int
    };
    let views = gauge_views(r@);
    let all = slot_gauges(*stats);
    assert(all.len() == 7);
    assert(views == inference_gauges(*stats, skip_progress));
    assert(views.len() == r@.len());
    if !skip_progress {
        assert(r@[0]@ == views[0]);
    }
    assert(r@[n]@ == views[n] && views[n] == all[1]);
    assert(r@[n + 1]@ == views[n + 1] && views[n + 1] == all[2]);
    assert(r@[n + 2]@ == views[n + 2] && views[n + 2] == all[3]);
    assert(r@[n + 3]@ == views[n + 3] && views[n + 3] == all[4]);
    assert(r@[n + 4]@ == views[n + 4] && views[n + 4] == all[5]);
    assert(r@[n + 5]@ == views[n + 5] && views[n + 5] == all[6]);
}

/// The gauges of some slots are those of each, in order; all leave progress
/// out where all slots are idle.
pub proof fn law_slots_have_their_gauges(
    stats: &[InferenceStats],
    all_idle: bool,
    r: Vec<Vec<Gauge>>,
    i: int,
    own: Vec<Gauge>,
)
    requires
        call_ensures(gauges_of_slots, (stats, all_idle), r),
        0 <= i < stats@.len(),
        call_ensures(gauges_of_slot, (&stats@[i], all_idle), own),
    ensures
        r@.len() == stats@.len(),
        gauge_views(r@[i]@) == gauge_views(own@),
{
}

/// A number below sixty or above in two digits or more.
pub open spec fn is_two_digits(text: Seq<char>, n: nat) -> bool {
    &&& n < 10 ==> text == seq!['0', ('0' as u32 + n) as char]
    &&& n >= 10 ==> text == decimal(n)
}

/// A line that shows a time in minutes and seconds.
pub open spec fn is_time_line(text: Seq<char>, seconds: nat) -> bool {
    exists|minutes: nat, rest: nat, a: Seq<char>, b: Seq<char>|
        seconds == 60 * minutes + rest && rest < 60 && #[trigger] is_two_digits(a, minutes)
            && #[trigger] is_two_digits(b, rest) && text == "\x1b[37mTime\x1b[0m "@ + a + ":"@ + b
}

proof fn lemma_time_line(seconds: nat)
    ensures
        is_time_line(crate::render::time_line(seconds), seconds),
{
    let minutes = seconds / 60;
    let rest = seconds % 60;
    let a = crate::number::two_digits(minutes);
    let b = crate::number::two_digits(rest);
    if minutes < 10 {
        assert(a =~= seq!['0', ('0' as u32 + minutes) as char]);
    }
    if rest < 10 {
        assert(b =~= seq!['0', ('0' as u32 + rest) as char]);
    }
    assert(is_two_digits(a, minutes));
    assert(is_two_digits(b, rest));
    reveal_strlit("\x1b[");
    reveal_strlit("37");
    reveal_strlit("m");
    reveal_strlit("Time");
    reveal_strlit("\x1b[0m");
    reveal_strlit(" ");
    reveal_strlit("\x1b[37mTime\x1b[0m ");
    assert(colored(Color::DarkCyan, "Time"@) + " "@ =~= "\x1b[37mTime\x1b[0m "@);
    assert(crate::render::time_line(seconds) =~= "\x1b[37mTime\x1b[0m "@ + a + ":"@ + b);
}

/// The lines of a slot are its gauges, drawn in order, and its time.
pub proof fn law_slot_lines_are_gauges_and_time(
    stats: &InferenceStats,
    skip_progress: bool,
    measures: &Vec<Measure>,
    inks: &Vec<Ink>,
    seconds: u64,
    r: Vec<String>,
    gauges: &Vec<Gauge>,
    drawn: Vec<String>,
)
    requires
        call_ensures(draw_inference_bars, (stats, skip_progress, measures, inks, seconds), r),
        call_ensures(gauges_of_slot, (stats, skip_progress), *gauges),
        call_ensures(draw_gauges, (gauges, measures, inks), drawn),
    ensures
        r@.len() == drawn@.len() + 1,
        forall|i: int| 0 <= i < drawn@.len() ==> (#[trigger] r@[i])@ == drawn@[i]@,
        is_time_line(r@[drawn@.len() as int]@, seconds as nat),
{
    let n = drawn@.len() as int;
    assert(texts(r@).len() == r@.len());
    assert(texts(drawn@).len() == n);
    assert(texts(r@) == texts(drawn@).push(crate::render::time_line(seconds as nat)));
    assert forall|i: int| 0 <= i < n implies (#[trigger] r@[i])@ == drawn@[i]@ by {
        assert(texts(r@)[i] == texts(drawn@)[i]);
    }
    assert(texts(r@)[n] == r@[n]@);
    lemma_time_line(seconds as nat);
}

/// The lines of a slot, in the colours of the configuration, are its gauges
/// and its time, drawn in codes for these colours.
pub proof fn law_slot_lines_have_their_colors(
    stats: &InferenceStats,
    skip_progress: bool,
    measures: &Vec<Measure>,
    seconds: u64,
    config: &Config,
    r: Vec<String>,
    gauges: Vec<Gauge>,
) -> (inks: Seq<InkView>)
    requires
        measures@.len() == gauges@.len(),
        call_ensures(render_inference_bars, (stats, skip_progress, measures, seconds, config), r),
        call_ensures(gauges_of_slot, (stats, skip_progress), gauges),
    ensures
        inks.len() == gauges@.len(),
        r@.len() == gauges@.len() + 1,
        forall|i: int|
            0 <= i < gauges@.len() ==> selects((#[trigger] inks[i]).on, gauges@[i].color)
                && selects(inks[i].off, color_of(config.bar_empty@)) && r@[i]@ == gauge_line(
                gauges@[i]@,
                measures@[i]@,
                inks[i],
            ),
        is_time_line(r@[gauges@.len() as int]@, seconds as nat),
{
    let views = inference_gauges(*stats, skip_progress);
    let empty = color_of(config.bar_empty@);
    assert(gauge_views(gauges@) == views);
    assert(views.len() == gauges@.len());
    let inks = choose|inks: Seq<InkView>|
        inks_suit(inks, views, empty) && texts(r@) == #[trigger] inference_lines(
            views,
            measure_views(measures@),
            inks,
            seconds as nat,
        );
    assert(texts(r@).len() == r@.len());
    assert forall|i: int| 0 <= i < gauges@.len() implies selects(
        (#[trigger] inks[i]).on,
        gauges@[i].color,
    ) && selects(inks[i].off, empty) && r@[i]@ == gauge_line(
        gauges@[i]@,
        measures@[i]@,
        inks[i],
    ) by {
        assert(inks[i].suits(views[i].color, empty));
        assert(views[i] == gauges@[i]@);
        assert(texts(r@)[i] == r@[i]@);
        assert(measure_views(measures@)[i] == measures@[i]@);
    }
    assert(texts(r@)[gauges@.len() as int] == r@[gauges@.len() as int]@);
    lemma_time_line(seconds as nat);
    inks
}

/// The lines of some slots are those of each, in order.
pub proof fn law_slots_have_their_lines(
    stats: &[InferenceStats],
    all_idle: bool,
    measures: &Vec<Vec<Measure>>,
    seconds: &Vec<u64>,
    config: &Config,
    r: Vec<Vec<String>>,
    i: int,
    gauges: Vec<Gauge>,
) -> (inks: Seq<InkView>)
    requires
        0 <= i < stats@.len(),
        measures@.len() == stats@.len(),
        seconds@.len() == stats@.len(),
        measures@[i]@.len() == gauges@.len(),
        call_ensures(render_slots, (stats, all_idle, measures, seconds, config), r),
        call_ensures(gauges_of_slot, (&stats@[i], all_idle), gauges),
    ensures
        r@.len() == stats@.len(),
        inks.len() == gauges@.len(),
        r@[i]@.len() == gauges@.len() + 1,
        forall|k: int|
            0 <= k < gauges@.len() ==> selects((#[trigger] inks[k]).on, gauges@[k].color)
                && selects(inks[k].off, color_of(config.bar_empty@)) && r@[i]@[k]@ == gauge_line(
                gauges@[k]@,
                measures@[i]@[k]@,
                inks[k],
            ),
        is_time_line(r@[i]@[gauges@.len() as int]@, seconds@[i] as nat),
{
    let views = inference_gauges(stats@[i], all_idle);
    let empty = color_of(config.bar_empty@);
    let own = r@[i]@;
    assert(gauge_views(gauges@) == views);
    assert(views.len() == gauges@.len());
    assert(crate::render::shows_inference(
        texts(own),
        views,
        measure_views(measures@[i]@),
        seconds@[i] as nat,
        empty,
    ));
    let inks = choose|inks: Seq<InkView>|
        inks_suit(inks, views, empty) && texts(own) == #[trigger] inference_lines(
            views,
            measure_views(measures@[i]@),
            inks,
            seconds@[i] as nat,
        );
    assert(texts(own).len() == own.len());
    assert forall|k: int| 0 <= k < gauges@.len() implies selects(
        (#[trigger] inks[k]).on,
        gauges@[k].color,
    ) && selects(inks[k].off, empty) && own[k]@ == gauge_line(
        gauges@[k]@,
        measures@[i]@[k]@,
        inks[k],
    ) by {
        assert(inks[k].suits(views[k].color, empty));
        assert(views[k] == gauges@[k]@);
        assert(texts(own)[k] == own[k]@);
        assert(measure_views(measures@[i]@)[k] == measures@[i]@[k]@);
    }
    assert(texts(own)[gauges@.len() as int] == own[gauges@.len() as int]@);
    lemma_time_line(seconds@[i] as nat);
    inks
}

// ---- lines ----------------------------------------------------------------

/// Lines end with the code that clears the rest of the row, one that is
/// printed alone with a line feed too.
pub proof fn law_lines_clear_their_row(text: &str, cleared: String, printed: String)
    requires
        call_ensures(clear_rest, (text,), cleared),
        call_ensures(println_line, (text,), printed),
    ensures
        cleared@ == text@ + "\x1b[K"@,
        printed@ == text@ + "\x1b[K\n"@,
{
}

/// A line that is printed alone.
pub open spec fn printed(text: Seq<char>) -> Seq<char> {
    text + "\x1b[K\n"@
}

// ---- GPUs -----------------------------------------------------------------

/// The lines of the first GPUs, where the GPUs are numbered from zero on.
proof fn lemma_section(
    n: nat,
    gpus: Seq<GpuInfo<Real>>,
    config: Config,
    measures: Seq<Seq<crate::bar::MeasureView>>,
    inks: Seq<Seq<InkView>>,
    i: int,
)
    requires
        0 <= i < n <= gpus.len(),
        forall|k: int| 0 <= k < gpus.len() ==> (#[trigger] gpus[k]).id == k,
    ensures
        ({
            let all = gpu_section(n, gpus, config, measures, inks);
            let views = gpu_gauges(gpus[i], config);
            &&& all.len() == if n == gpus.len() {
                11 * n - 2
            } else {
                11 * n as int
            }
            &&& all[11 * i] == printed(colored(Color::Magenta, "GPU "@ + decimal(i as nat)))
            &&& all[11 * i + 1] == printed(seq![])
            &&& forall|k: int|
                0 <= k < 7 ==> #[trigger] all[11 * i + 2 + k] == gauge_line(
                    views[k],
                    measures[i][k],
                    inks[i][k],
                ) + "\x1b[K"@
            &&& i + 1 < gpus.len() ==> all[11 * i + 9] == printed(seq![]) && all[11 * i + 10]
                == printed(repeated('\u{2500}', 38))
        }),
    decreases n,
{
    let m = (n - 1) as nat;
    let views = gpu_gauges(gpus[m as int], config);
    let before = gpu_section(m, gpus, config, measures, inks);
    let block = gpu_lines(
        gpus[m as int].id as nat,
        gpus.len(),
        views,
        measures[m as int],
        inks[m as int],
    );
    let all = gpu_section(n, gpus, config, measures, inks);
    assert(all == before + block);
    assert(gpus[m as int].id == m);
    if m > 0 {
        lemma_section(m, gpus, config, measures, inks, if i < m {
            i
        } else {
            0
        });
    }
    assert(before.len() == 11 * m);
    assert(views.len() == 7);
    let lines = gauge_lines(views, measures[m as int], inks[m as int]);
    assert(block.len() == if m + 1 < gpus.len() {
        11int
    } else {
        9int
    });
    if i < m {
        assert(all[11 * i] == before[11 * i]);
        assert(all[11 * i + 1] == before[11 * i + 1]);
        assert(all[11 * i + 9] == before[11 * i + 9]);
        assert(all[11 * i + 10] == before[11 * i + 10]);
        assert forall|k: int| 0 <= k < 7 implies #[trigger] all[11 * i + 2 + k] == gauge_line(
            gpu_gauges(gpus[i], config)[k],
            measures[i][k],
            inks[i][k],
        ) + "\x1b[K"@ by {
            assert(all[11 * i + 2 + k] == before[11 * i + 2 + k]);
        }
    } else {
        assert(i == m);
        assert(all[11 * i] == block[0]);
        assert(all[11 * i + 1] == block[1]);
        assert forall|k: int| 0 <= k < 7 implies #[trigger] all[11 * i + 2 + k] == gauge_line(
            views[k],
            measures[i][k],
            inks[i][k],
        ) + "\x1b[K"@ by {
            assert(all[11 * i + 2 + k] == block[2 + k]);
            assert(block[2 + k] == all_cleared(lines)[k]);
            assert(lines[k] == gauge_line(views[k], measures[i][k], inks[i][k]));
        }
        if i + 1 < gpus.len() {
            assert(all[11 * i + 9] == block[9]);
            assert(all[11 * i + 10] == block[10]);
        }
    }
}

/// GPUs that are numbered from zero on are drawn in order: the number of each
/// and an empty line; its seven gauges with their own measures and inks; and,
/// but for the last, an empty line and a rule.
pub proof fn law_gpus_are_drawn_in_order(
    gpus: &[GpuInfo<Real>],
    measures: &Vec<Vec<Measure>>,
    inks: &Vec<Vec<Ink>>,
    config: &Config,
    r: Vec<String>,
    i: int,
    gauges: Vec<Gauge>,
)
    requires
        call_ensures(draw_gpu_section, (gpus, measures, inks, config), r),
        0 <= i < gpus@.len(),
        forall|k: int| 0 <= k < gpus@.len() ==> (#[trigger] gpus@[k]).id == k,
        measures@.len() == gpus@.len() && measures@[i]@.len() == 7,
        inks@.len() == gpus@.len() && inks@[i]@.len() == 7,
        call_ensures(gauges_of_gpu, (&gpus@[i], config), gauges),
    ensures
        r@.len() == 11 * gpus@.len() - 2,
        r@[11 * i]@ == printed(colored(Color::Magenta, "GPU "@ + decimal(i as nat))),
        r@[11 * i + 1]@ == printed(seq![]),
        forall|k: int|
            0 <= k < 7 ==> (#[trigger] r@[11 * i + 2 + k])@ == gauge_line(
                gauges@[k]@,
                measures@[i]@[k]@,
                inks@[i]@[k].codes(),
            ) + "\x1b[K"@,
        i + 1 < gpus@.len() ==> r@[11 * i + 9]@ == printed(seq![]) && r@[11 * i + 10]@ == printed(
            repeated('\u{2500}', 38),
        ),
{
    let m = measure_table(measures@);
    let c = ink_table(inks@);
    lemma_section(gpus@.len(), gpus@, *config, m, c, i);
    let all = texts(r@);
    let views = gpu_gauges(gpus@[i], *config);
    assert(all.len() == r@.len());
    assert(gauge_views(gauges@) == views);
    assert(views.len() == 7);
    assert(m[i] == measure_views(measures@[i]@));
    assert(c[i] == ink_views(inks@[i]@));
    assert(all[11 * i] == r@[11 * i]@);
    assert(all[11 * i + 1] == r@[11 * i + 1]@);
    assert forall|k: int| 0 <= k < 7 implies (#[trigger] r@[11 * i + 2 + k])@ == gauge_line(
        gauges@[k]@,
        measures@[i]@[k]@,
        inks@[i]@[k].codes(),
    ) + "\x1b[K"@ by {
        assert(all[11 * i + 2 + k] == r@[11 * i + 2 + k]@);
        assert(views[k] == gauges@[k]@);
        assert(m[i][k] == measures@[i]@[k]@);
        assert(c[i][k] == inks@[i]@[k].codes());
    }
    if i + 1 < gpus@.len() {
        assert(all[11 * i + 9] == r@[11 * i + 9]@);
        assert(all[11 * i + 10] == r@[11 * i + 10]@);
    }
}

/// In the colours of the configuration, each gauge of each GPU is drawn in
/// codes for its own colour and for that of empty cells.
pub proof fn law_gpus_have_their_colors(
    gpus: &[GpuInfo<Real>],
    measures: &Vec<Vec<Measure>>,
    config: &Config,
    bar_empty: Color,
    r: Vec<String>,
    i: int,
    gauges: Vec<Gauge>,
) -> (inks: Seq<InkView>)
    requires
        call_ensures(render_gpu_section, (gpus, measures, config, bar_empty), r),
        0 <= i < gpus@.len(),
        forall|k: int| 0 <= k < gpus@.len() ==> (#[trigger] gpus@[k]).id == k,
        measures@.len() == gpus@.len() && measures@[i]@.len() == 7,
        call_ensures(gauges_of_gpu, (&gpus@[i], config), gauges),
    ensures
        r@.len() == 11 * gpus@.len() - 2,
        inks.len() == 7,
        forall|k: int|
            0 <= k < 7 ==> selects((#[trigger] inks[k]).on, gauges@[k].color) && selects(
                inks[k].off,
                bar_empty,
            ) && r@[11 * i + 2 + k]@ == gauge_line(gauges@[k]@, measures@[i]@[k]@, inks[k])
                + "\x1b[K"@,
{
    let m = measure_table(measures@);
    let table = choose|table: Seq<Seq<InkView>>|
        crate::render::gpu_inks_suit(table, gpus@, *config, bar_empty) && texts(r@)
            == #[trigger] gpu_section(gpus@.len(), gpus@, *config, m, table);
    lemma_section(gpus@.len(), gpus@, *config, m, table, i);
    let all = texts(r@);
    let views = gpu_gauges(gpus@[i], *config);
    let inks = table[i];
    assert(all.len() == r@.len());
    assert(gauge_views(gauges@) == views);
    assert(views.len() == 7);
    assert(m[i] == measure_views(measures@[i]@));
    assert(inks_suit(table[i], views, bar_empty));
    assert forall|k: int| 0 <= k < 7 implies selects((#[trigger] inks[k]).on, gauges@[k].color)
        && selects(inks[k].off, bar_empty) && r@[11 * i + 2 + k]@ == gauge_line(
        gauges@[k]@,
        measures@[i]@[k]@,
        inks[k],
    ) + "\x1b[K"@ by {
        assert(inks[k].suits(views[k].color, bar_empty));
        assert(all[11 * i + 2 + k] == r@[11 * i + 2 + k]@);
        assert(views[k] == gauges@[k]@);
        assert(m[i][k] == measures@[i]@[k]@);
    }
    inks
}

// ---- header ---------------------------------------------------------------

/// The name of a file is what follows its last slash, and all of it where it
/// has none.
pub proof fn law_file_name_follows_the_last_slash(directory: Seq<char>, name: Seq<char>)
    requires
        forall|i: int| 0 <= i < name.len() ==> #[trigger] name[i] != '/',
    ensures
        base_name(directory + seq!['/'] + name) == name,
        base_name(name) == name,
{
    let path = directory + seq!['/'] + name;
    let start = directory.len() as int + 1;
    assert(path[start - 1] == '/');
    assert forall|i: int| start <= i < path.len() implies CharClass::Not('/').holds(
        #[trigger] path[i],
    ) by {
        assert(path[i] == name[i - start]);
    }
    lemma_run_before(path, start, path.len() as int, CharClass::Not('/'));
    assert(path.skip(start) =~= name);
    lemma_run_before(name, 0, name.len() as int, CharClass::Not('/'));
    assert(name.skip(0) =~= name);
}

/// Without a server the header is the title, that no server runs, a rule and
/// an empty line.
pub proof fn law_header_without_server(
    models: Option<&Vec<String>>,
    config: &Config,
    r: Vec<String>,
)
    requires
        call_ensures(render_header, (None::<&LlamaServerInfo>, models, config), r),
    ensures
        r@.len() == 4,
        r@[0]@ == printed(colored(color_of(config.title@), "NV-SMI"@)),
        r@[1]@ == printed(colored(Color::White, "(no llama-server running)"@)),
        r@[2]@ == printed(repeated('\u{2500}', 38)),
        r@[3]@ == printed(seq![]),
{
    assert(texts(r@).len() == r@.len());
    assert(texts(r@)[0] == r@[0]@);
    assert(texts(r@)[1] == r@[1]@);
    assert(texts(r@)[2] == r@[2]@);
    assert(texts(r@)[3] == r@[3]@);
}

/// With a server the header is the title; the name of the model, with a tag
/// where the server sees and one where it embeds; the listed flags in order;
/// the names of the embedding models, where there are any, in order; a rule
/// and an empty line.
pub proof fn law_header_with_server(
    info: &LlamaServerInfo,
    models: Option<&Vec<String>>,
    config: &Config,
    r: Vec<String>,
)
    requires
        call_ensures(render_header, (Some(info), models, config), r),
    ensures
        ({
            let n = info.params@.len() as int;
            let m = match models {
                Some(all) => 1 + all@.len() as int,
                None => 0,
            };
            let name = colored(Color::Yellow, "Model: "@ + base_name(info.model@));
            let vision = colored(Color::Cyan, "[VISION]"@);
            let embeds = colored(Color::Magenta, "[EMBEDDING]"@);
            &&& r@.len() == n + m + 4
            &&& r@[0]@ == printed(colored(color_of(config.title@), "NV-SMI"@))
            &&& !info.multimodal && !info.embedding ==> r@[1]@ == printed(name)
            &&& info.multimodal && !info.embedding ==> r@[1]@ == printed(name + " "@ + vision)
            &&& !info.multimodal && info.embedding ==> r@[1]@ == printed(name + " "@ + embeds)
            &&& info.multimodal && info.embedding ==> r@[1]@ == printed(
                name + " "@ + (vision + " "@ + embeds),
            )
            &&& forall|i: int|
                0 <= i < n ==> (#[trigger] r@[2 + i])@ == printed(
                    colored(Color::White, info.params@[i].0@ + "="@ + info.params@[i].1@),
                )
            &&& models matches Some(all) ==> r@[2 + n]@ == printed(
                colored(Color::Magenta, "Embedding model(s):"@),
            ) && forall|i: int|
                0 <= i < all@.len() ==> (#[trigger] r@[3 + n + i])@ == printed(
                    "  "@ + colored(Color::White, base_name(all@[i]@)),
                )
            &&& r@[n + m + 2]@ == printed(repeated('\u{2500}', 38))
            &&& r@[n + m + 3]@ == printed(seq![])
        }),
{
    let n = info.params@.len() as int;
    let views = match models {
        Some(all) => Some(texts(all@)),
        None => None,
    };
    let m = match models {
        Some(all) => 1 + all@.len() as int,
        None => 0,
    };
    let all = header(Some(info), views, color_of(config.title@));
    let embedded = crate::render::embedding_lines(views);
    assert(texts(r@) == all);
    assert(texts(r@).len() == r@.len());
    assert(param_lines(params_view(info.params@)).len() == n);
    assert(embedded.len() == m);
    assert(all.len() == n + m + 4);
    assert(texts(r@)[0] == r@[0]@);
    assert(texts(r@)[1] == r@[1]@);
    assert forall|i: int| 0 <= i < n implies (#[trigger] r@[2 + i])@ == printed(
        colored(Color::White, info.params@[i].0@ + "="@ + info.params@[i].1@),
    ) by {
        assert(texts(r@)[2 + i] == r@[2 + i]@);
        assert(all[2 + i] == param_lines(params_view(info.params@))[i]);
    }
    if let Some(list) = models {
        assert(texts(r@)[2 + n] == r@[2 + n]@);
        assert(all[2 + n] == embedded[0]);
        assert forall|i: int| 0 <= i < list@.len() implies (#[trigger] r@[3 + n + i])@ == printed(
            "  "@ + colored(Color::White, base_name(list@[i]@)),
        ) by {
            assert(texts(r@)[3 + n + i] == r@[3 + n + i]@);
            assert(all[3 + n + i] == embedded[1 + i]);
            assert(texts(list@)[i] == list@[i]@);
        }
    }
    assert(texts(r@)[n + m + 2] == r@[n + m + 2]@);
    assert(texts(r@)[n + m + 3] == r@[n + m + 3]@);
}

// ---- log ------------------------------------------------------------------

/// The heading of the log is an empty line, its name in the colour of titles,
/// and a double rule.
pub proof fn law_log_has_its_heading(config: &Config, r: Vec<String>)
    requires
        call_ensures(render_log_heading, (config,), r),
    ensures
        r@.len() == 3,
        r@[0]@ == printed(seq![]),
        r@[1]@ == printed(colored(color_of(config.title@), "LOG"@)),
        r@[2]@ == printed(repeated('\u{2550}', 43)),
{
    assert(texts(r@).len() == r@.len());
    assert(texts(r@)[0] == r@[0]@);
    assert(texts(r@)[1] == r@[1]@);
    assert(texts(r@)[2] == r@[2]@);
}

/// The raw log is an empty line, its name in the colour of titles, a rule, and
/// the window of as many lines as are configured.
pub proof fn law_raw_log_shows_the_window(
    lines: &[String],
    config: &Config,
    window: Vec<String>,
    r: Vec<String>,
)
    requires
        call_ensures(render_raw_log, (lines, config), r),
        call_ensures(render_log_window, (lines, config.log_lines), window),
    ensures
        r@.len() == 3 + window@.len(),
        r@[0]@ == printed(seq![]),
        r@[1]@ == printed(colored(color_of(config.title@), "RAW LOG"@)),
        r@[2]@ == printed(repeated('\u{2500}', 43)),
        forall|i: int|
            0 <= i < window@.len() ==> (#[trigger] r@[3 + i])@ == window@[i]@ + "\x1b[K"@,
{
    assert(texts(r@).len() == r@.len());
    assert(texts(r@)[0] == r@[0]@);
    assert(texts(r@)[1] == r@[1]@);
    assert(texts(r@)[2] == r@[2]@);
    assert(last_n(texts(lines@), config.log_lines as nat) =~= texts(window@));
    assert forall|i: int| 0 <= i < window@.len() implies (#[trigger] r@[3 + i])@ == window@[i]@
        + "\x1b[K"@ by {
        assert(texts(r@)[3 + i] == r@[3 + i]@);
        assert(texts(window@)[i] == window@[i]@);
    }
}

/// A rule is one character, as many times as it is long.
pub proof fn law_rule_repeats_its_character(c: char, n: nat)
    ensures
        repeated(c, n).len() == n,
        forall|i: int| 0 <= i < n ==> #[trigger] repeated(c, n)[i] == c,
{
}

} // verus!
