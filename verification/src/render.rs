//! The lines of the screen's sections.

use vstd::prelude::*;
use vstd::slice::slice_subrange;

use crate::bar::{
    draw_gauges, gauge_lines, gauge_views, ink_views, inks_for, inks_suit, measure_views, Caption,
    CaptionView, Gauge, GaugeView, Ink, InkView, Measure, MeasureView, Quantity,
};
use crate::color::{color_of, colored, format_colored, parse_color_str, Color};
use crate::config::Config;
use crate::gpu::{get_temp_color, get_util_color, temp_color, util_color, GpuInfo};
use crate::log::{last_n, render_log_window};
use crate::number::{decimal, push_decimal, push_two_digits, two_digits};
use crate::process::{params_view, LlamaServerInfo};
use crate::reading::Real;
use crate::text::{chars_of, run_start, start_of_run, text_of, texts, CharClass};
use crate::timing::InferenceStats;

verus! {

// ---- ends of lines --------------------------------------------------------

/// `text`, with the rest of its row cleared.
pub open spec fn cleared(text: Seq<char>) -> Seq<char> {
    text + "\x1b[K"@
}

/// `text`, with the rest of its row cleared and the row ended.
pub open spec fn ended(text: Seq<char>) -> Seq<char> {
    text + "\x1b[K\n"@
}

/// `n` times the character `c`.
pub open spec fn repeated(c: char, n: nat) -> Seq<char> {
    Seq::new(n, |i: int| c)
}

/// `text`, with the rest of its row cleared.
pub fn clear_rest(text: &str) -> (r: String)
    ensures
        r@ == cleared(text@),
{
    let mut r = text.to_string();
    r.append("\x1b[K");
    r
}

/// `text`, with the rest of its row cleared and the row ended.
pub fn println_line(text: &str) -> (r: String)
    ensures
        r@ == ended(text@),
{
    let mut r = text.to_string();
    r.append("\x1b[K\n");
    r
}

pub(crate) fn repeat(c: char, n: usize) -> (r: String)
    ensures
        r@ == repeated(c, n as nat),
{
    let mut r = String::new();
    let mut i: usize = 0;
    proof {
        assert(r@ =~= repeated(c, 0));
    }
    while i < n
        invariant
            i <= n,
            r@ == repeated(c, i as nat),
        decreases n - i,
    {
        r.push(c);
        i += 1;
        proof {
            assert(r@ =~= repeated(c, i as nat));
        }
    }
    r
}

/// Appends a line.
fn push_line(lines: &mut Vec<String>, line: String)
    ensures
        texts(final(lines)@) == texts(old(lines)@).push(line@),
{
    lines.push(line);
    proof {
        assert(texts(lines@) =~= texts(old(lines)@).push(line@));
    }
}

/// Appends lines.
fn push_lines(lines: &mut Vec<String>, more: Vec<String>)
    ensures
        texts(final(lines)@) == texts(old(lines)@) + texts(more@),
{
    let mut rest = more;
    lines.append(&mut rest);
    proof {
        assert(texts(lines@) =~= texts(old(lines)@) + texts(more@));
    }
}

// ---- header ---------------------------------------------------------------

/// What follows the last slash of a path.
pub open spec fn base_name(path: Seq<char>) -> Seq<char> {
    path.skip(run_start(path, path.len() as int, CharClass::Not('/')))
}

/// The tags of a server: that it sees, and that it embeds.
pub open spec fn tags(multimodal: bool, embedding: bool) -> Seq<char> {
    let vision = colored(Color::Cyan, "[VISION]"@);
    let embeds = colored(Color::Magenta, "[EMBEDDING]"@);
    if multimodal && embedding {
        vision + " "@ + embeds
    } else if multimodal {
        vision
    } else if embedding {
        embeds
    } else {
        seq![]
    }
}

/// The line that names the model and its tags.
pub open spec fn model_line(info: LlamaServerInfo) -> Seq<char> {
    let name = colored(Color::Yellow, "Model: "@ + base_name(info.model@));
    if info.multimodal || info.embedding {
        name + " "@ + tags(info.multimodal, info.embedding)
    } else {
        name
    }
}

/// One line for each listed flag.
pub open spec fn param_lines(params: Seq<(Seq<char>, Seq<char>)>) -> Seq<Seq<char>> {
    Seq::new(
        params.len(),
        |i: int| ended(colored(Color::White, params[i].0 + "="@ + params[i].1)),
    )
}

/// A heading and one line for each embedding model.
pub open spec fn embedding_lines(models: Option<Seq<Seq<char>>>) -> Seq<Seq<char>> {
    match models {
        Some(all) => seq![ended(colored(Color::Magenta, "Embedding model(s):"@))] + Seq::new(
            all.len(),
            |i: int| ended("  "@ + colored(Color::White, base_name(all[i]))),
        ),
        None => seq![],
    }
}

/// The lines of the header: the title; what is known of the server; a rule and
/// an empty line.
pub open spec fn header(
    server: Option<&LlamaServerInfo>,
    models: Option<Seq<Seq<char>>>,
    title: Color,
) -> Seq<Seq<char>> {
    seq![ended(colored(title, "NV-SMI"@))] + match server {
        Some(info) => seq![ended(model_line(*info))] + param_lines(params_view(info.params@))
            + embedding_lines(models),
        None => seq![ended(colored(Color::White, "(no llama-server running)"@))],
    } + seq![ended(repeated('\u{2500}', 38)), ended(seq![])]
}

fn name_of(path: &str) -> (r: String)
    ensures
        r@ == base_name(path@),
{
    let chars = chars_of(path);
    let start: usize = start_of_run(chars.as_slice(), chars.len(), CharClass::Not('/'));
    let name = slice_subrange(chars.as_slice(), start, chars.len());
    proof {
        assert(name@ =~= path@.skip(start as int));
    }
    text_of(name)
}

fn model_text(info: &LlamaServerInfo) -> (r: String)
    ensures
        r@ == model_line(*info),
{
    let mut label = "Model: ".to_string();
    label.append(name_of(info.model.as_str()).as_str());
    let mut r = format_colored(Color::Yellow, label.as_str());
    if info.multimodal || info.embedding {
        r.append(" ");
        let ghost name = r@;
        if info.multimodal {
            r.append(format_colored(Color::Cyan, "[VISION]").as_str());
        }
        if info.multimodal && info.embedding {
            r.append(" ");
        }
        if info.embedding {
            r.append(format_colored(Color::Magenta, "[EMBEDDING]").as_str());
        }
        proof {
            assert(r@ =~= name + tags(info.multimodal, info.embedding));
        }
    }
    r
}

fn draw_params(params: &Vec<(String, String)>) -> (r: Vec<String>)
    ensures
        texts(r@) == param_lines(params_view(params@)),
{
    let mut r: Vec<String> = Vec::new();
    let mut i: usize = 0;
    while i < params.len()
        invariant
            i <= params@.len(),
            r@.len() == i,
            forall|k: int|
                0 <= k < i ==> (#[trigger] r@[k])@ == param_lines(params_view(params@))[k],
        decreases params@.len() - i,
    {
        let mut pair = params[i].0.clone();
        pair.append("=");
        pair.append(params[i].1.as_str());
        r.push(println_line(format_colored(Color::White, pair.as_str()).as_str()));
        i += 1;
    }
    proof {
        assert(texts(r@) =~= param_lines(params_view(params@)));
    }
    r
}

fn draw_embedding_models(models: &Vec<String>) -> (r: Vec<String>)
    ensures
        texts(r@) == embedding_lines(Some(texts(models@))),
{
    let mut r: Vec<String> = Vec::new();
    r.push(println_line(format_colored(Color::Magenta, "Embedding model(s):").as_str()));
    let ghost want = embedding_lines(Some(texts(models@)));
    let mut i: usize = 0;
    while i < models.len()
        invariant
            i <= models@.len(),
            r@.len() == i + 1,
            want == embedding_lines(Some(texts(models@))),
            forall|k: int| 0 <= k < i + 1 ==> (#[trigger] r@[k])@ == want[k],
        decreases models@.len() - i,
    {
        let mut line = "  ".to_string();
        let name = name_of(models[i].as_str());
        line.append(format_colored(Color::White, name.as_str()).as_str());
        r.push(println_line(line.as_str()));
        i += 1;
    }
    proof {
        assert(texts(r@) =~= want);
    }
    r
}

/// The lines of the header.
pub fn render_header(
    llama_info: Option<&LlamaServerInfo>,
    embedding_models: Option<&Vec<String>>,
    config: &Config,
) -> (r: Vec<String>)
    ensures
        texts(r@) == header(
            llama_info,
            match embedding_models {
                Some(models) => Some(texts(models@)),
                None => None,
            },
            color_of(config.title@),
        ),
{
    let mut r: Vec<String> = Vec::new();
    let title = parse_color_str(config.title.as_str());
    push_line(&mut r, println_line(format_colored(title, "NV-SMI").as_str()));
    match llama_info {
        Some(info) => {
            push_line(&mut r, println_line(model_text(info).as_str()));
            push_lines(&mut r, draw_params(&info.params));
            match embedding_models {
                Some(models) => push_lines(&mut r, draw_embedding_models(models)),
                None => {},
            }
        },
        None => {
            push_line(
                &mut r,
                println_line(format_colored(Color::White, "(no llama-server running)").as_str()),
            );
        },
    }
    push_line(&mut r, println_line(repeat('\u{2500}', 38).as_str()));
    proof {
        reveal_strlit("");
        assert(""@ =~= seq![]);
    }
    push_line(&mut r, println_line(""));
    proof {
        assert(texts(r@) =~= header(
            llama_info,
            match embedding_models {
                Some(models) => Some(texts(models@)),
                None => None,
            },
            color_of(config.title@),
        ));
    }
    r
}

// ---- GPUs -----------------------------------------------------------------

/// `a`, a slash, `b`.
pub open spec fn ratio_text(a: nat, b: nat) -> Seq<char> {
    decimal(a) + "/"@ + decimal(b)
}

/// What is left of `whole` beside `part`; nothing where the part is larger.
pub open spec fn remainder(whole: u32, part: u32) -> u32 {
    if whole >= part {
        (whole - part) as u32
    } else {
        0
    }
}

/// The gauges of a GPU.
pub open spec fn gpu_gauges(gpu: GpuInfo<Real>, config: Config) -> Seq<GaugeView> {
    let power = color_of(config.power@);
    let memory = color_of(config.memory@);
    let power_left = remainder(gpu.power_cap, gpu.power_usage);
    let memory_free = remainder(gpu.memory_total, gpu.memory_used);
    seq![
        GaugeView {
            label: "Temp"@,
            quantity: Quantity::Value(gpu.temperature),
            max: 100,
            color: temp_color(gpu.temperature, config),
            caption: CaptionView::Whole,
            unit: "\u{00B0}C"@,
        },
        GaugeView {
            label: "Fan"@,
            quantity: Quantity::Value(gpu.fan_speed),
            max: 100,
            color: Color::DarkCyan,
            caption: CaptionView::Places(0),
            unit: "%"@,
        },
        GaugeView {
            label: "Power"@,
            quantity: Quantity::Share { part: gpu.power_usage, whole: gpu.power_cap },
            max: 100,
            color: power,
            caption: CaptionView::Written(
                ratio_text(gpu.power_usage as nat, gpu.power_cap as nat),
            ),
            unit: "W"@,
        },
        GaugeView {
            label: "Pwr Left"@,
            quantity: Quantity::Count(power_left),
            max: gpu.power_cap,
            color: power,
            caption: CaptionView::Written(decimal(power_left as nat)),
            unit: "W"@,
        },
        GaugeView {
            label: "Memory"@,
            quantity: Quantity::Share { part: gpu.memory_used, whole: gpu.memory_total },
            max: 100,
            color: memory,
            caption: CaptionView::Written(
                ratio_text(gpu.memory_used as nat, gpu.memory_total as nat),
            ),
            unit: "MiB"@,
        },
        GaugeView {
            label: "Mem Free"@,
            quantity: Quantity::Count(memory_free),
            max: gpu.memory_total,
            color: memory,
            caption: CaptionView::Written(decimal(memory_free as nat)),
            unit: "MiB"@,
        },
        GaugeView {
            label: "Util"@,
            quantity: Quantity::Value(gpu.gpu_util),
            max: 100,
            color: util_color(gpu.gpu_util, config),
            caption: CaptionView::Whole,
            unit: "%"@,
        },
    ]
}

fn written_ratio(a: u32, b: u32) -> (r: String)
    ensures
        r@ == ratio_text(a as nat, b as nat),
{
    let mut r = String::new();
    push_decimal(&mut r, a as u64);
    r.append("/");
    push_decimal(&mut r, b as u64);
    proof {
        assert(r@ =~= ratio_text(a as nat, b as nat));
    }
    r
}

fn written(n: u64) -> (r: String)
    ensures
        r@ == decimal(n as nat),
{
    let mut r = String::new();
    push_decimal(&mut r, n);
    proof {
        assert(r@ =~= decimal(n as nat));
    }
    r
}

fn rest_of(whole: u32, part: u32) -> (r: u32)
    ensures
        r == remainder(whole, part),
{
    if whole >= part {
        whole - part
    } else {
        0
    }
}

/// The gauges of a GPU.
pub fn gauges_of_gpu(gpu: &GpuInfo<Real>, config: &Config) -> (r: Vec<Gauge>)
    ensures
        gauge_views(r@) == gpu_gauges(*gpu, *config),
{
    let power = parse_color_str(config.power.as_str());
    let memory = parse_color_str(config.memory.as_str());
    let power_left: u32 = rest_of(gpu.power_cap, gpu.power_usage);
    let memory_free: u32 = rest_of(gpu.memory_total, gpu.memory_used);
    let r: Vec<Gauge> = vec![
        Gauge {
            label: "Temp".to_string(),
            quantity: Quantity::Value(gpu.temperature),
            max: 100,
            color: get_temp_color(gpu.temperature, config),
            caption: Caption::Whole,
            unit: "\u{00B0}C".to_string(),
        },
        Gauge {
            label: "Fan".to_string(),
            quantity: Quantity::Value(gpu.fan_speed),
            max: 100,
            color: Color::DarkCyan,
            caption: Caption::Places(0),
            unit: "%".to_string(),
        },
        Gauge {
            label: "Power".to_string(),
            quantity: Quantity::Share { part: gpu.power_usage, whole: gpu.power_cap },
            max: 100,
            color: power,
            caption: Caption::Written(written_ratio(gpu.power_usage, gpu.power_cap)),
            unit: "W".to_string(),
        },
        Gauge {
            label: "Pwr Left".to_string(),
            quantity: Quantity::Count(power_left),
            max: gpu.power_cap,
            color: power,
            caption: Caption::Written(written(power_left as u64)),
            unit: "W".to_string(),
        },
        Gauge {
            label: "Memory".to_string(),
            quantity: Quantity::Share { part: gpu.memory_used, whole: gpu.memory_total },
            max: 100,
            color: memory,
            caption: Caption::Written(written_ratio(gpu.memory_used, gpu.memory_total)),
            unit: "MiB".to_string(),
        },
        Gauge {
            label: "Mem Free".to_string(),
            quantity: Quantity::Count(memory_free),
            max: gpu.memory_total,
            color: memory,
            caption: Caption::Written(written(memory_free as u64)),
            unit: "MiB".to_string(),
        },
        Gauge {
            label: "Util".to_string(),
            quantity: Quantity::Value(gpu.gpu_util),
            max: 100,
            color: get_util_color(gpu.gpu_util, config),
            caption: Caption::Whole,
            unit: "%".to_string(),
        },
    ];
    proof {
        assert(gauge_views(r@) =~= gpu_gauges(*gpu, *config));
    }
    r
}

/// Lines with the rest of their rows cleared.
pub open spec fn all_cleared(lines: Seq<Seq<char>>) -> Seq<Seq<char>> {
    Seq::new(lines.len(), |i: int| cleared(lines[i]))
}

/// The lines of a GPU: its number and an empty line; its gauges; an empty line
/// and a rule where its number is not the last of `total`.
pub open spec fn gpu_lines(
    id: nat,
    total: nat,
    gauges: Seq<GaugeView>,
    measures: Seq<MeasureView>,
    inks: Seq<InkView>,
) -> Seq<Seq<char>> {
    seq![ended(colored(Color::Magenta, "GPU "@ + decimal(id))), ended(seq![])] + all_cleared(
        gauge_lines(gauges, measures, inks),
    ) + if id + 1 < total {
        seq![ended(seq![]), ended(repeated('\u{2500}', 38))]
    } else {
        seq![]
    }
}

/// The lines of the first `n` of some GPUs.
pub open spec fn gpu_section(
    n: nat,
    gpus: Seq<GpuInfo<Real>>,
    config: Config,
    measures: Seq<Seq<MeasureView>>,
    inks: Seq<Seq<InkView>>,
) -> Seq<Seq<char>>
    decreases n,
{
    if n == 0 {
        seq![]
    } else {
        let i = n - 1;
        gpu_section((n - 1) as nat, gpus, config, measures, inks) + gpu_lines(
            gpus[i].id as nat,
            gpus.len(),
            gpu_gauges(gpus[i], config),
            measures[i],
            inks[i],
        )
    }
}

pub open spec fn measure_table(measures: Seq<Vec<Measure>>) -> Seq<Seq<MeasureView>> {
    Seq::new(measures.len(), |i: int| measure_views(measures[i]@))
}

pub open spec fn ink_table(inks: Seq<Vec<Ink>>) -> Seq<Seq<InkView>> {
    Seq::new(inks.len(), |i: int| ink_views(inks[i]@))
}

/// There is an ink for the colour of each gauge of each GPU.
pub open spec fn gpu_inks_suit(
    inks: Seq<Seq<InkView>>,
    gpus: Seq<GpuInfo<Real>>,
    config: Config,
    bar_empty: Color,
) -> bool {
    inks.len() == gpus.len() && forall|i: int|
        0 <= i < inks.len() ==> inks_suit(#[trigger] inks[i], gpu_gauges(gpus[i], config), bar_empty)
}

/// There is a measure for each gauge of each GPU.
pub open spec fn measures_fit(measures: Seq<Vec<Measure>>, gpus: Seq<GpuInfo<Real>>) -> bool {
    measures.len() == gpus.len() && forall|i: int|
        0 <= i < measures.len() ==> (#[trigger] measures[i])@.len() == 7
}

fn clear_all(lines: &Vec<String>) -> (r: Vec<String>)
    ensures
        texts(r@) == all_cleared(texts(lines@)),
{
    let mut r: Vec<String> = Vec::new();
    let mut i: usize = 0;
    while i < lines.len()
        invariant
            i <= lines@.len(),
            r@.len() == i,
            forall|k: int| 0 <= k < i ==> (#[trigger] r@[k])@ == cleared(lines@[k]@),
        decreases lines@.len() - i,
    {
        r.push(clear_rest(lines[i].as_str()));
        i += 1;
    }
    proof {
        assert(texts(r@) =~= all_cleared(texts(lines@)));
    }
    r
}

fn draw_gpu(
    gpu: &GpuInfo<Real>,
    total: usize,
    measures: &Vec<Measure>,
    inks: &Vec<Ink>,
    config: &Config,
) -> (r: Vec<String>)
    requires
        measures@.len() == 7,
        inks@.len() == 7,
    ensures
        texts(r@) == gpu_lines(
            gpu.id as nat,
            total as nat,
            gpu_gauges(*gpu, *config),
            measure_views(measures@),
            ink_views(inks@),
        ),
{
    let mut r: Vec<String> = Vec::new();
    let mut label = "GPU ".to_string();
    push_decimal(&mut label, gpu.id as u64);
    push_line(&mut r, println_line(format_colored(Color::Magenta, label.as_str()).as_str()));
    proof {
        reveal_strlit("");
        assert(""@ =~= seq![]);
    }
    push_line(&mut r, println_line(""));
    let gauges = gauges_of_gpu(gpu, config);
    proof {
        assert(gauge_views(gauges@).len() == gauges@.len());
    }
    let bars = draw_gauges(&gauges, measures, inks);
    push_lines(&mut r, clear_all(&bars));
    if total > 1 && gpu.id < total - 1 {
        push_line(&mut r, println_line(""));
        push_line(&mut r, println_line(repeat('\u{2500}', 38).as_str()));
    }
    proof {
        assert(texts(r@) =~= gpu_lines(
            gpu.id as nat,
            total as nat,
            gpu_gauges(*gpu, *config),
            measure_views(measures@),
            ink_views(inks@),
        ));
    }
    r
}

/// The lines of the GPUs, with the codes for the colours of their bars.
pub fn draw_gpu_section(
    gpus: &[GpuInfo<Real>],
    measures: &Vec<Vec<Measure>>,
    inks: &Vec<Vec<Ink>>,
    config: &Config,
) -> (r: Vec<String>)
    requires
        measures_fit(measures@, gpus@),
        inks@.len() == gpus@.len(),
        forall|i: int| 0 <= i < inks@.len() ==> (#[trigger] inks@[i])@.len() == 7,
    ensures
        texts(r@) == gpu_section(
            gpus@.len(),
            gpus@,
            *config,
            measure_table(measures@),
            ink_table(inks@),
        ),
{
    let mut r: Vec<String> = Vec::new();
    let mut i: usize = 0;
    proof {
        assert(texts(r@) =~= seq![]);
    }
    while i < gpus.len()
        invariant
            i <= gpus@.len(),
            measures_fit(measures@, gpus@),
            inks@.len() == gpus@.len(),
            forall|k: int| 0 <= k < inks@.len() ==> (#[trigger] inks@[k])@.len() == 7,
            texts(r@) == gpu_section(
                i as nat,
                gpus@,
                *config,
                measure_table(measures@),
                ink_table(inks@),
            ),
        decreases gpus@.len() - i,
    {
        let block = draw_gpu(&gpus[i], gpus.len(), &measures[i], &inks[i], config);
        push_lines(&mut r, block);
        i += 1;
    }
    r
}

/// The lines of the GPUs.
pub fn render_gpu_section(
    gpus: &[GpuInfo<Real>],
    measures: &Vec<Vec<Measure>>,
    config: &Config,
    bar_empty: Color,
) -> (r: Vec<String>)
    requires
        measures_fit(measures@, gpus@),
    ensures
        exists|inks: Seq<Seq<InkView>>|
            gpu_inks_suit(inks, gpus@, *config, bar_empty) && texts(r@) == #[trigger] gpu_section(
                gpus@.len(),
                gpus@,
                *config,
                measure_table(measures@),
                inks,
            ),
{
    let mut inks: Vec<Vec<Ink>> = Vec::new();
    let mut i: usize = 0;
    while i < gpus.len()
        invariant
            i <= gpus@.len(),
            inks@.len() == i,
            forall|k: int|
                0 <= k < i ==> inks_suit(
                    ink_views((#[trigger] inks@[k])@),
                    gpu_gauges(gpus@[k], *config),
                    bar_empty,
                ),
        decreases gpus@.len() - i,
    {
        let gauges = gauges_of_gpu(&gpus[i], config);
        inks.push(inks_for(&gauges, bar_empty));
        i += 1;
    }
    proof {
        assert forall|k: int| 0 <= k < inks@.len() implies (#[trigger] inks@[k])@.len() == 7 by {
            assert(ink_views(inks@[k]@).len() == inks@[k]@.len());
        }
        let table = ink_table(inks@);
        assert forall|k: int| 0 <= k < table.len() implies inks_suit(
            #[trigger] table[k],
            gpu_gauges(gpus@[k], *config),
            bar_empty,
        ) by {
            assert(table[k] == ink_views(inks@[k]@));
        }
        assert(gpu_inks_suit(table, gpus@, *config, bar_empty));
    }
    draw_gpu_section(gpus, measures, &inks, config)
}

// ---- slots ----------------------------------------------------------------

/// The count at which the bar of decoded tokens is full: the context of a
/// slot, or 1000 where it is not known.
pub open spec fn decoded_scale(stats: InferenceStats) -> u32 {
    if stats.n_decoded_max > 0 {
        stats.n_decoded_max
    } else {
        1000
    }
}

/// The gauges of a slot, progress first.
pub open spec fn slot_gauges(stats: InferenceStats) -> Seq<GaugeView> {
    seq![
        GaugeView {
            label: "Progress"@,
            quantity: Quantity::Percent(stats.progress),
            max: 100,
            color: Color::DarkCyan,
            caption: CaptionView::Places(0),
            unit: "%"@,
        },
        GaugeView {
            label: "Prompt t/s"@,
            quantity: Quantity::Value(stats.tokens_per_second),
            max: 3000,
            color: Color::DarkCyan,
            caption: CaptionView::Whole,
            unit: "/s"@,
        },
        GaugeView {
            label: "Gen t/s"@,
            quantity: Quantity::Value(stats.gen_speed_tps),
            max: 100,
            color: Color::DarkCyan,
            caption: CaptionView::Whole,
            unit: "/s"@,
        },
        GaugeView {
            label: "Decoded"@,
            quantity: Quantity::Count(stats.n_decoded),
            max: decoded_scale(stats),
            color: Color::DarkCyan,
            caption: CaptionView::Written(decimal(stats.n_decoded as nat)),
            unit: ""@,
        },
        GaugeView {
            label: "Draft"@,
            quantity: Quantity::Percent(stats.draft_acceptance),
            max: 100,
            color: Color::DarkCyan,
            caption: CaptionView::Places(1),
            unit: "%"@,
        },
        GaugeView {
            label: "Context"@,
            quantity: Quantity::Share { part: stats.ctx_used, whole: stats.ctx_n_tokens },
            max: 100,
            color: Color::DarkCyan,
            caption: CaptionView::Written(
                decimal(stats.ctx_used as nat) + " / "@ + decimal(stats.ctx_n_tokens as nat),
            ),
            unit: " tokens"@,
        },
        GaugeView {
            label: "Latency"@,
            quantity: Quantity::Value(stats.latency_ms_tok),
            max: 5,
            color: Color::DarkCyan,
            caption: CaptionView::Places(2),
            unit: "ms"@,
        },
    ]
}

/// The gauges of a slot that are shown: progress can be left out.
pub open spec fn inference_gauges(stats: InferenceStats, skip_progress: bool) -> Seq<GaugeView> {
    if skip_progress {
        slot_gauges(stats).skip(1)
    } else {
        slot_gauges(stats)
    }
}

/// The line of a time, in minutes and seconds.
pub open spec fn time_line(seconds: nat) -> Seq<char> {
    colored(Color::DarkCyan, "Time"@) + " "@ + two_digits(seconds / 60) + ":"@ + two_digits(
        seconds % 60,
    )
}

/// The lines of a slot: its gauges and its time.
pub open spec fn inference_lines(
    gauges: Seq<GaugeView>,
    measures: Seq<MeasureView>,
    inks: Seq<InkView>,
    seconds: nat,
) -> Seq<Seq<char>> {
    gauge_lines(gauges, measures, inks).push(time_line(seconds))
}

/// `lines` are those of a slot with these gauges, whatever codes stand for the
/// colours of its bars.
pub open spec fn shows_inference(
    lines: Seq<Seq<char>>,
    gauges: Seq<GaugeView>,
    measures: Seq<MeasureView>,
    seconds: nat,
    bar_empty: Color,
) -> bool {
    exists|inks: Seq<InkView>|
        inks_suit(inks, gauges, bar_empty) && lines == #[trigger] inference_lines(
            gauges,
            measures,
            inks,
            seconds,
        )
}

/// The gauges of a slot that are shown.
pub fn gauges_of_slot(stats: &InferenceStats, skip_progress: bool) -> (r: Vec<Gauge>)
    ensures
        gauge_views(r@) == inference_gauges(*stats, skip_progress),
        r@.len() == if skip_progress {
            6int
        } else {
            7int
        },
{
    let mut context = written(stats.ctx_used as u64);
    context.append(" / ");
    push_decimal(&mut context, stats.ctx_n_tokens as u64);
    let scale: u32 = if stats.n_decoded_max > 0 {
        stats.n_decoded_max
    } else {
        1000
    };
    let mut r: Vec<Gauge> = Vec::new();
    if !skip_progress {
        r.push(
            Gauge {
                label: "Progress".to_string(),
                quantity: Quantity::Percent(stats.progress),
                max: 100,
                color: Color::DarkCyan,
                caption: Caption::Places(0),
                unit: "%".to_string(),
            },
        );
    }
    r.push(
        Gauge {
            label: "Prompt t/s".to_string(),
            quantity: Quantity::Value(stats.tokens_per_second),
            max: 3000,
            color: Color::DarkCyan,
            caption: Caption::Whole,
            unit: "/s".to_string(),
        },
    );
    r.push(
        Gauge {
            label: "Gen t/s".to_string(),
            quantity: Quantity::Value(stats.gen_speed_tps),
            max: 100,
            color: Color::DarkCyan,
            caption: Caption::Whole,
            unit: "/s".to_string(),
        },
    );
    r.push(
        Gauge {
            label: "Decoded".to_string(),
            quantity: Quantity::Count(stats.n_decoded),
            max: scale,
            color: Color::DarkCyan,
            caption: Caption::Written(written(stats.n_decoded as u64)),
            unit: "".to_string(),
        },
    );
    r.push(
        Gauge {
            label: "Draft".to_string(),
            quantity: Quantity::Percent(stats.draft_acceptance),
            max: 100,
            color: Color::DarkCyan,
            caption: Caption::Places(1),
            unit: "%".to_string(),
        },
    );
    r.push(
        Gauge {
            label: "Context".to_string(),
            quantity: Quantity::Share { part: stats.ctx_used, whole: stats.ctx_n_tokens },
            max: 100,
            color: Color::DarkCyan,
            caption: Caption::Written(context),
            unit: " tokens".to_string(),
        },
    );
    r.push(
        Gauge {
            label: "Latency".to_string(),
            quantity: Quantity::Value(stats.latency_ms_tok),
            max: 5,
            color: Color::DarkCyan,
            caption: Caption::Places(2),
            unit: "ms".to_string(),
        },
    );
    proof {
        assert(gauge_views(r@) =~= inference_gauges(*stats, skip_progress));
    }
    r
}

fn time_text(seconds: u64) -> (r: String)
    ensures
        r@ == time_line(seconds as nat),
{
    let mut r = format_colored(Color::DarkCyan, "Time");
    r.append(" ");
    push_two_digits(&mut r, seconds / 60);
    r.append(":");
    push_two_digits(&mut r, seconds % 60);
    proof {
        assert(r@ =~= time_line(seconds as nat));
    }
    r
}

/// The lines of a slot, with the codes for the colours of its bars.
pub fn draw_inference_bars(
    stats: &InferenceStats,
    skip_progress: bool,
    measures: &Vec<Measure>,
    inks: &Vec<Ink>,
    seconds: u64,
) -> (r: Vec<String>)
    requires
        measures@.len() == inference_gauges(*stats, skip_progress).len(),
        inks@.len() == measures@.len(),
    ensures
        texts(r@) == inference_lines(
            inference_gauges(*stats, skip_progress),
            measure_views(measures@),
            ink_views(inks@),
            seconds as nat,
        ),
{
    let gauges = gauges_of_slot(stats, skip_progress);
    let mut r = draw_gauges(&gauges, measures, inks);
    push_line(&mut r, time_text(seconds));
    r
}

/// The lines of a slot: its bars and its time.
pub fn render_inference_bars(
    stats: &InferenceStats,
    skip_progress: bool,
    measures: &Vec<Measure>,
    seconds: u64,
    config: &Config,
) -> (r: Vec<String>)
    requires
        measures@.len() == inference_gauges(*stats, skip_progress).len(),
    ensures
        shows_inference(
            texts(r@),
            inference_gauges(*stats, skip_progress),
            measure_views(measures@),
            seconds as nat,
            color_of(config.bar_empty@),
        ),
{
    let bar_empty = parse_color_str(config.bar_empty.as_str());
    let gauges = gauges_of_slot(stats, skip_progress);
    let inks = inks_for(&gauges, bar_empty);
    proof {
        assert(ink_views(inks@).len() == inks@.len());
        assert(gauge_views(gauges@).len() == gauges@.len());
    }
    draw_inference_bars(stats, skip_progress, measures, &inks, seconds)
}

/// An idle slot shows no progress, and any other shows it first.
pub proof fn law_idle_slot_shows_no_progress(stats: InferenceStats)
    ensures
        forall|i: int|
            0 <= i < inference_gauges(stats, true).len() ==> (#[trigger] inference_gauges(
                stats,
                true,
            )[i]).label != "Progress"@,
        inference_gauges(stats, false)[0].label == "Progress"@,
        inference_gauges(stats, true) == inference_gauges(stats, false).skip(1),
{
    reveal_strlit("Progress");
    reveal_strlit("Prompt t/s");
    reveal_strlit("Gen t/s");
    reveal_strlit("Decoded");
    reveal_strlit("Draft");
    reveal_strlit("Context");
    reveal_strlit("Latency");
    let idle = inference_gauges(stats, true);
    assert forall|i: int| 0 <= i < idle.len() implies (#[trigger] idle[i]).label != "Progress"@ by {
        assert(idle[i] == slot_gauges(stats)[i + 1]);
        if idle[i].label == "Progress"@ {
            assert(idle[i].label.len() == 8 && idle[i].label[0] == 'P');
        }
    }
}

/// The gauges of each slot. Progress is left out where all slots are idle.
pub fn gauges_of_slots(stats: &[InferenceStats], all_idle: bool) -> (r: Vec<Vec<Gauge>>)
    ensures
        r@.len() == stats@.len(),
        forall|i: int|
            0 <= i < r@.len() ==> gauge_views((#[trigger] r@[i])@) == inference_gauges(
                stats@[i],
                all_idle,
            ),
{
    let mut r: Vec<Vec<Gauge>> = Vec::new();
    let mut i: usize = 0;
    while i < stats.len()
        invariant
            i <= stats@.len(),
            r@.len() == i,
            forall|k: int|
                0 <= k < i ==> gauge_views((#[trigger] r@[k])@) == inference_gauges(
                    stats@[k],
                    all_idle,
                ),
        decreases stats@.len() - i,
    {
        r.push(gauges_of_slot(&stats[i], all_idle));
        i += 1;
    }
    r
}

/// The lines of each slot: its bars and its time. Progress is left out where
/// all slots are idle.
pub fn render_slots(
    stats: &[InferenceStats],
    all_idle: bool,
    measures: &Vec<Vec<Measure>>,
    seconds: &Vec<u64>,
    config: &Config,
) -> (r: Vec<Vec<String>>)
    requires
        measures@.len() == stats@.len(),
        seconds@.len() == stats@.len(),
        forall|i: int|
            0 <= i < measures@.len() ==> (#[trigger] measures@[i])@.len() == inference_gauges(
                stats@[i],
                all_idle,
            ).len(),
    ensures
        r@.len() == stats@.len(),
        forall|i: int|
            0 <= i < r@.len() ==> shows_inference(
                texts((#[trigger] r@[i])@),
                inference_gauges(stats@[i], all_idle),
                measure_views(measures@[i]@),
                seconds@[i] as nat,
                color_of(config.bar_empty@),
            ),
{
    let mut r: Vec<Vec<String>> = Vec::new();
    let mut i: usize = 0;
    while i < stats.len()
        invariant
            i <= stats@.len(),
            measures@.len() == stats@.len(),
            seconds@.len() == stats@.len(),
            forall|k: int|
                0 <= k < measures@.len() ==> (#[trigger] measures@[k])@.len() == inference_gauges(
                    stats@[k],
                    all_idle,
                ).len(),
            r@.len() == i,
            forall|k: int|
                0 <= k < i ==> shows_inference(
                    texts((#[trigger] r@[k])@),
                    inference_gauges(stats@[k], all_idle),
                    measure_views(measures@[k]@),
                    seconds@[k] as nat,
                    color_of(config.bar_empty@),
                ),
        decreases stats@.len() - i,
    {
        r.push(render_inference_bars(&stats[i], all_idle, &measures[i], seconds[i], config));
        i += 1;
    }
    r
}

// ---- log ------------------------------------------------------------------

/// The heading of a section of the log: an empty line, the section's name, and
/// a rule.
pub open spec fn log_heading(title: Color, name: Seq<char>, rule: char) -> Seq<Seq<char>> {
    seq![ended(seq![]), ended(colored(title, name)), ended(repeated(rule, 43))]
}

fn heading_lines(title: Color, name: &str, rule: char) -> (r: Vec<String>)
    ensures
        texts(r@) == log_heading(title, name@, rule),
{
    let mut r: Vec<String> = Vec::new();
    proof {
        reveal_strlit("");
        assert(""@ =~= seq![]);
    }
    push_line(&mut r, println_line(""));
    push_line(&mut r, println_line(format_colored(title, name).as_str()));
    push_line(&mut r, println_line(repeat(rule, 43).as_str()));
    proof {
        assert(texts(r@) =~= log_heading(title, name@, rule));
    }
    r
}

/// The heading above the slots.
pub fn render_log_heading(config: &Config) -> (r: Vec<String>)
    ensures
        texts(r@) == log_heading(color_of(config.title@), "LOG"@, '\u{2550}'),
{
    heading_lines(parse_color_str(config.title.as_str()), "LOG", '\u{2550}')
}

/// The raw log: its heading and the newest of its lines, as many as the
/// configuration asks for.
pub fn render_raw_log(lines: &[String], config: &Config) -> (r: Vec<String>)
    ensures
        texts(r@) == log_heading(color_of(config.title@), "RAW LOG"@, '\u{2500}') + all_cleared(
            last_n(texts(lines@), config.log_lines as nat),
        ),
{
    let mut r = heading_lines(parse_color_str(config.title.as_str()), "RAW LOG", '\u{2500}');
    let window = render_log_window(lines, config.log_lines);
    proof {
        assert(texts(window@) =~= last_n(texts(lines@), config.log_lines as nat));
    }
    push_lines(&mut r, clear_all(&window));
    r
}

} // verus!
