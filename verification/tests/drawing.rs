use nv_smi::bar::{
    draw_bar, draw_gauge, draw_gauges, format_bar, inks_for, Caption, Gauge, Ink, Measure, Quantity,
};
use nv_smi::color::Color;
use nv_smi::config::Config;
use nv_smi::frame::{layout_frame, Bars, LogSection};
use nv_smi::gpu::GpuInfo;
use nv_smi::log::strip_ansi_codes;
use nv_smi::process::LlamaServerInfo;
use nv_smi::reading::Real;
use nv_smi::render::{
    clear_rest, draw_gpu_section, draw_inference_bars, gauges_of_gpu, gauges_of_slot,
    gauges_of_slots, println_line, render_gpu_section, render_header, render_inference_bars,
    render_log_heading, render_raw_log, render_slots,
};
use nv_smi::screen::{
    clear_leftover, place, place_spaced, render_slot_bars, slots_fit, Row, Seen,
};
use nv_smi::timing::InferenceStats;

fn float(x: f64) -> Real {
    Real { bits: x.to_bits() }
}

fn owned(lines: &[&str]) -> Vec<String> {
    lines.iter().map(|l| l.to_string()).collect()
}

fn gpu(id: usize) -> GpuInfo<Real> {
    GpuInfo {
        id,
        temperature: float(45.0),
        fan_speed: float(30.0),
        power_usage: 120,
        power_cap: 350,
        memory_used: 1000,
        memory_total: 24576,
        gpu_util: float(97.0),
    }
}

fn stats() -> InferenceStats {
    InferenceStats {
        progress: float(0.5),
        time_seconds: float(65.0),
        tokens_per_second: float(512.5),
        n_decoded: 41,
        gen_speed_tps: float(29.31),
        latency_ms_tok: float(2.5),
        draft_acceptance: float(0.25),
        n_decoded_max: 2048,
        ctx_n_tokens: 2048,
        ctx_used: 99,
    }
}

fn measures(n: usize) -> Vec<Measure> {
    (0..n).map(|i| Measure { filled: i, number: format!("#{}", i) }).collect()
}

fn inks(n: usize) -> Vec<Ink> {
    (0..n).map(|_| Ink { on: "+".to_string(), off: "-".to_string() }).collect()
}

fn plain(lines: &[String]) -> Vec<String> {
    lines.iter().map(|l| strip_ansi_codes(l)).collect()
}

fn cells(filled: usize) -> String {
    let full: String = "\u{2588}".repeat(filled);
    let empty: String = "\u{2591}".repeat(25 - filled);
    format!("{}{}", full, empty)
}

fn places(rows: &[Row]) -> Vec<(u16, String)> {
    rows.iter().map(|r| (r.row, r.text.clone())).collect()
}

#[test]
fn bar_with_given_codes() {
    let want = format!("Temp      {}{}\x1b[0m", "+\u{2588}".repeat(2), "-\u{2591}".repeat(23));
    assert_eq!(draw_bar("Temp", 2, "+", "-"), want);
    assert_eq!(
        draw_bar("a label too long", 25, "+", "-"),
        format!("a label too long{}\x1b[0m", "+\u{2588}".repeat(25))
    );
    assert_eq!(draw_bar("x", 25, "", ""), draw_bar("x", usize::MAX, "", ""));
}

#[test]
fn bar_shows_its_label_and_cells() {
    for filled in [0, 1, 13, 25] {
        let bar = format_bar("Prompt t/s", filled, Color::DarkCyan, Color::DarkGrey);
        assert_eq!(strip_ansi_codes(&bar), format!("Prompt t/s{}", cells(filled)));
        let on = format!("\x1b[38;5;6m\u{2588}");
        let off = format!("\x1b[38;5;8m\u{2591}");
        let coloured = format!("Prompt t/s{}{}\x1b[0m", on.repeat(filled), off.repeat(25 - filled));
        let bare = format!(
            "Prompt t/s{}{}\x1b[0m",
            "\x1b[m\u{2588}".repeat(filled),
            "\x1b[m\u{2591}".repeat(25 - filled)
        );
        assert!(bar == coloured || bar == bare);
    }
}

#[test]
fn gauges_have_captions() {
    let mut gauge = Gauge {
        label: "Fan".to_string(),
        quantity: Quantity::Value(float(30.0)),
        max: 100,
        color: Color::DarkCyan,
        caption: Caption::Places(0),
        unit: "%".to_string(),
    };
    let measure = Measure { filled: 3, number: "30".to_string() };
    let ink = Ink { on: "".to_string(), off: "".to_string() };
    assert_eq!(
        strip_ansi_codes(&draw_gauge(&gauge, &measure, &ink)),
        format!("Fan       {} 30%", cells(3))
    );
    gauge.caption = Caption::Written("7/8".to_string());
    assert_eq!(
        strip_ansi_codes(&draw_gauge(&gauge, &measure, &ink)),
        format!("Fan       {} 7/8%", cells(3))
    );
    let gauges = vec![gauge];
    assert_eq!(inks_for(&gauges, Color::Black).len(), 1);
    assert_eq!(draw_gauges(&gauges, &measures(1), &inks(1)).len(), 1);
}

#[test]
fn lines_end() {
    assert_eq!(clear_rest("x"), "x\x1b[K");
    assert_eq!(println_line("x"), "x\x1b[K\n");
}

#[test]
fn header_without_a_server() {
    let lines = render_header(None, Some(&owned(&["m"])), &Config::default());
    assert_eq!(
        lines,
        vec![
            "\x1b[36mNV-SMI\x1b[0m\x1b[K\n".to_string(),
            "\x1b[37m(no llama-server running)\x1b[0m\x1b[K\n".to_string(),
            format!("{}\x1b[K\n", "\u{2500}".repeat(38)),
            "\x1b[K\n".to_string(),
        ]
    );
}

#[test]
fn header_with_a_server() {
    let mut info = LlamaServerInfo {
        model: "/models/a.gguf".to_string(),
        params: vec![("ngl".to_string(), "99".to_string())],
        context_len: 0,
        n_parallel: 1,
        multimodal: true,
        embedding: true,
    };
    let models = owned(&["/m/e.gguf", "f"]);
    let lines = render_header(Some(&info), Some(&models), &Config::default());
    assert_eq!(
        lines[1],
        "\x1b[33mModel: a.gguf\x1b[0m \x1b[36m[VISION]\x1b[0m \x1b[35m[EMBEDDING]\x1b[0m\x1b[K\n"
    );
    assert_eq!(lines[2], "\x1b[37mngl=99\x1b[0m\x1b[K\n");
    assert_eq!(lines[3], "\x1b[35mEmbedding model(s):\x1b[0m\x1b[K\n");
    assert_eq!(lines[4], "  \x1b[37me.gguf\x1b[0m\x1b[K\n");
    assert_eq!(lines[5], "  \x1b[37mf\x1b[0m\x1b[K\n");
    assert_eq!(lines.len(), 8);
    info.embedding = false;
    let lines = render_header(Some(&info), None, &Config::default());
    assert_eq!(lines[1], "\x1b[33mModel: a.gguf\x1b[0m \x1b[36m[VISION]\x1b[0m\x1b[K\n");
    assert_eq!(lines.len(), 5);
    info.multimodal = false;
    info.model = "dir/".to_string();
    let lines = render_header(Some(&info), None, &Config::default());
    assert_eq!(lines[1], "\x1b[33mModel: \x1b[0m\x1b[K\n");
}

#[test]
fn gauges_of_one_gpu() {
    let gauges = gauges_of_gpu(&gpu(0), &Config::default());
    let labels: Vec<&str> = gauges.iter().map(|g| g.label.as_str()).collect();
    assert_eq!(
        labels,
        ["Temp", "Fan", "Power", "Pwr Left", "Memory", "Mem Free", "Util"]
    );
    assert_eq!(gauges[0].color, Color::Cyan);
    assert_eq!(gauges[6].color, Color::Red);
    assert_eq!(gauges[2].quantity, Quantity::Share { part: 120, whole: 350 });
    assert_eq!(gauges[3].quantity, Quantity::Count(230));
    assert_eq!(gauges[3].max, 350);
    assert_eq!(gauges[5].quantity, Quantity::Count(23576));
    let mut over = gpu(0);
    over.power_usage = 400;
    let gauges = gauges_of_gpu(&over, &Config::default());
    assert_eq!(gauges[3].quantity, Quantity::Count(0));
}

#[test]
fn gpu_section_has_rules_between_gpus() {
    let gpus = [gpu(0), gpu(1)];
    let table = vec![measures(7), measures(7)];
    let codes = vec![inks(7), inks(7)];
    let lines = draw_gpu_section(&gpus, &table, &codes, &Config::default());
    assert_eq!(lines.len(), 9 + 2 + 9);
    assert_eq!(lines[0], "\x1b[35mGPU 0\x1b[0m\x1b[K\n");
    assert_eq!(lines[1], "\x1b[K\n");
    assert_eq!(lines[2], format!("{} #0\u{b0}C\x1b[K", draw_bar("Temp", 0, "+", "-")));
    assert_eq!(lines[3], format!("{} #1%\x1b[K", draw_bar("Fan", 1, "+", "-")));
    assert_eq!(lines[4], format!("{} 120/350W\x1b[K", draw_bar("Power", 2, "+", "-")));
    assert_eq!(lines[5], format!("{} 230W\x1b[K", draw_bar("Pwr Left", 3, "+", "-")));
    assert_eq!(lines[6], format!("{} 1000/24576MiB\x1b[K", draw_bar("Memory", 4, "+", "-")));
    assert_eq!(lines[7], format!("{} 23576MiB\x1b[K", draw_bar("Mem Free", 5, "+", "-")));
    assert_eq!(lines[8], format!("{} #6%\x1b[K", draw_bar("Util", 6, "+", "-")));
    assert_eq!(lines[9], "\x1b[K\n");
    assert_eq!(lines[10], format!("{}\x1b[K\n", "\u{2500}".repeat(38)));
    assert_eq!(lines[11], "\x1b[35mGPU 1\x1b[0m\x1b[K\n");
    let real_lines = render_gpu_section(&gpus, &table, &Config::default(), Color::DarkGrey);
    let bare = vec![
        (0..7).map(|_| Ink { on: "".to_string(), off: "".to_string() }).collect::<Vec<Ink>>(),
        (0..7).map(|_| Ink { on: "".to_string(), off: "".to_string() }).collect::<Vec<Ink>>(),
    ];
    let bare_lines = draw_gpu_section(&gpus, &table, &bare, &Config::default());
    assert_eq!(plain(&real_lines), plain(&bare_lines));
}

#[test]
fn rule_goes_by_the_number_of_the_gpu() {
    let gpus = [gpu(2)];
    let lines = draw_gpu_section(&gpus, &vec![measures(7)], &vec![inks(7)], &Config::default());
    assert_eq!(lines.len(), 9);
    let gpus = [gpu(0), gpu(2)];
    let table = vec![measures(7), measures(7)];
    let lines = draw_gpu_section(&gpus, &table, &vec![inks(7), inks(7)], &Config::default());
    assert_eq!(lines.len(), 20);
}

#[test]
fn gauges_of_one_slot() {
    let gauges = gauges_of_slot(&stats(), false);
    let labels: Vec<&str> = gauges.iter().map(|g| g.label.as_str()).collect();
    assert_eq!(
        labels,
        ["Progress", "Prompt t/s", "Gen t/s", "Decoded", "Draft", "Context", "Latency"]
    );
    assert_eq!(gauges[0].quantity, Quantity::Percent(float(0.5)));
    assert_eq!(gauges[1].max, 3000);
    assert_eq!(gauges[3].max, 2048);
    assert_eq!(gauges[5].quantity, Quantity::Share { part: 99, whole: 2048 });
    assert_eq!(gauges[6].max, 5);
    let mut unknown = stats();
    unknown.n_decoded_max = 0;
    let gauges = gauges_of_slot(&unknown, true);
    assert_eq!(gauges.len(), 6);
    assert_eq!(gauges[0].label, "Prompt t/s");
    assert_eq!(gauges[2].max, 1000);
}

#[test]
fn slot_lines() {
    let lines = draw_inference_bars(&stats(), false, &measures(7), &inks(7), 3725);
    assert_eq!(lines.len(), 8);
    assert_eq!(lines[0], format!("{} #0%", draw_bar("Progress", 0, "+", "-")));
    assert_eq!(lines[1], format!("{} #1/s", draw_bar("Prompt t/s", 1, "+", "-")));
    assert_eq!(lines[2], format!("{} #2/s", draw_bar("Gen t/s", 2, "+", "-")));
    assert_eq!(lines[3], format!("{} 41", draw_bar("Decoded", 3, "+", "-")));
    assert_eq!(lines[4], format!("{} #4%", draw_bar("Draft", 4, "+", "-")));
    assert_eq!(lines[5], format!("{} 99 / 2048 tokens", draw_bar("Context", 5, "+", "-")));
    assert_eq!(lines[6], format!("{} #6ms", draw_bar("Latency", 6, "+", "-")));
    assert_eq!(lines[7], "\x1b[37mTime\x1b[0m 62:05");
    let lines = render_inference_bars(&stats(), true, &measures(6), 9, &Config::default());
    assert_eq!(lines.len(), 7);
    assert_eq!(plain(&lines)[0], format!("Prompt t/s{} #0/s", cells(0)));
    assert_eq!(plain(&lines)[6], "Time 00:09");
}

#[test]
fn idle_slots_show_no_progress() {
    let all = [stats(), stats()];
    for (all_idle, count, first) in [(false, 7, "Progress"), (true, 6, "Prompt t/s")] {
        let gauges = gauges_of_slots(&all, all_idle);
        assert_eq!(gauges.len(), 2);
        for slot in &gauges {
            assert_eq!(slot.len(), count);
            assert_eq!(slot[0].label, first);
        }
        let table = vec![measures(count), measures(count)];
        let lines = render_slots(&all, all_idle, &table, &vec![65, 9], &Config::default());
        assert_eq!(lines.len(), 2);
        assert_eq!(lines[1].len(), count + 1);
        assert!(plain(&lines[0])[0].starts_with(first));
        assert_eq!(plain(&lines[0])[count], "Time 01:05");
        assert_eq!(plain(&lines[1])[count], "Time 00:09");
    }
    assert_eq!(gauges_of_slots(&[], false).len(), 0);
}

#[test]
fn log_headings() {
    assert_eq!(
        render_log_heading(&Config::default()),
        vec![
            "\x1b[K\n".to_string(),
            "\x1b[36mLOG\x1b[0m\x1b[K\n".to_string(),
            format!("{}\x1b[K\n", "\u{2550}".repeat(43)),
        ]
    );
}

#[test]
fn raw_log_is_the_end_of_the_log() {
    let mut config = Config::default();
    config.log_lines = 2;
    assert_eq!(
        render_raw_log(&owned(&["a", "b", "c"]), &config),
        vec![
            "\x1b[K\n".to_string(),
            "\x1b[36mRAW LOG\x1b[0m\x1b[K\n".to_string(),
            format!("{}\x1b[K\n", "\u{2500}".repeat(43)),
            "b\x1b[K".to_string(),
            "c\x1b[K".to_string(),
        ]
    );
}

#[test]
fn lines_are_placed() {
    let (rows, end) = place(&owned(&["a", "b"]), 7);
    assert_eq!(places(&rows), vec![(7, "a".to_string()), (8, "b".to_string())]);
    assert_eq!(end, 9);
    let (rows, end) = place_spaced(&owned(&["a", "b"]), 7);
    assert_eq!(places(&rows), vec![(7, "a\x1b[K".to_string()), (9, "b\x1b[K".to_string())]);
    assert_eq!(end, 11);
}

#[test]
fn slots_are_placed_below_one_another() {
    let bars = vec![owned(&["a", "b"]), owned(&["c"])];
    assert_eq!(slots_fit(&bars, 4), Some(15));
    let (rows, end) = render_slot_bars(&bars, false, 4);
    assert_eq!(
        places(&rows),
        vec![
            (5, "\x1b[33mSLOT 0 BARS\x1b[0m\x1b[K\n".to_string()),
            (6, "a\x1b[K".to_string()),
            (8, "b\x1b[K".to_string()),
            (10, "\x1b[K\n".to_string()),
            (11, "\x1b[33mSLOT 1 BARS\x1b[0m\x1b[K\n".to_string()),
            (12, "c\x1b[K".to_string()),
            (14, "\x1b[K\n".to_string()),
        ]
    );
    assert_eq!(end, 15);
    let (rows, _) = render_slot_bars(&bars, true, 4);
    assert_eq!(rows[0].text, "\x1b[37mSLOT 0 BARS  \u{2014}  IDLE\x1b[0m\x1b[K\n");
}

#[test]
fn slots_fit_up_to_the_last_row() {
    let bars = vec![owned(&["a", "b"])];
    assert_eq!(slots_fit(&bars, u16::MAX - 7), Some(u16::MAX));
    assert_eq!(slots_fit(&bars, u16::MAX - 6), None);
    assert_eq!(slots_fit(&bars, u16::MAX), None);
    assert_eq!(slots_fit(&vec![], u16::MAX), None);
    assert_eq!(slots_fit(&vec![], 0), Some(1));
}

#[test]
fn rows_below_a_frame_are_cleared() {
    let blank = format!("{}\x1b[K", " ".repeat(120));
    let (rows, height) = clear_leftover(5, Some(7), 99);
    assert_eq!(places(&rows), vec![(5, blank.clone()), (6, blank.clone())]);
    assert_eq!(height, 5);
    let (rows, height) = clear_leftover(9, Some(7), 99);
    assert_eq!(rows.len(), 0);
    assert_eq!(height, 7);
    let (rows, height) = clear_leftover(5, None, 6);
    assert_eq!(places(&rows), vec![(5, blank)]);
    assert_eq!(height, 5);
    let (rows, height) = clear_leftover(5, None, 3);
    assert_eq!(rows.len(), 0);
    assert_eq!(height, 5);
}

#[test]
fn frame_without_a_log() {
    let (rows, end) = match layout_frame(&owned(&["a"]), &owned(&["b", "c"]), None) {
        Some(frame) => frame,
        None => panic!("a frame that fits"),
    };
    assert_eq!(
        places(&rows),
        vec![(0, "a".to_string()), (1, "b".to_string()), (2, "c".to_string())]
    );
    assert_eq!(end, 3);
}

#[test]
fn frame_with_a_log() {
    let section = LogSection {
        heading: owned(&["h"]),
        bars: Bars::Slots { bars: vec![owned(&["x"])], all_idle: false },
        raw: owned(&["r", "s"]),
    };
    let (rows, end) = match layout_frame(&owned(&["a"]), &owned(&["b"]), Some(&section)) {
        Some(frame) => frame,
        None => panic!("a frame that fits"),
    };
    let at: Vec<u16> = rows.iter().map(|r| r.row).collect();
    assert_eq!(at, vec![0, 1, 2, 4, 5, 7, 8, 9]);
    assert_eq!(rows[6].text, "r");
    assert_eq!(end, 10);
    let section = LogSection {
        heading: owned(&["h"]),
        bars: Bars::Persisted(owned(&["x", "y"])),
        raw: owned(&["r"]),
    };
    let (rows, end) = match layout_frame(&owned(&["a"]), &[], Some(&section)) {
        Some(frame) => frame,
        None => panic!("a frame that fits"),
    };
    let at: Vec<u16> = rows.iter().map(|r| r.row).collect();
    assert_eq!(at, vec![0, 1, 3, 5, 7]);
    assert_eq!(rows[2].text, "x\x1b[K");
    assert_eq!(end, 8);
}

#[test]
fn frame_that_does_not_fit() {
    let most: Vec<String> = vec![String::new(); 65535];
    assert!(layout_frame(&most, &[], None).is_some());
    assert!(layout_frame(&most, &owned(&["a"]), None).is_none());
    assert!(layout_frame(&vec![String::new(); 65536], &[], None).is_none());
    let section = |raw: Vec<String>| LogSection {
        heading: owned(&["h"]),
        bars: Bars::Persisted(owned(&["x"])),
        raw,
    };
    let few: Vec<String> = vec![String::new(); 65531];
    assert!(layout_frame(&[], &[], Some(&section(few.clone()))).is_some());
    assert!(layout_frame(&owned(&["a"]), &[], Some(&section(few))).is_none());
}

#[test]
fn screen_is_drawn_again_on_a_change() {
    let mut seen = Seen::new();
    assert!(!seen.differs(&vec![], &None, &None));
    assert!(!seen.differs(&vec![], &None, &Some(vec![])));
    assert!(seen.differs(&vec![gpu(0)], &None, &None));
    assert!(seen.differs(&vec![], &Some("m".to_string()), &None));
    assert!(seen.differs(&vec![], &None, &Some(owned(&["x"]))));
    seen.remember(vec![gpu(0)], Some("m".to_string()), Some(owned(&["x"])));
    assert!(!seen.differs(&vec![gpu(0)], &Some("m".to_string()), &Some(owned(&["x"]))));
    assert!(!seen.differs(&vec![gpu(0)], &Some("m".to_string()), &None));
    assert!(seen.differs(&vec![gpu(0)], &Some("n".to_string()), &None));
    assert!(seen.differs(&vec![gpu(0)], &None, &None));
    assert!(seen.differs(&vec![gpu(0)], &Some("m".to_string()), &Some(owned(&["y"]))));
    seen.remember(vec![], None, None);
    assert_eq!(seen.log_lines, owned(&["x"]));
    assert!(!seen.differs(&vec![], &None, &Some(owned(&["x"]))));
}

#[test]
fn a_reading_that_is_no_number_always_differs() {
    let mut hot = gpu(0);
    hot.temperature = float(f64::NAN);
    let mut again = gpu(0);
    again.temperature = float(f64::NAN);
    let mut seen = Seen::new();
    seen.remember(vec![hot], None, None);
    assert!(seen.differs(&vec![again], &None, &None));
}
