use nv_smi::process::LlamaServerInfo;
use nv_smi::reading::Real;
use nv_smi::slots::{
    all_slots_idle, blank_slot, latest_reading, layout_of, nothing_persisted, SlotTracker,
};
use nv_smi::timing::{InferenceStats, LineReading};

fn float(x: f64) -> Real {
    Real { bits: x.to_bits() }
}

fn owned(lines: &[&str]) -> Vec<String> {
    lines.iter().map(|l| l.to_string()).collect()
}

fn server(context_len: u32, n_parallel: u32) -> LlamaServerInfo {
    LlamaServerInfo {
        model: "m".to_string(),
        params: Vec::new(),
        context_len,
        n_parallel,
        multimodal: false,
        embedding: false,
    }
}

fn nothing() -> LineReading {
    LineReading {
        stats: None,
        generation: None,
        latency: None,
        prompt_tps: None,
        ends_prompt: false,
        ctx_used: None,
    }
}

fn timing(progress: f64, time_seconds: f64, draft: f64) -> InferenceStats {
    InferenceStats {
        progress: float(progress),
        time_seconds: float(time_seconds),
        tokens_per_second: float(1.0),
        n_decoded: 1,
        gen_speed_tps: float(1.0),
        latency_ms_tok: float(1.0),
        draft_acceptance: float(draft),
        n_decoded_max: 0,
        ctx_n_tokens: 0,
        ctx_used: 0,
    }
}

fn begun(tracker: &mut SlotTracker, lines: &[&str], n: u32) -> (bool, Vec<Vec<String>>, u32) {
    let refresh = tracker.begin(&owned(lines), Some(&server(4096, n)));
    (refresh.all_idle, refresh.lines, refresh.max_decoded)
}

#[test]
fn layouts() {
    assert_eq!(layout_of(None), (4, 0));
    assert_eq!(layout_of(Some(&server(8192, 2))), (2, 4096));
    assert_eq!(layout_of(Some(&server(100, 3))), (3, 33));
    assert_eq!(layout_of(Some(&server(0, 2))), (4, 0));
    assert_eq!(layout_of(Some(&server(8192, 0))), (4, 0));
}

#[test]
fn idle_lines() {
    assert!(all_slots_idle(&owned(&["x", "srv: all slots are idle now"])));
    assert!(!all_slots_idle(&owned(&["slots are idle"])));
    assert!(!all_slots_idle(&[]));
}

#[test]
fn lines_fall_to_their_slots() {
    let mut tracker = SlotTracker::new();
    let (idle, lines, max) = begun(
        &mut tracker,
        &["slot a: id 1 x", "other", "slot b: id 0", "slot c: id 1 y", "slot d: id 9"],
        2,
    );
    assert!(!idle);
    assert_eq!(max, 2048);
    assert_eq!(lines, vec![owned(&["slot b: id 0"]), owned(&["slot a: id 1 x", "slot c: id 1 y"])]);
    assert_eq!(tracker.slots, vec![blank_slot(), blank_slot()]);
    assert_eq!(tracker.persisted, nothing_persisted());
}

#[test]
fn line_without_a_number_falls_to_no_slot() {
    let mut tracker = SlotTracker::new();
    let (_, lines, _) = begun(&mut tracker, &["slot a = id 1", "slot id ", "slot id \u{b0}0"], 2);
    assert_eq!(lines, vec![owned(&[]), owned(&["slot a = id 1"])]);
}

#[test]
fn later_readings_go_before_earlier_ones() {
    let mut first = nothing();
    first.latency = Some(float(1.0));
    first.generation = Some((5, float(2.0)));
    first.ends_prompt = true;
    let mut second = nothing();
    second.latency = Some(float(3.0));
    second.ctx_used = Some(7);
    let latest = latest_reading(&[first, second]);
    assert_eq!(latest.latency, Some(float(3.0)));
    assert_eq!(latest.generation, Some((5, float(2.0))));
    assert_eq!(latest.ends_prompt, true);
    assert_eq!(latest.ctx_used, Some(7));
    assert_eq!(latest_reading(&[]), nothing());
}

#[test]
fn silence_leaves_a_slot_as_it_is() {
    let mut entry = blank_slot();
    entry.progress = Some(float(0.5));
    entry.n_decoded = Some(3);
    entry.prompt_tps = Some(float(9.0));
    assert_eq!(entry.after(&nothing()), entry);
}

#[test]
fn end_of_a_task_forgets_the_prompt_speed() {
    let mut entry = blank_slot();
    entry.progress = Some(float(0.5));
    entry.prompt_tps = Some(float(9.0));
    let mut news = nothing();
    news.ends_prompt = true;
    let after = entry.after(&news);
    assert_eq!(after.prompt_tps, None);
    assert_eq!(after.progress, Some(float(0.5)));
    news.prompt_tps = Some(float(4.0));
    assert_eq!(entry.after(&news).prompt_tps, Some(float(4.0)));
}

#[test]
fn end_of_a_task_forgets_a_speed_of_the_same_refresh() {
    let mut speed = nothing();
    speed.prompt_tps = Some(float(9.0));
    let mut end = nothing();
    end.ends_prompt = true;
    let mut known = blank_slot();
    known.prompt_tps = Some(float(5.0));
    assert_eq!(known.after(&latest_reading(&[speed, end])).prompt_tps, None);
    assert_eq!(known.after(&latest_reading(&[end, speed])).prompt_tps, Some(float(9.0)));
    assert_eq!(known.after(&latest_reading(&[speed])).prompt_tps, Some(float(9.0)));
}

#[test]
fn readings_of_zero_keep_what_is_known() {
    let mut entry = blank_slot();
    entry.n_decoded = Some(3);
    entry.gen_speed = Some(float(20.0));
    entry.draft = Some(float(0.5));
    let mut news = nothing();
    news.generation = Some((0, float(0.0)));
    news.stats = Some(timing(0.25, 0.0, 0.0));
    let after = entry.after(&news);
    assert_eq!(after.n_decoded, Some(3));
    assert_eq!(after.gen_speed, Some(float(20.0)));
    assert_eq!(after.draft, Some(float(0.5)));
    assert_eq!(after.progress, Some(float(0.25)));
    assert_eq!(after.time_seconds, None);
}

#[test]
fn slots_show_what_is_known_of_them() {
    let mut tracker = SlotTracker::new();
    begun(&mut tracker, &[], 2);
    let mut news = nothing();
    news.stats = Some(timing(0.75, 12.5, 0.5));
    news.generation = Some((41, float(29.31)));
    news.latency = Some(float(33.33));
    news.prompt_tps = Some(float(512.5));
    news.ctx_used = Some(99);
    let shown = tracker.update(&vec![vec![news], vec![]], 2048);
    assert_eq!(
        shown[0],
        InferenceStats {
            progress: float(0.75),
            time_seconds: float(12.5),
            tokens_per_second: float(512.5),
            n_decoded: 41,
            gen_speed_tps: float(29.31),
            latency_ms_tok: float(33.33),
            draft_acceptance: float(0.5),
            n_decoded_max: 2048,
            ctx_n_tokens: 2048,
            ctx_used: 99,
        }
    );
    assert_eq!(shown[1].progress, float(0.0));
    assert_eq!(tracker.persisted.progress, float(0.75));
    assert_eq!(tracker.persisted.time_seconds, float(12.5));
    assert_eq!(tracker.persisted.n_decoded, 41);
    let shown = tracker.update(&vec![vec![], vec![]], 2048);
    assert_eq!(shown[1].progress, float(0.75));
    assert_eq!(shown[1].time_seconds, float(12.5));
    assert_eq!(shown[1].tokens_per_second, float(0.0));
    assert_eq!(shown[1].n_decoded, 0);
}

#[test]
fn largest_reading_persists() {
    let mut tracker = SlotTracker::new();
    begun(&mut tracker, &[], 3);
    let mut readings = Vec::new();
    for (progress, n) in [(0.25, 7), (0.75, 3), (0.5, 5)] {
        let mut news = nothing();
        news.stats = Some(timing(progress, progress * 10.0, progress));
        news.generation = Some((n, float(progress)));
        news.latency = Some(float(progress));
        news.prompt_tps = Some(float(progress));
        readings.push(vec![news]);
    }
    tracker.update(&readings, 0);
    let p = tracker.persisted;
    assert_eq!(p.progress, float(0.75));
    assert_eq!(p.gen_speed, float(0.75));
    assert_eq!(p.n_decoded, 7);
    assert_eq!(p.draft_acceptance, float(0.75));
    assert_eq!(p.prompt_tps, float(0.75));
    assert_eq!(p.time_seconds, float(7.5));
    assert_eq!(p.latency, float(0.75));
    let s = tracker.persisted_stats(100);
    assert_eq!(s.progress, float(0.75));
    assert_eq!(s.time_seconds, float(7.5));
    assert_eq!(s.n_decoded, 7);
    assert_eq!((s.n_decoded_max, s.ctx_n_tokens, s.ctx_used), (100, 100, 0));
}

#[test]
fn idle_server_has_everything_forgotten() {
    let mut tracker = SlotTracker::new();
    begun(&mut tracker, &[], 1);
    let mut news = nothing();
    news.stats = Some(timing(0.75, 12.5, 0.5));
    tracker.update(&vec![vec![news]], 0);
    let (idle, lines, max) =
        begun(&mut tracker, &["slot a: id 0", "all slots are idle"], 1);
    assert!(idle);
    assert_eq!(lines, vec![owned(&[])]);
    assert_eq!(tracker.slots, vec![blank_slot()]);
    assert_eq!(tracker.persisted, nothing_persisted());
    let shown = tracker.update(&vec![vec![]], max);
    assert_eq!(
        shown[0],
        InferenceStats {
            progress: float(0.0),
            time_seconds: float(0.0),
            tokens_per_second: float(0.0),
            n_decoded: 0,
            gen_speed_tps: float(0.0),
            latency_ms_tok: float(0.0),
            draft_acceptance: float(0.0),
            n_decoded_max: 4096,
            ctx_n_tokens: 4096,
            ctx_used: 0,
        }
    );
}

#[test]
fn another_number_of_slots_forgets_slots_but_not_what_persists() {
    let mut tracker = SlotTracker::new();
    begun(&mut tracker, &[], 1);
    let mut news = nothing();
    news.stats = Some(timing(0.75, 12.5, 0.5));
    tracker.update(&vec![vec![news]], 0);
    begun(&mut tracker, &[], 1);
    assert_eq!(tracker.slots[0].progress, Some(float(0.75)));
    begun(&mut tracker, &[], 2);
    assert_eq!(tracker.slots, vec![blank_slot(), blank_slot()]);
    assert_eq!(tracker.persisted.progress, float(0.75));
}
