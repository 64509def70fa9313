use nv_smi::reading::Real;
use nv_smi::timing::{
    checked_ctx_usage, checked_generation_stats, checked_inference_stats, extract_float_after,
    extract_number_after, get_slot_id, inference_stats, parse_ctx_usage,
    parse_generation_stats, parse_inference_stats, parse_latency, parse_prompt_processing_tps,
    parse_prompt_tps, pick_generation_speed, read_line, scan_line, Fault, LineFloats, Timing,
};

const PROMPT: &str = "slot print_timing: id  0 | task 1 | prompt eval time =     100.50 ms /    20 tokens (    5.03 ms per token,   199.00 tokens per second)";
const EVAL: &str = "slot print_timing: id  0 | task 1 |        eval time =    2000.00 ms /    60 tokens (   33.33 ms per token,    30.00 tokens per second)";

fn float(x: f64) -> Real {
    Real { bits: x.to_bits() }
}

fn text(x: Option<String>) -> String {
    match x {
        Some(t) => t,
        None => "none".to_string(),
    }
}

fn no_timing() -> LineFloats<Option<Real>> {
    LineFloats {
        timing: None,
        tg: None,
        generation: None,
        latency: None,
        prompt_eval: None,
        prompt_processing: None,
    }
}

#[test]
fn number_after_a_marker() {
    assert_eq!(extract_number_after("n_tokens = 512, x", "n_tokens"), 512);
    assert_eq!(extract_number_after("n_tokens: none 7 8", "n_tokens"), 7);
    assert_eq!(extract_number_after("n_tokens = 12.5", "n_tokens"), 12);
    assert_eq!(extract_number_after("n_tokens =", "n_tokens"), 0);
    assert_eq!(extract_number_after("9", "n_tokens"), 0);
    assert_eq!(extract_number_after("n = 4294967295", "n ="), 4294967295);
    assert_eq!(extract_number_after("n = 4294967296", "n ="), 0);
    assert_eq!(extract_number_after("n = 1, n = 2", "n ="), 1);
    assert_eq!(extract_number_after("\u{2588} n = 41\u{2588}", "n ="), 41);
}

#[test]
fn number_after_wide_characters_is_sliced_by_bytes() {
    assert_eq!(extract_number_after("n \u{b0}+123", "n "), 12);
    assert_eq!(extract_number_after("n \u{b0}x123", "n "), 0);
    assert_eq!(
        checked_ctx_usage("stop processing n_tokens \u{2588}12345"),
        Err(Fault::Boundary)
    );
}

#[test]
fn float_after_a_marker() {
    assert_eq!(text(extract_float_after("tg = 29.31 t/s", "tg = ")), "29.31");
    assert_eq!(text(extract_float_after("tg = -.5.5 x", "tg = ")), "5.5");
    assert_eq!(text(extract_float_after("tg = 1.2.3", "tg = ")), "1.2.3");
    assert_eq!(text(extract_float_after("tg = x 7 8", "tg = ")), "7");
    assert_eq!(text(extract_float_after("tg = ", "tg = ")), "none");
    assert_eq!(text(extract_float_after("pp = 3", "tg = ")), "none");
}

#[test]
fn slot_ids() {
    assert_eq!(get_slot_id("[1] slot print_timing: id 3"), Some(3));
    assert_eq!(get_slot_id("slot update_slots: id 3 | task 9"), Some(3));
    assert_eq!(get_slot_id("slot launch_slot_: id  12 | task"), Some(12));
    assert_eq!(get_slot_id(": id 3"), None);
    assert_eq!(get_slot_id("slot x"), None);
    assert_eq!(get_slot_id("slot x: id "), None);
    assert_eq!(get_slot_id("slot x: id abc"), None);
    assert_eq!(get_slot_id("id 1 slot a: id 2"), Some(2));
    assert_eq!(get_slot_id("slot: id 18446744073709551615"), Some(usize::MAX));
    assert_eq!(get_slot_id("slot: id 18446744073709551616"), None);
}

#[test]
fn slot_ids_without_a_colon() {
    assert_eq!(get_slot_id("slot release = id 12"), Some(12));
    assert_eq!(get_slot_id("slot release = id 3 | task 9"), Some(3));
    assert_eq!(get_slot_id("slot id 31"), Some(31));
    assert_eq!(get_slot_id("slot id 3"), Some(3));
    assert_eq!(get_slot_id("slot id  4"), Some(4));
    assert_eq!(get_slot_id("slot id "), None);
    assert_eq!(get_slot_id("slot id \u{b0}4"), None);
    assert_eq!(get_slot_id("\u{2588} slot id 4\u{b0}"), Some(4));
    assert_eq!(get_slot_id("slot id 7, task: id 8"), Some(8));
}

#[test]
fn context_usage() {
    assert_eq!(parse_ctx_usage("stop processing: n_tokens = 77"), Some((77, 0)));
    assert_eq!(
        parse_ctx_usage("created context checkpoint 1 of 8, n_tokens = 90"),
        Some((90, 0))
    );
    assert_eq!(parse_ctx_usage("n_tokens = 77"), None);
    assert_eq!(parse_ctx_usage("stop processing: n_tokens = 0"), None);
    assert_eq!(
        parse_ctx_usage("slot update_slots: restored context checkpoint (pos_max = 9, n_past = 5)"),
        Some((5, 0))
    );
    assert_eq!(parse_ctx_usage("slot update_slots: (pos_max = 9, n_past = 0)"), Some((10, 0)));
    assert_eq!(parse_ctx_usage("slot update_slots: nothing"), None);
    assert_eq!(
        parse_ctx_usage("slot update_slots: stop processing n_tokens = 0 n_past = 4"),
        Some((4, 0))
    );
}

#[test]
fn context_usage_faults() {
    assert_eq!(
        checked_ctx_usage("slot update_slots: pos_max = 4294967295"),
        Err(Fault::Overflow)
    );
    assert_eq!(
        checked_ctx_usage("slot update_slots: pos_max = 4294967294"),
        Ok(Some((4294967295, 0)))
    );
    assert_eq!(
        checked_ctx_usage("slot update_slots: pos_max = 4294967295, n_past = 1"),
        Ok(Some((1, 0)))
    );
    assert_eq!(
        checked_ctx_usage("slot update_slots: n_past = \u{2588}\u{2588}12"),
        Err(Fault::Boundary)
    );
}

#[test]
fn prompt_speeds() {
    assert_eq!(text(parse_prompt_tps(PROMPT)), "199.00");
    assert_eq!(text(parse_prompt_tps(EVAL)), "none");
    assert_eq!(
        text(parse_prompt_processing_tps(
            "prompt processing, n_tokens = 8, progress = 0.5, t = 1.0 s / 512.5 tokens per second"
        )),
        "512.5"
    );
    assert_eq!(text(parse_prompt_processing_tps("prompt processing, n_tokens = 8")), "none");
    assert_eq!(text(parse_prompt_processing_tps("prompt processing 1 2 tokens per second")), "2");
    assert_eq!(text(parse_prompt_processing_tps("prompt processing tokens per second")), "");
    assert_eq!(
        text(parse_prompt_processing_tps("\u{b0} prompt processing 12.5 tokens per second")),
        "12.5"
    );
}

#[test]
fn latencies() {
    assert_eq!(text(parse_latency(EVAL)), "33.33");
    assert_eq!(text(parse_latency(PROMPT)), "none");
    assert_eq!(text(parse_latency("eval time = 5 ms per token")), "none");
    assert_eq!(text(parse_latency("(1 ms per token) eval time (2 x 2.5 ms per token)")), "2.5");
    assert_eq!(text(parse_latency("eval time (ms per token)")), "");
    assert_eq!(text(parse_latency("print_timing")), "none");
}

#[test]
fn timing_lines() {
    let t = match parse_inference_stats(PROMPT) {
        Some(t) => t,
        None => panic!("a timing line"),
    };
    assert_eq!(text(t.progress), "none");
    assert_eq!(text(t.total_time), "none");
    assert_eq!(text(t.tokens_per_second), "199.00");
    assert_eq!(text(t.latency), "5.03");
    assert_eq!(text(t.eval_speed), "none");
    assert_eq!(text(t.draft_acceptance), "none");
    assert_eq!(t.n_decoded, 0);
    let line = "print_timing: n_decoded = 41, progress = 0.75, total time = 1500.00 ms, draft acceptance = 0.5 (20.5 tokens per second)";
    let t = match parse_inference_stats(line) {
        Some(t) => t,
        None => panic!("a timing line"),
    };
    assert_eq!(text(t.progress), "0.75");
    assert_eq!(text(t.total_time), "1500.00");
    assert_eq!(text(t.tokens_per_second), "20.5");
    assert_eq!(text(t.latency), "none");
    assert_eq!(text(t.eval_speed), "none");
    assert_eq!(text(t.draft_acceptance), "0.5");
    assert_eq!(t.n_decoded, 41);
    assert!(parse_inference_stats("eval time = 5 ms").is_none());
    let t = match parse_inference_stats("print_timing stop processing n_tokens = 12") {
        Some(t) => t,
        None => panic!("a timing line"),
    };
    assert_eq!(t.n_decoded, 12);
}

#[test]
fn speeds_stand_right_before_their_unit() {
    let line = "print_timing: eval time = 100 ms / 5 tokens (20.00 ms per token, 50.00 tokens per second)";
    let t = match parse_inference_stats(line) {
        Some(t) => t,
        None => panic!("a timing line"),
    };
    assert_eq!(text(t.tokens_per_second), "50.00");
    assert_eq!(text(t.eval_speed), "50.00");
    assert_eq!(text(t.latency), "20.00");
    let t = match parse_inference_stats("print_timing eval time (27.5 tokens per second)") {
        Some(t) => t,
        None => panic!("a timing line"),
    };
    assert_eq!(text(t.tokens_per_second), "27.5");
    for (section, number) in [
        ("1,024.5 ", "1024.5"),
        ("27.5 abc ", "27.5"),
        ("20 ms per token, 50", "50"),
        ("(5) (7 of 30.5~", "30.5"),
        ("none ", ""),
        ("", ""),
    ] {
        let line = format!("print_timing eval time ({}tokens per second)", section);
        let t = match parse_inference_stats(&line) {
            Some(t) => t,
            None => panic!("a timing line"),
        };
        assert_eq!(text(t.tokens_per_second), number);
        assert_eq!(text(t.eval_speed), number);
    }
    let t = match parse_inference_stats("print_timing eval time 27.5 tokens per second") {
        Some(t) => t,
        None => panic!("a timing line"),
    };
    assert_eq!(text(t.tokens_per_second), "none");
    assert_eq!(text(t.eval_speed), "none");
}

#[test]
fn generation_speed_is_not_that_of_the_prompt() {
    let line = "print_timing prompt eval time (199.00 tokens per second), eval time (30.00 tokens per second), total (99.00 tokens per second)";
    let t = match parse_inference_stats(line) {
        Some(t) => t,
        None => panic!("a timing line"),
    };
    assert_eq!(text(t.eval_speed), "30.00");
    assert_eq!(text(t.tokens_per_second), "99.00");
    assert_eq!(text(parse_prompt_tps(line)), "199.00");
}

#[test]
fn timing_faults() {
    assert_eq!(
        checked_inference_stats("print_timing progress = \u{2588}12345").err(),
        Some(Fault::Boundary)
    );
    assert_eq!(
        checked_inference_stats("print_timing n_decoded = \u{2588}12345").err(),
        Some(Fault::Boundary)
    );
    assert!(checked_inference_stats("progress = \u{2588}12345").is_ok());
}

#[test]
fn statistics_of_a_timing_line() {
    let mut t = Timing {
        progress: Some(float(0.75)),
        total_time: Some(float(1.5)),
        tokens_per_second: Some(float(20.5)),
        latency: None,
        eval_speed: None,
        draft_acceptance: Some(float(0.5)),
        n_decoded: 41,
    };
    let s = inference_stats(&t);
    assert_eq!(s.progress, float(0.75));
    assert_eq!(s.time_seconds, float(1.5));
    assert_eq!(s.tokens_per_second, float(20.5));
    assert_eq!(s.gen_speed_tps, float(20.5));
    assert_eq!(s.latency_ms_tok, float(0.0));
    assert_eq!(s.draft_acceptance, float(0.5));
    assert_eq!((s.n_decoded, s.n_decoded_max, s.ctx_n_tokens, s.ctx_used), (41, 0, 0, 0));
    t.eval_speed = Some(float(30.0));
    assert_eq!(inference_stats(&t).gen_speed_tps, float(30.0));
    t.eval_speed = Some(float(0.0));
    assert_eq!(inference_stats(&t).gen_speed_tps, float(20.5));
}

#[test]
fn generation_speed_goes_by_tg_first() {
    assert_eq!(pick_generation_speed(Some(float(29.31)), Some(float(5.0))), float(29.31));
    assert_eq!(pick_generation_speed(Some(float(0.0)), Some(float(5.0))), float(5.0));
    assert_eq!(pick_generation_speed(None, Some(float(5.0))), float(5.0));
    assert_eq!(pick_generation_speed(Some(float(29.31)), None), float(29.31));
    assert_eq!(pick_generation_speed(None, None), float(0.0));
}

#[test]
fn generation_counts() {
    let (zero, speed) = (float(0.0), float(29.31));
    assert_eq!(parse_generation_stats("n_decoded = 12, tg = 29.31 t/s", speed), Some((12, speed)));
    assert_eq!(parse_generation_stats("n_decoded = 12", zero), Some((12, zero)));
    assert_eq!(parse_generation_stats("n_decoded = 0", speed), Some((0, speed)));
    assert_eq!(parse_generation_stats("n_decoded = 0", zero), None);
    assert_eq!(
        parse_generation_stats("stop processing: n_tokens = 33", zero),
        Some((33, zero))
    );
    assert_eq!(parse_generation_stats("n_tokens = 33", speed), None);
    assert_eq!(parse_generation_stats(EVAL, float(30.0)), Some((60, float(30.0))));
    assert_eq!(parse_generation_stats(EVAL, zero), None);
    assert_eq!(parse_generation_stats(PROMPT, float(30.0)), None);
    assert_eq!(
        parse_generation_stats("n_decoded = 0 stop processing n_tokens = 3", zero),
        Some((3, zero))
    );
}

#[test]
fn generation_faults() {
    assert_eq!(
        checked_generation_stats("n_decoded = \u{2588}12345", float(0.0)),
        Err(Fault::Boundary)
    );
    assert_eq!(
        checked_generation_stats("eval time ms / \u{2588}12345", float(0.0)),
        Err(Fault::Boundary)
    );
}

#[test]
fn whole_line_texts() {
    let f = match scan_line(EVAL) {
        Ok(f) => f,
        Err(_) => panic!("a readable line"),
    };
    assert!(f.timing.is_some());
    assert_eq!(text(f.tg), "none");
    assert_eq!(text(f.generation), "30.00");
    assert_eq!(text(f.latency), "33.33");
    assert_eq!(text(f.prompt_eval), "none");
    assert_eq!(text(f.prompt_processing), "none");
    let f = match scan_line("slot x: id 0 n_decoded = 3, tg = 29.31 t/s") {
        Ok(f) => f,
        Err(_) => panic!("a readable line"),
    };
    assert!(f.timing.is_none());
    assert_eq!(text(f.tg), "29.31");
    assert_eq!(scan_line("tg = \u{2588}12345").err(), Some(Fault::Boundary));
}

#[test]
fn whole_line_readings() {
    let mut floats = no_timing();
    floats.latency = Some(float(33.33));
    floats.generation = Some(float(30.0));
    let r = match read_line(EVAL, &floats) {
        Ok(r) => r,
        Err(_) => panic!("a readable line"),
    };
    assert_eq!(r.stats, None);
    assert_eq!(r.generation, Some((60, float(30.0))));
    assert_eq!(r.latency, Some(float(33.33)));
    assert_eq!(r.prompt_tps, None);
    assert_eq!(r.ends_prompt, false);
    assert_eq!(r.ctx_used, None);
    let r = match read_line("slot release: id 0 | stop processing: n_tokens = 5", &no_timing()) {
        Ok(r) => r,
        Err(_) => panic!("a readable line"),
    };
    assert_eq!(r.generation, Some((5, float(0.0))));
    assert_eq!(r.ends_prompt, true);
    assert_eq!(r.ctx_used, Some(5));
    let r = match read_line("slot launch_slot_: id 0", &no_timing()) {
        Ok(r) => r,
        Err(_) => panic!("a readable line"),
    };
    assert_eq!(r.ends_prompt, true);
}

#[test]
fn prompt_processing_goes_before_prompt_eval() {
    let mut floats = no_timing();
    floats.prompt_eval = Some(float(199.0));
    floats.prompt_processing = Some(float(512.5));
    assert_eq!(read_line("x", &floats).map(|r| r.prompt_tps), Ok(Some(float(512.5))));
    floats.prompt_processing = Some(float(0.0));
    assert_eq!(read_line("x", &floats).map(|r| r.prompt_tps), Ok(Some(float(199.0))));
    floats.prompt_eval = Some(float(0.0));
    assert_eq!(read_line("x", &floats).map(|r| r.prompt_tps), Ok(None));
}

#[test]
fn line_faults() {
    assert_eq!(
        read_line("slot update_slots: pos_max = 4294967295", &no_timing()),
        Err(Fault::Overflow)
    );
    assert_eq!(read_line("n_decoded = \u{2588}12345", &no_timing()), Err(Fault::Boundary));
}
