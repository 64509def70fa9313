use nv_smi::log::{
    count_lines, get_last_lines, read_new_log_lines, render_log_window, strip_ansi_codes,
};

fn owned(lines: &[&str]) -> Vec<String> {
    lines.iter().map(|l| l.to_string()).collect()
}

#[test]
fn codes_are_stripped() {
    assert_eq!(strip_ansi_codes("\x1b[31mred\x1b[0m text"), "red text");
    assert_eq!(strip_ansi_codes("\x1b[2J\x1b[Hclear\x1b[K"), "clear");
    assert_eq!(strip_ansi_codes("\x1b[1;32mbold\x1b[m"), "bold");
    assert_eq!(strip_ansi_codes(""), "");
}

#[test]
fn plain_text_stays() {
    assert_eq!(strip_ansi_codes("Hm, 12;[JK] \u{2588}"), "Hm, 12;[JK] \u{2588}");
}

#[test]
fn other_characters_end_a_code_and_stay() {
    assert_eq!(strip_ansi_codes("\x1b[31xm"), "xm");
    assert_eq!(strip_ansi_codes("\x1bAbc"), "Abc");
    assert_eq!(strip_ansi_codes("\x1b[?25h"), "?25h");
    assert_eq!(strip_ansi_codes("\x1b\x1b[1mx"), "x");
    assert_eq!(strip_ansi_codes("a\x1b[12"), "a");
    assert_eq!(strip_ansi_codes("\x1b[[m]"), "]");
}

#[test]
fn stripping_twice_is_stripping_once() {
    for text in ["\x1b[31mred\x1b[0m", "\x1b[?25h", "\x1b\x1b", "x\x1b[1;"] {
        let once = strip_ansi_codes(text);
        assert!(!once.contains('\x1b'));
        assert_eq!(strip_ansi_codes(&once), once);
    }
}

#[test]
fn text_after_a_code_is_stripped_on_its_own() {
    let code = "\x1b[38;5;6m";
    let rest = "a\x1b[0mb";
    assert_eq!(strip_ansi_codes(&format!("{}{}", code, rest)), strip_ansi_codes(rest));
    let (a, b) = ("x\x1b[1my", "z\x1b[0m");
    assert_eq!(
        strip_ansi_codes(&format!("{}{}", a, b)),
        format!("{}{}", strip_ansi_codes(a), strip_ansi_codes(b))
    );
    assert_eq!(strip_ansi_codes("x\x1b[12m"), "x");
    assert_eq!(strip_ansi_codes("x\x1b[1"), "x");
    assert_eq!(strip_ansi_codes("2m"), "2m");
}

#[test]
fn window_is_the_end() {
    let lines = owned(&["a", "b", "c"]);
    assert_eq!(render_log_window(&lines, 2), owned(&["b", "c"]));
    assert_eq!(render_log_window(&lines, 3), lines);
    assert_eq!(render_log_window(&lines, 10), lines);
    assert_eq!(render_log_window(&lines, 0), owned(&[]));
    assert_eq!(render_log_window(&[], 2), owned(&[]));
}

#[test]
fn window_of_a_window() {
    let content = "1\n2\n3\n4\n5\n6\n";
    let wide = get_last_lines(content, 4);
    assert_eq!(wide, owned(&["3", "4", "5", "6"]));
    assert_eq!(render_log_window(&wide, 2), get_last_lines(content, 2));
}

#[test]
fn last_lines_have_no_codes() {
    assert_eq!(get_last_lines("x\r\n\x1b[31my\x1b[0m\nz", 2), owned(&["y", "z"]));
    assert_eq!(get_last_lines("", 5), owned(&[]));
    assert_eq!(get_last_lines("one\n\n", 5), owned(&["one", ""]));
}

#[test]
fn lines_are_counted() {
    assert_eq!(count_lines(""), 0);
    assert_eq!(count_lines("a"), 1);
    assert_eq!(count_lines("a\nb\n"), 2);
    assert_eq!(count_lines("a\n\nb"), 3);
}

#[test]
fn appended_lines_are_new() {
    let mut count = count_lines("a\nb\n");
    assert_eq!(read_new_log_lines("a\nb\n\x1b[1mc\x1b[0m\nd\n", &mut count), owned(&["c", "d"]));
    assert_eq!(count, 4);
}

#[test]
fn unchanged_log_has_nothing_new() {
    let mut count = 2;
    assert_eq!(read_new_log_lines("a\nb\n", &mut count), owned(&[]));
    assert_eq!(count, 2);
}

#[test]
fn shorter_log_is_read_from_its_start() {
    let mut count = 9;
    assert_eq!(read_new_log_lines("a\nb\n", &mut count), owned(&["a", "b"]));
    assert_eq!(count, 2);
    assert_eq!(read_new_log_lines("", &mut count), owned(&[]));
    assert_eq!(count, 0);
}
