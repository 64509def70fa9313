use nv_smi::number::{
    parse_u32, push_decimal, push_two_digits, read_digits, read_u32_or, read_u8_or, read_unsigned,
};
use nv_smi::reading::{if_positive, or_nought, Real};
use nv_smi::text::{
    char_position, chars_of, digit, digit_or_point, end_of_run, has_prefix, keep, last_position,
    matches_at, mentions, position, same, same_text, slice_bytes, space, split_fields, split_lines,
    split_words, start_of_run, text_of, trimmed, width, without_leading, without_trailing,
    CharClass,
};

fn chars(text: &str) -> Vec<char> {
    text.chars().collect()
}

fn strings(parts: &[Vec<char>]) -> Vec<String> {
    parts.iter().map(|p| p.iter().collect::<String>()).collect()
}

fn float(x: f64) -> Real {
    Real { bits: x.to_bits() }
}

#[test]
fn chars_and_text_are_inverse() {
    for text in ["", "abc", "\u{b0}C \u{2588}\u{1f600}"] {
        assert_eq!(chars_of(text), chars(text));
        assert_eq!(text_of(&chars(text)), text);
    }
}

#[test]
fn character_classes_agree_with_std() {
    for code in 0..0x3100u32 {
        if let Some(c) = char::from_u32(code) {
            assert_eq!(digit(c), c.is_ascii_digit());
            assert_eq!(digit_or_point(c), c.is_ascii_digit() || c == '.');
            assert_eq!(space(c), c.is_whitespace());
            assert_eq!(width(c), c.len_utf8());
        }
    }
    assert_eq!(width('\u{ffff}'), 3);
    assert_eq!(width('\u{10000}'), 4);
    assert_eq!(width('\u{10ffff}'), 4);
}

#[test]
fn char_class_admits() {
    assert!(CharClass::Space.admits('\u{2003}'));
    assert!(!CharClass::NotSpace.admits(' '));
    assert!(CharClass::Digit.admits('7'));
    assert!(CharClass::NotDigit.admits('x'));
    assert!(CharClass::DigitOrPoint.admits('.'));
    assert!(CharClass::Is('/').admits('/'));
    assert!(!CharClass::Not('/').admits('/'));
}

#[test]
fn positions_are_the_first_and_the_last() {
    let s = chars("a slot, a slot");
    assert_eq!(position(&s, "slot"), Some(2));
    assert_eq!(last_position(&s, "slot"), Some(10));
    assert_eq!(position(&s, "gpu"), None);
    assert_eq!(last_position(&s, "gpu"), None);
    assert_eq!(position(&chars("aaa"), "aa"), Some(0));
    assert_eq!(last_position(&chars("aaa"), "aa"), Some(1));
    assert!(mentions(&s, "slot"));
    assert!(!mentions(&s, "slots"));
    assert!(has_prefix(&s, "a s"));
    assert!(!has_prefix(&s, "slot"));
    assert!(matches_at(&s, &chars("slot"), 10));
    assert!(!matches_at(&s, &chars("slot"), 11));
}

#[test]
fn texts_are_compared_whole() {
    assert!(same(&chars("-m"), "-m"));
    assert!(!same(&chars("-mm"), "-m"));
    assert!(same_text("model", "model"));
    assert!(!same_text("model", "modem"));
    assert!(!same_text("model", "models"));
}

#[test]
fn runs_end_and_start() {
    let s = chars("  12.5 ms");
    assert_eq!(end_of_run(&s, 0, CharClass::Space), 2);
    assert_eq!(end_of_run(&s, 2, CharClass::DigitOrPoint), 6);
    assert_eq!(start_of_run(&s, 6, CharClass::DigitOrPoint), 2);
    assert_eq!(start_of_run(&s, 2, CharClass::Space), 0);
    assert_eq!(keep(&s, CharClass::Digit), chars("125"));
    assert_eq!(without_leading(&chars("~~/x"), CharClass::Is('~')), &chars("/x")[..]);
    assert_eq!(without_trailing(&chars("1))"), CharClass::Is(')')), &chars("1")[..]);
    assert_eq!(trimmed(&chars(" \ta b\u{a0}")), &chars("a b")[..]);
}

#[test]
fn lines_agree_with_std() {
    for text in ["", "\n", "a", "a\n", "a\r\nb", "a\n\nb\n", "a\r", "\r\n", "a\rb\n\r\r\nc"] {
        let want: Vec<String> = text.lines().map(|l| l.to_string()).collect();
        assert_eq!(strings(&split_lines(&chars(text))), want, "{:?}", text);
    }
}

#[test]
fn fields_agree_with_std() {
    for text in ["", ",", "a", "a,b", ",a,,b,"] {
        let want: Vec<String> = text.split(',').map(|l| l.to_string()).collect();
        assert_eq!(strings(&split_fields(&chars(text), ',')), want, "{:?}", text);
    }
}

#[test]
fn words_agree_with_std() {
    for text in ["", " ", "a", " a  b\t\u{2003}c\n", "\u{3000}x"] {
        let want: Vec<String> = text.split_whitespace().map(|l| l.to_string()).collect();
        assert_eq!(strings(&split_words(&chars(text))), want, "{:?}", text);
    }
}

#[test]
fn byte_positions_agree_with_std() {
    let text = "a\u{b0}\u{2588}z";
    let s = chars(text);
    for start in 0..text.len() + 2 {
        assert_eq!(
            char_position(&s, start).is_some(),
            text.is_char_boundary(start),
            "{}",
            start
        );
        for end in start..text.len() + 2 {
            let want: Option<Vec<char>> = text.get(start..end).map(|t| t.chars().collect());
            let got: Option<Vec<char>> = slice_bytes(&s, start, end).map(|t| t.to_vec());
            assert_eq!(got, want);
        }
    }
}

#[test]
fn parse_u32_takes_all_digits() {
    assert_eq!(parse_u32("4096"), 4096);
    assert_eq!(parse_u32("120W"), 120);
    assert_eq!(parse_u32("1a2b3"), 123);
    assert_eq!(parse_u32("-5"), 5);
    assert_eq!(parse_u32(""), 0);
    assert_eq!(parse_u32("none"), 0);
    assert_eq!(parse_u32("4294967295"), 4294967295);
    assert_eq!(parse_u32("4294967296"), 0);
    assert_eq!(parse_u32("\u{0663}7"), 7);
}

#[test]
fn unsigned_numbers_agree_with_std() {
    for text in [
        "", "+", "-", "0", "00", "+7", "++7", "7+", "-0", " 7", "7 ", "1.5", "255", "256", "0255",
        "4294967295", "4294967296", "00000000000000000000000000000000001", "\u{0663}",
    ] {
        let s = chars(text);
        assert_eq!(read_u8_or(&s, 255), text.parse::<u8>().unwrap_or(255), "{:?}", text);
        assert_eq!(read_u32_or(&s, 0), text.parse::<u32>().unwrap_or(0), "{:?}", text);
        assert_eq!(read_unsigned(&s, u64::MAX), text.parse::<u64>().ok(), "{:?}", text);
    }
    assert_eq!(read_unsigned(&chars("18446744073709551615"), u64::MAX), Some(u64::MAX));
    assert_eq!(read_unsigned(&chars("18446744073709551616"), u64::MAX), None);
    assert_eq!(read_digits(&chars("3 of 4")), 34);
}

#[test]
fn decimals_read_back() {
    for n in [0u64, 7, 10, 42, 1000, 4294967295, u64::MAX] {
        let mut text = String::new();
        push_decimal(&mut text, n);
        assert_eq!(text, n.to_string());
        assert_eq!(read_unsigned(&chars(&text), u64::MAX), Some(n));
    }
}

#[test]
fn two_digits_are_padded() {
    for (n, want) in [(0u64, "00"), (7, "07"), (10, "10"), (59, "59"), (123, "123")] {
        let mut text = "t".to_string();
        push_two_digits(&mut text, n);
        assert_eq!(text, format!("t{}", want));
    }
}

#[test]
fn readings_compare_as_floats_do() {
    let values = [
        0.0,
        -0.0,
        1.0,
        -1.0,
        49.999999999999993,
        50.0,
        f64::MIN_POSITIVE,
        5e-324,
        -5e-324,
        f64::MAX,
        f64::INFINITY,
        f64::NEG_INFINITY,
        f64::NAN,
        -f64::NAN,
    ];
    for a in values {
        assert_eq!(float(a).is_number(), !a.is_nan());
        assert_eq!(float(a).is_positive(), a > 0.0);
        assert_eq!(float(a).is_zero(), a == 0.0);
        for b in values {
            assert_eq!(float(a).reaches(float(b)), a >= b, "{} {}", a, b);
            assert_eq!(float(a).same_as(float(b)), a == b, "{} {}", a, b);
        }
    }
}

#[test]
fn missing_readings_are_zero() {
    assert_eq!(or_nought(None), float(0.0));
    assert_eq!(or_nought(Some(float(2.5))), float(2.5));
    assert_eq!(if_positive(Some(float(2.5))), Some(float(2.5)));
    assert_eq!(if_positive(Some(float(0.0))), None);
    assert_eq!(if_positive(Some(float(-1.0))), None);
    assert_eq!(if_positive(Some(float(f64::NAN))), None);
    assert_eq!(if_positive(None), None);
}
