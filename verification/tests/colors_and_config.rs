use nv_smi::color::{foreground, format_colored, parse_color_str, Color};
use nv_smi::config::{Config, Settings};
use nv_smi::gpu::{get_temp_color, get_util_color};
use nv_smi::log::strip_ansi_codes;
use nv_smi::reading::Real;

fn float(x: f64) -> Real {
    Real { bits: x.to_bits() }
}

fn unset() -> Settings {
    Settings {
        temp_low: None,
        temp_medium: None,
        temp_high: None,
        temp_critical: None,
        power: None,
        memory: None,
        util_low: None,
        util_medium: None,
        util_high: None,
        title: None,
        bar_empty: None,
        log_file: None,
        log_lines: None,
        log_height: None,
    }
}

fn is_default(config: &Config) -> bool {
    config.temp_low == "Cyan"
        && config.temp_medium == "Green"
        && config.temp_high == "Yellow"
        && config.temp_critical == "Red"
        && config.power == "Green"
        && config.memory == "Cyan"
        && config.util_low == "Green"
        && config.util_medium == "Yellow"
        && config.util_high == "Red"
        && config.title == "Cyan"
        && config.bar_empty == "DarkGrey"
        && config.log_file.is_none()
        && config.log_lines == 10
        && config.log_height == 10
}

#[test]
fn named_colors() {
    let all = [
        ("Red", Color::Red),
        ("Green", Color::Green),
        ("Yellow", Color::Yellow),
        ("Blue", Color::Blue),
        ("Magenta", Color::Magenta),
        ("Cyan", Color::Cyan),
        ("White", Color::White),
        ("Black", Color::Black),
        ("DarkRed", Color::DarkRed),
        ("DarkGreen", Color::DarkGreen),
        ("DarkYellow", Color::DarkYellow),
        ("DarkBlue", Color::DarkBlue),
        ("DarkMagenta", Color::DarkMagenta),
        ("DarkCyan", Color::DarkCyan),
        ("DarkGrey", Color::DarkGrey),
        ("Grey", Color::Grey),
    ];
    for (name, color) in all {
        assert_eq!(parse_color_str(name), color);
    }
    assert_eq!(parse_color_str("red"), Color::White);
    assert_eq!(parse_color_str(" Red"), Color::White);
    assert_eq!(parse_color_str(""), Color::White);
}

#[test]
fn rgb_colors() {
    assert_eq!(parse_color_str("RGB(1,2,3)"), Color::Rgb { r: 1, g: 2, b: 3 });
    assert_eq!(parse_color_str("RGB( 10 ,+20,\t30)"), Color::Rgb { r: 10, g: 20, b: 30 });
    assert_eq!(parse_color_str("RGB(256,x,-1)"), Color::Rgb { r: 255, g: 255, b: 255 });
    assert_eq!(parse_color_str("RGB(RGB(1,2,3))"), Color::Rgb { r: 1, g: 2, b: 3 });
    assert_eq!(parse_color_str("RGB1,2,3"), Color::Rgb { r: 255, g: 2, b: 3 });
    assert_eq!(parse_color_str("RGB(1,2)"), Color::White);
    assert_eq!(parse_color_str("RGB(1,2,3,4)"), Color::White);
    assert_eq!(parse_color_str("RGB"), Color::White);
    assert_eq!(parse_color_str("rgb(1,2,3)"), Color::White);
}

#[test]
fn colored_texts() {
    let all = [
        (Color::Red, "31"),
        (Color::Green, "32"),
        (Color::Yellow, "33"),
        (Color::Blue, "34"),
        (Color::Magenta, "35"),
        (Color::Cyan, "36"),
        (Color::White, "37"),
        (Color::Grey, "37"),
        (Color::Black, "30"),
        (Color::DarkGrey, "90"),
        (Color::DarkCyan, "37"),
        (Color::Rgb { r: 1, g: 2, b: 3 }, "37"),
    ];
    for (color, number) in all {
        let text = format_colored(color, "x y");
        assert_eq!(text, format!("\x1b[{}mx y\x1b[0m", number));
        assert_eq!(strip_ansi_codes(&text), "x y");
    }
}

#[test]
fn foreground_codes() {
    let all = [
        (Color::Black, "5;0"),
        (Color::DarkRed, "5;1"),
        (Color::DarkGreen, "5;2"),
        (Color::DarkYellow, "5;3"),
        (Color::DarkBlue, "5;4"),
        (Color::DarkMagenta, "5;5"),
        (Color::DarkCyan, "5;6"),
        (Color::Grey, "5;7"),
        (Color::DarkGrey, "5;8"),
        (Color::Red, "5;9"),
        (Color::Green, "5;10"),
        (Color::Yellow, "5;11"),
        (Color::Blue, "5;12"),
        (Color::Magenta, "5;13"),
        (Color::Cyan, "5;14"),
        (Color::White, "5;15"),
        (Color::Rgb { r: 1, g: 20, b: 255 }, "2;1;20;255"),
    ];
    for (color, palette) in all {
        let code = foreground(color);
        assert!(code == format!("\x1b[38;{}m", palette) || code == "\x1b[m", "{:?}", code);
        assert_eq!(strip_ansi_codes(&code), "");
    }
}

#[test]
fn default_config() {
    assert!(is_default(&Config::default()));
    assert!(is_default(&Config::from_settings(unset())));
}

#[test]
fn settings_go_before_defaults() {
    let mut settings = unset();
    settings.temp_low = Some("Blue".to_string());
    settings.log_file = Some("/tmp/server.log".to_string());
    settings.log_lines = Some(25);
    settings.log_height = Some(-1);
    let config = Config::from_settings(settings);
    assert_eq!(config.temp_low, "Blue");
    assert_eq!(config.temp_medium, "Green");
    assert_eq!(config.log_file, Some("/tmp/server.log".to_string()));
    assert_eq!(config.log_lines, 25);
    assert_eq!(config.log_height, usize::MAX);
}

#[test]
fn yaml_sets_texts_and_counts() {
    let config = Config::from_yaml(
        "temp_low: Blue\ntemp_medium: a\ntemp_high: b\ntemp_critical: c\npower: d\nmemory: e\nutil_low: f\nutil_medium: g\nutil_high: h\ntitle: \"RGB(1, 2, 3)\"\nbar_empty: Black\nlog_file: /var/log/llama.log\nlog_lines: 25\nlog_height: 7\n",
    );
    assert_eq!(config.temp_low, "Blue");
    assert_eq!(config.temp_medium, "a");
    assert_eq!(config.temp_high, "b");
    assert_eq!(config.temp_critical, "c");
    assert_eq!(config.power, "d");
    assert_eq!(config.memory, "e");
    assert_eq!(config.util_low, "f");
    assert_eq!(config.util_medium, "g");
    assert_eq!(config.util_high, "h");
    assert_eq!(config.title, "RGB(1, 2, 3)");
    assert_eq!(config.bar_empty, "Black");
    assert_eq!(config.log_file, Some("/var/log/llama.log".to_string()));
    assert_eq!(config.log_lines, 25);
    assert_eq!(config.log_height, 7);
}

#[test]
fn yaml_of_the_wrong_type_is_unset() {
    let config = Config::from_yaml("temp_low: 3\nlog_lines: many\nlog_file: [a]\npower: Red\n");
    assert_eq!(config.temp_low, "Cyan");
    assert_eq!(config.log_lines, 10);
    assert_eq!(config.log_file, None);
    assert_eq!(config.power, "Red");
}

#[test]
fn only_the_first_yaml_document_counts() {
    let config = Config::from_yaml("---\npower: Red\n---\npower: Blue\nmemory: Blue\n");
    assert_eq!(config.power, "Red");
    assert_eq!(config.memory, "Cyan");
}

#[test]
fn yaml_that_sets_nothing_gives_the_defaults() {
    assert!(is_default(&Config::from_yaml("")));
    assert!(is_default(&Config::from_yaml("# nothing\n")));
    assert!(is_default(&Config::from_yaml("- a\n- b\n")));
    assert!(is_default(&Config::from_yaml("other: 1\n")));
    assert!(is_default(&Config::from_yaml("power: Red\n  bad: [\n")));
}

#[test]
fn temperature_colors() {
    let config = Config::default();
    for (temp, color) in [
        (-3.0, Color::Cyan),
        (49.999, Color::Cyan),
        (50.0, Color::Green),
        (69.999, Color::Green),
        (70.0, Color::Yellow),
        (84.999, Color::Yellow),
        (85.0, Color::Red),
        (f64::INFINITY, Color::Red),
        (f64::NAN, Color::Cyan),
    ] {
        assert_eq!(get_temp_color(float(temp), &config), color, "{}", temp);
    }
}

#[test]
fn utilization_colors() {
    let config = Config::default();
    for (util, color) in [
        (0.0, Color::Green),
        (69.999, Color::Green),
        (70.0, Color::Yellow),
        (89.999, Color::Yellow),
        (90.0, Color::Red),
        (100.0, Color::Red),
        (f64::NAN, Color::Green),
    ] {
        assert_eq!(get_util_color(float(util), &config), color, "{}", util);
    }
}
