//! What a configuration sets, and which colours its texts stand for.

use vstd::prelude::*;

use crate::color::{
    foreground, format_colored, named_color, parse_color_str, rgb_fields, rgb_part,
    strip_prefixes, Color,
};
use crate::config::{first_document, Config, Settings};
use crate::laws::words::{
    law_separator_parts_fields, law_trim_drops_white_space, lemma_reads_as, reads_as,
};
use crate::number::{decimal, lemma_decimal};
use crate::text::{is_digit, lemma_run_before, split, starts_with, trim, trim_end_char, CharClass};

verus! {

// ---- settings -------------------------------------------------------------

/// A text of the configuration is what was set, or its default.
pub open spec fn set_or(text: String, set: Option<String>, default: Seq<char>) -> bool {
    &&& set is Some ==> text@ == set->0@
    &&& set is None ==> text@ == default
}

/// A count of the configuration is what was set, if that is a count, or its
/// default.
pub open spec fn count_set_or(count: usize, set: Option<i64>, default: usize) -> bool {
    &&& set is Some && 0 <= set->0 <= usize::MAX ==> count == set->0
    &&& set is None ==> count == default
}

/// What is set is configured, each under its own name, and what is not has its
/// own default.
pub proof fn law_settings_are_configured(settings: Settings, r: Config)
    requires
        call_ensures(Config::from_settings, (settings,), r),
    ensures
        set_or(r.temp_low, settings.temp_low, "Cyan"@),
        set_or(r.temp_medium, settings.temp_medium, "Green"@),
        set_or(r.temp_high, settings.temp_high, "Yellow"@),
        set_or(r.temp_critical, settings.temp_critical, "Red"@),
        set_or(r.power, settings.power, "Green"@),
        set_or(r.memory, settings.memory, "Cyan"@),
        set_or(r.util_low, settings.util_low, "Green"@),
        set_or(r.util_medium, settings.util_medium, "Yellow"@),
        set_or(r.util_high, settings.util_high, "Red"@),
        set_or(r.title, settings.title, "Cyan"@),
        set_or(r.bar_empty, settings.bar_empty, "DarkGrey"@),
        settings.log_file is Some ==> r.log_file is Some && r.log_file->0@ == settings.log_file->0@,
        settings.log_file is None ==> r.log_file is None,
        count_set_or(r.log_lines, settings.log_lines, 10),
        count_set_or(r.log_height, settings.log_height, 10),
{
}

/// A text of the configuration is the string entry of its key, or its default.
pub open spec fn entry_set_or(
    text: String,
    entries: Map<Seq<char>, Seq<char>>,
    key: Seq<char>,
    default: Seq<char>,
) -> bool {
    &&& entries.dom().contains(key) ==> text@ == entries[key]
    &&& !entries.dom().contains(key) ==> text@ == default
}

/// A count of the configuration is the integer entry of its key, if that is a
/// count, or its default.
pub open spec fn entry_count_or(
    count: usize,
    entries: Map<Seq<char>, i64>,
    key: Seq<char>,
    default: usize,
) -> bool {
    &&& entries.dom().contains(key) && 0 <= entries[key] <= usize::MAX ==> count == entries[key]
    &&& !entries.dom().contains(key) ==> count == default
}

/// The entries of the first YAML document are configured, each under its own
/// key, and a key without an entry has its own default.
pub proof fn law_yaml_entries_are_configured(content: &str, r: Config)
    requires
        call_ensures(Config::from_yaml, (content,), r),
    ensures
        entry_set_or(r.temp_low, first_document(content@).0, "temp_low"@, "Cyan"@),
        entry_set_or(r.temp_medium, first_document(content@).0, "temp_medium"@, "Green"@),
        entry_set_or(r.temp_high, first_document(content@).0, "temp_high"@, "Yellow"@),
        entry_set_or(r.temp_critical, first_document(content@).0, "temp_critical"@, "Red"@),
        entry_set_or(r.power, first_document(content@).0, "power"@, "Green"@),
        entry_set_or(r.memory, first_document(content@).0, "memory"@, "Cyan"@),
        entry_set_or(r.util_low, first_document(content@).0, "util_low"@, "Green"@),
        entry_set_or(r.util_medium, first_document(content@).0, "util_medium"@, "Yellow"@),
        entry_set_or(r.util_high, first_document(content@).0, "util_high"@, "Red"@),
        entry_set_or(r.title, first_document(content@).0, "title"@, "Cyan"@),
        entry_set_or(r.bar_empty, first_document(content@).0, "bar_empty"@, "DarkGrey"@),
        first_document(content@).0.dom().contains("log_file"@) ==> r.log_file is Some
            && r.log_file->0@ == first_document(content@).0["log_file"@],
        !first_document(content@).0.dom().contains("log_file"@) ==> r.log_file is None,
        entry_count_or(r.log_lines, first_document(content@).1, "log_lines"@, 10),
        entry_count_or(r.log_height, first_document(content@).1, "log_height"@, 10),
{
}

/// The defaults.
pub proof fn law_defaults(r: Config)
    requires
        call_ensures(<Config as Default>::default, (), r),
    ensures
        r.temp_low@ == "Cyan"@,
        r.temp_medium@ == "Green"@,
        r.temp_high@ == "Yellow"@,
        r.temp_critical@ == "Red"@,
        r.power@ == "Green"@,
        r.memory@ == "Cyan"@,
        r.util_low@ == "Green"@,
        r.util_medium@ == "Yellow"@,
        r.util_high@ == "Red"@,
        r.title@ == "Cyan"@,
        r.bar_empty@ == "DarkGrey"@,
        r.log_file is None,
        r.log_lines == 10,
        r.log_height == 10,
{
}

// ---- colours --------------------------------------------------------------

/// The names of the colours are told apart.
proof fn lemma_color_names()
    ensures
        named_color("Red"@) == Some(Color::Red),
        named_color("Green"@) == Some(Color::Green),
        named_color("Yellow"@) == Some(Color::Yellow),
        named_color("Blue"@) == Some(Color::Blue),
        named_color("Magenta"@) == Some(Color::Magenta),
        named_color("Cyan"@) == Some(Color::Cyan),
        named_color("White"@) == Some(Color::White),
        named_color("Black"@) == Some(Color::Black),
        named_color("DarkRed"@) == Some(Color::DarkRed),
        named_color("DarkGreen"@) == Some(Color::DarkGreen),
        named_color("DarkYellow"@) == Some(Color::DarkYellow),
        named_color("DarkBlue"@) == Some(Color::DarkBlue),
        named_color("DarkMagenta"@) == Some(Color::DarkMagenta),
        named_color("DarkCyan"@) == Some(Color::DarkCyan),
        named_color("DarkGrey"@) == Some(Color::DarkGrey),
        named_color("Grey"@) == Some(Color::Grey),
{
    reveal_strlit("Red");
    reveal_strlit("Green");
    reveal_strlit("Yellow");
    reveal_strlit("Blue");
    reveal_strlit("Magenta");
    reveal_strlit("Cyan");
    reveal_strlit("White");
    reveal_strlit("Black");
    reveal_strlit("DarkRed");
    reveal_strlit("DarkGreen");
    reveal_strlit("DarkYellow");
    reveal_strlit("DarkBlue");
    reveal_strlit("DarkMagenta");
    reveal_strlit("DarkCyan");
    reveal_strlit("DarkGrey");
    reveal_strlit("Grey");
    assert("Red"@.len() == 3 && "Red"@[0] == 'R' && "Red"@[1] == 'e' && "Red"@[2] == 'd');
    assert("Green"@.len() == 5 && "Green"@[0] == 'G' && "Green"@[1] == 'r' && "Green"@[4] == 'n');
    assert("Yellow"@.len() == 6 && "Yellow"@[0] == 'Y' && "Yellow"@[1] == 'e' && "Yellow"@[4] == 'o' && "Yellow"@[5] == 'w');
    assert("Blue"@.len() == 4 && "Blue"@[0] == 'B' && "Blue"@[1] == 'l' && "Blue"@[3] == 'e');
    assert("Magenta"@.len() == 7 && "Magenta"@[0] == 'M' && "Magenta"@[1] == 'a' && "Magenta"@[4] == 'n' && "Magenta"@[5] == 't' && "Magenta"@[6] == 'a');
    assert("Cyan"@.len() == 4 && "Cyan"@[0] == 'C' && "Cyan"@[1] == 'y' && "Cyan"@[3] == 'n');
    assert("White"@.len() == 5 && "White"@[0] == 'W' && "White"@[1] == 'h' && "White"@[4] == 'e');
    assert("Black"@.len() == 5 && "Black"@[0] == 'B' && "Black"@[1] == 'l' && "Black"@[4] == 'k');
    assert("DarkRed"@.len() == 7 && "DarkRed"@[0] == 'D' && "DarkRed"@[1] == 'a' && "DarkRed"@[4] == 'R' && "DarkRed"@[5] == 'e' && "DarkRed"@[6] == 'd');
    assert("DarkGreen"@.len() == 9 && "DarkGreen"@[0] == 'D' && "DarkGreen"@[1] == 'a' && "DarkGreen"@[4] == 'G' && "DarkGreen"@[5] == 'r' && "DarkGreen"@[8] == 'n');
    assert("DarkYellow"@.len() == 10 && "DarkYellow"@[0] == 'D' && "DarkYellow"@[1] == 'a' && "DarkYellow"@[4] == 'Y' && "DarkYellow"@[5] == 'e' && "DarkYellow"@[9] == 'w');
    assert("DarkBlue"@.len() == 8 && "DarkBlue"@[0] == 'D' && "DarkBlue"@[1] == 'a' && "DarkBlue"@[4] == 'B' && "DarkBlue"@[5] == 'l' && "DarkBlue"@[7] == 'e');
    assert("DarkMagenta"@.len() == 11 && "DarkMagenta"@[0] == 'D' && "DarkMagenta"@[1] == 'a' && "DarkMagenta"@[4] == 'M' && "DarkMagenta"@[5] == 'a' && "DarkMagenta"@[10] == 'a');
    assert("DarkCyan"@.len() == 8 && "DarkCyan"@[0] == 'D' && "DarkCyan"@[1] == 'a' && "DarkCyan"@[4] == 'C' && "DarkCyan"@[5] == 'y' && "DarkCyan"@[7] == 'n');
    assert("DarkGrey"@.len() == 8 && "DarkGrey"@[0] == 'D' && "DarkGrey"@[1] == 'a' && "DarkGrey"@[4] == 'G' && "DarkGrey"@[5] == 'r' && "DarkGrey"@[7] == 'y');
    assert("Grey"@.len() == 4 && "Grey"@[0] == 'G' && "Grey"@[1] == 'r' && "Grey"@[3] == 'y');
}

/// A name stands for the colour of that name.
pub proof fn law_names_stand_for_their_colors(name: &str, r: Color)
    requires
        call_ensures(parse_color_str, (name,), r),
    ensures
        name@ == "Red"@ ==> r == Color::Red,
        name@ == "Green"@ ==> r == Color::Green,
        name@ == "Yellow"@ ==> r == Color::Yellow,
        name@ == "Blue"@ ==> r == Color::Blue,
        name@ == "Magenta"@ ==> r == Color::Magenta,
        name@ == "Cyan"@ ==> r == Color::Cyan,
        name@ == "White"@ ==> r == Color::White,
        name@ == "Black"@ ==> r == Color::Black,
        name@ == "DarkRed"@ ==> r == Color::DarkRed,
        name@ == "DarkGreen"@ ==> r == Color::DarkGreen,
        name@ == "DarkYellow"@ ==> r == Color::DarkYellow,
        name@ == "DarkBlue"@ ==> r == Color::DarkBlue,
        name@ == "DarkMagenta"@ ==> r == Color::DarkMagenta,
        name@ == "DarkCyan"@ ==> r == Color::DarkCyan,
        name@ == "DarkGrey"@ ==> r == Color::DarkGrey,
        name@ == "Grey"@ ==> r == Color::Grey,
{
    lemma_color_names();
}

/// Three numbers between `RGB(` and a bracket stand for the colour of these
/// parts, red first; a part above 255 counts as 255.
pub proof fn law_parts_stand_for_their_color(
    text: &str,
    red: nat,
    green: nat,
    blue: nat,
    r: Color,
)
    requires
        text@ == "RGB("@ + decimal(red) + seq![','] + decimal(green) + seq![','] + decimal(blue)
            + seq![')'],
        call_ensures(parse_color_str, (text,), r),
    ensures
        r == (Color::Rgb {
            r: if red <= 255 {
                red as u8
            } else {
                255u8
            },
            g: if green <= 255 {
                green as u8
            } else {
                255u8
            },
            b: if blue <= 255 {
                blue as u8
            } else {
                255u8
            },
        }),
{
    let (x, y, z) = (decimal(red), decimal(green), decimal(blue));
    let tail = y + seq![','] + z;
    let inner = x + seq![','] + tail;
    let s = text@;
    reveal_strlit("RGB(");
    reveal_strlit("RGB");
    lemma_digits(red);
    lemma_digits(green);
    lemma_digits(blue);
    assert(s =~= "RGB("@ + (inner + seq![')']));
    assert(s[0] == 'R' && s[1] == 'G' && s[2] == 'B' && s[3] == '(');
    lemma_not_named(s);
    assert(s.take(3) =~= "RGB"@);
    assert(s.take(4) =~= "RGB("@);
    assert(s.skip(4) =~= inner + seq![')']);
    let bare = inner + seq![')'];
    assert(bare[0] == x[0]);
    assert(!starts_with(bare, "RGB("@)) by {
        if starts_with(bare, "RGB("@) {
            assert(bare[0] == 'R');
        }
    }
    assert(strip_prefixes(s, "RGB("@) == bare) by {
        assert(strip_prefixes(s, "RGB("@) == strip_prefixes(s.skip(4), "RGB("@));
    }
    assert(bare[inner.len() as int] == ')');
    assert(bare[inner.len() - 1] == z.last());
    lemma_run_before(bare, inner.len() as int, bare.len() as int, CharClass::Is(')'));
    assert(trim_end_char(bare, ')') =~= inner);
    law_separator_parts_fields(x, ',', tail);
    law_separator_parts_fields(y, ',', z);
    law_separator_parts_fields(z, ',', seq![]);
    let fields = rgb_fields(s);
    assert(fields =~= seq![x, y, z]);
}

proof fn lemma_digits(n: nat)
    ensures
        decimal(n).len() > 0,
        forall|i: int|
            0 <= i < decimal(n).len() ==> '0' <= #[trigger] decimal(n)[i] && decimal(n)[i] <= '9',
        rgb_part(decimal(n)) == if n <= 255 {
            n as u8
        } else {
            255u8
        },
{
    lemma_decimal(n);
    let d = decimal(n);
    assert forall|i: int| 0 <= i < d.len() implies '0' <= #[trigger] d[i] && d[i] <= '9' by {
        assert(is_digit(d[i]));
    }
    let empty = Seq::<char>::empty();
    assert(is_digit(d[0]) && is_digit(d[d.len() - 1]));
    law_trim_drops_white_space(empty, d, empty);
    assert(empty + d + empty =~= d);
    lemma_reads_as(d, u8::MAX as nat, 255);
}

/// No colour has a name that starts with `RG`.
proof fn lemma_not_named(s: Seq<char>)
    requires
        s.len() > 1,
        s[1] == 'G',
    ensures
        named_color(s) is None,
{
    reveal_strlit("Red");
    reveal_strlit("Green");
    reveal_strlit("Yellow");
    reveal_strlit("Blue");
    reveal_strlit("Magenta");
    reveal_strlit("Cyan");
    reveal_strlit("White");
    reveal_strlit("Black");
    reveal_strlit("DarkRed");
    reveal_strlit("DarkGreen");
    reveal_strlit("DarkYellow");
    reveal_strlit("DarkBlue");
    reveal_strlit("DarkMagenta");
    reveal_strlit("DarkCyan");
    reveal_strlit("DarkGrey");
    reveal_strlit("Grey");
    assert("Red"@[1] == 'e');
    assert("Green"@[1] == 'r');
    assert("Yellow"@[1] == 'e');
    assert("Blue"@[1] == 'l');
    assert("Magenta"@[1] == 'a');
    assert("Cyan"@[1] == 'y');
    assert("White"@[1] == 'h');
    assert("Black"@[1] == 'l');
    assert("DarkRed"@[1] == 'a');
    assert("DarkGreen"@[1] == 'a');
    assert("DarkYellow"@[1] == 'a');
    assert("DarkBlue"@[1] == 'a');
    assert("DarkMagenta"@[1] == 'a');
    assert("DarkCyan"@[1] == 'a');
    assert("DarkGrey"@[1] == 'a');
    assert("Grey"@[1] == 'r');
}

/// What stands between `RGB(` and a bracket stands for a colour where commas
/// part it into three: each field is a part of the colour, white space around
/// it aside, and 255 where it is no number up to that. Other fields stand for
/// white.
pub proof fn law_fields_stand_for_their_color(text: &str, inner: Seq<char>, r: Color)
    requires
        text@ == "RGB("@ + inner + seq![')'],
        inner.len() > 0,
        inner[0] != 'R',
        inner.last() != ')',
        call_ensures(parse_color_str, (text,), r),
    ensures
        split(inner, ',').len() != 3 ==> r == Color::White,
        split(inner, ',').len() == 3 ==> (r matches Color::Rgb { r: red, g, b } && reads_as(
            trim(split(inner, ',')[0]),
            255,
            255,
            red as nat,
        ) && reads_as(trim(split(inner, ',')[1]), 255, 255, g as nat) && reads_as(
            trim(split(inner, ',')[2]),
            255,
            255,
            b as nat,
        )),
{
    let s = text@;
    let bare = inner + seq![')'];
    let fields = split(inner, ',');
    reveal_strlit("RGB(");
    reveal_strlit("RGB");
    assert(s =~= "RGB("@ + bare);
    assert(s[0] == 'R' && s[1] == 'G' && s[2] == 'B' && s[3] == '(');
    lemma_not_named(s);
    assert(s.take(3) =~= "RGB"@);
    assert(s.take(4) =~= "RGB("@);
    assert(s.skip(4) =~= bare);
    assert(bare[0] == inner[0]);
    assert(!starts_with(bare, "RGB("@)) by {
        if starts_with(bare, "RGB("@) {
            assert(bare.take(4)[0] == 'R');
        }
    }
    assert(strip_prefixes(s, "RGB("@) == bare) by {
        assert(strip_prefixes(s, "RGB("@) == strip_prefixes(s.skip(4), "RGB("@));
    }
    assert(bare[inner.len() as int] == ')');
    assert(bare[inner.len() - 1] == inner.last());
    lemma_run_before(bare, inner.len() as int, bare.len() as int, CharClass::Is(')'));
    assert(trim_end_char(bare, ')') =~= inner);
    assert(rgb_fields(s) == fields);
    lemma_reads_as(trim(fields[0]), 255, 255);
    lemma_reads_as(trim(fields[1]), 255, 255);
    lemma_reads_as(trim(fields[2]), 255, 255);
    lemma_part_fits(fields[0]);
    lemma_part_fits(fields[1]);
    lemma_part_fits(fields[2]);
}

proof fn lemma_part_fits(field: Seq<char>)
    ensures
        rgb_part(field) as nat == crate::number::parse_or(trim(field), 255, 255),
{
}

/// Any text that is no name and does not start with `RGB` stands for white.
pub proof fn law_other_texts_stand_for_white(text: &str, r: Color)
    requires
        text@ != "Red"@,
        text@ != "Green"@,
        text@ != "Yellow"@,
        text@ != "Blue"@,
        text@ != "Magenta"@,
        text@ != "Cyan"@,
        text@ != "White"@,
        text@ != "Black"@,
        text@ != "DarkRed"@,
        text@ != "DarkGreen"@,
        text@ != "DarkYellow"@,
        text@ != "DarkBlue"@,
        text@ != "DarkMagenta"@,
        text@ != "DarkCyan"@,
        text@ != "DarkGrey"@,
        text@ != "Grey"@,
        !(text@.len() >= 3 && text@[0] == 'R' && text@[1] == 'G' && text@[2] == 'B'),
        call_ensures(parse_color_str, (text,), r),
    ensures
        r == Color::White,
{
    reveal_strlit("RGB");
    if starts_with(text@, "RGB"@) {
        assert(text@.take(3) == "RGB"@);
        assert(text@.take(3)[0] == 'R' && text@.take(3)[1] == 'G' && text@.take(3)[2] == 'B');
    }
}

/// A coloured text is the text between the code for its colour and the code
/// that ends colours.
pub proof fn law_colored_text_has_its_code(color: Color, text: &str, r: String)
    requires
        call_ensures(format_colored, (color, text), r),
    ensures
        color == Color::Red ==> r@ == "\x1b[31m"@ + text@ + "\x1b[0m"@,
        color == Color::Green ==> r@ == "\x1b[32m"@ + text@ + "\x1b[0m"@,
        color == Color::Yellow ==> r@ == "\x1b[33m"@ + text@ + "\x1b[0m"@,
        color == Color::Blue ==> r@ == "\x1b[34m"@ + text@ + "\x1b[0m"@,
        color == Color::Magenta ==> r@ == "\x1b[35m"@ + text@ + "\x1b[0m"@,
        color == Color::Cyan ==> r@ == "\x1b[36m"@ + text@ + "\x1b[0m"@,
        color == Color::White ==> r@ == "\x1b[37m"@ + text@ + "\x1b[0m"@,
        color == Color::Black ==> r@ == "\x1b[30m"@ + text@ + "\x1b[0m"@,
        color == Color::DarkRed ==> r@ == "\x1b[37m"@ + text@ + "\x1b[0m"@,
        color == Color::DarkGreen ==> r@ == "\x1b[37m"@ + text@ + "\x1b[0m"@,
        color == Color::DarkYellow ==> r@ == "\x1b[37m"@ + text@ + "\x1b[0m"@,
        color == Color::DarkBlue ==> r@ == "\x1b[37m"@ + text@ + "\x1b[0m"@,
        color == Color::DarkMagenta ==> r@ == "\x1b[37m"@ + text@ + "\x1b[0m"@,
        color == Color::DarkCyan ==> r@ == "\x1b[37m"@ + text@ + "\x1b[0m"@,
        color == Color::DarkGrey ==> r@ == "\x1b[90m"@ + text@ + "\x1b[0m"@,
        color == Color::Grey ==> r@ == "\x1b[37m"@ + text@ + "\x1b[0m"@,
        color is Rgb ==> r@ == "\x1b[37m"@ + text@ + "\x1b[0m"@,
{
    reveal_strlit("\x1b[");
    reveal_strlit("m");
    reveal_strlit("30");
    reveal_strlit("\x1b[30m");
    assert("\x1b["@ + "30"@ + "m"@ =~= "\x1b[30m"@);
    reveal_strlit("31");
    reveal_strlit("\x1b[31m");
    assert("\x1b["@ + "31"@ + "m"@ =~= "\x1b[31m"@);
    reveal_strlit("32");
    reveal_strlit("\x1b[32m");
    assert("\x1b["@ + "32"@ + "m"@ =~= "\x1b[32m"@);
    reveal_strlit("33");
    reveal_strlit("\x1b[33m");
    assert("\x1b["@ + "33"@ + "m"@ =~= "\x1b[33m"@);
    reveal_strlit("34");
    reveal_strlit("\x1b[34m");
    assert("\x1b["@ + "34"@ + "m"@ =~= "\x1b[34m"@);
    reveal_strlit("35");
    reveal_strlit("\x1b[35m");
    assert("\x1b["@ + "35"@ + "m"@ =~= "\x1b[35m"@);
    reveal_strlit("36");
    reveal_strlit("\x1b[36m");
    assert("\x1b["@ + "36"@ + "m"@ =~= "\x1b[36m"@);
    reveal_strlit("37");
    reveal_strlit("\x1b[37m");
    assert("\x1b["@ + "37"@ + "m"@ =~= "\x1b[37m"@);
    reveal_strlit("90");
    reveal_strlit("\x1b[90m");
    assert("\x1b["@ + "90"@ + "m"@ =~= "\x1b[90m"@);
}

/// The code for a foreground colour is that of the colour, or one without
/// parameters.
pub proof fn law_foreground_has_its_code(color: Color, r: String)
    requires
        call_ensures(foreground, (color,), r),
    ensures
        color == Color::Red ==> r@ == "\x1b[38;5;9m"@ || r@ == "\x1b[m"@,
        color == Color::Green ==> r@ == "\x1b[38;5;10m"@ || r@ == "\x1b[m"@,
        color == Color::Yellow ==> r@ == "\x1b[38;5;11m"@ || r@ == "\x1b[m"@,
        color == Color::Blue ==> r@ == "\x1b[38;5;12m"@ || r@ == "\x1b[m"@,
        color == Color::Magenta ==> r@ == "\x1b[38;5;13m"@ || r@ == "\x1b[m"@,
        color == Color::Cyan ==> r@ == "\x1b[38;5;14m"@ || r@ == "\x1b[m"@,
        color == Color::White ==> r@ == "\x1b[38;5;15m"@ || r@ == "\x1b[m"@,
        color == Color::Black ==> r@ == "\x1b[38;5;0m"@ || r@ == "\x1b[m"@,
        color == Color::DarkRed ==> r@ == "\x1b[38;5;1m"@ || r@ == "\x1b[m"@,
        color == Color::DarkGreen ==> r@ == "\x1b[38;5;2m"@ || r@ == "\x1b[m"@,
        color == Color::DarkYellow ==> r@ == "\x1b[38;5;3m"@ || r@ == "\x1b[m"@,
        color == Color::DarkBlue ==> r@ == "\x1b[38;5;4m"@ || r@ == "\x1b[m"@,
        color == Color::DarkMagenta ==> r@ == "\x1b[38;5;5m"@ || r@ == "\x1b[m"@,
        color == Color::DarkCyan ==> r@ == "\x1b[38;5;6m"@ || r@ == "\x1b[m"@,
        color == Color::DarkGrey ==> r@ == "\x1b[38;5;8m"@ || r@ == "\x1b[m"@,
        color == Color::Grey ==> r@ == "\x1b[38;5;7m"@ || r@ == "\x1b[m"@,
        color matches Color::Rgb { r: red, g, b } ==> r@ == "\x1b[38;2;"@ + decimal(red as nat) + ";"@
            + decimal(g as nat) + ";"@ + decimal(b as nat) + "m"@ || r@ == "\x1b[m"@,
{
    reveal_strlit("\x1b[38;");
    reveal_strlit("m");
    reveal_strlit("2;");
    reveal_strlit("\x1b[38;2;");
    reveal_strlit("5;9");
    reveal_strlit("\x1b[38;5;9m");
    assert("\x1b[38;"@ + "5;9"@ + "m"@ =~= "\x1b[38;5;9m"@);
    reveal_strlit("5;10");
    reveal_strlit("\x1b[38;5;10m");
    assert("\x1b[38;"@ + "5;10"@ + "m"@ =~= "\x1b[38;5;10m"@);
    reveal_strlit("5;11");
    reveal_strlit("\x1b[38;5;11m");
    assert("\x1b[38;"@ + "5;11"@ + "m"@ =~= "\x1b[38;5;11m"@);
    reveal_strlit("5;12");
    reveal_strlit("\x1b[38;5;12m");
    assert("\x1b[38;"@ + "5;12"@ + "m"@ =~= "\x1b[38;5;12m"@);
    reveal_strlit("5;13");
    reveal_strlit("\x1b[38;5;13m");
    assert("\x1b[38;"@ + "5;13"@ + "m"@ =~= "\x1b[38;5;13m"@);
    reveal_strlit("5;14");
    reveal_strlit("\x1b[38;5;14m");
    assert("\x1b[38;"@ + "5;14"@ + "m"@ =~= "\x1b[38;5;14m"@);
    reveal_strlit("5;15");
    reveal_strlit("\x1b[38;5;15m");
    assert("\x1b[38;"@ + "5;15"@ + "m"@ =~= "\x1b[38;5;15m"@);
    reveal_strlit("5;0");
    reveal_strlit("\x1b[38;5;0m");
    assert("\x1b[38;"@ + "5;0"@ + "m"@ =~= "\x1b[38;5;0m"@);
    reveal_strlit("5;1");
    reveal_strlit("\x1b[38;5;1m");
    assert("\x1b[38;"@ + "5;1"@ + "m"@ =~= "\x1b[38;5;1m"@);
    reveal_strlit("5;2");
    reveal_strlit("\x1b[38;5;2m");
    assert("\x1b[38;"@ + "5;2"@ + "m"@ =~= "\x1b[38;5;2m"@);
    reveal_strlit("5;3");
    reveal_strlit("\x1b[38;5;3m");
    assert("\x1b[38;"@ + "5;3"@ + "m"@ =~= "\x1b[38;5;3m"@);
    reveal_strlit("5;4");
    reveal_strlit("\x1b[38;5;4m");
    assert("\x1b[38;"@ + "5;4"@ + "m"@ =~= "\x1b[38;5;4m"@);
    reveal_strlit("5;5");
    reveal_strlit("\x1b[38;5;5m");
    assert("\x1b[38;"@ + "5;5"@ + "m"@ =~= "\x1b[38;5;5m"@);
    reveal_strlit("5;6");
    reveal_strlit("\x1b[38;5;6m");
    assert("\x1b[38;"@ + "5;6"@ + "m"@ =~= "\x1b[38;5;6m"@);
    reveal_strlit("5;8");
    reveal_strlit("\x1b[38;5;8m");
    assert("\x1b[38;"@ + "5;8"@ + "m"@ =~= "\x1b[38;5;8m"@);
    reveal_strlit("5;7");
    reveal_strlit("\x1b[38;5;7m");
    assert("\x1b[38;"@ + "5;7"@ + "m"@ =~= "\x1b[38;5;7m"@);
    if let Color::Rgb { r: red, g, b } = color {
        assert("\x1b[38;"@ + ("2;"@ + decimal(red as nat) + ";"@ + decimal(g as nat) + ";"@ + decimal(
            b as nat,
        )) + "m"@ =~= "\x1b[38;2;"@ + decimal(red as nat) + ";"@ + decimal(g as nat) + ";"@ + decimal(
            b as nat,
        ) + "m"@);
    }
}

} // verus!
