//! Colours: their names in the configuration, and the terminal codes for them.

use vstd::prelude::*;
use vstd::slice::slice_subrange;

use crossterm::style::{Color as Shade, SetForegroundColor};

use crate::log::{
    is_code, law_code_goes, law_plain_text_stays, law_strip_concat, strip_codes, within_code, ESCAPE,
};
use crate::number::{all_digits, decimal, lemma_decimal, parse_or, read_u8_or};
use crate::text::{
    chars_of, has_prefix, matches_at, rows, same, split, split_fields, starts_with, trim,
    trim_end_char, trimmed, without_trailing, CharClass,
};

verus! {

/// A terminal colour.
#[derive(Clone, Copy, Debug, PartialEq, Eq, Structural)]
pub enum Color {
    Red,
    Green,
    Yellow,
    Blue,
    Magenta,
    Cyan,
    White,
    Black,
    DarkRed,
    DarkGreen,
    DarkYellow,
    DarkBlue,
    DarkMagenta,
    DarkCyan,
    DarkGrey,
    Grey,
    Rgb { r: u8, g: u8, b: u8 },
}

/// The colour of a name.
pub open spec fn named_color(name: Seq<char>) -> Option<Color> {
    if name == "Red"@ {
        Some(Color::Red)
    } else if name == "Green"@ {
        Some(Color::Green)
    } else if name == "Yellow"@ {
        Some(Color::Yellow)
    } else if name == "Blue"@ {
        Some(Color::Blue)
    } else if name == "Magenta"@ {
        Some(Color::Magenta)
    } else if name == "Cyan"@ {
        Some(Color::Cyan)
    } else if name == "White"@ {
        Some(Color::White)
    } else if name == "Black"@ {
        Some(Color::Black)
    } else if name == "DarkRed"@ {
        Some(Color::DarkRed)
    } else if name == "DarkGreen"@ {
        Some(Color::DarkGreen)
    } else if name == "DarkYellow"@ {
        Some(Color::DarkYellow)
    } else if name == "DarkBlue"@ {
        Some(Color::DarkBlue)
    } else if name == "DarkMagenta"@ {
        Some(Color::DarkMagenta)
    } else if name == "DarkCyan"@ {
        Some(Color::DarkCyan)
    } else if name == "DarkGrey"@ {
        Some(Color::DarkGrey)
    } else if name == "Grey"@ {
        Some(Color::Grey)
    } else {
        None
    }
}

/// `s` without the copies of `prefix` at its start.
pub open spec fn strip_prefixes(s: Seq<char>, prefix: Seq<char>) -> Seq<char>
    decreases s.len(),
{
    if prefix.len() > 0 && starts_with(s, prefix) {
        strip_prefixes(s.skip(prefix.len() as int), prefix)
    } else {
        s
    }
}

/// The three fields of an `RGB(r, g, b)` text, if there are three.
pub open spec fn rgb_fields(s: Seq<char>) -> Seq<Seq<char>> {
    split(trim_end_char(strip_prefixes(s, "RGB("@), ')'), ',')
}

/// One part of an `RGB(r, g, b)` text; 255 where it is no number up to that.
pub open spec fn rgb_part(field: Seq<char>) -> u8 {
    parse_or(trim(field), u8::MAX as nat, 255) as u8
}

/// The colour that a text of the configuration stands for: the colour of that
/// name, or of three parts after `RGB`, or white.
pub open spec fn color_of(s: Seq<char>) -> Color {
    match named_color(s) {
        Some(color) => color,
        None => {
            let fields = rgb_fields(s);
            if starts_with(s, "RGB"@) && fields.len() == 3 {
                Color::Rgb {
                    r: rgb_part(fields[0]),
                    g: rgb_part(fields[1]),
                    b: rgb_part(fields[2]),
                }
            } else {
                Color::White
            }
        },
    }
}

fn find_name(name: &[char]) -> (r: Option<Color>)
    ensures
        r == named_color(name@),
{
    if same(name, "Red") {
        Some(Color::Red)
    } else if same(name, "Green") {
        Some(Color::Green)
    } else if same(name, "Yellow") {
        Some(Color::Yellow)
    } else if same(name, "Blue") {
        Some(Color::Blue)
    } else if same(name, "Magenta") {
        Some(Color::Magenta)
    } else if same(name, "Cyan") {
        Some(Color::Cyan)
    } else if same(name, "White") {
        Some(Color::White)
    } else if same(name, "Black") {
        Some(Color::Black)
    } else if same(name, "DarkRed") {
        Some(Color::DarkRed)
    } else if same(name, "DarkGreen") {
        Some(Color::DarkGreen)
    } else if same(name, "DarkYellow") {
        Some(Color::DarkYellow)
    } else if same(name, "DarkBlue") {
        Some(Color::DarkBlue)
    } else if same(name, "DarkMagenta") {
        Some(Color::DarkMagenta)
    } else if same(name, "DarkCyan") {
        Some(Color::DarkCyan)
    } else if same(name, "DarkGrey") {
        Some(Color::DarkGrey)
    } else if same(name, "Grey") {
        Some(Color::Grey)
    } else {
        None
    }
}

fn without_prefixes<'a>(s: &'a [char], prefix: &[char]) -> (r: &'a [char])
    ensures
        r@ == strip_prefixes(s@, prefix@),
{
    if prefix.len() == 0 {
        return s;
    }
    let total: usize = s.len();
    let mut start: usize = 0;
    proof {
        assert(s@.skip(0) =~= s@);
    }
    while matches_at(slice_subrange(s, start, total), prefix, 0)
        invariant
            total == s@.len(),
            start <= total,
            prefix@.len() > 0,
            strip_prefixes(s@, prefix@) == strip_prefixes(s@.skip(start as int), prefix@),
        decreases total - start,
    {
        proof {
            assert(s@.subrange(start as int, total as int) =~= s@.skip(start as int));
            assert(s@.skip(start as int).skip(prefix@.len() as int) =~= s@.skip(
                start + prefix@.len(),
            ));
        }
        start = start + prefix.len();
    }
    let r = slice_subrange(s, start, total);
    proof {
        assert(r@ =~= s@.skip(start as int));
    }
    r
}

fn read_part(field: &[char]) -> (r: u8)
    ensures
        r == rgb_part(field@),
{
    read_u8_or(trimmed(field), 255)
}

/// The colour that a text of the configuration stands for.
pub fn parse_color_str(color_str: &str) -> (r: Color)
    ensures
        r == color_of(color_str@),
{
    let chars = chars_of(color_str);
    let all = chars.as_slice();
    match find_name(all) {
        Some(color) => color,
        None => {
            if !has_prefix(all, "RGB") {
                return Color::White;
            }
            let open = chars_of("RGB(");
            let inner = without_trailing(without_prefixes(all, open.as_slice()), CharClass::Is(')'));
            let fields = split_fields(inner, ',');
            proof {
                assert(rows(fields@) == rgb_fields(color_str@));
                assert(rows(fields@).len() == fields@.len());
            }
            if fields.len() == 3 {
                proof {
                    assert(rows(fields@)[0] == fields@[0]@);
                    assert(rows(fields@)[1] == fields@[1]@);
                    assert(rows(fields@)[2] == fields@[2]@);
                }
                Color::Rgb {
                    r: read_part(fields[0].as_slice()),
                    g: read_part(fields[1].as_slice()),
                    b: read_part(fields[2].as_slice()),
                }
            } else {
                Color::White
            }
        },
    }
}

// ---- coloured text --------------------------------------------------------

/// The number of a colour in a coloured text; white for those without one.
pub open spec fn color_number(color: Color) -> Seq<char> {
    match color {
        Color::Red => "31"@,
        Color::Green => "32"@,
        Color::Yellow => "33"@,
        Color::Blue => "34"@,
        Color::Magenta => "35"@,
        Color::Cyan => "36"@,
        Color::Black => "30"@,
        Color::DarkGrey => "90"@,
        _ => "37"@,
    }
}

/// `text` in a colour: the code for the colour, the text, the code that ends
/// the colour.
pub open spec fn colored(color: Color, text: Seq<char>) -> Seq<char> {
    "\x1b["@ + color_number(color) + "m"@ + text + "\x1b[0m"@
}

/// `text` in a colour.
pub fn format_colored(color: Color, text: &str) -> (r: String)
    ensures
        r@ == colored(color, text@),
{
    let number = match color {
        Color::Red => "31",
        Color::Green => "32",
        Color::Yellow => "33",
        Color::Blue => "34",
        Color::Magenta => "35",
        Color::Cyan => "36",
        Color::Black => "30",
        Color::DarkGrey => "90",
        _ => "37",
    };
    let mut r = String::new();
    r.append("\x1b[");
    r.append(number);
    r.append("m");
    r.append(text);
    r.append("\x1b[0m");
    proof {
        assert(r@ =~= colored(color, text@));
    }
    r
}

// ---- foreground codes -----------------------------------------------------

/// The parameters that select a foreground colour, after `38;`.
pub open spec fn palette(color: Color) -> Seq<char> {
    match color {
        Color::Red => "5;9"@,
        Color::Green => "5;10"@,
        Color::Yellow => "5;11"@,
        Color::Blue => "5;12"@,
        Color::Magenta => "5;13"@,
        Color::Cyan => "5;14"@,
        Color::White => "5;15"@,
        Color::Black => "5;0"@,
        Color::DarkRed => "5;1"@,
        Color::DarkGreen => "5;2"@,
        Color::DarkYellow => "5;3"@,
        Color::DarkBlue => "5;4"@,
        Color::DarkMagenta => "5;5"@,
        Color::DarkCyan => "5;6"@,
        Color::DarkGrey => "5;8"@,
        Color::Grey => "5;7"@,
        Color::Rgb { r, g, b } => "2;"@ + decimal(r as nat) + ";"@ + decimal(g as nat) + ";"@
            + decimal(b as nat),
    }
}

/// What may select a foreground colour: the code for the colour, or a code
/// without parameters where colours are switched off.
pub open spec fn selects(code: Seq<char>, color: Color) -> bool {
    code == "\x1b[38;"@ + palette(color) + "m"@ || code == "\x1b[m"@
}

/// `crossterm::style::SetForegroundColor`, as its `Display` writes it: the
/// escape sequence for the colour, or one without parameters where colours are
/// switched off, as a value of the environment variable `NO_COLOR` does. Which
/// of the two comes is not stated. Of consoles that take no escape sequences,
/// which are none on Unix, nothing is claimed.
#[verifier::external_body]
fn set_foreground(color: Color) -> (r: String)
    ensures
        selects(r@, color),
{
    let shade = match color {
        Color::Red => Shade::Red, Color::Green => Shade::Green,
        Color::Yellow => Shade::Yellow, Color::Blue => Shade::Blue,
        Color::Magenta => Shade::Magenta, Color::Cyan => Shade::Cyan,
        Color::White => Shade::White, Color::Black => Shade::Black,
        Color::DarkRed => Shade::DarkRed, Color::DarkGreen => Shade::DarkGreen,
        Color::DarkYellow => Shade::DarkYellow, Color::DarkBlue => Shade::DarkBlue,
        Color::DarkMagenta => Shade::DarkMagenta, Color::DarkCyan => Shade::DarkCyan,
        Color::DarkGrey => Shade::DarkGrey, Color::Grey => Shade::Grey,
        Color::Rgb { r, g, b } => Shade::Rgb { r, g, b },
    };
    format!("{}", SetForegroundColor(shade))
}

/// The code that selects a foreground colour.
pub fn foreground(color: Color) -> (r: String)
    ensures
        selects(r@, color),
{
    set_foreground(color)
}

proof fn lemma_color_number(color: Color)
    ensures
        color_number(color).len() == 2,
        forall|i: int| 0 <= i < 2 ==> within_code(#[trigger] color_number(color)[i]),
{
    reveal_strlit("30");
    reveal_strlit("31");
    reveal_strlit("32");
    reveal_strlit("33");
    reveal_strlit("34");
    reveal_strlit("35");
    reveal_strlit("36");
    reveal_strlit("37");
    reveal_strlit("90");
}

/// A coloured text shows the text: without its terminal codes it is the text.
pub proof fn law_colored_text_shows(color: Color, text: Seq<char>)
    requires
        forall|i: int| 0 <= i < text.len() ==> #[trigger] text[i] != ESCAPE,
    ensures
        strip_codes(colored(color, text), false) == text,
{
    reveal_strlit("\x1b[");
    reveal_strlit("m");
    reveal_strlit("\x1b[0m");
    lemma_color_number(color);
    let open = "\x1b["@ + color_number(color) + "m"@;
    let close = "\x1b[0m"@;
    let empty = Seq::<char>::empty();
    assert(is_code(open)) by {
        assert forall|i: int| 1 <= i < open.len() - 1 implies within_code(#[trigger] open[i]) by {
            if i >= 2 {
                assert(open[i] == color_number(color)[i - 2]);
            }
        }
    }
    assert(is_code(close));
    law_code_goes(open, text + close);
    assert(colored(color, text) =~= open + (text + close));
    law_plain_text_stays(text);
    law_strip_concat(text, close, false);
    law_code_goes(close, empty);
    assert(close + empty =~= close);
    assert(text + strip_codes(empty, false) =~= text);
}

proof fn lemma_palette(color: Color)
    ensures
        forall|i: int| 0 <= i < palette(color).len() ==> within_code(#[trigger] palette(color)[i]),
{
    reveal_strlit("5;0");
    reveal_strlit("5;1");
    reveal_strlit("5;2");
    reveal_strlit("5;3");
    reveal_strlit("5;4");
    reveal_strlit("5;5");
    reveal_strlit("5;6");
    reveal_strlit("5;7");
    reveal_strlit("5;8");
    reveal_strlit("5;9");
    reveal_strlit("5;10");
    reveal_strlit("5;11");
    reveal_strlit("5;12");
    reveal_strlit("5;13");
    reveal_strlit("5;14");
    reveal_strlit("5;15");
    reveal_strlit("2;");
    reveal_strlit(";");
    if let Color::Rgb { r, g, b } = color {
        lemma_decimal(r as nat);
        lemma_decimal(g as nat);
        lemma_decimal(b as nat);
        let (x, y, z) = (decimal(r as nat), decimal(g as nat), decimal(b as nat));
        assert(all_digits(x) && all_digits(y) && all_digits(z));
        assert forall|i: int| 0 <= i < palette(color).len() implies within_code(
            #[trigger] palette(color)[i],
        ) by {
            let i1 = 2 + x.len();
            let i2 = i1 + 1 + y.len();
            if i < 2 {
            } else if i < i1 {
                assert(palette(color)[i] == x[i - 2]);
            } else if i == i1 {
            } else if i < i2 {
                assert(palette(color)[i] == y[i - i1 - 1]);
            } else if i == i2 {
            } else {
                assert(palette(color)[i] == z[i - i2 - 1]);
            }
        }
    }
}

/// What selects a foreground colour is a terminal code, whichever comes.
pub proof fn law_foreground_is_a_code(code: Seq<char>, color: Color)
    requires
        selects(code, color),
    ensures
        is_code(code),
{
    reveal_strlit("\x1b[38;");
    reveal_strlit("\x1b[m");
    reveal_strlit("m");
    lemma_palette(color);
    if code != "\x1b[m"@ {
        assert forall|i: int| 1 <= i < code.len() - 1 implies within_code(#[trigger] code[i]) by {
            if i >= 5 {
                assert(code[i] == palette(color)[i - 5]);
            }
        }
    }
}

} // verus!
