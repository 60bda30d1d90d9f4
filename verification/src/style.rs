//! Terminal styling: ANSI escape sequences for colors, bold and dim text,
//! and the choice of how much color to emit.

use vstd::prelude::*;
use crate::text::{push_decimal, push_str, decimal_spec, str_eq};

verus! {

/// How much color to emit.
#[derive(Debug, Clone, Copy, PartialEq, Eq, Structural)]
pub enum ColorMode {
    /// No escape codes at all.
    Plain,
    /// Basic 16-color ANSI.
    Ansi16,
    /// 24-bit truecolor.
    True,
}

/// The color mode for the given terminal facts: plain when plain output is
/// forced, when `NO_COLOR` is set or when stdout is not a terminal; truecolor
/// when `COLORTERM` is `truecolor` or `24bit`; 16 colors otherwise.
pub open spec fn detect_spec(
    force_plain: bool,
    no_color: bool,
    stdout_is_terminal: bool,
    colorterm: Option<Seq<char>>,
) -> ColorMode {
    if force_plain || no_color || !stdout_is_terminal {
        ColorMode::Plain
    } else if colorterm == Some("truecolor"@) || colorterm == Some("24bit"@) {
        ColorMode::True
    } else {
        ColorMode::Ansi16
    }
}

impl ColorMode {
    /// Chooses the color mode for stdout.
    ///
    /// `force_plain` forces [`ColorMode::Plain`]; `no_color` says whether
    /// `NO_COLOR` is set; `colorterm` is the value of `COLORTERM`, if it is
    /// set and valid text.
    pub fn detect(
        force_plain: bool,
        no_color: bool,
        stdout_is_terminal: bool,
        colorterm: Option<&str>,
    ) -> (mode: ColorMode)
        ensures
            mode == detect_spec(
                force_plain,
                no_color,
                stdout_is_terminal,
                match colorterm {
                    Some(c) => Some(c@),
                    None => None,
                },
            ),
    {
        if force_plain || no_color || !stdout_is_terminal {
            return ColorMode::Plain;
        }
        match colorterm {
            Some(c) => {
                if str_eq(c, "truecolor") || str_eq(c, "24bit") {
                    ColorMode::True
                } else {
                    ColorMode::Ansi16
                }
            },
            None => ColorMode::Ansi16,
        }
    }
}

/// An RGB color plus a nearest 16-color ANSI fallback code.
#[derive(Debug, Clone, Copy, PartialEq, Eq, Structural)]
pub struct Color {
    pub r: u8,
    pub g: u8,
    pub b: u8,
    /// ANSI SGR foreground code used when truecolor is unavailable (e.g. 32).
    pub ansi16: u8,
}

impl Color {
    /// A color from its components.
    pub fn new(r: u8, g: u8, b: u8, ansi16: u8) -> (c: Color)
        ensures
            c == (Color { r, g, b, ansi16 }),
    {
        Color { r, g, b, ansi16 }
    }
}

/// A small calm palette tuned for the dashboard.
pub struct Palette;

impl Palette {
    pub open spec fn green_spec() -> Color {
        Color { r: 126, g: 200, b: 128, ansi16: 32 }
    }

    pub open spec fn yellow_spec() -> Color {
        Color { r: 224, g: 192, b: 96, ansi16: 33 }
    }

    pub open spec fn red_spec() -> Color {
        Color { r: 224, g: 108, b: 108, ansi16: 31 }
    }

    pub open spec fn blue_spec() -> Color {
        Color { r: 122, g: 162, b: 224, ansi16: 34 }
    }

    pub open spec fn cyan_spec() -> Color {
        Color { r: 120, g: 200, b: 200, ansi16: 36 }
    }

    /// Green: completed turns, cheap days, falling costs.
    pub fn green() -> (c: Color)
        ensures
            c == Self::green_spec(),
    {
        Color::new(126, 200, 128, 32)
    }

    /// Yellow: cancelled turns and middling shares.
    pub fn yellow() -> (c: Color)
        ensures
            c == Self::yellow_spec(),
    {
        Color::new(224, 192, 96, 33)
    }

    /// Red: errors, dominant shares, rising costs.
    pub fn red() -> (c: Color)
        ensures
            c == Self::red_spec(),
    {
        Color::new(224, 108, 108, 31)
    }

    /// Blue: the impact bars of the ranked breakdowns.
    pub fn blue() -> (c: Color)
        ensures
            c == Self::blue_spec(),
    {
        Color::new(122, 162, 224, 34)
    }

    /// Cyan: the wordmark and the utilization bar.
    pub fn cyan() -> (c: Color)
        ensures
            c == Self::cyan_spec(),
    {
        Color::new(120, 200, 200, 36)
    }
}

/// `s` holds no escape character, the character that starts every ANSI
/// control sequence.
pub open spec fn no_escape(s: Seq<char>) -> bool {
    forall|i: int| 0 <= i < s.len() ==> s[i] != '\x1b'
}

/// The escape sequence that resets all attributes.
pub open spec fn reset_spec() -> Seq<char> {
    "\x1b[0m"@
}

/// `text` wrapped in the escape codes for `color` under `mode`.
pub open spec fn paint_spec(mode: ColorMode, color: Color, text: Seq<char>) -> Seq<char> {
    match mode {
        ColorMode::Plain => text,
        ColorMode::Ansi16 => "\x1b["@ + decimal_spec(color.ansi16 as nat) + "m"@ + text
            + reset_spec(),
        ColorMode::True => "\x1b[38;2;"@ + decimal_spec(color.r as nat) + ";"@ + decimal_spec(
            color.g as nat,
        ) + ";"@ + decimal_spec(color.b as nat) + "m"@ + text + reset_spec(),
    }
}

/// `text` in bold under `mode` (plain when color is disabled).
pub open spec fn bold_spec(mode: ColorMode, text: Seq<char>) -> Seq<char> {
    match mode {
        ColorMode::Plain => text,
        _ => "\x1b[1m"@ + text + reset_spec(),
    }
}

/// `text` dimmed under `mode` (plain when color is disabled).
pub open spec fn dim_spec(mode: ColorMode, text: Seq<char>) -> Seq<char> {
    match mode {
        ColorMode::Plain => text,
        _ => "\x1b[2m"@ + text + reset_spec(),
    }
}

/// Wraps `text` in the escape codes for `color` under the given `mode`.
pub fn paint(mode: ColorMode, color: Color, text: &str) -> (res: String)
    ensures
        res@ == paint_spec(mode, color, text@),
{
    let mut s = String::new();
    match mode {
        ColorMode::Plain => {
            push_str(&mut s, text);
        },
        ColorMode::Ansi16 => {
            push_str(&mut s, "\x1b[");
            push_decimal(&mut s, color.ansi16 as u64);
            push_str(&mut s, "m");
            push_str(&mut s, text);
            push_str(&mut s, "\x1b[0m");
        },
        ColorMode::True => {
            push_str(&mut s, "\x1b[38;2;");
            push_decimal(&mut s, color.r as u64);
            push_str(&mut s, ";");
            push_decimal(&mut s, color.g as u64);
            push_str(&mut s, ";");
            push_decimal(&mut s, color.b as u64);
            push_str(&mut s, "m");
            push_str(&mut s, text);
            push_str(&mut s, "\x1b[0m");
        },
    }
    assert(s@ =~= paint_spec(mode, color, text@));
    s
}

/// Bold `text` (falls back to plain when color is disabled).
pub fn bold(mode: ColorMode, text: &str) -> (res: String)
    ensures
        res@ == bold_spec(mode, text@),
{
    let mut s = String::new();
    match mode {
        ColorMode::Plain => {
            push_str(&mut s, text);
        },
        _ => {
            push_str(&mut s, "\x1b[1m");
            push_str(&mut s, text);
            push_str(&mut s, "\x1b[0m");
        },
    }
    assert(s@ =~= bold_spec(mode, text@));
    s
}

/// Dim `text` (falls back to plain when color is disabled).
pub fn dim(mode: ColorMode, text: &str) -> (res: String)
    ensures
        res@ == dim_spec(mode, text@),
{
    let mut s = String::new();
    match mode {
        ColorMode::Plain => {
            push_str(&mut s, text);
        },
        _ => {
            push_str(&mut s, "\x1b[2m");
            push_str(&mut s, text);
            push_str(&mut s, "\x1b[0m");
        },
    }
    assert(s@ =~= dim_spec(mode, text@));
    s
}

} // verus!
