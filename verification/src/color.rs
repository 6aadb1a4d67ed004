//! Colors and their Select Graphic Rendition parameters.

use vstd::prelude::*;
use crate::error::{outcome, Failure, VividError};
use crate::text::{
    decimal, decimal_string, is_digit, lemma_decimal, lemma_decimal_injective, str_equal,
};

verus! {

/// How many colors the terminal is asked to show.
#[derive(Debug, Clone, Copy, PartialEq, Eq, Structural)]
pub enum ColorMode {
    /// Three bytes per color.
    BitDepth24,
    /// An index into the palette of 256 colors.
    BitDepth8,
}

/// The layer that a color is applied to.
#[derive(Debug, Clone, Copy, PartialEq, Eq, Structural)]
pub enum ColorType {
    Foreground,
    Background,
}

/// One of the sixteen named terminal colors.
#[derive(Debug, Clone, Copy, PartialEq, Eq, Structural)]
pub enum Ansi3Bit {
    Black,
    Red,
    Green,
    Yellow,
    Blue,
    Magenta,
    Cyan,
    White,
    BrightBlack,
    BrightRed,
    BrightGreen,
    BrightYellow,
    BrightBlue,
    BrightMagenta,
    BrightCyan,
    BrightWhite,
}

/// A color of a theme: none, one given by its red, green and blue
/// components, or one of the named terminal colors.
#[derive(Debug, Clone, Copy, PartialEq, Eq, Structural)]
pub enum Color {
    /// No color: nothing is emitted for it.
    Unset,
    Rgb(u8, u8, u8),
    Ansi3Bit(Ansi3Bit),
}

/// The index in the palette of 256 colors that `ansi_colours` picks as the
/// approximation of an sRGB color.
pub uninterp spec fn ansi256_index(r: u8, g: u8, b: u8) -> u8;

/// `ansi_colours::ansi256_from_rgb` on the triple `(r, g, b)`. The crate
/// computes the index from the three components alone, by table lookups and
/// integer arithmetic; the contract names that index and says nothing else
/// about it.
#[verifier::external_body]
fn ansi256_from_rgb(r: u8, g: u8, b: u8) -> (index: u8)
    ensures
        index == ansi256_index(r, g, b),
{
    ansi_colours::ansi256_from_rgb((r, g, b))
}

impl ColorMode {
    /// The mode that a name chooses: `8-bit` chooses the palette of 256
    /// colors, any other name and no name at all three bytes per color.
    pub open spec fn named(name: Option<Seq<char>>) -> ColorMode {
        if name == Some("8-bit"@) {
            ColorMode::BitDepth8
        } else {
            ColorMode::BitDepth24
        }
    }

    /// The mode that a name chooses.
    pub fn from_name(name: Option<&str>) -> (mode: ColorMode)
        ensures
            mode == ColorMode::named(
                match name {
                    Some(name) => Some(name@),
                    None => None,
                },
            ),
    {
        match name {
            Some(name) => if str_equal(name, "8-bit") {
                ColorMode::BitDepth8
            } else {
                ColorMode::BitDepth24
            },
            None => ColorMode::BitDepth24,
        }
    }
}

impl ColorType {
    /// The parameter that selects this layer for an RGB or a palette color.
    pub open spec fn code(self) -> Seq<char> {
        match self {
            ColorType::Foreground => "38"@,
            ColorType::Background => "48"@,
        }
    }

    /// What turns the code of a named foreground color into that of the same
    /// color on this layer.
    pub open spec fn offset(self) -> nat {
        match self {
            ColorType::Foreground => 0,
            ColorType::Background => 10,
        }
    }

    /// The parameter that selects this layer for an RGB or a palette color.
    pub fn get_code(self) -> (code: &'static str)
        ensures
            code@ == self.code(),
    {
        match self {
            ColorType::Foreground => "38",
            ColorType::Background => "48",
        }
    }

    /// Returns `10` if this is `Background`, to be added to the code of a
    /// named foreground color.
    pub fn bg_addition(self) -> (n: u8)
        ensures
            n == self.offset(),
    {
        match self {
            ColorType::Foreground => 0,
            ColorType::Background => 10,
        }
    }
}

impl Ansi3Bit {
    /// The parameter of this color as a foreground color: 30 to 37 for the
    /// eight standard colors, 90 to 97 for the bright ones.
    pub open spec fn base(self) -> nat {
        match self {
            Ansi3Bit::Black => 30,
            Ansi3Bit::Red => 31,
            Ansi3Bit::Green => 32,
            Ansi3Bit::Yellow => 33,
            Ansi3Bit::Blue => 34,
            Ansi3Bit::Magenta => 35,
            Ansi3Bit::Cyan => 36,
            Ansi3Bit::White => 37,
            Ansi3Bit::BrightBlack => 90,
            Ansi3Bit::BrightRed => 91,
            Ansi3Bit::BrightGreen => 92,
            Ansi3Bit::BrightYellow => 93,
            Ansi3Bit::BrightBlue => 94,
            Ansi3Bit::BrightMagenta => 95,
            Ansi3Bit::BrightCyan => 96,
            Ansi3Bit::BrightWhite => 97,
        }
    }

    /// The parameter of this color as a foreground color.
    pub fn code(self) -> (n: u8)
        ensures
            n == self.base(),
    {
        match self {
            Ansi3Bit::Black => 30,
            Ansi3Bit::Red => 31,
            Ansi3Bit::Green => 32,
            Ansi3Bit::Yellow => 33,
            Ansi3Bit::Blue => 34,
            Ansi3Bit::Magenta => 35,
            Ansi3Bit::Cyan => 36,
            Ansi3Bit::White => 37,
            Ansi3Bit::BrightBlack => 90,
            Ansi3Bit::BrightRed => 91,
            Ansi3Bit::BrightGreen => 92,
            Ansi3Bit::BrightYellow => 93,
            Ansi3Bit::BrightBlue => 94,
            Ansi3Bit::BrightMagenta => 95,
            Ansi3Bit::BrightCyan => 96,
            Ansi3Bit::BrightWhite => 97,
        }
    }
}

/// The value of a hexadecimal digit, in either case.
pub open spec fn hex_value(c: char) -> Option<u8> {
    if '0' <= c <= '9' {
        Some((c as int - '0' as int) as u8)
    } else if 'a' <= c <= 'f' {
        Some((c as int - 'a' as int + 10) as u8)
    } else if 'A' <= c <= 'F' {
        Some((c as int - 'A' as int + 10) as u8)
    } else {
        None
    }
}

/// The byte that two hexadecimal digits spell.
pub open spec fn hex_pair(high: char, low: char) -> Option<u8> {
    match (hex_value(high), hex_value(low)) {
        (Some(h), Some(l)) => Some((16 * h + l) as u8),
        _ => None,
    }
}

/// The color that `rrggbb` or the shorthand `rgb` spells. In the shorthand
/// each digit stands for itself twice.
pub open spec fn parse_hex(s: Seq<char>) -> Option<Color> {
    if s.len() == 6 {
        match (hex_pair(s[0], s[1]), hex_pair(s[2], s[3]), hex_pair(s[4], s[5])) {
            (Some(r), Some(g), Some(b)) => Some(Color::Rgb(r, g, b)),
            _ => None,
        }
    } else if s.len() == 3 {
        match (hex_pair(s[0], s[0]), hex_pair(s[1], s[1]), hex_pair(s[2], s[2])) {
            (Some(r), Some(g), Some(b)) => Some(Color::Rgb(r, g, b)),
            _ => None,
        }
    } else {
        None
    }
}

/// The named color that `ansi:<name>` spells.
pub open spec fn parse_ansi_name(s: Seq<char>) -> Option<Ansi3Bit> {
    if s == "ansi:black"@ {
        Some(Ansi3Bit::Black)
    } else if s == "ansi:red"@ {
        Some(Ansi3Bit::Red)
    } else if s == "ansi:green"@ {
        Some(Ansi3Bit::Green)
    } else if s == "ansi:yellow"@ {
        Some(Ansi3Bit::Yellow)
    } else if s == "ansi:blue"@ {
        Some(Ansi3Bit::Blue)
    } else if s == "ansi:magenta"@ {
        Some(Ansi3Bit::Magenta)
    } else if s == "ansi:cyan"@ {
        Some(Ansi3Bit::Cyan)
    } else if s == "ansi:white"@ {
        Some(Ansi3Bit::White)
    } else if s == "ansi:bright_black"@ {
        Some(Ansi3Bit::BrightBlack)
    } else if s == "ansi:bright_red"@ {
        Some(Ansi3Bit::BrightRed)
    } else if s == "ansi:bright_green"@ {
        Some(Ansi3Bit::BrightGreen)
    } else if s == "ansi:bright_yellow"@ {
        Some(Ansi3Bit::BrightYellow)
    } else if s == "ansi:bright_blue"@ {
        Some(Ansi3Bit::BrightBlue)
    } else if s == "ansi:bright_magenta"@ {
        Some(Ansi3Bit::BrightMagenta)
    } else if s == "ansi:bright_cyan"@ {
        Some(Ansi3Bit::BrightCyan)
    } else if s == "ansi:bright_white"@ {
        Some(Ansi3Bit::BrightWhite)
    } else {
        None
    }
}

/// The color that a hexadecimal string or a reserved name spells, or the
/// failure that carries the string.
pub open spec fn parse_color(s: Seq<char>) -> Result<Color, Failure> {
    match parse_hex(s) {
        Some(color) => Ok(color),
        None => match parse_ansi_name(s) {
            Some(name) => Ok(Color::Ansi3Bit(name)),
            None => Err(Failure::ColorParse(s)),
        },
    }
}

/// The parameters of a palette color on a layer.
pub open spec fn palette_code(colortype: ColorType, index: u8) -> Seq<char> {
    colortype.code() + ";5;"@ + decimal(index as nat)
}

/// The parameters of an RGB color on a layer.
pub open spec fn truecolor_code(colortype: ColorType, r: u8, g: u8, b: u8) -> Seq<char> {
    colortype.code() + ";2;"@ + decimal(r as nat) + ";"@ + decimal(g as nat) + ";"@ + decimal(
        b as nat,
    )
}

/// The parameters that a color contributes to a style.
pub open spec fn style_code(color: Color, colortype: ColorType, colormode: ColorMode) -> Seq<char> {
    match color {
        Color::Unset => Seq::empty(),
        Color::Rgb(r, g, b) => match colormode {
            ColorMode::BitDepth24 => truecolor_code(colortype, r, g, b),
            ColorMode::BitDepth8 => palette_code(colortype, ansi256_index(r, g, b)),
        },
        Color::Ansi3Bit(name) => decimal(name.base() + colortype.offset()),
    }
}

fn hex_digit(c: char) -> (v: Option<u8>)
    ensures
        v == hex_value(c),
{
    let n: u32 = c as u32;
    if 48 <= n && n <= 57 {
        Some((n - 48) as u8)
    } else if 97 <= n && n <= 102 {
        Some((n - 87) as u8)
    } else if 65 <= n && n <= 70 {
        Some((n - 55) as u8)
    } else {
        None
    }
}

fn hex_byte(high: char, low: char) -> (v: Option<u8>)
    ensures
        v == hex_pair(high, low),
{
    match (hex_digit(high), hex_digit(low)) {
        (Some(h), Some(l)) => Some(16 * h + l),
        _ => None,
    }
}

impl Color {
    /// Reads a color written as three or six hexadecimal digits.
    pub fn from_hex_str(hex_str: &str) -> (r: Result<Color, VividError>)
        ensures
            outcome(r) == match parse_hex(hex_str@) {
                Some(color) => Ok::<Color, Failure>(color),
                None => Err(Failure::ColorParse(hex_str@)),
            },
    {
        let n = hex_str.unicode_len();
        let parsed = if n == 6 {
            (
                hex_byte(hex_str.get_char(0), hex_str.get_char(1)),
                hex_byte(hex_str.get_char(2), hex_str.get_char(3)),
                hex_byte(hex_str.get_char(4), hex_str.get_char(5)),
            )
        } else if n == 3 {
            let r = hex_str.get_char(0);
            let g = hex_str.get_char(1);
            let b = hex_str.get_char(2);
            (hex_byte(r, r), hex_byte(g, g), hex_byte(b, b))
        } else {
            (None, None, None)
        };
        match parsed {
            (Some(r), Some(g), Some(b)) => Ok(Color::Rgb(r, g, b)),
            _ => Err(VividError::ColorParseError(String::from_str(hex_str))),
        }
    }

    /// Reads a named terminal color, written as `ansi:` and its name.
    pub fn from_ansi_name(s: &str) -> (r: Result<Color, VividError>)
        ensures
            outcome(r) == match parse_ansi_name(s@) {
                Some(name) => Ok::<Color, Failure>(Color::Ansi3Bit(name)),
                None => Err(Failure::ColorParse(s@)),
            },
    {
        if str_equal(s, "ansi:black") {
            Ok(Color::Ansi3Bit(Ansi3Bit::Black))
        } else if str_equal(s, "ansi:red") {
            Ok(Color::Ansi3Bit(Ansi3Bit::Red))
        } else if str_equal(s, "ansi:green") {
            Ok(Color::Ansi3Bit(Ansi3Bit::Green))
        } else if str_equal(s, "ansi:yellow") {
            Ok(Color::Ansi3Bit(Ansi3Bit::Yellow))
        } else if str_equal(s, "ansi:blue") {
            Ok(Color::Ansi3Bit(Ansi3Bit::Blue))
        } else if str_equal(s, "ansi:magenta") {
            Ok(Color::Ansi3Bit(Ansi3Bit::Magenta))
        } else if str_equal(s, "ansi:cyan") {
            Ok(Color::Ansi3Bit(Ansi3Bit::Cyan))
        } else if str_equal(s, "ansi:white") {
            Ok(Color::Ansi3Bit(Ansi3Bit::White))
        } else if str_equal(s, "ansi:bright_black") {
            Ok(Color::Ansi3Bit(Ansi3Bit::BrightBlack))
        } else if str_equal(s, "ansi:bright_red") {
            Ok(Color::Ansi3Bit(Ansi3Bit::BrightRed))
        } else if str_equal(s, "ansi:bright_green") {
            Ok(Color::Ansi3Bit(Ansi3Bit::BrightGreen))
        } else if str_equal(s, "ansi:bright_yellow") {
            Ok(Color::Ansi3Bit(Ansi3Bit::BrightYellow))
        } else if str_equal(s, "ansi:bright_blue") {
            Ok(Color::Ansi3Bit(Ansi3Bit::BrightBlue))
        } else if str_equal(s, "ansi:bright_magenta") {
            Ok(Color::Ansi3Bit(Ansi3Bit::BrightMagenta))
        } else if str_equal(s, "ansi:bright_cyan") {
            Ok(Color::Ansi3Bit(Ansi3Bit::BrightCyan))
        } else if str_equal(s, "ansi:bright_white") {
            Ok(Color::Ansi3Bit(Ansi3Bit::BrightWhite))
        } else {
            Err(VividError::ColorParseError(String::from_str(s)))
        }
    }

    /// Reads a color written as hexadecimal digits or as a reserved name.
    pub fn parse(s: &str) -> (r: Result<Color, VividError>)
        ensures
            outcome(r) == parse_color(s@),
    {
        match Color::from_hex_str(s) {
            Ok(color) => Ok(color),
            Err(_) => Color::from_ansi_name(s),
        }
    }

    /// The parameters of the palette color `index` on a layer.
    pub fn palette_style(colortype: ColorType, index: u8) -> (style: String)
        ensures
            style@ == palette_code(colortype, index),
    {
        let mut style = String::from_str(colortype.get_code());
        style.append(";5;");
        style.append(decimal_string(index).as_str());
        style
    }

    /// The parameters of the RGB color `(r, g, b)` on a layer.
    pub fn truecolor_style(colortype: ColorType, r: u8, g: u8, b: u8) -> (style: String)
        ensures
            style@ == truecolor_code(colortype, r, g, b),
    {
        let mut style = String::from_str(colortype.get_code());
        style.append(";2;");
        style.append(decimal_string(r).as_str());
        style.append(";");
        style.append(decimal_string(g).as_str());
        style.append(";");
        style.append(decimal_string(b).as_str());
        style
    }

    /// The parameters that this color contributes to a style, on a layer and
    /// in a color mode.
    pub fn get_style(&self, colortype: ColorType, colormode: ColorMode) -> (style: String)
        ensures
            style@ == style_code(*self, colortype, colormode),
    {
        match self {
            Color::Unset => String::new(),
            Color::Rgb(r, g, b) => match colormode {
                ColorMode::BitDepth24 => Color::truecolor_style(colortype, *r, *g, *b),
                ColorMode::BitDepth8 => Color::palette_style(
                    colortype,
                    ansi256_from_rgb(*r, *g, *b),
                ),
            },
            Color::Ansi3Bit(name) => decimal_string(name.code() + colortype.bg_addition()),
        }
    }
}

impl std::str::FromStr for Color {
    type Err = VividError;

    fn from_str(s: &str) -> (r: Result<Color, VividError>)
        ensures
            outcome(r) == parse_color(s@),
    {
        Color::parse(s)
    }
}

/// A digit of the shorthand stands for itself twice: `rgb` spells the color
/// that `rrggbb` spells.
pub proof fn lemma_shorthand_doubles_each_digit(r: char, g: char, b: char)
    ensures
        parse_hex(seq![r, g, b]) == parse_hex(seq![r, r, g, g, b, b]),
        parse_hex(seq![r, g, b]) is Some ==> parse_color(seq![r, g, b]) == parse_color(
            seq![r, r, g, g, b, b],
        ),
{
}

/// The strings that spell a color in hexadecimal digits are those of three or
/// six characters that are all hexadecimal digits.
pub proof fn lemma_hex_strings(s: Seq<char>)
    ensures
        parse_hex(s) is Some <==> (s.len() == 3 || s.len() == 6) && forall|i: int|
            0 <= i < s.len() ==> hex_value(#[trigger] s[i]) is Some,
{
}

/// A string of six hexadecimal digits spells the color whose components are
/// the values of its three pairs of digits, and the truecolor parameters of
/// that color are the numerals of those three values.
pub proof fn lemma_hex_to_truecolor(s: Seq<char>, colortype: ColorType)
    requires
        s.len() == 6,
        forall|i: int| 0 <= i < 6 ==> hex_value(#[trigger] s[i]) is Some,
    ensures
        ({
            let r = 16 * hex_value(s[0]).unwrap() + hex_value(s[1]).unwrap();
            let g = 16 * hex_value(s[2]).unwrap() + hex_value(s[3]).unwrap();
            let b = 16 * hex_value(s[4]).unwrap() + hex_value(s[5]).unwrap();
            &&& r <= 255 && g <= 255 && b <= 255
            &&& parse_color(s) == Ok::<Color, Failure>(Color::Rgb(r as u8, g as u8, b as u8))
            &&& style_code(
                Color::Rgb(r as u8, g as u8, b as u8),
                colortype,
                ColorMode::BitDepth24,
            ) == colortype.code() + ";2;"@ + decimal(r as nat) + ";"@ + decimal(g as nat) + ";"@
                + decimal(b as nat)
        }),
{
}

/// Two sequences of digits, each followed by a semicolon and more, make one
/// sequence only if they are one sequence of digits followed by the same.
proof fn lemma_split_at_semicolon(a: Seq<char>, more_a: Seq<char>, b: Seq<char>, more_b: Seq<char>)
    requires
        forall|i: int| 0 <= i < a.len() ==> is_digit(#[trigger] a[i]),
        forall|i: int| 0 <= i < b.len() ==> is_digit(#[trigger] b[i]),
        a + seq![';'] + more_a == b + seq![';'] + more_b,
    ensures
        a == b,
        more_a == more_b,
{
    let left = a + seq![';'] + more_a;
    let right = b + seq![';'] + more_b;
    if a.len() < b.len() {
        assert(left[a.len() as int] == ';');
        assert(right[a.len() as int] == b[a.len() as int]);
    } else if b.len() < a.len() {
        assert(right[b.len() as int] == ';');
        assert(left[b.len() as int] == a[b.len() as int]);
    } else {
        assert(a == left.take(a.len() as int));
        assert(b == right.take(a.len() as int));
        assert(more_a == left.skip(a.len() as int + 1));
        assert(more_b == right.skip(a.len() as int + 1));
    }
}

/// The truecolor parameters tell the components: two colors with the same
/// parameters on a layer are one color.
pub proof fn lemma_truecolor_tells_components(
    colortype: ColorType,
    first: (u8, u8, u8),
    second: (u8, u8, u8),
)
    requires
        truecolor_code(colortype, first.0, first.1, first.2) == truecolor_code(
            colortype,
            second.0,
            second.1,
            second.2,
        ),
    ensures
        first == second,
{
    reveal_strlit(";");
    let head = colortype.code() + ";2;"@;
    let r1 = decimal(first.0 as nat);
    let g1 = decimal(first.1 as nat);
    let b1 = decimal(first.2 as nat);
    let r2 = decimal(second.0 as nat);
    let g2 = decimal(second.1 as nat);
    let b2 = decimal(second.2 as nat);
    lemma_decimal(first.0 as nat);
    lemma_decimal(first.1 as nat);
    lemma_decimal(first.2 as nat);
    lemma_decimal(second.0 as nat);
    lemma_decimal(second.1 as nat);
    lemma_decimal(second.2 as nat);
    assert(";"@ == seq![';']);
    let tail1 = r1 + seq![';'] + (g1 + seq![';'] + b1);
    let tail2 = r2 + seq![';'] + (g2 + seq![';'] + b2);
    let code1 = truecolor_code(colortype, first.0, first.1, first.2);
    let code2 = truecolor_code(colortype, second.0, second.1, second.2);
    assert(code1 == head + tail1);
    assert(code2 == head + tail2);
    assert(tail1 == code1.skip(head.len() as int));
    assert(tail2 == code2.skip(head.len() as int));
    lemma_split_at_semicolon(r1, g1 + seq![';'] + b1, r2, g2 + seq![';'] + b2);
    lemma_split_at_semicolon(g1, b1, g2, b2);
    lemma_decimal_injective(first.0 as nat, second.0 as nat);
    lemma_decimal_injective(first.1 as nat, second.1 as nat);
    lemma_decimal_injective(first.2 as nat, second.2 as nat);
}

} // verus!
