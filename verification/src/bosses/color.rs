//! The colours that runners choose.
use vstd::prelude::*;

verus! {

/// A colour with its opacity.
#[derive(PartialEq, Eq, Structural, Clone, Copy, Debug)]
pub struct Color {
    pub r: u8,
    pub g: u8,
    pub b: u8,
    pub a: u8,
}

/// Solid white.
pub open spec fn white() -> Color {
    Color { r: 255, g: 255, b: 255, a: 255 }
}

impl Color {
    /// Solid white.
    pub fn white() -> (r: Self)
        ensures
            r == white(),
    {
        Color { r: 255, g: 255, b: 255, a: 255 }
    }
}

/// The value of a hexadecimal digit of either case.
pub open spec fn hex_value(c: char) -> Option<int> {
    let n = c as int;
    if '0' <= c <= '9' {
        Some(n - '0' as int)
    } else if 'a' <= c <= 'f' {
        Some(n - 'a' as int + 10)
    } else if 'A' <= c <= 'F' {
        Some(n - 'A' as int + 10)
    } else {
        None
    }
}

/// The value of two characters: two hexadecimal digits, or a plus sign and one.
pub open spec fn pair_value(hi: char, lo: char) -> Option<int> {
    match (hex_value(hi), hex_value(lo)) {
        (Some(h), Some(l)) => Some(16 * h + l),
        (None, Some(l)) if hi == '+' => Some(l),
        _ => None,
    }
}

/// The opaque colour of three parts.
pub open spec fn solid(r: Option<int>, g: Option<int>, b: Option<int>) -> Option<Color> {
    match (r, g, b) {
        (Some(r), Some(g), Some(b)) => Some(
            Color { r: r as u8, g: g as u8, b: b as u8, a: 255 },
        ),
        _ => None,
    }
}

/// Both digits of a part alike.
pub open spec fn doubled(v: Option<int>) -> Option<int> {
    match v {
        Some(v) => Some(17 * v),
        None => None,
    }
}

/// The colour that a text gives: a hash sign and three digits, one for each part, or six
/// characters, two for each.
pub open spec fn color_of(text: Seq<char>) -> Option<Color> {
    if text.len() == 4 && text[0] == '#' {
        solid(
            doubled(hex_value(text[1])),
            doubled(hex_value(text[2])),
            doubled(hex_value(text[3])),
        )
    } else if text.len() == 7 && text[0] == '#' {
        solid(
            pair_value(text[1], text[2]),
            pair_value(text[3], text[4]),
            pair_value(text[5], text[6]),
        )
    } else {
        None
    }
}

/// The error of `hex_color`'s parsers.
#[verifier::external_type_specification]
#[verifier::external_body]
pub struct ExParseHexColorError(hex_color::ParseHexColorError);

/// `HexColor::parse_rgb`: the opaque colour of `#RGB` or `#RRGGBB`, in either case, or an error
/// for any other text. The pairs of the long form are read by `u8::from_str_radix`, which takes a
/// plus sign before a single digit.
#[verifier::external_body]
fn parse_rgb(text: &str) -> (r: Result<Color, hex_color::ParseHexColorError>)
    ensures
        match r {
            Ok(c) => color_of(text@) == Some(c),
            Err(_) => color_of(text@) is None,
        },
{
    let c = hex_color::HexColor::parse_rgb(text)?;
    Ok(Color { r: c.r, g: c.g, b: c.b, a: c.a })
}

/// The colour that a text gives, if any.
pub fn parse_color(text: &str) -> (r: Option<Color>)
    ensures
        r == color_of(text@),
{
    match parse_rgb(text) {
        Ok(color) => Some(color),
        Err(_) => None,
    }
}

} // verus!
