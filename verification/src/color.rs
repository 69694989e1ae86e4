//! 24-bit RGB colors and their six-digit hexadecimal notation.

use vstd::prelude::*;
use vstd::string::StrSliceExecFns;

use crate::text::{hex_byte, hex_digit, hex_digit_char, hex_value, hex_value_of, push_char, lemma_hex_value_of_digit};

verus! {

/// A color with 8-bit red, green and blue components.
#[derive(Clone, Copy, Debug, PartialEq, Eq, Structural)]
pub struct Rgb {
    /// Red
    pub r: u8,
    /// Green
    pub g: u8,
    /// Blue
    pub b: u8,
}

/// The six lower-case hexadecimal digits of a color: red, green, blue.
pub open spec fn rgb_hex(c: Rgb) -> Seq<char> {
    hex_byte(c.r) + hex_byte(c.g) + hex_byte(c.b)
}

/// The byte written by two hexadecimal digits, if both are digits.
pub open spec fn hex_pair_value(hi: char, lo: char) -> Option<u8> {
    match (hex_value(hi), hex_value(lo)) {
        (Some(h), Some(l)) => Some((h * 16 + l) as u8),
        _ => None,
    }
}

/// The color written as six hexadecimal digits (of either case), if `s` is that.
pub open spec fn rgb_from_hex(s: Seq<char>) -> Option<Rgb> {
    if s.len() != 6 {
        None
    } else {
        match (hex_pair_value(s[0], s[1]), hex_pair_value(s[2], s[3]), hex_pair_value(s[4], s[5])) {
            (Some(r), Some(g), Some(b)) => Some(Rgb { r, g, b }),
            _ => None,
        }
    }
}

impl Rgb {
    /// The color with these components.
    pub fn new(r: u8, g: u8, b: u8) -> (c: Self)
        ensures
            c == (Rgb { r, g, b }),
    {
        Self { r, g, b }
    }

    /// The color as six lower-case hexadecimal digits, such as `fbb86c`.
    pub fn to_string(self) -> (s: String)
        ensures
            s@ == rgb_hex(self),
    {
        let mut s = String::new();
        push_char(&mut s, hex_digit_char(self.r / 16));
        push_char(&mut s, hex_digit_char(self.r % 16));
        push_char(&mut s, hex_digit_char(self.g / 16));
        push_char(&mut s, hex_digit_char(self.g % 16));
        push_char(&mut s, hex_digit_char(self.b / 16));
        push_char(&mut s, hex_digit_char(self.b % 16));
        assert(s@ =~= rgb_hex(self));
        s
    }

    /// Reads a color written as six hexadecimal digits, such as `fbb86c`;
    /// `None` for anything else.
    pub fn parse(s: &str) -> (r: Option<Self>)
        ensures
            r == rgb_from_hex(s@),
    {
        if s.unicode_len() != 6 {
            return None;
        }
        let r = match hex_pair(s.get_char(0), s.get_char(1)) {
            Some(v) => v,
            None => return None,
        };
        let g = match hex_pair(s.get_char(2), s.get_char(3)) {
            Some(v) => v,
            None => return None,
        };
        let b = match hex_pair(s.get_char(4), s.get_char(5)) {
            Some(v) => v,
            None => return None,
        };
        Some(Self { r, g, b })
    }
}

fn hex_pair(hi: char, lo: char) -> (r: Option<u8>)
    ensures
        r == hex_pair_value(hi, lo),
{
    match (hex_value_of(hi), hex_value_of(lo)) {
        (Some(h), Some(l)) => Some(h * 16 + l),
        _ => None,
    }
}

/// Reading back the hexadecimal notation of a color gives the same color.
pub proof fn lemma_parse_to_string(c: Rgb)
    ensures
        rgb_from_hex(rgb_hex(c)) == Some(c),
{
    let s = rgb_hex(c);
    assert(s.len() == 6);
    assert forall|b: u8| #[trigger] hex_pair_value(hex_byte(b)[0], hex_byte(b)[1]) == Some(b) by {
        lemma_hex_value_of_digit(b as int / 16);
        lemma_hex_value_of_digit(b as int % 16);
    }
    assert(s[0] == hex_byte(c.r)[0] && s[1] == hex_byte(c.r)[1]);
    assert(s[2] == hex_byte(c.g)[0] && s[3] == hex_byte(c.g)[1]);
    assert(s[4] == hex_byte(c.b)[0] && s[5] == hex_byte(c.b)[1]);
    assert(hex_pair_value(s[0], s[1]) == Some(c.r));
    assert(hex_pair_value(s[2], s[3]) == Some(c.g));
    assert(hex_pair_value(s[4], s[5]) == Some(c.b));
}


/// A hexadecimal digit in lower case; other characters unchanged.
pub open spec fn lower_hex_char(c: char) -> char {
    if 'A' <= c && c <= 'F' {
        (c as int - 'A' as int + 'a' as int) as char
    } else {
        c
    }
}

proof fn lemma_digit_of_value(c: char)
    requires
        hex_value(c) is Some,
    ensures
        0 <= hex_value(c).unwrap() < 16,
        hex_digit(hex_value(c).unwrap()) == lower_hex_char(c),
{
}

/// Writing back a color read from six hexadecimal digits gives those digits
/// in lower case.
pub proof fn lemma_to_string_of_parse(s: Seq<char>)
    requires
        rgb_from_hex(s) is Some,
    ensures
        rgb_hex(rgb_from_hex(s).unwrap()) == s.map_values(|c: char| lower_hex_char(c)),
{
    let c = rgb_from_hex(s).unwrap();
    assert(hex_pair_value(s[0], s[1]) is Some && hex_pair_value(s[2], s[3]) is Some && hex_pair_value(s[4], s[5]) is Some);
    lemma_digit_of_value(s[0]);
    lemma_digit_of_value(s[1]);
    lemma_digit_of_value(s[2]);
    lemma_digit_of_value(s[3]);
    lemma_digit_of_value(s[4]);
    lemma_digit_of_value(s[5]);
    assert(rgb_hex(c) =~= s.map_values(|c: char| lower_hex_char(c)));
}

} // verus!
