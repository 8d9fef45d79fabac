//! The hexadecimal form of a colour: `#rrggbb`.
//!
//! Written in lower case; read in either case. Anything but a `#` followed
//! by exactly six hexadecimal digits is refused.

use vstd::prelude::*;
use vstd::string::*;
use vstd::utf8::is_ascii_chars;
use crate::color::{byte_of_channel, channel_of_byte, Color, Rgb};

verus! {

/// Why a text is no colour.
#[derive(Clone, Copy, Debug, PartialEq, Eq, Structural)]
pub enum ParseError {
    /// The text is not `#` followed by six hexadecimal digits.
    InvalidFormat,
}

/// The digit for a value from 0 to 15: `0` to `9`, then `a` to `f`.
pub open spec fn digit_char(d: int) -> char {
    if d < 10 {
        (('0' as u8) + d) as u8 as char
    } else {
        (('a' as u8) + d - 10) as u8 as char
    }
}

/// The value of a hexadecimal digit of either case; `None` for any other
/// character.
pub open spec fn hex_value(c: char) -> Option<int> {
    if '0' <= c <= '9' {
        Some(c as int - '0' as int)
    } else if 'a' <= c <= 'f' {
        Some(c as int - 'a' as int + 10)
    } else if 'A' <= c <= 'F' {
        Some(c as int - 'A' as int + 10)
    } else {
        None
    }
}

/// The byte that two hexadecimal digits denote, if both are digits.
pub open spec fn hex_pair(hi: char, lo: char) -> Option<int> {
    match (hex_value(hi), hex_value(lo)) {
        (Some(h), Some(l)) => Some(16 * h + l),
        _ => None,
    }
}

/// The seven characters that stand for three bytes.
pub open spec fn hex_text(r: int, g: int, b: int) -> Seq<char> {
    seq![
        '#',
        digit_char(r / 16),
        digit_char(r % 16),
        digit_char(g / 16),
        digit_char(g % 16),
        digit_char(b / 16),
        digit_char(b % 16),
    ]
}

/// The three bytes that a text stands for: `Some` exactly where the text is
/// `#` followed by six hexadecimal digits.
pub open spec fn parse_hex(s: Seq<char>) -> Option<(int, int, int)> {
    if s.len() == 7 && s[0] == '#' {
        match (hex_pair(s[1], s[2]), hex_pair(s[3], s[4]), hex_pair(s[5], s[6])) {
            (Some(r), Some(g), Some(b)) => Some((r, g, b)),
            _ => None,
        }
    } else {
        None
    }
}

/// The colour that three bytes stand for.
pub open spec fn rgb_of_bytes(bytes: (int, int, int)) -> Rgb {
    Rgb {
        r: channel_of_byte(bytes.0),
        g: channel_of_byte(bytes.1),
        b: channel_of_byte(bytes.2),
    }
}

/// The hexadecimal text of a colour: its three channels as rounded bytes.
pub open spec fn hex_of(c: Rgb) -> Seq<char> {
    hex_text(byte_of_channel(c.r), byte_of_channel(c.g), byte_of_channel(c.b))
}

/// The lower-case form of an ASCII letter; any other character is unchanged.
pub open spec fn ascii_lower(c: char) -> char {
    if 'A' <= c <= 'Z' {
        ((c as u8) + 32) as u8 as char
    } else {
        c
    }
}

/// A hexadecimal digit written by `digit_char` is read back as its value.
pub proof fn lemma_hex_digit_value(d: int)
    requires
        0 <= d < 16,
    ensures
        hex_value(digit_char(d)) == Some(d),
{
}

/// The case of a hexadecimal digit does not change its value.
pub proof fn lemma_hex_value_ignores_case(c: char)
    ensures
        hex_value(ascii_lower(c)) == hex_value(c),
{
}

/// The case of a text does not change the colour it stands for.
pub proof fn lemma_parse_hex_ignores_case(s: Seq<char>)
    ensures
        parse_hex(s.map_values(|c: char| ascii_lower(c))) == parse_hex(s),
{
    let t = s.map_values(|c: char| ascii_lower(c));
    assert(t.len() == s.len());
    if s.len() == 7 {
        assert forall|i: int| 0 <= i < 7 implies #[trigger] hex_value(t[i]) == hex_value(s[i]) by {
            lemma_hex_value_ignores_case(s[i]);
        }
        assert(t[0] == ascii_lower(s[0]));
    }
}

/// The value of one hexadecimal digit.
fn digit_value(c: char) -> (res: Option<u8>)
    ensures
        match res {
            Some(v) => hex_value(c) == Some(v as int) && v < 16,
            None => hex_value(c) is None,
        },
{
    if '0' <= c && c <= '9' {
        Some(c as u8 - '0' as u8)
    } else if 'a' <= c && c <= 'f' {
        Some(c as u8 - 'a' as u8 + 10)
    } else if 'A' <= c && c <= 'F' {
        Some(c as u8 - 'A' as u8 + 10)
    } else {
        None
    }
}

/// The byte that two hexadecimal digits denote.
fn pair_value(hi: char, lo: char) -> (res: Option<u8>)
    ensures
        match res {
            Some(v) => hex_pair(hi, lo) == Some(v as int),
            None => hex_pair(hi, lo) is None,
        },
{
    match digit_value(hi) {
        Some(h) => match digit_value(lo) {
            Some(l) => Some(16 * h + l),
            None => None,
        },
        None => None,
    }
}

/// The text of one lower-case hexadecimal digit.
pub(crate) fn digit_text(d: u8) -> (res: &'static str)
    requires
        d < 16,
    ensures
        res@ == seq![digit_char(d as int)],
{
    let digits = "0123456789abcdef";
    proof {
        reveal_strlit("0123456789abcdef");
        assert(is_ascii_chars(digits@)) by {
            assert forall|i: int| 0 <= i < digits@.len() implies (digits@[i] as u32) < 128 by {}
        }
    }
    let res = digits.substring_ascii(d as usize, d as usize + 1);
    assert(res@ =~= seq![digit_char(d as int)]);
    res
}

/// Appends the two hexadecimal digits of a byte.
fn push_byte(out: &mut String, byte: u8)
    ensures
        final(out)@ == old(out)@ + seq![digit_char(byte as int / 16), digit_char(byte as int % 16)],
{
    out.append(digit_text(byte / 16));
    out.append(digit_text(byte % 16));
    assert(final(out)@ =~= old(out)@ + seq![
        digit_char(byte as int / 16),
        digit_char(byte as int % 16),
    ]);
}

impl Color {
    /// The colour as `#rrggbb`, in lower case, from its rounded bytes.
    pub fn to_hex(&self) -> (res: String)
        ensures
            res@ == hex_of(self@),
    {
        let bytes = self.to_rgb8();
        let mut out = String::new();
        proof {
            reveal_strlit("#");
        }
        out.append("#");
        push_byte(&mut out, bytes[0]);
        push_byte(&mut out, bytes[1]);
        push_byte(&mut out, bytes[2]);
        assert(out@ =~= hex_of(self@));
        out
    }

    /// Reads `#rrggbb`, in either case. Any other text is refused.
    pub fn from_hex(text: &str) -> (res: Result<Color, ParseError>)
        ensures
            match parse_hex(text@) {
                Some(bytes) => res is Ok && res->Ok_0@ == rgb_of_bytes(bytes),
                None => res == Err::<Color, ParseError>(ParseError::InvalidFormat),
            },
    {
        if text.unicode_len() != 7 {
            return Err(ParseError::InvalidFormat);
        }
        if text.get_char(0) != '#' {
            return Err(ParseError::InvalidFormat);
        }
        let r = pair_value(text.get_char(1), text.get_char(2));
        let g = pair_value(text.get_char(3), text.get_char(4));
        let b = pair_value(text.get_char(5), text.get_char(6));
        match (r, g, b) {
            (Some(r), Some(g), Some(b)) => Ok(Color::from_rgb8(r, g, b)),
            _ => Err(ParseError::InvalidFormat),
        }
    }
}

} // verus!
