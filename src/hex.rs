//! Decoding of `#AARRGGBB` color strings.

use vstd::prelude::*;

verus! {

/// A color as red, green, blue and alpha channels, each in 0..=255.
#[derive(Clone, Copy, Debug, PartialEq, Eq, Structural)]
pub struct Rgba {
    pub r: u8,
    pub g: u8,
    pub b: u8,
    pub a: u8,
}

/// Why a color string could not be decoded.
#[derive(Clone, Copy, Debug, PartialEq, Eq, Structural)]
pub enum HexError {
    /// The string is not exactly nine bytes long.
    Length,
    /// One of the eight digit positions holds no hexadecimal digit.
    Digit,
}

pub open spec fn is_hex_digit(c: u8) -> bool {
    (48 <= c <= 57) || (65 <= c <= 70) || (97 <= c <= 102)
}

/// The value of a hexadecimal digit, either case.
pub open spec fn hex_value(c: u8) -> int {
    if 48 <= c <= 57 {
        c - 48
    } else if 65 <= c <= 70 {
        c - 55
    } else {
        c - 87
    }
}

/// The byte value written by the two digits at `i` and `i + 1`.
pub open spec fn pair_value(s: Seq<u8>, i: int) -> int {
    16 * hex_value(s[i]) + hex_value(s[i + 1])
}

/// Nine bytes whose last eight are hexadecimal digits; the first (`#`) is not read.
pub open spec fn is_argb_hex(s: Seq<u8>) -> bool {
    &&& s.len() == 9
    &&& forall|i: int| 1 <= i < 9 ==> is_hex_digit(#[trigger] s[i])
}

/// The color an `#AARRGGBB` string stands for: the pairs are alpha, red,
/// green and blue in that order.
pub open spec fn decode_argb(s: Seq<u8>) -> Rgba {
    Rgba {
        r: pair_value(s, 3) as u8,
        g: pair_value(s, 5) as u8,
        b: pair_value(s, 7) as u8,
        a: pair_value(s, 1) as u8,
    }
}

/// The upper-case digit for a value in 0..16.
pub open spec fn hex_char(v: int) -> u8 {
    if v < 10 {
        (48 + v) as u8
    } else {
        (55 + v) as u8
    }
}

/// The `#AARRGGBB` string of a color.
pub open spec fn encode_argb(c: Rgba) -> Seq<u8> {
    seq![
        35u8,
        hex_char(c.a as int / 16),
        hex_char(c.a as int % 16),
        hex_char(c.r as int / 16),
        hex_char(c.r as int % 16),
        hex_char(c.g as int / 16),
        hex_char(c.g as int % 16),
        hex_char(c.b as int / 16),
        hex_char(c.b as int % 16),
    ]
}

proof fn lemma_byte_digits(v: u8)
    ensures
        is_hex_digit(hex_char(v as int / 16)),
        is_hex_digit(hex_char(v as int % 16)),
        16 * hex_value(hex_char(v as int / 16)) + hex_value(hex_char(v as int % 16)) == v,
{
    assert(v / 16 < 16 && v % 16 < 16 && 16 * (v / 16) + v % 16 == v) by (nonlinear_arith);
}

/// Encoding a color and decoding the result gives the same channel values.
pub proof fn lemma_hex_round_trip(c: Rgba)
    ensures
        is_argb_hex(encode_argb(c)),
        decode_argb(encode_argb(c)) == c,
{
    lemma_byte_digits(c.a);
    lemma_byte_digits(c.r);
    lemma_byte_digits(c.g);
    lemma_byte_digits(c.b);
    let s = encode_argb(c);
    assert forall|i: int| 1 <= i < 9 implies is_hex_digit(#[trigger] s[i]) by {}
}

/// Decoding a valid string, re-encoding, and decoding again keeps the channel values.
pub proof fn lemma_decode_encode_decode(s: Seq<u8>)
    requires
        is_argb_hex(s),
    ensures
        is_argb_hex(encode_argb(decode_argb(s))),
        decode_argb(encode_argb(decode_argb(s))) == decode_argb(s),
{
    lemma_hex_round_trip(decode_argb(s));
}

fn hex_digit_value(c: u8) -> (r: Option<u8>)
    ensures
        r is Some <==> is_hex_digit(c),
        r matches Some(v) ==> v == hex_value(c) && v < 16,
{
    if 48 <= c && c <= 57 {
        Some(c - 48)
    } else if 65 <= c && c <= 70 {
        Some(c - 55)
    } else if 97 <= c && c <= 102 {
        Some(c - 87)
    } else {
        None
    }
}

fn pair_at(s: &[u8], i: usize) -> (r: Option<u8>)
    requires
        i + 1 < s@.len(),
    ensures
        r is Some <==> is_hex_digit(s@[i as int]) && is_hex_digit(s@[i + 1]),
        r matches Some(v) ==> v == pair_value(s@, i as int),
{
    match (hex_digit_value(s[i]), hex_digit_value(s[i + 1])) {
        (Some(hi), Some(lo)) => Some(16 * hi + lo),
        _ => None,
    }
}

/// Decodes an `#AARRGGBB` color string into its channels.
pub fn from_hex(s: &[u8]) -> (r: Result<Rgba, HexError>)
    ensures
        r is Ok <==> is_argb_hex(s@),
        r matches Ok(c) ==> c == decode_argb(s@),
        r == Err::<Rgba, HexError>(HexError::Length) <==> s@.len() != 9,
        r == Err::<Rgba, HexError>(HexError::Digit) <==> s@.len() == 9 && !is_argb_hex(s@),
{
    if s.len() != 9 {
        return Err(HexError::Length);
    }
    let a = pair_at(s, 1);
    let r = pair_at(s, 3);
    let g = pair_at(s, 5);
    let b = pair_at(s, 7);
    match (a, r, g, b) {
        (Some(a), Some(r), Some(g), Some(b)) => {
            assert forall|i: int| 1 <= i < 9 implies is_hex_digit(#[trigger] s@[i]) by {
                assert(i == 1 || i == 2 || i == 3 || i == 4 || i == 5 || i == 6 || i == 7 || i
                    == 8);
            }
            Ok(Rgba { r, g, b, a })
        },
        _ => Err(HexError::Digit),
    }
}

} // verus!
