//! RGB fill colors and their `#rrggbb` text form.

use vstd::prelude::*;

use crate::strutil::chars_to_string;
use vstd::string::StringSliceAdditionalSpecFns;

verus! {

/// An opaque RGB color with 8-bit components.
#[derive(Debug, Clone, Copy, PartialEq, Eq, Structural)]
pub struct Color(pub u8, pub u8, pub u8);

/// Why a color string was rejected.
#[derive(Debug, Clone, Copy, PartialEq, Eq, Structural)]
pub enum ColorParseError {
    /// After leading `#` marks, the text does not have exactly 6 bytes.
    BadLength,
    /// A byte in the 6-digit body is not a hexadecimal digit.
    BadDigit,
}

/// Whether a byte is an ASCII hexadecimal digit.
pub open spec fn is_hex_digit(b: u8) -> bool {
    (0x30 <= b && b <= 0x39) || (0x61 <= b && b <= 0x66) || (0x41 <= b && b <= 0x46)
}

/// The value of an ASCII hexadecimal digit.
pub open spec fn hex_val(b: u8) -> int {
    if 0x30 <= b && b <= 0x39 {
        b - 0x30
    } else if 0x61 <= b && b <= 0x66 {
        b - 0x61 + 10
    } else {
        b - 0x41 + 10
    }
}

/// The lowercase hexadecimal digit for a value below 16.
pub open spec fn hex_char_of(d: int) -> char {
    if d == 0 {
        '0'
    } else if d == 1 {
        '1'
    } else if d == 2 {
        '2'
    } else if d == 3 {
        '3'
    } else if d == 4 {
        '4'
    } else if d == 5 {
        '5'
    } else if d == 6 {
        '6'
    } else if d == 7 {
        '7'
    } else if d == 8 {
        '8'
    } else if d == 9 {
        '9'
    } else if d == 10 {
        'a'
    } else if d == 11 {
        'b'
    } else if d == 12 {
        'c'
    } else if d == 13 {
        'd'
    } else if d == 14 {
        'e'
    } else {
        'f'
    }
}

/// Two lowercase hexadecimal characters for one byte.
pub open spec fn byte_hex_chars(v: u8) -> Seq<char> {
    seq![hex_char_of(v as int / 16), hex_char_of(v as int % 16)]
}

/// The `#rrggbb` character form of a color.
pub open spec fn color_hex_chars(c: Color) -> Seq<char> {
    seq!['#'] + byte_hex_chars(c.0) + byte_hex_chars(c.1) + byte_hex_chars(c.2)
}

/// The `#rrggbb` form of a color as ASCII bytes.
pub open spec fn color_hex_bytes(c: Color) -> Seq<u8> {
    color_hex_chars(c).map_values(|ch: char| ch as u8)
}

/// The input with every leading `#` byte removed.
pub open spec fn strip_hashes(s: Seq<u8>) -> Seq<u8>
    decreases s.len(),
{
    if s.len() > 0 && s[0] == 0x23 {
        strip_hashes(s.skip(1))
    } else {
        s
    }
}

/// What parsing a color string yields: after stripping leading `#` marks the
/// body must be exactly 6 hexadecimal digits.
pub open spec fn parse_color_bytes(s: Seq<u8>) -> Result<Color, ColorParseError> {
    let t = strip_hashes(s);
    if t.len() != 6 {
        Err(ColorParseError::BadLength)
    } else if forall|i: int| 0 <= i < 6 ==> is_hex_digit(#[trigger] t[i]) {
        Ok(
            Color(
                (hex_val(t[0]) * 16 + hex_val(t[1])) as u8,
                (hex_val(t[2]) * 16 + hex_val(t[3])) as u8,
                (hex_val(t[4]) * 16 + hex_val(t[5])) as u8,
            ),
        )
    } else {
        Err(ColorParseError::BadDigit)
    }
}

/// Whether an exec byte is a hexadecimal digit.
fn is_hex_digit_exec(b: u8) -> (r: bool)
    ensures
        r == is_hex_digit(b),
{
    (0x30 <= b && b <= 0x39) || (0x61 <= b && b <= 0x66) || (0x41 <= b && b <= 0x46)
}

/// The value of an exec hexadecimal digit byte.
fn hex_val_exec(b: u8) -> (r: u8)
    requires
        is_hex_digit(b),
    ensures
        r == hex_val(b),
        r < 16,
{
    if 0x30 <= b && b <= 0x39 {
        b - 0x30
    } else if 0x61 <= b && b <= 0x66 {
        b - 0x61 + 10
    } else {
        b - 0x41 + 10
    }
}

/// The lowercase hexadecimal character of a value below 16.
pub(crate) fn hex_char_exec(d: u8) -> (r: char)
    requires
        d < 16,
    ensures
        r == hex_char_of(d as int),
{
    if d == 0 {
        '0'
    } else if d == 1 {
        '1'
    } else if d == 2 {
        '2'
    } else if d == 3 {
        '3'
    } else if d == 4 {
        '4'
    } else if d == 5 {
        '5'
    } else if d == 6 {
        '6'
    } else if d == 7 {
        '7'
    } else if d == 8 {
        '8'
    } else if d == 9 {
        '9'
    } else if d == 10 {
        'a'
    } else if d == 11 {
        'b'
    } else if d == 12 {
        'c'
    } else if d == 13 {
        'd'
    } else if d == 14 {
        'e'
    } else {
        'f'
    }
}

impl Color {
    /// Builds a color from its three 8-bit components.
    pub fn from_rgb(r: u8, g: u8, b: u8) -> (c: Self)
        ensures
            c == Color(r, g, b),
    {
        Color(r, g, b)
    }

    /// The red component scaled to milli-units of the unit interval.
    pub fn r(&self) -> (v: i64)
        ensures
            v == self.0 as int * 1000 / 255,
    {
        self.0 as i64 * 1000 / 255
    }

    /// The green component scaled to milli-units of the unit interval.
    pub fn g(&self) -> (v: i64)
        ensures
            v == self.1 as int * 1000 / 255,
    {
        self.1 as i64 * 1000 / 255
    }

    /// The blue component scaled to milli-units of the unit interval.
    pub fn b(&self) -> (v: i64)
        ensures
            v == self.2 as int * 1000 / 255,
    {
        self.2 as i64 * 1000 / 255
    }

    /// Encodes the color as `#rrggbb` with lowercase digits.
    pub fn to_hex(&self) -> (r: String)
        ensures
            r@ == color_hex_chars(*self),
    {
        let mut cs: Vec<char> = Vec::new();
        cs.push('#');
        cs.push(hex_char_exec(self.0 / 16));
        cs.push(hex_char_exec(self.0 % 16));
        cs.push(hex_char_exec(self.1 / 16));
        cs.push(hex_char_exec(self.1 % 16));
        cs.push(hex_char_exec(self.2 / 16));
        cs.push(hex_char_exec(self.2 % 16));
        proof {
            assert(cs@ =~= color_hex_chars(*self));
        }
        chars_to_string(&cs)
    }

    /// Parses `#rrggbb` text, tolerating any number of leading `#` marks,
    /// exactly as `parse_color_bytes` describes.
    pub fn from_hex(s: &str) -> (r: Result<Color, ColorParseError>)
        ensures
            r == parse_color_bytes(s.spec_bytes()),
    {
        let b = s.as_bytes();
        let mut i: usize = 0;
        proof {
            assert(b@.skip(0) =~= b@);
        }
        while i < b.len() && b[i] == 0x23
            invariant
                0 <= i <= b.len(),
                strip_hashes(b@) == strip_hashes(b@.skip(i as int)),
            decreases b.len() - i,
        {
            proof {
                assert(b@.skip(i as int).skip(1) =~= b@.skip(i as int + 1));
            }
            i = i + 1;
        }
        proof {
            assert(strip_hashes(b@.skip(i as int)) == b@.skip(i as int));
        }
        if b.len() - i != 6 {
            return Err(ColorParseError::BadLength);
        }
        let d0 = b[i];
        let d1 = b[i + 1];
        let d2 = b[i + 2];
        let d3 = b[i + 3];
        let d4 = b[i + 4];
        let d5 = b[i + 5];
        proof {
            let t = strip_hashes(b@);
            assert(t =~= b@.skip(i as int));
            assert(t[0] == d0 && t[1] == d1 && t[2] == d2 && t[3] == d3 && t[4] == d4 && t[5]
                == d5);
        }
        if is_hex_digit_exec(d0) && is_hex_digit_exec(d1) && is_hex_digit_exec(d2)
            && is_hex_digit_exec(d3) && is_hex_digit_exec(d4) && is_hex_digit_exec(d5) {
            let rr = hex_val_exec(d0) * 16 + hex_val_exec(d1);
            let gg = hex_val_exec(d2) * 16 + hex_val_exec(d3);
            let bb = hex_val_exec(d4) * 16 + hex_val_exec(d5);
            Ok(Color(rr, gg, bb))
        } else {
            Err(ColorParseError::BadDigit)
        }
    }
}

/// Law: decoding the encoded form of any color gives that color back.
pub proof fn lemma_color_hex_round_trip(c: Color)
    ensures
        parse_color_bytes(color_hex_bytes(c)) == Ok::<Color, ColorParseError>(c),
{
    let bs = color_hex_bytes(c);
    let cs = color_hex_chars(c);
    assert(cs.len() == 7);
    assert(bs.len() == 7);
    assert(bs[0] == 0x23);
    assert forall|d: int| 0 <= d < 16 implies is_hex_digit(hex_char_of(d) as u8) && hex_val(
        hex_char_of(d) as u8,
    ) == d by {
        if d == 10 {
            assert(hex_char_of(d) == 'a');
        }
    }
    vstd::arithmetic::div_mod::lemma_fundamental_div_mod(c.0 as int, 16);
    vstd::arithmetic::div_mod::lemma_fundamental_div_mod(c.1 as int, 16);
    vstd::arithmetic::div_mod::lemma_fundamental_div_mod(c.2 as int, 16);
    assert(0 <= c.0 as int / 16 < 16 && 0 <= c.0 as int % 16 < 16);
    assert(0 <= c.1 as int / 16 < 16 && 0 <= c.1 as int % 16 < 16);
    assert(0 <= c.2 as int / 16 < 16 && 0 <= c.2 as int % 16 < 16);
    let t = strip_hashes(bs);
    assert(bs.skip(1)[0] == bs[1]);
    assert(!(bs[1] == 0x23));
    assert(strip_hashes(bs.skip(1)) == bs.skip(1));
    assert(t =~= bs.skip(1));
    assert(t.len() == 6);
    assert forall|i: int| 0 <= i < 6 implies is_hex_digit(#[trigger] t[i]) by {
        assert(t[i] == bs[i + 1]);
    }
    assert(hex_val(t[0]) * 16 + hex_val(t[1]) == c.0);
    assert(hex_val(t[2]) * 16 + hex_val(t[3]) == c.1);
    assert(hex_val(t[4]) * 16 + hex_val(t[5]) == c.2);
}

} // verus!
