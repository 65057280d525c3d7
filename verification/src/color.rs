//! Background colors: an RGB triple parsed from a 6-digit hex string.

use vstd::prelude::*;

verus! {

/// An opaque RGB color; the alpha channel is implicitly 255.
#[derive(Clone, Copy, Debug, PartialEq, Eq, Structural)]
pub struct Color {
    pub r: u8,
    pub g: u8,
    pub b: u8,
}

/// Why a color string was rejected.
#[derive(Clone, Copy, Debug, PartialEq, Eq, Structural)]
pub enum ColorError {
    /// After stripping an optional leading `#`, the string is not 6 characters long.
    InvalidLength,
    /// The string has the right length but holds a character that is no hex digit.
    InvalidDigit,
}

/// The numeric value of a hex digit, or -1 for any other character.
pub open spec fn hex_val(c: char) -> int {
    let u = c as u32;
    if '0' as u32 <= u && u <= '9' as u32 {
        u - '0' as u32
    } else if 'a' as u32 <= u && u <= 'f' as u32 {
        u - 'a' as u32 + 10
    } else if 'A' as u32 <= u && u <= 'F' as u32 {
        u - 'A' as u32 + 10
    } else {
        -1
    }
}

pub open spec fn is_hex_digit(c: char) -> bool {
    hex_val(c) >= 0
}

/// The color string with an optional leading `#` removed.
pub open spec fn strip_hash(s: Seq<char>) -> Seq<char> {
    if s.len() >= 1 && s[0] == '#' {
        s.skip(1)
    } else {
        s
    }
}

/// A string is a valid color when, after stripping an optional `#`,
/// exactly six hex digits remain.
pub open spec fn valid_hex(s: Seq<char>) -> bool {
    let t = strip_hash(s);
    &&& t.len() == 6
    &&& forall|i: int| 0 <= i < 6 ==> is_hex_digit(#[trigger] t[i])
}

/// The value of channel `k` (0 = red, 1 = green, 2 = blue) of a stripped color string.
pub open spec fn channel_val(t: Seq<char>, k: int) -> int {
    16 * hex_val(t[2 * k]) + hex_val(t[2 * k + 1])
}

/// The value of a single hex digit character.
fn hex_digit(c: char) -> (v: Option<u8>)
    ensures
        match v {
            Some(d) => is_hex_digit(c) && d == hex_val(c),
            None => !is_hex_digit(c),
        },
{
    let u = c as u32;
    if '0' as u32 <= u && u <= '9' as u32 {
        Some((u - '0' as u32) as u8)
    } else if 'a' as u32 <= u && u <= 'f' as u32 {
        Some((u - 'a' as u32 + 10) as u8)
    } else if 'A' as u32 <= u && u <= 'F' as u32 {
        Some((u - 'A' as u32 + 10) as u8)
    } else {
        None
    }
}

/// The two hex digits of channel `k` of a stripped color string, as one byte.
fn hex_channel(t: &str, k: usize) -> (v: Option<u8>)
    requires
        t@.len() == 6,
        k < 3,
    ensures
        match v {
            Some(d) => is_hex_digit(t@[2 * k as int]) && is_hex_digit(t@[2 * k as int + 1])
                && d == channel_val(t@, k as int),
            None => !(is_hex_digit(t@[2 * k as int]) && is_hex_digit(t@[2 * k as int + 1])),
        },
{
    let hi = hex_digit(t.get_char(2 * k));
    let lo = hex_digit(t.get_char(2 * k + 1));
    match (hi, lo) {
        (Some(h), Some(l)) => Some(16 * h + l),
        _ => None,
    }
}

/// Parse a background color from a hex string of the form `RRGGBB` or `#RRGGBB`.
///
/// Exactly the strings that, after stripping an optional leading `#`, consist
/// of six hex digits are accepted; the three channels are the byte values of
/// the three digit pairs.
pub fn hex_to_color(hex: &str) -> (r: Result<Color, ColorError>)
    ensures
        ({
            let t = strip_hash(hex@);
            match r {
                Ok(c) => valid_hex(hex@) && c.r == channel_val(t, 0) && c.g == channel_val(t, 1)
                    && c.b == channel_val(t, 2),
                Err(ColorError::InvalidLength) => t.len() != 6,
                Err(ColorError::InvalidDigit) => t.len() == 6 && !valid_hex(hex@),
            }
        }),
        valid_hex(hex@) <==> r is Ok,
{
    let len = hex.unicode_len();
    let stripped: &str = if len >= 1 && hex.get_char(0) == '#' {
        let s = hex.substring_char(1, len);
        proof {
            assert(s@ =~= strip_hash(hex@));
        }
        s
    } else {
        hex
    };
    if stripped.unicode_len() != 6 {
        return Err(ColorError::InvalidLength);
    }
    let red = hex_channel(stripped, 0);
    let green = hex_channel(stripped, 1);
    let blue = hex_channel(stripped, 2);
    match (red, green, blue) {
        (Some(r), Some(g), Some(b)) => {
            proof {
                assert forall|i: int| 0 <= i < 6 implies is_hex_digit(#[trigger] strip_hash(
                    hex@,
                )[i]) by {
                    assert(is_hex_digit(stripped@[0]) && is_hex_digit(stripped@[1]));
                    assert(is_hex_digit(stripped@[2]) && is_hex_digit(stripped@[3]));
                    assert(is_hex_digit(stripped@[4]) && is_hex_digit(stripped@[5]));
                }
            }
            Ok(Color { r, g, b })
        },
        _ => Err(ColorError::InvalidDigit),
    }
}

} // verus!
