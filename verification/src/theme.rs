//! The brand theme: parsing `#RRGGBB` brand hex strings, and the generated
//! voice-coloured window icon.

use vstd::prelude::*;
use crate::text::{chars_of, string_from_chars, trim, trim_bounds};

verus! {

/// An opaque RGB colour.
#[derive(Debug, Clone, Copy, PartialEq, Eq, Structural)]
pub struct Rgb {
    pub r: u8,
    pub g: u8,
    pub b: u8,
}

/// `s` without its leading `#` characters.
pub open spec fn strip_hashes(s: Seq<char>) -> Seq<char>
    decreases s.len(),
{
    if s.len() > 0 && s[0] == '#' {
        strip_hashes(s.drop_first())
    } else {
        s
    }
}

/// The value of a hexadecimal digit byte, either case.
pub open spec fn hex_digit(b: u8) -> Option<u8> {
    if 48 <= b <= 57 {
        Some((b - 48) as u8)
    } else if 97 <= b <= 102 {
        Some((b - 87) as u8)
    } else if 65 <= b <= 70 {
        Some((b - 55) as u8)
    } else {
        None
    }
}

/// What `u8::from_str_radix(_, 16)` gives for the two-byte text `b0 b1`:
/// two hex digits, or `+` and one hex digit.
pub open spec fn hex_pair(b0: u8, b1: u8) -> Option<u8> {
    if b0 == 43 {
        hex_digit(b1)
    } else {
        match (hex_digit(b0), hex_digit(b1)) {
            (Some(x), Some(y)) => Some((x * 16 + y) as u8),
            _ => None,
        }
    }
}

/// The colour channel written at bytes `i..i+2` of `b`, or `d` when those
/// bytes are missing or are not a hex byte.
pub open spec fn channel(b: Seq<u8>, i: int, d: u8) -> u8 {
    if i + 2 <= b.len() {
        match hex_pair(b[i], b[i + 1]) {
            Some(v) => v,
            None => d,
        }
    } else {
        d
    }
}

/// The colour a `#RRGGBB` brand hex names: after trimming and dropping the
/// leading `#`s, each channel is read from its two bytes; a missing or
/// malformed channel falls back to the C0PL4ND violet's (`#B48CE8`).
pub open spec fn hex_rgb(s: Seq<char>) -> Rgb {
    let b = vstd::utf8::encode_utf8(strip_hashes(trim(s)));
    Rgb { r: channel(b, 0, 0xB4), g: channel(b, 2, 0x8C), b: channel(b, 4, 0xE8) }
}

fn hex_digit_exec(b: u8) -> (r: Option<u8>)
    ensures
        r == hex_digit(b),
{
    if 48 <= b && b <= 57 {
        Some(b - 48)
    } else if 97 <= b && b <= 102 {
        Some(b - 87)
    } else if 65 <= b && b <= 70 {
        Some(b - 55)
    } else {
        None
    }
}

fn channel_exec(b: &[u8], i: usize, d: u8) -> (r: u8)
    requires
        i <= 4,
    ensures
        r == channel(b@, i as int, d),
{
    if i + 2 > b.len() {
        return d;
    }
    let b0 = b[i];
    let b1 = b[i + 1];
    if b0 == 43 {
        return match hex_digit_exec(b1) {
            Some(v) => v,
            None => d,
        };
    }
    match (hex_digit_exec(b0), hex_digit_exec(b1)) {
        (Some(x), Some(y)) => x * 16 + y,
        _ => d,
    }
}

/// Parse a `#RRGGBB` brand hex into a colour, falling back per channel to the
/// C0PL4ND violet.
pub fn hex(s: &str) -> (c: Rgb)
    ensures
        c == hex_rgb(s@),
{
    let v = chars_of(s);
    let (a, b) = trim_bounds(&v, 0, v.len());
    assert(v@.subrange(0, v@.len() as int) == v@);
    let mut h = a;
    while h < b && v[h] == '#'
        invariant
            a <= h <= b <= v.len(),
            strip_hashes(v@.subrange(a as int, b as int)) == strip_hashes(
                v@.subrange(h as int, b as int),
            ),
        decreases b - h,
    {
        assert(v@.subrange(h as int, b as int).drop_first() == v@.subrange(h + 1, b as int));
        h += 1;
    }
    assert(strip_hashes(v@.subrange(h as int, b as int)) == v@.subrange(h as int, b as int));
    let t = string_from_chars(&v, h, b);
    let bytes = t.as_str().as_bytes();
    Rgb {
        r: channel_exec(bytes, 0, 0xB4),
        g: channel_exec(bytes, 2, 0x8C),
        b: channel_exec(bytes, 4, 0xE8),
    }
}

/// The value of a hexadecimal digit character, either case.
pub open spec fn hex_char_value(c: char) -> Option<u8> {
    if '0' <= c <= '9' {
        Some((c as int - '0' as int) as u8)
    } else if 'a' <= c <= 'f' {
        Some((c as int - 'a' as int + 10) as u8)
    } else if 'A' <= c <= 'F' {
        Some((c as int - 'A' as int + 10) as u8)
    } else {
        None
    }
}

/// `#RRGGBB` names the colour its three byte pairs spell.
pub proof fn law_hex_reads_its_channels(digits: Seq<char>)
    requires
        digits.len() == 6,
        forall|i: int| 0 <= i < 6 ==> (#[trigger] hex_char_value(digits[i])) is Some,
    ensures
        hex_rgb(seq!['#'] + digits) == (Rgb {
            r: (hex_char_value(digits[0])->0 * 16 + hex_char_value(digits[1])->0) as u8,
            g: (hex_char_value(digits[2])->0 * 16 + hex_char_value(digits[3])->0) as u8,
            b: (hex_char_value(digits[4])->0 * 16 + hex_char_value(digits[5])->0) as u8,
        }),
{
    let s = seq!['#'] + digits;
    assert(hex_char_value(digits[0]) is Some);
    assert(hex_char_value(digits[5]) is Some);
    assert(s[0] == '#');
    assert(s.last() == digits[5]);
    assert(trim(s) == s);
    assert(s.drop_first() == digits);
    assert(strip_hashes(s) == strip_hashes(digits));
    assert(strip_hashes(digits) == digits);
    assert forall|i: int| 0 <= i < digits.len() implies '\0' <= #[trigger] digits[i] <= '\u{7f}' by {
        assert(hex_char_value(digits[i]) is Some);
    }
    vstd::utf8::is_ascii_chars_encode_utf8(digits);
    let b = vstd::utf8::encode_utf8(digits);
    assert forall|i: int| 0 <= i < 6 implies hex_digit(#[trigger] b[i]) == hex_char_value(digits[i]) by {
        assert(hex_char_value(digits[i]) is Some);
        assert(digits[i] as u8 == b[i]);
    }
    assert(hex_digit(b[0]) == hex_char_value(digits[0]));
    assert(hex_digit(b[1]) == hex_char_value(digits[1]));
    assert(hex_digit(b[2]) == hex_char_value(digits[2]));
    assert(hex_digit(b[3]) == hex_char_value(digits[3]));
    assert(hex_digit(b[4]) == hex_char_value(digits[4]));
    assert(hex_digit(b[5]) == hex_char_value(digits[5]));
    assert(b[0] != 43);
    assert(b[2] != 43);
    assert(b[4] != 43);
}

/// The side of the window icon, in pixels.
pub const ICON_SIDE: usize = 64;

/// The colour of icon pixel `(x, y)`: the void background, a raised panel
/// inside an inset frame, a voice-coloured frame, and a voice-coloured dot at
/// the centre.
pub open spec fn icon_pixel(x: int, y: int, voice: Rgb) -> (u8, u8, u8) {
    let inset = 8int;
    let last = ICON_SIDE - 1 - inset;
    let inside = x > inset && x < last && y > inset && y < last;
    let border = (x == inset || x == last || y == inset || y == last) && x >= inset && x <= last
        && y >= inset && y <= last;
    let dx = x - 32;
    let dy = y - 32;
    let dot = dx * dx + dy * dy < 18;
    if dot || border {
        (voice.r, voice.g, voice.b)
    } else if inside {
        (12, 16, 19)
    } else {
        (7, 10, 12)
    }
}

/// Byte `k` (R, G, B, then opaque alpha) of icon pixel number `p`, row by row.
pub open spec fn icon_byte(p: int, k: int, voice: Rgb) -> u8 {
    let c = icon_pixel(p % ICON_SIDE as int, p / ICON_SIDE as int, voice);
    if k == 0 {
        c.0
    } else if k == 1 {
        c.1
    } else if k == 2 {
        c.2
    } else {
        255
    }
}

/// The CRT-styled, voice-coloured window icon as RGBA bytes, row by row.
pub fn icon_rgba(voice: Rgb) -> (rgba: Vec<u8>)
    ensures
        rgba.len() == ICON_SIDE * ICON_SIDE * 4,
        forall|p: int, k: int|
            0 <= p < ICON_SIDE * ICON_SIDE && 0 <= k < 4 ==> #[trigger] rgba@[4 * p + k]
                == icon_byte(p, k, voice),
{
    let mut rgba: Vec<u8> = Vec::new();
    let mut y: usize = 0;
    while y < ICON_SIDE
        invariant
            y <= ICON_SIDE,
            rgba.len() == y * ICON_SIDE * 4,
            forall|p: int, k: int|
                0 <= p < y * ICON_SIDE && 0 <= k < 4 ==> #[trigger] rgba@[4 * p + k] == icon_byte(
                    p,
                    k,
                    voice,
                ),
        decreases ICON_SIDE - y,
    {
        let mut x: usize = 0;
        while x < ICON_SIDE
            invariant
                y < ICON_SIDE,
                x <= ICON_SIDE,
                rgba.len() == (y * ICON_SIDE + x) * 4,
                forall|p: int, k: int|
                    0 <= p < y * ICON_SIDE + x && 0 <= k < 4 ==> #[trigger] rgba@[4 * p + k]
                        == icon_byte(p, k, voice),
            decreases ICON_SIDE - x,
        {
            let inset: usize = 8;
            let last: usize = ICON_SIDE - 1 - inset;
            let inside = x > inset && x < last && y > inset && y < last;
            let border = (x == inset || x == last || y == inset || y == last) && x >= inset && x
                <= last && y >= inset && y <= last;
            let dx = x as i32 - 32;
            let dy = y as i32 - 32;
            assert(0 <= dx * dx <= 1024) by (nonlinear_arith)
                requires
                    -32 <= dx <= 31,
            ;
            assert(0 <= dy * dy <= 1024) by (nonlinear_arith)
                requires
                    -32 <= dy <= 31,
            ;
            let dot = dx * dx + dy * dy < 18;
            let (r, g, b) = if dot || border {
                (voice.r, voice.g, voice.b)
            } else if inside {
                (12u8, 16u8, 19u8)
            } else {
                (7u8, 10u8, 12u8)
            };
            let ghost p = (y * ICON_SIDE + x) as int;
            proof {
                assert(p % 64 == x as int && p / 64 == y as int) by (nonlinear_arith)
                    requires
                        p == y * 64 + x,
                        x < 64,
                        y < 64,
                ;
                assert((r, g, b) == icon_pixel(x as int, y as int, voice));
            }
            let ghost before = rgba@;
            rgba.push(r);
            rgba.push(g);
            rgba.push(b);
            rgba.push(255);
            proof {
                assert(rgba@ == before + seq![r, g, b, 255u8]);
                assert forall|q: int, k: int|
                    0 <= q < p + 1 && 0 <= k < 4 implies #[trigger] rgba@[4 * q + k] == icon_byte(
                    q,
                    k,
                    voice,
                ) by {
                    if q < p {
                        assert(rgba@[4 * q + k] == before[4 * q + k]);
                    } else {
                        assert(q == p);
                    }
                }
            }
            x += 1;
        }
        y += 1;
    }
    rgba
}

} // verus!
