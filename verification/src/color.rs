use vstd::prelude::*;

use crate::error::RenderError;

verus! {

/// A fully resolved color: one byte per channel, alpha included.
#[derive(Clone, Copy, PartialEq, Eq, Structural, Debug)]
pub struct Rgba {
    pub r: u8,
    pub g: u8,
    pub b: u8,
    pub a: u8,
}

/// Fully opaque alpha, the default when a hex string carries no alpha digits.
pub const OPAQUE: u8 = 255;

pub open spec fn is_hex_digit(c: char) -> bool {
    (48 <= c as u32 && c as u32 <= 57)  // '0'..'9'
    || (97 <= c as u32 && c as u32 <= 102)  // 'a'..'f'
    || (65 <= c as u32 && c as u32 <= 70)  // 'A'..'F'
}

/// The value of one hex digit, case-insensitive.
pub open spec fn hex_val(c: char) -> u8
    recommends
        is_hex_digit(c),
{
    if 48 <= c as u32 && c as u32 <= 57 {
        (c as u32 - 48) as u8
    } else if 97 <= c as u32 && c as u32 <= 102 {
        (c as u32 - 87) as u8
    } else {
        (c as u32 - 55) as u8
    }
}

/// The byte written as two hex digits.
pub open spec fn byte_of_pair(hi: char, lo: char) -> u8
    recommends
        is_hex_digit(hi),
        is_hex_digit(lo),
{
    (16 * hex_val(hi) + hex_val(lo)) as u8
}

/// The byte a single `#RGB` digit stands for: the digit doubled, `a` -> `aa`.
pub open spec fn byte_of_single(c: char) -> u8
    recommends
        is_hex_digit(c),
{
    (17 * hex_val(c)) as u8
}

pub open spec fn all_hex(s: Seq<char>) -> bool {
    forall|i: int| 0 <= i < s.len() ==> is_hex_digit(#[trigger] s[i])
}

/// What a hex color string denotes: `#RGB`, `#RRGGBB` or `#RRGGBBAA`,
/// case-insensitive, alpha opaque unless the string gives it.
pub open spec fn spec_color(s: Seq<char>) -> Option<Rgba> {
    if s.len() == 4 && s[0] == '#' && all_hex(s.subrange(1, 4)) {
        Some(
            Rgba {
                r: byte_of_single(s[1]),
                g: byte_of_single(s[2]),
                b: byte_of_single(s[3]),
                a: OPAQUE,
            },
        )
    } else if s.len() == 7 && s[0] == '#' && all_hex(s.subrange(1, 7)) {
        Some(
            Rgba {
                r: byte_of_pair(s[1], s[2]),
                g: byte_of_pair(s[3], s[4]),
                b: byte_of_pair(s[5], s[6]),
                a: OPAQUE,
            },
        )
    } else if s.len() == 9 && s[0] == '#' && all_hex(s.subrange(1, 9)) {
        Some(
            Rgba {
                r: byte_of_pair(s[1], s[2]),
                g: byte_of_pair(s[3], s[4]),
                b: byte_of_pair(s[5], s[6]),
                a: byte_of_pair(s[7], s[8]),
            },
        )
    } else {
        None
    }
}

fn hex_digit_value(c: char) -> (r: Option<u8>)
    ensures
        r is Some <==> is_hex_digit(c),
        r matches Some(v) ==> v == hex_val(c) && v <= 15,
{
    let u = c as u32;
    if 48 <= u && u <= 57 {
        Some((u - 48) as u8)
    } else if 97 <= u && u <= 102 {
        Some((u - 87) as u8)
    } else if 65 <= u && u <= 70 {
        Some((u - 55) as u8)
    } else {
        None
    }
}

/// Read `count` hex digits of `s` starting at index `from`; `None` as soon as
/// one of them is no hex digit.
fn read_hex_digits(s: &str, from: usize, count: usize) -> (r: Option<Vec<u8>>)
    requires
        from + count <= s@.len(),
        from + count <= usize::MAX,
    ensures
        r is Some <==> all_hex(s@.subrange(from as int, from + count)),
        r matches Some(v) ==> v@.len() == count && forall|i: int|
            0 <= i < count ==> v@[i] == hex_val(s@[from + i]) && v@[i] <= 15,
{
    let mut out: Vec<u8> = Vec::new();
    let mut i: usize = 0;
    while i < count
        invariant
            i <= count,
            from + count <= s@.len(),
            from + count <= usize::MAX,
            out@.len() == i,
            forall|j: int| 0 <= j < i ==> is_hex_digit(#[trigger] s@[from + j]),
            forall|j: int| 0 <= j < i ==> out@[j] == hex_val(s@[from + j]) && out@[j] <= 15,
        decreases count - i,
    {
        let c = s.get_char(from + i);
        match hex_digit_value(c) {
            Some(v) => {
                out.push(v);
            },
            None => {
                assert(!is_hex_digit(s@.subrange(from as int, from + count)[i as int]));
                return None;
            },
        }
        i += 1;
    }
    assert forall|j: int| 0 <= j < count implies is_hex_digit(
        #[trigger] s@.subrange(from as int, from + count)[j],
    ) by {
        assert(s@.subrange(from as int, from + count)[j] == s@[from + j]);
    }
    Some(out)
}

/// Resolve a hex color string to its RGBA bytes.
///
/// Accepts `#RGB`, `#RRGGBB` and `#RRGGBBAA`, case-insensitive; everything
/// else is rejected as `InvalidColor`, naming the offending string.
pub fn resolve_color(hex: &str) -> (r: Result<Rgba, RenderError>)
    ensures
        r is Ok <==> spec_color(hex@) is Some,
        r matches Ok(c) ==> spec_color(hex@) == Some(c),
        r matches Err(e) ==> (e matches RenderError::InvalidColor(s) && s@ == hex@),
{
    let n = hex.unicode_len();
    if (n == 4 || n == 7 || n == 9) && hex.get_char(0) == '#' {
        match read_hex_digits(hex, 1, n - 1) {
            Some(d) => {
                if n == 4 {
                    let r = 17 * d[0];
                    let g = 17 * d[1];
                    let b = 17 * d[2];
                    Ok(Rgba { r, g, b, a: OPAQUE })
                } else if n == 7 {
                    let r = 16 * d[0] + d[1];
                    let g = 16 * d[2] + d[3];
                    let b = 16 * d[4] + d[5];
                    Ok(Rgba { r, g, b, a: OPAQUE })
                } else {
                    let r = 16 * d[0] + d[1];
                    let g = 16 * d[2] + d[3];
                    let b = 16 * d[4] + d[5];
                    let a = 16 * d[6] + d[7];
                    Ok(Rgba { r, g, b, a })
                }
            },
            None => Err(RenderError::InvalidColor(hex.to_owned())),
        }
    } else {
        Err(RenderError::InvalidColor(hex.to_owned()))
    }
}

} // verus!
