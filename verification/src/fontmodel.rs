use vstd::prelude::*;

use crate::canvas::Canvas;
use crate::color::Rgba;
use crate::config::FontSpec;

verus! {

/// The built-in glyph model. Real font rasterization is outside this
/// library's scope: every glyph resolves to a fixed-width cell, drawn as a
/// filled box, so the whole layout is an exact function of the text.
/// Of a fallback chain, the first entry's size rules, since the built-in
/// family resolves every glyph; an empty chain falls back to size 26.
pub open spec fn spec_font_size(fonts: Seq<FontSpec>) -> int {
    if fonts.len() == 0 {
        26
    } else {
        fonts[0].size as int
    }
}

/// Horizontal advance of one glyph cell.
pub open spec fn spec_advance(size: int) -> int {
    (3 * size + 4) / 5
}

/// Height of one text row, before the configured line pad.
pub open spec fn spec_font_height(size: int) -> int {
    (6 * size + 4) / 5
}

/// Width of a run of text: one cell per character.
pub open spec fn spec_text_width(len: int, size: int) -> int {
    len * spec_advance(size)
}

pub fn font_size(fonts: &Vec<FontSpec>) -> (r: u32)
    ensures
        r == spec_font_size(fonts@),
{
    if fonts.len() == 0 {
        26
    } else {
        fonts[0].size
    }
}

pub fn advance(size: u32) -> (r: u32)
    requires
        size <= 1000000,
    ensures
        r == spec_advance(size as int),
        r <= size,
{
    (3 * size + 4) / 5
}

pub fn font_height(size: u32) -> (r: u32)
    requires
        size <= 1000000,
    ensures
        r == spec_font_height(size as int),
        r <= 2 * size,
{
    (6 * size + 4) / 5
}

/// Measure a run of text in the glyph-cell model.
pub fn text_width(len: usize, size: u32) -> (r: u64)
    requires
        size <= 1000000,
        len <= 0xFFFF_FFFF,
    ensures
        r == spec_text_width(len as int, size as int),
        r <= 0xFFFF_FFFF * 1000000,
{
    let a = advance(size);
    proof {
        assert((len as int) * (a as int) <= 0xFFFF_FFFF * 1000000) by (nonlinear_arith)
            requires
                a <= 1000000,
                len <= 0xFFFF_FFFF,
        ;
    }
    (len as u64) * (a as u64)
}

/// Whitespace draws nothing in the glyph-cell model.
pub open spec fn is_glyph_gap(c: char) -> bool {
    c == ' ' || c == '\t' || c == '\n' || c == '\r'
}

/// The inset box standing for the glyph of cell `i` of a run at (x, y).
pub open spec fn spec_glyph_box(x: int, y: int, size: int, i: int, px: int, py: int) -> bool {
    let adv = spec_advance(size);
    let fh = spec_font_height(size);
    adv >= 3 && fh >= 4 && Canvas::in_rect(px, py, x + i * adv + 1, y + 1, adv - 2, fh - 3)
}

/// Whether a pixel lies in some drawn glyph box of the run.
pub open spec fn spec_text_covers(
    x: int,
    y: int,
    size: int,
    text: Seq<char>,
    px: int,
    py: int,
) -> bool {
    exists|i: int|
        0 <= i < text.len() && !is_glyph_gap(#[trigger] text[i]) && spec_glyph_box(
            x,
            y,
            size,
            i,
            px,
            py,
        )
}

/// Draw one run of text as glyph boxes: each cell gets an inset filled box in
/// the run's color; whitespace cells stay empty. Exactly the pixels of the
/// drawn boxes change, to the run's color; painting is clipped to the canvas.
#[verifier::loop_isolation(false)]
pub fn draw_text(canvas: &mut Canvas, x: u64, y: u64, size: u32, color: Rgba, text: &Vec<char>)
    requires
        old(canvas).wf(),
        size <= 1000000,
        x <= 0xFFFF_FFFF,
        y <= 0xFFFF_FFFF,
    ensures
        final(canvas).wf(),
        final(canvas).same_dims(*old(canvas)),
        forall|px: int, py: int|
            old(canvas).in_bounds(px, py) ==> #[trigger] final(canvas).pixel(px, py) == (
            if spec_text_covers(x as int, y as int, size as int, text@, px, py) {
                color
            } else {
                old(canvas).pixel(px, py)
            }),
{
    let adv = advance(size);
    let fh = font_height(size);
    let mut gx: u64 = x;
    let mut i: usize = 0;
    while i < text.len()
        invariant
            canvas.wf(),
            canvas.same_dims(*old(canvas)),
            i <= text@.len(),
            gx <= x + (i as int) * adv,
            gx <= 0xFFFF_FFFF + 1000000,
            gx <= 0xFFFF_FFFF ==> gx == x + (i as int) * adv,
            forall|px: int, py: int|
                old(canvas).in_bounds(px, py) ==> #[trigger] canvas.pixel(px, py) == (
                if covers_prefix(x as int, y as int, size as int, text@, i as int, px, py) {
                    color
                } else {
                    old(canvas).pixel(px, py)
                }),
        decreases text.len() - i,
    {
        let c = text[i];
        proof {
            assert((i + 1) * (adv as int) == i * (adv as int) + adv) by (nonlinear_arith);
        }
        if gx <= 0xFFFF_FFFF {
            if c != ' ' && c != '\t' && c != '\n' && c != '\r' && adv >= 3 && fh >= 4 && gx + 1
                <= 0xFFFF_FFFF && y + 1 <= 0xFFFF_FFFF {
                // an inset box stands for the glyph
                canvas.fill_rect((gx + 1) as u32, (y + 1) as u32, adv - 2, fh - 3, color);
            } else {
                proof {
                    assert forall|px: int, py: int|
                        old(canvas).in_bounds(px, py) && spec_glyph_box(
                            x as int,
                            y as int,
                            size as int,
                            i as int,
                            px,
                            py,
                        ) implies is_glyph_gap(text@[i as int]) by {
                        if !is_glyph_gap(text@[i as int]) {
                            assert(px >= x + i * adv + 1 > 0xFFFF_FFFF >= canvas.width || py >= y
                                + 1 > 0xFFFF_FFFF >= canvas.height || false);
                        }
                    }
                }
            }
            gx += adv as u64;
        } else {
            proof {
                assert forall|px: int, py: int|
                    old(canvas).in_bounds(px, py) implies !spec_glyph_box(
                    x as int,
                    y as int,
                    size as int,
                    i as int,
                    px,
                    py,
                ) by {
                    assert(x + i * adv >= gx > 0xFFFF_FFFF >= canvas.width);
                }
            }
        }
        i += 1;
        proof {
            lemma_covers_step(x as int, y as int, size as int, text@, i as int);
        }
    }
    proof {
        assert forall|px: int, py: int| true implies covers_prefix(
            x as int,
            y as int,
            size as int,
            text@,
            text@.len() as int,
            px,
            py,
        ) == spec_text_covers(x as int, y as int, size as int, text@, px, py) by {}
    }
}

/// Coverage by the first `n` cells of the run.
pub open spec fn covers_prefix(
    x: int,
    y: int,
    size: int,
    text: Seq<char>,
    n: int,
    px: int,
    py: int,
) -> bool {
    exists|i: int|
        0 <= i < n && i < text.len() && !is_glyph_gap(#[trigger] text[i]) && spec_glyph_box(
            x,
            y,
            size,
            i,
            px,
            py,
        )
}

/// One more cell extends the covered region by exactly that cell's box.
proof fn lemma_covers_step(x: int, y: int, size: int, text: Seq<char>, n: int)
    requires
        1 <= n <= text.len(),
    ensures
        forall|px: int, py: int|
            #[trigger] covers_prefix(x, y, size, text, n, px, py) == (covers_prefix(
                x,
                y,
                size,
                text,
                n - 1,
                px,
                py,
            ) || (!is_glyph_gap(text[n - 1]) && spec_glyph_box(x, y, size, n - 1, px, py))),
{
}

/// The decimal digits of `n`, most significant first.
pub open spec fn spec_decimal(n: int) -> Seq<char>
    decreases n,
{
    if n < 0 {
        Seq::empty()
    } else if n < 10 {
        seq![digit_char(n)]
    } else {
        spec_decimal(n / 10).push(digit_char(n % 10))
    }
}

/// The character of one decimal digit.
pub open spec fn digit_char(d: int) -> char {
    if d == 0 {
        '0'
    } else if d == 1 {
        '1'
    } else if d == 2 {
        '2'
    } else if d == 3 {
        '3'
    } else if d == 4 {
        '4'
    } else if d == 5 {
        '5'
    } else if d == 6 {
        '6'
    } else if d == 7 {
        '7'
    } else if d == 8 {
        '8'
    } else {
        '9'
    }
}

fn digit_char_of(d: u64) -> (r: char)
    requires
        d <= 9,
    ensures
        r == digit_char(d as int),
{
    if d == 0 {
        '0'
    } else if d == 1 {
        '1'
    } else if d == 2 {
        '2'
    } else if d == 3 {
        '3'
    } else if d == 4 {
        '4'
    } else if d == 5 {
        '5'
    } else if d == 6 {
        '6'
    } else if d == 7 {
        '7'
    } else if d == 8 {
        '8'
    } else {
        '9'
    }
}

/// Write `n` in decimal.
pub fn decimal_chars(n: u64) -> (r: Vec<char>)
    ensures
        r@ == spec_decimal(n as int),
    decreases n,
{
    if n < 10 {
        let mut v: Vec<char> = Vec::new();
        v.push(digit_char_of(n));
        proof {
            assert(v@ =~= spec_decimal(n as int));
        }
        v
    } else {
        let mut v = decimal_chars(n / 10);
        v.push(digit_char_of(n % 10));
        proof {
            assert(v@ =~= spec_decimal(n as int));
        }
        v
    }
}

/// Right-align `digits` to `width` cells with leading spaces; a run that is
/// already wider is kept whole.
pub fn pad_left(digits: Vec<char>, width: u32) -> (r: Vec<char>)
    ensures
        r@.len() == if digits@.len() >= width {
            digits@.len() as int
        } else {
            width as int
        },
        r@.subrange(r@.len() - digits@.len(), r@.len() as int) == digits@,
        forall|i: int| 0 <= i < r@.len() - digits@.len() ==> r@[i] == ' ',
{
    let mut out: Vec<char> = Vec::new();
    let need: usize = if digits.len() >= width as usize {
        0
    } else {
        width as usize - digits.len()
    };
    let mut i: usize = 0;
    while i < need
        invariant
            out@.len() == i,
            i <= need,
            forall|j: int| 0 <= j < i ==> out@[j] == ' ',
        decreases need - i,
    {
        out.push(' ');
        i += 1;
    }
    let mut j: usize = 0;
    while j < digits.len()
        invariant
            out@.len() == need + j,
            j <= digits@.len(),
            forall|k: int| 0 <= k < need ==> out@[k] == ' ',
            forall|k: int| 0 <= k < j ==> out@[need + k] == digits@[k],
        decreases digits.len() - j,
    {
        out.push(digits[j]);
        j += 1;
    }
    proof {
        assert(out@.subrange(out@.len() - digits@.len(), out@.len() as int) =~= digits@);
    }
    out
}

} // verus!
