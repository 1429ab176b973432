use vstd::prelude::*;

use crate::canvas::Canvas;
use crate::color::Rgba;
use crate::config::{RenderConfig, StyledSpan};
use crate::error::RenderError;
use crate::fontmodel::{
    advance, decimal_chars, draw_text, font_height, font_size, pad_left, spec_advance,
    spec_font_height, spec_font_size,
};
use crate::layout::{
    gutter_chars, lemma_seq_max_ge_floor, spec_code_max, spec_gutter_chars, spec_image_width,
    spec_line_reach,
};
use crate::lines::{expand_span, spec_expand, spec_trim_nl};

verus! {

/// Expanded glyph-cell count of the spans of one line from span `i` on,
/// starting at column `col`.
pub open spec fn spec_cells_from(spans: Seq<StyledSpan>, i: int, col: int, tw: int) -> int
    decreases spans.len() - i,
{
    if i < 0 || i >= spans.len() {
        0
    } else {
        let e = spec_expand(spec_trim_nl(spans[i].text@), col, tw).len() as int;
        e + spec_cells_from(spans, i + 1, col + e, tw)
    }
}

/// Expanded glyph-cell count of one line.
pub open spec fn spec_line_cells(spans: Seq<StyledSpan>, tw: int) -> int {
    spec_cells_from(spans, 0, 0, tw)
}

/// What one line contributes to the content width: nothing when nothing of
/// it is drawn, else its cells at the glyph advance.
pub open spec fn spec_content(spans: Seq<StyledSpan>, tw: int, adv: int) -> Option<int> {
    if spec_line_cells(spans, tw) > 0 {
        Some(spec_line_cells(spans, tw) * adv)
    } else {
        None
    }
}

pub open spec fn spec_contents(lines: Seq<Seq<StyledSpan>>, tw: int, adv: int) -> Seq<
    Option<int>,
> {
    lines.map_values(|l: Seq<StyledSpan>| spec_content(l, tw, adv))
}

/// Cell counts are never negative.
pub proof fn lemma_cells_nonneg(spans: Seq<StyledSpan>, i: int, col: int, tw: int)
    ensures
        spec_cells_from(spans, i, col, tw) >= 0,
    decreases spans.len() - i,
{
    if 0 <= i < spans.len() {
        let e = spec_expand(spec_trim_nl(spans[i].text@), col, tw).len() as int;
        lemma_cells_nonneg(spans, i + 1, col + e, tw);
    }
}

/// The per-line span sequences of the measured document.
pub open spec fn views_of(lines: Seq<Vec<StyledSpan>>) -> Seq<Seq<StyledSpan>> {
    lines.map_values(|v: Vec<StyledSpan>| v@)
}

pub open spec fn spec_size_of(cfg: RenderConfig) -> int {
    spec_font_size(cfg.fonts@)
}

pub open spec fn spec_adv_of(cfg: RenderConfig) -> int {
    spec_advance(spec_size_of(cfg))
}

pub open spec fn spec_lh_of(cfg: RenderConfig) -> int {
    spec_font_height(spec_size_of(cfg)) + cfg.line_pad
}

pub open spec fn spec_title_bar(cfg: RenderConfig) -> bool {
    cfg.show_window_controls || cfg.window_title is Some
}

pub open spec fn spec_cpt_of(cfg: RenderConfig) -> int {
    if spec_title_bar(cfg) {
        50
    } else {
        0
    }
}

pub open spec fn spec_gchars_of(cfg: RenderConfig, n_lines: int) -> int {
    spec_gutter_chars(n_lines, cfg.line_offset as int, cfg.show_line_numbers)
}

/// Where the code text starts.
pub open spec fn spec_lp_of(cfg: RenderConfig, n_lines: int) -> int {
    25 + if cfg.show_line_numbers {
        12 + spec_gchars_of(cfg, n_lines) * spec_adv_of(cfg)
    } else {
        0
    }
}

/// The widest drawn point: code lines against the title bar.
pub open spec fn spec_max_w(lines: Seq<Seq<StyledSpan>>, cfg: RenderConfig) -> int {
    let code = spec_code_max(
        spec_lp_of(cfg, lines.len() as int),
        spec_contents(lines, cfg.tab_width as int, spec_adv_of(cfg)),
    );
    match cfg.window_title {
        Some(t) => {
            let ctrls: int = if cfg.show_window_controls {
                135
            } else {
                0
            };
            let tb = ctrls + t@.len() * spec_adv_of(cfg) + 30;
            if code >= tb {
                code
            } else {
                tb
            }
        },
        None => code,
    }
}

/// Width and height of the code image.
pub open spec fn spec_iw(lines: Seq<Seq<StyledSpan>>, cfg: RenderConfig) -> int {
    spec_image_width(spec_max_w(lines, cfg))
}

pub open spec fn spec_rows(lines: Seq<Seq<StyledSpan>>) -> int {
    if lines.len() == 0 {
        1
    } else {
        lines.len() as int
    }
}

pub open spec fn spec_ih(lines: Seq<Seq<StyledSpan>>, cfg: RenderConfig) -> int {
    spec_rows(lines) * spec_lh_of(cfg) + 50 + spec_cpt_of(cfg)
}

/// Width and height of the full canvas, the page padding around the code.
pub open spec fn spec_ow(lines: Seq<Seq<StyledSpan>>, cfg: RenderConfig) -> int {
    spec_iw(lines, cfg) + 2 * cfg.pad_horiz
}

pub open spec fn spec_oh(lines: Seq<Seq<StyledSpan>>, cfg: RenderConfig) -> int {
    spec_ih(lines, cfg) + 2 * cfg.pad_vert
}

/// The machine limits a render call must stay inside: texts and cell counts
/// that fit the measuring arithmetic, and a canvas whose bytes fit memory.
pub open spec fn spec_fits(lines: Seq<Seq<StyledSpan>>, cfg: RenderConfig) -> bool {
    &&& spec_size_of(cfg) <= 1000000
    &&& spec_lh_of(cfg) <= 0xFFFF_FFFF
    &&& forall|i: int, j: int|
        0 <= i < lines.len() && 0 <= j < lines[i].len() ==> (#[trigger] lines[i][j].text)@.len()
            <= 0xFFFF_FFFF
    &&& forall|i: int|
        0 <= i < lines.len() ==> spec_line_cells(#[trigger] lines[i], cfg.tab_width as int)
            <= 0xFFFF_FFFF
    &&& lines.len() <= 0xFFFF_FFFF
    &&& (cfg.window_title matches Some(t) ==> t@.len() <= 0xFFFF_FFFF)
    &&& spec_ow(lines, cfg) <= 1000000
    &&& spec_oh(lines, cfg) <= 1000000
    &&& 4 * spec_ow(lines, cfg) * spec_oh(lines, cfg) <= usize::MAX
}

/// The geometry of one render: everything the painting stages address by.
pub struct Geometry {
    pub size: u32,
    pub adv: u32,
    pub fh: u32,
    pub lh: u32,
    pub cpt: u32,
    pub gchars: u32,
    pub lp: u64,
    pub iw: u32,
    pub ih: u32,
    pub ow: u32,
    pub oh: u32,
}

impl Geometry {
    pub open spec fn matches(self, lines: Seq<Seq<StyledSpan>>, cfg: RenderConfig) -> bool {
        &&& self.size == spec_size_of(cfg)
        &&& self.adv == spec_adv_of(cfg)
        &&& self.fh == spec_font_height(spec_size_of(cfg))
        &&& self.lh == spec_lh_of(cfg)
        &&& self.cpt == spec_cpt_of(cfg)
        &&& self.gchars == spec_gchars_of(cfg, lines.len() as int)
        &&& self.lp == spec_lp_of(cfg, lines.len() as int)
        &&& self.iw == spec_iw(lines, cfg)
        &&& self.ih == spec_ih(lines, cfg)
        &&& self.ow == spec_ow(lines, cfg)
        &&& self.oh == spec_oh(lines, cfg)
    }
}

/// Measure every line and fix the canvas geometry, or refuse a render whose
/// arithmetic would not fit the machine.
#[verifier::loop_isolation(false)]
pub fn compute_geometry(lines: &Vec<Vec<StyledSpan>>, cfg: &RenderConfig) -> (r: Result<
    Geometry,
    RenderError,
>)
    ensures
        r matches Ok(g) ==> g.matches(views_of(lines@), *cfg) && spec_fits(
            views_of(lines@),
            *cfg,
        ),
        spec_fits(views_of(lines@), *cfg) ==> r is Ok,
        r matches Err(e) ==> e is EncodingError,
{
    let ghost glines = views_of(lines@);
    let size = font_size(&cfg.fonts);
    if size > 1000000 {
        return Err(RenderError::EncodingError("font size too large".to_owned()));
    }
    let adv = advance(size);
    let fh = font_height(size);
    let lh_wide: u64 = fh as u64 + cfg.line_pad as u64;
    if lh_wide > 0xFFFF_FFFF {
        return Err(RenderError::EncodingError("line height too large".to_owned()));
    }
    let lh: u32 = fh + cfg.line_pad;
    let title_bar = cfg.show_window_controls || cfg.window_title.is_some();
    let cpt: u32 = if title_bar {
        50
    } else {
        0
    };
    if lines.len() > 0xFFFF_FFFF {
        return Err(RenderError::EncodingError("too many lines".to_owned()));
    }
    let gchars = gutter_chars(lines.len(), cfg.line_offset, cfg.show_line_numbers);
    proof {
        assert((gchars as int) * (adv as int) <= 0xFFFF_FFFF * 1000000) by (nonlinear_arith)
            requires
                gchars <= 0xFFFF_FFFF,
                adv <= 1000000,
        ;
    }
    let lp: u64 = if cfg.show_line_numbers {
        25 + 12 + (gchars as u64) * (adv as u64)
    } else {
        25
    };
    let tw = cfg.tab_width;
    let mut code_max: u64 = 0;
    let mut li: usize = 0;
    proof {
        assert(glines.subrange(0, 0) =~= Seq::<Seq<StyledSpan>>::empty());
        assert(spec_contents(glines.subrange(0, 0), tw as int, adv as int)
            =~= Seq::<Option<int>>::empty());
    }
    while li < lines.len()
        invariant
            glines == views_of(lines@),
            li <= lines@.len(),
            size <= 1000000,
            adv <= 1000000,
            adv == spec_adv_of(*cfg),
            lp == spec_lp_of(*cfg, glines.len() as int),
            lp <= 37 + 0xFFFF_FFFF * 1000000,
            tw == cfg.tab_width,
            code_max == spec_code_max(
                lp as int,
                spec_contents(glines.subrange(0, li as int), tw as int, adv as int),
            ),
            code_max <= lp + 0xFFFF_FFFF * 1000000,
            forall|i: int, j: int|
                0 <= i < li && 0 <= j < glines[i].len() ==> (#[trigger] glines[i][j].text)@.len()
                    <= 0xFFFF_FFFF,
            forall|i: int|
                0 <= i < li ==> spec_line_cells(#[trigger] glines[i], tw as int) <= 0xFFFF_FFFF,
        decreases lines@.len() - li,
    {
        let line = &lines[li];
        proof {
            assert(glines[li as int] == line@);
        }
        let mut cur: u64 = 0;
        let mut sj: usize = 0;
        while sj < line.len()
            invariant
                glines == views_of(lines@),
                li < lines@.len(),
                glines[li as int] == line@,
                sj <= line@.len(),
                tw == cfg.tab_width,
                cur == spec_cells_from(line@, 0, 0, tw as int) - spec_cells_from(
                    line@,
                    sj as int,
                    cur as int,
                    tw as int,
                ),
                cur <= 0xFFFF_FFFF,
                forall|j: int|
                    0 <= j < sj ==> (#[trigger] line@[j].text)@.len() <= 0xFFFF_FFFF,
            decreases line@.len() - sj,
        {
            let text_len = line[sj].text.as_str().unicode_len();
            if text_len > 0xFFFF_FFFF {
                proof {
                    assert(glines[li as int][sj as int].text@.len() > 0xFFFF_FFFF);
                }
                return Err(RenderError::EncodingError("span too long".to_owned()));
            }
            let (expanded, after) = expand_span(line[sj].text.as_str(), cur, tw);
            proof {
                lemma_cells_nonneg(line@, sj + 1, after as int, tw as int);
                assert(spec_line_cells(#[trigger] glines[li as int], tw as int) >= after);
            }
            if after > 0xFFFF_FFFF {
                return Err(RenderError::EncodingError("line too wide".to_owned()));
            }
            cur = after;
            sj += 1;
        }
        proof {
            assert(spec_cells_from(line@, line@.len() as int, cur as int, tw as int) == 0);
        }
        if cur > 0 {
            proof {
                assert(cur * adv <= 0xFFFF_FFFF * 1000000) by (nonlinear_arith)
                    requires
                        cur <= 0xFFFF_FFFF,
                        adv <= 1000000,
                ;
            }
            let reach: u64 = lp + cur * (adv as u64);
            if reach > code_max {
                code_max = reach;
            }
        }
        proof {
            let pre = glines.subrange(0, li as int);
            let now = glines.subrange(0, li + 1);
            assert(now.drop_last() =~= pre);
            assert(now.last() == glines[li as int]);
            let fc = |l: Seq<StyledSpan>| spec_content(l, tw as int, adv as int);
            let fr = |c: Option<int>| spec_line_reach(lp as int, c);
            assert(now.map_values(fc).drop_last() =~= pre.map_values(fc));
            assert(now.map_values(fc).last() == fc(glines[li as int]));
            assert(now.map_values(fc).map_values(fr).drop_last() =~= pre.map_values(
                fc,
            ).map_values(fr));
            assert(now.map_values(fc).map_values(fr).last() == fr(fc(glines[li as int])));
            lemma_seq_max_ge_floor(pre.map_values(fc).map_values(fr), 0);
        }
        li += 1;
    }
    proof {
        assert(glines.subrange(0, glines.len() as int) =~= glines);
    }
    let mut max_w: u64 = code_max;
    match &cfg.window_title {
        Some(t) => {
            let tl = t.as_str().unicode_len();
            if tl > 0xFFFF_FFFF {
                return Err(RenderError::EncodingError("title too long".to_owned()));
            }
            proof {
                assert(tl * adv <= 0xFFFF_FFFF * 1000000) by (nonlinear_arith)
                    requires
                        tl <= 0xFFFF_FFFF,
                        adv <= 1000000,
                ;
            }
            let ctrls: u64 = if cfg.show_window_controls {
                135
            } else {
                0
            };
            let tb: u64 = ctrls + (tl as u64) * (adv as u64) + 30;
            if tb > max_w {
                max_w = tb;
            }
        },
        None => {},
    }
    let iw_wide: u64 = if max_w + 25 >= 150 {
        max_w + 25
    } else {
        150
    };
    let rows: u64 = if lines.len() == 0 {
        1
    } else {
        lines.len() as u64
    };
    proof {
        assert((rows as int) * (lh as int) <= 0x1_0000_0000 * 0x1_0000_0000) by (nonlinear_arith)
            requires
                rows <= 0x1_0000_0000,
                lh <= 0xFFFF_FFFF,
        ;
    }
    let ih_wide: u128 = (rows as u128) * (lh as u128) + 50 + (cpt as u128);
    let ow_wide: u128 = (iw_wide as u128) + 2 * (cfg.pad_horiz as u128);
    let oh_wide: u128 = ih_wide + 2 * (cfg.pad_vert as u128);
    if ow_wide > 1000000 || oh_wide > 1000000 {
        return Err(RenderError::EncodingError("image too large".to_owned()));
    }
    proof {
        assert(4 * ow_wide * oh_wide <= 4 * 1000000 * 1000000) by (nonlinear_arith)
            requires
                ow_wide <= 1000000,
                oh_wide <= 1000000,
        ;
    }
    if 4 * ow_wide * oh_wide > usize::MAX as u128 {
        return Err(RenderError::EncodingError("image too large".to_owned()));
    }
    Ok(
        Geometry {
            size,
            adv,
            fh,
            lh,
            cpt,
            gchars,
            lp,
            iw: iw_wide as u32,
            ih: (ih_wide as u64) as u32,
            ow: ow_wide as u32,
            oh: oh_wide as u32,
        },
    )
}

/// One product staying under another when both factors stay under.
proof fn lemma_mul_fits(a: int, b: int, c: int, d: int)
    by (nonlinear_arith)
    requires
        0 <= a <= c,
        0 <= b <= d,
    ensures
        a * b <= c * d,
        4 * a * b <= 4 * c * d,
{
}

/// Saturating brightening of a color, the highlight-band tint.
pub open spec fn spec_lighten(c: Rgba, d: u8) -> Rgba {
    Rgba {
        r: if c.r + d > 255 {
            255
        } else {
            (c.r + d) as u8
        },
        g: if c.g + d > 255 {
            255
        } else {
            (c.g + d) as u8
        },
        b: if c.b + d > 255 {
            255
        } else {
            (c.b + d) as u8
        },
        a: if c.a + d > 255 {
            255
        } else {
            (c.a + d) as u8
        },
    }
}

fn lighten(c: Rgba, d: u8) -> (r: Rgba)
    ensures
        r == spec_lighten(c, d),
{
    let r8 = if c.r as u16 + d as u16 > 255 {
        255
    } else {
        c.r + d
    };
    let g8 = if c.g as u16 + d as u16 > 255 {
        255
    } else {
        c.g + d
    };
    let b8 = if c.b as u16 + d as u16 > 255 {
        255
    } else {
        c.b + d
    };
    let a8 = if c.a as u16 + d as u16 > 255 {
        255
    } else {
        c.a + d
    };
    Rgba { r: r8, g: g8, b: b8, a: a8 }
}

/// Saturating darkening of a color, the line-number tint.
pub open spec fn spec_darken(c: Rgba, d: u8) -> Rgba {
    Rgba {
        r: if c.r >= d {
            (c.r - d) as u8
        } else {
            0
        },
        g: if c.g >= d {
            (c.g - d) as u8
        } else {
            0
        },
        b: if c.b >= d {
            (c.b - d) as u8
        } else {
            0
        },
        a: if c.a >= d {
            (c.a - d) as u8
        } else {
            0
        },
    }
}

fn darken(c: Rgba, d: u8) -> (r: Rgba)
    ensures
        r == spec_darken(c, d),
{
    let r8 = if c.r >= d {
        c.r - d
    } else {
        0
    };
    let g8 = if c.g >= d {
        c.g - d
    } else {
        0
    };
    let b8 = if c.b >= d {
        c.b - d
    } else {
        0
    };
    let a8 = if c.a >= d {
        c.a - d
    } else {
        0
    };
    Rgba { r: r8, g: g8, b: b8, a: a8 }
}

/// Paint the whole image: background, highlight bands, gutter, code text,
/// window chrome, corner mask, then the page with shadow under the pasted
/// code block. The canvas size is exactly the computed geometry.
#[verifier::loop_isolation(false)]
pub fn render_canvas(
    lines: &Vec<Vec<StyledSpan>>,
    cfg: &RenderConfig,
    fg: Rgba,
    bg: Rgba,
    page: Rgba,
    shadow: Rgba,
) -> (r: Result<Canvas, RenderError>)
    ensures
        r matches Ok(c) ==> c.wf() && c.width == spec_ow(views_of(lines@), *cfg) && c.height
            == spec_oh(views_of(lines@), *cfg) && c.width > 0 && c.height > 0,
        r matches Ok(c) ==> c.width > 2 * cfg.pad_horiz && c.height > 2 * cfg.pad_vert
            + spec_lh_of(*cfg),
        spec_fits(views_of(lines@), *cfg) ==> r is Ok,
        r matches Err(e) ==> e is EncodingError,
{
    let ghost glines = views_of(lines@);
    let g = match compute_geometry(lines, cfg) {
        Ok(g) => g,
        Err(e) => {
            return Err(e);
        },
    };
    proof {
        assert(g.iw >= 150 && g.ih >= 50);
        assert(g.iw <= g.ow && g.ih <= g.oh);
        lemma_mul_fits(g.iw as int, g.ih as int, g.ow as int, g.oh as int);
    }
    let mut code = Canvas::new(g.iw, g.ih, bg);
    let rows: u32 = if lines.len() == 0 {
        1
    } else {
        lines.len() as u32
    };
    proof {
        assert(rows * g.lh <= spec_rows(glines) * spec_lh_of(*cfg)) by (nonlinear_arith)
            requires
                rows == spec_rows(glines),
                g.lh == spec_lh_of(*cfg),
        ;
    }
    // highlight bands under everything else
    let band = lighten(bg, 40);
    let mut hi: usize = 0;
    while hi < cfg.highlight_lines.len()
        invariant
            code.wf(),
            code.width == g.iw,
            code.height == g.ih,
            rows as int == spec_rows(glines),
            rows as int * g.lh as int + 50 + g.cpt as int == g.ih as int,
            g.lh <= 0xFFFF_FFFF,
            g.cpt <= 50,
        decreases cfg.highlight_lines@.len() - hi,
    {
        let n = cfg.highlight_lines[hi];
        if n >= 1 && n <= rows {
            proof {
                assert((n - 1) * g.lh + g.lh <= rows * g.lh) by (nonlinear_arith)
                    requires
                        1 <= n <= rows,
                ;
            }
            let y: u64 = ((n - 1) as u64) * (g.lh as u64) + 25 + (g.cpt as u64);
            code.fill_rect_blend(0, y as u32, g.iw, g.lh, band);
        }
        hi += 1;
    }
    // line-number gutter
    if cfg.show_line_numbers {
        let num_color = darken(fg, 20);
        let mut i: u32 = 0;
        while i < rows
            invariant
                code.wf(),
                code.width == g.iw,
                code.height == g.ih,
                rows as int == spec_rows(glines),
                rows as int * g.lh as int + 50 + g.cpt as int == g.ih as int,
                g.size <= 1000000,
                g.lh <= 0xFFFF_FFFF,
                g.cpt <= 50,
            decreases rows - i,
        {
            let shown: u64 = (i as u64) + (cfg.line_offset as u64);
            let digits_v = decimal_chars(shown);
            let padded = pad_left(digits_v, g.gchars);
            proof {
                assert(i * g.lh <= rows * g.lh) by (nonlinear_arith)
                    requires
                        i < rows,
                ;
            }
            let y: u64 = (i as u64) * (g.lh as u64) + 25 + (g.cpt as u64);
            draw_text(&mut code, 25, y, g.size, num_color, &padded);
            i += 1;
        }
    }
    proof {
        assert(spec_gchars_of(*cfg, glines.len() as int) * spec_adv_of(*cfg) <= 0xFFFF_FFFF
            * 1000000) by (nonlinear_arith)
            requires
                0 <= spec_gchars_of(*cfg, glines.len() as int) <= 0xFFFF_FFFF,
                0 <= spec_adv_of(*cfg) <= 1000000,
        ;
    }
    // the code text itself
    let mut li: usize = 0;
    while li < lines.len()
        invariant
            glines == views_of(lines@),
            code.wf(),
            code.width == g.iw,
            code.height == g.ih,
            li <= lines@.len(),
            lines@.len() as int <= spec_rows(glines),
            spec_rows(glines) as int * g.lh as int + 50 + g.cpt as int == g.ih as int,
            g.size <= 1000000,
            g.adv <= 1000000,
            g.lh <= 0xFFFF_FFFF,
            g.cpt <= 50,
            g.lp <= 37 + 0xFFFF_FFFF * 1000000,
            spec_fits(glines, *cfg),
        decreases lines@.len() - li,
    {
        let line = &lines[li];
        proof {
            assert(glines[li as int] == line@);
            assert((li as int) * (g.lh as int) <= spec_rows(glines) * (g.lh as int))
                by (nonlinear_arith)
                requires
                    li < lines@.len() <= spec_rows(glines),
                    g.lh >= 0,
            ;
        }
        let y: u64 = (li as u64) * (g.lh as u64) + 25 + (g.cpt as u64);
        let mut cur: u64 = 0;
        let mut sj: usize = 0;
        while sj < line.len()
            invariant
                glines == views_of(lines@),
                li < lines@.len(),
                glines[li as int] == line@,
                code.wf(),
                code.width == g.iw,
                code.height == g.ih,
                sj <= line@.len(),
                cur == spec_cells_from(line@, 0, 0, cfg.tab_width as int) - spec_cells_from(
                    line@,
                    sj as int,
                    cur as int,
                    cfg.tab_width as int,
                ),
                cur <= 0xFFFF_FFFF,
                y <= 0xFFFF_FFFF,
                g.size <= 1000000,
                g.adv <= 1000000,
                g.lp <= 37 + 0xFFFF_FFFF * 1000000,
                spec_fits(glines, *cfg),
            decreases line@.len() - sj,
        {
            proof {
                assert(line@[sj as int].text@.len() <= 0xFFFF_FFFF);
                assert(spec_line_cells(line@, cfg.tab_width as int) <= 0xFFFF_FFFF);
            }
            let (expanded, after) = expand_span(line[sj].text.as_str(), cur, cfg.tab_width);
            proof {
                lemma_cells_nonneg(line@, sj + 1, after as int, cfg.tab_width as int);
                assert(spec_line_cells(#[trigger] glines[li as int], cfg.tab_width as int)
                    >= after);
            }
            if after > 0xFFFF_FFFF {
                return Err(RenderError::EncodingError("line too wide".to_owned()));
            }
            if expanded.len() > 0 {
                proof {
                    assert(cur * g.adv <= 0xFFFF_FFFF * 1000000) by (nonlinear_arith)
                        requires
                            cur <= 0xFFFF_FFFF,
                            g.adv <= 1000000,
                    ;
                }
                let x: u64 = g.lp + cur * (g.adv as u64);
                if x <= 0xFFFF_FFFF {
                    draw_text(&mut code, x, y, g.size, line[sj].foreground, &expanded);
                }
            }
            cur = after;
            sj += 1;
        }
        li += 1;
    }
    // window chrome: title text and control dots
    match &cfg.window_title {
        Some(t) => {
            let ctrls: u64 = if cfg.show_window_controls {
                135
            } else {
                0
            };
            let ty: u64 = if g.fh / 2 <= 35 {
                (35 - g.fh / 2) as u64
            } else {
                0
            };
            let title_chars = str_chars(t.as_str());
            draw_text(&mut code, ctrls + 15, ty, g.size, fg, &title_chars);
        },
        None => {},
    }
    if cfg.show_window_controls {
        code.draw_disc(35, 35, 11, Rgba { r: 224, g: 68, b: 62, a: 255 });
        code.draw_disc(35, 35, 10, Rgba { r: 255, g: 95, b: 86, a: 255 });
        code.draw_disc(75, 35, 11, Rgba { r: 222, g: 161, b: 35, a: 255 });
        code.draw_disc(75, 35, 10, Rgba { r: 255, g: 189, b: 46, a: 255 });
        code.draw_disc(115, 35, 11, Rgba { r: 26, g: 171, b: 41, a: 255 });
        code.draw_disc(115, 35, 10, Rgba { r: 39, g: 201, b: 63, a: 255 });
    }
    // rounded-corner mask
    if cfg.round_corner {
        let corner_fg = code.get_pixel(g.iw - 1, g.ih - 1);
        code.mask_corner(0, 0, 12, 12, 12, corner_fg);
        code.mask_corner(g.iw - 12, 0, g.iw - 13, 12, 12, corner_fg);
        code.mask_corner(0, g.ih - 12, 12, g.ih - 13, 12, corner_fg);
        code.mask_corner(g.iw - 12, g.ih - 12, g.iw - 13, g.ih - 13, 12, corner_fg);
    }
    // the page: background, blurred shadow, then the code block on top
    let mut out = Canvas::new(g.ow, g.oh, page);
    if cfg.shadow_blur_radius > 0 {
        out.fill_rect(cfg.pad_horiz, cfg.pad_vert, g.iw, g.ih, shadow);
        out.box_blur(cfg.shadow_blur_radius);
    }
    out.paste_blend(&code, cfg.pad_horiz, cfg.pad_vert);
    proof {
        assert(spec_rows(glines) * spec_lh_of(*cfg) >= spec_lh_of(*cfg)) by (nonlinear_arith)
            requires
                spec_rows(glines) >= 1,
                spec_lh_of(*cfg) >= 0,
        ;
    }
    Ok(out)
}

/// The characters of a string slice.
pub fn str_chars(s: &str) -> (r: Vec<char>)
    ensures
        r@ == s@,
{
    let n = s.unicode_len();
    let mut out: Vec<char> = Vec::new();
    let mut i: usize = 0;
    while i < n
        invariant
            i <= n,
            n == s@.len(),
            out@ == s@.subrange(0, i as int),
        decreases n - i,
    {
        out.push(s.get_char(i));
        proof {
            assert(out@ =~= s@.subrange(0, i + 1));
        }
        i += 1;
    }
    proof {
        assert(s@.subrange(0, n as int) =~= s@);
    }
    out
}

} // verus!
