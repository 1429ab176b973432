use vstd::prelude::*;

use crate::canvas::Canvas;
use crate::compose::{
    lemma_cells_nonneg, spec_adv_of, spec_content, spec_contents, spec_gchars_of, spec_iw,
    spec_line_cells, spec_lp_of, spec_max_w, spec_oh, spec_ow,
};
use crate::config::{RenderConfig, StyledSpan};
use crate::hl::Assets;
use crate::layout::{lemma_code_max_shift, spec_code_max};
use crate::render::spec_spans;

verus! {

/// Two configurations that agree on everything the geometry reads.
pub open spec fn same_geometry_inputs(a: RenderConfig, b: RenderConfig) -> bool {
    &&& a.fonts@ == b.fonts@
    &&& a.show_line_numbers == b.show_line_numbers
    &&& a.show_window_controls == b.show_window_controls
    &&& a.window_title == b.window_title
    &&& a.pad_horiz == b.pad_horiz
    &&& a.pad_vert == b.pad_vert
    &&& a.tab_width == b.tab_width
    &&& a.line_offset == b.line_offset
    &&& a.line_pad == b.line_pad
}

/// The canvas size is a pure function of the highlighted lines and the
/// configuration: two renders of the same input take the same dimensions.
pub proof fn lemma_dims_deterministic(
    lines: Seq<Seq<StyledSpan>>,
    cfg: RenderConfig,
    c1: Canvas,
    c2: Canvas,
)
    requires
        c1.width == spec_ow(lines, cfg),
        c1.height == spec_oh(lines, cfg),
        c2.width == spec_ow(lines, cfg),
        c2.height == spec_oh(lines, cfg),
    ensures
        c1.width == c2.width,
        c1.height == c2.height,
{
}

/// Two successful renders of identical input take identical dimensions: the
/// render contract pins the canvas size to the named highlighter result of
/// (code, configuration) against the one asset database, which is a
/// function of its arguments alone.
pub proof fn lemma_render_dims_deterministic(
    assets: Assets,
    code: Seq<char>,
    cfg: RenderConfig,
    c1: Canvas,
    c2: Canvas,
)
    requires
        spec_spans(assets, code, cfg) is Some,
        c1.width == spec_ow(spec_spans(assets, code, cfg)->Some_0, cfg),
        c1.height == spec_oh(spec_spans(assets, code, cfg)->Some_0, cfg),
        c2.width == spec_ow(spec_spans(assets, code, cfg)->Some_0, cfg),
        c2.height == spec_oh(spec_spans(assets, code, cfg)->Some_0, cfg),
    ensures
        c1.width == c2.width,
        c1.height == c2.height,
{
}

/// The geometry never reads the highlight set: a highlight line number
/// beyond the document (or any other) leaves the canvas size untouched.
pub proof fn lemma_highlight_set_ignored(
    lines: Seq<Seq<StyledSpan>>,
    a: RenderConfig,
    b: RenderConfig,
)
    requires
        same_geometry_inputs(a, b),
    ensures
        spec_ow(lines, a) == spec_ow(lines, b),
        spec_oh(lines, a) == spec_oh(lines, b),
{
    assert(spec_adv_of(a) == spec_adv_of(b));
    assert(spec_contents(lines, a.tab_width as int, spec_adv_of(a)) =~= spec_contents(
        lines,
        b.tab_width as int,
        spec_adv_of(b),
    ));
    assert(spec_max_w(lines, a) == spec_max_w(lines, b));
}

/// Turning the line-number gutter on widens the canvas by exactly the gutter:
/// its two pads and the measured digit-column text, and so by at least that
/// text width. This holds whenever some line is drawn at all, the drawn code
/// (not the title bar) decides the width, and the width floor is not in play.
pub proof fn lemma_gutter_widens(lines: Seq<Seq<StyledSpan>>, on: RenderConfig, off: RenderConfig)
    requires
        on.fonts@ == off.fonts@,
        on.show_window_controls == off.show_window_controls,
        on.window_title == off.window_title,
        on.pad_horiz == off.pad_horiz,
        on.pad_vert == off.pad_vert,
        on.tab_width == off.tab_width,
        on.line_offset == off.line_offset,
        on.line_pad == off.line_pad,
        on.show_line_numbers,
        !off.show_line_numbers,
        exists|i: int|
            0 <= i < lines.len() && spec_line_cells(#[trigger] lines[i], off.tab_width as int)
                > 0,
        spec_code_max(
            spec_lp_of(off, lines.len() as int),
            spec_contents(lines, off.tab_width as int, spec_adv_of(off)),
        ) + 25 >= 150,
        (off.window_title matches Some(t) ==> spec_code_max(
            spec_lp_of(off, lines.len() as int),
            spec_contents(lines, off.tab_width as int, spec_adv_of(off)),
        ) >= (if off.show_window_controls {
            135int
        } else {
            0int
        }) + t@.len() * spec_adv_of(off) + 30),
    ensures
        spec_ow(lines, on) == spec_ow(lines, off) + 12 + spec_gchars_of(on, lines.len() as int)
            * spec_adv_of(on),
        spec_ow(lines, on) >= spec_ow(lines, off) + spec_gchars_of(on, lines.len() as int)
            * spec_adv_of(on),
{
    let n = lines.len() as int;
    let adv = spec_adv_of(off);
    let tw = off.tab_width as int;
    let contents = spec_contents(lines, tw, adv);
    let lp_off = spec_lp_of(off, n);
    let lp_on = spec_lp_of(on, n);
    let gw = spec_gchars_of(on, n) * adv;
    assert(spec_adv_of(on) == adv);
    assert(spec_gchars_of(on, n) >= 0) by {
        let rows: int = if n <= 1 {
            1
        } else {
            n
        };
        crate::layout::lemma_digits_pos(on.line_offset + rows - 1);
    }
    assert(adv >= 0);
    assert(spec_gchars_of(on, n) * adv >= 0) by (nonlinear_arith)
        requires
            spec_gchars_of(on, n) >= 0,
            adv >= 0,
    ;
    assert(gw >= 0);
    assert(lp_off == 25);
    assert(lp_on == 37 + gw);
    assert(spec_contents(lines, on.tab_width as int, spec_adv_of(on)) =~= contents);
    let j = choose|i: int|
        0 <= i < lines.len() && spec_line_cells(#[trigger] lines[i], off.tab_width as int) > 0;
    assert(contents[j] is Some) by {
        assert(spec_content(lines[j], tw, adv) == contents[j]);
    }
    assert forall|i: int|
        0 <= i < contents.len() implies ((#[trigger] contents[i]) matches Some(w) ==> w >= 0) by {
        assert(contents[i] == spec_content(lines[i], tw, adv));
        lemma_cells_nonneg(lines[i], 0, 0, tw);
        if spec_line_cells(lines[i], tw) > 0 {
            assert(spec_line_cells(lines[i], tw) * adv >= 0) by (nonlinear_arith)
                requires
                    spec_line_cells(lines[i], tw) >= 0,
                    adv >= 0,
            ;
        }
    }
    lemma_code_max_shift(lp_off, 12 + gw, contents);
    assert(spec_code_max(lp_on, contents) == spec_code_max(lp_off, contents) + 12 + gw);
    assert(spec_max_w(lines, off) == spec_code_max(lp_off, contents));
    assert(spec_max_w(lines, on) == spec_code_max(lp_on, contents)) by {
        assert(spec_code_max(lp_on, contents) >= spec_code_max(lp_off, contents));
    }
    assert(spec_iw(lines, on) == spec_iw(lines, off) + 12 + gw);
}

} // verus!
