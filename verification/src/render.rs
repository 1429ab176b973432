use vstd::prelude::*;

use crate::canvas::Canvas;
use crate::color::{resolve_color, spec_color, Rgba};
use crate::codec::{encode_png, png_of};
use crate::compose::{render_canvas, spec_fits, spec_lh_of, spec_oh, spec_ow, views_of};
use crate::config::{RenderConfig, StyledSpan};
use crate::error::RenderError;
use crate::hl::{
    find_syntax, get_theme, has_syntax_for, hl_document, hl_document_of, lex_lt, syntax_for,
    syntax_list, syntaxes_of, theme_colors, theme_colors_of, theme_for, theme_names,
    theme_names_of, Assets,
};
use crate::lines::{spec_lines, split_lines, str_views};

verus! {

/// A resolved theme: the handle the highlighter works with, beside its
/// foreground and background, already plain bytes.
pub struct ThemeHandle<'a> {
    pub theme: &'a syntect::highlighting::Theme,
    pub fg: Rgba,
    pub bg: Rgba,
}

/// Resolve a theme name against the asset database.
///
/// Succeeds exactly for the known theme names, as long as the theme states
/// its two base colors (every bundled one does); an unknown name is an
/// `UnknownTheme` whose message points at the theme-listing operation.
pub fn resolve_theme<'a>(assets: &'a Assets, name: &str) -> (r: Result<
    ThemeHandle<'a>,
    RenderError,
>)
    ensures
        r is Ok <==> theme_names_of(assets.theme_set).contains(name@) && theme_colors_of(
            theme_for(assets.theme_set, name@),
        ) is Some,
        r matches Ok(h) ==> (*h.theme == theme_for(assets.theme_set, name@) && theme_colors_of(
            *h.theme,
        ) == Some((h.fg, h.bg))),
        !theme_names_of(assets.theme_set).contains(name@) ==> (r matches Err(e)
            && e matches RenderError::UnknownTheme(s) && s@ == name@),
        r matches Err(e) ==> (e matches RenderError::UnknownTheme(s) && s@ == name@
            && !theme_names_of(assets.theme_set).contains(name@)) || (e is HighlightFailure
            && theme_names_of(assets.theme_set).contains(name@) && theme_colors_of(
            theme_for(assets.theme_set, name@),
        ) is None),
{
    match get_theme(&assets.theme_set, name) {
        Some(theme) => match theme_colors(theme) {
            Some((fg, bg)) => Ok(ThemeHandle { theme, fg, bg }),
            None => Err(
                RenderError::HighlightFailure("theme defines no base colors".to_owned()),
            ),
        },
        None => Err(RenderError::UnknownTheme(name.to_owned())),
    }
}

/// Drive the external tokenizer over the whole document: one span sequence
/// per source line, all or nothing, exactly the named highlighter result.
pub fn highlight<'a>(
    assets: &Assets,
    syntax: &syntect::parsing::SyntaxReference,
    theme: &'a syntect::highlighting::Theme,
    code: &str,
) -> (r: Result<Vec<Vec<StyledSpan>>, RenderError>)
    ensures
        r is Ok <==> hl_document_of(*syntax, *theme, assets.syntax_set, spec_lines(code@))
            is Some,
        r matches Ok(v) ==> (hl_document_of(*syntax, *theme, assets.syntax_set, spec_lines(code@))
            matches Some(sv) && views_of(v@) == sv && v@.len() == spec_lines(code@).len()),
        r matches Err(e) ==> e is HighlightFailure,
{
    let lines = split_lines(code);
    proof {
        assert(str_views(lines@) =~= spec_lines(code@));
    }
    match hl_document(syntax, theme, &assets.syntax_set, &lines) {
        Ok(v) => Ok(v),
        Err(m) => Err(RenderError::HighlightFailure(m)),
    }
}

/// What the pipeline's highlighter yields for this input: the named result
/// of the grammar and theme the lookups settle on.
pub open spec fn spec_spans(assets: Assets, code: Seq<char>, cfg: RenderConfig) -> Option<
    Seq<Seq<StyledSpan>>,
> {
    hl_document_of(
        syntax_for(assets.syntax_set, cfg.language@),
        theme_for(assets.theme_set, cfg.theme@),
        assets.syntax_set,
        spec_lines(code),
    )
}

/// Every gate of the pipeline open: the grammar and theme exist, the theme
/// states its base colors, both configured colors parse, and the
/// highlighter succeeds on the document.
pub open spec fn spec_inputs_valid(assets: Assets, code: Seq<char>, cfg: RenderConfig) -> bool {
    &&& has_syntax_for(assets.syntax_set, cfg.language@)
    &&& theme_names_of(assets.theme_set).contains(cfg.theme@)
    &&& theme_colors_of(theme_for(assets.theme_set, cfg.theme@)) is Some
    &&& spec_color(cfg.background@) is Some
    &&& spec_color(cfg.shadow_color@) is Some
    &&& spec_spans(assets, code, cfg) is Some
}

/// Render the code to a finished canvas.
///
/// The pipeline in order: grammar lookup, theme lookup, color resolution,
/// highlighting, layout, compositing. Colors are resolved before any
/// highlighting work; every failure discards all work.
pub fn render_to_canvas(assets: &Assets, code: &str, cfg: &RenderConfig) -> (r: Result<
    Canvas,
    RenderError,
>)
    ensures
        r is Ok ==> spec_inputs_valid(*assets, code@, *cfg),
        r matches Ok(c) ==> c.wf() && c.width > 0 && c.height > 0,
        r matches Ok(c) ==> c.width > 2 * cfg.pad_horiz && c.height > 2 * cfg.pad_vert
            + spec_lh_of(*cfg),
        r matches Ok(c) ==> (spec_spans(*assets, code@, *cfg) matches Some(sv) && c.width
            == spec_ow(sv, *cfg) && c.height == spec_oh(sv, *cfg)),
        spec_inputs_valid(*assets, code@, *cfg) && spec_fits(
            spec_spans(*assets, code@, *cfg)->Some_0,
            *cfg,
        ) ==> r is Ok,
        !has_syntax_for(assets.syntax_set, cfg.language@) ==> (r matches Err(e)
            && e matches RenderError::UnknownLanguage(s) && s@ == cfg.language@),
        has_syntax_for(assets.syntax_set, cfg.language@) && !theme_names_of(
            assets.theme_set,
        ).contains(cfg.theme@) ==> (r matches Err(e) && e matches RenderError::UnknownTheme(s)
            && s@ == cfg.theme@),
        has_syntax_for(assets.syntax_set, cfg.language@) && theme_names_of(
            assets.theme_set,
        ).contains(cfg.theme@) && spec_color(cfg.background@) is None ==> r is Err,
        r matches Err(e) ==> (e matches RenderError::UnknownLanguage(s) ==> (s@
            == cfg.language@ && !has_syntax_for(assets.syntax_set, cfg.language@))),
        r matches Err(e) ==> (e matches RenderError::UnknownTheme(s) ==> (s@ == cfg.theme@
            && !theme_names_of(assets.theme_set).contains(cfg.theme@))),
        r matches Err(e) ==> (e matches RenderError::InvalidColor(s) ==> ((s@
            == cfg.background@ && spec_color(cfg.background@) is None) || (s@
            == cfg.shadow_color@ && spec_color(cfg.shadow_color@) is None))),
        r matches Err(e) ==> (e is HighlightFailure ==> (theme_colors_of(
            theme_for(assets.theme_set, cfg.theme@),
        ) is None || spec_spans(*assets, code@, *cfg) is None)),
{
    let syntax = match find_syntax(&assets.syntax_set, cfg.language.as_str()) {
        Some(s) => s,
        None => {
            return Err(RenderError::UnknownLanguage(cfg.language.clone()));
        },
    };
    let th = match resolve_theme(assets, cfg.theme.as_str()) {
        Ok(t) => t,
        Err(e) => {
            return Err(e);
        },
    };
    let page = match resolve_color(cfg.background.as_str()) {
        Ok(c) => c,
        Err(e) => {
            return Err(e);
        },
    };
    let shadow = match resolve_color(cfg.shadow_color.as_str()) {
        Ok(c) => c,
        Err(e) => {
            return Err(e);
        },
    };
    let lines = match highlight(assets, syntax, th.theme, code) {
        Ok(v) => v,
        Err(e) => {
            return Err(e);
        },
    };
    render_canvas(&lines, cfg, th.fg, th.bg, page, shadow)
}

/// Render the code and return it as PNG bytes, RGBA8.
pub fn generate(assets: &Assets, code: &str, cfg: &RenderConfig) -> (r: Result<
    Vec<u8>,
    RenderError,
>)
    ensures
        r matches Ok(b) ==> b@.len() > 0,
        r is Ok ==> spec_inputs_valid(*assets, code@, *cfg),
        r matches Ok(b) ==> (spec_spans(*assets, code@, *cfg) matches Some(sv) && (exists|c: Canvas|
            c.wf() && c.width == spec_ow(sv, *cfg) && c.height == spec_oh(sv, *cfg) && b@
                == #[trigger] png_of(c.data@, c.width, c.height))),
        spec_inputs_valid(*assets, code@, *cfg) && spec_fits(
            spec_spans(*assets, code@, *cfg)->Some_0,
            *cfg,
        ) ==> r is Ok,
        !has_syntax_for(assets.syntax_set, cfg.language@) ==> (r matches Err(e)
            && e matches RenderError::UnknownLanguage(s) && s@ == cfg.language@),
        has_syntax_for(assets.syntax_set, cfg.language@) && !theme_names_of(
            assets.theme_set,
        ).contains(cfg.theme@) ==> (r matches Err(e) && e matches RenderError::UnknownTheme(s)
            && s@ == cfg.theme@),
        has_syntax_for(assets.syntax_set, cfg.language@) && theme_names_of(
            assets.theme_set,
        ).contains(cfg.theme@) && spec_color(cfg.background@) is None ==> r is Err,
        r matches Err(e) ==> (e matches RenderError::UnknownLanguage(s) ==> (s@
            == cfg.language@ && !has_syntax_for(assets.syntax_set, cfg.language@))),
        r matches Err(e) ==> (e matches RenderError::UnknownTheme(s) ==> (s@ == cfg.theme@
            && !theme_names_of(assets.theme_set).contains(cfg.theme@))),
        r matches Err(e) ==> (e matches RenderError::InvalidColor(s) ==> ((s@
            == cfg.background@ && spec_color(cfg.background@) is None) || (s@
            == cfg.shadow_color@ && spec_color(cfg.shadow_color@) is None))),
{
    let canvas = match render_to_canvas(assets, code, cfg) {
        Ok(c) => c,
        Err(e) => {
            return Err(e);
        },
    };
    let bytes = match encode_png(&canvas) {
        Ok(b) => b,
        Err(e) => {
            return Err(e);
        },
    };
    proof {
        assert(exists|c: Canvas|
            c.wf() && c.width == spec_ow(spec_spans(*assets, code@, *cfg)->Some_0, *cfg)
                && c.height == spec_oh(spec_spans(*assets, code@, *cfg)->Some_0, *cfg) && bytes@
                == #[trigger] png_of(c.data@, c.width, c.height)) by {
            assert(bytes@ == png_of(canvas.data@, canvas.width, canvas.height));
        }
    }
    Ok(bytes)
}

/// The available theme names, in ascending lexical order.
pub fn list_themes(assets: &Assets) -> (r: Vec<String>)
    ensures
        forall|i: int| 0 <= i < r@.len() ==> theme_names_of(assets.theme_set).contains(
            #[trigger] r@[i]@,
        ),
        forall|n: Seq<char>|
            theme_names_of(assets.theme_set).contains(n) ==> exists|i: int|
                0 <= i < r@.len() && #[trigger] r@[i]@ == n,
        forall|i: int, j: int| 0 <= i < j < r@.len() ==> lex_lt(r@[i]@, r@[j]@),
{
    theme_names(&assets.theme_set)
}

/// ASCII letters folded to lower case, anything else as it stands: the sort
/// key of one language name character.
pub open spec fn fold_char(c: char) -> int {
    if 65 <= c as u32 && c as u32 <= 90 {
        c as u32 + 32
    } else {
        c as u32 as int
    }
}

/// Case-insensitive order on language names.
pub open spec fn name_le(a: Seq<char>, b: Seq<char>) -> bool
    decreases a.len(),
{
    if a.len() == 0 {
        true
    } else if b.len() == 0 {
        false
    } else if fold_char(a[0]) != fold_char(b[0]) {
        fold_char(a[0]) < fold_char(b[0])
    } else {
        name_le(a.drop_first(), b.drop_first())
    }
}

/// Decide `name_le` on two strings.
fn name_le_exec(a: &str, b: &str) -> (r: bool)
    ensures
        r == name_le(a@, b@),
{
    let na = a.unicode_len();
    let nb = b.unicode_len();
    proof {
        assert(a@.subrange(0, na as int) =~= a@);
        assert(b@.subrange(0, nb as int) =~= b@);
    }
    let mut i: usize = 0;
    while i < na && i < nb
        invariant
            i <= na,
            i <= nb,
            na == a@.len(),
            nb == b@.len(),
            name_le(a@, b@) == name_le(
                a@.subrange(i as int, na as int),
                b@.subrange(i as int, nb as int),
            ),
            forall|k: int| 0 <= k < i ==> fold_char(a@[k]) == fold_char(b@[k]),
        decreases na - i,
    {
        let ca = a.get_char(i);
        let cb = b.get_char(i);
        let ua = ca as u32;
        let ub = cb as u32;
        let fa = if 65 <= ua && ua <= 90 {
            ua + 32
        } else {
            ua
        };
        let fb = if 65 <= ub && ub <= 90 {
            ub + 32
        } else {
            ub
        };
        proof {
            let sa = a@.subrange(i as int, na as int);
            let sb = b@.subrange(i as int, nb as int);
            assert(sa[0] == a@[i as int] && sb[0] == b@[i as int]);
            assert(sa.drop_first() =~= a@.subrange(i + 1, na as int));
            assert(sb.drop_first() =~= b@.subrange(i + 1, nb as int));
        }
        if fa != fb {
            return fa < fb;
        }
        i += 1;
    }
    proof {
        let sa = a@.subrange(i as int, na as int);
        let sb = b@.subrange(i as int, nb as int);
        if i >= na {
            assert(sa.len() == 0);
        } else {
            assert(sb.len() == 0 && sa.len() > 0);
        }
    }
    i >= na
}

/// The name and extension views of a language listing.
pub open spec fn lang_views(s: Seq<(String, Vec<String>)>) -> Seq<(Seq<char>, Seq<Seq<char>>)> {
    s.map_values(|p: (String, Vec<String>)| (p.0@, p.1.deep_view()))
}

/// The available languages: exactly the database's grammars, each name with
/// its extension list verbatim, sorted case-insensitively by name.
pub fn list_languages(assets: &Assets) -> (r: Vec<(String, Vec<String>)>)
    ensures
        forall|i: int, j: int| 0 <= i < j < r@.len() ==> name_le(r@[i].0@, r@[j].0@),
        lang_views(r@).to_multiset() == syntaxes_of(assets.syntax_set).to_multiset(),
{
    let raw = syntax_list(&assets.syntax_set);
    proof {
        assert(lang_views(raw@) =~= syntaxes_of(assets.syntax_set));
    }
    sort_by_name(raw)
}

/// Selection sort on the case-insensitive name order: repeatedly move the
/// least remaining entry over. Keeps exactly the entries it was given.
fn sort_by_name(input: Vec<(String, Vec<String>)>) -> (r: Vec<(String, Vec<String>)>)
    ensures
        forall|i: int, j: int| 0 <= i < j < r@.len() ==> name_le(r@[i].0@, r@[j].0@),
        r@.to_multiset() == input@.to_multiset(),
        lang_views(r@).to_multiset() == lang_views(input@).to_multiset(),
{
    broadcast use vstd::seq_lib::group_to_multiset_ensures;
    broadcast use vstd::multiset::group_multiset_axioms;

    let mut work = input;
    let mut out: Vec<(String, Vec<String>)> = Vec::new();
    while work.len() > 0
        invariant
            out@.to_multiset().add(work@.to_multiset()) == input@.to_multiset(),
            lang_views(out@).to_multiset().add(lang_views(work@).to_multiset()) == lang_views(
                input@,
            ).to_multiset(),
            forall|i: int, j: int| 0 <= i < j < out@.len() ==> name_le(out@[i].0@, out@[j].0@),
            forall|i: int, j: int|
                0 <= i < out@.len() && 0 <= j < work@.len() ==> name_le(
                    (#[trigger] out@[i]).0@,
                    (#[trigger] work@[j]).0@,
                ),
        decreases work@.len(),
    {
        let mut best: usize = 0;
        let mut k: usize = 1;
        proof {
            lemma_name_le_refl(work@[0].0@);
        }
        while k < work.len()
            invariant
                best < work@.len(),
                k <= work@.len(),
                work@.len() > 0,
                forall|j: int| 0 <= j < k ==> name_le(work@[best as int].0@, (#[trigger] work@[j]).0@),
            decreases work@.len() - k,
        {
            if name_le_exec(work[k].0.as_str(), work[best].0.as_str()) {
                proof {
                    assert forall|j: int| 0 <= j < k + 1 implies name_le(
                        work@[k as int].0@,
                        (#[trigger] work@[j]).0@,
                    ) by {
                        if j == k {
                            lemma_name_le_refl(work@[k as int].0@);
                        } else {
                            lemma_name_le_trans(
                                work@[k as int].0@,
                                work@[best as int].0@,
                                work@[j].0@,
                            );
                        }
                    }
                }
                best = k;
            } else {
                proof {
                    lemma_name_le_total(work@[k as int].0@, work@[best as int].0@);
                }
            }
            k += 1;
        }
        let ghost wpre = work@;
        let ghost opre = out@;
        let item = work.remove(best);
        let ghost mitem = (item.0@, item.1.deep_view());
        proof {
            vstd::seq_lib::to_multiset_contains(wpre, item);
            vstd::seq_lib::to_multiset_remove(wpre, best as int);
            assert(wpre.contains(item)) by {
                assert(0 <= best < wpre.len() && wpre[best as int] == item);
            }
            assert(wpre.to_multiset().count(item) > 0);
            assert(work@.to_multiset() =~= wpre.to_multiset().remove(item));
            assert(work@.to_multiset().insert(item) =~= wpre.to_multiset());
            assert(lang_views(work@) =~= lang_views(wpre).remove(best as int));
            vstd::seq_lib::to_multiset_contains(lang_views(wpre), mitem);
            vstd::seq_lib::to_multiset_remove(lang_views(wpre), best as int);
            assert(lang_views(wpre).contains(mitem)) by {
                assert(0 <= best < lang_views(wpre).len() && lang_views(wpre)[best as int]
                    == mitem);
            }
            assert(lang_views(wpre).to_multiset().count(mitem) > 0);
            assert(lang_views(work@).to_multiset() =~= lang_views(wpre).to_multiset().remove(
                mitem,
            ));
            assert(lang_views(work@).to_multiset().insert(mitem) =~= lang_views(
                wpre,
            ).to_multiset());
        }
        out.push(item);
        proof {
            vstd::seq_lib::to_multiset_build(opre, item);
            assert(out@.to_multiset() =~= opre.to_multiset().insert(item));
            assert(out@.to_multiset().add(work@.to_multiset()) =~= opre.to_multiset().add(
                wpre.to_multiset(),
            ));
            assert(lang_views(out@) =~= lang_views(opre).push(mitem));
            vstd::seq_lib::to_multiset_build(lang_views(opre), mitem);
            assert(lang_views(out@).to_multiset() =~= lang_views(opre).to_multiset().insert(
                mitem,
            ));
            assert(lang_views(out@).to_multiset().add(lang_views(work@).to_multiset())
                =~= lang_views(opre).to_multiset().add(lang_views(wpre).to_multiset()));
            assert(out@ == opre.push(item));
            assert forall|i2: int, j2: int| 0 <= i2 < j2 < out@.len() implies name_le(
                out@[i2].0@,
                out@[j2].0@,
            ) by {
                if j2 == out@.len() - 1 {
                    assert(out@[j2] == item);
                    assert(opre[i2] == out@[i2]);
                }
            }
            assert forall|i2: int, j2: int|
                0 <= i2 < out@.len() && 0 <= j2 < work@.len() implies name_le(
                (#[trigger] out@[i2]).0@,
                (#[trigger] work@[j2]).0@,
            ) by {
                assert(work@ == wpre.remove(best as int));
                let jw: int = if j2 < best {
                    j2
                } else {
                    j2 + 1
                };
                assert(work@[j2] == wpre[jw]);
                if i2 < out@.len() - 1 {
                    assert(name_le(out@[i2].0@, item.0@));
                    lemma_name_le_trans(out@[i2].0@, item.0@, wpre[jw].0@);
                } else {
                    assert(out@[i2] == item);
                    assert(name_le(item.0@, wpre[jw].0@));
                }
            }
        }
    }
    proof {
        assert(work@.to_multiset().len() == 0);
        assert(out@.to_multiset() =~= out@.to_multiset().add(work@.to_multiset()));
        assert(lang_views(work@) =~= Seq::<(Seq<char>, Seq<Seq<char>>)>::empty());
        assert(lang_views(work@).to_multiset().len() == 0);
        assert(lang_views(out@).to_multiset() =~= lang_views(out@).to_multiset().add(
            lang_views(work@).to_multiset(),
        ));
    }
    out
}

/// Every name stands no later than itself.
pub proof fn lemma_name_le_refl(a: Seq<char>)
    ensures
        name_le(a, a),
    decreases a.len(),
{
    if a.len() > 0 {
        lemma_name_le_refl(a.drop_first());
    }
}

/// The order is total: of two names one comes first.
pub proof fn lemma_name_le_total(a: Seq<char>, b: Seq<char>)
    ensures
        name_le(a, b) || name_le(b, a),
    decreases a.len(),
{
    if a.len() > 0 && b.len() > 0 && fold_char(a[0]) == fold_char(b[0]) {
        lemma_name_le_total(a.drop_first(), b.drop_first());
    }
}

/// The order chains.
pub proof fn lemma_name_le_trans(a: Seq<char>, b: Seq<char>, c: Seq<char>)
    requires
        name_le(a, b),
        name_le(b, c),
    ensures
        name_le(a, c),
    decreases a.len(),
{
    if a.len() > 0 && b.len() > 0 && c.len() > 0 && fold_char(a[0]) == fold_char(b[0])
        && fold_char(b[0]) == fold_char(c[0]) {
        lemma_name_le_trans(a.drop_first(), b.drop_first(), c.drop_first());
    }
}

} // verus!
