use vstd::prelude::*;

use crate::color::Rgba;
use crate::compose::views_of;
use crate::config::{StyleFlags, StyledSpan};
use crate::lines::str_views;

verus! {

#[verifier::external_type_specification]
#[verifier::external_body]
pub struct ExSyntaxSet(syntect::parsing::SyntaxSet);

#[verifier::external_type_specification]
#[verifier::external_body]
pub struct ExSyntaxReference(syntect::parsing::SyntaxReference);

#[verifier::external_type_specification]
#[verifier::external_body]
pub struct ExTheme(syntect::highlighting::Theme);

#[verifier::external_type_specification]
#[verifier::external_body]
pub struct ExThemeSet(syntect::highlighting::ThemeSet);

#[verifier::external_type_specification]
#[verifier::external_body]
pub struct ExStyle(syntect::highlighting::Style);

/// The process-wide grammar and theme database, loaded once and read-only
/// afterwards; every render call borrows it.
pub struct Assets {
    pub syntax_set: syntect::parsing::SyntaxSet,
    pub theme_set: syntect::highlighting::ThemeSet,
}

/// Whether the syntax set holds a grammar that answers to this token
/// (a name or a file extension, matched as the grammar engine matches).
pub uninterp spec fn has_syntax_for(ss: syntect::parsing::SyntaxSet, token: Seq<char>) -> bool;

/// The grammar the set answers the token with.
pub uninterp spec fn syntax_for(ss: syntect::parsing::SyntaxSet, token: Seq<char>) -> syntect::parsing::SyntaxReference;

/// The names of the themes a theme set holds.
pub uninterp spec fn theme_names_of(ts: syntect::highlighting::ThemeSet) -> Set<Seq<char>>;

/// The theme a set holds under a name.
pub uninterp spec fn theme_for(ts: syntect::highlighting::ThemeSet, name: Seq<char>) -> syntect::highlighting::Theme;

/// The optional base foreground and background a theme states.
pub uninterp spec fn theme_colors_of(t: syntect::highlighting::Theme) -> Option<(Rgba, Rgba)>;

/// The grammars a syntax set holds: each one's display name with its file
/// extensions, in the set's own order.
pub uninterp spec fn syntaxes_of(ss: syntect::parsing::SyntaxSet) -> Seq<
    (Seq<char>, Seq<Seq<char>>),
>;

/// What the highlighter makes of a whole document: one styled-span sequence
/// per line, or the tokenizer's error. The highlighter is a deterministic
/// function of the grammar, the theme, the syntax set and the lines alone.
pub uninterp spec fn hl_document_of(
    syntax: syntect::parsing::SyntaxReference,
    theme: syntect::highlighting::Theme,
    ss: syntect::parsing::SyntaxSet,
    lines: Seq<Seq<char>>,
) -> Option<Seq<Seq<StyledSpan>>>;

/// Relies on syntect's `SyntaxSet::load_defaults_newlines`: the bundled
/// grammar database.
#[verifier::external_body]
fn default_syntaxes() -> syntect::parsing::SyntaxSet {
    syntect::parsing::SyntaxSet::load_defaults_newlines()
}

/// Relies on syntect's `ThemeSet::load_defaults`: the bundled theme database.
#[verifier::external_body]
fn default_themes() -> syntect::highlighting::ThemeSet {
    syntect::highlighting::ThemeSet::load_defaults()
}

/// Relies on syntect's `ThemeSet::load_from_reader`: one theme parsed from
/// its property-list text.
#[verifier::external_body]
fn theme_from_plist(src: &str) -> Option<syntect::highlighting::Theme> {
    let mut cur = std::io::Cursor::new(src.as_bytes());
    syntect::highlighting::ThemeSet::load_from_reader(&mut cur).ok()
}

/// Relies on `BTreeMap::insert` on `ThemeSet::themes`: afterwards the set
/// holds the name, beside everything it held before.
#[verifier::external_body]
fn add_theme(ts: &mut syntect::highlighting::ThemeSet, name: &str, t: syntect::highlighting::Theme)
    ensures
        theme_names_of(*final(ts)) == theme_names_of(*old(ts)).insert(name@),
{
    ts.themes.insert(name.to_owned(), t);
}

/// The definition of the default theme, in textmate property-list form: the
/// canonical palette of the theme the configuration defaults to, bundled
/// here because the grammar database ships without it.
fn default_theme_source() -> &'static str {
    "<?xml version=\"1.0\" encoding=\"UTF-8\"?>\n<plist version=\"1.0\">\n<dict>\n<key>name</key><string>Dracula</string>\n<key>settings</key>\n<array>\n<dict><key>settings</key><dict>\n<key>background</key><string>#282a36</string>\n<key>foreground</key><string>#f8f8f2</string>\n<key>caret</key><string>#f8f8f0</string>\n<key>lineHighlight</key><string>#44475a</string>\n<key>selection</key><string>#44475a</string>\n</dict></dict>\n<dict><key>name</key><string>Comment</string><key>scope</key><string>comment</string><key>settings</key><dict><key>foreground</key><string>#6272a4</string></dict></dict>\n<dict><key>name</key><string>String</string><key>scope</key><string>string</string><key>settings</key><dict><key>foreground</key><string>#f1fa8c</string></dict></dict>\n<dict><key>name</key><string>Number</string><key>scope</key><string>constant.numeric</string><key>settings</key><dict><key>foreground</key><string>#bd93f9</string></dict></dict>\n<dict><key>name</key><string>Constant</string><key>scope</key><string>constant.language, constant.character, constant.other</string><key>settings</key><dict><key>foreground</key><string>#bd93f9</string></dict></dict>\n<dict><key>name</key><string>Keyword</string><key>scope</key><string>keyword, storage</string><key>settings</key><dict><key>foreground</key><string>#ff79c6</string></dict></dict>\n<dict><key>name</key><string>Storage type</string><key>scope</key><string>storage.type</string><key>settings</key><dict><key>fontStyle</key><string>italic</string><key>foreground</key><string>#8be9fd</string></dict></dict>\n<dict><key>name</key><string>Class name</string><key>scope</key><string>entity.name.class, entity.name.type.class</string><key>settings</key><dict><key>fontStyle</key><string>underline</string><key>foreground</key><string>#50fa7b</string></dict></dict>\n<dict><key>name</key><string>Function name</string><key>scope</key><string>entity.name.function</string><key>settings</key><dict><key>foreground</key><string>#50fa7b</string></dict></dict>\n<dict><key>name</key><string>Function argument</string><key>scope</key><string>variable.parameter</string><key>settings</key><dict><key>fontStyle</key><string>italic</string><key>foreground</key><string>#ffb86c</string></dict></dict>\n<dict><key>name</key><string>Tag</string><key>scope</key><string>entity.name.tag</string><key>settings</key><dict><key>foreground</key><string>#ff79c6</string></dict></dict>\n<dict><key>name</key><string>Tag attribute</string><key>scope</key><string>entity.other.attribute-name</string><key>settings</key><dict><key>foreground</key><string>#50fa7b</string></dict></dict>\n<dict><key>name</key><string>Library function</string><key>scope</key><string>support.function</string><key>settings</key><dict><key>foreground</key><string>#8be9fd</string></dict></dict>\n<dict><key>name</key><string>Invalid</string><key>scope</key><string>invalid</string><key>settings</key><dict><key>foreground</key><string>#ff5555</string></dict></dict>\n</array>\n</dict>\n</plist>\n"
}

/// Load the asset database once; hand it by reference into render calls.
/// The bundled grammar and theme databases are syntect's; the default theme
/// of the configuration is added from its bundled definition.
pub fn load_assets() -> Assets {
    let mut assets = Assets { syntax_set: default_syntaxes(), theme_set: default_themes() };
    match theme_from_plist(default_theme_source()) {
        Some(t) => add_theme(&mut assets.theme_set, "Dracula", t),
        None => (),
    }
    assets
}

/// Relies on syntect's `SyntaxSet::find_syntax_by_token`: a deterministic
/// search that answers for exactly the tokens the set holds a grammar for,
/// always with the same grammar.
#[verifier::external_body]
pub fn find_syntax<'a>(ss: &'a syntect::parsing::SyntaxSet, token: &str) -> (r: Option<
    &'a syntect::parsing::SyntaxReference,
>)
    ensures
        r is Some <==> has_syntax_for(*ss, token@),
        r matches Some(s) ==> *s == syntax_for(*ss, token@),
{
    ss.find_syntax_by_token(token)
}

/// Relies on `BTreeMap::get` on `ThemeSet::themes`: it answers for exactly
/// the names the map holds, always with the same theme.
#[verifier::external_body]
pub fn get_theme<'a>(ts: &'a syntect::highlighting::ThemeSet, name: &str) -> (r: Option<
    &'a syntect::highlighting::Theme,
>)
    ensures
        r is Some <==> theme_names_of(*ts).contains(name@),
        r matches Some(t) ==> *t == theme_for(*ts, name@),
{
    ts.themes.get(name)
}

/// One name seq is lexicographically before another, by code point.
pub open spec fn lex_lt(a: Seq<char>, b: Seq<char>) -> bool
    decreases a.len(),
{
    if b.len() == 0 {
        false
    } else if a.len() == 0 {
        true
    } else if a[0] != b[0] {
        (a[0] as u32) < (b[0] as u32)
    } else {
        lex_lt(a.drop_first(), b.drop_first())
    }
}

/// Relies on `BTreeMap::keys` on `ThemeSet::themes`: the names come out in
/// ascending order (UTF-8 byte order, which is code-point order), each name
/// once, and nothing else.
#[verifier::external_body]
pub fn theme_names(ts: &syntect::highlighting::ThemeSet) -> (r: Vec<String>)
    ensures
        forall|i: int| 0 <= i < r@.len() ==> theme_names_of(*ts).contains(#[trigger] r@[i]@),
        forall|n: Seq<char>|
            theme_names_of(*ts).contains(n) ==> exists|i: int| 0 <= i < r@.len() && #[trigger] r@[i]@ == n,
        forall|i: int, j: int| 0 <= i < j < r@.len() ==> lex_lt(r@[i]@, r@[j]@),
{
    ts.themes.keys().cloned().collect()
}

/// Relies on `SyntaxSet::syntaxes`: every grammar of the set, with its name
/// and extensions verbatim, in the set's order.
#[verifier::external_body]
pub fn syntax_list(ss: &syntect::parsing::SyntaxSet) -> (r: Vec<(String, Vec<String>)>)
    ensures
        r@.len() == syntaxes_of(*ss).len(),
        forall|i: int|
            0 <= i < r@.len() ==> (#[trigger] r@[i]).0@ == syntaxes_of(*ss)[i].0 && r@[i].1.deep_view()
                == syntaxes_of(*ss)[i].1,
{
    ss.syntaxes().iter().map(|s| (s.name.clone(), s.file_extensions.clone())).collect()
}

/// Relies on syntect's `Theme`: its settings carry optional foreground and
/// background colors, a function of the theme value, moved out as plain
/// bytes.
#[verifier::external_body]
pub fn theme_colors(t: &syntect::highlighting::Theme) -> (r: Option<(Rgba, Rgba)>)
    ensures
        r == theme_colors_of(*t),
{
    match (t.settings.foreground, t.settings.background) {
        (Some(f), Some(b)) => Some(
            (
                Rgba { r: f.r, g: f.g, b: f.b, a: f.a },
                Rgba { r: b.r, g: b.g, b: b.b, a: b.a },
            ),
        ),
        _ => None,
    }
}

/// Relies on syntect's `Style`: its colors and font-style flags, moved out
/// as plain bytes and booleans.
#[verifier::external_body]
fn convert_span(st: syntect::highlighting::Style, text: &str) -> StyledSpan {
    let (f, b) = (st.foreground, st.background);
    StyledSpan {
        foreground: Rgba { r: f.r, g: f.g, b: f.b, a: f.a },
        background: Some(Rgba { r: b.r, g: b.g, b: b.b, a: b.a }),
        style: StyleFlags {
            bold: st.font_style.contains(syntect::highlighting::FontStyle::BOLD),
            italic: st.font_style.contains(syntect::highlighting::FontStyle::ITALIC),
            underline: st.font_style.contains(syntect::highlighting::FontStyle::UNDERLINE),
        },
        text: text.to_owned(),
    }
}

/// Relies on syntect's `HighlightLines` driven once over the whole document
/// (`new`, then `highlight_line` per line): all or nothing, one span
/// sequence per line, and a deterministic function of its arguments, which
/// the name `hl_document_of` states.
#[verifier::external_body]
pub fn hl_document(
    syntax: &syntect::parsing::SyntaxReference,
    theme: &syntect::highlighting::Theme,
    ss: &syntect::parsing::SyntaxSet,
    lines: &Vec<String>,
) -> (r: Result<Vec<Vec<StyledSpan>>, String>)
    ensures
        r is Ok <==> hl_document_of(*syntax, *theme, *ss, str_views(lines@)) is Some,
        r matches Ok(v) ==> (hl_document_of(*syntax, *theme, *ss, str_views(lines@)) matches Some(
            sv,
        ) && views_of(v@) == sv && v@.len() == lines@.len()),
{
    let mut h = syntect::easy::HighlightLines::new(syntax, theme);
    let mut out: Vec<Vec<StyledSpan>> = Vec::new();
    for line in lines.iter() {
        match h.highlight_line(line, ss) {
            Ok(sp) => out.push(sp.into_iter().map(|(st, t)| convert_span(st, t)).collect()),
            Err(e) => return Err(e.to_string()),
        }
    }
    Ok(out)
}

} // verus!
