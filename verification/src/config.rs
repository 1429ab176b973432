use vstd::prelude::*;

verus! {

/// One entry of the font fallback chain: a family name and a pixel size.
#[derive(Clone)]
pub struct FontSpec {
    pub family: String,
    pub size: u32,
}

/// Every parameter of one render call. Built once, never mutated: together
/// with the code text it fully determines the output.
#[derive(Clone)]
pub struct RenderConfig {
    pub language: String,
    pub theme: String,
    pub fonts: Vec<FontSpec>,
    pub show_line_numbers: bool,
    pub show_window_controls: bool,
    pub window_title: Option<String>,
    pub round_corner: bool,
    pub background: String,
    pub shadow_color: String,
    pub shadow_blur_radius: u32,
    pub pad_horiz: u32,
    pub pad_vert: u32,
    pub highlight_lines: Vec<u32>,
    pub tab_width: u8,
    pub line_offset: u32,
    pub line_pad: u32,
}

impl RenderConfig {
    /// The default configuration: python code, the Dracula theme, the built-in
    /// Hack font at 26 px, line numbers, window controls, rounded corners, a
    /// grey page behind a blurred shadow.
    pub fn default_config() -> (c: RenderConfig)
        ensures
            c.language@ == "python"@,
            c.theme@ == "Dracula"@,
            c.fonts@.len() == 1 && c.fonts@[0].family@ == "Hack"@ && c.fonts@[0].size == 26,
            c.show_line_numbers,
            c.show_window_controls,
            c.window_title is None,
            c.round_corner,
            c.background@ == "#abb8c3"@,
            c.shadow_color@ == "#707070"@,
            c.shadow_blur_radius == 50,
            c.pad_horiz == 80,
            c.pad_vert == 100,
            c.highlight_lines@.len() == 0,
            c.tab_width == 4,
            c.line_offset == 1,
            c.line_pad == 2,
    {
        RenderConfig {
            language: "python".to_owned(),
            theme: "Dracula".to_owned(),
            fonts: vec![FontSpec { family: "Hack".to_owned(), size: 26 }],
            show_line_numbers: true,
            show_window_controls: true,
            window_title: None,
            round_corner: true,
            background: "#abb8c3".to_owned(),
            shadow_color: "#707070".to_owned(),
            shadow_blur_radius: 50,
            pad_horiz: 80,
            pad_vert: 100,
            highlight_lines: Vec::new(),
            tab_width: 4,
            line_offset: 1,
            line_pad: 2,
        }
    }
}

/// Style flags of one span; flags the renderer does not support are ignored.
#[derive(Clone, Copy, PartialEq, Eq, Structural, Debug)]
pub struct StyleFlags {
    pub bold: bool,
    pub italic: bool,
    pub underline: bool,
}

/// One run of text sharing one visual style, as the highlighter hands it out.
/// The compositor reads the foreground color and the style flags; the span
/// background is carried through for completeness and not painted.
#[derive(Clone)]
pub struct StyledSpan {
    pub foreground: crate::color::Rgba,
    pub background: Option<crate::color::Rgba>,
    pub style: StyleFlags,
    pub text: String,
}

} // verus!
