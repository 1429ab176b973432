mod canvas;
mod codec;
mod color;
mod compose;
mod config;
mod error;
mod fontmodel;
mod hl;
mod laws;
mod layout;
mod lines;

pub use canvas::{blend, blend_alpha, blend_channel, cell, spec_blend, spec_transparent, Canvas};
pub use codec::{decode_png, encode_png, lemma_png_round_trip, png_decodes_to, png_of};
pub use color::{all_hex, byte_of_pair, byte_of_single, hex_val, is_hex_digit, resolve_color, spec_color, Rgba, OPAQUE};
pub use compose::{compute_geometry, render_canvas, spec_fits, spec_ih, spec_iw, spec_lp_of, spec_max_w, spec_oh, spec_ow, Geometry};
pub use config::{FontSpec, RenderConfig, StyleFlags, StyledSpan};
pub use error::{spec_message, RenderError};
pub use fontmodel::{spec_advance, spec_font_height, spec_font_size, spec_text_width};
pub use hl::{find_syntax, get_theme, has_syntax_for, hl_document_of, load_assets, syntax_for, syntaxes_of, theme_colors_of, theme_for, theme_names, theme_names_of, Assets};
pub use layout::{spec_digits, spec_gutter_chars, spec_image_width};
pub use lines::{expand_span, spec_expand, spec_lines, spec_trim_nl, split_lines};
mod render;
pub use render::{generate, highlight, lang_views, list_languages, list_themes, name_le, render_to_canvas, resolve_theme, spec_inputs_valid, spec_spans, ThemeHandle};
pub use laws::{lemma_dims_deterministic, lemma_gutter_widens, lemma_highlight_set_ignored, lemma_render_dims_deterministic, same_geometry_inputs};
