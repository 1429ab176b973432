use silicate::{
    decode_png, encode_png, generate, list_languages, list_themes, load_assets, render_to_canvas,
    resolve_theme, Canvas, RenderConfig, RenderError, Rgba,
};

fn test_config() -> RenderConfig {
    let mut cfg = RenderConfig::default_config();
    // one of syntect's stock themes, to exercise a second theme source
    cfg.theme = "base16-ocean.dark".to_string();
    cfg
}

#[test]
fn every_listed_theme_resolves() {
    let assets = load_assets();
    let names = list_themes(&assets);
    assert!(!names.is_empty());
    for name in &names {
        assert!(resolve_theme(&assets, name).is_ok(), "theme {:?} did not resolve", name);
    }
}

#[test]
fn unknown_theme_is_rejected_with_hint() {
    let assets = load_assets();
    match resolve_theme(&assets, "no-such-theme") {
        Err(RenderError::UnknownTheme(s)) => {
            assert_eq!(s, "no-such-theme");
        },
        _ => panic!("expected UnknownTheme"),
    }
    let e = match resolve_theme(&assets, "no-such-theme") {
        Err(e) => e,
        Ok(_) => panic!("expected an error"),
    };
    assert!(e.message().contains("no-such-theme"));
    assert!(e.message().contains("list_themes()"));
}

#[test]
fn theme_list_is_sorted() {
    let assets = load_assets();
    let names = list_themes(&assets);
    for w in names.windows(2) {
        assert!(w[0] < w[1]);
    }
}

#[test]
fn language_list_is_sorted_case_insensitively() {
    let assets = load_assets();
    let langs = list_languages(&assets);
    assert!(!langs.is_empty());
    assert!(langs.iter().any(|(n, _)| n == "Python"));
    for w in langs.windows(2) {
        assert!(w[0].0.to_lowercase() <= w[1].0.to_lowercase());
    }
}

#[test]
fn python_print_renders_to_png() {
    // the documented defaults, theme included
    let assets = load_assets();
    let cfg = RenderConfig::default_config();
    let bytes = generate(&assets, "print(1)", &cfg).unwrap();
    assert!(!bytes.is_empty());
    let (w, h, _) = decode_png(&bytes).unwrap();
    // wider than the two horizontal pads, taller than the two vertical pads
    // plus one line of text
    assert!(w > cfg.pad_horiz * 2);
    assert!(h > cfg.pad_vert * 2 + 26);
}

#[test]
fn unknown_language_names_the_input() {
    let assets = load_assets();
    let mut cfg = test_config();
    cfg.language = "not-a-real-language".to_string();
    match generate(&assets, "print(1)", &cfg) {
        Err(RenderError::UnknownLanguage(s)) => assert_eq!(s, "not-a-real-language"),
        _ => panic!("expected UnknownLanguage"),
    }
    let e = generate(&assets, "print(1)", &cfg).unwrap_err();
    assert!(e.message().contains("not-a-real-language"));
}

#[test]
fn invalid_background_fails_before_highlighting() {
    // the documented defaults but for the background
    let assets = load_assets();
    let mut cfg = RenderConfig::default_config();
    cfg.background = "not-a-color".to_string();
    match generate(&assets, "print(1)", &cfg) {
        Err(RenderError::InvalidColor(s)) => assert_eq!(s, "not-a-color"),
        _ => panic!("expected InvalidColor"),
    }
}

#[test]
fn rendering_twice_is_byte_identical() {
    let assets = load_assets();
    let cfg = test_config();
    let a = generate(&assets, "fn main() {}\n", &cfg).unwrap();
    let b = generate(&assets, "fn main() {}\n", &cfg).unwrap();
    assert_eq!(a, b);
}

#[test]
fn line_numbers_strictly_widen_the_canvas() {
    let assets = load_assets();
    let mut on = test_config();
    on.show_line_numbers = true;
    let mut off = test_config();
    off.show_line_numbers = false;
    let code = "some_reasonably_long_identifier = 1234567\n";
    let with = render_to_canvas(&assets, code, &on).unwrap();
    let without = render_to_canvas(&assets, code, &off).unwrap();
    // at least the measured digit-column width, which is one glyph cell
    let digit_w = (3 * 26 + 4) / 5;
    assert!(with.width >= without.width + digit_w);
    assert!(with.height == without.height);
}

#[test]
fn out_of_range_highlight_line_changes_nothing() {
    let assets = load_assets();
    let plain = test_config();
    let mut wild = test_config();
    wild.highlight_lines = vec![9999];
    let code = "a = 1\nb = 2\n";
    let a = generate(&assets, code, &plain).unwrap();
    let b = generate(&assets, code, &wild).unwrap();
    assert_eq!(a, b);
}

#[test]
fn in_range_highlight_line_changes_the_band() {
    let assets = load_assets();
    let plain = test_config();
    let mut banded = test_config();
    banded.highlight_lines = vec![1];
    let code = "a = 1\nb = 2\n";
    let a = generate(&assets, code, &plain).unwrap();
    let b = generate(&assets, code, &banded).unwrap();
    assert_ne!(a, b);
}

#[test]
fn png_round_trip_returns_identical_pixels() {
    let canvas = Canvas::new(17, 9, Rgba { r: 12, g: 200, b: 7, a: 255 });
    let data = canvas.data.clone();
    let bytes = encode_png(&canvas).unwrap();
    assert!(!bytes.is_empty());
    let (w, h, back) = decode_png(&bytes).unwrap();
    assert_eq!(w, 17);
    assert_eq!(h, 9);
    assert_eq!(back, data);
}

#[test]
fn default_theme_exists_and_resolves() {
    let cfg = RenderConfig::default_config();
    assert_eq!(cfg.theme, "Dracula");
    assert_eq!(cfg.language, "python");
    assert_eq!(cfg.background, "#abb8c3");
    let assets = load_assets();
    assert!(list_themes(&assets).contains(&"Dracula".to_string()));
    assert!(resolve_theme(&assets, "Dracula").is_ok());
}

#[test]
fn highlight_failure_never_yields_partial_output() {
    let assets = load_assets();
    let mut cfg = test_config();
    cfg.shadow_color = "##".to_string();
    match generate(&assets, "print(1)", &cfg) {
        Err(RenderError::InvalidColor(s)) => assert_eq!(s, "##"),
        _ => panic!("expected InvalidColor"),
    }
}
