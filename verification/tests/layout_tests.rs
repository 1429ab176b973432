use silicate::{generate, load_assets, render_to_canvas, split_lines, RenderConfig};

fn cfg() -> RenderConfig {
    let mut c = RenderConfig::default_config();
    c.theme = "InspiredGitHub".to_string();
    c
}

#[test]
fn split_lines_keeps_terminators() {
    assert_eq!(split_lines("a\nbc\n"), vec!["a\n".to_string(), "bc\n".to_string()]);
    assert_eq!(split_lines("a\nbc"), vec!["a\n".to_string(), "bc".to_string()]);
    assert_eq!(split_lines(""), Vec::<String>::new());
    assert_eq!(split_lines("\n\n"), vec!["\n".to_string(), "\n".to_string()]);
}

#[test]
fn wider_tab_stops_widen_the_canvas() {
    let assets = load_assets();
    let mut narrow = cfg();
    narrow.tab_width = 2;
    let mut wide = cfg();
    wide.tab_width = 8;
    let code = "\tx = 1\n";
    let a = render_to_canvas(&assets, code, &narrow).unwrap();
    let b = render_to_canvas(&assets, code, &wide).unwrap();
    assert!(b.width > a.width);
}

#[test]
fn a_long_window_title_widens_the_canvas() {
    let assets = load_assets();
    let mut plain = cfg();
    plain.window_title = None;
    let mut titled = cfg();
    titled.window_title = Some(
        "a rather long window title that outgrows a short line of code".to_string(),
    );
    let code = "x\n";
    let a = render_to_canvas(&assets, code, &plain).unwrap();
    let b = render_to_canvas(&assets, code, &titled).unwrap();
    assert!(b.width > a.width);
}

#[test]
fn line_offset_grows_the_gutter_digits() {
    let assets = load_assets();
    let mut near = cfg();
    near.line_offset = 1;
    let mut far = cfg();
    far.line_offset = 100000;
    let code = "x = 1\n";
    let a = render_to_canvas(&assets, code, &near).unwrap();
    let b = render_to_canvas(&assets, code, &far).unwrap();
    assert!(b.width > a.width);
}

#[test]
fn more_lines_make_a_taller_canvas() {
    let assets = load_assets();
    let c = cfg();
    let a = render_to_canvas(&assets, "x = 1\n", &c).unwrap();
    let b = render_to_canvas(&assets, "x = 1\ny = 2\nz = 3\n", &c).unwrap();
    assert!(b.height > a.height);
    assert_eq!(a.width, b.width);
}

#[test]
fn shadow_blur_zero_skips_the_shadow() {
    let assets = load_assets();
    let mut with = cfg();
    with.shadow_blur_radius = 25;
    let mut without = cfg();
    without.shadow_blur_radius = 0;
    let code = "x = 1\n";
    let a = generate(&assets, code, &with).unwrap();
    let b = generate(&assets, code, &without).unwrap();
    // same geometry, different page pixels
    assert_ne!(a, b);
}

#[test]
fn chrome_reserves_title_bar_height() {
    let assets = load_assets();
    let mut bare = cfg();
    bare.show_window_controls = false;
    bare.window_title = None;
    let mut chromed = cfg();
    chromed.show_window_controls = true;
    let code = "x = 1\n";
    let a = render_to_canvas(&assets, code, &bare).unwrap();
    let b = render_to_canvas(&assets, code, &chromed).unwrap();
    assert_eq!(b.height, a.height + 50);
}

#[test]
fn tabs_expand_to_the_next_tab_stop() {
    let (cells, after) = silicate::expand_span("a\tb", 0, 4);
    assert_eq!(cells.iter().collect::<String>(), "a   b");
    assert_eq!(after, 5);
    let (cells2, after2) = silicate::expand_span("\t", 2, 4);
    assert_eq!(cells2.iter().collect::<String>(), "  ");
    assert_eq!(after2, 4);
    let (trimmed, _) = silicate::expand_span("x\n", 0, 4);
    assert_eq!(trimmed.iter().collect::<String>(), "x");
}
