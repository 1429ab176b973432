use silicate::{resolve_color, RenderError, Rgba};

#[test]
fn six_digit_hex_resolves_exactly() {
    let c = resolve_color("#abcdef").unwrap();
    assert_eq!(c, Rgba { r: 0xab, g: 0xcd, b: 0xef, a: 0xff });
}

#[test]
fn three_digit_hex_doubles_each_digit() {
    let c = resolve_color("#abc").unwrap();
    assert_eq!(c, Rgba { r: 0xaa, g: 0xbb, b: 0xcc, a: 0xff });
}

#[test]
fn eight_digit_hex_carries_alpha() {
    let c = resolve_color("#abcdef00").unwrap();
    assert_eq!(c, Rgba { r: 0xab, g: 0xcd, b: 0xef, a: 0x00 });
}

#[test]
fn upper_case_hex_is_accepted() {
    let c = resolve_color("#ABCDEF").unwrap();
    assert_eq!(c, Rgba { r: 0xab, g: 0xcd, b: 0xef, a: 0xff });
}

#[test]
fn malformed_color_is_invalid_color() {
    for bad in ["", "#", "not-a-color", "#abcde", "#ggg", "abcdef", "#abcdefg", "#abcd"] {
        match resolve_color(bad) {
            Err(RenderError::InvalidColor(s)) => assert_eq!(s, bad),
            _ => panic!("expected InvalidColor for {:?}", bad),
        }
    }
}

#[test]
fn invalid_color_message_names_input() {
    let e = resolve_color("not-a-color").unwrap_err();
    assert!(e.message().contains("not-a-color"));
}
