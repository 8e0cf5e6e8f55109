use slidmk::{
    hex_string_to_rgb, orientation_of_words, parse_orientation, str_to_orientation, HorOrientation, Orientation,
    VertOrientation,
};

#[test]
fn orientation_words_are_read() {
    assert_eq!(
        orientation_of_words("bottom middle"),
        Some(Orientation { vertical: VertOrientation::Bottom, horizontal: HorOrientation::Middle })
    );
    assert_eq!(
        orientation_of_words("  middle\tright \n"),
        Some(Orientation { vertical: VertOrientation::Middle, horizontal: HorOrientation::Right })
    );
    assert_eq!(orientation_of_words("top"), None);
    assert_eq!(orientation_of_words("top left extra"), None);
    assert_eq!(orientation_of_words("left top"), None);
    assert_eq!(orientation_of_words("Top Left"), None);
}

#[test]
fn orientation_ignores_case() {
    assert_eq!(
        str_to_orientation("Top LEFT"),
        Orientation { vertical: VertOrientation::Top, horizontal: HorOrientation::Left }
    );
    assert_eq!(
        parse_orientation("Bottom Middle"),
        Some(Orientation { vertical: VertOrientation::Bottom, horizontal: HorOrientation::Middle })
    );
    assert_eq!(parse_orientation("sideways left"), None);
    assert_eq!(parse_orientation("top"), None);
}

#[test]
fn orientation_words_split_at_unicode_whitespace() {
    assert_eq!(
        orientation_of_words("top\u{A0}left"),
        Some(Orientation { vertical: VertOrientation::Top, horizontal: HorOrientation::Left })
    );
    assert_eq!(
        parse_orientation("\u{3000}MIDDLE\u{2028}Right"),
        Some(Orientation { vertical: VertOrientation::Middle, horizontal: HorOrientation::Right })
    );
}

#[test]
fn hex_colors_are_split_into_bytes() {
    assert_eq!(hex_string_to_rgb("ff8000"), Some((255, 128, 0)));
    assert_eq!(hex_string_to_rgb("0A0b0C"), Some((10, 11, 12)));
    assert_eq!(hex_string_to_rgb("+ff"), Some((0, 0, 255)));
    assert_eq!(hex_string_to_rgb("00000000ff"), Some((0, 0, 255)));
    assert_eq!(hex_string_to_rgb("12345678"), Some((0x34, 0x56, 0x78)));
}

#[test]
fn malformed_hex_colors_are_rejected() {
    assert_eq!(hex_string_to_rgb(""), None);
    assert_eq!(hex_string_to_rgb("+"), None);
    assert_eq!(hex_string_to_rgb("12g456"), None);
    assert_eq!(hex_string_to_rgb("1ffffffff"), None);
    assert_eq!(hex_string_to_rgb("-12"), None);
}
