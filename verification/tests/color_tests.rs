use collage::color::hex_to_color;
use collage::color::Color;
use collage::color::ColorError;

#[test]
fn parses_red_with_hash() {
    assert_eq!(hex_to_color("#ff0000"), Ok(Color { r: 255, g: 0, b: 0 }));
}

#[test]
fn parses_without_hash() {
    assert_eq!(hex_to_color("00ff7f"), Ok(Color { r: 0, g: 255, b: 127 }));
}

#[test]
fn parses_uppercase_digits() {
    assert_eq!(hex_to_color("#A1B2C3"), Ok(Color { r: 0xa1, g: 0xb2, b: 0xc3 }));
}

#[test]
fn parses_white_default() {
    assert_eq!(hex_to_color("#ffffff"), Ok(Color { r: 255, g: 255, b: 255 }));
}

#[test]
fn rejects_short_string() {
    assert_eq!(hex_to_color("#fff"), Err(ColorError::InvalidLength));
}

#[test]
fn rejects_long_string() {
    assert_eq!(hex_to_color("1234567"), Err(ColorError::InvalidLength));
}

#[test]
fn rejects_empty_string() {
    assert_eq!(hex_to_color(""), Err(ColorError::InvalidLength));
}

#[test]
fn rejects_bare_hash() {
    assert_eq!(hex_to_color("#"), Err(ColorError::InvalidLength));
}

#[test]
fn rejects_non_hex_character() {
    assert_eq!(hex_to_color("gg0000"), Err(ColorError::InvalidDigit));
    assert_eq!(hex_to_color("#12345z"), Err(ColorError::InvalidDigit));
}

#[test]
fn hash_only_stripped_at_front() {
    assert_eq!(hex_to_color("ff00#0"), Err(ColorError::InvalidDigit));
}
