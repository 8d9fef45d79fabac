use hex_picker::color::Color;
use hex_picker::fixed::UNIT;
use hex_picker::hex::ParseError;

#[test]
fn white_and_black_as_bytes() {
    assert_eq!(Color::white().to_rgb8(), [255, 255, 255]);
    assert_eq!(Color::black().to_rgb8(), [0, 0, 0]);
}

#[test]
fn hex_is_read_in_either_case() {
    let upper = Color::from_hex("#CC85C5").unwrap();
    let lower = Color::from_hex("#cc85c5").unwrap();
    assert_eq!(upper, lower);
    assert_eq!(upper.to_rgb8(), [0xcc, 0x85, 0xc5]);
    assert_eq!(upper.to_hex(), "#cc85c5");
}

#[test]
fn malformed_hex_is_refused() {
    assert_eq!(Color::from_hex("cc85c5"), Err(ParseError::InvalidFormat));
    assert_eq!(Color::from_hex("#cc85c"), Err(ParseError::InvalidFormat));
    assert_eq!(Color::from_hex("#cc85c5f"), Err(ParseError::InvalidFormat));
    assert_eq!(Color::from_hex("#gg85c5"), Err(ParseError::InvalidFormat));
    assert_eq!(Color::from_hex(""), Err(ParseError::InvalidFormat));
}

#[test]
fn primary_hues() {
    assert_eq!(Color::from_hsv(0, UNIT, UNIT), Color::rgb(UNIT, 0, 0));
    assert_eq!(Color::from_hsv(120_000_000, UNIT, UNIT), Color::rgb(0, UNIT, 0));
    assert_eq!(Color::from_hsv(240_000_000, UNIT, UNIT), Color::rgb(0, 0, UNIT));
    assert_eq!(Color::from_hsv(360_000_000, UNIT, UNIT), Color::rgb(UNIT, 0, 0));
    assert_eq!(Color::rgb(UNIT, 0, 0).to_hsv(), (0, UNIT, UNIT));
    assert_eq!(Color::rgb(0, UNIT, 0).to_hsv(), (120_000_000, UNIT, UNIT));
    assert_eq!(Color::rgb(0, 0, UNIT).to_hsv(), (240_000_000, UNIT, UNIT));
}
