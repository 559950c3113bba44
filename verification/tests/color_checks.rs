//! Color encode/decode behavior.

use pdfsnap::color::{Color, ColorParseError};

#[test]
fn color_hex_round_trip() {
    let c = Color::from_rgb(0x12, 0x34, 0x56);
    let s = c.to_hex();
    assert_eq!(s, "#123456");
    let back = Color::from_hex(&s);
    assert_eq!(back, Ok(Color::from_rgb(0x12, 0x34, 0x56)));
}

#[test]
fn color_parses_without_hash() {
    assert_eq!(Color::from_hex("a1b2c3"), Ok(Color::from_rgb(0xa1, 0xb2, 0xc3)));
    assert_eq!(Color::from_hex("##a1b2c3"), Ok(Color::from_rgb(0xa1, 0xb2, 0xc3)));
}

#[test]
fn color_rejects_five_digits() {
    assert_eq!(Color::from_hex("#12345"), Err(ColorParseError::BadLength));
}

#[test]
fn color_rejects_non_hex() {
    assert_eq!(Color::from_hex("#12345g"), Err(ColorParseError::BadDigit));
}

#[test]
fn color_components_scale_to_milli() {
    let c = Color::from_rgb(255, 0, 0x80);
    assert_eq!(c.r(), 1000);
    assert_eq!(c.g(), 0);
    assert_eq!(c.b(), 0x80 as i64 * 1000 / 255);
}

#[test]
fn color_round_trip_every_byte_boundary() {
    for v in [0u8, 1, 15, 16, 127, 128, 254, 255] {
        let c = Color::from_rgb(v, 255 - v, v ^ 0x5a);
        assert_eq!(Color::from_hex(&c.to_hex()), Ok(c));
    }
}
