//! Measurement, wrapping and fitting over a small hand-built face.
//!
//! The face has a single glyph and no character map, so every character
//! shapes to that glyph, which advances one full em: each character is
//! exactly the font size wide.

use pdfsnap::charwrap::{hard_wrap_by_chars, wrap_text_at_char_limit};
use pdfsnap::fonts::{get_font_pdf_name, text_width, FontFace, FontType, FontWeight};
use pdfsnap::wrap::{fit_text_font_size, wrap_text};

fn push_u16(v: &mut Vec<u8>, x: u16) {
    v.push((x >> 8) as u8);
    v.push((x & 0xff) as u8);
}

fn push_u32(v: &mut Vec<u8>, x: u32) {
    v.push((x >> 24) as u8);
    v.push(((x >> 16) & 0xff) as u8);
    v.push(((x >> 8) & 0xff) as u8);
    v.push((x & 0xff) as u8);
}

fn head_table() -> Vec<u8> {
    let mut t = Vec::new();
    push_u32(&mut t, 0x00010000); // version
    push_u32(&mut t, 0); // revision
    push_u32(&mut t, 0); // checksum adjustment
    push_u32(&mut t, 0x5f0f3cf5); // magic
    push_u16(&mut t, 0); // flags
    push_u16(&mut t, 1000); // units per em
    for _ in 0..16 {
        t.push(0); // created + modified times
    }
    push_u16(&mut t, 0); // x min
    push_u16(&mut t, 0); // y min
    push_u16(&mut t, 500); // x max
    push_u16(&mut t, 700); // y max
    push_u16(&mut t, 0); // mac style
    push_u16(&mut t, 8); // lowest rec ppem
    push_u16(&mut t, 2); // font direction hint
    push_u16(&mut t, 0); // index to location format
    push_u16(&mut t, 0); // glyph data format
    t
}

fn hhea_table() -> Vec<u8> {
    let mut t = Vec::new();
    push_u32(&mut t, 0x00010000); // version
    push_u16(&mut t, 700); // ascender
    push_u16(&mut t, (-200i16) as u16); // descender
    push_u16(&mut t, 0); // line gap
    push_u16(&mut t, 500); // max advance
    for _ in 0..11 {
        push_u16(&mut t, 0); // bearings, extents, slope, caret, reserved
    }
    push_u16(&mut t, 0); // metric data format
    push_u16(&mut t, 1); // number of h metrics
    t
}

fn maxp_table() -> Vec<u8> {
    let mut t = Vec::new();
    push_u32(&mut t, 0x00005000); // version 0.5
    push_u16(&mut t, 1); // number of glyphs
    t
}

fn hmtx_table() -> Vec<u8> {
    let mut t = Vec::new();
    push_u16(&mut t, 500); // advance of glyph 0
    push_u16(&mut t, 0); // left side bearing
    t
}

/// A minimal TrueType face: head, hhea, maxp and hmtx only.
fn tiny_font() -> Vec<u8> {
    let tables: Vec<([u8; 4], Vec<u8>)> = vec![
        (*b"head", head_table()),
        (*b"hhea", hhea_table()),
        (*b"hmtx", hmtx_table()),
        (*b"maxp", maxp_table()),
    ];
    let mut font = Vec::new();
    push_u32(&mut font, 0x00010000); // sfnt version
    push_u16(&mut font, tables.len() as u16);
    push_u16(&mut font, 64); // search range
    push_u16(&mut font, 2); // entry selector
    push_u16(&mut font, 0); // range shift
    let mut offset = 12 + 16 * tables.len() as u32;
    let mut records = Vec::new();
    let mut body = Vec::new();
    for (tag, data) in &tables {
        records.extend_from_slice(tag);
        push_u32(&mut records, 0); // checksum, not validated
        push_u32(&mut records, offset);
        push_u32(&mut records, data.len() as u32);
        offset += data.len() as u32;
        while offset % 4 != 0 {
            offset += 1;
        }
        body.extend_from_slice(data);
        while body.len() % 4 != 0 {
            body.push(0);
        }
    }
    font.extend_from_slice(&records);
    font.extend_from_slice(&body);
    font
}

fn tiny_face() -> FontFace {
    FontFace::parse(tiny_font()).expect("the hand-built face must parse")
}

#[test]
fn face_parse_reads_the_head_table() {
    let face = tiny_face();
    assert_eq!(face.upem(), 1000);
    assert!(FontFace::parse(vec![1, 2, 3, 4]).is_none());
}

#[test]
fn measure_scales_advances_by_size() {
    let face = tiny_face();
    // Two one-em glyphs: twice the font size.
    assert_eq!(text_width(&face, "ab", 10000), 20000);
    assert_eq!(text_width(&face, "ab", 0), 0);
    assert_eq!(text_width(&face, "", 10000), 0);
}

#[test]
fn wrap_closes_lines_on_overflow() {
    let face = tiny_face();
    // Each character is 10000 milli wide at size 10000; "aa bb" measures
    // 50000, "aa bb cc" measures 80000.
    let (text, count, high) = wrap_text(&face, "aa bb cc", 10000, 50000);
    assert_eq!(text, "aa bb\ncc");
    assert_eq!(count, 2);
    assert_eq!(high, 50000);
}

#[test]
fn wrap_keeps_oversized_word_alone() {
    let face = tiny_face();
    let (text, count, high) = wrap_text(&face, "aaaaaaaa b", 10000, 20000);
    assert_eq!(text, "aaaaaaaa\nb");
    assert_eq!(count, 2);
    assert_eq!(high, 80000);
}

#[test]
fn wrap_is_idempotent_on_its_own_output() {
    let face = tiny_face();
    for input in ["aa bb cc", "one  two   three four", "x", "", "  spaced  out  "] {
        let (once, count1, high1) = wrap_text(&face, input, 10000, 50000);
        let (twice, count2, high2) = wrap_text(&face, &once, 10000, 50000);
        assert_eq!(once, twice);
        assert_eq!(count1, count2);
        assert_eq!(high1, high2);
    }
}

#[test]
fn fit_returns_a_size_within_the_box() {
    let face = tiny_face();
    // "hello" is five sizes wide; the width cap binds at size 5000.
    let fitted = fit_text_font_size(&face, "hello", 25000, 50000);
    let (text, size) = fitted.expect("a box admitting the floor size must fit");
    assert_eq!(text, "hello");
    assert!(1000 <= size && size <= 5000);
    assert!(size > 4500);
    // The fitting conditions hold at the chosen size.
    let (_, count, high) = wrap_text(&face, "hello", size, 25000);
    assert!(high <= 25000);
    assert!(count as i64 * size * 12 <= 50000 * 10);
}

#[test]
fn fit_refuses_a_degenerate_box() {
    let face = tiny_face();
    assert!(fit_text_font_size(&face, "hello", 10, 10).is_none());
}

#[test]
fn hard_wrap_breaks_at_the_character_count() {
    assert_eq!(hard_wrap_by_chars("abcdef", 2), "ab\ncd\nef");
    assert_eq!(hard_wrap_by_chars("ab\ncdef", 3), "ab\ncde\nf");
    assert_eq!(hard_wrap_by_chars("abc", 5), "abc");
    // A zero limit puts a break before every character.
    assert_eq!(hard_wrap_by_chars("ab", 0), "\na\nb");
}

#[test]
fn char_limit_zero_passes_text_through() {
    assert_eq!(wrap_text_at_char_limit("abcdef", 0), "abcdef");
    assert_eq!(wrap_text_at_char_limit("abcdef", 2), "ab\ncd\nef");
}

#[test]
fn font_tags_follow_the_family() {
    assert_eq!(get_font_pdf_name(&FontType::Serif, &FontWeight::Bold, false), "pdf-Serif");
    assert_eq!(get_font_pdf_name(&FontType::SansSerif, &FontWeight::Light, true), "pdf-SansSerif");
    assert_eq!(get_font_pdf_name(&FontType::Mono, &FontWeight::Regular, false), "pdf-Mono");
    assert_eq!(get_font_pdf_name(&FontType::Cursive, &FontWeight::Regular, false), "pdf-Cursive");
}

#[test]
fn fit_settles_on_the_same_size_every_time() {
    let face = tiny_face();
    let first = fit_text_font_size(&face, "hello there", 40000, 30000);
    let second = fit_text_font_size(&face, "hello there", 40000, 30000);
    let (t1, s1) = first.expect("the box admits the floor");
    let (t2, s2) = second.expect("the box admits the floor");
    assert_eq!(s1, s2);
    assert_eq!(t1, t2);
}
