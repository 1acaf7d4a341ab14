use canvas_craft::codec::EncodeError;
use canvas_craft::font::FontError;
use canvas_craft::surface::Surface;
use canvas_craft::text::GlyphRaster;

fn full_glyph(left: i64, top: i64, w: usize, h: usize) -> GlyphRaster {
    GlyphRaster { left, top, width: w, height: h, coverage: vec![255; w * h] }
}

#[test]
fn draw_text_without_font_is_silent_noop() {
    let mut s = Surface::new(4, 4);
    s.clear(50, 60, 70, 80);
    let (_, _, _, before) = s.read_pixels();
    let glyphs = vec![full_glyph(0, 0, 3, 3)];
    s.draw_text(&glyphs, 255, 255, 255, 255);
    let (_, _, _, after) = s.read_pixels();
    assert_eq!(before, after);
}

#[test]
fn load_font_rejects_invalid_bytes() {
    let mut s = Surface::new(2, 2);
    let res = s.load_font(vec![1, 2, 3, 4, 5, 6, 7, 8]);
    assert_eq!(res, Err(FontError::ParseFailed));
    assert!(!s.has_font());
    // the surface pixels are untouched by the failed load
    let (_, _, _, bytes) = s.read_pixels();
    assert!(bytes.iter().all(|&b| b == 0));
}

#[test]
fn font_scale_is_stored() {
    let mut s = Surface::new(2, 2);
    assert_eq!(s.font_scale_milli(), 18000);
    s.set_font_size(24500);
    assert_eq!(s.font_scale_milli(), 24500);
}

#[test]
fn encode_webp_produces_riff_container() {
    let mut s = Surface::new(3, 2);
    s.clear(255, 0, 0, 255);
    let bytes = s.encode_webp().expect("lossless encode of a small surface");
    assert!(bytes.len() > 12);
    assert_eq!(&bytes[0..4], b"RIFF");
    assert_eq!(&bytes[8..12], b"WEBP");
}

#[test]
fn encode_webp_rejects_oversized_canvas() {
    let s = Surface::new(16385, 1);
    assert_eq!(s.encode_webp(), Err(EncodeError::EncodeFailed));
}

#[test]
fn encode_webp_depends_on_pixels() {
    let mut s1 = Surface::new(2, 2);
    s1.clear(255, 0, 0, 255);
    let b1 = s1.encode_webp().expect("encode");
    let mut s2 = Surface::new(2, 2);
    s2.clear(0, 0, 255, 255);
    let b2 = s2.encode_webp().expect("encode");
    assert_ne!(b1, b2);
}
