use canvas_craft::color::Color;
use canvas_craft::shader::Stop;
use canvas_craft::surface::Surface;

fn pixel(buf: &[u8], w: usize, x: usize, y: usize) -> [u8; 4] {
    let i = (y * w + x) * 4;
    [buf[i], buf[i + 1], buf[i + 2], buf[i + 3]]
}

#[test]
fn create_then_read_zero() {
    let s = Surface::new(3, 2);
    let (w, h, stride, bytes) = s.read_pixels();
    assert_eq!(w, 3);
    assert_eq!(h, 2);
    assert_eq!(stride, 12);
    assert_eq!(bytes.len(), 24);
    assert!(bytes.iter().all(|&b| b == 0));
}

#[test]
fn create_clamps_to_minimum() {
    let s = Surface::new(0, -5);
    let (w, h, stride, bytes) = s.read_pixels();
    assert_eq!((w, h, stride), (1, 1, 4));
    assert_eq!(bytes, vec![0, 0, 0, 0]);
}

#[test]
fn create_wide_surface_keeps_width() {
    let s = Surface::new(20000, 5);
    let (w, h, stride, bytes) = s.read_pixels();
    assert_eq!((w, h, stride), (20000, 5, 80000));
    assert_eq!(bytes.len(), 400000);
    assert!(bytes.iter().all(|&b| b == 0));
}

#[test]
fn clear_then_read_uniform() {
    let mut s = Surface::new(2, 2);
    s.clear(10, 20, 30, 40);
    let (_, _, _, bytes) = s.read_pixels();
    for p in 0..4 {
        assert_eq!(&bytes[p * 4..p * 4 + 4], &[10, 20, 30, 40]);
    }
}

#[test]
fn clear_replaces_without_blending() {
    let mut s = Surface::new(2, 1);
    s.clear(200, 200, 200, 255);
    s.clear(1, 2, 3, 4);
    let (_, _, _, bytes) = s.read_pixels();
    assert_eq!(&bytes[0..4], &[1, 2, 3, 4]);
}

#[test]
fn rect_nonpositive_size_noop() {
    let mut s = Surface::new(4, 4);
    s.clear(9, 9, 9, 9);
    let (_, _, _, before) = s.read_pixels();
    s.fill_rect(1, 1, 0, 3, 255, 255, 255, 255);
    s.fill_rect(1, 1, 3, -2, 255, 255, 255, 255);
    let (_, _, _, after) = s.read_pixels();
    assert_eq!(before, after);
}

#[test]
fn rect_fully_left_of_surface_noop() {
    let mut s = Surface::new(3, 3);
    let (_, _, _, before) = s.read_pixels();
    s.fill_rect(-10, 0, 5, 5, 255, 0, 0, 255);
    let (_, _, _, after) = s.read_pixels();
    assert_eq!(before, after);
}

#[test]
fn opaque_rect_on_transparent_is_exact() {
    let mut s = Surface::new(4, 4);
    s.fill_rect(1, 1, 2, 1, 200, 100, 50, 255);
    let (w, _, _, bytes) = s.read_pixels();
    assert_eq!(pixel(&bytes, w, 1, 1), [200, 100, 50, 255]);
    assert_eq!(pixel(&bytes, w, 2, 1), [200, 100, 50, 255]);
    assert_eq!(pixel(&bytes, w, 0, 1), [0, 0, 0, 0]);
    assert_eq!(pixel(&bytes, w, 3, 1), [0, 0, 0, 0]);
    assert_eq!(pixel(&bytes, w, 1, 0), [0, 0, 0, 0]);
    assert_eq!(pixel(&bytes, w, 1, 2), [0, 0, 0, 0]);
}

#[test]
fn half_alpha_white_over_opaque_black() {
    let mut s = Surface::new(2, 2);
    s.clear(0, 0, 0, 255);
    s.fill_rect(0, 0, 2, 2, 255, 255, 255, 128);
    let (w, _, _, bytes) = s.read_pixels();
    // out_a = 1; channel = round(255 * 128 / 255) = 128
    assert_eq!(pixel(&bytes, w, 0, 0), [128, 128, 128, 255]);
}

#[test]
fn half_alpha_white_over_transparent() {
    let mut s = Surface::new(2, 2);
    s.fill_rect(0, 0, 2, 2, 255, 255, 255, 128);
    let (w, _, _, bytes) = s.read_pixels();
    // straight alpha: color survives at full strength, alpha is 128
    assert_eq!(pixel(&bytes, w, 0, 0), [255, 255, 255, 128]);
}

#[test]
fn circle_nonpositive_radius_noop() {
    let mut s = Surface::new(5, 5);
    s.clear(7, 7, 7, 7);
    let (_, _, _, before) = s.read_pixels();
    s.fill_circle(20, 20, 0, 255, 255, 255, 255);
    s.fill_circle(20, 20, -16, 255, 255, 255, 255);
    let (_, _, _, after) = s.read_pixels();
    assert_eq!(before, after);
}

#[test]
fn opaque_circle_center_pixel_exact() {
    let mut s = Surface::new(9, 9);
    // center of pixel (4,4) is (36,36) in subpixel units; radius 3 pixels
    s.fill_circle(36, 36, 24, 10, 200, 30, 255);
    let (w, _, _, bytes) = s.read_pixels();
    assert_eq!(pixel(&bytes, w, 4, 4), [10, 200, 30, 255]);
    // a corner far outside the circle is untouched
    assert_eq!(pixel(&bytes, w, 0, 0), [0, 0, 0, 0]);
}

#[test]
fn one_sample_antialias_is_binary() {
    let mut s = Surface::new(12, 12);
    s.set_antialias(false);
    s.fill_circle(48, 48, 32, 255, 255, 255, 255);
    let (_, _, _, bytes) = s.read_pixels();
    for p in 0..144 {
        let a = bytes[p * 4 + 3];
        assert!(a == 0 || a == 255);
    }
}

#[test]
fn four_sample_antialias_has_fractional_edge() {
    let mut s = Surface::new(12, 12);
    s.fill_circle(48, 48, 32, 255, 255, 255, 255);
    let (_, _, _, bytes) = s.read_pixels();
    let fractional = (0..144)
        .filter(|p| {
            let a = bytes[p * 4 + 3];
            a != 0 && a != 255
        })
        .count();
    assert!(fractional >= 1);
}

#[test]
fn eight_sample_antialias_has_fractional_edge() {
    let mut s = Surface::new(12, 12);
    s.set_antialias_samples(8);
    assert_eq!(s.aa_samples, 8);
    s.fill_circle(48, 48, 32, 255, 255, 255, 255);
    let (_, _, _, bytes) = s.read_pixels();
    let fractional = (0..144)
        .filter(|p| {
            let a = bytes[p * 4 + 3];
            a != 0 && a != 255
        })
        .count();
    assert!(fractional >= 1);
}

#[test]
fn antialias_level_fallback() {
    let mut s = Surface::new(2, 2);
    s.set_antialias_samples(7);
    assert_eq!(s.aa_samples, 4);
    s.set_antialias_samples(1);
    assert_eq!(s.aa_samples, 1);
    s.set_antialias_samples(8);
    assert_eq!(s.aa_samples, 8);
    s.set_antialias(true);
    assert_eq!(s.aa_samples, 4);
    s.set_antialias(false);
    assert_eq!(s.aa_samples, 1);
}

#[test]
fn second_draw_changes_pixels() {
    let mut s = Surface::new(6, 6);
    s.fill_circle(24, 24, 16, 255, 0, 0, 128);
    let (_, _, _, once) = s.read_pixels();
    s.fill_circle(24, 24, 16, 255, 0, 0, 128);
    let (_, _, _, twice) = s.read_pixels();
    assert_ne!(once, twice);
}

#[test]
fn replay_on_fresh_surface_is_identical() {
    let draw = |s: &mut Surface| {
        s.set_antialias_samples(8);
        s.fill_rect(1, 0, 3, 4, 12, 34, 56, 200);
        s.fill_circle(20, 20, 18, 250, 128, 9, 77);
        let stops = vec![
            Stop { offset_milli: 0, color: Color::new(255, 0, 0, 255) },
            Stop { offset_milli: 500, color: Color::new(9, 9, 9, 9) },
            Stop { offset_milli: 1000, color: Color::new(0, 0, 255, 40) },
        ];
        s.set_radial_gradient(16, 16, 24, &stops);
        s.draw_oval(16, 16, 20, 28);
    };
    let mut s1 = Surface::new(6, 7);
    draw(&mut s1);
    let mut s2 = Surface::new(6, 7);
    draw(&mut s2);
    assert_eq!(s1.read_pixels().3, s2.read_pixels().3);
}

#[test]
fn oval_without_shader_matches_documented_fallback() {
    let mut s1 = Surface::new(8, 8);
    s1.draw_oval(32, 32, 20, 24);
    let mut s2 = Surface::new(8, 8);
    let stops = vec![
        Stop { offset_milli: 0, color: Color::new(0, 0, 0, 255) },
        Stop { offset_milli: 1000, color: Color::new(0, 0, 0, 0) },
    ];
    s2.set_radial_gradient(32, 32, 20, &stops);
    s2.draw_oval(32, 32, 20, 24);
    assert_eq!(s1.read_pixels().3, s2.read_pixels().3);
}

#[test]
fn oval_negative_radii_use_absolute_value() {
    let mut s1 = Surface::new(8, 8);
    s1.draw_oval(32, 32, 20, 24);
    let mut s2 = Surface::new(8, 8);
    s2.draw_oval(32, 32, -20, -24);
    assert_eq!(s1.read_pixels().3, s2.read_pixels().3);
}

#[test]
fn gradient_start_color_at_center() {
    let mut s = Surface::new(4, 4);
    s.set_antialias(false);
    let stops = vec![
        Stop { offset_milli: 0, color: Color::new(255, 0, 0, 255) },
        Stop { offset_milli: 1000, color: Color::new(0, 0, 255, 0) },
    ];
    // gradient centered on the center of pixel (1,1)
    s.set_radial_gradient(12, 12, 16, &stops);
    s.draw_oval(12, 12, 16, 16);
    let (w, _, _, bytes) = s.read_pixels();
    assert_eq!(pixel(&bytes, w, 1, 1), [255, 0, 0, 255]);
}

#[test]
fn gradient_ignores_interior_stops() {
    let ends = |mid: Color| {
        vec![
            Stop { offset_milli: 0, color: Color::new(200, 10, 10, 255) },
            Stop { offset_milli: 500, color: mid },
            Stop { offset_milli: 1000, color: Color::new(10, 10, 200, 50) },
        ]
    };
    let mut s1 = Surface::new(6, 6);
    let stops1 = ends(Color::new(0, 255, 0, 255));
    s1.set_radial_gradient(24, 24, 20, &stops1);
    s1.draw_oval(24, 24, 20, 20);
    let mut s2 = Surface::new(6, 6);
    let stops2 = ends(Color::new(123, 45, 67, 89));
    s2.set_radial_gradient(24, 24, 20, &stops2);
    s2.draw_oval(24, 24, 20, 20);
    assert_eq!(s1.read_pixels().3, s2.read_pixels().3);
}

#[test]
fn circle_leaves_far_pixels_untouched() {
    let mut s = Surface::new(8, 8);
    s.clear(5, 6, 7, 8);
    // a small circle around the center of pixel (2,2)
    s.fill_circle(20, 20, 8, 255, 255, 255, 255);
    let (w, _, _, bytes) = s.read_pixels();
    assert_eq!(pixel(&bytes, w, 7, 7), [5, 6, 7, 8]);
    assert_eq!(pixel(&bytes, w, 0, 7), [5, 6, 7, 8]);
    assert_eq!(pixel(&bytes, w, 6, 0), [5, 6, 7, 8]);
}
