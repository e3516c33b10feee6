use softraster::fixed::FX_ONE;
use softraster::rasterizer::{make_font, Image};
use softraster::render::types::{Color as RgbColor, Vertex2, Vertex3};
use softraster::renderer::types::{Axis, Color as TermColor};

fn fx(v: f64) -> i64 {
    (v * 65536.0).round() as i64
}

#[test]
fn color_packing_round_trip() {
    let packed = Image::rbg_to_u32(12, 34, 56);
    assert_eq!(packed, 0x0c2238);
    assert_eq!(Image::u32_to_rgb(packed), (12, 34, 56));
    assert_eq!(Image::u32_to_rgb(Image::rbg_to_u32(255, 0, 255)), (255, 0, 255));
}

#[test]
fn rgb_color_packs() {
    let c = RgbColor::new(1, 2, 3);
    assert_eq!(c.to_u32(), 0x010203);
    let c = RgbColor::from((9, 8, 7, 255));
    assert_eq!((c.r, c.g, c.b), (9, 8, 7));
    // Nothing is promised of a random color beyond being a color.
    let _ = RgbColor::random();
}

#[test]
fn term_color_glyphs() {
    assert_eq!(TermColor::new(0, 0, 0, 255).as_char(), ' ');
    assert_eq!(TermColor::new(255, 255, 255, 255).as_char(), '@');
    let mid = TermColor::new(128, 128, 128, 255);
    let g = mid.as_char();
    assert!(g == '=' || g == '+');
    let s = TermColor::new(255, 0, 0, 255).display();
    assert_eq!(s, "\u{1b}[38;2;255;0;0m+\u{1b}[0m".replace('+', &TermColor::new(255, 0, 0, 255).as_char().to_string()));
    assert!(s.starts_with("\u{1b}[38;2;"));
    assert!(s.ends_with("\u{1b}[0m"));
}

#[test]
fn font_has_every_glyph() {
    let font = make_font();
    assert_eq!(font.len(), 67);
    let a = font.iter().find(|e| e.0 == 'A').unwrap();
    assert_eq!(a.1, [0, 1, 0, 1, 0, 1, 1, 1, 1, 1, 0, 1, 1, 0, 1]);
    let dash = font.iter().find(|e| e.0 == '-').unwrap();
    assert_eq!(dash.1, [0, 0, 0, 0, 0, 0, 1, 1, 1, 0, 0, 0, 0, 0, 0]);
}

#[test]
fn image_new_clear_and_reversed_pixels() {
    let mut img = Image::new(4, 2);
    assert_eq!(img.pixels.len(), 8);
    img.draw_point(Vertex2::new(0, 0), 0xabcdef);
    assert!(img.pixels.iter().any(|&p| p == 0xabcdef));
    let rev = img.get_pixels();
    for i in 0..8 {
        assert_eq!(rev[i], img.pixels[7 - i]);
    }
    img.clear();
    assert!(img.pixels.iter().all(|&p| p == 0));
}

#[test]
fn draw_point_lands_on_the_mirrored_column() {
    let mut img = Image::new(4, 4);
    // Point (0,0) recenters to pixel (2,2); the column mirrors to 4-1-2 = 1.
    img.draw_point(Vertex2::new(0, 0), 7);
    assert_eq!(img.pixels[2 * 4 + 1], 7);
    // A far-away point clamps to the nearest edge instead of panicking.
    img.draw_point(Vertex2::new(fx(1000.0), fx(-1000.0)), 9);
    assert_eq!(img.pixels[0 * 4 + 0], 9);
}

#[test]
fn triangle_fills_touch_only_their_color() {
    let mut img = Image::new(16, 16);
    img.draw_triangle1(
        Vertex2::new(fx(-5.0), fx(-5.0)),
        Vertex2::new(fx(5.0), fx(-5.0)),
        Vertex2::new(fx(0.0), fx(5.0)),
        0x00ff00,
    );
    assert!(img.pixels.iter().any(|&p| p == 0x00ff00));
    assert!(img.pixels.iter().all(|&p| p == 0 || p == 0x00ff00));
    let snapshot = img.pixels.clone();
    // The same fill through the other inside tests agrees on coverage.
    let mut img2 = Image::new(16, 16);
    img2.draw_triangle2(
        Vertex2::new(fx(-5.0), fx(-5.0)),
        Vertex2::new(fx(5.0), fx(-5.0)),
        Vertex2::new(fx(0.0), fx(5.0)),
        0x00ff00,
    );
    assert_eq!(img2.pixels, snapshot);
    let mut img3 = Image::new(16, 16);
    img3.draw_triangle3(
        Vertex2::new(fx(-5.0), fx(-5.0)),
        Vertex2::new(fx(5.0), fx(-5.0)),
        Vertex2::new(fx(0.0), fx(5.0)),
        0x00ff00,
    );
    assert_eq!(img3.pixels, snapshot);
    let mut img4 = Image::new(16, 16);
    img4.draw_triangle4(
        Vertex2::new(fx(-5.0), fx(-5.0)),
        Vertex2::new(fx(5.0), fx(-5.0)),
        Vertex2::new(fx(0.0), fx(5.0)),
        0x00ff00,
    );
    assert_eq!(img4.pixels, snapshot);
}

#[test]
fn conditions_give_edge_coefficients() {
    let a = Vertex2::new(0, 0);
    let b = Vertex2::new(10, 0);
    let c = Vertex2::new(0, 10);
    let (e0, e1, e2) = Image::conditions(a, b, c);
    assert_eq!(e0, (0, -10, 0));
    assert_eq!(e1, (10, 10, -100));
    assert_eq!(e2, (-10, 0, 0));
    // Their constant terms sum to twice the signed area.
    assert_eq!(e0.2 + e1.2 + e2.2, -100);
}

#[test]
fn draw_text_writes_glyph_blocks() {
    let mut img = Image::new(32, 32);
    let text: Vec<char> = "A".chars().collect();
    img.draw_text(&text, Vertex2::new(0, 0), 0xffffff, 1);
    assert!(img.pixels.iter().any(|&p| p == 0xffffff));
    assert!(img.pixels.iter().all(|&p| p == 0 || p == 0xffffff));
}

#[test]
fn translate_and_rotate_points() {
    let p = Vertex3::new(fx(1.0), fx(2.0), fx(3.0));
    let t = Image::translate(p, Vertex3::new(fx(0.5), fx(-1.0), 0));
    assert_eq!((t.x, t.y, t.z), (fx(1.5), fx(1.0), fx(3.0)));
    // A zero-angle rotation about every axis moves nothing.
    let r = Image::rotate_angle(p, 0, FX_ONE, (true, true, true));
    assert_eq!((r.x, r.y, r.z), (p.x, p.y, p.z));
    // A quarter turn about z takes x onto y.
    let r = Image::rotate_angle(Vertex3::new(FX_ONE, 0, 0), FX_ONE, 0, (false, false, true));
    assert_eq!((r.x, r.y, r.z), (0, FX_ONE, 0));
}

#[test]
fn project_3d_to_2d_scales_by_depth() {
    let img = Image::new(64, 64);
    let p = img
        .project_3d_to_2d(Vertex3::new(fx(1.0), 0, fx(2.0)), Vertex3::new(0, 0, 0), 32 * FX_ONE)
        .unwrap();
    assert_eq!(p.x, 16 * FX_ONE);
    assert_eq!(p.y, 0);
    assert!(img
        .project_3d_to_2d(Vertex3::new(0, 0, fx(-2.0)), Vertex3::new(0, 0, 0), 32 * FX_ONE)
        .is_none());
}

#[test]
fn bmp_bytes_encode_the_image() {
    let mut img = Image::new(2, 2);
    img.draw_point(Vertex2::new(fx(-1.0), fx(-1.0)), 0x112233);
    let bytes = img.bmp_bytes();
    // 2 pixels * 3 bytes = 6, padded to 8 per row; 54 header bytes.
    assert_eq!(bytes.len(), 54 + 8 * 2);
    assert_eq!(&bytes[0..2], b"BM");
    assert_eq!(u32::from_le_bytes(bytes[2..6].try_into().unwrap()), 54 + 16);
    assert_eq!(u32::from_le_bytes(bytes[18..22].try_into().unwrap()), 2);
    assert_eq!(u32::from_le_bytes(bytes[22..26].try_into().unwrap()), 2);
    assert_eq!(u16::from_le_bytes(bytes[28..30].try_into().unwrap()), 24);
    // Rows are stored bottom-up, each pixel blue-green-red.
    let idx = img.pixels.iter().position(|&p| p == 0x112233).unwrap();
    let (y, x) = (idx / 2, idx % 2);
    let base = 54 + (2 - 1 - y) * 8 + 3 * x;
    assert_eq!(&bytes[base..base + 3], &[0x33, 0x22, 0x11]);
}

#[test]
fn axis_values_are_distinct() {
    assert_ne!(Axis::X, Axis::Y);
    assert_ne!(Axis::Y, Axis::Z);
}

#[test]
fn draw_text_places_glyph_bits() {
    let mut img = Image::new(32, 32);
    let text: Vec<char> = "A".chars().collect();
    img.draw_text(&text, Vertex2::new(0, 0), 0xffffff, 1);
    // 'A' begins [0, 1, 0]: its one set bit of row 0 sits at column 1, so the
    // pixel lands at point (1, 0): recentered (17, 16), column mirrored to 14.
    assert_eq!(img.pixels[16 * 32 + (32 - 1 - 17)], 0xffffff);
    // Column 0 of row 0 is clear: point (0, 0) stays black.
    assert_eq!(img.pixels[16 * 32 + (32 - 1 - 16)], 0);
}

#[test]
fn triangle_fills_leave_outside_cells_alone() {
    let mut img = Image::new(16, 16);
    img.draw_point(Vertex2::new(fx(7.0), fx(7.0)), 0x123456);
    let corner = img.pixels.iter().position(|&p| p == 0x123456).unwrap();
    img.draw_triangle1(
        Vertex2::new(fx(-5.0), fx(-5.0)),
        Vertex2::new(fx(5.0), fx(-5.0)),
        Vertex2::new(fx(0.0), fx(5.0)),
        0x00ff00,
    );
    // The marked cell is far from the triangle and keeps its color.
    assert_eq!(img.pixels[corner], 0x123456);
}
