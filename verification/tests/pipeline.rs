use softraster::fixed::FX_ONE;
use softraster::render::types::{Camera, FrameBufferSize, Mesh, TextureCoordinate, Vertex2, Vertex3};
use softraster::renderer::model::{Model, TextureMap};
use softraster::renderer::rasterizer::{rotate_model, Screen, DEPTH_INF};
use softraster::renderer::types::Axis;

fn fx(v: f64) -> i64 {
    (v * 65536.0).round() as i64
}

fn solid_texture(r: u8, g: u8, b: u8) -> TextureMap {
    TextureMap::new(1, 1, vec![r, g, b, 255])
}

fn uv_triple() -> Option<(TextureCoordinate, TextureCoordinate, TextureCoordinate)> {
    let t = TextureCoordinate::new(0, 0);
    Some((t, t, t))
}

fn tri(
    ax: f64,
    ay: f64,
    bx: f64,
    by: f64,
    cx: f64,
    cy: f64,
    z: i64,
) -> ((Vertex2, i64), (Vertex2, i64), (Vertex2, i64)) {
    (
        (Vertex2::new(fx(ax), fx(ay)), z),
        (Vertex2::new(fx(bx), fx(by)), z),
        (Vertex2::new(fx(cx), fx(cy)), z),
    )
}

#[test]
fn point_in_triangle_classifies() {
    let a = Vertex2::new(fx(0.0), fx(0.0));
    let b = Vertex2::new(fx(10.0), fx(0.0));
    let c = Vertex2::new(fx(0.0), fx(10.0));
    assert!(Screen::point_in_triangle(a, b, c, Vertex2::new(fx(1.0), fx(1.0))));
    assert!(!Screen::point_in_triangle(a, b, c, Vertex2::new(fx(20.0), fx(20.0))));
    // A vertex itself classifies inside: the test is boundary-inclusive.
    assert!(Screen::point_in_triangle(a, b, c, a));
    assert!(Screen::point_in_triangle(a, b, c, b));
    // Winding order does not matter.
    assert!(Screen::point_in_triangle(c, b, a, Vertex2::new(fx(1.0), fx(1.0))));
}

#[test]
fn depth_test_order_independent() {
    let near = tri(-6.0, -6.0, 6.0, -6.0, 0.0, 6.0, fx(2.0));
    let far = tri(-6.0, -6.0, 6.0, -6.0, 0.0, 6.0, fx(5.0));
    let red = Some(solid_texture(255, 0, 0));
    let blue = Some(solid_texture(0, 0, 255));

    let mut s1 = Screen::new(FrameBufferSize::new(16, 16));
    s1.draw_triangle(far, uv_triple(), &blue);
    s1.draw_triangle(near, uv_triple(), &red);

    let mut s2 = Screen::new(FrameBufferSize::new(16, 16));
    s2.draw_triangle(near, uv_triple(), &red);
    s2.draw_triangle(far, uv_triple(), &blue);

    assert_eq!(s1.frame_buffer(), s2.frame_buffer());
    assert_eq!(s1.depth_buffer, s2.depth_buffer);
    // The center pixel holds the nearer (red) triangle's color either way.
    let center = 8 * 16 + 8;
    assert_eq!(s1.frame_buffer()[center], 0xff0000);
    assert_eq!(s1.depth_buffer[center], fx(2.0));
}

#[test]
fn draw_triangle_rejects_nothing_silently_behind_depth() {
    // A triangle drawn farther than what the buffer holds leaves it alone.
    let near = tri(-6.0, -6.0, 6.0, -6.0, 0.0, 6.0, fx(2.0));
    let far = tri(-6.0, -6.0, 6.0, -6.0, 0.0, 6.0, fx(5.0));
    let red = Some(solid_texture(255, 0, 0));
    let blue = Some(solid_texture(0, 0, 255));
    let mut s = Screen::new(FrameBufferSize::new(16, 16));
    s.draw_triangle(near, uv_triple(), &red);
    let snapshot = s.frame_buffer().clone();
    s.draw_triangle(far, uv_triple(), &blue);
    assert_eq!(*s.frame_buffer(), snapshot);
}

#[test]
fn texture_sampling_corners_and_clamp() {
    // 2x2 texture, rows top-down: (r0c0 red, r0c1 green), (r1c0 blue, r1c1 white).
    let rgba = vec![
        255, 0, 0, 255, 0, 255, 0, 255, // top row
        0, 0, 255, 255, 255, 255, 255, 255, // bottom row
    ];
    let t = TextureMap::new(2, 2, rgba);
    // UV (0,0): u -> column 0; v flipped -> bottom row: blue.
    let c = t.get_pixel(TextureCoordinate::new(0, 0)).unwrap();
    assert_eq!((c.r, c.g, c.b), (0, 0, 255));
    // UV (1,1): column 1, flipped to top row: green.
    let c = t.get_pixel(TextureCoordinate::new(FX_ONE, FX_ONE)).unwrap();
    assert_eq!((c.r, c.g, c.b), (0, 255, 0));
    // Out-of-range UVs clamp before any indexing.
    let c = t.get_pixel(TextureCoordinate::new(-99 * FX_ONE, 42 * FX_ONE)).unwrap();
    assert_eq!((c.r, c.g, c.b), (255, 0, 0));
    let c = t.get_pixel(TextureCoordinate::new(99 * FX_ONE, -42 * FX_ONE)).unwrap();
    assert_eq!((c.r, c.g, c.b), (255, 255, 255));
}

fn cube_obj() -> &'static [u8] {
    b"v -1 -1 -1\nv 1 -1 -1\nv 1 1 -1\nv -1 1 -1\nv -1 -1 1\nv 1 -1 1\nv 1 1 1\nv -1 1 1\n\
      vt 0 0\nvt 1 0\nvt 1 1\nvt 0 1\n\
      f 1/1 2/2 3/3 4/4\n\
      f 5/1 6/2 7/3 8/4\n\
      f 1/1 2/2 6/3 5/4\n\
      f 4/1 3/2 7/3 8/4\n\
      f 1/1 4/2 8/3 5/4\n\
      f 2/1 3/2 7/3 6/4\n"
}

#[test]
fn end_to_end_cube_draws_and_clears() {
    let mesh = Mesh::from_text(cube_obj()).unwrap();
    assert_eq!(mesh.vertices.len(), 8);
    assert_eq!(mesh.vertex_indices.len(), 12);
    let model = Model::new(mesh, Some(solid_texture(200, 100, 50)));
    // Camera at (0,0,-5), fov 90 degrees: focal length = (h/2) / tan(45) = h/2.
    let size = FrameBufferSize::new(64, 64);
    let camera = Camera::new(Vertex3::new(0, 0, fx(-5.0)), 32 * FX_ONE);
    let mut screen = Screen::new(size);
    screen.clear();
    screen.draw_model(&model, camera);
    assert!(screen.frame_buffer().iter().any(|&p| p != 0));
    screen.clear();
    assert!(screen.frame_buffer().iter().all(|&p| p == 0));
    assert!(screen.depth_buffer.iter().all(|&d| d == DEPTH_INF));
}

#[test]
fn rotation_by_zero_angle_is_identity() {
    let mesh = Mesh::from_text(cube_obj()).unwrap();
    let mut model = Model::new(mesh, None);
    let before = model.mesh.vertices.clone();
    let screen = Screen::new(FrameBufferSize::new(8, 8));
    screen.rotate_model(&mut model, (1, 1, 1), 0, FX_ONE);
    assert_eq!(model.mesh.vertices, before);
    rotate_model(&mut model, Axis::X, 0, FX_ONE);
    rotate_model(&mut model, Axis::Y, 0, FX_ONE);
    rotate_model(&mut model, Axis::Z, 0, FX_ONE);
    assert_eq!(model.mesh.vertices, before);
}

#[test]
fn rotation_by_full_turn_returns_vertices() {
    let mesh = Mesh::from_text(cube_obj()).unwrap();
    let mut model = Model::new(mesh, None);
    let before = model.mesh.vertices.clone();
    let theta = 2.0 * std::f64::consts::PI;
    let sin_t = fx(theta.sin());
    let cos_t = fx(theta.cos());
    // The fixed-point sine and cosine of a full turn land exactly on (0, 1).
    assert_eq!((sin_t, cos_t), (0, FX_ONE));
    rotate_model(&mut model, Axis::Y, sin_t, cos_t);
    for (a, b) in model.mesh.vertices.iter().zip(before.iter()) {
        assert!((a.x - b.x).abs() <= 1 && (a.y - b.y).abs() <= 1 && (a.z - b.z).abs() <= 1);
    }
}

#[test]
fn quarter_turn_moves_axes_onto_each_other() {
    let mesh = Mesh::from_text(b"v 1 0 0\n").unwrap();
    let mut model = Model::new(mesh, None);
    // 90 degrees about z: (1, 0, 0) -> (0, 1, 0).
    rotate_model(&mut model, Axis::Z, FX_ONE, 0);
    let v = model.mesh.vertices[0];
    assert_eq!((v.x, v.y, v.z), (0, FX_ONE, 0));
}

#[test]
fn projection_carries_camera_space_depth() {
    let screen = Screen::new(FrameBufferSize::new(64, 64));
    let camera = Camera::new(Vertex3::new(0, 0, 0), 32 * FX_ONE);
    // A point two units ahead, one unit right: x' = 1 * 32 / 2 = 16 pixels.
    let p = screen
        .project_point(Vertex3::new(fx(1.0), 0, fx(2.0)), camera)
        .unwrap();
    assert_eq!(p.0.x, 16 * FX_ONE);
    assert_eq!(p.0.y, 0);
    assert_eq!(p.1, fx(2.0));
    // A point behind the camera is rejected for the frame.
    assert!(screen
        .project_point(Vertex3::new(0, 0, fx(-1.0)), camera)
        .is_none());
    // World-up maps to negative screen y.
    let p = screen
        .project_point(Vertex3::new(0, fx(1.0), fx(2.0)), camera)
        .unwrap();
    assert!(p.0.y < 0);
}

#[test]
fn model_loads_texture_through_image_decode() {
    // Encode a 2x1 PNG through the image crate, then load it back through the
    // library: the decoded buffer must hold exactly those pixels.
    let mut img = image::RgbaImage::new(2, 1);
    img.put_pixel(0, 0, image::Rgba([10, 20, 30, 255]));
    img.put_pixel(1, 0, image::Rgba([40, 50, 60, 255]));
    let mut png: Vec<u8> = Vec::new();
    image::DynamicImage::ImageRgba8(img)
        .write_to(&mut std::io::Cursor::new(&mut png), image::ImageFormat::Png)
        .unwrap();
    let model = Model::from_bytes(b"v 0 0 0\n", &png).unwrap();
    let tex = model.texture_map.unwrap();
    assert_eq!((tex.width, tex.height), (2, 1));
    assert_eq!(tex.rgba, vec![10, 20, 30, 255, 40, 50, 60, 255]);
    // Bytes that are no image fail the load without touching the mesh result.
    assert!(Model::from_bytes(b"v 0 0 0\n", b"not an image").is_err());
}

#[test]
fn interpolation_pairs_attributes_with_their_own_corners() {
    // One-pixel screen: the pixel center sits exactly on corner a. With
    // distinct corner depths and UVs, the stored depth must be corner a's own
    // depth and the sampled texel corner a's own coordinate.
    let a = (Vertex2::new(0, 0), fx(2.0));
    let b = (Vertex2::new(fx(10.0), 0), fx(3.0));
    let c = (Vertex2::new(0, fx(10.0)), fx(4.0));
    // 2x2 texture: bottom-left (after the v-flip of UV (0,0)) is blue.
    let rgba = vec![
        255, 0, 0, 255, 0, 255, 0, 255, // top row
        0, 0, 255, 255, 255, 255, 255, 255, // bottom row
    ];
    let tex = Some(TextureMap::new(2, 2, rgba));
    let uv = Some((
        TextureCoordinate::new(0, 0),
        TextureCoordinate::new(FX_ONE, FX_ONE),
        TextureCoordinate::new(FX_ONE, 0),
    ));
    let mut s = Screen::new(FrameBufferSize::new(1, 1));
    s.draw_triangle((a, b, c), uv, &tex);
    assert_eq!(s.depth_buffer[0], fx(2.0));
    // Corner a's UV (0,0) samples the bottom-left texel: blue.
    assert_eq!(s.frame_buffer()[0], 0x0000ff);
}

#[test]
fn interpolated_depth_midway_between_corners() {
    // A wide flat triangle: the pixel at x = 4 lies midway along the edge
    // from a (depth 2) to b (depth 6), so the interpolated depth is 4.
    let a = (Vertex2::new(0, fx(0.0)), fx(2.0));
    let b = (Vertex2::new(fx(8.0), 0), fx(6.0));
    let c = (Vertex2::new(fx(4.0), fx(8.0)), fx(2.0));
    let mut s = Screen::new(FrameBufferSize::new(32, 32));
    s.draw_triangle((a, b, c), uv_triple(), &Some(solid_texture(9, 9, 9)));
    let idx = (0 + 16) * 32 + (4 + 16);
    assert_eq!(s.depth_buffer[idx], fx(4.0));
}
