use softraster::render::obj::ParseError;
use softraster::render::types::Mesh;

fn fx(v: f64) -> i64 {
    (v * 65536.0).round() as i64
}

#[test]
fn obj_round_trip_quad() {
    let text = b"v 0 0 0\nv 1 0 0\nv 1 1 0\nv 0 1 0\nf 1 2 3 4\n";
    let mesh = Mesh::from_text(text).unwrap();
    assert_eq!(mesh.vertices.len(), 4);
    assert_eq!(mesh.vertex_indices, vec![(0, 1, 2), (0, 2, 3)]);
    assert!(mesh.texture_coordinates.is_empty());
    assert!(mesh.texture_coordinate_indices.is_empty());
}

#[test]
fn obj_round_trip_many_vertices() {
    let mut text = String::new();
    for i in 0..9 {
        text.push_str(&format!("v {} 0 0\n", i));
    }
    text.push_str("f 1 3 5 7\n");
    let mesh = Mesh::from_text(text.as_bytes()).unwrap();
    assert_eq!(mesh.vertices.len(), 9);
    assert_eq!(mesh.vertex_indices, vec![(0, 2, 4), (0, 4, 6)]);
}

#[test]
fn obj_numbers_parse_to_fixed_point() {
    let mesh = Mesh::from_text(b"v 1.5 -2 0.25\n").unwrap();
    let v = mesh.vertices[0];
    assert_eq!(v.x, fx(1.5));
    assert_eq!(v.y, fx(-2.0));
    assert_eq!(v.z, fx(0.25));
}

#[test]
fn obj_fraction_digits_past_six_are_checked_but_dropped() {
    let mesh = Mesh::from_text(b"v 0.9999999 0 0\n").unwrap();
    // Only the first six fraction digits contribute: 0.999999 * 65536 floored.
    assert_eq!(mesh.vertices[0].x, (0.999999f64 * 65536.0).floor() as i64);
    assert!(Mesh::from_text(b"v 0.99999x9 0 0\n").is_err());
}

#[test]
fn obj_texcoords_and_faces_with_slashes() {
    let text = b"v 0 0 0\nv 1 0 0\nv 0 1 0\nvt 0 0\nvt 1 0\nvt 0 1\nvn 0 0 1\nf 1/1/1 2/2/1 3/3/1\n";
    let mesh = Mesh::from_text(text).unwrap();
    assert_eq!(mesh.texture_coordinates.len(), 3);
    assert_eq!(mesh.vertex_indices, vec![(0, 1, 2)]);
    assert_eq!(mesh.texture_coordinate_indices, vec![(0, 1, 2)]);
}

#[test]
fn obj_texcoord_triples_need_every_corner() {
    // One corner lacks a vt reference: vertex triples come, texcoord triples do not.
    let text = b"v 0 0 0\nv 1 0 0\nv 0 1 0\nvt 0 0\nvt 1 0\nvt 0 1\nf 1/1 2/2 3\n";
    let mesh = Mesh::from_text(text).unwrap();
    assert_eq!(mesh.vertex_indices, vec![(0, 1, 2)]);
    assert!(mesh.texture_coordinate_indices.is_empty());
}

#[test]
fn obj_comments_and_unknown_directives_are_skipped() {
    let text = b"# a comment\n\ng group\nusemtl things\nv 1 2 3\n";
    let mesh = Mesh::from_text(text).unwrap();
    assert_eq!(mesh.vertices.len(), 1);
}

#[test]
fn obj_bad_vertex_arity() {
    assert_eq!(Mesh::from_text(b"v 1 2\n").unwrap_err(), ParseError::BadVertex);
    assert_eq!(Mesh::from_text(b"v 1 2 3 4\n").unwrap_err(), ParseError::BadVertex);
    assert_eq!(Mesh::from_text(b"v 1 x 3\n").unwrap_err(), ParseError::BadVertex);
}

#[test]
fn obj_bad_texcoord() {
    assert_eq!(Mesh::from_text(b"vt 1\n").unwrap_err(), ParseError::BadTexcoord);
    assert_eq!(Mesh::from_text(b"vt 1 y\n").unwrap_err(), ParseError::BadTexcoord);
}

#[test]
fn obj_bad_normal() {
    assert_eq!(Mesh::from_text(b"vn 1 zz 3\n").unwrap_err(), ParseError::BadNormal);
}

#[test]
fn obj_bad_face() {
    assert_eq!(Mesh::from_text(b"v 0 0 0\nf 1 1\n").unwrap_err(), ParseError::BadFace);
    assert_eq!(Mesh::from_text(b"v 0 0 0\nf 1 1 0\n").unwrap_err(), ParseError::BadFace);
    assert_eq!(Mesh::from_text(b"v 0 0 0\nf 1 1 1/2/3/4\n").unwrap_err(), ParseError::BadFace);
}

#[test]
fn obj_number_out_of_range() {
    assert_eq!(Mesh::from_text(b"v 99999999 0 0\n").unwrap_err(), ParseError::NumberOutOfRange);
}

#[test]
fn obj_index_out_of_bounds() {
    assert_eq!(Mesh::from_text(b"v 0 0 0\nv 1 0 0\nf 1 2 3\n").unwrap_err(), ParseError::IndexOutOfBounds);
    let text = b"v 0 0 0\nv 1 0 0\nv 0 1 0\nvt 0 0\nf 1/1 2/2 3/1\n";
    assert_eq!(Mesh::from_text(text).unwrap_err(), ParseError::IndexOutOfBounds);
}

#[test]
fn obj_no_partial_mesh_on_late_error() {
    // The error comes after two good vertices: the whole load still fails.
    assert!(Mesh::from_text(b"v 0 0 0\nv 1 0 0\nv bad 0 0\n").is_err());
}
