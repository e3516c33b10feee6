//! The data model of the pipeline: vectors, rotation matrices, colors, the
//! frame-buffer size, the camera, and the mesh that the loader produces.
//!
//! Coordinates are fixed-point `i64` values (see `crate::fixed`): a rotation is
//! built from the sine and cosine of its angle, handed in as fixed-point values
//! scaled by `FX_ONE`, since trigonometry itself is left to the caller.

use crate::fixed::{div_floor_wide, FX_ONE};
use vstd::prelude::*;

verus! {

/// A point or direction on the screen plane, both coordinates fixed-point.
#[derive(Clone, Copy, PartialEq, Eq, Structural, Debug)]
pub struct Vertex2 {
    pub x: i64,
    pub y: i64,
}

impl Vertex2 {
    pub fn new(x: i64, y: i64) -> (v: Vertex2)
        ensures
            v.x == x && v.y == y,
    {
        Vertex2 { x, y }
    }

    /// Componentwise sum.
    pub fn add(self, rhs: Vertex2) -> (v: Vertex2)
        requires
            i64::MIN <= self.x + rhs.x <= i64::MAX,
            i64::MIN <= self.y + rhs.y <= i64::MAX,
        ensures
            v.x == self.x + rhs.x,
            v.y == self.y + rhs.y,
    {
        Vertex2 { x: self.x + rhs.x, y: self.y + rhs.y }
    }

    /// Scale by a fixed-point factor, flooring each component.
    pub fn mul(self, rhs: i64) -> (v: Vertex2)
        requires
            i64::MIN <= self.x as int * rhs as int / FX_ONE as int <= i64::MAX,
            i64::MIN <= self.y as int * rhs as int / FX_ONE as int <= i64::MAX,
        ensures
            v.x == self.x as int * rhs as int / FX_ONE as int,
            v.y == self.y as int * rhs as int / FX_ONE as int,
    {
        Vertex2 { x: crate::fixed::fx_mul(self.x, rhs), y: crate::fixed::fx_mul(self.y, rhs) }
    }
}

/// A point or direction in world or camera space, fixed-point.
#[derive(Clone, Copy, PartialEq, Eq, Structural, Debug)]
pub struct Vertex3 {
    pub x: i64,
    pub y: i64,
    pub z: i64,
}

impl Vertex3 {
    pub fn new(x: i64, y: i64, z: i64) -> (v: Vertex3)
        ensures
            v.x == x && v.y == y && v.z == z,
    {
        Vertex3 { x, y, z }
    }

    /// Componentwise sum.
    pub fn add(self, rhs: Vertex3) -> (v: Vertex3)
        requires
            i64::MIN <= self.x + rhs.x <= i64::MAX,
            i64::MIN <= self.y + rhs.y <= i64::MAX,
            i64::MIN <= self.z + rhs.z <= i64::MAX,
        ensures
            v.x == self.x + rhs.x,
            v.y == self.y + rhs.y,
            v.z == self.z + rhs.z,
    {
        Vertex3 { x: self.x + rhs.x, y: self.y + rhs.y, z: self.z + rhs.z }
    }

    /// Scale by a fixed-point factor, flooring each component.
    pub fn mul(self, rhs: i64) -> (v: Vertex3)
        requires
            i64::MIN <= self.x as int * rhs as int / FX_ONE as int <= i64::MAX,
            i64::MIN <= self.y as int * rhs as int / FX_ONE as int <= i64::MAX,
            i64::MIN <= self.z as int * rhs as int / FX_ONE as int <= i64::MAX,
        ensures
            v.x == self.x as int * rhs as int / FX_ONE as int,
            v.y == self.y as int * rhs as int / FX_ONE as int,
            v.z == self.z as int * rhs as int / FX_ONE as int,
    {
        Vertex3 {
            x: crate::fixed::fx_mul(self.x, rhs),
            y: crate::fixed::fx_mul(self.y, rhs),
            z: crate::fixed::fx_mul(self.z, rhs),
        }
    }
}

/// One texture coordinate pair, fixed-point: 1.0 is `FX_ONE`.
#[derive(Clone, Copy, PartialEq, Eq, Structural, Debug)]
pub struct TextureCoordinate {
    pub u: i64,
    pub v: i64,
}

impl TextureCoordinate {
    pub fn new(u: i64, v: i64) -> (t: TextureCoordinate)
        ensures
            t.u == u && t.v == v,
    {
        TextureCoordinate { u, v }
    }
}

/// What `row * m` floors to, per component, for a 3x3 fixed-point matrix.
pub open spec fn mat_apply_x(m: M3x3, v: Vertex3) -> int {
    (m.m00 * v.x + m.m01 * v.y + m.m02 * v.z) / FX_ONE as int
}

pub open spec fn mat_apply_y(m: M3x3, v: Vertex3) -> int {
    (m.m10 * v.x + m.m11 * v.y + m.m12 * v.z) / FX_ONE as int
}

pub open spec fn mat_apply_z(m: M3x3, v: Vertex3) -> int {
    (m.m20 * v.x + m.m21 * v.y + m.m22 * v.z) / FX_ONE as int
}

/// A 3x3 fixed-point matrix, row major: `mRC` is row R, column C.
#[derive(Clone, Copy, PartialEq, Eq, Structural, Debug)]
pub struct M3x3 {
    pub m00: i64,
    pub m01: i64,
    pub m02: i64,
    pub m10: i64,
    pub m11: i64,
    pub m12: i64,
    pub m20: i64,
    pub m21: i64,
    pub m22: i64,
}

/// All entries of the matrix lie within one fixed-point unit, as the entries
/// of a rotation matrix do.
pub open spec fn mat_bounded(m: M3x3) -> bool {
    &&& -FX_ONE <= m.m00 <= FX_ONE
    &&& -FX_ONE <= m.m01 <= FX_ONE
    &&& -FX_ONE <= m.m02 <= FX_ONE
    &&& -FX_ONE <= m.m10 <= FX_ONE
    &&& -FX_ONE <= m.m11 <= FX_ONE
    &&& -FX_ONE <= m.m12 <= FX_ONE
    &&& -FX_ONE <= m.m20 <= FX_ONE
    &&& -FX_ONE <= m.m21 <= FX_ONE
    &&& -FX_ONE <= m.m22 <= FX_ONE
}

impl M3x3 {
    /// Rotation about the x axis, from the fixed-point sine and cosine of the
    /// angle (the standard right-handed formula).
    pub fn x_rotation_matrix(sin_t: i64, cos_t: i64) -> (m: M3x3)
        requires
            -FX_ONE <= sin_t <= FX_ONE,
            -FX_ONE <= cos_t <= FX_ONE,
        ensures
            m == (M3x3 {
                m00: FX_ONE, m01: 0i64, m02: 0i64,
                m10: 0i64, m11: cos_t, m12: (0 - sin_t) as i64,
                m20: 0i64, m21: sin_t, m22: cos_t,
            }),
    {
        M3x3 {
            m00: FX_ONE, m01: 0, m02: 0,
            m10: 0, m11: cos_t, m12: -sin_t,
            m20: 0, m21: sin_t, m22: cos_t,
        }
    }

    /// Rotation about the y axis.
    pub fn y_rotation_matrix(sin_t: i64, cos_t: i64) -> (m: M3x3)
        requires
            -FX_ONE <= sin_t <= FX_ONE,
            -FX_ONE <= cos_t <= FX_ONE,
        ensures
            m == (M3x3 {
                m00: cos_t, m01: 0i64, m02: sin_t,
                m10: 0i64, m11: FX_ONE, m12: 0i64,
                m20: (0 - sin_t) as i64, m21: 0i64, m22: cos_t,
            }),
    {
        M3x3 {
            m00: cos_t, m01: 0, m02: sin_t,
            m10: 0, m11: FX_ONE, m12: 0,
            m20: -sin_t, m21: 0, m22: cos_t,
        }
    }

    /// Rotation about the z axis.
    pub fn z_rotation_matrix(sin_t: i64, cos_t: i64) -> (m: M3x3)
        requires
            -FX_ONE <= sin_t <= FX_ONE,
            -FX_ONE <= cos_t <= FX_ONE,
        ensures
            m == (M3x3 {
                m00: cos_t, m01: (0 - sin_t) as i64, m02: 0i64,
                m10: sin_t, m11: cos_t, m12: 0i64,
                m20: 0i64, m21: 0i64, m22: FX_ONE,
            }),
    {
        M3x3 {
            m00: cos_t, m01: -sin_t, m02: 0,
            m10: sin_t, m11: cos_t, m12: 0,
            m20: 0, m21: 0, m22: FX_ONE,
        }
    }

    /// Row-vector times matrix: each component of the result is the exact
    /// fixed-point dot product of `v` with one row, floored once.
    pub fn mul(self, v: Vertex3) -> (r: Vertex3)
        requires
            mat_bounded(self),
            i64::MIN <= mat_apply_x(self, v) <= i64::MAX,
            i64::MIN <= mat_apply_y(self, v) <= i64::MAX,
            i64::MIN <= mat_apply_z(self, v) <= i64::MAX,
        ensures
            r.x == mat_apply_x(self, v),
            r.y == mat_apply_y(self, v),
            r.z == mat_apply_z(self, v),
    {
        proof {
            crate::fixed::lemma_mul_abs_bound(self.m00 as int, v.x as int, 0x1_0000, 0x8000_0000_0000_0000);
            crate::fixed::lemma_mul_abs_bound(self.m01 as int, v.y as int, 0x1_0000, 0x8000_0000_0000_0000);
            crate::fixed::lemma_mul_abs_bound(self.m02 as int, v.z as int, 0x1_0000, 0x8000_0000_0000_0000);
            crate::fixed::lemma_mul_abs_bound(self.m10 as int, v.x as int, 0x1_0000, 0x8000_0000_0000_0000);
            crate::fixed::lemma_mul_abs_bound(self.m11 as int, v.y as int, 0x1_0000, 0x8000_0000_0000_0000);
            crate::fixed::lemma_mul_abs_bound(self.m12 as int, v.z as int, 0x1_0000, 0x8000_0000_0000_0000);
            crate::fixed::lemma_mul_abs_bound(self.m20 as int, v.x as int, 0x1_0000, 0x8000_0000_0000_0000);
            crate::fixed::lemma_mul_abs_bound(self.m21 as int, v.y as int, 0x1_0000, 0x8000_0000_0000_0000);
            crate::fixed::lemma_mul_abs_bound(self.m22 as int, v.z as int, 0x1_0000, 0x8000_0000_0000_0000);
        }
        let px: i128 = (self.m00 as i128) * (v.x as i128) + (self.m01 as i128) * (v.y as i128)
            + (self.m02 as i128) * (v.z as i128);
        let py: i128 = (self.m10 as i128) * (v.x as i128) + (self.m11 as i128) * (v.y as i128)
            + (self.m12 as i128) * (v.z as i128);
        let pz: i128 = (self.m20 as i128) * (v.x as i128) + (self.m21 as i128) * (v.y as i128)
            + (self.m22 as i128) * (v.z as i128);
        let rx = div_floor_wide(px, FX_ONE as i128);
        let ry = div_floor_wide(py, FX_ONE as i128);
        let rz = div_floor_wide(pz, FX_ONE as i128);
        Vertex3 { x: rx as i64, y: ry as i64, z: rz as i64 }
    }
}

/// An opaque color with 8-bit channels.
#[derive(Clone, Copy, PartialEq, Eq, Structural, Debug)]
pub struct Color {
    pub r: u8,
    pub g: u8,
    pub b: u8,
}

impl Color {
    pub fn new(r: u8, g: u8, b: u8) -> (c: Color)
        ensures
            c.r == r && c.g == g && c.b == b,
    {
        Color { r, g, b }
    }

    /// Pack as 0x00RRGGBB.
    pub fn to_u32(&self) -> (p: u32)
        ensures
            p == self.r as int * 0x1_0000 + self.g as int * 0x100 + self.b as int,
    {
        (self.r as u32) * 0x1_0000 + (self.g as u32) * 0x100 + (self.b as u32)
    }

    /// A color with channels drawn from the process's random generator.
    /// Relies on `rand::random_range` for each channel; nothing is promised of
    /// the outcome.
    #[verifier::external_body]
    pub fn random() -> Color {
        Color {
            r: rand::random_range(0..=255u8),
            g: rand::random_range(0..=255u8),
            b: rand::random_range(0..=255u8),
        }
    }
}

impl From<(u8, u8, u8, u8)> for Color {
    /// Keep the color channels of an RGBA quadruple, dropping alpha.
    fn from(value: (u8, u8, u8, u8)) -> (c: Color) {
        Color { r: value.0, g: value.1, b: value.2 }
    }
}

impl vstd::std_specs::convert::FromSpecImpl<(u8, u8, u8, u8)> for Color {
    open spec fn obeys_from_spec() -> bool {
        true
    }

    open spec fn from_spec(value: (u8, u8, u8, u8)) -> Color {
        Color { r: value.0, g: value.1, b: value.2 }
    }
}

/// The extent of a frame buffer, in pixels.
#[derive(Clone, PartialEq, Eq, Structural, Debug)]
pub struct FrameBufferSize {
    pub width: usize,
    pub height: usize,
}

impl FrameBufferSize {
    pub fn new(width: usize, height: usize) -> (s: FrameBufferSize)
        ensures
            s.width == width && s.height == height,
    {
        FrameBufferSize { width, height }
    }
}

/// The eye of the scene: a position and a focal length.
///
/// The focal length stands for `(screen_height / 2) / tan(fov / 2)` in
/// fixed-point pixels; the caller computes it from the field of view, since
/// the tangent, like every trigonometric value here, is supplied from outside.
#[derive(Clone, Copy, PartialEq, Eq, Structural, Debug)]
pub struct Camera {
    pub x: i64,
    pub y: i64,
    pub z: i64,
    pub focal_length: i64,
}

impl Camera {
    pub fn new(position: Vertex3, focal_length: i64) -> (c: Camera)
        ensures
            c.x == position.x && c.y == position.y && c.z == position.z,
            c.focal_length == focal_length,
    {
        Camera { x: position.x, y: position.y, z: position.z, focal_length }
    }
}

/// A triangulated mesh: vertex positions, texture coordinates, and for each
/// triangle a triple of vertex indices and (where the face carried them) a
/// parallel triple of texture-coordinate indices.
#[derive(Clone, Debug)]
pub struct Mesh {
    pub vertices: Vec<Vertex3>,
    pub texture_coordinates: Vec<TextureCoordinate>,
    pub vertex_indices: Vec<(usize, usize, usize)>,
    pub texture_coordinate_indices: Vec<(usize, usize, usize)>,
}

impl Mesh {
    pub fn new(
        vertices: Vec<Vertex3>,
        texture_coordinates: Vec<TextureCoordinate>,
        vertex_indices: Vec<(usize, usize, usize)>,
        texture_coordinate_indices: Vec<(usize, usize, usize)>,
    ) -> (m: Mesh)
        ensures
            m.vertices == vertices,
            m.texture_coordinates == texture_coordinates,
            m.vertex_indices == vertex_indices,
            m.texture_coordinate_indices == texture_coordinate_indices,
    {
        Mesh { vertices, texture_coordinates, vertex_indices, texture_coordinate_indices }
    }
}

} // verus!
