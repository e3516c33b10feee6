//! The rasterizer: a `Screen` owns the frame buffer and the depth buffer and
//! fills triangles into them.
//!
//! Vertices are projected through the camera; each triangle's pixels are found
//! with three edge functions whose signs make a winding-order-agnostic inside
//! test; depth is the barycentric combination of the carried camera-space z
//! values, tested against the depth buffer so that occlusion is independent of
//! draw order; texture coordinates are interpolated perspective-correctly
//! (u/z, v/z and 1/z combined affinely, then divided out).
//!
//! Every per-pixel step below is stated as a specification function over the
//! integers, and `draw_triangle`'s contract says that the two buffers become
//! exactly the pointwise image of those functions.

use crate::fixed::{div_floor_wide, FX_ONE};
use crate::render::types::{Camera, Color, FrameBufferSize, Mesh, TextureCoordinate, Vertex2, Vertex3};
use crate::renderer::model::{spec_get_pixel, tex_wf, Model, TextureMap};
use crate::renderer::types::Axis;
use vstd::arithmetic::div_mod::{
    lemma_div_is_ordered, lemma_fundamental_div_mod, lemma_fundamental_div_mod_converse,
};
use vstd::prelude::*;

verus! {

/// The depth buffer's initial value: farther than any drawable surface.
pub const DEPTH_INF: i64 = 0x7fff_ffff_ffff_ffff;

/// The color written where texture sampling fails, so that missing coverage
/// stays visible rather than silently skipped.
pub const FALLBACK_COLOR: u32 = 0xff00ff;

/// Largest screen-plane coordinate magnitude (fixed point) a drawable
/// triangle's vertices and texture coordinates may carry.
pub const RASTER_LIMIT: i64 = 0x1000_0000;

/// Largest camera-space depth a drawable vertex may carry.
pub const Z_LIMIT: i64 = 0x100_0000_0000;

/// Widest frame buffer edge accepted: half an edge stays within
/// `RASTER_LIMIT`, so no projected point that survives projection can lie on
/// the buffer yet outside the rasterizer's numeric range.
pub const SCREEN_DIM_LIMIT: usize = 0x2000;

/// The edge function of the directed edge (q, r) at (x, y): a linear form
/// whose sign says on which side of the edge the point lies.
pub open spec fn edge_fn(qx: int, qy: int, rx: int, ry: int, x: int, y: int) -> int {
    (ry - qy) * x + (qx - rx) * y + (rx * qy - qx * ry)
}

/// The winding-order-agnostic inside test: all three edge values share a sign
/// (zero lying on both sides, so edges and vertices count as inside).
pub open spec fn inside_pt(
    ax: int,
    ay: int,
    bx: int,
    by: int,
    cx: int,
    cy: int,
    x: int,
    y: int,
) -> bool {
    let e0 = edge_fn(ax, ay, bx, by, x, y);
    let e1 = edge_fn(bx, by, cx, cy, x, y);
    let e2 = edge_fn(cx, cy, ax, ay, x, y);
    (e0 >= 0 && e1 >= 0 && e2 >= 0) || (e0 <= 0 && e1 <= 0 && e2 <= 0)
}

/// Twice the triangle's signed area: the constant sum of the three edge
/// functions at every point.
pub open spec fn tri_den(a: Vertex2, b: Vertex2, c: Vertex2) -> int {
    (b.x * a.y - a.x * b.y) + (c.x * b.y - b.x * c.y) + (a.x * c.y - c.x * a.y)
}

/// The sign by which the edge values are normalized: -1 for negative winding.
pub open spec fn sgn(d: int) -> int {
    if d < 0 {
        -1
    } else {
        1
    }
}

/// The sum of the three edge functions at any point is `tri_den`.
pub proof fn lemma_edge_sum(a: Vertex2, b: Vertex2, c: Vertex2, x: int, y: int)
    by (nonlinear_arith)
    ensures
        edge_fn(a.x as int, a.y as int, b.x as int, b.y as int, x, y) + edge_fn(
            b.x as int,
            b.y as int,
            c.x as int,
            c.y as int,
            x,
            y,
        ) + edge_fn(c.x as int, c.y as int, a.x as int, a.y as int, x, y) == tri_den(a, b, c),
{
}

/// Every vertex of a triangle classifies inside it: its two incident edge
/// functions vanish there, so all three values share a sign.
pub proof fn lemma_vertex_inside(a: Vertex2, b: Vertex2, c: Vertex2)
    ensures
        inside_pt(
            a.x as int,
            a.y as int,
            b.x as int,
            b.y as int,
            c.x as int,
            c.y as int,
            a.x as int,
            a.y as int,
        ),
{
    assert(edge_fn(a.x as int, a.y as int, b.x as int, b.y as int, a.x as int, a.y as int)
        == 0) by (nonlinear_arith);
    assert(edge_fn(c.x as int, c.y as int, a.x as int, a.y as int, a.x as int, a.y as int)
        == 0) by (nonlinear_arith);
}


/// The normalized edge value of edge (a, b) at the center of pixel
/// (px, py): the raw edge value, flipped where the winding is negative, so
/// that inside pixels carry three nonnegative values.
pub open spec fn pe0(a: Vertex2, b: Vertex2, c: Vertex2, px: int, py: int) -> int {
    sgn(tri_den(a, b, c)) * edge_fn(
        a.x as int,
        a.y as int,
        b.x as int,
        b.y as int,
        px * FX_ONE,
        py * FX_ONE,
    )
}

pub open spec fn pe1(a: Vertex2, b: Vertex2, c: Vertex2, px: int, py: int) -> int {
    sgn(tri_den(a, b, c)) * edge_fn(
        b.x as int,
        b.y as int,
        c.x as int,
        c.y as int,
        px * FX_ONE,
        py * FX_ONE,
    )
}

pub open spec fn pe2(a: Vertex2, b: Vertex2, c: Vertex2, px: int, py: int) -> int {
    sgn(tri_den(a, b, c)) * edge_fn(
        c.x as int,
        c.y as int,
        a.x as int,
        a.y as int,
        px * FX_ONE,
        py * FX_ONE,
    )
}

/// Twice the triangle's area, made positive.
pub open spec fn sden(a: Vertex2, b: Vertex2, c: Vertex2) -> int {
    sgn(tri_den(a, b, c)) * tri_den(a, b, c)
}

/// Whether the center of pixel (px, py) lies in the triangle.
pub open spec fn pix_inside(a: Vertex2, b: Vertex2, c: Vertex2, px: int, py: int) -> bool {
    inside_pt(
        a.x as int,
        a.y as int,
        b.x as int,
        b.y as int,
        c.x as int,
        c.y as int,
        px * FX_ONE,
        py * FX_ONE,
    )
}

/// The interpolated camera-space depth at a pixel: the barycentric
/// combination of the three carried z values (affine interpolation, enough
/// because only the ordering matters for the depth test). The value of edge
/// (a, b) vanishes along that edge, so it is the weight of the opposite
/// corner c; likewise edge (b, c) weighs a and edge (c, a) weighs b.
pub open spec fn pix_depth(
    a: Vertex2,
    b: Vertex2,
    c: Vertex2,
    za: int,
    zb: int,
    zc: int,
    px: int,
    py: int,
) -> int {
    (pe0(a, b, c, px, py) * zc + pe1(a, b, c, px, py) * za + pe2(a, b, c, px, py) * zb) / sden(
        a,
        b,
        c,
    )
}

/// The fixed-point reciprocal of a camera-space depth.
pub open spec fn z_recip(z: int) -> int {
    0x1_0000_0000int / z
}

/// A texture coordinate divided by its vertex's depth, fixed point.
pub open spec fn uv_over_z(u: int, z: int) -> int {
    u * z_recip(z) / FX_ONE as int
}

/// The interpolated 1/z at a pixel (not yet divided by the area).
pub open spec fn pix_rnum(
    a: Vertex2,
    b: Vertex2,
    c: Vertex2,
    za: int,
    zb: int,
    zc: int,
    px: int,
    py: int,
) -> int {
    pe0(a, b, c, px, py) * z_recip(zc) + pe1(a, b, c, px, py) * z_recip(za) + pe2(a, b, c, px, py)
        * z_recip(zb)
}

/// The perspective-correct texture coordinate at a pixel: u/z interpolated
/// affinely, divided by the interpolated 1/z, clamped into [0, 1] as sampling
/// would clamp it anyway.
pub open spec fn pix_uvq(
    a: Vertex2,
    b: Vertex2,
    c: Vertex2,
    za: int,
    zb: int,
    zc: int,
    ua: int,
    ub: int,
    uc: int,
    px: int,
    py: int,
) -> int {
    crate::renderer::model::clamp_fx(
        (pe0(a, b, c, px, py) * uv_over_z(uc, zc) + pe1(a, b, c, px, py) * uv_over_z(ua, za) + pe2(
            a,
            b,
            c,
            px,
            py,
        ) * uv_over_z(ub, zb)) * FX_ONE / pix_rnum(a, b, c, za, zb, zc, px, py),
    )
}

/// A packed 0x00RRGGBB color.
pub open spec fn pack_color(c: Color) -> int {
    c.r * 0x1_0000 + c.g * 0x100 + c.b
}

/// The color a pixel of the triangle gets: the texture sampled at the
/// perspective-correct coordinate, or the fallback color where there is no
/// texture, the interpolated 1/z vanished, or sampling missed.
pub open spec fn pix_color(
    a: Vertex2,
    b: Vertex2,
    c: Vertex2,
    za: int,
    zb: int,
    zc: int,
    uv: Option<(TextureCoordinate, TextureCoordinate, TextureCoordinate)>,
    tex: Option<TextureMap>,
    px: int,
    py: int,
) -> u32 {
    match (uv, tex) {
        (Some(t3), Some(t)) => if pix_rnum(a, b, c, za, zb, zc, px, py) > 0 {
            let uq = pix_uvq(a, b, c, za, zb, zc, t3.0.u as int, t3.1.u as int, t3.2.u as int, px, py);
            let vq = pix_uvq(a, b, c, za, zb, zc, t3.0.v as int, t3.1.v as int, t3.2.v as int, px, py);
            match spec_get_pixel(t, TextureCoordinate { u: uq as i64, v: vq as i64 }) {
                Some(col) => pack_color(col) as u32,
                None => FALLBACK_COLOR,
            }
        } else {
            FALLBACK_COLOR
        },
        _ => FALLBACK_COLOR,
    }
}

/// The buffer index of pixel (px, py): the origin sits at the buffer's
/// center.
pub open spec fn pix_index(px: int, py: int, w: int, h: int) -> int {
    (py + h / 2) * w + (px + w / 2)
}

/// The least x of the three, floored to a pixel column.
pub open spec fn min3(p: int, q: int, r: int) -> int {
    if p <= q && p <= r {
        p
    } else if q <= r {
        q
    } else {
        r
    }
}

pub open spec fn max3(p: int, q: int, r: int) -> int {
    if p >= q && p >= r {
        p
    } else if q >= r {
        q
    } else {
        r
    }
}

/// The fixed-point coordinate's pixel column, floored.
pub open spec fn pix_floor(v: int) -> int {
    v / FX_ONE as int
}

/// The bounding box of the triangle, clamped to the buffer's pixel range.
pub open spec fn bbox_x0(a: Vertex2, b: Vertex2, c: Vertex2, w: int) -> int {
    let m = pix_floor(min3(a.x as int, b.x as int, c.x as int));
    if m < -(w / 2) {
        -(w / 2)
    } else {
        m
    }
}

pub open spec fn bbox_x1(a: Vertex2, b: Vertex2, c: Vertex2, w: int) -> int {
    let m = pix_floor(max3(a.x as int, b.x as int, c.x as int));
    if m > w - 1 - w / 2 {
        w - 1 - w / 2
    } else {
        m
    }
}

pub open spec fn bbox_y0(a: Vertex2, b: Vertex2, c: Vertex2, h: int) -> int {
    let m = pix_floor(min3(a.y as int, b.y as int, c.y as int));
    if m < -(h / 2) {
        -(h / 2)
    } else {
        m
    }
}

pub open spec fn bbox_y1(a: Vertex2, b: Vertex2, c: Vertex2, h: int) -> int {
    let m = pix_floor(max3(a.y as int, b.y as int, c.y as int));
    if m > h - 1 - h / 2 {
        h - 1 - h / 2
    } else {
        m
    }
}

/// Whether drawing the triangle writes pixel (px, py), the depth test aside:
/// the pixel lies in the clamped bounding box, the triangle is not
/// degenerate, and the pixel center passes the inside test.
pub open spec fn tri_active(
    a: Vertex2,
    b: Vertex2,
    c: Vertex2,
    px: int,
    py: int,
    w: int,
    h: int,
) -> bool {
    &&& bbox_x0(a, b, c, w) <= px <= bbox_x1(a, b, c, w)
    &&& bbox_y0(a, b, c, h) <= py <= bbox_y1(a, b, c, h)
    &&& tri_den(a, b, c) != 0
    &&& pix_inside(a, b, c, px, py)
}

/// The frame buffer after one triangle: pointwise, a pixel takes the
/// triangle's color where it is active, in front of the camera, and closer
/// than what the depth buffer held; every other pixel keeps its color.
#[verifier::opaque]
pub open spec fn draw_fb(
    fb: Seq<u32>,
    db: Seq<i64>,
    a: Vertex2,
    b: Vertex2,
    c: Vertex2,
    za: int,
    zb: int,
    zc: int,
    uv: Option<(TextureCoordinate, TextureCoordinate, TextureCoordinate)>,
    tex: Option<TextureMap>,
    w: int,
    h: int,
) -> Seq<u32> {
    Seq::new(
        fb.len(),
        |i: int|
            {
                let px = i % w - w / 2;
                let py = i / w - h / 2;
                if tri_active(a, b, c, px, py, w, h) && 0 < pix_depth(a, b, c, za, zb, zc, px, py)
                    < db[i] {
                    pix_color(a, b, c, za, zb, zc, uv, tex, px, py)
                } else {
                    fb[i]
                }
            },
    )
}

/// The depth buffer after one triangle, pointwise as `draw_fb`.
#[verifier::opaque]
pub open spec fn draw_db(
    fb: Seq<u32>,
    db: Seq<i64>,
    a: Vertex2,
    b: Vertex2,
    c: Vertex2,
    za: int,
    zb: int,
    zc: int,
    w: int,
    h: int,
) -> Seq<i64> {
    Seq::new(
        db.len(),
        |i: int|
            {
                let px = i % w - w / 2;
                let py = i / w - h / 2;
                if tri_active(a, b, c, px, py, w, h) && 0 < pix_depth(a, b, c, za, zb, zc, px, py)
                    < db[i] {
                    pix_depth(a, b, c, za, zb, zc, px, py) as i64
                } else {
                    db[i]
                }
            },
    )
}


/// Sets one pixel to the background color.
fn zero_cell(p: &mut u32)
    ensures
        *final(p) == 0,
{
    *p = 0;
}

/// Sets one depth cell back to farther-than-everything.
fn inf_cell(d: &mut i64)
    ensures
        *final(d) == DEPTH_INF,
{
    *d = DEPTH_INF;
}

/// Relies on rayon's `par_iter_mut().for_each`: the closure runs once on every
/// element, so the buffer keeps its length and every pixel is zeroed.
#[verifier::external_body]
fn par_zero(buf: &mut Vec<u32>)
    ensures
        final(buf)@.len() == old(buf)@.len(),
        forall|i: int| 0 <= i < final(buf)@.len() ==> final(buf)@[i] == 0,
{
    rayon::iter::ParallelIterator::for_each(
        rayon::iter::IntoParallelRefMutIterator::par_iter_mut(buf),
        |p| zero_cell(p),
    );
}

/// Relies on rayon's `par_iter_mut().for_each`: every depth cell is reset.
#[verifier::external_body]
fn par_inf(buf: &mut Vec<i64>)
    ensures
        final(buf)@.len() == old(buf)@.len(),
        forall|i: int| 0 <= i < final(buf)@.len() ==> final(buf)@[i] == DEPTH_INF,
{
    rayon::iter::ParallelIterator::for_each(
        rayon::iter::IntoParallelRefMutIterator::par_iter_mut(buf),
        |d| inf_cell(d),
    );
}

/// The camera-relative depth of a point.
pub open spec fn rel_z(p: Vertex3, cam: Camera) -> int {
    p.z - cam.z
}

/// The projected screen x: camera-relative x scaled by the focal length and
/// divided by the camera-relative depth.
pub open spec fn proj_x(p: Vertex3, cam: Camera) -> int {
    (p.x - cam.x) * cam.focal_length / rel_z(p, cam)
}

/// The projected screen y, negated: world-up maps to decreasing rows.
pub open spec fn proj_y(p: Vertex3, cam: Camera) -> int {
    (0 - (p.y - cam.y)) * cam.focal_length / rel_z(p, cam)
}

/// A camera the projection can work with: a positive, bounded focal length.
pub open spec fn cam_wf(cam: Camera) -> bool {
    0 < cam.focal_length <= Z_LIMIT
}

/// Whether a point projects: it lies strictly in front of the camera (the
/// degenerate non-positive depth is rejected) and within the numeric horizon.
pub open spec fn project_ok(p: Vertex3, cam: Camera) -> bool {
    &&& 0 < rel_z(p, cam) <= Z_LIMIT
    &&& -RASTER_LIMIT <= proj_x(p, cam) <= RASTER_LIMIT
    &&& -RASTER_LIMIT <= proj_y(p, cam) <= RASTER_LIMIT
}

/// A screen whose two buffers cover its pixel grid.
pub open spec fn screen_wf(s: Screen) -> bool {
    &&& s.frame_buffer@.len() == s.frame_buffer_size.width * s.frame_buffer_size.height
    &&& s.depth_buffer@.len() == s.frame_buffer_size.width * s.frame_buffer_size.height
    &&& s.frame_buffer_size.width <= SCREEN_DIM_LIMIT
    &&& s.frame_buffer_size.height <= SCREEN_DIM_LIMIT
}

/// The rasterizer's state: the packed-color frame buffer and the parallel
/// depth buffer, origin centered.
pub struct Screen {
    pub frame_buffer: Vec<u32>,
    pub frame_buffer_size: FrameBufferSize,
    pub depth_buffer: Vec<i64>,
}

impl Screen {
    /// A screen with a zeroed frame buffer and an all-far depth buffer.
    pub fn new(frame_buffer_size: FrameBufferSize) -> (s: Screen)
        requires
            frame_buffer_size.width <= SCREEN_DIM_LIMIT,
            frame_buffer_size.height <= SCREEN_DIM_LIMIT,
        ensures
            screen_wf(s),
            s.frame_buffer_size == frame_buffer_size,
            forall|i: int| 0 <= i < s.frame_buffer@.len() ==> s.frame_buffer@[i] == 0,
            forall|i: int| 0 <= i < s.depth_buffer@.len() ==> s.depth_buffer@[i] == DEPTH_INF,
    {
        proof {
            assert(frame_buffer_size.width * frame_buffer_size.height
                <= 0x1000_0000) by (nonlinear_arith)
                requires
                    frame_buffer_size.width <= 0x4000,
                    frame_buffer_size.height <= 0x4000,
            ;
        }
        let n = frame_buffer_size.width * frame_buffer_size.height;
        let mut fb: Vec<u32> = Vec::new();
        let mut db: Vec<i64> = Vec::new();
        let mut i: usize = 0;
        while i < n
            invariant
                i <= n,
                fb@.len() == i,
                db@.len() == i,
                forall|k: int| 0 <= k < i ==> fb@[k] == 0,
                forall|k: int| 0 <= k < i ==> db@[k] == DEPTH_INF,
            decreases n - i,
        {
            fb.push(0);
            db.push(DEPTH_INF);
            i = i + 1;
        }
        Screen { frame_buffer: fb, frame_buffer_size, depth_buffer: db }
    }

    /// A copy of the frame buffer, for the display adapter to consume.
    pub fn frame_buffer(&self) -> (r: &Vec<u32>)
        ensures
            r@ == self.frame_buffer@,
    {
        &self.frame_buffer
    }

    /// Resets both buffers to their initial state; must be called once per
    /// frame before redrawing, since drawing never clears implicitly.
    pub fn clear(&mut self)
        requires
            screen_wf(*old(self)),
        ensures
            screen_wf(*final(self)),
            final(self).frame_buffer_size == old(self).frame_buffer_size,
            final(self).frame_buffer@.len() == old(self).frame_buffer@.len(),
            final(self).depth_buffer@.len() == old(self).depth_buffer@.len(),
            forall|i: int|
                0 <= i < final(self).frame_buffer@.len() ==> final(self).frame_buffer@[i] == 0,
            forall|i: int|
                0 <= i < final(self).depth_buffer@.len() ==> final(self).depth_buffer@[i]
                    == DEPTH_INF,
    {
        par_zero(&mut self.frame_buffer);
        par_inf(&mut self.depth_buffer);
    }

    /// Whether a point lies in a triangle: all three edge functions share a
    /// sign, so the test is winding-order-agnostic and boundary-inclusive.
    pub fn point_in_triangle(a: Vertex2, b: Vertex2, c: Vertex2, p: Vertex2) -> (r: bool)
        requires
            -RASTER_LIMIT <= a.x <= RASTER_LIMIT && -RASTER_LIMIT <= a.y <= RASTER_LIMIT,
            -RASTER_LIMIT <= b.x <= RASTER_LIMIT && -RASTER_LIMIT <= b.y <= RASTER_LIMIT,
            -RASTER_LIMIT <= c.x <= RASTER_LIMIT && -RASTER_LIMIT <= c.y <= RASTER_LIMIT,
            -0x4000_0000_0000 <= p.x <= 0x4000_0000_0000,
            -0x4000_0000_0000 <= p.y <= 0x4000_0000_0000,
        ensures
            r == inside_pt(
                a.x as int,
                a.y as int,
                b.x as int,
                b.y as int,
                c.x as int,
                c.y as int,
                p.x as int,
                p.y as int,
            ),
    {
        proof {
            let lim = 0x2000_0000int;
            let plim = 0x4000_0000_0000int;
            let vlim = 0x1000_0000int;
            crate::fixed::lemma_mul_abs_bound(b.y - a.y, p.x as int, lim, plim);
            crate::fixed::lemma_mul_abs_bound(a.x - b.x, p.y as int, lim, plim);
            crate::fixed::lemma_mul_abs_bound(b.x as int, a.y as int, vlim, vlim);
            crate::fixed::lemma_mul_abs_bound(a.x as int, b.y as int, vlim, vlim);
            crate::fixed::lemma_mul_abs_bound(c.y - b.y, p.x as int, lim, plim);
            crate::fixed::lemma_mul_abs_bound(b.x - c.x, p.y as int, lim, plim);
            crate::fixed::lemma_mul_abs_bound(c.x as int, b.y as int, vlim, vlim);
            crate::fixed::lemma_mul_abs_bound(b.x as int, c.y as int, vlim, vlim);
            crate::fixed::lemma_mul_abs_bound(a.y - c.y, p.x as int, lim, plim);
            crate::fixed::lemma_mul_abs_bound(c.x - a.x, p.y as int, lim, plim);
            crate::fixed::lemma_mul_abs_bound(a.x as int, c.y as int, vlim, vlim);
            crate::fixed::lemma_mul_abs_bound(c.x as int, a.y as int, vlim, vlim);
        }
        let e0 = (b.y as i128 - a.y as i128) * p.x as i128 + (a.x as i128 - b.x as i128)
            * p.y as i128 + (b.x as i128 * a.y as i128 - a.x as i128 * b.y as i128);
        let e1 = (c.y as i128 - b.y as i128) * p.x as i128 + (b.x as i128 - c.x as i128)
            * p.y as i128 + (c.x as i128 * b.y as i128 - b.x as i128 * c.y as i128);
        let e2 = (a.y as i128 - c.y as i128) * p.x as i128 + (c.x as i128 - a.x as i128)
            * p.y as i128 + (a.x as i128 * c.y as i128 - c.x as i128 * a.y as i128);
        (e0 >= 0 && e1 >= 0 && e2 >= 0) || (e0 <= 0 && e1 <= 0 && e2 <= 0)
    }

    /// Projects a camera-relative point to the screen plane, carrying the
    /// un-divided camera-space depth forward for the depth test; a point at or
    /// behind the camera, or beyond the numeric horizon, is rejected.
    pub fn project_point(&self, p: Vertex3, camera: Camera) -> (r: Option<(Vertex2, i64)>)
        requires
            cam_wf(camera),
        ensures
            r == if project_ok(p, camera) {
                Some(
                    (
                        Vertex2 { x: proj_x(p, camera) as i64, y: proj_y(p, camera) as i64 },
                        rel_z(p, camera) as i64,
                    ),
                )
            } else {
                None::<(Vertex2, i64)>
            },
    {
        let relx = p.x as i128 - camera.x as i128;
        let rely = p.y as i128 - camera.y as i128;
        let relz = p.z as i128 - camera.z as i128;
        if relz <= 0 || relz > Z_LIMIT as i128 {
            return None;
        }
        proof {
            crate::fixed::lemma_mul_abs_bound(
                relx as int,
                camera.focal_length as int,
                0x1_0000_0000_0000_0000,
                0x100_0000_0000,
            );
        }
        let xq = div_floor_wide(relx * camera.focal_length as i128, relz);
        if xq < -RASTER_LIMIT as i128 || xq > RASTER_LIMIT as i128 {
            return None;
        }
        proof {
            crate::fixed::lemma_mul_abs_bound(
                -rely as int,
                camera.focal_length as int,
                0x1_0000_0000_0000_0000,
                0x100_0000_0000,
            );
        }
        let yq = div_floor_wide(-rely * camera.focal_length as i128, relz);
        if yq < -RASTER_LIMIT as i128 || yq > RASTER_LIMIT as i128 {
            return None;
        }
        Some((Vertex2 { x: xq as i64, y: yq as i64 }, relz as i64))
    }

    /// Projects all three corners of a triangle; the whole triangle is
    /// rejected when any corner is.
    pub fn project_triangle(&self, triangle: (Vertex3, Vertex3, Vertex3), camera: Camera) -> (r:
        Option<((Vertex2, i64), (Vertex2, i64), (Vertex2, i64))>)
        requires
            cam_wf(camera),
        ensures
            match r {
                Some(t) => project_ok(triangle.0, camera) && project_ok(triangle.1, camera)
                    && project_ok(triangle.2, camera) && Some(t.0) == self.project_point_spec(
                    triangle.0,
                    camera,
                ) && Some(t.1) == self.project_point_spec(triangle.1, camera) && Some(t.2)
                    == self.project_point_spec(triangle.2, camera),
                None => !(project_ok(triangle.0, camera) && project_ok(triangle.1, camera)
                    && project_ok(triangle.2, camera)),
            },
    {
        let p0 = self.project_point(triangle.0, camera);
        let p1 = self.project_point(triangle.1, camera);
        let p2 = self.project_point(triangle.2, camera);
        match (p0, p1, p2) {
            (Some(a), Some(b), Some(c)) => Some((a, b, c)),
            _ => None,
        }
    }

    /// What `project_point` returns, as a specification value.
    pub open spec fn project_point_spec(&self, p: Vertex3, cam: Camera) -> Option<(Vertex2, i64)> {
        if project_ok(p, cam) {
            Some(
                (
                    Vertex2 { x: proj_x(p, cam) as i64, y: proj_y(p, cam) as i64 },
                    rel_z(p, cam) as i64,
                ),
            )
        } else {
            None
        }
    }
}


/// A linear form with sign-folded coefficients evaluates to the sign times
/// the raw edge function.
proof fn lemma_edge_eval(
    s: int,
    qx: int,
    qy: int,
    rx: int,
    ry: int,
    x: int,
    y: int,
    sa: int,
    sb: int,
    sc: int,
    e: int,
)
    by (nonlinear_arith)
    requires
        sa == s * (ry - qy),
        sb == s * (qx - rx),
        sc == s * (rx * qy - qx * ry),
        e == sa * x + sb * y + sc,
    ensures
        e == s * ((ry - qy) * x + (qx - rx) * y + (rx * qy - qx * ry)),
{
}

/// With the winding folded out, the symmetric inside test is exactly "all
/// three normalized edge values are nonnegative".
pub(crate) proof fn lemma_inside_norm(a: Vertex2, b: Vertex2, c: Vertex2, px: int, py: int)
    requires
        tri_den(a, b, c) != 0,
    ensures
        pix_inside(a, b, c, px, py) <==> (pe0(a, b, c, px, py) >= 0 && pe1(a, b, c, px, py) >= 0
            && pe2(a, b, c, px, py) >= 0),
{
    let d = tri_den(a, b, c);
    let s = sgn(d);
    let x = px * FX_ONE;
    let y = py * FX_ONE;
    let e0 = edge_fn(a.x as int, a.y as int, b.x as int, b.y as int, x, y);
    let e1 = edge_fn(b.x as int, b.y as int, c.x as int, c.y as int, x, y);
    let e2 = edge_fn(c.x as int, c.y as int, a.x as int, a.y as int, x, y);
    lemma_edge_sum(a, b, c, x, y);
    assert(pe0(a, b, c, px, py) == s * e0);
    assert(pe1(a, b, c, px, py) == s * e1);
    assert(pe2(a, b, c, px, py) == s * e2);
    if d > 0 {
        assert(s * e0 == e0) by (nonlinear_arith)
            requires
                s == 1,
        ;
        assert(s * e1 == e1) by (nonlinear_arith)
            requires
                s == 1,
        ;
        assert(s * e2 == e2) by (nonlinear_arith)
            requires
                s == 1,
        ;
    } else {
        assert(s * e0 == -e0) by (nonlinear_arith)
            requires
                s == -1,
        ;
        assert(s * e1 == -e1) by (nonlinear_arith)
            requires
                s == -1,
        ;
        assert(s * e2 == -e2) by (nonlinear_arith)
            requires
                s == -1,
        ;
    }
}

/// The normalized edge values sum to the positive doubled area.
pub(crate) proof fn lemma_norm_sum(a: Vertex2, b: Vertex2, c: Vertex2, px: int, py: int)
    ensures
        pe0(a, b, c, px, py) + pe1(a, b, c, px, py) + pe2(a, b, c, px, py) == sden(a, b, c),
{
    let x = px * FX_ONE;
    let y = py * FX_ONE;
    let s = sgn(tri_den(a, b, c));
    let e0 = edge_fn(a.x as int, a.y as int, b.x as int, b.y as int, x, y);
    let e1 = edge_fn(b.x as int, b.y as int, c.x as int, c.y as int, x, y);
    let e2 = edge_fn(c.x as int, c.y as int, a.x as int, a.y as int, x, y);
    lemma_edge_sum(a, b, c, x, y);
    assert(s * e0 + s * e1 + s * e2 == s * (e0 + e1 + e2)) by (nonlinear_arith);
}

/// A nonnegative-weighted combination of values in (0, zmax] divided by the
/// weights' sum lies in [0, zmax].
proof fn lemma_weighted_avg_bound(
    e0: int,
    e1: int,
    e2: int,
    z0: int,
    z1: int,
    z2: int,
    den: int,
    zmax: int,
)
    requires
        e0 >= 0 && e1 >= 0 && e2 >= 0,
        0 < z0 <= zmax && 0 < z1 <= zmax && 0 < z2 <= zmax,
        den == e0 + e1 + e2,
        den > 0,
    ensures
        0 <= (e0 * z0 + e1 * z1 + e2 * z2) / den <= zmax,
{
    let num = e0 * z0 + e1 * z1 + e2 * z2;
    assert(num >= 0 && num <= den * zmax) by (nonlinear_arith)
        requires
            e0 >= 0 && e1 >= 0 && e2 >= 0,
            0 < z0 <= zmax && 0 < z1 <= zmax && 0 < z2 <= zmax,
            den == e0 + e1 + e2,
            num == e0 * z0 + e1 * z1 + e2 * z2,
    ;
    lemma_div_is_ordered(0, num, den);
    assert(0int / den == 0);
    lemma_div_is_ordered(num, den * zmax, den);
    assert(den * zmax == zmax * den) by (nonlinear_arith);
    lemma_fundamental_div_mod_converse(den * zmax, den, zmax, 0);
}

/// The centered pixel coordinates are recovered from the buffer index.
proof fn lemma_index_roundtrip(px: int, py: int, w: int, h: int)
    requires
        0 < w,
        0 < h,
        0 <= px + w / 2 < w,
        0 <= py + h / 2 < h,
    ensures
        0 <= pix_index(px, py, w, h) < w * h,
        pix_index(px, py, w, h) % w == px + w / 2,
        pix_index(px, py, w, h) / w == py + h / 2,
{
    let i = pix_index(px, py, w, h);
    lemma_fundamental_div_mod_converse(i, w, py + h / 2, px + w / 2);
    assert(0 <= i && i < w * h) by (nonlinear_arith)
        requires
            i == (py + h / 2) * w + (px + w / 2),
            0 <= px + w / 2 < w,
            0 <= py + h / 2 < h,
            0 < w,
            0 < h,
    ;
}


/// A nondegenerate triangle's positive doubled area.
proof fn lemma_sden_pos(a: Vertex2, b: Vertex2, c: Vertex2)
    requires
        tri_den(a, b, c) != 0,
    ensures
        sden(a, b, c) > 0,
{
    let d = tri_den(a, b, c);
    if d < 0 {
        assert(-1 * d == -d) by (nonlinear_arith);
    } else {
        assert(1 * d == d) by (nonlinear_arith);
    }
}

/// A screen-plane vertex within the numeric range of the rasterizer.
pub open spec fn v2_bounded(v: Vertex2) -> bool {
    -RASTER_LIMIT <= v.x <= RASTER_LIMIT && -RASTER_LIMIT <= v.y <= RASTER_LIMIT
}

/// A texture coordinate within the numeric range of the rasterizer.
pub open spec fn uv_bounded(t: TextureCoordinate) -> bool {
    -RASTER_LIMIT <= t.u <= RASTER_LIMIT && -RASTER_LIMIT <= t.v <= RASTER_LIMIT
}

impl Screen {
    /// One pixel of one triangle: evaluates the edge functions at the pixel
    /// center, and where the pixel is inside, in front of the camera, and
    /// closer than the depth buffer's value, writes the perspective-correct
    /// sampled color and the interpolated depth.
    #[verifier::rlimit(100)]
    #[verifier::loop_isolation(false)]
    #[allow(unused_variables)]
    fn raster_pixel(
        &mut self,
        a: Vertex2,
        b: Vertex2,
        c: Vertex2,
        za: i64,
        zb: i64,
        zc: i64,
        uv: Option<(TextureCoordinate, TextureCoordinate, TextureCoordinate)>,
        tex: &Option<TextureMap>,
        sa0: i64,
        sb0: i64,
        sc0: i64,
        sa1: i64,
        sb1: i64,
        sc1: i64,
        sa2: i64,
        sb2: i64,
        sc2: i64,
        den_abs: i64,
        ra: i64,
        rb: i64,
        rc: i64,
        uza: i64,
        uzb: i64,
        uzc: i64,
        vza: i64,
        vzb: i64,
        vzc: i64,
        px: i64,
        py: i64,
    )
        requires
            screen_wf(*old(self)),
            0 < old(self).frame_buffer_size.width,
            0 < old(self).frame_buffer_size.height,
            v2_bounded(a) && v2_bounded(b) && v2_bounded(c),
            0 < za <= Z_LIMIT && 0 < zb <= Z_LIMIT && 0 < zc <= Z_LIMIT,
            tri_den(a, b, c) != 0,
            den_abs == sden(a, b, c),
            sa0 == sgn(tri_den(a, b, c)) * (b.y - a.y),
            sb0 == sgn(tri_den(a, b, c)) * (a.x - b.x),
            sc0 == sgn(tri_den(a, b, c)) * (b.x * a.y - a.x * b.y),
            sa1 == sgn(tri_den(a, b, c)) * (c.y - b.y),
            sb1 == sgn(tri_den(a, b, c)) * (b.x - c.x),
            sc1 == sgn(tri_den(a, b, c)) * (c.x * b.y - b.x * c.y),
            sa2 == sgn(tri_den(a, b, c)) * (a.y - c.y),
            sb2 == sgn(tri_den(a, b, c)) * (c.x - a.x),
            sc2 == sgn(tri_den(a, b, c)) * (a.x * c.y - c.x * a.y),
            -0x2000_0000 <= sa0 <= 0x2000_0000 && -0x2000_0000 <= sb0 <= 0x2000_0000,
            -0x2000_0000 <= sa1 <= 0x2000_0000 && -0x2000_0000 <= sb1 <= 0x2000_0000,
            -0x2000_0000 <= sa2 <= 0x2000_0000 && -0x2000_0000 <= sb2 <= 0x2000_0000,
            -0x400_0000_0000_0000 <= sc0 <= 0x400_0000_0000_0000,
            -0x400_0000_0000_0000 <= sc1 <= 0x400_0000_0000_0000,
            -0x400_0000_0000_0000 <= sc2 <= 0x400_0000_0000_0000,
            match uv {
                Some(t3) => ra == z_recip(za as int) && rb == z_recip(zb as int) && rc == z_recip(
                    zc as int,
                ) && uza == uv_over_z(t3.0.u as int, za as int) && uzb == uv_over_z(
                    t3.1.u as int,
                    zb as int,
                ) && uzc == uv_over_z(t3.2.u as int, zc as int) && vza == uv_over_z(
                    t3.0.v as int,
                    za as int,
                ) && vzb == uv_over_z(t3.1.v as int, zb as int) && vzc == uv_over_z(
                    t3.2.v as int,
                    zc as int,
                ) && 0 <= ra <= 0x1_0000_0000 && 0 <= rb <= 0x1_0000_0000 && 0 <= rc
                    <= 0x1_0000_0000 && -0x2000_0000_0000 <= uza <= 0x2000_0000_0000
                    && -0x2000_0000_0000 <= uzb <= 0x2000_0000_0000 && -0x2000_0000_0000 <= uzc
                    <= 0x2000_0000_0000 && -0x2000_0000_0000 <= vza <= 0x2000_0000_0000
                    && -0x2000_0000_0000 <= vzb <= 0x2000_0000_0000 && -0x2000_0000_0000 <= vzc
                    <= 0x2000_0000_0000,
                None => true,
            },
            match tex {
                Some(t) => tex_wf(*t),
                None => true,
            },
            0 <= px + old(self).frame_buffer_size.width as int / 2 < old(
                self,
            ).frame_buffer_size.width,
            0 <= py + old(self).frame_buffer_size.height as int / 2 < old(
                self,
            ).frame_buffer_size.height,
        ensures
            screen_wf(*final(self)),
            final(self).frame_buffer_size == old(self).frame_buffer_size,
            ({
                let w = old(self).frame_buffer_size.width as int;
                let h = old(self).frame_buffer_size.height as int;
                let i = pix_index(px as int, py as int, w, h);
                let write = pix_inside(a, b, c, px as int, py as int) && 0 < pix_depth(
                    a,
                    b,
                    c,
                    za as int,
                    zb as int,
                    zc as int,
                    px as int,
                    py as int,
                ) < old(self).depth_buffer@[i];
                &&& final(self).frame_buffer@ == if write {
                    old(self).frame_buffer@.update(
                        i,
                        pix_color(
                            a,
                            b,
                            c,
                            za as int,
                            zb as int,
                            zc as int,
                            uv,
                            *tex,
                            px as int,
                            py as int,
                        ),
                    )
                } else {
                    old(self).frame_buffer@
                }
                &&& final(self).depth_buffer@ == if write {
                    old(self).depth_buffer@.update(
                        i,
                        pix_depth(
                            a,
                            b,
                            c,
                            za as int,
                            zb as int,
                            zc as int,
                            px as int,
                            py as int,
                        ) as i64,
                    )
                } else {
                    old(self).depth_buffer@
                }
            }),
    {
        let w = self.frame_buffer_size.width;
        let h = self.frame_buffer_size.height;
        proof {
            lemma_index_roundtrip(px as int, py as int, w as int, h as int);
        }
        let x: i64 = px * FX_ONE;
        let y: i64 = py * FX_ONE;
        proof {
            crate::fixed::lemma_mul_abs_bound(sa0 as int, x as int, 0x2000_0000, 0x4000_0000);
            crate::fixed::lemma_mul_abs_bound(sb0 as int, y as int, 0x2000_0000, 0x4000_0000);
            crate::fixed::lemma_mul_abs_bound(sa1 as int, x as int, 0x2000_0000, 0x4000_0000);
            crate::fixed::lemma_mul_abs_bound(sb1 as int, y as int, 0x2000_0000, 0x4000_0000);
            crate::fixed::lemma_mul_abs_bound(sa2 as int, x as int, 0x2000_0000, 0x4000_0000);
            crate::fixed::lemma_mul_abs_bound(sb2 as int, y as int, 0x2000_0000, 0x4000_0000);
        }
        let e0: i128 = sa0 as i128 * x as i128 + sb0 as i128 * y as i128 + sc0 as i128;
        let e1: i128 = sa1 as i128 * x as i128 + sb1 as i128 * y as i128 + sc1 as i128;
        let e2: i128 = sa2 as i128 * x as i128 + sb2 as i128 * y as i128 + sc2 as i128;
        proof {
            let s = sgn(tri_den(a, b, c));
            lemma_edge_eval(
                s,
                a.x as int,
                a.y as int,
                b.x as int,
                b.y as int,
                x as int,
                y as int,
                sa0 as int,
                sb0 as int,
                sc0 as int,
                e0 as int,
            );
            lemma_edge_eval(
                s,
                b.x as int,
                b.y as int,
                c.x as int,
                c.y as int,
                x as int,
                y as int,
                sa1 as int,
                sb1 as int,
                sc1 as int,
                e1 as int,
            );
            lemma_edge_eval(
                s,
                c.x as int,
                c.y as int,
                a.x as int,
                a.y as int,
                x as int,
                y as int,
                sa2 as int,
                sb2 as int,
                sc2 as int,
                e2 as int,
            );
            assert(e0 as int == pe0(a, b, c, px as int, py as int));
            assert(e1 as int == pe1(a, b, c, px as int, py as int));
            assert(e2 as int == pe2(a, b, c, px as int, py as int));
            lemma_inside_norm(a, b, c, px as int, py as int);
        }
        if !(e0 >= 0 && e1 >= 0 && e2 >= 0) {
            return ;
        }
        proof {
            lemma_norm_sum(a, b, c, px as int, py as int);
            lemma_sden_pos(a, b, c);
            crate::fixed::lemma_mul_abs_bound(e0 as int, zc as int, 0x8000_0000_0000_0000, Z_LIMIT as int);
            crate::fixed::lemma_mul_abs_bound(e1 as int, za as int, 0x8000_0000_0000_0000, Z_LIMIT as int);
            crate::fixed::lemma_mul_abs_bound(e2 as int, zb as int, 0x8000_0000_0000_0000, Z_LIMIT as int);
            lemma_weighted_avg_bound(
                e0 as int,
                e1 as int,
                e2 as int,
                zc as int,
                za as int,
                zb as int,
                den_abs as int,
                Z_LIMIT as int,
            );
        }
        let dnum: i128 = e0 * zc as i128 + e1 * za as i128 + e2 * zb as i128;
        let depth128: i128 = dnum / den_abs as i128;
        let depth: i64 = depth128 as i64;
        proof {
            assert(depth as int == pix_depth(
                a,
                b,
                c,
                za as int,
                zb as int,
                zc as int,
                px as int,
                py as int,
            ));
        }
        let ix = (px + (w / 2) as i64) as usize;
        let iy = (py + (h / 2) as i64) as usize;
        proof {
            assert(iy * w <= 0x1000_0000) by (nonlinear_arith)
                requires
                    iy < h,
                    h <= 0x4000,
                    w <= 0x4000,
            ;
        }
        let idx = iy * w + ix;
        proof {
            assert(idx == pix_index(px as int, py as int, w as int, h as int));
        }
        if !(depth > 0 && depth < self.depth_buffer[idx]) {
            return ;
        }
        let color: u32 = match (uv, tex) {
            (Some(t3), Some(t)) => {
                proof {
                    crate::fixed::lemma_mul_abs_bound(e0 as int, rc as int, 0x8000_0000_0000_0000, 0x1_0000_0000);
                    crate::fixed::lemma_mul_abs_bound(e1 as int, ra as int, 0x8000_0000_0000_0000, 0x1_0000_0000);
                    crate::fixed::lemma_mul_abs_bound(e2 as int, rb as int, 0x8000_0000_0000_0000, 0x1_0000_0000);
                }
                let rnum: i128 = e0 * rc as i128 + e1 * ra as i128 + e2 * rb as i128;
                if rnum > 0 {
                    proof {
                        crate::fixed::lemma_mul_abs_bound(e0 as int, uzc as int, 0x2000_0000_0000_0000, 0x2000_0000_0000);
                        crate::fixed::lemma_mul_abs_bound(e1 as int, uza as int, 0x2000_0000_0000_0000, 0x2000_0000_0000);
                        crate::fixed::lemma_mul_abs_bound(e2 as int, uzb as int, 0x2000_0000_0000_0000, 0x2000_0000_0000);
                        crate::fixed::lemma_mul_abs_bound(e0 as int, vzc as int, 0x2000_0000_0000_0000, 0x2000_0000_0000);
                        crate::fixed::lemma_mul_abs_bound(e1 as int, vza as int, 0x2000_0000_0000_0000, 0x2000_0000_0000);
                        crate::fixed::lemma_mul_abs_bound(e2 as int, vzb as int, 0x2000_0000_0000_0000, 0x2000_0000_0000);
                        crate::fixed::lemma_mul_abs_bound(
                            (e0 * uzc as i128 + e1 * uza as i128 + e2 * uzb as i128) as int,
                            FX_ONE as int,
                            0x1000_0000_0000_0000_0000_0000_0000,
                            0x1_0000,
                        );
                        crate::fixed::lemma_mul_abs_bound(
                            (e0 * vzc as i128 + e1 * vza as i128 + e2 * vzb as i128) as int,
                            FX_ONE as int,
                            0x1000_0000_0000_0000_0000_0000_0000,
                            0x1_0000,
                        );
                    }
                    let unum: i128 = e0 * uzc as i128 + e1 * uza as i128 + e2 * uzb as i128;
                    let vnum: i128 = e0 * vzc as i128 + e1 * vza as i128 + e2 * vzb as i128;
                    let uq_raw = div_floor_wide(unum * FX_ONE as i128, rnum);
                    let vq_raw = div_floor_wide(vnum * FX_ONE as i128, rnum);
                    let uq: i64 = if uq_raw < 0 {
                        0
                    } else if uq_raw > FX_ONE as i128 {
                        FX_ONE
                    } else {
                        uq_raw as i64
                    };
                    let vq: i64 = if vq_raw < 0 {
                        0
                    } else if vq_raw > FX_ONE as i128 {
                        FX_ONE
                    } else {
                        vq_raw as i64
                    };
                    proof {
                        assert(uq as int == pix_uvq(
                            a,
                            b,
                            c,
                            za as int,
                            zb as int,
                            zc as int,
                            t3.0.u as int,
                            t3.1.u as int,
                            t3.2.u as int,
                            px as int,
                            py as int,
                        ));
                        assert(vq as int == pix_uvq(
                            a,
                            b,
                            c,
                            za as int,
                            zb as int,
                            zc as int,
                            t3.0.v as int,
                            t3.1.v as int,
                            t3.2.v as int,
                            px as int,
                            py as int,
                        ));
                    }
                    match t.get_pixel(TextureCoordinate { u: uq, v: vq }) {
                        Some(col) => col.to_u32(),
                        None => FALLBACK_COLOR,
                    }
                } else {
                    FALLBACK_COLOR
                }
            },
            _ => FALLBACK_COLOR,
        };
        proof {
            assert(color == pix_color(
                a,
                b,
                c,
                za as int,
                zb as int,
                zc as int,
                uv,
                *tex,
                px as int,
                py as int,
            ));
        }
        self.frame_buffer[idx] = color;
        self.depth_buffer[idx] = depth;
    }
}


pub(crate) proof fn lemma_mul_one(x: int)
    by (nonlinear_arith)
    ensures
        1 * x == x,
{
}

pub(crate) proof fn lemma_mul_neg_one(x: int)
    by (nonlinear_arith)
    ensures
        -1 * x == -x,
{
}

/// The reciprocal and the scaled u/z of a bounded coordinate are bounded.
proof fn lemma_uz_bound(u: int, z: int)
    requires
        -RASTER_LIMIT <= u <= RASTER_LIMIT,
        0 < z,
    ensures
        0 <= z_recip(z) <= 0x1_0000_0000,
        -0x2000_0000_0000 <= uv_over_z(u, z) <= 0x2000_0000_0000,
{
    lemma_div_is_ordered(0, 0x1_0000_0000, z);
    assert(0int / z == 0);
    vstd::arithmetic::div_mod::lemma_div_is_ordered_by_denominator(0x1_0000_0000, 1, z);
    assert(0x1_0000_0000int / 1 == 0x1_0000_0000);
    let p = u * z_recip(z);
    assert(-0x1000_0000_0000_0000 <= p <= 0x1000_0000_0000_0000) by (nonlinear_arith)
        requires
            -0x1000_0000 <= u <= 0x1000_0000,
            0 <= z_recip(z) <= 0x1_0000_0000,
            p == u * z_recip(z),
    ;
    lemma_div_is_ordered(p, 0x1000_0000_0000_0000, FX_ONE as int);
    lemma_div_is_ordered(-0x1000_0000_0000_0000, p, FX_ONE as int);
    lemma_fundamental_div_mod_converse(0x1000_0000_0000_0000, 0x1_0000, 0x1000_0000_0000, 0);
    lemma_fundamental_div_mod_converse(-0x1000_0000_0000_0000, 0x1_0000, -0x1000_0000_0000, 0);
}

impl Screen {
    /// Rasterizes one projected triangle: the integer bounding box of the
    /// projected corners is walked pixel by pixel (clamped to the buffer, the
    /// per-pixel index check subsuming any pre-clip), and both buffers become
    /// exactly the pointwise `draw_fb` / `draw_db` image of their old state.
    /// A degenerate (zero-area) triangle draws nothing.
    #[verifier::rlimit(100)]
    #[verifier::loop_isolation(false)]
    pub fn draw_triangle(
        &mut self,
        triangle: ((Vertex2, i64), (Vertex2, i64), (Vertex2, i64)),
        texture_coordinate: Option<(TextureCoordinate, TextureCoordinate, TextureCoordinate)>,
        texture_map: &Option<TextureMap>,
    )
        requires
            screen_wf(*old(self)),
            v2_bounded(triangle.0.0) && v2_bounded(triangle.1.0) && v2_bounded(triangle.2.0),
            0 < triangle.0.1 <= Z_LIMIT,
            0 < triangle.1.1 <= Z_LIMIT,
            0 < triangle.2.1 <= Z_LIMIT,
            match texture_coordinate {
                Some(t3) => uv_bounded(t3.0) && uv_bounded(t3.1) && uv_bounded(t3.2),
                None => true,
            },
            match texture_map {
                Some(t) => tex_wf(*t),
                None => true,
            },
        ensures
            screen_wf(*final(self)),
            final(self).frame_buffer_size == old(self).frame_buffer_size,
            final(self).frame_buffer@ == draw_fb(
                old(self).frame_buffer@,
                old(self).depth_buffer@,
                triangle.0.0,
                triangle.1.0,
                triangle.2.0,
                triangle.0.1 as int,
                triangle.1.1 as int,
                triangle.2.1 as int,
                texture_coordinate,
                *texture_map,
                old(self).frame_buffer_size.width as int,
                old(self).frame_buffer_size.height as int,
            ),
            final(self).depth_buffer@ == draw_db(
                old(self).frame_buffer@,
                old(self).depth_buffer@,
                triangle.0.0,
                triangle.1.0,
                triangle.2.0,
                triangle.0.1 as int,
                triangle.1.1 as int,
                triangle.2.1 as int,
                old(self).frame_buffer_size.width as int,
                old(self).frame_buffer_size.height as int,
            ),
    {
        let (pa, pb, pc) = triangle;
        let a = pa.0;
        let za = pa.1;
        let b = pb.0;
        let zb = pb.1;
        let c = pc.0;
        let zc = pc.1;
        let w = self.frame_buffer_size.width;
        let h = self.frame_buffer_size.height;
        let ghost fb0 = self.frame_buffer@;
        let ghost db0 = self.depth_buffer@;
        let ghost wi = w as int;
        let ghost hi = h as int;
        let ghost fbt = draw_fb(
            fb0,
            db0,
            a,
            b,
            c,
            za as int,
            zb as int,
            zc as int,
            texture_coordinate,
            *texture_map,
            wi,
            hi,
        );
        let ghost dbt = draw_db(fb0, db0, a, b, c, za as int, zb as int, zc as int, wi, hi);
        proof {
            crate::fixed::lemma_mul_abs_bound(b.x as int, a.y as int, RASTER_LIMIT as int, RASTER_LIMIT as int);
            crate::fixed::lemma_mul_abs_bound(a.x as int, b.y as int, RASTER_LIMIT as int, RASTER_LIMIT as int);
            crate::fixed::lemma_mul_abs_bound(c.x as int, b.y as int, RASTER_LIMIT as int, RASTER_LIMIT as int);
            crate::fixed::lemma_mul_abs_bound(b.x as int, c.y as int, RASTER_LIMIT as int, RASTER_LIMIT as int);
            crate::fixed::lemma_mul_abs_bound(a.x as int, c.y as int, RASTER_LIMIT as int, RASTER_LIMIT as int);
            crate::fixed::lemma_mul_abs_bound(c.x as int, a.y as int, RASTER_LIMIT as int, RASTER_LIMIT as int);
        }
        let t01: i128 = b.x as i128 * a.y as i128 - a.x as i128 * b.y as i128;
        let t12: i128 = c.x as i128 * b.y as i128 - b.x as i128 * c.y as i128;
        let t20: i128 = a.x as i128 * c.y as i128 - c.x as i128 * a.y as i128;
        let den: i64 = (t01 + t12 + t20) as i64;
        proof {
            assert(den as int == tri_den(a, b, c));
        }
        if w == 0 || h == 0 {
            proof {
                lemma_draw_unchanged(
                    fb0,
                    db0,
                    a,
                    b,
                    c,
                    za as int,
                    zb as int,
                    zc as int,
                    texture_coordinate,
                    *texture_map,
                    wi,
                    hi,
                );
            }
            return ;
        }
        if den == 0 {
            proof {
                lemma_draw_unchanged(
                    fb0,
                    db0,
                    a,
                    b,
                    c,
                    za as int,
                    zb as int,
                    zc as int,
                    texture_coordinate,
                    *texture_map,
                    wi,
                    hi,
                );
            }
            return ;
        }
        // The edge coefficients, built once per triangle, winding folded out.
        let neg = den < 0;
        let den_abs: i64 = if neg {
            -den
        } else {
            den
        };
        let sa0: i64 = if neg { a.y - b.y } else { b.y - a.y };
        let sb0: i64 = if neg { b.x - a.x } else { a.x - b.x };
        let sc0: i64 = if neg { (-t01) as i64 } else { t01 as i64 };
        let sa1: i64 = if neg { b.y - c.y } else { c.y - b.y };
        let sb1: i64 = if neg { c.x - b.x } else { b.x - c.x };
        let sc1: i64 = if neg { (-t12) as i64 } else { t12 as i64 };
        let sa2: i64 = if neg { c.y - a.y } else { a.y - c.y };
        let sb2: i64 = if neg { a.x - c.x } else { c.x - a.x };
        let sc2: i64 = if neg { (-t20) as i64 } else { t20 as i64 };
        proof {
            let d = tri_den(a, b, c);
            if neg {
                lemma_mul_neg_one(b.y - a.y);
                lemma_mul_neg_one(a.x - b.x);
                lemma_mul_neg_one(t01 as int);
                lemma_mul_neg_one(c.y - b.y);
                lemma_mul_neg_one(b.x - c.x);
                lemma_mul_neg_one(t12 as int);
                lemma_mul_neg_one(a.y - c.y);
                lemma_mul_neg_one(c.x - a.x);
                lemma_mul_neg_one(t20 as int);
                lemma_mul_neg_one(d);
            } else {
                lemma_mul_one(b.y - a.y);
                lemma_mul_one(a.x - b.x);
                lemma_mul_one(t01 as int);
                lemma_mul_one(c.y - b.y);
                lemma_mul_one(b.x - c.x);
                lemma_mul_one(t12 as int);
                lemma_mul_one(a.y - c.y);
                lemma_mul_one(c.x - a.x);
                lemma_mul_one(t20 as int);
                lemma_mul_one(d);
            }
            assert(den_abs == sden(a, b, c));
        }
        // The perspective-correct interpolants, one division per corner.
        let mut ra: i64 = 0;
        let mut rb: i64 = 0;
        let mut rc: i64 = 0;
        let mut uza: i64 = 0;
        let mut uzb: i64 = 0;
        let mut uzc: i64 = 0;
        let mut vza: i64 = 0;
        let mut vzb: i64 = 0;
        let mut vzc: i64 = 0;
        if let Some(t3) = texture_coordinate {
            proof {
                lemma_uz_bound(t3.0.u as int, za as int);
                lemma_uz_bound(t3.1.u as int, zb as int);
                lemma_uz_bound(t3.2.u as int, zc as int);
                lemma_uz_bound(t3.0.v as int, za as int);
                lemma_uz_bound(t3.1.v as int, zb as int);
                lemma_uz_bound(t3.2.v as int, zc as int);
            }
            ra = 0x1_0000_0000i64 / za;
            rb = 0x1_0000_0000i64 / zb;
            rc = 0x1_0000_0000i64 / zc;
            uza = div_floor_wide(t3.0.u as i128 * ra as i128, FX_ONE as i128) as i64;
            uzb = div_floor_wide(t3.1.u as i128 * rb as i128, FX_ONE as i128) as i64;
            uzc = div_floor_wide(t3.2.u as i128 * rc as i128, FX_ONE as i128) as i64;
            vza = div_floor_wide(t3.0.v as i128 * ra as i128, FX_ONE as i128) as i64;
            vzb = div_floor_wide(t3.1.v as i128 * rb as i128, FX_ONE as i128) as i64;
            vzc = div_floor_wide(t3.2.v as i128 * rc as i128, FX_ONE as i128) as i64;
        }
        // The integer bounding box, clamped to the buffer's pixel grid.
        let mnx: i64 = if a.x <= b.x && a.x <= c.x {
            a.x
        } else if b.x <= c.x {
            b.x
        } else {
            c.x
        };
        let mxx: i64 = if a.x >= b.x && a.x >= c.x {
            a.x
        } else if b.x >= c.x {
            b.x
        } else {
            c.x
        };
        let mny: i64 = if a.y <= b.y && a.y <= c.y {
            a.y
        } else if b.y <= c.y {
            b.y
        } else {
            c.y
        };
        let mxy: i64 = if a.y >= b.y && a.y >= c.y {
            a.y
        } else if b.y >= c.y {
            b.y
        } else {
            c.y
        };
        let wh2: i64 = (w / 2) as i64;
        let hh2: i64 = (h / 2) as i64;
        let fx0 = div_floor_wide(mnx as i128, FX_ONE as i128) as i64;
        let fx1 = div_floor_wide(mxx as i128, FX_ONE as i128) as i64;
        let fy0 = div_floor_wide(mny as i128, FX_ONE as i128) as i64;
        let fy1 = div_floor_wide(mxy as i128, FX_ONE as i128) as i64;
        let x0: i64 = if fx0 < -wh2 {
            -wh2
        } else {
            fx0
        };
        let x1: i64 = if fx1 > (w as i64) - 1 - wh2 {
            (w as i64) - 1 - wh2
        } else {
            fx1
        };
        let y0: i64 = if fy0 < -hh2 {
            -hh2
        } else {
            fy0
        };
        let y1: i64 = if fy1 > (h as i64) - 1 - hh2 {
            (h as i64) - 1 - hh2
        } else {
            fy1
        };
        proof {
            assert(x0 == bbox_x0(a, b, c, wi));
            assert(x1 == bbox_x1(a, b, c, wi));
            assert(y0 == bbox_y0(a, b, c, hi));
            assert(y1 == bbox_y1(a, b, c, hi));
        }


        self.raster_rows(
            a,
            b,
            c,
            za,
            zb,
            zc,
            texture_coordinate,
            texture_map,
            sa0,
            sb0,
            sc0,
            sa1,
            sb1,
            sc1,
            sa2,
            sb2,
            sc2,
            den_abs,
            ra,
            rb,
            rc,
            uza,
            uzb,
            uzc,
            vza,
            vzb,
            vzc,
            x0,
            x1,
            y0,
            y1,
            Ghost(fb0),
            Ghost(db0),
            Ghost(fbt),
            Ghost(dbt),
        );
    }
}

/// An empty buffer or a degenerate (zero-area) triangle draws nothing.
proof fn lemma_draw_unchanged(
    fb0: Seq<u32>,
    db0: Seq<i64>,
    a: Vertex2,
    b: Vertex2,
    c: Vertex2,
    za: int,
    zb: int,
    zc: int,
    uv: Option<(TextureCoordinate, TextureCoordinate, TextureCoordinate)>,
    tex: Option<TextureMap>,
    wi: int,
    hi: int,
)
    requires
        fb0.len() == db0.len(),
        fb0.len() == 0 || tri_den(a, b, c) == 0,
    ensures
        draw_fb(fb0, db0, a, b, c, za, zb, zc, uv, tex, wi, hi) == fb0,
        draw_db(fb0, db0, a, b, c, za, zb, zc, wi, hi) == db0,
{
    reveal(draw_fb);
    reveal(draw_db);
    let fbt = draw_fb(fb0, db0, a, b, c, za, zb, zc, uv, tex, wi, hi);
    let dbt = draw_db(fb0, db0, a, b, c, za, zb, zc, wi, hi);
    assert forall|i: int| 0 <= i < fb0.len() implies fbt[i] == fb0[i] && dbt[i] == db0[i] by {
        assert(!tri_active(a, b, c, i % wi - wi / 2, i / wi - hi / 2, wi, hi));
    }
    assert(fbt =~= fb0);
    assert(dbt =~= db0);
}

/// Once every bounding-box row is rastered, the buffers are exactly the
/// pointwise images.
#[verifier::rlimit(100)]
proof fn lemma_rows_complete(
    fb: Seq<u32>,
    db: Seq<i64>,
    fb0: Seq<u32>,
    db0: Seq<i64>,
    fbt: Seq<u32>,
    dbt: Seq<i64>,
    a: Vertex2,
    b: Vertex2,
    c: Vertex2,
    za: int,
    zb: int,
    zc: int,
    uv: Option<(TextureCoordinate, TextureCoordinate, TextureCoordinate)>,
    tex: Option<TextureMap>,
    wi: int,
    hi: int,
    x0: int,
    x1: int,
    y0: int,
    y1: int,
    py: int,
)
    requires
        fbt == draw_fb(fb0, db0, a, b, c, za, zb, zc, uv, tex, wi, hi),
        dbt == draw_db(fb0, db0, a, b, c, za, zb, zc, wi, hi),
        x0 == bbox_x0(a, b, c, wi),
        x1 == bbox_x1(a, b, c, wi),
        y0 == bbox_y0(a, b, c, hi),
        y1 == bbox_y1(a, b, c, hi),
        py > y1,
        fb.len() == fb0.len(),
        db.len() == db0.len(),
        db0.len() == fb0.len(),
        forall|i: int|
            0 <= i < fb0.len() && x0 <= i % wi - wi / 2 <= x1 && y0 <= i / wi - hi / 2 < py && i
                / wi - hi / 2 <= y1 ==> fb[i] == fbt[i] && db[i] == dbt[i],
        forall|i: int|
            0 <= i < fb0.len() && !(x0 <= i % wi - wi / 2 <= x1 && y0 <= i / wi - hi / 2 < py && i
                / wi - hi / 2 <= y1) ==> fb[i] == fb0[i] && db[i] == db0[i],
    ensures
        fb == fbt,
        db == dbt,
{
    reveal(draw_fb);
    reveal(draw_db);
    assert forall|i: int| 0 <= i < fb0.len() implies fb[i] == fbt[i] && db[i] == dbt[i] by {
        let qx = i % wi - wi / 2;
        let qy = i / wi - hi / 2;
        if !(x0 <= qx <= x1 && y0 <= qy <= y1) {
            assert(!tri_active(a, b, c, qx, qy, wi, hi));
            assert(fbt[i] == fb0[i] && dbt[i] == db0[i]);
        }
    }
    assert(fb =~= fbt);
    assert(db =~= dbt);
}


impl Screen {
    /// One bounding-box row of one triangle, walked pixel by pixel.
    #[verifier::rlimit(100)]
    #[verifier::loop_isolation(false)]
    #[allow(unused_variables)]
    fn raster_row(
        &mut self,
        a: Vertex2,
        b: Vertex2,
        c: Vertex2,
        za: i64,
        zb: i64,
        zc: i64,
        texture_coordinate: Option<(TextureCoordinate, TextureCoordinate, TextureCoordinate)>,
        texture_map: &Option<TextureMap>,
        sa0: i64,
        sb0: i64,
        sc0: i64,
        sa1: i64,
        sb1: i64,
        sc1: i64,
        sa2: i64,
        sb2: i64,
        sc2: i64,
        den_abs: i64,
        ra: i64,
        rb: i64,
        rc: i64,
        uza: i64,
        uzb: i64,
        uzc: i64,
        vza: i64,
        vzb: i64,
        vzc: i64,
        py: i64,
        x0: i64,
        x1: i64,
        y0: i64,
        y1: i64,
        Ghost(fb0): Ghost<Seq<u32>>,
        Ghost(db0): Ghost<Seq<i64>>,
        Ghost(fbt): Ghost<Seq<u32>>,
        Ghost(dbt): Ghost<Seq<i64>>,
    )
        requires
            screen_wf(*old(self)),
            0 < old(self).frame_buffer_size.width,
            0 < old(self).frame_buffer_size.height,
            v2_bounded(a) && v2_bounded(b) && v2_bounded(c),
            0 < za <= Z_LIMIT && 0 < zb <= Z_LIMIT && 0 < zc <= Z_LIMIT,
            tri_den(a, b, c) != 0,
            den_abs == sden(a, b, c),
            sa0 == sgn(tri_den(a, b, c)) * (b.y - a.y),
            sb0 == sgn(tri_den(a, b, c)) * (a.x - b.x),
            sc0 == sgn(tri_den(a, b, c)) * (b.x * a.y - a.x * b.y),
            sa1 == sgn(tri_den(a, b, c)) * (c.y - b.y),
            sb1 == sgn(tri_den(a, b, c)) * (b.x - c.x),
            sc1 == sgn(tri_den(a, b, c)) * (c.x * b.y - b.x * c.y),
            sa2 == sgn(tri_den(a, b, c)) * (a.y - c.y),
            sb2 == sgn(tri_den(a, b, c)) * (c.x - a.x),
            sc2 == sgn(tri_den(a, b, c)) * (a.x * c.y - c.x * a.y),
            -0x2000_0000 <= sa0 <= 0x2000_0000 && -0x2000_0000 <= sb0 <= 0x2000_0000,
            -0x2000_0000 <= sa1 <= 0x2000_0000 && -0x2000_0000 <= sb1 <= 0x2000_0000,
            -0x2000_0000 <= sa2 <= 0x2000_0000 && -0x2000_0000 <= sb2 <= 0x2000_0000,
            -0x400_0000_0000_0000 <= sc0 <= 0x400_0000_0000_0000,
            -0x400_0000_0000_0000 <= sc1 <= 0x400_0000_0000_0000,
            -0x400_0000_0000_0000 <= sc2 <= 0x400_0000_0000_0000,
            match texture_coordinate {
                Some(t3) => ra == z_recip(za as int) && rb == z_recip(zb as int) && rc == z_recip(
                    zc as int,
                ) && uza == uv_over_z(t3.0.u as int, za as int) && uzb == uv_over_z(
                    t3.1.u as int,
                    zb as int,
                ) && uzc == uv_over_z(t3.2.u as int, zc as int) && vza == uv_over_z(
                    t3.0.v as int,
                    za as int,
                ) && vzb == uv_over_z(t3.1.v as int, zb as int) && vzc == uv_over_z(
                    t3.2.v as int,
                    zc as int,
                ) && 0 <= ra <= 0x1_0000_0000 && 0 <= rb <= 0x1_0000_0000 && 0 <= rc
                    <= 0x1_0000_0000 && -0x2000_0000_0000 <= uza <= 0x2000_0000_0000
                    && -0x2000_0000_0000 <= uzb <= 0x2000_0000_0000 && -0x2000_0000_0000 <= uzc
                    <= 0x2000_0000_0000 && -0x2000_0000_0000 <= vza <= 0x2000_0000_0000
                    && -0x2000_0000_0000 <= vzb <= 0x2000_0000_0000 && -0x2000_0000_0000 <= vzc
                    <= 0x2000_0000_0000,
                None => true,
            },
            match texture_map {
                Some(t) => tex_wf(*t),
                None => true,
            },
            x0 == bbox_x0(a, b, c, old(self).frame_buffer_size.width as int),
            x1 == bbox_x1(a, b, c, old(self).frame_buffer_size.width as int),
            y0 == bbox_y0(a, b, c, old(self).frame_buffer_size.height as int),
            y1 == bbox_y1(a, b, c, old(self).frame_buffer_size.height as int),
            y0 <= py <= y1,
            fb0.len() == old(self).frame_buffer@.len(),
            db0.len() == old(self).depth_buffer@.len(),
            fbt == draw_fb(
                fb0,
                db0,
                a,
                b,
                c,
                za as int,
                zb as int,
                zc as int,
                texture_coordinate,
                *texture_map,
                old(self).frame_buffer_size.width as int,
                old(self).frame_buffer_size.height as int,
            ),
            dbt == draw_db(
                fb0,
                db0,
                a,
                b,
                c,
                za as int,
                zb as int,
                zc as int,
                old(self).frame_buffer_size.width as int,
                old(self).frame_buffer_size.height as int,
            ),
            forall|i: int|
                0 <= i < fb0.len() && x0 <= i % (old(self).frame_buffer_size.width as int) - (old(
                    self,
                ).frame_buffer_size.width as int) / 2 <= x1 && y0 <= i / (old(
                    self,
                ).frame_buffer_size.width as int) - (old(self).frame_buffer_size.height as int) / 2
                    < py && i / (old(self).frame_buffer_size.width as int) - (old(
                    self,
                ).frame_buffer_size.height as int) / 2 <= y1 ==> old(self).frame_buffer@[i]
                    == fbt[i] && old(self).depth_buffer@[i] == dbt[i],
            forall|i: int|
                0 <= i < fb0.len() && !(x0 <= i % (old(self).frame_buffer_size.width as int) - (old(
                    self,
                ).frame_buffer_size.width as int) / 2 <= x1 && y0 <= i / (old(
                    self,
                ).frame_buffer_size.width as int) - (old(self).frame_buffer_size.height as int) / 2
                    < py && i / (old(self).frame_buffer_size.width as int) - (old(
                    self,
                ).frame_buffer_size.height as int) / 2 <= y1) ==> old(self).frame_buffer@[i]
                    == fb0[i] && old(self).depth_buffer@[i] == db0[i],
        ensures
            screen_wf(*final(self)),
            final(self).frame_buffer_size == old(self).frame_buffer_size,
            final(self).frame_buffer@.len() == fb0.len(),
            final(self).depth_buffer@.len() == db0.len(),
            forall|i: int|
                0 <= i < fb0.len() && x0 <= i % (old(self).frame_buffer_size.width as int) - (old(
                    self,
                ).frame_buffer_size.width as int) / 2 <= x1 && y0 <= i / (old(
                    self,
                ).frame_buffer_size.width as int) - (old(self).frame_buffer_size.height as int) / 2
                    < py + 1 && i / (old(self).frame_buffer_size.width as int) - (old(
                    self,
                ).frame_buffer_size.height as int) / 2 <= y1 ==> final(self).frame_buffer@[i]
                    == fbt[i] && final(self).depth_buffer@[i] == dbt[i],
            forall|i: int|
                0 <= i < fb0.len() && !(x0 <= i % (old(self).frame_buffer_size.width as int) - (old(
                    self,
                ).frame_buffer_size.width as int) / 2 <= x1 && y0 <= i / (old(
                    self,
                ).frame_buffer_size.width as int) - (old(self).frame_buffer_size.height as int) / 2
                    < py + 1 && i / (old(self).frame_buffer_size.width as int) - (old(
                    self,
                ).frame_buffer_size.height as int) / 2 <= y1) ==> final(self).frame_buffer@[i]
                    == fb0[i] && final(self).depth_buffer@[i] == db0[i],
    {
        let w = self.frame_buffer_size.width;
        let h = self.frame_buffer_size.height;
        let ghost wi = w as int;
        let ghost hi = h as int;
            let mut px: i64 = x0;
        while px <= x1
            invariant
                x0 <= px,
                px == x0 || px <= x1 + 1,
                y0 <= py && py <= y1,
                screen_wf(*self),
                self.frame_buffer_size == old(self).frame_buffer_size,
                self.frame_buffer@.len() == fb0.len(),
                self.depth_buffer@.len() == db0.len(),
                forall|i: int|
                    0 <= i < fb0.len() && x0 <= i % wi - wi / 2 <= x1 && (i / wi - hi / 2 < py
                        || (i / wi - hi / 2 == py && i % wi - wi / 2 < px)) && y0 <= i / wi - hi
                        / 2 <= y1 ==> self.frame_buffer@[i] == fbt[i] && self.depth_buffer@[i]
                        == dbt[i],
                forall|i: int|
                    0 <= i < fb0.len() && !(x0 <= i % wi - wi / 2 <= x1 && y0 <= i / wi - hi / 2
                        <= y1 && (i / wi - hi / 2 < py || (i / wi - hi / 2 == py && i % wi - wi
                        / 2 < px))) ==> self.frame_buffer@[i] == fb0[i]
                        && self.depth_buffer@[i] == db0[i],
            decreases x1 + 1 - px,
        {
            let ghost idx = pix_index(px as int, py as int, wi, hi);
            proof {
                lemma_index_roundtrip(px as int, py as int, wi, hi);
            }
            let ghost fb_before = self.frame_buffer@;
            let ghost db_before = self.depth_buffer@;
            self.raster_pixel(
                a,
                b,
                c,
                za,
                zb,
                zc,
                texture_coordinate,
                texture_map,
                sa0,
                sb0,
                sc0,
                sa1,
                sb1,
                sc1,
                sa2,
                sb2,
                sc2,
                den_abs,
                ra,
                rb,
                rc,
                uza,
                uzb,
                uzc,
                vza,
                vzb,
                vzc,
                px,
                py,
            );
            proof {
                reveal(draw_fb);
                reveal(draw_db);
                assert(db_before[idx] == db0[idx]);
                assert(fb_before[idx] == fb0[idx]);
                let write = pix_inside(a, b, c, px as int, py as int) && 0 < pix_depth(
                    a,
                    b,
                    c,
                    za as int,
                    zb as int,
                    zc as int,
                    px as int,
                    py as int,
                ) < db_before[idx];
                assert(tri_active(a, b, c, px as int, py as int, wi, hi) <==> pix_inside(
                    a,
                    b,
                    c,
                    px as int,
                    py as int,
                ));
                assert(fbt[idx] == if write {
                    pix_color(
                        a,
                        b,
                        c,
                        za as int,
                        zb as int,
                        zc as int,
                        texture_coordinate,
                        *texture_map,
                        px as int,
                        py as int,
                    )
                } else {
                    fb0[idx]
                });
                assert(dbt[idx] == if write {
                    pix_depth(
                        a,
                        b,
                        c,
                        za as int,
                        zb as int,
                        zc as int,
                        px as int,
                        py as int,
                    ) as i64
                } else {
                    db0[idx]
                });
                assert forall|i: int|
                    0 <= i < fb0.len() && x0 <= i % wi - wi / 2 <= x1 && (i / wi - hi / 2 < py
                        || (i / wi - hi / 2 == py && i % wi - wi / 2 < px + 1)) && y0 <= i / wi
                        - hi / 2 <= y1 implies self.frame_buffer@[i] == fbt[i]
                    && self.depth_buffer@[i] == dbt[i] by {
                    if i % wi - wi / 2 == px && i / wi - hi / 2 == py {
                        lemma_fundamental_div_mod(i, wi);
                        assert(wi * (i / wi) == (i / wi) * wi) by (nonlinear_arith);
                        assert(i == idx);
                    }
                }
                assert forall|i: int|
                    0 <= i < fb0.len() && !(x0 <= i % wi - wi / 2 <= x1 && y0 <= i / wi - hi / 2
                        <= y1 && (i / wi - hi / 2 < py || (i / wi - hi / 2 == py && i % wi - wi
                        / 2 < px + 1))) implies self.frame_buffer@[i] == fb0[i]
                    && self.depth_buffer@[i] == db0[i] by {
                    if i % wi - wi / 2 == px && i / wi - hi / 2 == py {
                        lemma_fundamental_div_mod(i, wi);
                        assert(wi * (i / wi) == (i / wi) * wi) by (nonlinear_arith);
                        assert(i == idx);
                    }
                    assert(i != idx);
                }
            }
            px = px + 1;
        }
    }
}


impl Screen {
    /// Every bounding-box row of one triangle, top to bottom.
    #[verifier::rlimit(100)]
    #[verifier::loop_isolation(false)]
    #[allow(unused_variables)]
    fn raster_rows(
        &mut self,
        a: Vertex2,
        b: Vertex2,
        c: Vertex2,
        za: i64,
        zb: i64,
        zc: i64,
        texture_coordinate: Option<(TextureCoordinate, TextureCoordinate, TextureCoordinate)>,
        texture_map: &Option<TextureMap>,
        sa0: i64,
        sb0: i64,
        sc0: i64,
        sa1: i64,
        sb1: i64,
        sc1: i64,
        sa2: i64,
        sb2: i64,
        sc2: i64,
        den_abs: i64,
        ra: i64,
        rb: i64,
        rc: i64,
        uza: i64,
        uzb: i64,
        uzc: i64,
        vza: i64,
        vzb: i64,
        vzc: i64,
        x0: i64,
        x1: i64,
        y0: i64,
        y1: i64,
        Ghost(fb0): Ghost<Seq<u32>>,
        Ghost(db0): Ghost<Seq<i64>>,
        Ghost(fbt): Ghost<Seq<u32>>,
        Ghost(dbt): Ghost<Seq<i64>>,
    )
        requires
            screen_wf(*old(self)),
            0 < old(self).frame_buffer_size.width,
            0 < old(self).frame_buffer_size.height,
            v2_bounded(a) && v2_bounded(b) && v2_bounded(c),
            0 < za <= Z_LIMIT && 0 < zb <= Z_LIMIT && 0 < zc <= Z_LIMIT,
            tri_den(a, b, c) != 0,
            den_abs == sden(a, b, c),
            sa0 == sgn(tri_den(a, b, c)) * (b.y - a.y),
            sb0 == sgn(tri_den(a, b, c)) * (a.x - b.x),
            sc0 == sgn(tri_den(a, b, c)) * (b.x * a.y - a.x * b.y),
            sa1 == sgn(tri_den(a, b, c)) * (c.y - b.y),
            sb1 == sgn(tri_den(a, b, c)) * (b.x - c.x),
            sc1 == sgn(tri_den(a, b, c)) * (c.x * b.y - b.x * c.y),
            sa2 == sgn(tri_den(a, b, c)) * (a.y - c.y),
            sb2 == sgn(tri_den(a, b, c)) * (c.x - a.x),
            sc2 == sgn(tri_den(a, b, c)) * (a.x * c.y - c.x * a.y),
            -0x2000_0000 <= sa0 <= 0x2000_0000 && -0x2000_0000 <= sb0 <= 0x2000_0000,
            -0x2000_0000 <= sa1 <= 0x2000_0000 && -0x2000_0000 <= sb1 <= 0x2000_0000,
            -0x2000_0000 <= sa2 <= 0x2000_0000 && -0x2000_0000 <= sb2 <= 0x2000_0000,
            -0x400_0000_0000_0000 <= sc0 <= 0x400_0000_0000_0000,
            -0x400_0000_0000_0000 <= sc1 <= 0x400_0000_0000_0000,
            -0x400_0000_0000_0000 <= sc2 <= 0x400_0000_0000_0000,
            match texture_coordinate {
                Some(t3) => ra == z_recip(za as int) && rb == z_recip(zb as int) && rc == z_recip(
                    zc as int,
                ) && uza == uv_over_z(t3.0.u as int, za as int) && uzb == uv_over_z(
                    t3.1.u as int,
                    zb as int,
                ) && uzc == uv_over_z(t3.2.u as int, zc as int) && vza == uv_over_z(
                    t3.0.v as int,
                    za as int,
                ) && vzb == uv_over_z(t3.1.v as int, zb as int) && vzc == uv_over_z(
                    t3.2.v as int,
                    zc as int,
                ) && 0 <= ra <= 0x1_0000_0000 && 0 <= rb <= 0x1_0000_0000 && 0 <= rc
                    <= 0x1_0000_0000 && -0x2000_0000_0000 <= uza <= 0x2000_0000_0000
                    && -0x2000_0000_0000 <= uzb <= 0x2000_0000_0000 && -0x2000_0000_0000 <= uzc
                    <= 0x2000_0000_0000 && -0x2000_0000_0000 <= vza <= 0x2000_0000_0000
                    && -0x2000_0000_0000 <= vzb <= 0x2000_0000_0000 && -0x2000_0000_0000 <= vzc
                    <= 0x2000_0000_0000,
                None => true,
            },
            match texture_map {
                Some(t) => tex_wf(*t),
                None => true,
            },
            x0 == bbox_x0(a, b, c, old(self).frame_buffer_size.width as int),
            x1 == bbox_x1(a, b, c, old(self).frame_buffer_size.width as int),
            y0 == bbox_y0(a, b, c, old(self).frame_buffer_size.height as int),
            y1 == bbox_y1(a, b, c, old(self).frame_buffer_size.height as int),
            fb0 == old(self).frame_buffer@,
            db0 == old(self).depth_buffer@,
            fbt == draw_fb(
                fb0,
                db0,
                a,
                b,
                c,
                za as int,
                zb as int,
                zc as int,
                texture_coordinate,
                *texture_map,
                old(self).frame_buffer_size.width as int,
                old(self).frame_buffer_size.height as int,
            ),
            dbt == draw_db(
                fb0,
                db0,
                a,
                b,
                c,
                za as int,
                zb as int,
                zc as int,
                old(self).frame_buffer_size.width as int,
                old(self).frame_buffer_size.height as int,
            ),
        ensures
            screen_wf(*final(self)),
            final(self).frame_buffer_size == old(self).frame_buffer_size,
            final(self).frame_buffer@ == fbt,
            final(self).depth_buffer@ == dbt,
    {
        let w = self.frame_buffer_size.width;
        let h = self.frame_buffer_size.height;
        let ghost wi = w as int;
        let ghost hi = h as int;
        let mut py: i64 = y0;
        while py <= y1
            invariant
                y0 <= py,
                py == y0 || py <= y1 + 1,
                screen_wf(*self),
                self.frame_buffer_size == old(self).frame_buffer_size,
                self.frame_buffer@.len() == fb0.len(),
                self.depth_buffer@.len() == db0.len(),
                forall|i: int|
                    0 <= i < fb0.len() && x0 <= i % wi - wi / 2 <= x1 && y0 <= i / wi - hi / 2 < py
                        && i / wi - hi / 2 <= y1 ==> self.frame_buffer@[i] == fbt[i]
                        && self.depth_buffer@[i] == dbt[i],
                forall|i: int|
                    0 <= i < fb0.len() && !(x0 <= i % wi - wi / 2 <= x1 && y0 <= i / wi - hi / 2
                        < py && i / wi - hi / 2 <= y1) ==> self.frame_buffer@[i] == fb0[i]
                        && self.depth_buffer@[i] == db0[i],
            decreases y1 + 1 - py,
        {
            self.raster_row(
                a,
                b,
                c,
                za,
                zb,
                zc,
                texture_coordinate,
                texture_map,
                sa0,
                sb0,
                sc0,
                sa1,
                sb1,
                sc1,
                sa2,
                sb2,
                sc2,
                den_abs,
                ra,
                rb,
                rc,
                uza,
                uzb,
                uzc,
                vza,
                vzb,
                vzc,
                py,
                x0,
                x1,
                y0,
                y1,
                Ghost(fb0),
                Ghost(db0),
                Ghost(fbt),
                Ghost(dbt),
            );
            py = py + 1;
        }
        proof {
            lemma_rows_complete(
                self.frame_buffer@,
                self.depth_buffer@,
                fb0,
                db0,
                fbt,
                dbt,
                a,
                b,
                c,
                za as int,
                zb as int,
                zc as int,
                texture_coordinate,
                *texture_map,
                wi,
                hi,
                x0 as int,
                x1 as int,
                y0 as int,
                y1 as int,
                py as int,
            );
        }
    }
}


/// A mesh whose triangles all point into its lists, as the loader guarantees.
pub open spec fn mesh_wf(m: Mesh) -> bool {
    &&& forall|k: int|
        0 <= k < m.vertex_indices@.len() ==> (#[trigger] m.vertex_indices@[k]).0
            < m.vertices@.len() && m.vertex_indices@[k].1 < m.vertices@.len()
            && m.vertex_indices@[k].2 < m.vertices@.len()
    &&& forall|k: int|
        0 <= k < m.texture_coordinate_indices@.len() ==> (#[trigger] m.texture_coordinate_indices@[k]).0
            < m.texture_coordinates@.len() && m.texture_coordinate_indices@[k].1
            < m.texture_coordinates@.len() && m.texture_coordinate_indices@[k].2
            < m.texture_coordinates@.len()
}

/// The face count `draw_model` walks: the vertex and texture triple lists
/// paired off, as far as both reach.
pub open spec fn face_count(m: Mesh) -> int {
    if m.vertex_indices@.len() <= m.texture_coordinate_indices@.len() {
        m.vertex_indices@.len() as int
    } else {
        m.texture_coordinate_indices@.len() as int
    }
}

/// The projected corner of face `k` at slot 0/1/2.
pub open spec fn face_vert(m: Mesh, k: int, slot: int) -> Vertex3 {
    let t = m.vertex_indices@[k];
    if slot == 0 {
        m.vertices@[t.0 as int]
    } else if slot == 1 {
        m.vertices@[t.1 as int]
    } else {
        m.vertices@[t.2 as int]
    }
}

pub open spec fn face_uv(m: Mesh, k: int, slot: int) -> TextureCoordinate {
    let t = m.texture_coordinate_indices@[k];
    if slot == 0 {
        m.texture_coordinates@[t.0 as int]
    } else if slot == 1 {
        m.texture_coordinates@[t.1 as int]
    } else {
        m.texture_coordinates@[t.2 as int]
    }
}

/// Whether face `k` is drawn for this camera: all three corners project (in
/// front of the camera and within the numeric horizon) and the face's texture
/// coordinates are within the rasterizer's range.
pub open spec fn face_drawable(m: Mesh, cam: Camera, k: int) -> bool {
    &&& project_ok(face_vert(m, k, 0), cam)
    &&& project_ok(face_vert(m, k, 1), cam)
    &&& project_ok(face_vert(m, k, 2), cam)
    &&& uv_bounded(face_uv(m, k, 0))
    &&& uv_bounded(face_uv(m, k, 1))
    &&& uv_bounded(face_uv(m, k, 2))
}

/// The projected screen point and carried depth of one corner.
pub open spec fn face_proj(m: Mesh, cam: Camera, k: int, slot: int) -> (Vertex2, i64) {
    let v = face_vert(m, k, slot);
    (Vertex2 { x: proj_x(v, cam) as i64, y: proj_y(v, cam) as i64 }, rel_z(v, cam) as i64)
}

/// The two buffers after the first `k` faces of the model are drawn in order:
/// each drawable face passes through `draw_fb` / `draw_db`, the rest are
/// skipped whole.
pub open spec fn draw_model_state(
    fb: Seq<u32>,
    db: Seq<i64>,
    m: Mesh,
    cam: Camera,
    tex: Option<TextureMap>,
    w: int,
    h: int,
    k: int,
) -> (Seq<u32>, Seq<i64>)
    decreases k,
{
    if k <= 0 {
        (fb, db)
    } else {
        let prev = draw_model_state(fb, db, m, cam, tex, w, h, k - 1);
        if face_drawable(m, cam, k - 1) {
            let pa = face_proj(m, cam, k - 1, 0);
            let pb = face_proj(m, cam, k - 1, 1);
            let pc = face_proj(m, cam, k - 1, 2);
            let uv = Some((face_uv(m, k - 1, 0), face_uv(m, k - 1, 1), face_uv(m, k - 1, 2)));
            (
                draw_fb(
                    prev.0,
                    prev.1,
                    pa.0,
                    pb.0,
                    pc.0,
                    pa.1 as int,
                    pb.1 as int,
                    pc.1 as int,
                    uv,
                    tex,
                    w,
                    h,
                ),
                draw_db(
                    prev.0,
                    prev.1,
                    pa.0,
                    pb.0,
                    pc.0,
                    pa.1 as int,
                    pb.1 as int,
                    pc.1 as int,
                    w,
                    h,
                ),
            )
        } else {
            prev
        }
    }
}

impl Screen {
    /// Draws a model: for each paired vertex-index and texture-index triple,
    /// the corners are gathered, projected through the camera, and the
    /// triangle rasterized; a face with a corner at or behind the camera, or
    /// beyond the numeric horizon, is skipped whole for this frame.
    #[verifier::rlimit(100)]
    #[verifier::loop_isolation(false)]
    pub fn draw_model(&mut self, model: &Model, camera: Camera)
        requires
            screen_wf(*old(self)),
            cam_wf(camera),
            mesh_wf(model.mesh),
            match model.texture_map {
                Some(t) => tex_wf(t),
                None => true,
            },
        ensures
            screen_wf(*final(self)),
            final(self).frame_buffer_size == old(self).frame_buffer_size,
            (final(self).frame_buffer@, final(self).depth_buffer@) == draw_model_state(
                old(self).frame_buffer@,
                old(self).depth_buffer@,
                model.mesh,
                camera,
                model.texture_map,
                old(self).frame_buffer_size.width as int,
                old(self).frame_buffer_size.height as int,
                face_count(model.mesh),
            ),
    {
        let ghost fb0 = self.frame_buffer@;
        let ghost db0 = self.depth_buffer@;
        let ghost wi = self.frame_buffer_size.width as int;
        let ghost hi = self.frame_buffer_size.height as int;
        let nv = model.mesh.vertex_indices.len();
        let nt = model.mesh.texture_coordinate_indices.len();
        let n = if nv <= nt {
            nv
        } else {
            nt
        };
        let mut k: usize = 0;
        while k < n
            invariant
                k <= n,
                n == face_count(model.mesh),
                screen_wf(*self),
                self.frame_buffer_size == old(self).frame_buffer_size,
                (self.frame_buffer@, self.depth_buffer@) == draw_model_state(
                    fb0,
                    db0,
                    model.mesh,
                    camera,
                    model.texture_map,
                    wi,
                    hi,
                    k as int,
                ),
            decreases n - k,
        {
            let (i0, i1, i2) = model.mesh.vertex_indices[k];
            let v0 = model.mesh.vertices[i0];
            let v1 = model.mesh.vertices[i1];
            let v2 = model.mesh.vertices[i2];
            let (t0, t1, t2) = model.mesh.texture_coordinate_indices[k];
            let uv0 = model.mesh.texture_coordinates[t0];
            let uv1 = model.mesh.texture_coordinates[t1];
            let uv2 = model.mesh.texture_coordinates[t2];
            let p0 = self.project_point(v0, camera);
            let p1 = self.project_point(v1, camera);
            let p2 = self.project_point(v2, camera);
            let uv_ok = uv0.u >= -RASTER_LIMIT && uv0.u <= RASTER_LIMIT && uv0.v >= -RASTER_LIMIT
                && uv0.v <= RASTER_LIMIT && uv1.u >= -RASTER_LIMIT && uv1.u <= RASTER_LIMIT
                && uv1.v >= -RASTER_LIMIT && uv1.v <= RASTER_LIMIT && uv2.u >= -RASTER_LIMIT
                && uv2.u <= RASTER_LIMIT && uv2.v >= -RASTER_LIMIT && uv2.v <= RASTER_LIMIT;
            match (p0, p1, p2) {
                (Some(pa), Some(pb), Some(pc)) => {
                    if uv_ok {
                        self.draw_triangle((pa, pb, pc), Some((uv0, uv1, uv2)), &model.texture_map);
                    }
                },
                _ => (),
            }
            k = k + 1;
        }
    }

    /// Rotates the model's vertices in place about the selected axes, x then
    /// y then z, each nonzero mask component enabling one axis; the angle is
    /// given by its fixed-point sine and cosine.
    pub fn rotate_model(
        &self,
        model: &mut Model,
        rotation: (usize, usize, usize),
        sin_t: i64,
        cos_t: i64,
    )
        requires
            -FX_ONE <= sin_t <= FX_ONE,
            -FX_ONE <= cos_t <= FX_ONE,
        ensures
            final(model).mesh.vertices@.len() == old(model).mesh.vertices@.len(),
            forall|i: int|
                0 <= i < old(model).mesh.vertices@.len() ==> final(model).mesh.vertices@[i]
                    == rotate_mask_spec(
                    old(model).mesh.vertices@[i],
                    rotation,
                    sin_t as int,
                    cos_t as int,
                ),
            final(model).mesh.texture_coordinates == old(model).mesh.texture_coordinates,
            final(model).mesh.vertex_indices == old(model).mesh.vertex_indices,
            final(model).mesh.texture_coordinate_indices == old(
                model,
            ).mesh.texture_coordinate_indices,
            final(model).texture_map == old(model).texture_map,
    {
        if rotation.0 != 0 {
            rotate_pass(&mut model.mesh.vertices, Axis::X, sin_t, cos_t);
        }
        if rotation.1 != 0 {
            rotate_pass(&mut model.mesh.vertices, Axis::Y, sin_t, cos_t);
        }
        if rotation.2 != 0 {
            rotate_pass(&mut model.mesh.vertices, Axis::Z, sin_t, cos_t);
        }
        proof {
            assert forall|i: int| 0 <= i < old(model).mesh.vertices@.len() implies model.mesh.vertices@[i]
                == rotate_mask_spec(
                old(model).mesh.vertices@[i],
                rotation,
                sin_t as int,
                cos_t as int,
            ) by {}
        }
    }
}

/// An integer clamped into the `i64` range, as the rotation passes clamp a
/// coordinate that left the representable range.
pub open spec fn sat_i64(v: int) -> int {
    if v < -0x8000_0000_0000_0000 {
        -0x8000_0000_0000_0000
    } else if v > 0x7fff_ffff_ffff_ffff {
        0x7fff_ffff_ffff_ffff
    } else {
        v
    }
}

/// One vertex turned about one axis by the angle whose sine and cosine are
/// given, the standard right-handed formulas in fixed point.
pub open spec fn rot_axis_spec(v: Vertex3, axis: Axis, s: int, c: int) -> Vertex3 {
    match axis {
        Axis::X => Vertex3 {
            x: v.x,
            y: sat_i64((v.y * c - v.z * s) / FX_ONE as int) as i64,
            z: sat_i64((v.z * c + v.y * s) / FX_ONE as int) as i64,
        },
        Axis::Y => Vertex3 {
            x: sat_i64((v.x * c + v.z * s) / FX_ONE as int) as i64,
            y: v.y,
            z: sat_i64((v.z * c - v.x * s) / FX_ONE as int) as i64,
        },
        Axis::Z => Vertex3 {
            x: sat_i64((v.x * c - v.y * s) / FX_ONE as int) as i64,
            y: sat_i64((v.y * c + v.x * s) / FX_ONE as int) as i64,
            z: v.z,
        },
    }
}

/// The selected axis rotations composed, x then y then z.
pub open spec fn rotate_mask_spec(v: Vertex3, rotation: (usize, usize, usize), s: int, c: int) -> Vertex3 {
    let v1 = if rotation.0 != 0 {
        rot_axis_spec(v, Axis::X, s, c)
    } else {
        v
    };
    let v2 = if rotation.1 != 0 {
        rot_axis_spec(v1, Axis::Y, s, c)
    } else {
        v1
    };
    if rotation.2 != 0 {
        rot_axis_spec(v2, Axis::Z, s, c)
    } else {
        v2
    }
}

/// One fixed-point rotation component `(p * c + q * s) / FX_ONE`, clamped
/// into `i64`.
pub(crate) fn rot_add(p: i64, q: i64, c: i64, s: i64) -> (r: i64)
    requires
        -FX_ONE <= s <= FX_ONE,
        -FX_ONE <= c <= FX_ONE,
    ensures
        r == sat_i64((p * c + q * s) / FX_ONE as int),
{
    proof {
        crate::fixed::lemma_mul_abs_bound(p as int, c as int, 0x8000_0000_0000_0000, 0x1_0000);
        crate::fixed::lemma_mul_abs_bound(q as int, s as int, 0x8000_0000_0000_0000, 0x1_0000);
    }
    let t: i128 = p as i128 * c as i128 + q as i128 * s as i128;
    let d = crate::fixed::div_floor_wide(t, FX_ONE as i128);
    if d > i64::MAX as i128 {
        i64::MAX
    } else if d < i64::MIN as i128 {
        i64::MIN
    } else {
        d as i64
    }
}

/// One fixed-point rotation component `(p * c - q * s) / FX_ONE`, clamped
/// into `i64`.
pub(crate) fn rot_sub(p: i64, q: i64, c: i64, s: i64) -> (r: i64)
    requires
        -FX_ONE <= s <= FX_ONE,
        -FX_ONE <= c <= FX_ONE,
    ensures
        r == sat_i64((p * c - q * s) / FX_ONE as int),
{
    proof {
        crate::fixed::lemma_mul_abs_bound(p as int, c as int, 0x8000_0000_0000_0000, 0x1_0000);
        crate::fixed::lemma_mul_abs_bound(q as int, s as int, 0x8000_0000_0000_0000, 0x1_0000);
    }
    let t: i128 = p as i128 * c as i128 - q as i128 * s as i128;
    let d = crate::fixed::div_floor_wide(t, FX_ONE as i128);
    if d > i64::MAX as i128 {
        i64::MAX
    } else if d < i64::MIN as i128 {
        i64::MIN
    } else {
        d as i64
    }
}

/// One in-place rotation pass over a vertex list.
#[verifier::loop_isolation(false)]
fn rotate_pass(verts: &mut Vec<Vertex3>, axis: Axis, sin_t: i64, cos_t: i64)
    requires
        -FX_ONE <= sin_t <= FX_ONE,
        -FX_ONE <= cos_t <= FX_ONE,
    ensures
        final(verts)@.len() == old(verts)@.len(),
        forall|i: int|
            0 <= i < old(verts)@.len() ==> final(verts)@[i] == rot_axis_spec(
                old(verts)@[i],
                axis,
                sin_t as int,
                cos_t as int,
            ),
{
    let n = verts.len();
    let mut i: usize = 0;
    while i < n
        invariant
            i <= n,
            n == verts@.len(),
            verts@.len() == old(verts)@.len(),
            forall|k: int|
                0 <= k < i ==> verts@[k] == rot_axis_spec(
                    old(verts)@[k],
                    axis,
                    sin_t as int,
                    cos_t as int,
                ),
            forall|k: int| i <= k < n ==> verts@[k] == old(verts)@[k],
        decreases n - i,
    {
        let v = verts[i];
        let r = match axis {
            Axis::X => Vertex3 {
                x: v.x,
                y: rot_sub(v.y, v.z, cos_t, sin_t),
                z: rot_add(v.z, v.y, cos_t, sin_t),
            },
            Axis::Y => Vertex3 {
                x: rot_add(v.x, v.z, cos_t, sin_t),
                y: v.y,
                z: rot_sub(v.z, v.x, cos_t, sin_t),
            },
            Axis::Z => Vertex3 {
                x: rot_sub(v.x, v.y, cos_t, sin_t),
                y: rot_add(v.y, v.x, cos_t, sin_t),
                z: v.z,
            },
        };
        verts[i] = r;
        i = i + 1;
    }
}

/// Rotates every vertex of the model about one axis, in place.
pub fn rotate_model(model: &mut Model, rotation_axis: Axis, sin_t: i64, cos_t: i64)
    requires
        -FX_ONE <= sin_t <= FX_ONE,
        -FX_ONE <= cos_t <= FX_ONE,
    ensures
        final(model).mesh.vertices@.len() == old(model).mesh.vertices@.len(),
        forall|i: int|
            0 <= i < old(model).mesh.vertices@.len() ==> final(model).mesh.vertices@[i]
                == rot_axis_spec(
                old(model).mesh.vertices@[i],
                rotation_axis,
                sin_t as int,
                cos_t as int,
            ),
        final(model).mesh.texture_coordinates == old(model).mesh.texture_coordinates,
        final(model).mesh.vertex_indices == old(model).mesh.vertex_indices,
        final(model).mesh.texture_coordinate_indices == old(model).mesh.texture_coordinate_indices,
        final(model).texture_map == old(model).texture_map,
{
    rotate_pass(&mut model.mesh.vertices, rotation_axis, sin_t, cos_t);
}

/// Rotating by the zero angle (sine 0, cosine 1) moves no vertex: the
/// fixed-point formulas return each coordinate exactly.
pub proof fn lemma_rotation_identity(v: Vertex3, axis: Axis)
    ensures
        rot_axis_spec(v, axis, 0, FX_ONE as int) == v,
{
    lemma_rot_zero_one(v.x as int, v.y as int);
    lemma_rot_zero_one(v.y as int, v.z as int);
    lemma_rot_zero_one(v.z as int, v.x as int);
    lemma_rot_zero_one(v.y as int, v.x as int);
    lemma_rot_zero_one(v.z as int, v.y as int);
    lemma_rot_zero_one(v.x as int, v.z as int);
}

/// With cosine one and sine zero, `(p * c + q * s) / FX_ONE` is `p`.
proof fn lemma_rot_zero_one(p: int, q: int)
    ensures
        (p * FX_ONE + q * 0) / FX_ONE as int == p,
        sat_i64((p * FX_ONE + q * 0) / FX_ONE as int) == p || !(-0x8000_0000_0000_0000 <= p
            <= 0x7fff_ffff_ffff_ffff),
{
    assert(q * 0 == 0) by (nonlinear_arith);
    lemma_fundamental_div_mod_converse(p * FX_ONE, FX_ONE as int, p, 0);
}

/// Rotating by the zero angle about any selection of axes leaves every
/// vertex unchanged.
pub proof fn lemma_rotate_mask_identity(v: Vertex3, rotation: (usize, usize, usize))
    ensures
        rotate_mask_spec(v, rotation, 0, FX_ONE as int) == v,
{
    lemma_rotation_identity(v, Axis::X);
    let v1 = if rotation.0 != 0 {
        rot_axis_spec(v, Axis::X, 0, FX_ONE as int)
    } else {
        v
    };
    lemma_rotation_identity(v1, Axis::Y);
    let v2 = if rotation.1 != 0 {
        rot_axis_spec(v1, Axis::Y, 0, FX_ONE as int)
    } else {
        v1
    };
    lemma_rotation_identity(v2, Axis::Z);
}


/// Occlusion is independent of draw order: given two triangles whose
/// interpolated depths differ wherever both cover a pixel in front of the
/// camera, drawing far-then-near and near-then-far leave the frame buffer and
/// the depth buffer identical — at every covered pixel the closer triangle's
/// color wins either way.
#[verifier::rlimit(100)]
pub proof fn lemma_draw_order_independent(
    fb: Seq<u32>,
    db: Seq<i64>,
    a1: Vertex2,
    b1: Vertex2,
    c1: Vertex2,
    za1: int,
    zb1: int,
    zc1: int,
    uv1: Option<(TextureCoordinate, TextureCoordinate, TextureCoordinate)>,
    tex1: Option<TextureMap>,
    a2: Vertex2,
    b2: Vertex2,
    c2: Vertex2,
    za2: int,
    zb2: int,
    zc2: int,
    uv2: Option<(TextureCoordinate, TextureCoordinate, TextureCoordinate)>,
    tex2: Option<TextureMap>,
    w: int,
    h: int,
)
    requires
        fb.len() == db.len(),
        forall|i: int|
            0 <= i < db.len() && #[trigger] tri_active(a1, b1, c1, i % w - w / 2, i / w - h / 2, w, h)
                && tri_active(a2, b2, c2, i % w - w / 2, i / w - h / 2, w, h) && 0 < pix_depth(
                a1,
                b1,
                c1,
                za1,
                zb1,
                zc1,
                i % w - w / 2,
                i / w - h / 2,
            ) && 0 < pix_depth(a2, b2, c2, za2, zb2, zc2, i % w - w / 2, i / w - h / 2)
                ==> pix_depth(a1, b1, c1, za1, zb1, zc1, i % w - w / 2, i / w - h / 2) != pix_depth(
                a2,
                b2,
                c2,
                za2,
                zb2,
                zc2,
                i % w - w / 2,
                i / w - h / 2,
            ),
        forall|i: int|
            0 <= i < db.len() ==> 0 <= #[trigger] db[i],
        forall|i: int|
            0 <= i < db.len() && #[trigger] tri_active(a1, b1, c1, i % w - w / 2, i / w - h / 2, w, h)
                ==> pix_depth(a1, b1, c1, za1, zb1, zc1, i % w - w / 2, i / w - h / 2)
                <= 0x7fff_ffff_ffff_ffff,
        forall|i: int|
            0 <= i < db.len() && #[trigger] tri_active(a2, b2, c2, i % w - w / 2, i / w - h / 2, w, h)
                ==> pix_depth(a2, b2, c2, za2, zb2, zc2, i % w - w / 2, i / w - h / 2)
                <= 0x7fff_ffff_ffff_ffff,
    ensures
        ({
            let f1 = draw_fb(fb, db, a1, b1, c1, za1, zb1, zc1, uv1, tex1, w, h);
            let d1 = draw_db(fb, db, a1, b1, c1, za1, zb1, zc1, w, h);
            let f12 = draw_fb(f1, d1, a2, b2, c2, za2, zb2, zc2, uv2, tex2, w, h);
            let d12 = draw_db(f1, d1, a2, b2, c2, za2, zb2, zc2, w, h);
            let f2 = draw_fb(fb, db, a2, b2, c2, za2, zb2, zc2, uv2, tex2, w, h);
            let d2 = draw_db(fb, db, a2, b2, c2, za2, zb2, zc2, w, h);
            let f21 = draw_fb(f2, d2, a1, b1, c1, za1, zb1, zc1, uv1, tex1, w, h);
            let d21 = draw_db(f2, d2, a1, b1, c1, za1, zb1, zc1, w, h);
            f12 == f21 && d12 == d21
        }),
{
    reveal(draw_fb);
    reveal(draw_db);
    let f1 = draw_fb(fb, db, a1, b1, c1, za1, zb1, zc1, uv1, tex1, w, h);
    let d1 = draw_db(fb, db, a1, b1, c1, za1, zb1, zc1, w, h);
    let f12 = draw_fb(f1, d1, a2, b2, c2, za2, zb2, zc2, uv2, tex2, w, h);
    let d12 = draw_db(f1, d1, a2, b2, c2, za2, zb2, zc2, w, h);
    let f2 = draw_fb(fb, db, a2, b2, c2, za2, zb2, zc2, uv2, tex2, w, h);
    let d2 = draw_db(fb, db, a2, b2, c2, za2, zb2, zc2, w, h);
    let f21 = draw_fb(f2, d2, a1, b1, c1, za1, zb1, zc1, uv1, tex1, w, h);
    let d21 = draw_db(f2, d2, a1, b1, c1, za1, zb1, zc1, w, h);
    assert forall|i: int| 0 <= i < db.len() implies f12[i] == f21[i] && d12[i] == d21[i] by {
        let px = i % w - w / 2;
        let py = i / w - h / 2;
        let act1 = tri_active(a1, b1, c1, px, py, w, h);
        let act2 = tri_active(a2, b2, c2, px, py, w, h);
        let dep1 = pix_depth(a1, b1, c1, za1, zb1, zc1, px, py);
        let dep2 = pix_depth(a2, b2, c2, za2, zb2, zc2, px, py);
        if act1 && act2 && 0 < dep1 && 0 < dep2 {
            assert(dep1 != dep2);
        }
    }
    assert(f12 =~= f21);
    assert(d12 =~= d21);
}


/// At the pixel sitting on a corner, the interpolated depth is that corner's
/// own carried depth: the two edges through the corner vanish there, so the
/// whole barycentric weight falls on it.
pub proof fn lemma_depth_at_vertex(
    a: Vertex2,
    b: Vertex2,
    c: Vertex2,
    za: int,
    zb: int,
    zc: int,
    px: int,
    py: int,
)
    requires
        tri_den(a, b, c) != 0,
        px * FX_ONE == a.x,
        py * FX_ONE == a.y,
    ensures
        pix_depth(a, b, c, za, zb, zc, px, py) == za,
{
    let x = px * FX_ONE;
    let y = py * FX_ONE;
    let s = sgn(tri_den(a, b, c));
    assert(edge_fn(a.x as int, a.y as int, b.x as int, b.y as int, x, y) == 0) by (nonlinear_arith)
        requires
            x == a.x,
            y == a.y,
    ;
    assert(edge_fn(c.x as int, c.y as int, a.x as int, a.y as int, x, y) == 0) by (nonlinear_arith)
        requires
            x == a.x,
            y == a.y,
    ;
    assert(s * 0 == 0) by (nonlinear_arith);
    assert(pe0(a, b, c, px, py) == 0);
    assert(pe2(a, b, c, px, py) == 0);
    lemma_norm_sum(a, b, c, px, py);
    lemma_sden_pos(a, b, c);
    let d = sden(a, b, c);
    assert(pe1(a, b, c, px, py) == d);
    assert(0 * zc == 0 && 0 * zb == 0) by (nonlinear_arith);
    assert(d * za == za * d) by (nonlinear_arith);
    lemma_fundamental_div_mod_converse(d * za, d, za, 0);
}


/// At the pixel sitting on corner a, the perspective-correct texture
/// coordinate reduces to that corner's own: with a's u equal to zero, the
/// interpolated u is exactly zero, whatever the other corners carry.
pub proof fn lemma_uv_zero_at_vertex(
    a: Vertex2,
    b: Vertex2,
    c: Vertex2,
    za: int,
    zb: int,
    zc: int,
    ub: int,
    uc: int,
    px: int,
    py: int,
)
    requires
        tri_den(a, b, c) != 0,
        px * FX_ONE == a.x,
        py * FX_ONE == a.y,
        0 < za <= 0x1_0000_0000,
    ensures
        pix_uvq(a, b, c, za, zb, zc, 0, ub, uc, px, py) == 0,
{
    let x = px * FX_ONE;
    let y = py * FX_ONE;
    assert(edge_fn(a.x as int, a.y as int, b.x as int, b.y as int, x, y) == 0) by (nonlinear_arith)
        requires
            x == a.x,
            y == a.y,
    ;
    assert(edge_fn(c.x as int, c.y as int, a.x as int, a.y as int, x, y) == 0) by (nonlinear_arith)
        requires
            x == a.x,
            y == a.y,
    ;
    let s = sgn(tri_den(a, b, c));
    assert(s * 0 == 0) by (nonlinear_arith);
    assert(pe0(a, b, c, px, py) == 0);
    assert(pe2(a, b, c, px, py) == 0);
    lemma_norm_sum(a, b, c, px, py);
    lemma_sden_pos(a, b, c);
    let d = sden(a, b, c);
    assert(pe1(a, b, c, px, py) == d);
    // The reciprocal of a depth within range is at least one.
    lemma_fundamental_div_mod_converse(za, za, 1, 0);
    lemma_div_is_ordered(za, 0x1_0000_0000, za);
    assert(z_recip(za) >= 1);
    // The interpolated 1/z is positive, so dividing zero by it gives zero.
    let rnum = pix_rnum(a, b, c, za, zb, zc, px, py);
    assert(0 * z_recip(zc) == 0 && 0 * z_recip(zb) == 0) by (nonlinear_arith);
    assert(d * z_recip(za) >= d) by (nonlinear_arith)
        requires
            d > 0,
            z_recip(za) >= 1,
    ;
    assert(rnum >= d);
    // Corner a's u/z is zero, and so is the whole numerator.
    assert(0 * z_recip(za) == 0) by (nonlinear_arith);
    assert(0int / FX_ONE as int == 0);
    assert(uv_over_z(0, za) == 0);
    assert(d * 0 == 0) by (nonlinear_arith);
    assert(0int * FX_ONE as int == 0) by (nonlinear_arith);
    lemma_fundamental_div_mod_converse(0, rnum, 0, 0);
    assert(crate::renderer::model::clamp_fx(0) == 0);
}

} // verus!
