//! The model container: a mesh and the texture map sampled while it is drawn.
//!
//! The texture is decoded once, at load time, to a row-major RGBA byte buffer;
//! `get_pixel` then samples it by fixed-point UV coordinate: clamp into
//! [0, 1], flip v (UV origin bottom left, image rows top down), and take the
//! nearest texel, never indexing out of bounds.

use crate::fixed::FX_ONE;
use crate::render::obj::{obj_parse, acc_of, obj_indices_ok, ObjAcc, ParseError};
use crate::render::types::{Color, Mesh, TextureCoordinate};
use vstd::arithmetic::div_mod::{lemma_div_is_ordered, lemma_fundamental_div_mod_converse};
use vstd::prelude::*;

verus! {

/// Widest texture edge the sampler accepts; a decoded image over it is
/// rejected at load time so that the sampling arithmetic stays in range.
pub const TEXTURE_LIMIT: usize = 0x4000_0000;

/// What the image crate decodes a resource to: its pixel width, its pixel
/// height, and its row-major RGBA bytes, a function of the bytes alone.
pub uninterp spec fn decoded_rgba(bytes: Seq<u8>) -> (nat, nat, Seq<u8>);

/// Whether the image crate decodes the bytes at all, a function of the bytes
/// alone: decoding holds no state and reads nothing else.
pub uninterp spec fn decode_ok(bytes: Seq<u8>) -> bool;

/// Relies on `image::load_from_memory` and `DynamicImage::to_rgba8`: whether
/// the bytes decode depends on the bytes alone, and a successful decode
/// yields the image's dimensions and four bytes per pixel, row major.
#[verifier::external_body]
fn decode_rgba(bytes: &[u8]) -> (r: Option<(u64, u64, Vec<u8>)>)
    ensures
        r is Some <==> decode_ok(bytes@),
        match r {
            Some(d) => d.0 as nat == decoded_rgba(bytes@).0 && d.1 as nat == decoded_rgba(
                bytes@,
            ).1 && d.2@ == decoded_rgba(bytes@).2 && d.2@.len() == 4 * d.0 * d.1,
            None => true,
        },
{
    match image::load_from_memory(bytes) {
        Ok(img) => {
            let buf = img.to_rgba8();
            let (w, h) = (buf.width() as u64, buf.height() as u64);
            Some((w, h, buf.into_raw()))
        },
        Err(_) => None,
    }
}

/// A decoded texture: its extent and its row-major RGBA bytes.
#[derive(Clone, Debug)]
pub struct TextureMap {
    pub width: usize,
    pub height: usize,
    pub rgba: Vec<u8>,
}

/// A texture the sampler can work on: four bytes per pixel and bounded edges.
pub open spec fn tex_wf(t: TextureMap) -> bool {
    &&& t.rgba@.len() == 4 * t.width * t.height
    &&& t.width <= TEXTURE_LIMIT
    &&& t.height <= TEXTURE_LIMIT
}

/// A fixed-point coordinate clamped into [0, 1].
pub open spec fn clamp_fx(x: int) -> int {
    if x < 0 {
        0
    } else if x > FX_ONE {
        FX_ONE as int
    } else {
        x
    }
}

/// The sampled column: the clamped u coordinate, scaled to the texel grid and
/// rounded to nearest.
pub open spec fn sample_px(t: TextureMap, u: int) -> int {
    (clamp_fx(u) * (t.width - 1) + FX_ONE / 2) / FX_ONE as int
}

/// The sampled row: v is flipped, then scaled and rounded the same way.
pub open spec fn sample_py(t: TextureMap, v: int) -> int {
    ((FX_ONE - clamp_fx(v)) * (t.height - 1) + FX_ONE / 2) / FX_ONE as int
}

/// What sampling returns: the nearest texel's color, or the no-color sentinel
/// where the texture is empty or the offset would leave the buffer.
pub open spec fn spec_get_pixel(t: TextureMap, uv: TextureCoordinate) -> Option<Color> {
    if t.width == 0 || t.height == 0 {
        None::<Color>
    } else {
        let off = 4 * (sample_py(t, uv.v as int) * t.width + sample_px(t, uv.u as int));
        if off + 4 <= t.rgba@.len() {
            Some(
                Color {
                    r: t.rgba@[off],
                    g: t.rgba@[off + 1],
                    b: t.rgba@[off + 2],
                },
            )
        } else {
            None::<Color>
        }
    }
}

/// The clamped-and-rounded texel column lies on the texel grid.
pub proof fn lemma_sample_px_in_range(t: TextureMap, u: int)
    requires
        t.width >= 1,
    ensures
        0 <= sample_px(t, u) <= t.width - 1,
{
    let c = clamp_fx(u);
    let w1 = t.width - 1;
    assert(c * w1 >= 0 && c * w1 <= 65536 * w1) by (nonlinear_arith)
        requires
            0 <= c <= 65536,
            w1 >= 0,
    ;
    lemma_div_is_ordered(0, c * w1 + 32768, FX_ONE as int);
    lemma_div_is_ordered(c * w1 + 32768, 65536 * w1 + 32768, FX_ONE as int);
    lemma_fundamental_div_mod_converse(65536 * w1 + 32768, 65536, w1, 32768);
}

/// The clamped-and-rounded texel row lies on the texel grid.
pub proof fn lemma_sample_py_in_range(t: TextureMap, v: int)
    requires
        t.height >= 1,
    ensures
        0 <= sample_py(t, v) <= t.height - 1,
{
    let c = FX_ONE - clamp_fx(v);
    let h1 = t.height - 1;
    assert(c * h1 >= 0 && c * h1 <= 65536 * h1) by (nonlinear_arith)
        requires
            0 <= c <= 65536,
            h1 >= 0,
    ;
    lemma_div_is_ordered(0, c * h1 + 32768, FX_ONE as int);
    lemma_div_is_ordered(c * h1 + 32768, 65536 * h1 + 32768, FX_ONE as int);
    lemma_fundamental_div_mod_converse(65536 * h1 + 32768, 65536, h1, 32768);
}

/// On a nonempty well-formed texture every UV samples inside the buffer: the
/// clamp comes before any indexing, so no coordinate reaches out of bounds.
pub proof fn lemma_sample_always_hits(t: TextureMap, uv: TextureCoordinate)
    requires
        tex_wf(t),
        t.width >= 1,
        t.height >= 1,
    ensures
        spec_get_pixel(t, uv) is Some,
{
    lemma_sample_px_in_range(t, uv.u as int);
    lemma_sample_py_in_range(t, uv.v as int);
    let px = sample_px(t, uv.u as int);
    let py = sample_py(t, uv.v as int);
    assert(py * t.width + px <= (t.height - 1) * t.width + (t.width - 1)) by (nonlinear_arith)
        requires
            0 <= py <= t.height - 1,
            0 <= px <= t.width - 1,
            t.width >= 1,
    ;
    assert((t.height - 1) * t.width + t.width == t.height * t.width) by (nonlinear_arith);
    assert(t.width * t.height == t.height * t.width) by (nonlinear_arith);
    let off = 4 * (py * t.width + px);
    assert(py * t.width + px <= t.width * t.height - 1);
    assert(4 * (t.width * t.height) == 4 * t.width * t.height) by (nonlinear_arith);
    assert(off + 4 <= t.rgba@.len());
}

impl TextureMap {
    /// Wraps an already decoded RGBA buffer.
    pub fn new(width: usize, height: usize, rgba: Vec<u8>) -> (t: TextureMap)
        requires
            rgba@.len() == 4 * width * height,
            width <= TEXTURE_LIMIT,
            height <= TEXTURE_LIMIT,
        ensures
            t.width == width && t.height == height && t.rgba == rgba,
            tex_wf(t),
    {
        TextureMap { width, height, rgba }
    }

    /// Samples the texel nearest to `uv`, clamped into [0, 1] and v-flipped;
    /// the sentinel `None` comes only from an empty texture.
    pub fn get_pixel(&self, uv: TextureCoordinate) -> (r: Option<Color>)
        requires
            tex_wf(*self),
        ensures
            r == spec_get_pixel(*self, uv),
    {
        if self.width == 0 || self.height == 0 {
            return None;
        }
        proof {
            lemma_sample_px_in_range(*self, uv.u as int);
            lemma_sample_py_in_range(*self, uv.v as int);
        }
        let cu: i64 = if uv.u < 0 {
            0
        } else if uv.u > FX_ONE {
            FX_ONE
        } else {
            uv.u
        };
        let cv: i64 = if uv.v < 0 {
            0
        } else if uv.v > FX_ONE {
            FX_ONE
        } else {
            uv.v
        };
        let w1 = (self.width - 1) as u64;
        let h1 = (self.height - 1) as u64;
        let px = ((cu as u64 * w1 + 32768) / 65536) as usize;
        let py = (((FX_ONE - cv) as u64 * h1 + 32768) / 65536) as usize;
        proof {
            assert(px == sample_px(*self, uv.u as int));
            assert(py == sample_py(*self, uv.v as int));
            assert(py * self.width + px <= (self.height - 1) * self.width + (self.width
                - 1)) by (nonlinear_arith)
                requires
                    0 <= py <= self.height - 1,
                    0 <= px <= self.width - 1,
                    self.width >= 1,
            ;
            assert((self.height - 1) * self.width + self.width == self.height
                * self.width) by (nonlinear_arith);
            assert(self.width * self.height == self.height * self.width) by (nonlinear_arith);
            assert(py * self.width + px <= self.width * self.height - 1);
            assert(4 * (self.width * self.height) == 4 * self.width
                * self.height) by (nonlinear_arith);
            assert(4 * (py * self.width + px) + 4 <= self.rgba@.len());
        }
        let total = self.rgba.len();
        proof {
            assert(self.rgba@.len() <= usize::MAX);
            assert(py * self.width + px + 1 <= usize::MAX);
        }
        let off = 4 * (py * self.width + px);
        if off + 4 <= total {
            Some(Color { r: self.rgba[off], g: self.rgba[off + 1], b: self.rgba[off + 2] })
        } else {
            None
        }
    }
}

/// Why a model failed to load.
#[derive(Clone, Copy, PartialEq, Eq, Structural, Debug)]
pub enum LoadError {
    /// The mesh text was malformed; the inner value says how.
    Parse(ParseError),
    /// The texture bytes did not decode, or the image's edges are over
    /// `TEXTURE_LIMIT`.
    BadTexture,
}

/// A loaded model: the mesh, and the texture map where the resource had one.
#[derive(Clone, Debug)]
pub struct Model {
    pub mesh: Mesh,
    pub texture_map: Option<TextureMap>,
}

impl Model {
    pub fn new(mesh: Mesh, texture_map: Option<TextureMap>) -> (m: Model)
        ensures
            m.mesh == mesh && m.texture_map == texture_map,
    {
        Model { mesh, texture_map }
    }

    /// Loads a model from the bytes of its two resources: the mesh text is
    /// parsed exactly as `obj_parse` says, and the texture bytes are decoded
    /// once to RGBA. The load succeeds exactly when the text parses, the
    /// bytes decode, and the decoded edges are within `TEXTURE_LIMIT`.
    pub fn from_bytes(mesh_text: &[u8], texture_bytes: &[u8]) -> (r: Result<Model, LoadError>)
        ensures
            r is Ok <==> obj_parse(mesh_text@) is Ok && decode_ok(texture_bytes@) && decoded_rgba(
                texture_bytes@,
            ).0 <= TEXTURE_LIMIT && decoded_rgba(texture_bytes@).1 <= TEXTURE_LIMIT,
            match r {
                Ok(m) => obj_parse(mesh_text@) == Ok::<ObjAcc, ParseError>(
                    acc_of(
                        m.mesh.vertices@,
                        m.mesh.texture_coordinates@,
                        m.mesh.vertex_indices@,
                        m.mesh.texture_coordinate_indices@,
                    ),
                ) && obj_indices_ok(
                    acc_of(
                        m.mesh.vertices@,
                        m.mesh.texture_coordinates@,
                        m.mesh.vertex_indices@,
                        m.mesh.texture_coordinate_indices@,
                    ),
                ) && match m.texture_map {
                    Some(t) => tex_wf(t) && t.width as nat == decoded_rgba(texture_bytes@).0
                        && t.height as nat == decoded_rgba(texture_bytes@).1 && t.rgba@
                        == decoded_rgba(texture_bytes@).2,
                    None => false,
                },
                Err(LoadError::Parse(e)) => obj_parse(mesh_text@) == Err::<ObjAcc, ParseError>(e),
                Err(LoadError::BadTexture) => obj_parse(mesh_text@) is Ok,
            },
    {
        let mesh = match Mesh::from_text(mesh_text) {
            Ok(m) => m,
            Err(e) => {
                return Err(LoadError::Parse(e));
            },
        };
        let (w, h, rgba) = match decode_rgba(texture_bytes) {
            Some(d) => d,
            None => {
                return Err(LoadError::BadTexture);
            },
        };
        if w > TEXTURE_LIMIT as u64 || h > TEXTURE_LIMIT as u64 {
            return Err(LoadError::BadTexture);
        }
        let tex = TextureMap::new(w as usize, h as usize, rgba);
        Ok(Model { mesh, texture_map: Some(tex) })
    }
}

} // verus!
