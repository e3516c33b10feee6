//! A pixel image with direct drawing primitives: points, triangle fills, a
//! tiny built-in glyph font for text overlays, 3D-to-2D projection, and a BMP
//! encoding of the finished picture.
//!
//! The triangle fills here are the screen-space primitives; the pipeline's
//! exactly specified rasterization, with depth testing and texturing, is
//! `renderer::rasterizer::Screen::draw_triangle`.

use crate::fixed::{div_floor_wide, FX_ONE};
use crate::render::types::{Vertex2, Vertex3};
use crate::renderer::rasterizer::{
    edge_fn, inside_pt, lemma_edge_sum, lemma_inside_norm, lemma_mul_neg_one, lemma_mul_one,
    lemma_norm_sum, max3, min3, pe1, pe2, pix_floor, rot_axis_spec, sgn, tri_den,
};
use crate::renderer::types::Axis;
use vstd::prelude::*;

verus! {

/// Widest image edge accepted, matching the screen's cap.
pub const IMAGE_DIM_LIMIT: usize = 0x2000;

/// The glyph table: each drawable character with its 3x5 bitmap, row major.
pub open spec fn font_table() -> Seq<(char, [u8; 15])> {
    seq![
        ('A', [0u8, 1u8, 0u8, 1u8, 0u8, 1u8, 1u8, 1u8, 1u8, 1u8, 0u8, 1u8, 1u8, 0u8, 1u8]),
        ('B', [1u8, 1u8, 0u8, 1u8, 0u8, 1u8, 1u8, 1u8, 0u8, 1u8, 0u8, 1u8, 1u8, 1u8, 0u8]),
        ('C', [0u8, 1u8, 1u8, 1u8, 0u8, 0u8, 1u8, 0u8, 0u8, 1u8, 0u8, 0u8, 0u8, 1u8, 1u8]),
        ('D', [1u8, 1u8, 0u8, 1u8, 0u8, 1u8, 1u8, 0u8, 1u8, 1u8, 0u8, 1u8, 1u8, 1u8, 0u8]),
        ('E', [1u8, 1u8, 1u8, 1u8, 0u8, 0u8, 1u8, 1u8, 0u8, 1u8, 0u8, 0u8, 1u8, 1u8, 1u8]),
        ('F', [1u8, 1u8, 1u8, 1u8, 0u8, 0u8, 1u8, 1u8, 0u8, 1u8, 0u8, 0u8, 1u8, 0u8, 0u8]),
        ('G', [0u8, 1u8, 1u8, 1u8, 0u8, 0u8, 1u8, 0u8, 1u8, 1u8, 0u8, 1u8, 0u8, 1u8, 1u8]),
        ('H', [1u8, 0u8, 1u8, 1u8, 0u8, 1u8, 1u8, 1u8, 1u8, 1u8, 0u8, 1u8, 1u8, 0u8, 1u8]),
        ('I', [1u8, 1u8, 1u8, 0u8, 1u8, 0u8, 0u8, 1u8, 0u8, 0u8, 1u8, 0u8, 1u8, 1u8, 1u8]),
        ('J', [0u8, 0u8, 1u8, 0u8, 0u8, 1u8, 0u8, 0u8, 1u8, 1u8, 0u8, 1u8, 0u8, 1u8, 0u8]),
        ('K', [1u8, 0u8, 1u8, 1u8, 0u8, 1u8, 1u8, 1u8, 0u8, 1u8, 0u8, 1u8, 1u8, 0u8, 1u8]),
        ('L', [1u8, 0u8, 0u8, 1u8, 0u8, 0u8, 1u8, 0u8, 0u8, 1u8, 0u8, 0u8, 1u8, 1u8, 1u8]),
        ('M', [1u8, 0u8, 1u8, 1u8, 1u8, 1u8, 1u8, 0u8, 1u8, 1u8, 0u8, 1u8, 1u8, 0u8, 1u8]),
        ('N', [1u8, 0u8, 1u8, 1u8, 1u8, 1u8, 1u8, 1u8, 1u8, 1u8, 0u8, 1u8, 1u8, 0u8, 1u8]),
        ('O', [0u8, 1u8, 0u8, 1u8, 0u8, 1u8, 1u8, 0u8, 1u8, 1u8, 0u8, 1u8, 0u8, 1u8, 0u8]),
        ('P', [1u8, 1u8, 0u8, 1u8, 0u8, 1u8, 1u8, 1u8, 0u8, 1u8, 0u8, 0u8, 1u8, 0u8, 0u8]),
        ('Q', [0u8, 1u8, 0u8, 1u8, 0u8, 1u8, 1u8, 0u8, 1u8, 0u8, 1u8, 0u8, 0u8, 0u8, 1u8]),
        ('R', [1u8, 1u8, 0u8, 1u8, 0u8, 1u8, 1u8, 1u8, 0u8, 1u8, 0u8, 1u8, 1u8, 0u8, 1u8]),
        ('S', [0u8, 1u8, 1u8, 1u8, 0u8, 0u8, 0u8, 1u8, 0u8, 0u8, 0u8, 1u8, 1u8, 1u8, 0u8]),
        ('T', [1u8, 1u8, 1u8, 0u8, 1u8, 0u8, 0u8, 1u8, 0u8, 0u8, 1u8, 0u8, 0u8, 1u8, 0u8]),
        ('U', [1u8, 0u8, 1u8, 1u8, 0u8, 1u8, 1u8, 0u8, 1u8, 1u8, 0u8, 1u8, 0u8, 1u8, 0u8]),
        ('V', [1u8, 0u8, 1u8, 1u8, 0u8, 1u8, 1u8, 0u8, 1u8, 0u8, 1u8, 0u8, 0u8, 1u8, 0u8]),
        ('W', [1u8, 0u8, 1u8, 1u8, 0u8, 1u8, 1u8, 0u8, 1u8, 1u8, 1u8, 1u8, 1u8, 0u8, 1u8]),
        ('X', [1u8, 0u8, 1u8, 1u8, 0u8, 1u8, 0u8, 1u8, 0u8, 1u8, 0u8, 1u8, 1u8, 0u8, 1u8]),
        ('Y', [1u8, 0u8, 1u8, 1u8, 0u8, 1u8, 0u8, 1u8, 0u8, 0u8, 1u8, 0u8, 0u8, 1u8, 0u8]),
        ('Z', [1u8, 1u8, 1u8, 0u8, 0u8, 1u8, 0u8, 1u8, 0u8, 1u8, 0u8, 0u8, 1u8, 1u8, 1u8]),
        (':', [0u8, 0u8, 0u8, 0u8, 1u8, 0u8, 0u8, 0u8, 0u8, 0u8, 1u8, 0u8, 0u8, 0u8, 0u8]),
        ('0', [0u8, 1u8, 0u8, 1u8, 0u8, 1u8, 1u8, 0u8, 1u8, 1u8, 0u8, 1u8, 0u8, 1u8, 0u8]),
        ('1', [0u8, 1u8, 0u8, 1u8, 1u8, 0u8, 0u8, 1u8, 0u8, 0u8, 1u8, 0u8, 1u8, 1u8, 1u8]),
        ('2', [1u8, 1u8, 0u8, 0u8, 0u8, 1u8, 0u8, 1u8, 0u8, 1u8, 0u8, 0u8, 1u8, 1u8, 1u8]),
        ('3', [1u8, 1u8, 0u8, 0u8, 0u8, 1u8, 0u8, 1u8, 0u8, 0u8, 0u8, 1u8, 1u8, 1u8, 0u8]),
        ('4', [1u8, 0u8, 1u8, 1u8, 0u8, 1u8, 1u8, 1u8, 1u8, 0u8, 0u8, 1u8, 0u8, 0u8, 1u8]),
        ('5', [1u8, 1u8, 1u8, 1u8, 0u8, 0u8, 1u8, 1u8, 0u8, 0u8, 0u8, 1u8, 1u8, 1u8, 0u8]),
        ('6', [0u8, 1u8, 1u8, 1u8, 0u8, 0u8, 1u8, 1u8, 0u8, 1u8, 0u8, 1u8, 0u8, 1u8, 0u8]),
        ('7', [1u8, 1u8, 1u8, 0u8, 0u8, 1u8, 0u8, 1u8, 0u8, 0u8, 1u8, 0u8, 0u8, 1u8, 0u8]),
        ('8', [0u8, 1u8, 0u8, 1u8, 0u8, 1u8, 0u8, 1u8, 0u8, 1u8, 0u8, 1u8, 0u8, 1u8, 0u8]),
        ('9', [0u8, 1u8, 0u8, 1u8, 0u8, 1u8, 0u8, 1u8, 1u8, 0u8, 0u8, 1u8, 1u8, 1u8, 0u8]),
        (' ', [0u8, 0u8, 0u8, 0u8, 0u8, 0u8, 0u8, 0u8, 0u8, 0u8, 0u8, 0u8, 0u8, 0u8, 0u8]),
        ('a', [0u8, 0u8, 0u8, 0u8, 1u8, 0u8, 0u8, 1u8, 1u8, 1u8, 0u8, 1u8, 0u8, 1u8, 1u8]),
        ('b', [1u8, 0u8, 0u8, 1u8, 0u8, 0u8, 1u8, 1u8, 0u8, 1u8, 0u8, 1u8, 1u8, 1u8, 0u8]),
        ('c', [0u8, 0u8, 0u8, 0u8, 1u8, 1u8, 1u8, 0u8, 0u8, 1u8, 0u8, 0u8, 0u8, 1u8, 1u8]),
        ('d', [0u8, 0u8, 1u8, 0u8, 0u8, 1u8, 0u8, 1u8, 1u8, 1u8, 0u8, 1u8, 0u8, 1u8, 1u8]),
        ('e', [0u8, 0u8, 0u8, 0u8, 1u8, 0u8, 1u8, 1u8, 1u8, 1u8, 0u8, 0u8, 0u8, 1u8, 1u8]),
        ('f', [0u8, 1u8, 1u8, 1u8, 0u8, 0u8, 1u8, 1u8, 0u8, 1u8, 0u8, 0u8, 1u8, 0u8, 0u8]),
        ('g', [0u8, 0u8, 0u8, 0u8, 1u8, 1u8, 1u8, 0u8, 1u8, 0u8, 1u8, 1u8, 1u8, 1u8, 0u8]),
        ('h', [1u8, 0u8, 0u8, 1u8, 0u8, 0u8, 1u8, 1u8, 0u8, 1u8, 0u8, 1u8, 1u8, 0u8, 1u8]),
        ('i', [0u8, 1u8, 0u8, 0u8, 0u8, 0u8, 1u8, 1u8, 0u8, 0u8, 1u8, 0u8, 1u8, 1u8, 1u8]),
        ('j', [0u8, 0u8, 1u8, 0u8, 0u8, 0u8, 0u8, 1u8, 1u8, 0u8, 0u8, 1u8, 1u8, 1u8, 0u8]),
        ('k', [1u8, 0u8, 0u8, 1u8, 0u8, 1u8, 1u8, 1u8, 0u8, 1u8, 0u8, 1u8, 1u8, 0u8, 1u8]),
        ('l', [1u8, 1u8, 0u8, 0u8, 1u8, 0u8, 0u8, 1u8, 0u8, 0u8, 1u8, 0u8, 1u8, 1u8, 1u8]),
        ('m', [0u8, 0u8, 0u8, 1u8, 1u8, 0u8, 1u8, 0u8, 1u8, 1u8, 0u8, 1u8, 1u8, 0u8, 1u8]),
        ('n', [0u8, 0u8, 0u8, 1u8, 1u8, 0u8, 1u8, 0u8, 1u8, 1u8, 0u8, 1u8, 1u8, 0u8, 1u8]),
        ('o', [0u8, 0u8, 0u8, 0u8, 1u8, 0u8, 1u8, 0u8, 1u8, 1u8, 0u8, 1u8, 0u8, 1u8, 0u8]),
        ('p', [0u8, 0u8, 0u8, 1u8, 1u8, 0u8, 1u8, 0u8, 1u8, 1u8, 1u8, 0u8, 1u8, 0u8, 0u8]),
        ('q', [0u8, 0u8, 0u8, 0u8, 1u8, 1u8, 1u8, 0u8, 1u8, 0u8, 1u8, 1u8, 0u8, 0u8, 1u8]),
        ('r', [0u8, 0u8, 0u8, 1u8, 1u8, 0u8, 1u8, 0u8, 1u8, 1u8, 0u8, 0u8, 1u8, 0u8, 0u8]),
        ('s', [0u8, 0u8, 0u8, 0u8, 1u8, 1u8, 1u8, 1u8, 0u8, 0u8, 1u8, 1u8, 1u8, 1u8, 0u8]),
        ('t', [0u8, 1u8, 0u8, 1u8, 1u8, 1u8, 0u8, 1u8, 0u8, 0u8, 1u8, 0u8, 0u8, 1u8, 1u8]),
        ('u', [0u8, 0u8, 0u8, 1u8, 0u8, 1u8, 1u8, 0u8, 1u8, 1u8, 0u8, 1u8, 0u8, 1u8, 1u8]),
        ('v', [0u8, 0u8, 0u8, 1u8, 0u8, 1u8, 1u8, 0u8, 1u8, 0u8, 1u8, 0u8, 0u8, 1u8, 0u8]),
        ('w', [0u8, 0u8, 0u8, 1u8, 0u8, 1u8, 1u8, 0u8, 1u8, 1u8, 1u8, 1u8, 1u8, 0u8, 1u8]),
        ('x', [0u8, 0u8, 0u8, 1u8, 0u8, 1u8, 0u8, 1u8, 0u8, 0u8, 1u8, 0u8, 1u8, 0u8, 1u8]),
        ('y', [0u8, 0u8, 0u8, 1u8, 0u8, 1u8, 1u8, 0u8, 1u8, 0u8, 1u8, 1u8, 1u8, 1u8, 0u8]),
        ('z', [0u8, 0u8, 0u8, 1u8, 1u8, 1u8, 0u8, 1u8, 0u8, 1u8, 0u8, 0u8, 1u8, 1u8, 1u8]),
        ('.', [0u8, 0u8, 0u8, 0u8, 0u8, 0u8, 0u8, 0u8, 0u8, 0u8, 0u8, 0u8, 0u8, 1u8, 0u8]),
        ('-', [0u8, 0u8, 0u8, 0u8, 0u8, 0u8, 1u8, 1u8, 1u8, 0u8, 0u8, 0u8, 0u8, 0u8, 0u8]),
        (';', [0u8, 0u8, 0u8, 0u8, 1u8, 0u8, 0u8, 0u8, 0u8, 0u8, 1u8, 0u8, 1u8, 0u8, 0u8]),
    ]
}

/// Builds the glyph table once; each character maps to its 3x5 bitmap.
#[verifier::rlimit(100)]
#[verifier::spinoff_prover]
pub fn make_font() -> (f: Vec<(char, [u8; 15])>)
    ensures
        f@ == font_table(),
{
    let mut font: Vec<(char, [u8; 15])> = Vec::new();
    font.push(('A', [0u8, 1u8, 0u8, 1u8, 0u8, 1u8, 1u8, 1u8, 1u8, 1u8, 0u8, 1u8, 1u8, 0u8, 1u8]));
    font.push(('B', [1u8, 1u8, 0u8, 1u8, 0u8, 1u8, 1u8, 1u8, 0u8, 1u8, 0u8, 1u8, 1u8, 1u8, 0u8]));
    font.push(('C', [0u8, 1u8, 1u8, 1u8, 0u8, 0u8, 1u8, 0u8, 0u8, 1u8, 0u8, 0u8, 0u8, 1u8, 1u8]));
    font.push(('D', [1u8, 1u8, 0u8, 1u8, 0u8, 1u8, 1u8, 0u8, 1u8, 1u8, 0u8, 1u8, 1u8, 1u8, 0u8]));
    font.push(('E', [1u8, 1u8, 1u8, 1u8, 0u8, 0u8, 1u8, 1u8, 0u8, 1u8, 0u8, 0u8, 1u8, 1u8, 1u8]));
    font.push(('F', [1u8, 1u8, 1u8, 1u8, 0u8, 0u8, 1u8, 1u8, 0u8, 1u8, 0u8, 0u8, 1u8, 0u8, 0u8]));
    font.push(('G', [0u8, 1u8, 1u8, 1u8, 0u8, 0u8, 1u8, 0u8, 1u8, 1u8, 0u8, 1u8, 0u8, 1u8, 1u8]));
    font.push(('H', [1u8, 0u8, 1u8, 1u8, 0u8, 1u8, 1u8, 1u8, 1u8, 1u8, 0u8, 1u8, 1u8, 0u8, 1u8]));
    font.push(('I', [1u8, 1u8, 1u8, 0u8, 1u8, 0u8, 0u8, 1u8, 0u8, 0u8, 1u8, 0u8, 1u8, 1u8, 1u8]));
    font.push(('J', [0u8, 0u8, 1u8, 0u8, 0u8, 1u8, 0u8, 0u8, 1u8, 1u8, 0u8, 1u8, 0u8, 1u8, 0u8]));
    font.push(('K', [1u8, 0u8, 1u8, 1u8, 0u8, 1u8, 1u8, 1u8, 0u8, 1u8, 0u8, 1u8, 1u8, 0u8, 1u8]));
    font.push(('L', [1u8, 0u8, 0u8, 1u8, 0u8, 0u8, 1u8, 0u8, 0u8, 1u8, 0u8, 0u8, 1u8, 1u8, 1u8]));
    font.push(('M', [1u8, 0u8, 1u8, 1u8, 1u8, 1u8, 1u8, 0u8, 1u8, 1u8, 0u8, 1u8, 1u8, 0u8, 1u8]));
    font.push(('N', [1u8, 0u8, 1u8, 1u8, 1u8, 1u8, 1u8, 1u8, 1u8, 1u8, 0u8, 1u8, 1u8, 0u8, 1u8]));
    font.push(('O', [0u8, 1u8, 0u8, 1u8, 0u8, 1u8, 1u8, 0u8, 1u8, 1u8, 0u8, 1u8, 0u8, 1u8, 0u8]));
    font.push(('P', [1u8, 1u8, 0u8, 1u8, 0u8, 1u8, 1u8, 1u8, 0u8, 1u8, 0u8, 0u8, 1u8, 0u8, 0u8]));
    font.push(('Q', [0u8, 1u8, 0u8, 1u8, 0u8, 1u8, 1u8, 0u8, 1u8, 0u8, 1u8, 0u8, 0u8, 0u8, 1u8]));
    font.push(('R', [1u8, 1u8, 0u8, 1u8, 0u8, 1u8, 1u8, 1u8, 0u8, 1u8, 0u8, 1u8, 1u8, 0u8, 1u8]));
    font.push(('S', [0u8, 1u8, 1u8, 1u8, 0u8, 0u8, 0u8, 1u8, 0u8, 0u8, 0u8, 1u8, 1u8, 1u8, 0u8]));
    font.push(('T', [1u8, 1u8, 1u8, 0u8, 1u8, 0u8, 0u8, 1u8, 0u8, 0u8, 1u8, 0u8, 0u8, 1u8, 0u8]));
    font.push(('U', [1u8, 0u8, 1u8, 1u8, 0u8, 1u8, 1u8, 0u8, 1u8, 1u8, 0u8, 1u8, 0u8, 1u8, 0u8]));
    font.push(('V', [1u8, 0u8, 1u8, 1u8, 0u8, 1u8, 1u8, 0u8, 1u8, 0u8, 1u8, 0u8, 0u8, 1u8, 0u8]));
    font.push(('W', [1u8, 0u8, 1u8, 1u8, 0u8, 1u8, 1u8, 0u8, 1u8, 1u8, 1u8, 1u8, 1u8, 0u8, 1u8]));
    font.push(('X', [1u8, 0u8, 1u8, 1u8, 0u8, 1u8, 0u8, 1u8, 0u8, 1u8, 0u8, 1u8, 1u8, 0u8, 1u8]));
    font.push(('Y', [1u8, 0u8, 1u8, 1u8, 0u8, 1u8, 0u8, 1u8, 0u8, 0u8, 1u8, 0u8, 0u8, 1u8, 0u8]));
    font.push(('Z', [1u8, 1u8, 1u8, 0u8, 0u8, 1u8, 0u8, 1u8, 0u8, 1u8, 0u8, 0u8, 1u8, 1u8, 1u8]));
    font.push((':', [0u8, 0u8, 0u8, 0u8, 1u8, 0u8, 0u8, 0u8, 0u8, 0u8, 1u8, 0u8, 0u8, 0u8, 0u8]));
    font.push(('0', [0u8, 1u8, 0u8, 1u8, 0u8, 1u8, 1u8, 0u8, 1u8, 1u8, 0u8, 1u8, 0u8, 1u8, 0u8]));
    font.push(('1', [0u8, 1u8, 0u8, 1u8, 1u8, 0u8, 0u8, 1u8, 0u8, 0u8, 1u8, 0u8, 1u8, 1u8, 1u8]));
    font.push(('2', [1u8, 1u8, 0u8, 0u8, 0u8, 1u8, 0u8, 1u8, 0u8, 1u8, 0u8, 0u8, 1u8, 1u8, 1u8]));
    font.push(('3', [1u8, 1u8, 0u8, 0u8, 0u8, 1u8, 0u8, 1u8, 0u8, 0u8, 0u8, 1u8, 1u8, 1u8, 0u8]));
    font.push(('4', [1u8, 0u8, 1u8, 1u8, 0u8, 1u8, 1u8, 1u8, 1u8, 0u8, 0u8, 1u8, 0u8, 0u8, 1u8]));
    font.push(('5', [1u8, 1u8, 1u8, 1u8, 0u8, 0u8, 1u8, 1u8, 0u8, 0u8, 0u8, 1u8, 1u8, 1u8, 0u8]));
    font.push(('6', [0u8, 1u8, 1u8, 1u8, 0u8, 0u8, 1u8, 1u8, 0u8, 1u8, 0u8, 1u8, 0u8, 1u8, 0u8]));
    font.push(('7', [1u8, 1u8, 1u8, 0u8, 0u8, 1u8, 0u8, 1u8, 0u8, 0u8, 1u8, 0u8, 0u8, 1u8, 0u8]));
    font.push(('8', [0u8, 1u8, 0u8, 1u8, 0u8, 1u8, 0u8, 1u8, 0u8, 1u8, 0u8, 1u8, 0u8, 1u8, 0u8]));
    font.push(('9', [0u8, 1u8, 0u8, 1u8, 0u8, 1u8, 0u8, 1u8, 1u8, 0u8, 0u8, 1u8, 1u8, 1u8, 0u8]));
    font.push((' ', [0u8, 0u8, 0u8, 0u8, 0u8, 0u8, 0u8, 0u8, 0u8, 0u8, 0u8, 0u8, 0u8, 0u8, 0u8]));
    font.push(('a', [0u8, 0u8, 0u8, 0u8, 1u8, 0u8, 0u8, 1u8, 1u8, 1u8, 0u8, 1u8, 0u8, 1u8, 1u8]));
    font.push(('b', [1u8, 0u8, 0u8, 1u8, 0u8, 0u8, 1u8, 1u8, 0u8, 1u8, 0u8, 1u8, 1u8, 1u8, 0u8]));
    font.push(('c', [0u8, 0u8, 0u8, 0u8, 1u8, 1u8, 1u8, 0u8, 0u8, 1u8, 0u8, 0u8, 0u8, 1u8, 1u8]));
    font.push(('d', [0u8, 0u8, 1u8, 0u8, 0u8, 1u8, 0u8, 1u8, 1u8, 1u8, 0u8, 1u8, 0u8, 1u8, 1u8]));
    font.push(('e', [0u8, 0u8, 0u8, 0u8, 1u8, 0u8, 1u8, 1u8, 1u8, 1u8, 0u8, 0u8, 0u8, 1u8, 1u8]));
    font.push(('f', [0u8, 1u8, 1u8, 1u8, 0u8, 0u8, 1u8, 1u8, 0u8, 1u8, 0u8, 0u8, 1u8, 0u8, 0u8]));
    font.push(('g', [0u8, 0u8, 0u8, 0u8, 1u8, 1u8, 1u8, 0u8, 1u8, 0u8, 1u8, 1u8, 1u8, 1u8, 0u8]));
    font.push(('h', [1u8, 0u8, 0u8, 1u8, 0u8, 0u8, 1u8, 1u8, 0u8, 1u8, 0u8, 1u8, 1u8, 0u8, 1u8]));
    font.push(('i', [0u8, 1u8, 0u8, 0u8, 0u8, 0u8, 1u8, 1u8, 0u8, 0u8, 1u8, 0u8, 1u8, 1u8, 1u8]));
    font.push(('j', [0u8, 0u8, 1u8, 0u8, 0u8, 0u8, 0u8, 1u8, 1u8, 0u8, 0u8, 1u8, 1u8, 1u8, 0u8]));
    font.push(('k', [1u8, 0u8, 0u8, 1u8, 0u8, 1u8, 1u8, 1u8, 0u8, 1u8, 0u8, 1u8, 1u8, 0u8, 1u8]));
    font.push(('l', [1u8, 1u8, 0u8, 0u8, 1u8, 0u8, 0u8, 1u8, 0u8, 0u8, 1u8, 0u8, 1u8, 1u8, 1u8]));
    font.push(('m', [0u8, 0u8, 0u8, 1u8, 1u8, 0u8, 1u8, 0u8, 1u8, 1u8, 0u8, 1u8, 1u8, 0u8, 1u8]));
    font.push(('n', [0u8, 0u8, 0u8, 1u8, 1u8, 0u8, 1u8, 0u8, 1u8, 1u8, 0u8, 1u8, 1u8, 0u8, 1u8]));
    font.push(('o', [0u8, 0u8, 0u8, 0u8, 1u8, 0u8, 1u8, 0u8, 1u8, 1u8, 0u8, 1u8, 0u8, 1u8, 0u8]));
    font.push(('p', [0u8, 0u8, 0u8, 1u8, 1u8, 0u8, 1u8, 0u8, 1u8, 1u8, 1u8, 0u8, 1u8, 0u8, 0u8]));
    font.push(('q', [0u8, 0u8, 0u8, 0u8, 1u8, 1u8, 1u8, 0u8, 1u8, 0u8, 1u8, 1u8, 0u8, 0u8, 1u8]));
    font.push(('r', [0u8, 0u8, 0u8, 1u8, 1u8, 0u8, 1u8, 0u8, 1u8, 1u8, 0u8, 0u8, 1u8, 0u8, 0u8]));
    font.push(('s', [0u8, 0u8, 0u8, 0u8, 1u8, 1u8, 1u8, 1u8, 0u8, 0u8, 1u8, 1u8, 1u8, 1u8, 0u8]));
    font.push(('t', [0u8, 1u8, 0u8, 1u8, 1u8, 1u8, 0u8, 1u8, 0u8, 0u8, 1u8, 0u8, 0u8, 1u8, 1u8]));
    font.push(('u', [0u8, 0u8, 0u8, 1u8, 0u8, 1u8, 1u8, 0u8, 1u8, 1u8, 0u8, 1u8, 0u8, 1u8, 1u8]));
    font.push(('v', [0u8, 0u8, 0u8, 1u8, 0u8, 1u8, 1u8, 0u8, 1u8, 0u8, 1u8, 0u8, 0u8, 1u8, 0u8]));
    font.push(('w', [0u8, 0u8, 0u8, 1u8, 0u8, 1u8, 1u8, 0u8, 1u8, 1u8, 1u8, 1u8, 1u8, 0u8, 1u8]));
    font.push(('x', [0u8, 0u8, 0u8, 1u8, 0u8, 1u8, 0u8, 1u8, 0u8, 0u8, 1u8, 0u8, 1u8, 0u8, 1u8]));
    font.push(('y', [0u8, 0u8, 0u8, 1u8, 0u8, 1u8, 1u8, 0u8, 1u8, 0u8, 1u8, 1u8, 1u8, 1u8, 0u8]));
    font.push(('z', [0u8, 0u8, 0u8, 1u8, 1u8, 1u8, 0u8, 1u8, 0u8, 1u8, 0u8, 0u8, 1u8, 1u8, 1u8]));
    font.push(('.', [0u8, 0u8, 0u8, 0u8, 0u8, 0u8, 0u8, 0u8, 0u8, 0u8, 0u8, 0u8, 0u8, 1u8, 0u8]));
    font.push(('-', [0u8, 0u8, 0u8, 0u8, 0u8, 0u8, 1u8, 1u8, 1u8, 0u8, 0u8, 0u8, 0u8, 0u8, 0u8]));
    font.push((';', [0u8, 0u8, 0u8, 0u8, 1u8, 0u8, 0u8, 0u8, 0u8, 0u8, 1u8, 0u8, 1u8, 0u8, 0u8]));
    proof {
        assert(font@ =~= font_table());
    }
    font
}

/// The glyph a character renders as: the last table entry with that
/// character, or the blank bitmap where the table has none.
pub open spec fn font_glyph(font: Seq<(char, [u8; 15])>, ch: char) -> [u8; 15]
    decreases font.len(),
{
    if font.len() == 0 {
        [0u8, 0u8, 0u8, 0u8, 0u8, 0u8, 0u8, 0u8, 0u8, 0u8, 0u8, 0u8, 0u8, 0u8, 0u8]
    } else if font.last().0 == ch {
        font.last().1
    } else {
        font_glyph(font.drop_last(), ch)
    }
}

/// An image the primitives can draw into.
pub open spec fn img_wf(img: Image) -> bool {
    &&& img.pixels@.len() == img.width * img.height
    &&& 1 <= img.width <= IMAGE_DIM_LIMIT
    &&& 1 <= img.height <= IMAGE_DIM_LIMIT
    &&& img.width_offset == img.width / 2
    &&& img.height_offset == img.height / 2
}

/// Where a fixed-point point lands in the pixel buffer: each coordinate is
/// floored to a pixel, shifted by the half extent, clamped to the edge, and
/// the column mirrored.
pub open spec fn point_index(img: Image, px: int, py: int) -> int {
    let cx = clamp_dim(px / FX_ONE as int + img.width as int / 2, img.width as int);
    let cy = clamp_dim(py / FX_ONE as int + img.height as int / 2, img.height as int);
    cy * img.width + (img.width - 1 - cx)
}

/// A pixel coordinate clamped into `[0, dim)`.
pub open spec fn clamp_dim(v: int, dim: int) -> int {
    if v < 0 {
        0
    } else if v > dim - 1 {
        dim - 1
    } else {
        v
    }
}

/// Where a point lands is always a cell of a well-formed image.
pub proof fn lemma_point_index_range(img: Image, px: int, py: int)
    requires
        img_wf(img),
    ensures
        0 <= point_index(img, px, py) < img.pixels@.len(),
{
    let cx = clamp_dim(px / FX_ONE as int + img.width as int / 2, img.width as int);
    let cy = clamp_dim(py / FX_ONE as int + img.height as int / 2, img.height as int);
    assert(cy * img.width + (img.width - 1 - cx) < img.width * img.height) by (nonlinear_arith)
        requires
            0 <= cy < img.height,
            0 <= cx < img.width,
            1 <= img.width,
    ;
    assert(cy * img.width >= 0) by (nonlinear_arith)
        requires
            cy >= 0,
            img.width >= 1,
    ;
}

/// A frame of packed pixels, with a glyph font for text overlays.
pub struct Image {
    pub pixels: Vec<u32>,
    pub width: usize,
    pub width_offset: usize,
    pub height: usize,
    pub height_offset: usize,
    pub font: Vec<(char, [u8; 15])>,
}

impl Image {
    /// A black image of the given extent.
    pub fn new(width: usize, height: usize) -> (img: Image)
        requires
            1 <= width <= IMAGE_DIM_LIMIT,
            1 <= height <= IMAGE_DIM_LIMIT,
        ensures
            img_wf(img),
            img.width == width && img.height == height,
            forall|i: int| 0 <= i < img.pixels@.len() ==> img.pixels@[i] == 0,
            img.font@ == font_table(),
    {
        proof {
            assert(width * height <= 0x1000_0000) by (nonlinear_arith)
                requires
                    width <= 0x4000,
                    height <= 0x4000,
            ;
        }
        let n = width * height;
        let mut pixels: Vec<u32> = Vec::new();
        let mut i: usize = 0;
        while i < n
            invariant
                i <= n,
                pixels@.len() == i,
                forall|k: int| 0 <= k < i ==> pixels@[k] == 0,
            decreases n - i,
        {
            pixels.push(0);
            i = i + 1;
        }
        Image {
            pixels,
            width,
            width_offset: width / 2,
            height,
            height_offset: height / 2,
            font: make_font(),
        }
    }

    /// The pixels in reversed order, as the display adapter consumes them.
    pub fn get_pixels(&self) -> (r: Vec<u32>)
        ensures
            r@.len() == self.pixels@.len(),
            forall|i: int|
                0 <= i < r@.len() ==> r@[i] == self.pixels@[self.pixels@.len() - 1 - i],
    {
        let n = self.pixels.len();
        let mut r: Vec<u32> = Vec::new();
        let mut i: usize = 0;
        while i < n
            invariant
                i <= n,
                n == self.pixels@.len(),
                r@.len() == i,
                forall|k: int| 0 <= k < i ==> r@[k] == self.pixels@[n - 1 - k],
            decreases n - i,
        {
            r.push(self.pixels[n - 1 - i]);
            i = i + 1;
        }
        r
    }

    /// Packs three channels as 0x00RRGGBB.
    pub fn rbg_to_u32(r: u8, g: u8, b: u8) -> (p: u32)
        ensures
            p == r as int * 0x1_0000 + g as int * 0x100 + b as int,
    {
        (r as u32) * 0x1_0000 + (g as u32) * 0x100 + (b as u32)
    }

    /// Unpacks 0x00RRGGBB back into its three channels.
    pub fn u32_to_rgb(color: u32) -> (rgb: (u8, u8, u8))
        ensures
            rgb.0 == color as int / 0x1_0000 % 0x100,
            rgb.1 == color as int / 0x100 % 0x100,
            rgb.2 == color as int % 0x100,
    {
        let r = ((color / 0x1_0000) % 0x100) as u8;
        let g = ((color / 0x100) % 0x100) as u8;
        let b = (color % 0x100) as u8;
        (r, g, b)
    }

    /// Sets every pixel back to black.
    pub fn clear(&mut self)
        ensures
            final(self).pixels@.len() == old(self).pixels@.len(),
            forall|i: int| 0 <= i < final(self).pixels@.len() ==> final(self).pixels@[i] == 0,
            final(self).width == old(self).width,
            final(self).height == old(self).height,
            final(self).width_offset == old(self).width_offset,
            final(self).height_offset == old(self).height_offset,
            final(self).font == old(self).font,
    {
        let n = self.pixels.len();
        let mut i: usize = 0;
        while i < n
            invariant
                i <= n,
                n == self.pixels@.len(),
                self.pixels@.len() == old(self).pixels@.len(),
                forall|k: int| 0 <= k < i ==> self.pixels@[k] == 0,
                self.width == old(self).width,
                self.height == old(self).height,
                self.width_offset == old(self).width_offset,
                self.height_offset == old(self).height_offset,
                self.font == old(self).font,
            decreases n - i,
        {
            self.pixels[i] = 0;
            i = i + 1;
        }
    }

    /// Writes one pixel: the point is floored to a pixel, recentered, clamped
    /// to the nearest edge, the column mirrored, and the cell set.
    pub fn draw_point(&mut self, point: Vertex2, color: u32)
        requires
            img_wf(*old(self)),
        ensures
            img_wf(*final(self)),
            final(self).width == old(self).width,
            final(self).height == old(self).height,
            final(self).font == old(self).font,
            0 <= point_index(*old(self), point.x as int, point.y as int) < old(
                self,
            ).pixels@.len(),
            final(self).pixels@ == old(self).pixels@.update(
                point_index(*old(self), point.x as int, point.y as int),
                color,
            ),
    {
        let w = self.width;
        let h = self.height;
        let fx = div_floor_wide(point.x as i128, FX_ONE as i128);
        let fy = div_floor_wide(point.y as i128, FX_ONE as i128);
        let sx = fx + (w / 2) as i128;
        let sy = fy + (h / 2) as i128;
        let cx: usize = if sx < 0 {
            0
        } else if sx > (w - 1) as i128 {
            w - 1
        } else {
            sx as usize
        };
        let cy: usize = if sy < 0 {
            0
        } else if sy > (h - 1) as i128 {
            h - 1
        } else {
            sy as usize
        };
        proof {
            assert(cy * w + (w - 1 - cx) < w * h) by (nonlinear_arith)
                requires
                    cy < h,
                    cx < w,
                    1 <= w,
            ;
            assert(w * h <= 0x1000_0000) by (nonlinear_arith)
                requires
                    w <= 0x4000,
                    h <= 0x4000,
            ;
        }
        let idx = cy * w + (w - 1 - cx);
        self.pixels[idx] = color;
    }
}


/// The three axis rotations selected by the flags, composed x then y then z.
pub open spec fn rotate_flags_spec(v: Vertex3, rotation: (bool, bool, bool), s: int, c: int) -> Vertex3 {
    let v1 = if rotation.0 {
        rot_axis_spec(v, Axis::X, s, c)
    } else {
        v
    };
    let v2 = if rotation.1 {
        rot_axis_spec(v1, Axis::Y, s, c)
    } else {
        v1
    };
    if rotation.2 {
        rot_axis_spec(v2, Axis::Z, s, c)
    } else {
        v2
    }
}

/// A point within the numeric range of the screen-space primitives.
pub open spec fn pt_bounded(v: Vertex2) -> bool {
    -0x1000_0000 <= v.x <= 0x1000_0000 && -0x1000_0000 <= v.y <= 0x1000_0000
}

impl Image {
    /// Componentwise translation.
    pub fn translate(point: Vertex3, translate_vector: Vertex3) -> (r: Vertex3)
        requires
            i64::MIN <= point.x + translate_vector.x <= i64::MAX,
            i64::MIN <= point.y + translate_vector.y <= i64::MAX,
            i64::MIN <= point.z + translate_vector.z <= i64::MAX,
        ensures
            r.x == point.x + translate_vector.x,
            r.y == point.y + translate_vector.y,
            r.z == point.z + translate_vector.z,
    {
        Vertex3 {
            x: point.x + translate_vector.x,
            y: point.y + translate_vector.y,
            z: point.z + translate_vector.z,
        }
    }

    /// Rotates a point about the selected axes, x then y then z, by the angle
    /// whose fixed-point sine and cosine are given.
    pub fn rotate_angle(point: Vertex3, sin_t: i64, cos_t: i64, rotation: (bool, bool, bool)) -> (r:
        Vertex3)
        requires
            -FX_ONE <= sin_t <= FX_ONE,
            -FX_ONE <= cos_t <= FX_ONE,
        ensures
            r == rotate_flags_spec(point, rotation, sin_t as int, cos_t as int),
    {
        let mut result = point;
        if rotation.0 {
            result = Vertex3 {
                x: result.x,
                y: crate::renderer::rasterizer::rot_sub(result.y, result.z, cos_t, sin_t),
                z: crate::renderer::rasterizer::rot_add(result.z, result.y, cos_t, sin_t),
            };
        }
        if rotation.1 {
            result = Vertex3 {
                x: crate::renderer::rasterizer::rot_add(result.x, result.z, cos_t, sin_t),
                y: result.y,
                z: crate::renderer::rasterizer::rot_sub(result.z, result.x, cos_t, sin_t),
            };
        }
        if rotation.2 {
            result = Vertex3 {
                x: crate::renderer::rasterizer::rot_sub(result.x, result.y, cos_t, sin_t),
                y: crate::renderer::rasterizer::rot_add(result.y, result.x, cos_t, sin_t),
                z: result.z,
            };
        }
        result
    }

    /// Projects a point onto the image plane: camera-relative coordinates
    /// scaled by the focal length and divided by the camera-relative depth,
    /// the y axis flipped; a point at or behind the camera, or falling
    /// outside the image, is rejected.
    pub fn project_3d_to_2d(&self, point: Vertex3, camera: Vertex3, focal_length: i64) -> (r:
        Option<Vertex2>)
        requires
            img_wf(*self),
            0 < focal_length <= 0x100_0000_0000,
        ensures
            ({
                let relz = point.z - camera.z;
                let px = (point.x - camera.x) * focal_length as int / relz;
                let py = (0 - (point.y - camera.y)) * focal_length as int / relz;
                let ok = 0 < relz <= 0x100_0000_0000 && 0 <= px / FX_ONE as int + self.width as int
                    / 2 < self.width && 0 <= py / FX_ONE as int + self.height as int / 2
                    < self.height && -0x1000_0000 <= px <= 0x1000_0000 && -0x1000_0000 <= py
                    <= 0x1000_0000;
                r == if ok {
                    Some(Vertex2 { x: px as i64, y: py as i64 })
                } else {
                    None::<Vertex2>
                }
            }),
    {
        let relx = point.x as i128 - camera.x as i128;
        let rely = point.y as i128 - camera.y as i128;
        let relz = point.z as i128 - camera.z as i128;
        if relz <= 0 || relz > 0x100_0000_0000i128 {
            return None;
        }
        proof {
            crate::fixed::lemma_mul_abs_bound(
                relx as int,
                focal_length as int,
                0x1_0000_0000_0000_0000,
                0x100_0000_0000,
            );
            crate::fixed::lemma_mul_abs_bound(
                -rely as int,
                focal_length as int,
                0x1_0000_0000_0000_0000,
                0x100_0000_0000,
            );
        }
        let px = div_floor_wide(relx * focal_length as i128, relz);
        let py = div_floor_wide(-rely * focal_length as i128, relz);
        if px < -0x1000_0000 || px > 0x1000_0000 || py < -0x1000_0000 || py > 0x1000_0000 {
            return None;
        }
        let fpx = div_floor_wide(px, FX_ONE as i128) + (self.width / 2) as i128;
        let fpy = div_floor_wide(py, FX_ONE as i128) + (self.height / 2) as i128;
        if fpx < 0 || fpx >= self.width as i128 || fpy < 0 || fpy >= self.height as i128 {
            return None;
        }
        Some(Vertex2 { x: px as i64, y: py as i64 })
    }

    /// The precomputed coefficients of the three edge functions `(a, b, c)`
    /// per directed edge, evaluated per pixel in place of per-triangle
    /// closures.
    pub fn conditions(a: Vertex2, b: Vertex2, c: Vertex2) -> (r: (
        (i64, i64, i64),
        (i64, i64, i64),
        (i64, i64, i64),
    ))
        requires
            pt_bounded(a) && pt_bounded(b) && pt_bounded(c),
        ensures
            r.0.0 == b.y - a.y && r.0.1 == a.x - b.x && r.0.2 == b.x as int * a.y as int - a.x as int
                * b.y as int,
            r.1.0 == c.y - b.y && r.1.1 == b.x - c.x && r.1.2 == c.x as int * b.y as int - b.x as int
                * c.y as int,
            r.2.0 == a.y - c.y && r.2.1 == c.x - a.x && r.2.2 == a.x as int * c.y as int - c.x as int
                * a.y as int,
    {
        proof {
            crate::fixed::lemma_mul_abs_bound(b.x as int, a.y as int, 0x1000_0000, 0x1000_0000);
            crate::fixed::lemma_mul_abs_bound(a.x as int, b.y as int, 0x1000_0000, 0x1000_0000);
            crate::fixed::lemma_mul_abs_bound(c.x as int, b.y as int, 0x1000_0000, 0x1000_0000);
            crate::fixed::lemma_mul_abs_bound(b.x as int, c.y as int, 0x1000_0000, 0x1000_0000);
            crate::fixed::lemma_mul_abs_bound(a.x as int, c.y as int, 0x1000_0000, 0x1000_0000);
            crate::fixed::lemma_mul_abs_bound(c.x as int, a.y as int, 0x1000_0000, 0x1000_0000);
        }
        let c0 = (b.x as i128 * a.y as i128 - a.x as i128 * b.y as i128) as i64;
        let c1 = (c.x as i128 * b.y as i128 - b.x as i128 * c.y as i128) as i64;
        let c2 = (a.x as i128 * c.y as i128 - c.x as i128 * a.y as i128) as i64;
        ((b.y - a.y, a.x - b.x, c0), (c.y - b.y, b.x - c.x, c1), (a.y - c.y, c.x - a.x, c2))
    }
}


/// Whether pixel (qx, qy) lies in the triangle's integer bounding box.
pub open spec fn tri_bbox(a: Vertex2, b: Vertex2, c: Vertex2, qx: int, qy: int) -> bool {
    &&& pix_floor(min3(a.x as int, b.x as int, c.x as int)) <= qx <= pix_floor(
        max3(a.x as int, b.x as int, c.x as int),
    )
    &&& pix_floor(min3(a.y as int, b.y as int, c.y as int)) <= qy <= pix_floor(
        max3(a.y as int, b.y as int, c.y as int),
    )
}

/// Every bounding-box pixel whose center passes the inside test ends up with
/// the color.
pub open spec fn fill_covered(
    before: Image,
    after: Image,
    a: Vertex2,
    b: Vertex2,
    c: Vertex2,
    color: u32,
) -> bool {
    forall|qx: int, qy: int|
        tri_bbox(a, b, c, qx, qy) && inside_pt(
            a.x as int,
            a.y as int,
            b.x as int,
            b.y as int,
            c.x as int,
            c.y as int,
            qx * FX_ONE,
            qy * FX_ONE,
        ) ==> #[trigger] after.pixels@[point_index(before, qx * FX_ONE, qy * FX_ONE)] == color
}

/// Whether some inside bounding-box pixel lands on cell `i` (edge cells can
/// receive clamped writes from several pixels).
pub open spec fn cell_written(before: Image, a: Vertex2, b: Vertex2, c: Vertex2, i: int) -> bool {
    exists|qx: int, qy: int|
        tri_bbox(a, b, c, qx, qy) && inside_pt(
            a.x as int,
            a.y as int,
            b.x as int,
            b.y as int,
            c.x as int,
            c.y as int,
            qx * FX_ONE,
            qy * FX_ONE,
        ) && #[trigger] point_index(before, qx * FX_ONE, qy * FX_ONE) == i
}

/// A cell no inside bounding-box pixel lands on keeps its old color.
pub open spec fn fill_untouched(before: Image, after: Image, a: Vertex2, b: Vertex2, c: Vertex2) -> bool {
    forall|i: int|
        0 <= i < after.pixels@.len() ==> #[trigger] after.pixels@[i] == before.pixels@[i]
            || cell_written(before, a, b, c, i)
}

/// What every drawing primitive preserves: the image's shape, and that a
/// touched pixel holds exactly the drawn color.
pub open spec fn draws_only(before: Image, after: Image, color: u32) -> bool {
    &&& img_wf(after)
    &&& after.width == before.width
    &&& after.height == before.height
    &&& after.font == before.font
    &&& after.pixels@.len() == before.pixels@.len()
    &&& forall|i: int|
        0 <= i < after.pixels@.len() ==> after.pixels@[i] == before.pixels@[i]
            || after.pixels@[i] == color
}

impl Image {
    /// Fills a triangle with the edge-function inside test: a pixel is drawn
    /// exactly when its three edge values share a sign, the `inside_pt` test
    /// that `Screen::point_in_triangle` states. Every inside bounding-box
    /// pixel takes the color, and a cell no inside pixel lands on keeps its
    /// old color. (The pipeline's depth-tested, textured fill is
    /// `Screen::draw_triangle`.)
    #[verifier::loop_isolation(false)]
    #[verifier::rlimit(100)]
    pub fn draw_triangle1(&mut self, a: Vertex2, b: Vertex2, c: Vertex2, color: u32)
        requires
            img_wf(*old(self)),
            pt_bounded(a) && pt_bounded(b) && pt_bounded(c),
        ensures
            draws_only(*old(self), *final(self), color),
            fill_covered(*old(self), *final(self), a, b, c, color),
            fill_untouched(*old(self), *final(self), a, b, c),
    {
        let (e0, e1, e2) = Self::conditions(a, b, c);
        let min_x = div_floor_wide(min3_i64(a.x, b.x, c.x) as i128, FX_ONE as i128) as i64;
        let max_x = div_floor_wide(max3_i64(a.x, b.x, c.x) as i128, FX_ONE as i128) as i64;
        let min_y = div_floor_wide(min3_i64(a.y, b.y, c.y) as i128, FX_ONE as i128) as i64;
        let max_y = div_floor_wide(max3_i64(a.y, b.y, c.y) as i128, FX_ONE as i128) as i64;
        proof {
            assert(min_x == pix_floor(min3(a.x as int, b.x as int, c.x as int)));
            assert(max_x == pix_floor(max3(a.x as int, b.x as int, c.x as int)));
            assert(min_y == pix_floor(min3(a.y as int, b.y as int, c.y as int)));
            assert(max_y == pix_floor(max3(a.y as int, b.y as int, c.y as int)));
        }
        let mut y = min_y;
        while y <= max_y
            invariant
                min_y <= y,
                y == min_y || y <= max_y + 1,
                -0x1000 <= min_y && max_y <= 0x1000,
                -0x1000 <= min_x && max_x <= 0x1000,
                draws_only(*old(self), *self, color),
                forall|qx: int, qy: int|
                    min_x <= qx <= max_x && min_y <= qy < y && inside_pt(
                        a.x as int,
                        a.y as int,
                        b.x as int,
                        b.y as int,
                        c.x as int,
                        c.y as int,
                        qx * FX_ONE,
                        qy * FX_ONE,
                    ) ==> #[trigger] self.pixels@[point_index(
                        *old(self),
                        qx * FX_ONE,
                        qy * FX_ONE,
                    )] == color,
                forall|i: int|
                    0 <= i < self.pixels@.len() ==> #[trigger] self.pixels@[i] == old(
                        self,
                    ).pixels@[i] || exists|qx: int, qy: int|
                        min_x <= qx <= max_x && min_y <= qy < y && inside_pt(
                            a.x as int,
                            a.y as int,
                            b.x as int,
                            b.y as int,
                            c.x as int,
                            c.y as int,
                            qx * FX_ONE,
                            qy * FX_ONE,
                        ) && #[trigger] point_index(*old(self), qx * FX_ONE, qy * FX_ONE) == i,
            decreases max_y + 1 - y,
        {
            let mut x = min_x;
            while x <= max_x
                invariant
                    min_x <= x,
                    x == min_x || x <= max_x + 1,
                    -0x1000 <= min_x && max_x <= 0x1000,
                    -0x1000 <= y <= 0x1000,
                    min_y <= y <= max_y,
                    draws_only(*old(self), *self, color),
                    forall|qx: int, qy: int|
                        min_x <= qx <= max_x && min_y <= qy <= y && (qy < y || qx < x)
                            && inside_pt(
                            a.x as int,
                            a.y as int,
                            b.x as int,
                            b.y as int,
                            c.x as int,
                            c.y as int,
                            qx * FX_ONE,
                            qy * FX_ONE,
                        ) ==> #[trigger] self.pixels@[point_index(
                            *old(self),
                            qx * FX_ONE,
                            qy * FX_ONE,
                        )] == color,
                    forall|i: int|
                        0 <= i < self.pixels@.len() ==> #[trigger] self.pixels@[i] == old(
                            self,
                        ).pixels@[i] || exists|qx: int, qy: int|
                            min_x <= qx <= max_x && min_y <= qy <= y && (qy < y || qx < x)
                                && inside_pt(
                                a.x as int,
                                a.y as int,
                                b.x as int,
                                b.y as int,
                                c.x as int,
                                c.y as int,
                                qx * FX_ONE,
                                qy * FX_ONE,
                            ) && #[trigger] point_index(*old(self), qx * FX_ONE, qy * FX_ONE)
                                == i,
                decreases max_x + 1 - x,
            {
                let px = x * FX_ONE;
                let py = y * FX_ONE;
                proof {
                    crate::fixed::lemma_mul_abs_bound(e0.0 as int, px as int, 0x2000_0000, 0x2000_0000);
                    crate::fixed::lemma_mul_abs_bound(e0.1 as int, py as int, 0x2000_0000, 0x2000_0000);
                    crate::fixed::lemma_mul_abs_bound(e1.0 as int, px as int, 0x2000_0000, 0x2000_0000);
                    crate::fixed::lemma_mul_abs_bound(e1.1 as int, py as int, 0x2000_0000, 0x2000_0000);
                    crate::fixed::lemma_mul_abs_bound(e2.0 as int, px as int, 0x2000_0000, 0x2000_0000);
                    crate::fixed::lemma_mul_abs_bound(e2.1 as int, py as int, 0x2000_0000, 0x2000_0000);
                }
                let z1 = e0.0 as i128 * px as i128 + e0.1 as i128 * py as i128 + e0.2 as i128;
                let z2 = e1.0 as i128 * px as i128 + e1.1 as i128 * py as i128 + e1.2 as i128;
                let z3 = e2.0 as i128 * px as i128 + e2.1 as i128 * py as i128 + e2.2 as i128;
                proof {
                    assert(z1 as int == edge_fn(
                        a.x as int,
                        a.y as int,
                        b.x as int,
                        b.y as int,
                        px as int,
                        py as int,
                    ));
                    assert(z2 as int == edge_fn(
                        b.x as int,
                        b.y as int,
                        c.x as int,
                        c.y as int,
                        px as int,
                        py as int,
                    ));
                    assert(z3 as int == edge_fn(
                        c.x as int,
                        c.y as int,
                        a.x as int,
                        a.y as int,
                        px as int,
                        py as int,
                    ));
                }
                let inside = (z1 >= 0 && z2 >= 0 && z3 >= 0) || (z1 <= 0 && z2 <= 0 && z3 <= 0);
                let ghost pixels_before = self.pixels@;
                self.fill_pixel(a, b, c, color, Ghost(min_x as int), Ghost(max_x as int), Ghost(min_y as int), Ghost(y as int), Ghost(x as int), px, py, inside);
                proof {
                    let before_img = *old(self);
                    let idx = point_index(before_img, px as int, py as int);
                    assert forall|qx: int, qy: int|
                        min_x <= qx <= max_x && min_y <= qy <= y && (qy < y || qx < x + 1)
                            && inside_pt(
                            a.x as int,
                            a.y as int,
                            b.x as int,
                            b.y as int,
                            c.x as int,
                            c.y as int,
                            qx * FX_ONE,
                            qy * FX_ONE,
                        ) implies #[trigger] self.pixels@[point_index(
                        before_img,
                        qx * FX_ONE,
                        qy * FX_ONE,
                    )] == color by {
                        lemma_point_index_range(before_img, qx * FX_ONE, qy * FX_ONE);
                        if !(qx == x && qy == y) {
                            assert(pixels_before[point_index(
                                before_img,
                                qx * FX_ONE,
                                qy * FX_ONE,
                            )] == color);
                        }
                    }
                    assert forall|i: int|
                        0 <= i < self.pixels@.len() implies #[trigger] self.pixels@[i]
                        == before_img.pixels@[i] || exists|qx: int, qy: int|
                        min_x <= qx <= max_x && min_y <= qy <= y && (qy < y || qx < x + 1)
                            && inside_pt(
                            a.x as int,
                            a.y as int,
                            b.x as int,
                            b.y as int,
                            c.x as int,
                            c.y as int,
                            qx * FX_ONE,
                            qy * FX_ONE,
                        ) && #[trigger] point_index(before_img, qx * FX_ONE, qy * FX_ONE)
                        == i by {
                        if self.pixels@[i] != before_img.pixels@[i] {
                            if pixels_before[i] != before_img.pixels@[i] {
                                let (wx, wy) = choose|qx: int, qy: int|
                                    min_x <= qx <= max_x && min_y <= qy <= y && (qy < y || qx < x)
                                        && inside_pt(
                                        a.x as int,
                                        a.y as int,
                                        b.x as int,
                                        b.y as int,
                                        c.x as int,
                                        c.y as int,
                                        qx * FX_ONE,
                                        qy * FX_ONE,
                                    ) && #[trigger] point_index(
                                        before_img,
                                        qx * FX_ONE,
                                        qy * FX_ONE,
                                    ) == i;
                                assert(min_x <= wx <= max_x && min_y <= wy <= y && (wy < y || wx
                                    < x + 1) && inside_pt(
                                    a.x as int,
                                    a.y as int,
                                    b.x as int,
                                    b.y as int,
                                    c.x as int,
                                    c.y as int,
                                    wx * FX_ONE,
                                    wy * FX_ONE,
                                ) && point_index(before_img, wx * FX_ONE, wy * FX_ONE) == i);
                            } else {
                                assert(i == idx);
                                assert(inside);
                                assert(min_x <= x as int <= max_x && min_y <= y as int <= y as int
                                    && inside_pt(
                                    a.x as int,
                                    a.y as int,
                                    b.x as int,
                                    b.y as int,
                                    c.x as int,
                                    c.y as int,
                                    x as int * FX_ONE,
                                    y as int * FX_ONE,
                                ) && point_index(before_img, x as int * FX_ONE, y as int * FX_ONE)
                                    == i);
                            }
                        }
                    }
                }
                x = x + 1;
            }
            y = y + 1;
        }
        proof {
            assert forall|i: int|
                0 <= i < self.pixels@.len() implies #[trigger] self.pixels@[i] == old(
                self,
            ).pixels@[i] || cell_written(*old(self), a, b, c, i) by {
                if self.pixels@[i] != old(self).pixels@[i] {
                    let (wx, wy) = choose|qx: int, qy: int|
                        min_x <= qx <= max_x && min_y <= qy < y && inside_pt(
                            a.x as int,
                            a.y as int,
                            b.x as int,
                            b.y as int,
                            c.x as int,
                            c.y as int,
                            qx * FX_ONE,
                            qy * FX_ONE,
                        ) && #[trigger] point_index(*old(self), qx * FX_ONE, qy * FX_ONE) == i;
                    assert(tri_bbox(a, b, c, wx, wy));
                    assert(cell_written(*old(self), a, b, c, i));
                }
            }
        }
    }

    /// One pixel of a screen-space fill: draws it when the inside flag says
    /// so, and carries both partial fill facts one pixel forward.
    #[verifier::loop_isolation(false)]
    #[verifier::rlimit(100)]
    #[allow(unused_variables)]
    fn fill_pixel(
        &mut self,
        a: Vertex2,
        b: Vertex2,
        c: Vertex2,
        color: u32,
        Ghost(min_x): Ghost<int>,
        Ghost(max_x): Ghost<int>,
        Ghost(min_y): Ghost<int>,
        Ghost(y): Ghost<int>,
        Ghost(x): Ghost<int>,
        px: i64,
        py: i64,
        inside: bool,
    )
        requires
            img_wf(*old(self)),
            min_x <= x <= max_x,
            min_y <= y,
            px == x * FX_ONE,
            py == y * FX_ONE,
            inside == inside_pt(
                a.x as int,
                a.y as int,
                b.x as int,
                b.y as int,
                c.x as int,
                c.y as int,
                px as int,
                py as int,
            ),
        ensures
            img_wf(*final(self)),
            final(self).width == old(self).width,
            final(self).height == old(self).height,
            final(self).font == old(self).font,
            final(self).pixels@.len() == old(self).pixels@.len(),
            0 <= point_index(*old(self), px as int, py as int) < old(self).pixels@.len(),
            final(self).pixels@ == if inside {
                old(self).pixels@.update(point_index(*old(self), px as int, py as int), color)
            } else {
                old(self).pixels@
            },
    {
        proof {
            lemma_point_index_range(*old(self), px as int, py as int);
        }
        if inside {
            self.draw_point(Vertex2 { x: px, y: py }, color);
            proof {
                assert(point_index(*self, px as int, py as int) == point_index(
                    *old(self),
                    px as int,
                    py as int,
                ));
            }
        }
    }

    /// Fills a triangle through the precomputed half-plane conditions of
    /// `conditions`: the same sign test as `draw_triangle1`, the coefficients
    /// built once per triangle.
    pub fn draw_triangle2(&mut self, a: Vertex2, b: Vertex2, c: Vertex2, color: u32)
        requires
            img_wf(*old(self)),
            pt_bounded(a) && pt_bounded(b) && pt_bounded(c),
        ensures
            draws_only(*old(self), *final(self), color),
            fill_covered(*old(self), *final(self), a, b, c, color),
            fill_untouched(*old(self), *final(self), a, b, c),
    {
        self.draw_triangle1(a, b, c, color);
    }

    /// Fills a triangle with the doubled-area test: a pixel is inside when the
    /// three doubled sub-areas against it sum exactly to the triangle's
    /// doubled area — exact in integers, and equivalent to the edge-sign test,
    /// so it covers and touches the same pixels as `draw_triangle1`.
    #[verifier::loop_isolation(false)]
    #[verifier::rlimit(100)]
    pub fn draw_triangle3(&mut self, a: Vertex2, b: Vertex2, c: Vertex2, color: u32)
        requires
            img_wf(*old(self)),
            pt_bounded(a) && pt_bounded(b) && pt_bounded(c),
        ensures
            draws_only(*old(self), *final(self), color),
            fill_covered(*old(self), *final(self), a, b, c, color),
            fill_untouched(*old(self), *final(self), a, b, c),
    {
        let (e0, e1, e2) = Self::conditions(a, b, c);
        let area: i128 = abs_i128(e0.2 as i128 + e1.2 as i128 + e2.2 as i128);
        let min_x = div_floor_wide(min3_i64(a.x, b.x, c.x) as i128, FX_ONE as i128) as i64;
        let max_x = div_floor_wide(max3_i64(a.x, b.x, c.x) as i128, FX_ONE as i128) as i64;
        let min_y = div_floor_wide(min3_i64(a.y, b.y, c.y) as i128, FX_ONE as i128) as i64;
        let max_y = div_floor_wide(max3_i64(a.y, b.y, c.y) as i128, FX_ONE as i128) as i64;
        proof {
            assert(min_x == pix_floor(min3(a.x as int, b.x as int, c.x as int)));
            assert(max_x == pix_floor(max3(a.x as int, b.x as int, c.x as int)));
            assert(min_y == pix_floor(min3(a.y as int, b.y as int, c.y as int)));
            assert(max_y == pix_floor(max3(a.y as int, b.y as int, c.y as int)));
        }
        let mut y = min_y;
        while y <= max_y
            invariant
                min_y <= y,
                y == min_y || y <= max_y + 1,
                -0x1000 <= min_y && max_y <= 0x1000,
                -0x1000 <= min_x && max_x <= 0x1000,
                draws_only(*old(self), *self, color),
                forall|qx: int, qy: int|
                    min_x <= qx <= max_x && min_y <= qy < y && inside_pt(
                        a.x as int,
                        a.y as int,
                        b.x as int,
                        b.y as int,
                        c.x as int,
                        c.y as int,
                        qx * FX_ONE,
                        qy * FX_ONE,
                    ) ==> #[trigger] self.pixels@[point_index(
                        *old(self),
                        qx * FX_ONE,
                        qy * FX_ONE,
                    )] == color,
                forall|i: int|
                    0 <= i < self.pixels@.len() ==> #[trigger] self.pixels@[i] == old(
                        self,
                    ).pixels@[i] || exists|qx: int, qy: int|
                        min_x <= qx <= max_x && min_y <= qy < y && inside_pt(
                            a.x as int,
                            a.y as int,
                            b.x as int,
                            b.y as int,
                            c.x as int,
                            c.y as int,
                            qx * FX_ONE,
                            qy * FX_ONE,
                        ) && #[trigger] point_index(*old(self), qx * FX_ONE, qy * FX_ONE) == i,
            decreases max_y + 1 - y,
        {
            let mut x = min_x;
            while x <= max_x
                invariant
                    min_x <= x,
                    x == min_x || x <= max_x + 1,
                    -0x1000 <= min_x && max_x <= 0x1000,
                    -0x1000 <= y <= 0x1000,
                    min_y <= y <= max_y,
                    draws_only(*old(self), *self, color),
                    forall|qx: int, qy: int|
                        min_x <= qx <= max_x && min_y <= qy <= y && (qy < y || qx < x)
                            && inside_pt(
                            a.x as int,
                            a.y as int,
                            b.x as int,
                            b.y as int,
                            c.x as int,
                            c.y as int,
                            qx * FX_ONE,
                            qy * FX_ONE,
                        ) ==> #[trigger] self.pixels@[point_index(
                            *old(self),
                            qx * FX_ONE,
                            qy * FX_ONE,
                        )] == color,
                    forall|i: int|
                        0 <= i < self.pixels@.len() ==> #[trigger] self.pixels@[i] == old(
                            self,
                        ).pixels@[i] || exists|qx: int, qy: int|
                            min_x <= qx <= max_x && min_y <= qy <= y && (qy < y || qx < x)
                                && inside_pt(
                                a.x as int,
                                a.y as int,
                                b.x as int,
                                b.y as int,
                                c.x as int,
                                c.y as int,
                                qx * FX_ONE,
                                qy * FX_ONE,
                            ) && #[trigger] point_index(*old(self), qx * FX_ONE, qy * FX_ONE)
                                == i,
                decreases max_x + 1 - x,
            {
                let px = x * FX_ONE;
                let py = y * FX_ONE;
                proof {
                    crate::fixed::lemma_mul_abs_bound(e0.0 as int, px as int, 0x2000_0000, 0x2000_0000);
                    crate::fixed::lemma_mul_abs_bound(e0.1 as int, py as int, 0x2000_0000, 0x2000_0000);
                    crate::fixed::lemma_mul_abs_bound(e1.0 as int, px as int, 0x2000_0000, 0x2000_0000);
                    crate::fixed::lemma_mul_abs_bound(e1.1 as int, py as int, 0x2000_0000, 0x2000_0000);
                    crate::fixed::lemma_mul_abs_bound(e2.0 as int, px as int, 0x2000_0000, 0x2000_0000);
                    crate::fixed::lemma_mul_abs_bound(e2.1 as int, py as int, 0x2000_0000, 0x2000_0000);
                }
                let z1 = e0.0 as i128 * px as i128 + e0.1 as i128 * py as i128 + e0.2 as i128;
                let z2 = e1.0 as i128 * px as i128 + e1.1 as i128 * py as i128 + e1.2 as i128;
                let z3 = e2.0 as i128 * px as i128 + e2.1 as i128 * py as i128 + e2.2 as i128;
                proof {
                    assert(z1 as int == edge_fn(
                        a.x as int,
                        a.y as int,
                        b.x as int,
                        b.y as int,
                        px as int,
                        py as int,
                    ));
                    assert(z2 as int == edge_fn(
                        b.x as int,
                        b.y as int,
                        c.x as int,
                        c.y as int,
                        px as int,
                        py as int,
                    ));
                    assert(z3 as int == edge_fn(
                        c.x as int,
                        c.y as int,
                        a.x as int,
                        a.y as int,
                        px as int,
                        py as int,
                    ));
                    lemma_edge_sum(a, b, c, px as int, py as int);
                }
                let area_ab = abs_i128(z1);
                let area_bc = abs_i128(z2);
                let area_ca = abs_i128(z3);
                let inside = area_ab + area_bc + area_ca == area;
                proof {
                    lemma_abs_sum_sign(z1 as int, z2 as int, z3 as int);
                    assert(inside == inside_pt(
                        a.x as int,
                        a.y as int,
                        b.x as int,
                        b.y as int,
                        c.x as int,
                        c.y as int,
                        px as int,
                        py as int,
                    ));
                }

                let ghost pixels_before = self.pixels@;
                self.fill_pixel(a, b, c, color, Ghost(min_x as int), Ghost(max_x as int), Ghost(min_y as int), Ghost(y as int), Ghost(x as int), px, py, inside);
                proof {
                    let before_img = *old(self);
                    let idx = point_index(before_img, px as int, py as int);
                    assert forall|qx: int, qy: int|
                        min_x <= qx <= max_x && min_y <= qy <= y && (qy < y || qx < x + 1)
                            && inside_pt(
                            a.x as int,
                            a.y as int,
                            b.x as int,
                            b.y as int,
                            c.x as int,
                            c.y as int,
                            qx * FX_ONE,
                            qy * FX_ONE,
                        ) implies #[trigger] self.pixels@[point_index(
                        before_img,
                        qx * FX_ONE,
                        qy * FX_ONE,
                    )] == color by {
                        lemma_point_index_range(before_img, qx * FX_ONE, qy * FX_ONE);
                        if !(qx == x && qy == y) {
                            assert(pixels_before[point_index(
                                before_img,
                                qx * FX_ONE,
                                qy * FX_ONE,
                            )] == color);
                        }
                    }
                    assert forall|i: int|
                        0 <= i < self.pixels@.len() implies #[trigger] self.pixels@[i]
                        == before_img.pixels@[i] || exists|qx: int, qy: int|
                        min_x <= qx <= max_x && min_y <= qy <= y && (qy < y || qx < x + 1)
                            && inside_pt(
                            a.x as int,
                            a.y as int,
                            b.x as int,
                            b.y as int,
                            c.x as int,
                            c.y as int,
                            qx * FX_ONE,
                            qy * FX_ONE,
                        ) && #[trigger] point_index(before_img, qx * FX_ONE, qy * FX_ONE)
                        == i by {
                        if self.pixels@[i] != before_img.pixels@[i] {
                            if pixels_before[i] != before_img.pixels@[i] {
                                let (wx, wy) = choose|qx: int, qy: int|
                                    min_x <= qx <= max_x && min_y <= qy <= y && (qy < y || qx < x)
                                        && inside_pt(
                                        a.x as int,
                                        a.y as int,
                                        b.x as int,
                                        b.y as int,
                                        c.x as int,
                                        c.y as int,
                                        qx * FX_ONE,
                                        qy * FX_ONE,
                                    ) && #[trigger] point_index(
                                        before_img,
                                        qx * FX_ONE,
                                        qy * FX_ONE,
                                    ) == i;
                                assert(min_x <= wx <= max_x && min_y <= wy <= y && (wy < y || wx
                                    < x + 1) && inside_pt(
                                    a.x as int,
                                    a.y as int,
                                    b.x as int,
                                    b.y as int,
                                    c.x as int,
                                    c.y as int,
                                    wx * FX_ONE,
                                    wy * FX_ONE,
                                ) && point_index(before_img, wx * FX_ONE, wy * FX_ONE) == i);
                            } else {
                                assert(i == idx);
                                assert(inside);
                                assert(min_x <= x as int <= max_x && min_y <= y as int <= y as int
                                    && inside_pt(
                                    a.x as int,
                                    a.y as int,
                                    b.x as int,
                                    b.y as int,
                                    c.x as int,
                                    c.y as int,
                                    x as int * FX_ONE,
                                    y as int * FX_ONE,
                                ) && point_index(before_img, x as int * FX_ONE, y as int * FX_ONE)
                                    == i);
                            }
                        }
                    }
                }
                x = x + 1;
            }
            y = y + 1;
        }
        proof {
            assert forall|i: int|
                0 <= i < self.pixels@.len() implies #[trigger] self.pixels@[i] == old(
                self,
            ).pixels@[i] || cell_written(*old(self), a, b, c, i) by {
                if self.pixels@[i] != old(self).pixels@[i] {
                    let (wx, wy) = choose|qx: int, qy: int|
                        min_x <= qx <= max_x && min_y <= qy < y && inside_pt(
                            a.x as int,
                            a.y as int,
                            b.x as int,
                            b.y as int,
                            c.x as int,
                            c.y as int,
                            qx * FX_ONE,
                            qy * FX_ONE,
                        ) && #[trigger] point_index(*old(self), qx * FX_ONE, qy * FX_ONE) == i;
                    assert(tri_bbox(a, b, c, wx, wy));
                    assert(cell_written(*old(self), a, b, c, i));
                }
            }
        }
    }

    /// Fills a triangle with the barycentric-weight test: the two weight
    /// numerators against the doubled area must be nonnegative and sum to at
    /// most the whole — equivalent to the edge-sign test, so it covers and
    /// touches the same pixels as `draw_triangle1`. A degenerate (zero-area)
    /// triangle has no weights and draws nothing.
    #[verifier::loop_isolation(false)]
    #[verifier::rlimit(100)]
    pub fn draw_triangle4(&mut self, a: Vertex2, b: Vertex2, c: Vertex2, color: u32)
        requires
            img_wf(*old(self)),
            pt_bounded(a) && pt_bounded(b) && pt_bounded(c),
        ensures
            draws_only(*old(self), *final(self), color),
            tri_den(a, b, c) != 0 ==> fill_covered(*old(self), *final(self), a, b, c, color),
            tri_den(a, b, c) == 0 ==> final(self).pixels@ == old(self).pixels@,
            fill_untouched(*old(self), *final(self), a, b, c),
    {
        let (e0, e1, e2) = Self::conditions(a, b, c);
        let den: i128 = e0.2 as i128 + e1.2 as i128 + e2.2 as i128;
        if den == 0 {
            return ;
        }
        let flip = den < 0;
        let sden_abs = if flip {
            -den
        } else {
            den
        };
        let min_x = div_floor_wide(min3_i64(a.x, b.x, c.x) as i128, FX_ONE as i128) as i64;
        let max_x = div_floor_wide(max3_i64(a.x, b.x, c.x) as i128, FX_ONE as i128) as i64;
        let min_y = div_floor_wide(min3_i64(a.y, b.y, c.y) as i128, FX_ONE as i128) as i64;
        let max_y = div_floor_wide(max3_i64(a.y, b.y, c.y) as i128, FX_ONE as i128) as i64;
        proof {
            assert(min_x == pix_floor(min3(a.x as int, b.x as int, c.x as int)));
            assert(max_x == pix_floor(max3(a.x as int, b.x as int, c.x as int)));
            assert(min_y == pix_floor(min3(a.y as int, b.y as int, c.y as int)));
            assert(max_y == pix_floor(max3(a.y as int, b.y as int, c.y as int)));
        }
        let mut y = min_y;
        while y <= max_y
            invariant
                min_y <= y,
                y == min_y || y <= max_y + 1,
                -0x1000 <= min_y && max_y <= 0x1000,
                -0x1000 <= min_x && max_x <= 0x1000,
                draws_only(*old(self), *self, color),
                forall|qx: int, qy: int|
                    min_x <= qx <= max_x && min_y <= qy < y && inside_pt(
                        a.x as int,
                        a.y as int,
                        b.x as int,
                        b.y as int,
                        c.x as int,
                        c.y as int,
                        qx * FX_ONE,
                        qy * FX_ONE,
                    ) ==> #[trigger] self.pixels@[point_index(
                        *old(self),
                        qx * FX_ONE,
                        qy * FX_ONE,
                    )] == color,
                forall|i: int|
                    0 <= i < self.pixels@.len() ==> #[trigger] self.pixels@[i] == old(
                        self,
                    ).pixels@[i] || exists|qx: int, qy: int|
                        min_x <= qx <= max_x && min_y <= qy < y && inside_pt(
                            a.x as int,
                            a.y as int,
                            b.x as int,
                            b.y as int,
                            c.x as int,
                            c.y as int,
                            qx * FX_ONE,
                            qy * FX_ONE,
                        ) && #[trigger] point_index(*old(self), qx * FX_ONE, qy * FX_ONE) == i,
            decreases max_y + 1 - y,
        {
            let mut x = min_x;
            while x <= max_x
                invariant
                    min_x <= x,
                    x == min_x || x <= max_x + 1,
                    -0x1000 <= min_x && max_x <= 0x1000,
                    -0x1000 <= y <= 0x1000,
                    min_y <= y <= max_y,
                    draws_only(*old(self), *self, color),
                    forall|qx: int, qy: int|
                        min_x <= qx <= max_x && min_y <= qy <= y && (qy < y || qx < x)
                            && inside_pt(
                            a.x as int,
                            a.y as int,
                            b.x as int,
                            b.y as int,
                            c.x as int,
                            c.y as int,
                            qx * FX_ONE,
                            qy * FX_ONE,
                        ) ==> #[trigger] self.pixels@[point_index(
                            *old(self),
                            qx * FX_ONE,
                            qy * FX_ONE,
                        )] == color,
                    forall|i: int|
                        0 <= i < self.pixels@.len() ==> #[trigger] self.pixels@[i] == old(
                            self,
                        ).pixels@[i] || exists|qx: int, qy: int|
                            min_x <= qx <= max_x && min_y <= qy <= y && (qy < y || qx < x)
                                && inside_pt(
                                a.x as int,
                                a.y as int,
                                b.x as int,
                                b.y as int,
                                c.x as int,
                                c.y as int,
                                qx * FX_ONE,
                                qy * FX_ONE,
                            ) && #[trigger] point_index(*old(self), qx * FX_ONE, qy * FX_ONE)
                                == i,
                decreases max_x + 1 - x,
            {
                let px = x * FX_ONE;
                let py = y * FX_ONE;
                proof {
                    crate::fixed::lemma_mul_abs_bound(e0.0 as int, px as int, 0x2000_0000, 0x2000_0000);
                    crate::fixed::lemma_mul_abs_bound(e0.1 as int, py as int, 0x2000_0000, 0x2000_0000);
                    crate::fixed::lemma_mul_abs_bound(e1.0 as int, px as int, 0x2000_0000, 0x2000_0000);
                    crate::fixed::lemma_mul_abs_bound(e1.1 as int, py as int, 0x2000_0000, 0x2000_0000);
                    crate::fixed::lemma_mul_abs_bound(e2.0 as int, px as int, 0x2000_0000, 0x2000_0000);
                    crate::fixed::lemma_mul_abs_bound(e2.1 as int, py as int, 0x2000_0000, 0x2000_0000);
                }
                let z1 = e0.0 as i128 * px as i128 + e0.1 as i128 * py as i128 + e0.2 as i128;
                let z2 = e1.0 as i128 * px as i128 + e1.1 as i128 * py as i128 + e1.2 as i128;
                let z3 = e2.0 as i128 * px as i128 + e2.1 as i128 * py as i128 + e2.2 as i128;
                proof {
                    assert(z1 as int == edge_fn(
                        a.x as int,
                        a.y as int,
                        b.x as int,
                        b.y as int,
                        px as int,
                        py as int,
                    ));
                    assert(z2 as int == edge_fn(
                        b.x as int,
                        b.y as int,
                        c.x as int,
                        c.y as int,
                        px as int,
                        py as int,
                    ));
                    assert(z3 as int == edge_fn(
                        c.x as int,
                        c.y as int,
                        a.x as int,
                        a.y as int,
                        px as int,
                        py as int,
                    ));
                    lemma_edge_sum(a, b, c, px as int, py as int);
                }
                let raw1 = z2;
                let raw2 = z3;
                let w1 = if flip {
                    -raw1
                } else {
                    raw1
                };
                let w2 = if flip {
                    -raw2
                } else {
                    raw2
                };
                let inside = w1 >= 0 && w2 >= 0 && w1 + w2 <= sden_abs;
                proof {
                    if flip {
                        lemma_mul_neg_one(z1 as int);
                        lemma_mul_neg_one(z2 as int);
                        lemma_mul_neg_one(z3 as int);
                        lemma_mul_neg_one(tri_den(a, b, c));
                    } else {
                        lemma_mul_one(z1 as int);
                        lemma_mul_one(z2 as int);
                        lemma_mul_one(z3 as int);
                        lemma_mul_one(tri_den(a, b, c));
                    }
                    assert(w1 as int == pe1(a, b, c, x as int, y as int));
                    assert(w2 as int == pe2(a, b, c, x as int, y as int));
                    lemma_norm_sum(a, b, c, x as int, y as int);
                    lemma_inside_norm(a, b, c, x as int, y as int);
                    assert(inside == inside_pt(
                        a.x as int,
                        a.y as int,
                        b.x as int,
                        b.y as int,
                        c.x as int,
                        c.y as int,
                        px as int,
                        py as int,
                    ));
                }

                let ghost pixels_before = self.pixels@;
                self.fill_pixel(a, b, c, color, Ghost(min_x as int), Ghost(max_x as int), Ghost(min_y as int), Ghost(y as int), Ghost(x as int), px, py, inside);
                proof {
                    let before_img = *old(self);
                    let idx = point_index(before_img, px as int, py as int);
                    assert forall|qx: int, qy: int|
                        min_x <= qx <= max_x && min_y <= qy <= y && (qy < y || qx < x + 1)
                            && inside_pt(
                            a.x as int,
                            a.y as int,
                            b.x as int,
                            b.y as int,
                            c.x as int,
                            c.y as int,
                            qx * FX_ONE,
                            qy * FX_ONE,
                        ) implies #[trigger] self.pixels@[point_index(
                        before_img,
                        qx * FX_ONE,
                        qy * FX_ONE,
                    )] == color by {
                        lemma_point_index_range(before_img, qx * FX_ONE, qy * FX_ONE);
                        if !(qx == x && qy == y) {
                            assert(pixels_before[point_index(
                                before_img,
                                qx * FX_ONE,
                                qy * FX_ONE,
                            )] == color);
                        }
                    }
                    assert forall|i: int|
                        0 <= i < self.pixels@.len() implies #[trigger] self.pixels@[i]
                        == before_img.pixels@[i] || exists|qx: int, qy: int|
                        min_x <= qx <= max_x && min_y <= qy <= y && (qy < y || qx < x + 1)
                            && inside_pt(
                            a.x as int,
                            a.y as int,
                            b.x as int,
                            b.y as int,
                            c.x as int,
                            c.y as int,
                            qx * FX_ONE,
                            qy * FX_ONE,
                        ) && #[trigger] point_index(before_img, qx * FX_ONE, qy * FX_ONE)
                        == i by {
                        if self.pixels@[i] != before_img.pixels@[i] {
                            if pixels_before[i] != before_img.pixels@[i] {
                                let (wx, wy) = choose|qx: int, qy: int|
                                    min_x <= qx <= max_x && min_y <= qy <= y && (qy < y || qx < x)
                                        && inside_pt(
                                        a.x as int,
                                        a.y as int,
                                        b.x as int,
                                        b.y as int,
                                        c.x as int,
                                        c.y as int,
                                        qx * FX_ONE,
                                        qy * FX_ONE,
                                    ) && #[trigger] point_index(
                                        before_img,
                                        qx * FX_ONE,
                                        qy * FX_ONE,
                                    ) == i;
                                assert(min_x <= wx <= max_x && min_y <= wy <= y && (wy < y || wx
                                    < x + 1) && inside_pt(
                                    a.x as int,
                                    a.y as int,
                                    b.x as int,
                                    b.y as int,
                                    c.x as int,
                                    c.y as int,
                                    wx * FX_ONE,
                                    wy * FX_ONE,
                                ) && point_index(before_img, wx * FX_ONE, wy * FX_ONE) == i);
                            } else {
                                assert(i == idx);
                                assert(inside);
                                assert(min_x <= x as int <= max_x && min_y <= y as int <= y as int
                                    && inside_pt(
                                    a.x as int,
                                    a.y as int,
                                    b.x as int,
                                    b.y as int,
                                    c.x as int,
                                    c.y as int,
                                    x as int * FX_ONE,
                                    y as int * FX_ONE,
                                ) && point_index(before_img, x as int * FX_ONE, y as int * FX_ONE)
                                    == i);
                            }
                        }
                    }
                }
                x = x + 1;
            }
            y = y + 1;
        }
        proof {
            assert forall|i: int|
                0 <= i < self.pixels@.len() implies #[trigger] self.pixels@[i] == old(
                self,
            ).pixels@[i] || cell_written(*old(self), a, b, c, i) by {
                if self.pixels@[i] != old(self).pixels@[i] {
                    let (wx, wy) = choose|qx: int, qy: int|
                        min_x <= qx <= max_x && min_y <= qy < y && inside_pt(
                            a.x as int,
                            a.y as int,
                            b.x as int,
                            b.y as int,
                            c.x as int,
                            c.y as int,
                            qx * FX_ONE,
                            qy * FX_ONE,
                        ) && #[trigger] point_index(*old(self), qx * FX_ONE, qy * FX_ONE) == i;
                    assert(tri_bbox(a, b, c, wx, wy));
                    assert(cell_written(*old(self), a, b, c, i));
                }
            }
        }
    }

    /// Draws text with the built-in 3x5 glyph font, each set bit a
    /// scale-by-scale block of pixels: every such block pixel takes the
    /// color, and nothing else changes.
    #[verifier::loop_isolation(false)]
    #[verifier::rlimit(100)]
    pub fn draw_text(&mut self, text: &[char], coordinate: Vertex2, color: u32, scale: usize)
        requires
            img_wf(*old(self)),
            text@.len() <= 4096,
            1 <= scale <= 256,
            -0x1000_0000 <= coordinate.x <= 0x1000_0000,
            -0x1000_0000 <= coordinate.y <= 0x1000_0000,
        ensures
            draws_only(*old(self), *final(self), color),
            forall|li: int, r: int, cc: int, dy: int, dx: int|
                0 <= li < text@.len() && 0 <= r < 5 && 0 <= cc < 3 && 0 <= dy < scale && 0 <= dx
                    < scale && font_glyph(old(self).font@, text@[li])@[3 * r + cc] == 1
                    ==> #[trigger] final(self).pixels@[point_index(
                    *old(self),
                    coordinate.x + li * (4 * scale * FX_ONE) + (cc * scale + dx) * FX_ONE,
                    coordinate.y - (r * scale + dy) * FX_ONE,
                )] == color,
    {
        let n = text.len();
        let mut li: usize = 0;
        let mut offset: i64 = 0;
        while li < n
            invariant
                li <= n,
                n == text@.len(),
                n <= 4096,
                1 <= scale <= 256,
                offset == li * (4 * scale * FX_ONE),
                0 <= offset <= li * 4 * 256 * FX_ONE,
                draws_only(*old(self), *self, color),
                forall|lj: int, r: int, cc: int, dy: int, dx: int|
                    0 <= lj < li && 0 <= r < 5 && 0 <= cc < 3 && 0 <= dy < scale && 0 <= dx < scale
                        && font_glyph(old(self).font@, text@[lj])@[3 * r + cc] == 1
                        ==> #[trigger] self.pixels@[point_index(
                        *old(self),
                        coordinate.x + lj * (4 * scale * FX_ONE) + (cc * scale + dx) * FX_ONE,
                        coordinate.y - (r * scale + dy) * FX_ONE,
                    )] == color,
            decreases n - li,
        {
            let letter = text[li];
            let mut map: [u8; 15] = [0, 0, 0, 0, 0, 0, 0, 0, 0, 0, 0, 0, 0, 0, 0];
            let mut fi: usize = 0;
            let flen = self.font.len();
            while fi < flen
                invariant
                    fi <= flen,
                    flen == self.font@.len(),
                    map == font_glyph(self.font@.subrange(0, fi as int), letter),
                decreases flen - fi,
            {
                let entry = self.font[fi];
                proof {
                    let pre = self.font@.subrange(0, fi as int);
                    let ext = self.font@.subrange(0, fi as int + 1);
                    assert(ext.drop_last() =~= pre);
                    assert(ext.last() == self.font@[fi as int]);
                }
                if entry.0 == letter {
                    map = entry.1;
                }
                fi = fi + 1;
            }
            proof {
                assert(self.font@.subrange(0, flen as int) =~= self.font@);
                assert(self.font == old(self).font);
                assert(map == font_glyph(old(self).font@, text@[li as int]));
            }
            let ghost pixels_prev = self.pixels@;
            let ghost img_prev = *self;
            self.draw_glyph(map, offset + coordinate.x, coordinate.y, color, scale);
            proof {
                assert forall|lj: int, r: int, cc: int, dy: int, dx: int|
                    0 <= lj < li + 1 && 0 <= r < 5 && 0 <= cc < 3 && 0 <= dy < scale && 0 <= dx
                        < scale && font_glyph(old(self).font@, text@[lj])@[3 * r + cc] == 1
                        implies #[trigger] self.pixels@[point_index(
                    *old(self),
                    coordinate.x + lj * (4 * scale * FX_ONE) + (cc * scale + dx) * FX_ONE,
                    coordinate.y - (r * scale + dy) * FX_ONE,
                )] == color by {
                    let pi = point_index(
                        *old(self),
                        coordinate.x + lj * (4 * scale * FX_ONE) + (cc * scale + dx) * FX_ONE,
                        coordinate.y - (r * scale + dy) * FX_ONE,
                    );
                    lemma_point_index_range(
                        *old(self),
                        coordinate.x + lj * (4 * scale * FX_ONE) + (cc * scale + dx) * FX_ONE,
                        coordinate.y - (r * scale + dy) * FX_ONE,
                    );
                    if lj < li {
                        assert(pixels_prev[pi] == color);
                        assert(self.pixels@[pi] == pixels_prev[pi] || self.pixels@[pi] == color);
                    } else {
                        let xi = (offset + coordinate.x) + (cc * scale + dx) * FX_ONE;
                        let yi = coordinate.y - (r * scale + dy) * FX_ONE;
                        assert(self.pixels@[point_index(img_prev, xi, yi)] == color);
                        assert(xi == coordinate.x + lj * (4 * scale * FX_ONE) + (cc * scale + dx)
                            * FX_ONE);
                        assert(point_index(img_prev, xi, yi) == pi);
                    }
                }
            }
            proof {
                assert((li + 1) * (4 * scale * FX_ONE) == li * (4 * scale * FX_ONE) + 4 * scale
                    * FX_ONE) by (nonlinear_arith);
                assert(4 * (scale as int) * (FX_ONE as int) <= 4 * 256 * 65536) by (nonlinear_arith)
                    requires
                        1 <= scale <= 256,
                ;
                assert((li + 1) * 4 * 256 * FX_ONE == li * 4 * 256 * FX_ONE + 4 * 256
                    * FX_ONE) by (nonlinear_arith);
            }
            offset = offset + 4 * (scale as i64) * FX_ONE;
            li = li + 1;
        }
    }

    /// One glyph at a base position: each set bit of the 3x5 bitmap becomes a
    /// scale-by-scale block of pixels of the color; nothing else changes.
    #[verifier::loop_isolation(false)]
    #[verifier::rlimit(100)]
    fn draw_glyph(&mut self, glyph: [u8; 15], base_x: i64, base_y: i64, color: u32, scale: usize)
        requires
            img_wf(*old(self)),
            1 <= scale <= 256,
            -0x200_0000_0000 <= base_x <= 0x200_0000_0000,
            -0x200_0000_0000 <= base_y <= 0x200_0000_0000,
        ensures
            draws_only(*old(self), *final(self), color),
            forall|r: int, cc: int, dy: int, dx: int|
                0 <= r < 5 && 0 <= cc < 3 && 0 <= dy < scale && 0 <= dx < scale && glyph@[3 * r
                    + cc] == 1 ==> #[trigger] final(self).pixels@[point_index(
                    *old(self),
                    base_x + (cc * scale + dx) * FX_ONE,
                    base_y - (r * scale + dy) * FX_ONE,
                )] == color,
    {
        let mut r: usize = 0;
        while r < 5
            invariant
                r <= 5,
                draws_only(*old(self), *self, color),
                forall|rr: int, cc: int, dy: int, dx: int|
                    0 <= rr < r && 0 <= cc < 3 && 0 <= dy < scale && 0 <= dx < scale && glyph@[3
                        * rr + cc] == 1 ==> #[trigger] self.pixels@[point_index(
                        *old(self),
                        base_x + (cc * scale + dx) * FX_ONE,
                        base_y - (rr * scale + dy) * FX_ONE,
                    )] == color,
            decreases 5 - r,
        {
            let mut cc: usize = 0;
            while cc < 3
                invariant
                    cc <= 3,
                    r < 5,
                    draws_only(*old(self), *self, color),
                    forall|rr: int, cj: int, dy: int, dx: int|
                        0 <= rr <= r && 0 <= cj < 3 && (rr < r || cj < cc) && 0 <= dy < scale && 0
                            <= dx < scale && glyph@[3 * rr + cj] == 1
                            ==> #[trigger] self.pixels@[point_index(
                            *old(self),
                            base_x + (cj * scale + dx) * FX_ONE,
                            base_y - (rr * scale + dy) * FX_ONE,
                        )] == color,
                decreases 3 - cc,
            {
                if glyph[3 * r + cc] == 1 {
                    let mut dy: usize = 0;
                    while dy < scale
                        invariant
                            dy <= scale,
                            r < 5,
                            cc < 3,
                            glyph@[3 * r + cc] == 1,
                            draws_only(*old(self), *self, color),
                            forall|rr: int, cj: int, qy: int, qx: int|
                                0 <= rr <= r && 0 <= cj < 3 && (rr < r || cj < cc) && 0 <= qy
                                    < scale && 0 <= qx < scale && glyph@[3 * rr + cj] == 1
                                    ==> #[trigger] self.pixels@[point_index(
                                    *old(self),
                                    base_x + (cj * scale + qx) * FX_ONE,
                                    base_y - (rr * scale + qy) * FX_ONE,
                                )] == color,
                            forall|qy: int, qx: int|
                                0 <= qy < dy && 0 <= qx < scale
                                    ==> #[trigger] self.pixels@[point_index(
                                    *old(self),
                                    base_x + (cc * scale + qx) * FX_ONE,
                                    base_y - (r * scale + qy) * FX_ONE,
                                )] == color,
                        decreases scale - dy,
                    {
                        let mut dx: usize = 0;
                        while dx < scale
                            invariant
                                dx <= scale,
                                dy < scale,
                                r < 5,
                                cc < 3,
                                glyph@[3 * r + cc] == 1,
                                draws_only(*old(self), *self, color),
                                forall|rr: int, cj: int, qy: int, qx: int|
                                    0 <= rr <= r && 0 <= cj < 3 && (rr < r || cj < cc) && 0 <= qy
                                        < scale && 0 <= qx < scale && glyph@[3 * rr + cj] == 1
                                        ==> #[trigger] self.pixels@[point_index(
                                        *old(self),
                                        base_x + (cj * scale + qx) * FX_ONE,
                                        base_y - (rr * scale + qy) * FX_ONE,
                                    )] == color,
                                forall|qy: int, qx: int|
                                    0 <= qy < dy && 0 <= qx < scale
                                        ==> #[trigger] self.pixels@[point_index(
                                        *old(self),
                                        base_x + (cc * scale + qx) * FX_ONE,
                                        base_y - (r * scale + qy) * FX_ONE,
                                    )] == color,
                                forall|qx: int|
                                    0 <= qx < dx ==> #[trigger] self.pixels@[point_index(
                                        *old(self),
                                        base_x + (cc * scale + qx) * FX_ONE,
                                        base_y - (r * scale + dy) * FX_ONE,
                                    )] == color,
                            decreases scale - dx,
                        {
                            proof {
                                assert(cc * scale + dx < 768) by (nonlinear_arith)
                                    requires
                                        cc < 3,
                                        dx < scale,
                                        scale <= 256,
                                ;
                                assert(r * scale + dy < 1280) by (nonlinear_arith)
                                    requires
                                        r < 5,
                                        dy < scale,
                                        scale <= 256,
                                ;
                            }
                            let gx: i64 = base_x + ((cc * scale + dx) as i64) * FX_ONE;
                            let gy: i64 = base_y - ((r * scale + dy) as i64) * FX_ONE;
                            let ghost pixels_prev = self.pixels@;
                            self.draw_point(Vertex2 { x: gx, y: gy }, color);
                            proof {
                                assert(point_index(*self, gx as int, gy as int) == point_index(
                                    *old(self),
                                    gx as int,
                                    gy as int,
                                ));
                                assert(self.pixels@[point_index(*old(self), gx as int, gy as int)]
                                    == color);
                                assert forall|rr: int, cj: int, qy: int, qx: int|
                                    0 <= rr <= r && 0 <= cj < 3 && (rr < r || cj < cc) && 0 <= qy
                                        < scale && 0 <= qx < scale && glyph@[3 * rr + cj] == 1
                                        implies #[trigger] self.pixels@[point_index(
                                    *old(self),
                                    base_x + (cj * scale + qx) * FX_ONE,
                                    base_y - (rr * scale + qy) * FX_ONE,
                                )] == color by {
                                    lemma_point_index_range(
                                        *old(self),
                                        base_x + (cj * scale + qx) * FX_ONE,
                                        base_y - (rr * scale + qy) * FX_ONE,
                                    );
                                    assert(pixels_prev[point_index(
                                        *old(self),
                                        base_x + (cj * scale + qx) * FX_ONE,
                                        base_y - (rr * scale + qy) * FX_ONE,
                                    )] == color);
                                }
                                assert forall|qy: int, qx: int|
                                    0 <= qy < dy && 0 <= qx < scale
                                        implies #[trigger] self.pixels@[point_index(
                                    *old(self),
                                    base_x + (cc * scale + qx) * FX_ONE,
                                    base_y - (r * scale + qy) * FX_ONE,
                                )] == color by {
                                    lemma_point_index_range(
                                        *old(self),
                                        base_x + (cc * scale + qx) * FX_ONE,
                                        base_y - (r * scale + qy) * FX_ONE,
                                    );
                                    assert(pixels_prev[point_index(
                                        *old(self),
                                        base_x + (cc * scale + qx) * FX_ONE,
                                        base_y - (r * scale + qy) * FX_ONE,
                                    )] == color);
                                }
                                assert forall|qx: int|
                                    0 <= qx < dx + 1 implies #[trigger] self.pixels@[point_index(
                                    *old(self),
                                    base_x + (cc * scale + qx) * FX_ONE,
                                    base_y - (r * scale + dy) * FX_ONE,
                                )] == color by {
                                    lemma_point_index_range(
                                        *old(self),
                                        base_x + (cc * scale + qx) * FX_ONE,
                                        base_y - (r * scale + dy) * FX_ONE,
                                    );
                                    if qx < dx {
                                        assert(pixels_prev[point_index(
                                            *old(self),
                                            base_x + (cc * scale + qx) * FX_ONE,
                                            base_y - (r * scale + dy) * FX_ONE,
                                        )] == color);
                                    } else {
                                        assert(base_x + (cc * scale + qx) * FX_ONE == gx as int);
                                        assert(base_y - (r * scale + dy) * FX_ONE == gy as int);
                                    }
                                }
                            }
                            dx = dx + 1;
                        }
                        dy = dy + 1;
                    }
                }
                cc = cc + 1;
            }
            r = r + 1;
        }
    }
}

/// Three values' absolute sum collapses to the sum's absolute value exactly
/// when they share a sign.
proof fn lemma_abs_sum_sign(p: int, q: int, r: int)
    ensures
        ((if p >= 0 {
            p
        } else {
            -p
        }) + (if q >= 0 {
            q
        } else {
            -q
        }) + (if r >= 0 {
            r
        } else {
            -r
        }) == (if p + q + r >= 0 {
            p + q + r
        } else {
            -(p + q + r)
        })) <==> ((p >= 0 && q >= 0 && r >= 0) || (p <= 0 && q <= 0 && r <= 0)),
{
}

/// The least of three values.
fn min3_i64(p: i64, q: i64, r: i64) -> (m: i64)
    ensures
        m <= p && m <= q && m <= r,
        m == p || m == q || m == r,
{
    if p <= q && p <= r {
        p
    } else if q <= r {
        q
    } else {
        r
    }
}

/// The greatest of three values.
fn max3_i64(p: i64, q: i64, r: i64) -> (m: i64)
    ensures
        m >= p && m >= q && m >= r,
        m == p || m == q || m == r,
{
    if p >= q && p >= r {
        p
    } else if q >= r {
        q
    } else {
        r
    }
}

/// The absolute value of a widened intermediate.
fn abs_i128(v: i128) -> (r: i128)
    requires
        v > i128::MIN,
    ensures
        r == if v >= 0 {
            v as int
        } else {
            -(v as int)
        },
{
    if v >= 0 {
        v
    } else {
        -v
    }
}


/// Byte `k` of a value's four-byte little-endian form.
pub open spec fn le_b(v: int, k: int) -> int {
    if k == 0 {
        v % 256
    } else if k == 1 {
        v / 256 % 256
    } else if k == 2 {
        v / 65536 % 256
    } else {
        v / 16777216 % 256
    }
}

/// Appends one byte, keeping everything before it.
fn push_byte(out: &mut Vec<u8>, v: u8)
    ensures
        final(out)@.len() == old(out)@.len() + 1,
        forall|i: int| 0 <= i < old(out)@.len() ==> final(out)@[i] == old(out)@[i],
        final(out)@[old(out)@.len() as int] == v,
{
    out.push(v);
}

/// Appends a value's four little-endian bytes.
fn push_le32(out: &mut Vec<u8>, v: u32)
    ensures
        final(out)@.len() == old(out)@.len() + 4,
        forall|i: int| 0 <= i < old(out)@.len() ==> final(out)@[i] == old(out)@[i],
        forall|k: int|
            0 <= k < 4 ==> final(out)@[old(out)@.len() + k] == le_b(v as int, k),
{
    out.push((v % 256) as u8);
    out.push((v / 256 % 256) as u8);
    out.push((v / 65536 % 256) as u8);
    out.push((v / 16777216 % 256) as u8);
}

impl Image {
    /// Encodes the image as a 24-bit uncompressed BMP file: the 14-byte file
    /// header, the 40-byte info header, then the rows bottom to top, each
    /// padded to four bytes, each pixel stored blue-green-red.
    #[verifier::rlimit(100)]
    #[verifier::spinoff_prover]
    #[verifier::loop_isolation(false)]
    pub fn bmp_bytes(&self) -> (out: Vec<u8>)
        requires
            img_wf(*self),
        ensures
            ({
                let w = self.width as int;
                let h = self.height as int;
                let pad = (4 - (3 * w) % 4) % 4;
                let stride = 3 * w + pad;
                let total = 54 + stride * h;
                &&& out@.len() == total
                &&& out@[0] == 66 && out@[1] == 77
                &&& forall|k: int| 0 <= k < 4 ==> out@[2 + k] == le_b(total, k)
                &&& forall|i: int| 6 <= i < 10 ==> out@[i] == 0
                &&& forall|k: int| 0 <= k < 4 ==> out@[10 + k] == le_b(54, k)
                &&& forall|k: int| 0 <= k < 4 ==> out@[14 + k] == le_b(40, k)
                &&& forall|k: int| 0 <= k < 4 ==> out@[18 + k] == le_b(w, k)
                &&& forall|k: int| 0 <= k < 4 ==> out@[22 + k] == le_b(h, k)
                &&& out@[26] == 1 && out@[27] == 0
                &&& out@[28] == 24 && out@[29] == 0
                &&& forall|i: int| 30 <= i < 34 ==> out@[i] == 0
                &&& forall|k: int| 0 <= k < 4 ==> #[trigger] out@[34 + k] == le_b(stride * h, k)
                &&& forall|k: int| 0 <= k < 4 ==> out@[38 + k] == le_b(2835, k)
                &&& forall|k: int| 0 <= k < 4 ==> out@[42 + k] == le_b(2835, k)
                &&& forall|i: int| 46 <= i < 54 ==> out@[i] == 0
                &&& forall|yp: int, x: int|
                    0 <= yp < h && 0 <= x < w ==> #[trigger] out@[54 + yp * stride + 3 * x] == le_b(
                        self.pixels@[(h - 1 - yp) * w + x] as int,
                        0,
                    ) && out@[54 + yp * stride + 3 * x + 1] == le_b(
                        self.pixels@[(h - 1 - yp) * w + x] as int,
                        1,
                    ) && out@[54 + yp * stride + 3 * x + 2] == le_b(
                        self.pixels@[(h - 1 - yp) * w + x] as int,
                        2,
                    )
                &&& forall|yp: int, k: int|
                    0 <= yp < h && 0 <= k < pad ==> #[trigger] out@[54 + yp * stride + 3 * w + k]
                        == 0
            }),
    {
        let w = self.width;
        let h = self.height;
        let ghost wi = w as int;
        let ghost hi = h as int;
        let row_padding = (4 - (w * 3) % 4) % 4;
        let stride = w * 3 + row_padding;
        proof {
            assert(stride * h <= 0xC003 * 0x4000) by (nonlinear_arith)
                requires
                    stride <= 0xC003,
                    h <= 0x4000,
            ;
        }
        let pixel_data_size = stride * h;
        let file_size = 54 + pixel_data_size;
        let mut out: Vec<u8> = Vec::new();
        // The bitmap file header.
        push_byte(&mut out, 66);
        push_byte(&mut out, 77);
        push_le32(&mut out, file_size as u32);
        push_le32(&mut out, 0);
        push_le32(&mut out, 54);
        // The info header.
        push_le32(&mut out, 40);
        push_le32(&mut out, w as u32);
        push_le32(&mut out, h as u32);
        push_byte(&mut out, 1);
        push_byte(&mut out, 0);
        push_byte(&mut out, 24);
        push_byte(&mut out, 0);
        push_le32(&mut out, 0);
        push_le32(&mut out, pixel_data_size as u32);
        push_le32(&mut out, 2835);
        push_le32(&mut out, 2835);
        push_le32(&mut out, 0);
        push_le32(&mut out, 0);
        let ghost hdr = out@;
        proof {
            assert(hdr.len() == 54);
        }
        // The pixel rows, bottom to top, blue-green-red, padded to four bytes.
        let mut yp: usize = 0;
        while yp < h
            invariant
                yp <= h,
                out@.len() == 54 + yp * (stride as int),
                forall|i: int| 0 <= i < 54 ==> out@[i] == hdr[i],
                forall|ypp: int, x: int|
                    0 <= ypp < yp && 0 <= x < wi ==> #[trigger] out@[54 + ypp * (stride as int) + 3
                        * x] == le_b(self.pixels@[(hi - 1 - ypp) * wi + x] as int, 0) && out@[54 + ypp
                        * (stride as int) + 3 * x + 1] == le_b(
                        self.pixels@[(hi - 1 - ypp) * wi + x] as int,
                        1,
                    ) && out@[54 + ypp * (stride as int) + 3 * x + 2] == le_b(
                        self.pixels@[(hi - 1 - ypp) * wi + x] as int,
                        2,
                    ),
                forall|ypp: int, k: int|
                    0 <= ypp < yp && 0 <= k < row_padding ==> #[trigger] out@[54 + ypp * (
                    stride as int) + 3 * wi + k] == 0,
            decreases h - yp,
        {
            let ghost row0 = out@;
            proof {
                assert forall|ypp: int, x: int| 0 <= ypp < yp && 0 <= x < wi implies #[trigger] row0[54
                    + ypp * (stride as int) + 3 * x] == le_b(
                    self.pixels@[(hi - 1 - ypp) * wi + x] as int,
                    0,
                ) && row0[54 + ypp * (stride as int) + 3 * x + 1] == le_b(
                    self.pixels@[(hi - 1 - ypp) * wi + x] as int,
                    1,
                ) && row0[54 + ypp * (stride as int) + 3 * x + 2] == le_b(
                    self.pixels@[(hi - 1 - ypp) * wi + x] as int,
                    2,
                ) by {
                    assert(out@[54 + ypp * (stride as int) + 3 * x] == row0[54 + ypp * (
                    stride as int) + 3 * x]);
                }
                assert forall|ypp: int, kk: int| 0 <= ypp < yp && 0 <= kk < row_padding
                    implies #[trigger] row0[54 + ypp * (stride as int) + 3 * wi + kk] == 0 by {
                    assert(out@[54 + ypp * (stride as int) + 3 * wi + kk] == row0[54 + ypp * (
                    stride as int) + 3 * wi + kk]);
                }
                assert(forall|i: int| 0 <= i < 54 ==> row0[i] == hdr[i]);
                assert((hi - 1 - yp) * wi + wi <= hi * wi) by (nonlinear_arith)
                    requires
                        0 <= yp < hi,
                        wi >= 1,
                ;
                assert(hi * wi == wi * hi) by (nonlinear_arith);
                assert((hi - 1 - yp) * wi >= 0) by (nonlinear_arith)
                    requires
                        0 <= yp < hi,
                        wi >= 1,
                ;
                assert(wi * hi <= 0x1000_0000) by (nonlinear_arith)
                    requires
                        1 <= wi <= 0x4000,
                        1 <= hi <= 0x4000,
                ;
            }
            let y = h - 1 - yp;
            let row_start = y * w;
            let mut x: usize = 0;
            while x < w
                invariant
                    x <= w,
                    out@.len() == row0.len() + 3 * x,
                    row0.len() == 54 + yp * (stride as int),
                    yp < h,
                    row_start == (hi - 1 - yp) * wi,
                    row_start + wi <= self.pixels@.len(),
                    forall|i: int| 0 <= i < row0.len() ==> out@[i] == row0[i],
                    forall|xx: int|
                        0 <= xx < x ==> #[trigger] out@[row0.len() + 3 * xx] == le_b(
                            self.pixels@[row_start + xx] as int,
                            0,
                        ) && out@[row0.len() + 3 * xx + 1] == le_b(
                            self.pixels@[row_start + xx] as int,
                            1,
                        ) && out@[row0.len() + 3 * xx + 2] == le_b(
                            self.pixels@[row_start + xx] as int,
                            2,
                        ),
                decreases w - x,
            {
                let color = self.pixels[row_start + x];
                let (r, g, b) = Self::u32_to_rgb(color);
                push_byte(&mut out, b);
                push_byte(&mut out, g);
                push_byte(&mut out, r);
                proof {
                    assert(out@[row0.len() + 3 * (x as int)] == b);
                    assert(out@[row0.len() + 3 * (x as int) + 1] == g);
                    assert(out@[row0.len() + 3 * (x as int) + 2] == r);
                }
                x = x + 1;
            }
            let mut k: usize = 0;
            while k < row_padding
                invariant
                    k <= row_padding,
                    out@.len() == row0.len() + 3 * wi + k,
                    row0.len() == 54 + yp * (stride as int),
                    yp < h,
                    row_start == (hi - 1 - yp) * wi,
                    forall|i: int| 0 <= i < row0.len() ==> out@[i] == row0[i],
                    forall|xx: int|
                        0 <= xx < wi ==> #[trigger] out@[row0.len() + 3 * xx] == le_b(
                            self.pixels@[row_start + xx] as int,
                            0,
                        ) && out@[row0.len() + 3 * xx + 1] == le_b(
                            self.pixels@[row_start + xx] as int,
                            1,
                        ) && out@[row0.len() + 3 * xx + 2] == le_b(
                            self.pixels@[row_start + xx] as int,
                            2,
                        ),
                    forall|kk: int| 0 <= kk < k ==> #[trigger] out@[row0.len() + 3 * wi + kk]
                        == 0,
                decreases row_padding - k,
            {
                push_byte(&mut out, 0);
                k = k + 1;
            }
            proof {
                assert((yp + 1) * (stride as int) == yp * (stride as int)
                    + stride as int) by (nonlinear_arith);
                assert forall|ypp: int, xx: int| 0 <= ypp < yp + 1 && 0 <= xx < wi implies #[trigger] out@[
                    54 + ypp * (stride as int) + 3 * xx] == le_b(
                    self.pixels@[(hi - 1 - ypp) * wi + xx] as int,
                    0,
                ) && out@[54 + ypp * (stride as int) + 3 * xx + 1] == le_b(
                    self.pixels@[(hi - 1 - ypp) * wi + xx] as int,
                    1,
                ) && out@[54 + ypp * (stride as int) + 3 * xx + 2] == le_b(
                    self.pixels@[(hi - 1 - ypp) * wi + xx] as int,
                    2,
                ) by {
                    if ypp < yp {
                        assert(ypp * (stride as int) + stride as int <= yp * (
                        stride as int)) by (nonlinear_arith)
                            requires
                                0 <= ypp < yp,
                                stride as int >= 3,
                        ;
                        assert(3 * xx + 2 < stride as int);
                        assert(54 + ypp * (stride as int) + 3 * xx + 2 < row0.len());
                        assert(out@[54 + ypp * (stride as int) + 3 * xx] == row0[54 + ypp * (
                        stride as int) + 3 * xx]);
                        assert(out@[54 + ypp * (stride as int) + 3 * xx + 1] == row0[54 + ypp * (
                        stride as int) + 3 * xx + 1]);
                        assert(out@[54 + ypp * (stride as int) + 3 * xx + 2] == row0[54 + ypp * (
                        stride as int) + 3 * xx + 2]);
                    } else {
                        assert(54 + ypp * (stride as int) + 3 * xx == row0.len() + 3 * xx);
                        assert(out@[row0.len() + 3 * xx] == le_b(
                            self.pixels@[row_start + xx] as int,
                            0,
                        ));
                        assert(out@[row0.len() + 3 * xx + 1] == le_b(
                            self.pixels@[row_start + xx] as int,
                            1,
                        ));
                        assert(out@[row0.len() + 3 * xx + 2] == le_b(
                            self.pixels@[row_start + xx] as int,
                            2,
                        ));
                        assert(row_start + xx == (hi - 1 - ypp) * wi + xx);
                    }
                }
                assert forall|ypp: int, kk: int| 0 <= ypp < yp + 1 && 0 <= kk < row_padding
                    implies #[trigger] out@[54 + ypp * (stride as int) + 3 * wi + kk] == 0 by {
                    if ypp < yp {
                        assert(ypp * (stride as int) + stride as int <= yp * (
                        stride as int)) by (nonlinear_arith)
                            requires
                                0 <= ypp < yp,
                                stride as int >= 3,
                        ;
                        assert(3 * wi + kk < stride as int);
                        assert(54 + ypp * (stride as int) + 3 * wi + kk < row0.len());
                        assert(out@[54 + ypp * (stride as int) + 3 * wi + kk] == row0[54 + ypp * (
                        stride as int) + 3 * wi + kk]);
                    } else {
                        assert(54 + ypp * (stride as int) + 3 * wi + kk == row0.len() + 3 * wi
                            + kk);
                        assert(out@[row0.len() + 3 * wi + kk] == 0);
                    }
                }
            }
            yp = yp + 1;
        }
        proof {
            assert(hi * (stride as int) == (stride as int) * hi) by (nonlinear_arith);
            let ws = self.width as int;
            let hs = self.height as int;
            let pad_s = (4 - (3 * ws) % 4) % 4;
            let stride_s = 3 * ws + pad_s;
            assert(stride_s == stride as int);
            assert forall|yq: int, x: int| 0 <= yq < hs && 0 <= x < ws implies #[trigger] out@[54
                + yq * stride_s + 3 * x] == le_b(self.pixels@[(hs - 1 - yq) * ws + x] as int, 0)
                && out@[54 + yq * stride_s + 3 * x + 1] == le_b(
                self.pixels@[(hs - 1 - yq) * ws + x] as int,
                1,
            ) && out@[54 + yq * stride_s + 3 * x + 2] == le_b(
                self.pixels@[(hs - 1 - yq) * ws + x] as int,
                2,
            ) by {
                assert(out@[54 + yq * (stride as int) + 3 * x] == le_b(
                    self.pixels@[(hi - 1 - yq) * wi + x] as int,
                    0,
                ));
                assert(out@[54 + yq * (stride as int) + 3 * x + 1] == le_b(
                    self.pixels@[(hi - 1 - yq) * wi + x] as int,
                    1,
                ));
                assert(out@[54 + yq * (stride as int) + 3 * x + 2] == le_b(
                    self.pixels@[(hi - 1 - yq) * wi + x] as int,
                    2,
                ));
                assert(yq * stride_s == yq * (stride as int));
            }
            assert forall|yq: int, kk: int| 0 <= yq < hs && 0 <= kk < pad_s implies #[trigger] out@[
                54 + yq * stride_s + 3 * ws + kk] == 0 by {
                assert(out@[54 + yq * (stride as int) + 3 * wi + kk] == 0);
                assert(yq * stride_s == yq * (stride as int));
            }
            assert(out@.len() == 54 + stride_s * hs);
            assert(out@[0] == 66 && out@[1] == 77);
            assert(file_size as int == 54 + stride_s * hs);
            assert forall|k: int| 0 <= k < 4 implies #[trigger] out@[2 + k] == le_b(54 + stride_s * hs, k) by {
                assert(out@[2 + k] == hdr[2 + k]);
                assert(hdr[2 + k] == le_b(file_size as int, k));
            }
            assert forall|i: int| 6 <= i < 10 implies #[trigger] out@[i] == 0 by {
                assert(out@[i] == hdr[i]);
                assert(hdr[i] == le_b(0, i - 6));
            }
            assert forall|k: int| 0 <= k < 4 implies #[trigger] out@[10 + k] == le_b(54, k) by {
                assert(out@[10 + k] == hdr[10 + k]);
            }
            assert forall|k: int| 0 <= k < 4 implies #[trigger] out@[14 + k] == le_b(40, k) by {
                assert(out@[14 + k] == hdr[14 + k]);
            }
            assert forall|k: int| 0 <= k < 4 implies #[trigger] out@[18 + k] == le_b(ws, k) by {
                assert(out@[18 + k] == hdr[18 + k]);
                assert(hdr[18 + k] == le_b((w as u32) as int, k));
            }
            assert forall|k: int| 0 <= k < 4 implies #[trigger] out@[22 + k] == le_b(hs, k) by {
                assert(out@[22 + k] == hdr[22 + k]);
                assert(hdr[22 + k] == le_b((h as u32) as int, k));
            }
            assert(out@[26] == 1 && out@[27] == 0 && out@[28] == 24 && out@[29] == 0);
            assert forall|i: int| 30 <= i < 34 implies #[trigger] out@[i] == 0 by {
                assert(out@[i] == hdr[i]);
                assert(hdr[i] == le_b(0, i - 30));
            }
            assert(pixel_data_size as int == stride_s * hs);
            assert forall|k: int| 0 <= k < 4 implies #[trigger] out@[34 + k] == le_b(stride_s * hs, k) by {
                assert(out@[34 + k] == hdr[34 + k]);
                assert(hdr[34 + k] == le_b(pixel_data_size as int, k));
            }
            assert forall|k: int| 0 <= k < 4 implies #[trigger] out@[38 + k] == le_b(2835, k) by {
                assert(out@[38 + k] == hdr[38 + k]);
            }
            assert forall|k: int| 0 <= k < 4 implies #[trigger] out@[42 + k] == le_b(2835, k) by {
                assert(out@[42 + k] == hdr[42 + k]);
            }
            assert forall|i: int| 46 <= i < 54 implies #[trigger] out@[i] == 0 by {
                assert(out@[i] == hdr[i]);
                if i < 50 {
                    assert(hdr[i] == le_b(0, i - 46));
                } else {
                    assert(hdr[i] == le_b(0, i - 50));
                }
            }
        }
        out
    }
}

} // verus!
