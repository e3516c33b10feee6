//! Scene descriptions as plain values: a named point cloud to draw and a text
//! overlay. Serialization of these lives with the program around the library,
//! which carries its own mirror types for that.

use crate::render::types::{Vertex2, Vertex3};
use vstd::prelude::*;

verus! {

/// A drawable object: its points, packed color, and per-axis rotation flags.
#[derive(Clone, Debug)]
pub struct Object {
    pub name: String,
    pub points: Vec<Vertex3>,
    pub color: u32,
    pub rotation: [bool; 3],
    pub draw: bool,
}

/// A text overlay: what to write, where, and in which packed color.
#[derive(Clone, Debug)]
pub struct Text {
    pub text: String,
    pub origin: Vertex2,
    pub color: u32,
    pub draw: bool,
}

} // verus!
