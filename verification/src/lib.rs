//! A CPU-only software rasterization pipeline: triangulated meshes are turned
//! into packed pixels in a frame buffer, with perspective projection, a depth
//! buffer for occlusion, and perspective-correct texture sampling.
//!
//! All geometry is carried as fixed-point integers (see `fixed`): trigonometric
//! values (a rotation's sine and cosine, a camera's focal length) are computed
//! by the caller and handed in as plain fixed-point values, so that every
//! arithmetic step of the pipeline itself is exact and verified.

pub mod fixed;
pub mod rasterizer;
pub mod render;
pub mod render_objects;
pub mod renderer;
