//! The drawing side of the pipeline: the model container with its texture
//! map, the screen that rasterizes into a frame buffer and depth buffer, and
//! the small types the two share.

pub mod model;
pub mod rasterizer;
pub mod types;
