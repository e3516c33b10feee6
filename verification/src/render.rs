//! The mesh side of the pipeline: its data types and the loader that fills
//! them from a Wavefront-OBJ-like text resource.

pub mod obj;
pub mod types;
