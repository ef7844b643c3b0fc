//! Structural metadata of GIF images: pixel dimensions, container format and
//! animation frame count, read from a byte stream without decoding any pixel.

pub mod errors;
pub mod loader;
pub mod stream;
pub mod types;
