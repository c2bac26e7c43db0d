//! A lossy still-image codec built on fixed 8x8 blocks.
//!
//! An RGB raster is tiled into 8x8 blocks; each block stores per-channel
//! min/max statistics, four quantized corner samples, and an 8x8 grid of
//! delta-coded quantized samples, all packed into a strict binary layout.
//! This crate holds the integer core of the codec: sample packing, the
//! modular delta coder, the raster tiling, and the byte-exact format layer.

pub mod binfmt;
pub mod codec;
pub mod progress;
pub mod raster;
pub mod delta;
pub mod sample;
