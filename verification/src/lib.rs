//! Batch conversion of vector image files into fixed-size raster images.
//!
//! Each input scene is rasterized at a fixed render size, composited over a
//! randomly generated pastel background with source-over alpha blending, and
//! encoded as a 256x256 PNG. The geometry derivation, the pastel color
//! construction, the compositing arithmetic and the batch bookkeeping are all
//! verified; the SVG parser, the rasterizer, the PNG encoder and the random
//! hue draw are outside crates reached through trusted wrappers.

pub mod batch;
pub mod color;
pub mod errors;
pub mod geometry;
pub mod pipeline;
pub mod pixel;
pub mod random;
pub mod raster;
pub mod scene;
