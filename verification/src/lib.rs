//! Converts a small indexed-color raster image into GLSL shader source code
//! that reconstructs the image from a compact, bit-packed representation.
//!
//! The pipeline deduplicates colors into a palette, chooses a minimal fixed
//! bit-width per pixel index, packs indices into 32-bit words under several
//! byte/word-order policies, and emits textual encodings that a GPU shader
//! compiler decodes back to the original pixels.

pub mod color;
pub mod config;
pub mod emit;
pub mod pack;
pub mod pixel_art;
pub mod semantics;
pub mod text;
