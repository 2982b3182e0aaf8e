//! Palette extraction: perceptual distance between colors, Lloyd refinement of
//! cluster centers, an exact-match color histogram and the byte formats around them.

use vstd::prelude::*;

pub mod cluster;
pub mod color;
pub mod histogram;
pub mod image_source;

pub use cluster::{
    all_zero, check_palette_size, nearest_centroid, nearest_distances, palette_from_seeds, refine,
    refine_round, DEFAULT_PRECISION,
};
pub use color::{colors_from_rgba, palette_colors, Color};
pub use histogram::{dominant_colors, TOP_COLORS};
pub use image_source::{get_dominant_color, sample_colors, DEFAULT_SAMPLE_SIZE};

verus! {

/// Why a request was turned down.
#[derive(Clone, Copy, Debug, PartialEq, Eq, Structural)]
pub enum PaletteError {
    /// The bytes are not an image in a format that can be decoded.
    Decode,
    /// A count or a buffer length that the operation cannot work with.
    InvalidArgument,
}

} // verus!
