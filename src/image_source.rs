use image::imageops::FilterType;
use image::ImageError;
use vstd::prelude::*;

use crate::color::{colors_from_rgba, rgba_colors, Color};
use crate::histogram::{dominant_colors, is_dominant_ranking};
use crate::PaletteError;

verus! {

/// Largest width and height sampled when the caller gives none.
pub const DEFAULT_SAMPLE_SIZE: u32 = 100;

#[verifier::external_type_specification]
#[verifier::external_body]
pub struct ExImageError(ImageError);

/// Whether the bytes decode as an image of a supported format.
pub uninterp spec fn decodes(data: Seq<u8>) -> bool;

/// The RGBA bytes, in row order, of the image that the bytes decode to.
pub uninterp spec fn decoded_rgba(data: Seq<u8>) -> Seq<u8>;

/// The RGBA bytes, in row order, of the decoded image scaled with the triangle
/// filter, aspect ratio kept, to the largest size within `size` by `size`.
pub uninterp spec fn sampled_rgba(data: Seq<u8>, size: u32) -> Seq<u8>;

/// Relies on `image::load_from_memory`, which guesses the format from the bytes
/// and decodes them under fixed limits, and on `DynamicImage::to_rgba8` with
/// `ImageBuffer::into_raw`: four bytes (red, green, blue, alpha) per pixel.
#[verifier::external_body]
fn decode_rgba(data: &[u8]) -> (r: Result<Vec<u8>, ImageError>)
    ensures
        r is Ok <==> decodes(data@),
        r matches Ok(b) ==> b@ == decoded_rgba(data@) && b.len() % 4 == 0,
{
    match image::load_from_memory(data) {
        Ok(img) => Ok(img.to_rgba8().into_raw()),
        Err(e) => Err(e),
    }
}

/// Relies on `image::load_from_memory`, then `DynamicImage::resize` with
/// `FilterType::Triangle` (aspect ratio kept, at least one pixel a side), then
/// `DynamicImage::to_rgba8` with `ImageBuffer::into_raw`.
#[verifier::external_body]
fn sample_rgba(data: &[u8], size: u32) -> (r: Result<Vec<u8>, ImageError>)
    ensures
        r is Ok <==> decodes(data@),
        r matches Ok(b) ==> b@ == sampled_rgba(data@, size) && b.len() % 4 == 0,
{
    match image::load_from_memory(data) {
        Ok(img) => Ok(img.resize(size, size, FilterType::Triangle).to_rgba8().into_raw()),
        Err(e) => Err(e),
    }
}

/// Decodes an image, scales it to fit within `sample_size` by `sample_size`, and
/// returns one color per pixel of the result; alpha is ignored.
pub fn sample_colors(data: &[u8], sample_size: u32) -> (r: Result<Vec<Color>, PaletteError>)
    ensures
        r is Err <==> !decodes(data@),
        r matches Err(e) ==> e == PaletteError::Decode,
        r matches Ok(v) ==> v@ == rgba_colors(sampled_rgba(data@, sample_size)),
{
    match sample_rgba(data, sample_size) {
        Ok(bytes) => Ok(colors_from_rgba(bytes.as_slice())),
        Err(_) => Err(PaletteError::Decode),
    }
}

/// The most frequent exact colors of a decoded image, at most five, most frequent
/// first; every pixel is counted and alpha is ignored.
pub fn get_dominant_color(data: &[u8]) -> (r: Result<Vec<Color>, PaletteError>)
    ensures
        r is Err <==> !decodes(data@),
        r matches Err(e) ==> e == PaletteError::Decode,
        r matches Ok(v) ==> is_dominant_ranking(rgba_colors(decoded_rgba(data@)), v@),
{
    match decode_rgba(data) {
        Ok(bytes) => {
            let pixels: Vec<Color> = colors_from_rgba(bytes.as_slice());
            Ok(dominant_colors(pixels.as_slice()))
        },
        Err(_) => Err(PaletteError::Decode),
    }
}

} // verus!
