use palette::color_difference::EuclideanDistance;
use palette::{FromColor, Lab, Srgb};
use vstd::prelude::*;

use crate::PaletteError;

verus! {

/// A color in device RGB, one byte per channel.
#[derive(Clone, Copy, Debug, PartialEq, Eq, Structural)]
pub struct Color {
    pub r: u8,
    pub g: u8,
    pub b: u8,
}

/// The squared Euclidean distance between the CIE Lab values (D65 white point) of
/// two sRGB colors, given as the bit pattern of the single-precision result.
pub uninterp spec fn lab_distance(a: (u8, u8, u8), b: (u8, u8, u8)) -> u32;

/// Relies on palette's `Srgb::into_format` (each byte over 255), `Lab::from_color`
/// (sRGB to Lab under D65) and `EuclideanDistance::distance_squared`, which sums
/// the squares of the component differences. palette is built on `libm`, so its
/// powers and cube roots do not vary with the platform or the toolchain. Swapping the operands negates each
/// difference exactly, so the sum is unchanged; equal colors give `+0.0`. The sum
/// is never negative, so its bit pattern orders as the number does.
#[verifier::external_body]
fn lab_distance_bits(a: &Color, b: &Color) -> (r: u32)
    ensures
        r == lab_distance(a.rgb(), b.rgb()),
        r == lab_distance(b.rgb(), a.rgb()),
        a.rgb() == b.rgb() ==> r == 0,
{
    let sa: Srgb = Srgb::new(a.r, a.g, a.b).into_format();
    let sb: Srgb = Srgb::new(b.r, b.g, b.b).into_format();
    let la: Lab = Lab::from_color(sa);
    let lb: Lab = Lab::from_color(sb);
    la.distance_squared(lb).to_bits()
}

impl Color {
    pub open spec fn rgb(self) -> (u8, u8, u8) {
        (self.r, self.g, self.b)
    }

    /// Perceptual distance to `other`: the squared distance of the two colors in
    /// CIE Lab, as a key that orders as the distance does.
    pub fn distance(&self, other: &Self) -> (r: u32)
        ensures
            r == dist(*self, *other),
            r == dist(*other, *self),
            *self == *other ==> r == 0,
    {
        lab_distance_bits(self, other)
    }
}

/// The distance key between two colors.
pub open spec fn dist(a: Color, b: Color) -> u32 {
    lab_distance(a.rgb(), b.rgb())
}

/// The color of pixel `i` of a buffer of RGBA bytes; alpha is not read.
pub open spec fn rgba_pixel(bytes: Seq<u8>, i: int) -> Color {
    Color { r: bytes[4 * i], g: bytes[4 * i + 1], b: bytes[4 * i + 2] }
}

/// The colors of every whole pixel of a buffer of RGBA bytes, in order.
pub open spec fn rgba_colors(bytes: Seq<u8>) -> Seq<Color> {
    Seq::new(bytes.len() / 4, |i: int| rgba_pixel(bytes, i))
}

/// The color of triple `i` of a buffer of RGB bytes.
pub open spec fn rgb_triple(bytes: Seq<u8>, i: int) -> Color {
    Color { r: bytes[3 * i], g: bytes[3 * i + 1], b: bytes[3 * i + 2] }
}

/// One color per whole pixel of an RGBA buffer, in order, alpha ignored.
pub fn colors_from_rgba(bytes: &[u8]) -> (r: Vec<Color>)
    ensures
        r@ == rgba_colors(bytes@),
        r.len() == bytes.len() / 4,
        forall|i: int| 0 <= i < r.len() ==> #[trigger] r[i] == rgba_pixel(bytes@, i),
{
    let n: usize = bytes.len() / 4;
    let mut out: Vec<Color> = Vec::new();
    let mut i: usize = 0;
    while i < n
        invariant
            n == bytes.len() / 4,
            i <= n,
            out.len() == i,
            forall|j: int| 0 <= j < i ==> #[trigger] out[j] == rgba_pixel(bytes@, j),
        decreases n - i,
    {
        let k: usize = 4 * i;
        out.push(Color { r: bytes[k], g: bytes[k + 1], b: bytes[k + 2] });
        i = i + 1;
    }
    assert(out@ =~= rgba_colors(bytes@));
    out
}

/// Reads a palette given as consecutive RGB triples. The buffer must be non-empty
/// and a whole number of triples long.
pub fn palette_colors(bytes: &[u8]) -> (r: Result<Vec<Color>, PaletteError>)
    ensures
        r is Err <==> bytes.len() == 0 || bytes.len() % 3 != 0,
        r matches Err(e) ==> e == PaletteError::InvalidArgument,
        r matches Ok(v) ==> v.len() == bytes.len() / 3 && forall|i: int|
            0 <= i < v.len() ==> #[trigger] v[i] == rgb_triple(bytes@, i),
{
    if bytes.len() == 0 || bytes.len() % 3 != 0 {
        return Err(PaletteError::InvalidArgument);
    }
    let n: usize = bytes.len() / 3;
    let mut out: Vec<Color> = Vec::new();
    let mut i: usize = 0;
    while i < n
        invariant
            n == bytes.len() / 3,
            i <= n,
            out.len() == i,
            forall|j: int| 0 <= j < i ==> #[trigger] out[j] == rgb_triple(bytes@, j),
        decreases n - i,
    {
        let k: usize = 3 * i;
        out.push(Color { r: bytes[k], g: bytes[k + 1], b: bytes[k + 2] });
        i = i + 1;
    }
    Ok(out)
}

} // verus!
