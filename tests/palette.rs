use std::io::Cursor;

use image::{DynamicImage, ImageOutputFormat, Rgba, RgbaImage};
use palette_extractor::{
    all_zero, check_palette_size, colors_from_rgba, dominant_colors, get_dominant_color, nearest_centroid,
    nearest_distances, palette_colors, palette_from_seeds, refine, refine_round, sample_colors,
    Color, PaletteError, DEFAULT_PRECISION, DEFAULT_SAMPLE_SIZE, TOP_COLORS,
};

const RED: Color = Color { r: 255, g: 0, b: 0 };
const BLUE: Color = Color { r: 0, g: 0, b: 255 };
const WHITE: Color = Color { r: 255, g: 255, b: 255 };

fn png_of(width: u32, height: u32, pixel: fn(u32, u32) -> [u8; 4]) -> Vec<u8> {
    let img = RgbaImage::from_fn(width, height, |x, y| Rgba(pixel(x, y)));
    let mut out = Cursor::new(Vec::new());
    DynamicImage::ImageRgba8(img)
        .write_to(&mut out, ImageOutputFormat::Png)
        .unwrap();
    out.into_inner()
}

fn bimodal() -> Vec<Color> {
    let mut colors = Vec::new();
    for i in 0..100 {
        colors.push(if i % 2 == 0 { RED } else { BLUE });
    }
    colors
}

#[test]
fn distance_is_symmetric() {
    let a = Color { r: 12, g: 200, b: 77 };
    let b = Color { r: 250, g: 3, b: 140 };
    assert_eq!(a.distance(&b), b.distance(&a));
    assert_eq!(RED.distance(&BLUE), BLUE.distance(&RED));
}

#[test]
fn distance_to_itself_is_zero() {
    for c in [RED, BLUE, WHITE, Color { r: 1, g: 2, b: 3 }] {
        assert_eq!(c.distance(&c), 0);
    }
}

#[test]
fn distance_orders_by_perceived_difference() {
    let dark_red = Color { r: 200, g: 0, b: 0 };
    assert!(RED.distance(&BLUE) > 0);
    assert!(RED.distance(&dark_red) < RED.distance(&BLUE));
}

#[test]
fn rgba_pixels_ignore_alpha() {
    let bytes = [1u8, 2, 3, 0, 4, 5, 6, 255, 9];
    let colors = colors_from_rgba(&bytes);
    assert_eq!(colors, vec![Color { r: 1, g: 2, b: 3 }, Color { r: 4, g: 5, b: 6 }]);
}

#[test]
fn palette_of_four_bytes_is_rejected() {
    assert_eq!(palette_colors(&[255, 255, 255, 0]), Err(PaletteError::InvalidArgument));
}

#[test]
fn empty_palette_is_rejected() {
    assert_eq!(palette_colors(&[]), Err(PaletteError::InvalidArgument));
}

#[test]
fn palette_triples_are_read_in_order() {
    let colors = palette_colors(&[255, 0, 0, 0, 0, 255]).unwrap();
    assert_eq!(colors, vec![RED, BLUE]);
}

#[test]
fn nearest_tie_goes_to_lowest_index() {
    assert_eq!(nearest_centroid(&RED, &vec![BLUE, RED, RED]), 1);
    assert_eq!(nearest_centroid(&RED, &vec![RED, RED]), 0);
}

#[test]
fn nearest_distances_are_zero_on_centroids() {
    let d = nearest_distances(&[RED, BLUE, WHITE], &vec![RED, BLUE]);
    assert_eq!(d.len(), 3);
    assert_eq!(d[0], 0);
    assert_eq!(d[1], 0);
    assert!(d[2] > 0);
}

#[test]
fn round_moves_centroid_to_truncated_mean() {
    let colors = [
        Color { r: 10, g: 20, b: 30 },
        Color { r: 11, g: 21, b: 31 },
        Color { r: 12, g: 22, b: 33 },
    ];
    assert_eq!(refine_round(&colors, &vec![BLUE]), vec![Color { r: 11, g: 21, b: 31 }]);
    let halves = [Color { r: 0, g: 0, b: 0 }, Color { r: 1, g: 1, b: 1 }];
    assert_eq!(refine_round(&halves, &vec![WHITE]), vec![Color { r: 0, g: 0, b: 0 }]);
}

#[test]
fn empty_cluster_keeps_its_centroid() {
    let colors = [RED, RED];
    assert_eq!(refine_round(&colors, &vec![RED, BLUE]), vec![RED, BLUE]);
}

#[test]
fn zero_rounds_return_the_seeds() {
    assert_eq!(refine(&bimodal(), vec![WHITE, RED], 0), vec![WHITE, RED]);
}

#[test]
fn bimodal_colors_stay_put_from_their_own_seeds() {
    assert_eq!(refine(&bimodal(), vec![RED, BLUE], DEFAULT_PRECISION), vec![RED, BLUE]);
}

#[test]
fn bimodal_colors_converge_from_equal_seeds() {
    assert_eq!(refine(&bimodal(), vec![RED, RED], DEFAULT_PRECISION), vec![BLUE, RED]);
}

#[test]
fn refinement_is_repeatable() {
    let colors = [RED, BLUE, WHITE, Color { r: 30, g: 140, b: 90 }, Color { r: 200, g: 190, b: 10 }];
    let first = refine(&colors, vec![RED, WHITE], 5);
    let second = refine(&colors, vec![RED, WHITE], 5);
    assert_eq!(first, second);
}

#[test]
fn palette_has_exactly_the_requested_size() {
    let colors = [RED, BLUE, WHITE, RED];
    for n in 1..=4 {
        let seeds = colors[..n].to_vec();
        let p = palette_from_seeds(&colors, seeds, n, 3).unwrap();
        assert_eq!(p.len(), n);
    }
}

#[test]
fn palette_size_errors() {
    let colors = [RED, BLUE];
    assert_eq!(palette_from_seeds(&colors, vec![], 0, 3), Err(PaletteError::InvalidArgument));
    assert_eq!(
        palette_from_seeds(&colors, vec![RED, BLUE, RED], 3, 3),
        Err(PaletteError::InvalidArgument)
    );
    assert_eq!(palette_from_seeds(&colors, vec![RED], 2, 3), Err(PaletteError::InvalidArgument));
    assert_eq!(check_palette_size(&[], 1), Err(PaletteError::InvalidArgument));
    assert_eq!(check_palette_size(&colors, 2), Ok(()));
}

#[test]
fn dominant_of_one_color() {
    assert_eq!(dominant_colors(&[RED, RED, RED]), vec![RED]);
}

#[test]
fn dominant_of_nothing_is_empty() {
    assert_eq!(dominant_colors(&[]), Vec::<Color>::new());
}

#[test]
fn dominant_orders_by_frequency() {
    let colors = [BLUE, RED, RED, WHITE, RED, BLUE];
    assert_eq!(dominant_colors(&colors), vec![RED, BLUE, WHITE]);
}

#[test]
fn dominant_keeps_five_at_most() {
    let mut colors = Vec::new();
    for v in 0..8u8 {
        for _ in 0..(v as usize + 1) {
            colors.push(Color { r: v, g: v, b: v });
        }
    }
    let top = dominant_colors(&colors);
    assert_eq!(top.len(), TOP_COLORS);
    let expected: Vec<Color> = (3..8u8).rev().map(|v| Color { r: v, g: v, b: v }).collect();
    assert_eq!(top, expected);
}

#[test]
fn dominant_color_of_red_image() {
    for (w, h) in [(1, 1), (3, 5), (40, 20)] {
        let png = png_of(w, h, |_, _| [255, 0, 0, 255]);
        assert_eq!(get_dominant_color(&png), Ok(vec![RED]));
    }
}

#[test]
fn dominant_color_ignores_alpha() {
    let png = png_of(4, 4, |x, _| if x == 0 { [0, 0, 255, 0] } else { [255, 0, 0, 10] });
    assert_eq!(get_dominant_color(&png), Ok(vec![RED, BLUE]));
}

#[test]
fn undecodable_bytes_are_a_decode_error() {
    assert_eq!(get_dominant_color(&[1, 2, 3, 4]), Err(PaletteError::Decode));
    assert_eq!(sample_colors(&[], DEFAULT_SAMPLE_SIZE), Err(PaletteError::Decode));
}

#[test]
fn sampling_scales_to_fit() {
    let png = png_of(8, 4, |_, _| [0, 0, 255, 255]);
    let colors = sample_colors(&png, 2).unwrap();
    assert_eq!(colors.len(), 2);
    let colors = sample_colors(&png, 16).unwrap();
    assert_eq!(colors.len(), 16 * 8);
    assert!(colors.iter().all(|c| *c == BLUE));
}

#[test]
fn sampled_bimodal_image_converges_to_its_colors() {
    let png = png_of(10, 10, |x, _| if x < 5 { [255, 0, 0, 255] } else { [0, 0, 255, 255] });
    let colors = sample_colors(&png, 10).unwrap();
    assert_eq!(colors.len(), 100);
    let p = palette_from_seeds(&colors, vec![RED, RED], 2, DEFAULT_PRECISION).unwrap();
    assert_eq!(p, vec![BLUE, RED]);
}

#[test]
fn all_zero_keys_mean_every_color_is_a_centroid() {
    assert!(all_zero(&nearest_distances(&[RED, RED, BLUE], &vec![BLUE, RED])));
    assert!(!all_zero(&nearest_distances(&[RED, WHITE], &vec![RED])));
    assert!(all_zero(&vec![]));
}
