//! Tests for median-cut quantization and image resampling.

use termpix::RenderError;
use termpix::gamma::Table;
use termpix::image::{Image, load};
use termpix::pixel::{FP_ONE, Pixel};
use termpix::quant::computed_palette;

#[test]
fn median_cut_two_colors_survive() {
    // An image of exactly two distinct colors: median cut with palette
    // size >= 2 returns both colors among its leaves, exactly.
    let a = Pixel::new(1000, 2000, 3000);
    let b = Pixel::new(60000, 500, 7);
    let img = Image { width: 5, height: 1, pixels: vec![a, b, a, b, a] };
    let pal = computed_palette(&img, 4).unwrap();
    assert_eq!(pal.len(), 4);
    assert!(pal.contains(&a), "first color must survive quantization");
    assert!(pal.contains(&b), "second color must survive quantization");
}

#[test]
fn median_cut_single_leaf_is_mean() {
    let a = Pixel::new(100, 200, 300);
    let b = Pixel::new(300, 400, 500);
    let img = Image { width: 2, height: 1, pixels: vec![a, b] };
    let pal = computed_palette(&img, 1).unwrap();
    assert_eq!(pal, vec![Pixel::new(200, 300, 400)]);
}

#[test]
fn median_cut_splits_highest_variance_channel() {
    // Colors differ only in green: the split must separate them on green,
    // whatever the other channels hold.
    let a = Pixel::new(500, 100, 500);
    let b = Pixel::new(500, 60000, 500);
    let img = Image { width: 4, height: 1, pixels: vec![a, a, b, b] };
    let pal = computed_palette(&img, 2).unwrap();
    assert_eq!(pal, vec![a, b]);
}

#[test]
fn median_cut_rejects_non_power_of_two() {
    let img = Image { width: 1, height: 1, pixels: vec![Pixel::black()] };
    assert_eq!(computed_palette(&img, 3), Err(RenderError::UnsupportedPaletteSize));
    assert_eq!(computed_palette(&img, 0), Err(RenderError::UnsupportedPaletteSize));
    assert_eq!(computed_palette(&img, 512), Err(RenderError::UnsupportedPaletteSize));
    assert!(computed_palette(&img, 16).is_ok());
    assert!(computed_palette(&img, 256).is_ok());
}

#[test]
fn increase_size_pads_with_black() {
    let img = Image {
        width: 1,
        height: 1,
        pixels: vec![Pixel::new(5, 6, 7)],
    };
    let grown = img.increase_size(2, 2);
    assert_eq!(grown.width, 2);
    assert_eq!(grown.height, 2);
    assert_eq!(grown.pixels, vec![
        Pixel::new(5, 6, 7),
        Pixel::black(),
        Pixel::black(),
        Pixel::black(),
    ]);
}

#[test]
fn shrink_averages_blocks() {
    let img = Image {
        width: 2,
        height: 2,
        pixels: vec![
            Pixel::new(0, 100, 8),
            Pixel::new(100, 100, 8),
            Pixel::new(200, 100, 8),
            Pixel::new(300, 100, 12),
        ],
    };
    let small = img.shrink_factor(2, 2).unwrap();
    assert_eq!(small.width, 1);
    assert_eq!(small.height, 1);
    assert_eq!(small.pixels, vec![Pixel::new(150, 100, 9)]);
}

#[test]
fn shrink_rejects_zero_factor() {
    let img = Image { width: 2, height: 2, pixels: vec![Pixel::black(); 4] };
    assert_eq!(img.shrink_factor(0, 2).err(), Some(RenderError::InvalidDimensions));
    assert_eq!(img.shrink_factor(2, 0).err(), Some(RenderError::InvalidDimensions));
}

#[test]
fn load_composites_in_linear_space() {
    // Composite over black in linear space: linear = decode(c) * decode(a).
    let t = Table::generate();
    let rgba = vec![
        255, 255, 255, 255, // opaque white
        255, 0, 0, 128, // half-transparent red
        10, 20, 30, 0, // fully transparent
    ];
    let img = load(&rgba, 3, 1, &t).unwrap();
    assert_eq!(img.width, 3);
    assert_eq!(img.height, 1);
    assert_eq!(img.pixels[0], Pixel::new(FP_ONE, FP_ONE, FP_ONE));
    // decode(255) * decode(128) / FP_ONE == decode(128).
    assert_eq!(img.pixels[1], Pixel::new(t.decode(128), 0, 0));
    assert_eq!(img.pixels[2], Pixel::black());
    // Scaling the sRGB bytes before decoding would give decode(64) = 3360 instead.
    assert!(img.pixels[1].r != t.decode(64));
}

#[test]
fn load_rejects_wrong_buffer_length() {
    let t = Table::generate();
    let rgba = vec![0u8; 10];
    assert_eq!(load(&rgba, 2, 1, &t).err(), Some(RenderError::InvalidDimensions));
}

#[test]
fn image_get_is_bounds_checked() {
    let t = Table::generate();
    let img = Image::from_srgb(&vec![(255, 255, 255)], 1, 1, &t);
    assert_eq!(img.get(0, 0), Pixel::new(FP_ONE, FP_ONE, FP_ONE));
    assert_eq!(img.get(1, 0), Pixel::black());
    assert_eq!(img.get(0, 7), Pixel::black());
}
