//! Tests for the gamma tables and basic pixel arithmetic.

use termpix::gamma::Table;
use termpix::pixel::{FP_ONE, Pixel};

#[test]
fn gamma_round_trip_all_bytes() {
    let t = Table::generate();
    for x in 0..=255u8 {
        let v = t.decode(x);
        assert_eq!(t.encode(v), x, "round trip failed at {}", x);
    }
}

#[test]
fn gamma_endpoints() {
    let t = Table::generate();
    assert_eq!(t.decode(0), 0);
    assert_eq!(t.decode(255), FP_ONE);
}

#[test]
fn gamma_known_values() {
    let t = Table::generate();
    // 128/255 = 0.50196...; linear = ((x + 0.055)/1.055)^2.4 = 0.21586...
    assert_eq!(t.decode(128), 14147);
    // 0x80 = 128 is the half-intensity device byte used by the fixed
    // palette.
    assert_eq!(t.decode(0x0A), 199);
}

#[test]
fn gamma_strictly_increasing() {
    let t = Table::generate();
    let mut prev = t.decode(0);
    for x in 1..=255u8 {
        let v = t.decode(x);
        assert!(v > prev, "table not strictly increasing at {}", x);
        prev = v;
    }
}

#[test]
fn encode_rounds_to_nearest() {
    let t = Table::generate();
    // A value between decode(0)=0 and decode(1)=20 encodes to the nearer
    // byte, and to the lower byte on an exact tie.
    assert_eq!(t.encode(5), 0);
    assert_eq!(t.encode(19), 1);
    assert_eq!(t.encode(10), 0); // tie 10 vs 10: lowest index wins
}

#[test]
fn distance_is_symmetric_on_palette_pairs() {
    let t = Table::generate();
    let pal = termpix::palette::terminal_colors(&t);
    for a in 0..pal.len() {
        for b in 0..pal.len() {
            assert_eq!(pal[a].dist(pal[b]), pal[b].dist(pal[a]));
        }
    }
}

#[test]
fn distance_zero_iff_equal() {
    let a = Pixel::new(1, 2, 3);
    let b = Pixel::new(1, 2, 3);
    let c = Pixel::new(1, 2, 4);
    assert_eq!(a.dist(b), 0);
    assert!(a.dist(c) > 0);
}

#[test]
fn luminance_weights() {
    let white = Pixel::new(FP_ONE, FP_ONE, FP_ONE);
    assert_eq!(white.luminance(), FP_ONE);
    let red = Pixel::new(FP_ONE, 0, 0);
    // 0.2126 of full intensity.
    assert_eq!(red.luminance(), 2126 * FP_ONE / 10000);
    let black = Pixel::black();
    assert_eq!(black.luminance(), 0);
}

#[test]
fn clamp_limits_channels() {
    let p = Pixel::new(-5, 70000, 100);
    let c = p.clamp();
    assert_eq!(c, Pixel::new(0, FP_ONE, 100));
}

#[test]
fn pixel_componentwise_arithmetic() {
    let a = Pixel::new(10, 20, 30);
    let b = Pixel::new(1, 2, 3);
    assert_eq!(a.add(b), Pixel::new(11, 22, 33));
    assert_eq!(a.sub(b), Pixel::new(9, 18, 27));
}

#[test]
fn device_word_round_trips_palette_colors() {
    // Encoding a decoded palette color back to a device word recovers the
    // original packed bytes.
    let t = Table::generate();
    let white = Pixel::new(FP_ONE, FP_ONE, FP_ONE);
    assert_eq!(termpix::palette::encode_device(&t, white), 0xFFFFFF);
    let navy = t.decode_px(0x00, 0x00, 0x80);
    assert_eq!(termpix::palette::encode_device(&t, navy), 0x800000);
    let silver = t.decode_px(0xC0, 0xC0, 0xC0);
    assert_eq!(termpix::palette::encode_device(&t, silver), 0xC0C0C0);
}

#[test]
fn xyz_round_values() {
    let white = Pixel::new(FP_ONE, FP_ONE, FP_ONE);
    let xyz = termpix::colors::to_xyz(white);
    assert_eq!(xyz, Pixel::new(62287, 65535, 71363));
    // XYZ -> RGB is the inverse matrix: white comes back near white.
    let back = termpix::colors::to_rgb(xyz);
    assert!((back.r - FP_ONE).abs() < 16);
    assert!((back.g - FP_ONE).abs() < 16);
    assert!((back.b - FP_ONE).abs() < 16);
}
