//! Tests for glyph coverage calibration.

use termpix::RenderError;
use termpix::coverage::{calibrate, glyph_ink_counts};
use termpix::pixel::FP_ONE;

/// A 4x2 calibration bitmap holding two 2x2 glyph cells side by side: the
/// first fully blank, the second with three ink pixels.
fn two_glyph_bitmap() -> (Vec<bool>, usize, usize) {
    let ink = vec![
        false, false, true, true,
        false, false, true, false,
    ];
    (ink, 4, 2)
}

#[test]
fn ink_counts_per_cell() {
    let (ink, w, h) = two_glyph_bitmap();
    let glyphs: Vec<u16> = vec![0x20, 0x41];
    let counts = glyph_ink_counts(&ink, w, h, 2, 2, 2, &glyphs).unwrap();
    assert_eq!(counts, vec![0, 3]);
}

#[test]
fn coverage_table_strictly_increasing() {
    let (ink, w, h) = two_glyph_bitmap();
    let glyphs: Vec<u16> = vec![0x20, 0x41];
    let table = calibrate(&ink, w, h, 2, 2, 2, &glyphs).unwrap();
    assert!(table.entries.len() >= 2);
    for e in 1..table.entries.len() {
        assert!(
            table.entries[e - 1].cov < table.entries[e].cov,
            "coverage keys must be strictly increasing"
        );
    }
    for e in &table.entries {
        assert!(0 <= e.cov && e.cov <= FP_ONE);
        assert!(!e.glyphs.is_empty());
    }
}

#[test]
fn coverage_includes_inverted_counterparts() {
    let (ink, w, h) = two_glyph_bitmap();
    let glyphs: Vec<u16> = vec![0x20, 0x41];
    let table = calibrate(&ink, w, h, 2, 2, 2, &glyphs).unwrap();
    // Glyph 0x20 has 0 of 4 ink pixels: coverage 0 normal, coverage 1
    // inverted.  Glyph 0x41 has 3 of 4: coverage 3/4 normal, 1/4 inverted.
    let find = |cov: i64, ch: u16, invert: bool| {
        table
            .entries
            .iter()
            .any(|e| e.cov == cov && e.glyphs.iter().any(|g| g.ch == ch && g.invert == invert))
    };
    assert!(find(0, 0x20, false));
    assert!(find(FP_ONE, 0x20, true));
    assert!(find(3 * FP_ONE / 4, 0x41, false));
    assert!(find(FP_ONE / 4, 0x41, true));
}

#[test]
fn equal_coverage_glyphs_merge() {
    // Two glyphs with identical ink counts share one table entry.
    let ink = vec![
        true, false, true, false,
        false, false, false, false,
    ];
    let glyphs: Vec<u16> = vec![0x2E, 0x27];
    let table = calibrate(&ink, 4, 2, 2, 2, 2, &glyphs).unwrap();
    let quarter = table
        .entries
        .iter()
        .find(|e| e.cov == FP_ONE / 4)
        .expect("both glyphs cover one quarter");
    assert_eq!(quarter.glyphs.len(), 2);
}

#[test]
fn each_glyph_appears_exactly_twice() {
    // Every input glyph contributes one normal and one inverted occurrence:
    // the entry glyph lists sum to exactly twice the glyph count.
    let (ink, w, h) = two_glyph_bitmap();
    let glyphs: Vec<u16> = vec![0x20, 0x41];
    let table = calibrate(&ink, w, h, 2, 2, 2, &glyphs).unwrap();
    let total: usize = table.entries.iter().map(|e| e.glyphs.len()).sum();
    assert_eq!(total, 2 * glyphs.len());
}

#[test]
fn calibrate_rejects_zero_cell() {
    let (ink, w, h) = two_glyph_bitmap();
    let glyphs: Vec<u16> = vec![0x20];
    assert_eq!(
        calibrate(&ink, w, h, 2, 0, 2, &glyphs).err(),
        Some(RenderError::InvalidDimensions)
    );
}

#[test]
fn calibrate_rejects_out_of_bounds_layout() {
    let (ink, w, h) = two_glyph_bitmap();
    // Three glyphs do not fit two columns of 2x2 cells in a 4x2 bitmap.
    let glyphs: Vec<u16> = vec![0x20, 0x41, 0x42];
    assert_eq!(
        calibrate(&ink, w, h, 2, 2, 2, &glyphs).err(),
        Some(RenderError::InvalidDimensions)
    );
}

#[test]
fn calibrate_rejects_empty_glyph_set() {
    let (ink, w, h) = two_glyph_bitmap();
    let glyphs: Vec<u16> = vec![];
    assert_eq!(
        calibrate(&ink, w, h, 2, 2, 2, &glyphs).err(),
        Some(RenderError::ConfigurationError)
    );
}
