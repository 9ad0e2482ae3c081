//! End-to-end tests of the matching and diffusion pipeline.

use termpix::RenderError;
use termpix::coverage::{CoverageEntry, CoverageTable, Glyph};
use termpix::gamma::Table;
use termpix::image::Image;
use termpix::matcher::{attr_of, match_cell};
use termpix::palette::{Mode, terminal_colors};
use termpix::pixel::{FP_ONE, Pixel};
use termpix::render::{MatchKind, TieBreak, convert, render, shares_chan};

/// A coverage table holding only the blank glyph (coverage zero).
fn blank_table() -> CoverageTable {
    CoverageTable {
        entries: vec![CoverageEntry {
            cov: 0,
            glyphs: vec![Glyph { ch: 0x20, invert: false }],
        }],
    }
}

/// A coverage table with a blank and a full block glyph.
fn blank_and_block_table() -> CoverageTable {
    CoverageTable {
        entries: vec![
            CoverageEntry { cov: 0, glyphs: vec![Glyph { ch: 0x20, invert: false }] },
            CoverageEntry { cov: FP_ONE, glyphs: vec![Glyph { ch: 0x2588, invert: false }] },
        ],
    }
}

#[test]
fn two_pixel_scenario_red_blue() {
    // 2x1 input, left pure red, right pure blue, 16-color ANSI palette,
    // 1x1 cells, blank glyph available: both pixels match palette entries
    // exactly, so fg == bg == the entry and no residual deviates anything.
    let t = Table::generate();
    let pal = terminal_colors(&t);
    let src = vec![(255u8, 0u8, 0u8), (0u8, 0u8, 255u8)];
    let img = Image::from_srgb(&src, 2, 1, &t);
    let grid = render(&img, &pal, &blank_table(), MatchKind::Blend, TieBreak::Deterministic)
        .unwrap();
    assert_eq!(grid.width, 2);
    assert_eq!(grid.height, 1);
    assert_eq!(grid.cells.len(), 2);
    // ANSI order: index 9 is pure red, index 12 pure blue.
    assert_eq!(grid.cells[0].fg, 9);
    assert_eq!(grid.cells[0].bg, 9);
    assert_eq!(grid.cells[0].ch, 0x20);
    assert!(!grid.cells[0].invert);
    assert_eq!(grid.cells[1].fg, 12);
    assert_eq!(grid.cells[1].bg, 12);
    assert_eq!(grid.cells[1].ch, 0x20);
}

#[test]
fn uniform_image_matches_entry_exactly() {
    // A uniform image whose color is exactly palette entry 4: every cell is
    // fg == bg == 4 with the minimum-coverage (blank) glyph.
    let t = Table::generate();
    let pal = terminal_colors(&t);
    let src = vec![(0x80u8, 0u8, 0u8); 6];
    let img = Image::from_srgb(&src, 3, 2, &t);
    let grid = render(
        &img,
        &pal,
        &blank_and_block_table(),
        MatchKind::Blend,
        TieBreak::Deterministic,
    )
    .unwrap();
    for c in &grid.cells {
        assert_eq!(c.fg, 1); // ANSI order: entry 1 is (0x80, 0, 0)
        assert_eq!(c.bg, 1);
        assert_eq!(c.ch, 0x20);
        assert!(!c.invert);
    }
}

#[test]
fn deterministic_pipeline_is_reproducible() {
    // Identical input and configuration, deterministic tie-break: two runs
    // give a byte-identical grid.
    let t = Table::generate();
    let src: Vec<(u8, u8, u8)> = vec![
        (10, 200, 30),
        (250, 40, 90),
        (17, 17, 200),
        (90, 90, 90),
        (0, 255, 128),
        (66, 133, 244),
    ];
    let img1 = Image::from_srgb(&src, 3, 2, &t);
    let img2 = Image::from_srgb(&src, 3, 2, &t);
    let table1 = blank_and_block_table();
    let table2 = blank_and_block_table();
    let g1 = convert(&img1, Mode::Color, &table1, &t, TieBreak::Deterministic).unwrap();
    let g2 = convert(&img2, Mode::Color, &table2, &t, TieBreak::Deterministic).unwrap();
    assert_eq!(g1.width, g2.width);
    assert_eq!(g1.height, g2.height);
    assert_eq!(g1.cells, g2.cells);
}

#[test]
fn kernel_shares_sum_to_residual() {
    // The four Floyd-Steinberg shares (7/16, 3/16, 5/16, 1/16) sum exactly
    // to the residual they split, positive or negative.
    for e in [-65536i64, -12345, -1, 0, 1, 7, 16, 100, 65535, 65536] {
        let (a, b, c, d) = shares_chan(e);
        assert_eq!(a + b + c + d, e, "shares lost residual at {}", e);
    }
    // And the weights themselves: 7 + 3 + 5 + 1 == 16.
    assert_eq!(7 + 3 + 5 + 1, 16);
    let (a, b, c, d) = shares_chan(16000);
    assert_eq!(a, 7000);
    assert_eq!(b, 3000);
    assert_eq!(c, 5000);
    assert_eq!(d, 1000);
}

#[test]
fn diffusion_spreads_residual_forward() {
    // A 2x1 monochrome-ish case: first pixel a dark gray that matches
    // black imperfectly; the residual pushed right must brighten the
    // second pixel's match.  With palette {black, white} and only the
    // blank glyph, the blend always equals the background, so the cell
    // choice tracks the (residual-adjusted) pixel.
    let pal = vec![Pixel::new(0, 0, 0), Pixel::new(FP_ONE, FP_ONE, FP_ONE)];
    // 0.4 of full intensity: alone it is nearer black; with its own
    // residual plus the first pixel's, the second lands nearer white.
    let v = 4 * FP_ONE / 10;
    let img = Image { width: 2, height: 1, pixels: vec![Pixel::new(v, v, v); 2] };
    let grid = render(&img, &pal, &blank_table(), MatchKind::Blend, TieBreak::Deterministic)
        .unwrap();
    assert_eq!(grid.cells[0].bg, 0, "first pixel matches black");
    assert_eq!(grid.cells[1].bg, 1, "diffused residual pushes second to white");
}

#[test]
fn monochrome_picks_nearest_coverage() {
    let t = Table::generate();
    // Mid gray: luminance 0.216 of full, nearer coverage 0 than 1.
    let src = vec![(128u8, 128u8, 128u8); 2];
    let img = Image::from_srgb(&src, 2, 1, &t);
    let grid = convert(&img, Mode::Monochrome, &blank_and_block_table(), &t,
        TieBreak::Deterministic)
        .unwrap();
    assert_eq!(grid.cells[0].fg, 0);
    assert_eq!(grid.cells[0].bg, 2);
    assert_eq!(grid.cells[0].ch, 0x20);
}

#[test]
fn grayscale_matches_gray_ramp() {
    let t = Table::generate();
    // Uniform 0x55 gray: exactly grayscale palette entry 5.
    let src = vec![(0x55u8, 0x55u8, 0x55u8); 4];
    let img = Image::from_srgb(&src, 2, 2, &t);
    let grid = convert(&img, Mode::Grayscale, &blank_and_block_table(), &t,
        TieBreak::Deterministic)
        .unwrap();
    for c in &grid.cells {
        assert_eq!(c.fg, 5);
        assert_eq!(c.bg, 5);
        assert_eq!(c.ch, 0x20);
    }
}

#[test]
fn random_tie_break_stays_in_entry() {
    // Two interchangeable glyphs under one coverage key: the random
    // tie-break must return one of them (an out-of-range pick would
    // panic or produce a foreign glyph).
    let t = Table::generate();
    let table = CoverageTable {
        entries: vec![CoverageEntry {
            cov: 0,
            glyphs: vec![
                Glyph { ch: 0x20, invert: false },
                Glyph { ch: 0xA0, invert: false },
            ],
        }],
    };
    let pal = terminal_colors(&t);
    let src = vec![(0x80u8, 0u8, 0u8); 4];
    let img = Image::from_srgb(&src, 2, 2, &t);
    for _ in 0..8 {
        let grid = render(&img, &pal, &table, MatchKind::Blend, TieBreak::Random).unwrap();
        for c in &grid.cells {
            assert!(c.ch == 0x20 || c.ch == 0xA0);
            assert_eq!(c.fg, 1);
            assert_eq!(c.bg, 1);
        }
    }
}

#[test]
fn residual_never_wraps_at_row_edges() {
    // A one-pixel-wide image: the 7/16 right share and both corner shares
    // aim outside the grid and must be absorbed by the sentinels, so the
    // pixel below receives only the 5/16 share.  (A flat buffer without a
    // sentinel column would wrap 12/16 of the residual onto it instead and
    // push it over to white.)
    let pal = vec![Pixel::new(0, 0, 0), Pixel::new(FP_ONE, FP_ONE, FP_ONE)];
    let v = 22937; // 0.35 of full intensity
    let img = Image { width: 1, height: 2, pixels: vec![Pixel::new(v, v, v); 2] };
    let grid = render(&img, &pal, &blank_table(), MatchKind::Blend, TieBreak::Deterministic)
        .unwrap();
    assert_eq!(grid.cells[0].bg, 0, "first pixel matches black");
    // 0.35 + 5/16 * 0.35 = 0.459 < 0.5: still black.
    assert_eq!(grid.cells[1].bg, 0, "only the 5/16 share reaches the pixel below");
}

#[test]
fn render_rejects_zero_image() {
    let t = Table::generate();
    let pal = terminal_colors(&t);
    let img = Image { width: 0, height: 0, pixels: vec![] };
    assert!(matches!(
        render(&img, &pal, &blank_table(), MatchKind::Blend, TieBreak::Deterministic),
        Err(RenderError::InvalidDimensions)
    ));
}

#[test]
fn render_rejects_empty_table() {
    let t = Table::generate();
    let pal = terminal_colors(&t);
    let img = Image { width: 1, height: 1, pixels: vec![Pixel::black()] };
    let empty = CoverageTable { entries: vec![] };
    assert!(matches!(
        render(&img, &pal, &empty, MatchKind::Blend, TieBreak::Deterministic),
        Err(RenderError::ConfigurationError)
    ));
}

#[test]
fn match_cell_finds_exact_pair() {
    let t = Table::generate();
    let pal = terminal_colors(&t);
    let target = pal[12]; // pure blue
    let m = match_cell(target, &pal, &blank_table());
    assert_eq!(m.fg, 12);
    assert_eq!(m.bg, 12);
    assert_eq!(m.entry, 0);
    assert_eq!(m.combined, target);
}

#[test]
fn attr_packs_nibbles() {
    assert_eq!(attr_of(9, 0, false), 0x09);
    assert_eq!(attr_of(9, 0, true), 0x90);
    assert_eq!(attr_of(3, 5, false), 0x53);
    assert_eq!(attr_of(3, 5, true), 0x35);
}

#[test]
fn color_table_packs_device_words() {
    let ct = Mode::Color.color_table();
    assert_eq!(ct.len(), 16);
    assert_eq!(ct[0], 0x000000);
    assert_eq!(ct[1], 0x800000); // (0, 0, 0x80): blue byte in the high bits
    assert_eq!(ct[12], 0x0000FF); // (0xFF, 0, 0): red byte in the low bits
    assert_eq!(ct[15], 0xFFFFFF);
    let gs = Mode::Grayscale.color_table();
    assert_eq!(gs[1], 0x111111);
    assert_eq!(gs[15], 0xFFFFFF);
    let mono = Mode::Monochrome.color_table();
    assert_eq!(mono[0], 0xFFFFFF);
    assert_eq!(mono[1], 0x000000);
}
