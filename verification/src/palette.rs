//! Palettes: the finite sets of display colors available to cells.
//!
//! A palette is an ordered sequence of linear-light pixels with dense
//! indices.  Fixed palettes are built here from hard-coded device colors
//! decoded through the gamma table; computed palettes come from median-cut
//! quantization in the quantizer module.

use vstd::prelude::*;

use crate::gamma::Table;
use crate::pixel::{FP_ONE, Pixel, in_unit};

verus! {

/// A render mode: selects the palette and the matching strategy.
#[derive(Clone, Copy, Debug, PartialEq, Eq, Structural)]
pub enum Mode {
    Color,
    Grayscale,
    Monochrome,
}

/// A well-formed palette: at least one entry, at most 256 (indices fit in a
/// byte), every entry a displayable linear-light color.
pub open spec fn palette_wf(s: Seq<Pixel>) -> bool {
    &&& 1 <= s.len() <= 256
    &&& forall|i: int| 0 <= i < s.len() ==> in_unit(#[trigger] s[i])
}

/// The device byte triples of each mode's fixed 16-entry palette.
pub open spec fn mode_bytes_spec(m: Mode) -> Seq<(u8, u8, u8)> {
    match m {
        Mode::Color => seq![
            (0x00u8, 0x00u8, 0x00u8),
            (0x00u8, 0x00u8, 0x80u8),
            (0x00u8, 0x80u8, 0x00u8),
            (0x00u8, 0x80u8, 0x80u8),
            (0x80u8, 0x00u8, 0x00u8),
            (0x80u8, 0x00u8, 0x80u8),
            (0x80u8, 0x80u8, 0x00u8),
            (0xC0u8, 0xC0u8, 0xC0u8),
            (0x80u8, 0x80u8, 0x80u8),
            (0x00u8, 0x00u8, 0xFFu8),
            (0x00u8, 0xFFu8, 0x00u8),
            (0x00u8, 0xFFu8, 0xFFu8),
            (0xFFu8, 0x00u8, 0x00u8),
            (0xFFu8, 0x00u8, 0xFFu8),
            (0xFFu8, 0xFFu8, 0x00u8),
            (0xFFu8, 0xFFu8, 0xFFu8),
        ],
        Mode::Grayscale => seq![
            (0x00u8, 0x00u8, 0x00u8),
            (0x11u8, 0x11u8, 0x11u8),
            (0x22u8, 0x22u8, 0x22u8),
            (0x33u8, 0x33u8, 0x33u8),
            (0x44u8, 0x44u8, 0x44u8),
            (0x55u8, 0x55u8, 0x55u8),
            (0x66u8, 0x66u8, 0x66u8),
            (0x77u8, 0x77u8, 0x77u8),
            (0x88u8, 0x88u8, 0x88u8),
            (0x99u8, 0x99u8, 0x99u8),
            (0xAAu8, 0xAAu8, 0xAAu8),
            (0xBBu8, 0xBBu8, 0xBBu8),
            (0xCCu8, 0xCCu8, 0xCCu8),
            (0xDDu8, 0xDDu8, 0xDDu8),
            (0xEEu8, 0xEEu8, 0xEEu8),
            (0xFFu8, 0xFFu8, 0xFFu8),
        ],
        Mode::Monochrome => seq![
            (0xFFu8, 0xFFu8, 0xFFu8),
            (0x00u8, 0x00u8, 0x00u8),
            (0x00u8, 0x00u8, 0x00u8),
            (0x00u8, 0x00u8, 0x00u8),
            (0x00u8, 0x00u8, 0x00u8),
            (0x00u8, 0x00u8, 0x00u8),
            (0x00u8, 0x00u8, 0x00u8),
            (0x00u8, 0x00u8, 0x00u8),
            (0x00u8, 0x00u8, 0x00u8),
            (0x00u8, 0x00u8, 0x00u8),
            (0x00u8, 0x00u8, 0x00u8),
            (0x00u8, 0x00u8, 0x00u8),
            (0x00u8, 0x00u8, 0x00u8),
            (0x00u8, 0x00u8, 0x00u8),
            (0x00u8, 0x00u8, 0x00u8),
            (0x00u8, 0x00u8, 0x00u8),
        ],
    }
}

/// A byte triple packed into the device's 0x00BBGGRR color word.
pub open spec fn pack_rgb_spec(c: (u8, u8, u8)) -> u32 {
    (c.0 as u32) | ((c.1 as u32) << 8) | ((c.2 as u32) << 16)
}

impl Mode {
    /// The device byte triples of this mode's fixed palette.
    pub fn color_bytes(&self) -> (v: Vec<(u8, u8, u8)>)
        ensures
            v@ =~= mode_bytes_spec(*self),
    {
        let mut v: Vec<(u8, u8, u8)> = Vec::new();
        match *self {
            Mode::Color => {
                v.push((0x00, 0x00, 0x00));
                v.push((0x00, 0x00, 0x80));
                v.push((0x00, 0x80, 0x00));
                v.push((0x00, 0x80, 0x80));
                v.push((0x80, 0x00, 0x00));
                v.push((0x80, 0x00, 0x80));
                v.push((0x80, 0x80, 0x00));
                v.push((0xC0, 0xC0, 0xC0));
                v.push((0x80, 0x80, 0x80));
                v.push((0x00, 0x00, 0xFF));
                v.push((0x00, 0xFF, 0x00));
                v.push((0x00, 0xFF, 0xFF));
                v.push((0xFF, 0x00, 0x00));
                v.push((0xFF, 0x00, 0xFF));
                v.push((0xFF, 0xFF, 0x00));
                v.push((0xFF, 0xFF, 0xFF));
            },
            Mode::Grayscale => {
                let mut i: usize = 0;
                while i < 16
                    invariant
                        0 <= i <= 16,
                        v@.len() == i,
                        forall|k: int|
                            0 <= k < i ==> #[trigger] v@[k] == (
                            (k * 0x11) as u8,
                            (k * 0x11) as u8,
                            (k * 0x11) as u8,
                            ),
                    decreases 16 - i,
                {
                    let x = (i as u8) * 0x11;
                    v.push((x, x, x));
                    i = i + 1;
                }
            },
            Mode::Monochrome => {
                v.push((0xFF, 0xFF, 0xFF));
                let mut i: usize = 1;
                while i < 16
                    invariant
                        1 <= i <= 16,
                        v@.len() == i,
                        v@[0] == (0xFFu8, 0xFFu8, 0xFFu8),
                        forall|k: int| 1 <= k < i ==> #[trigger] v@[k] == (0u8, 0u8, 0u8),
                    decreases 16 - i,
                {
                    v.push((0x00, 0x00, 0x00));
                    i = i + 1;
                }
            },
        }
        v
    }

    /// The mode's palette as packed device color words, in the layout the
    /// console layer consumes.
    pub fn color_table(&self) -> (t: Vec<u32>)
        ensures
            t@.len() == 16,
            forall|i: int|
                0 <= i < 16 ==> #[trigger] t@[i] == pack_rgb_spec(mode_bytes_spec(*self)[i]),
    {
        let bytes = self.color_bytes();
        let mut t: Vec<u32> = Vec::new();
        let mut i: usize = 0;
        while i < 16
            invariant
                bytes@ =~= mode_bytes_spec(*self),
                bytes@.len() == 16,
                0 <= i <= 16,
                t@.len() == i,
                forall|k: int|
                    0 <= k < i ==> #[trigger] t@[k] == pack_rgb_spec(mode_bytes_spec(*self)[k]),
            decreases 16 - i,
        {
            let (r, g, b) = bytes[i];
            t.push((r as u32) | ((g as u32) << 8) | ((b as u32) << 16));
            i = i + 1;
        }
        t
    }

    /// The mode's palette decoded to linear light.
    pub fn palette(&self, table: &Table) -> (p: Vec<Pixel>)
        requires
            table.wf(),
        ensures
            p@.len() == 16,
            forall|i: int|
                0 <= i < 16 ==> #[trigger] p@[i] == decoded_triple(
                    *table,
                    mode_bytes_spec(*self)[i],
                ),
            palette_wf(p@),
    {
        let bytes = self.color_bytes();
        decode_palette(&bytes, table)
    }
}

/// The linear-light pixel of one device byte triple.
pub open spec fn decoded_triple(t: Table, c: (u8, u8, u8)) -> Pixel {
    Pixel { r: t.decode_spec(c.0), g: t.decode_spec(c.1), b: t.decode_spec(c.2) }
}

/// Decodes a list of device byte triples into a linear-light palette.
pub fn decode_palette(bytes: &Vec<(u8, u8, u8)>, table: &Table) -> (p: Vec<Pixel>)
    requires
        table.wf(),
        1 <= bytes@.len() <= 256,
    ensures
        p@.len() == bytes@.len(),
        forall|i: int|
            0 <= i < bytes@.len() ==> #[trigger] p@[i] == decoded_triple(*table, bytes@[i]),
        palette_wf(p@),
{
    let mut p: Vec<Pixel> = Vec::new();
    let mut i: usize = 0;
    while i < bytes.len()
        invariant
            table.wf(),
            1 <= bytes@.len() <= 256,
            0 <= i <= bytes@.len(),
            p@.len() == i,
            forall|k: int|
                0 <= k < i ==> #[trigger] p@[k] == decoded_triple(*table, bytes@[k]),
            forall|k: int| 0 <= k < i ==> in_unit(#[trigger] p@[k]),
        decreases bytes@.len() - i,
    {
        let (r, g, b) = bytes[i];
        p.push(table.decode_px(r, g, b));
        i = i + 1;
    }
    p
}

/// The 16 standard terminal colors (ANSI order) decoded to linear light.
pub fn terminal_colors(table: &Table) -> (p: Vec<Pixel>)
    requires
        table.wf(),
    ensures
        p@.len() == 16,
        palette_wf(p@),
        forall|i: int|
            0 <= i < 16 ==> #[trigger] p@[i] == decoded_triple(*table, ansi_bytes_spec()[i]),
{
    let mut v: Vec<(u8, u8, u8)> = Vec::new();
    v.push((0x00, 0x00, 0x00));
    v.push((0x80, 0x00, 0x00));
    v.push((0x00, 0x80, 0x00));
    v.push((0x80, 0x80, 0x00));
    v.push((0x00, 0x00, 0x80));
    v.push((0x80, 0x00, 0x80));
    v.push((0x00, 0x80, 0x80));
    v.push((0xC0, 0xC0, 0xC0));
    v.push((0x80, 0x80, 0x80));
    v.push((0xFF, 0x00, 0x00));
    v.push((0x00, 0xFF, 0x00));
    v.push((0xFF, 0xFF, 0x00));
    v.push((0x00, 0x00, 0xFF));
    v.push((0xFF, 0x00, 0xFF));
    v.push((0x00, 0xFF, 0xFF));
    v.push((0xFF, 0xFF, 0xFF));
    proof {
        assert(v@ =~= ansi_bytes_spec());
    }
    decode_palette(&v, table)
}

/// Encodes a linear-light color back to a packed 0x00BBGGRR device word:
/// each channel goes through the inverse gamma search, then the bytes are
/// packed.  This is the device-specific form of a computed palette entry.
pub fn encode_device(table: &Table, p: Pixel) -> (w: u32)
    requires
        table.wf(),
        in_unit(p),
    ensures
        w == pack_rgb_spec(
            (
                table.encode_spec(p.r) as u8,
                table.encode_spec(p.g) as u8,
                table.encode_spec(p.b) as u8,
            ),
        ),
{
    let r = table.encode(p.r);
    let g = table.encode(p.g);
    let b = table.encode(p.b);
    proof {
        crate::gamma::lemma_best_near_props(table.vals_seq(), p.r as int, 256);
        crate::gamma::lemma_best_near_props(table.vals_seq(), p.g as int, 256);
        crate::gamma::lemma_best_near_props(table.vals_seq(), p.b as int, 256);
    }
    (r as u32) | ((g as u32) << 8) | ((b as u32) << 16)
}

/// The device byte triples of the 16 standard terminal colors, ANSI order.
pub open spec fn ansi_bytes_spec() -> Seq<(u8, u8, u8)> {
    seq![
        (0x00u8, 0x00u8, 0x00u8),
        (0x80u8, 0x00u8, 0x00u8),
        (0x00u8, 0x80u8, 0x00u8),
        (0x80u8, 0x80u8, 0x00u8),
        (0x00u8, 0x00u8, 0x80u8),
        (0x80u8, 0x00u8, 0x80u8),
        (0x00u8, 0x80u8, 0x80u8),
        (0xC0u8, 0xC0u8, 0xC0u8),
        (0x80u8, 0x80u8, 0x80u8),
        (0xFFu8, 0x00u8, 0x00u8),
        (0x00u8, 0xFFu8, 0x00u8),
        (0xFFu8, 0xFFu8, 0x00u8),
        (0x00u8, 0x00u8, 0xFFu8),
        (0xFFu8, 0x00u8, 0xFFu8),
        (0x00u8, 0xFFu8, 0xFFu8),
        (0xFFu8, 0xFFu8, 0xFFu8),
    ]
}

} // verus!
