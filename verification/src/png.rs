//! Images as a PNG file holds them, and the bytes of their pixels and palettes.
//!
//! A PNG file holds 32-bit colour or 8-bit palette indices. Its pixels are stored
//! as the bytes red, green, blue and alpha, in this order; an image here holds a
//! colour as one number with blue lowest.

use crate::raster::{Raster, RasterView};
use vstd::prelude::*;

verus! {

/// The frames of an image: one for each mip level, largest first.
#[derive(Debug, Clone, PartialEq, Eq)]
pub enum Png {
    Argb32(Vec<Raster<u32>>),
    Indexed(Vec<u32>, Vec<Raster<u8>>),
}

/// The frames of an image, as plain values.
pub enum PngView {
    Argb32(Seq<RasterView<u32>>),
    Indexed(Seq<u32>, Seq<RasterView<u8>>),
}

/// The contents of each raster.
pub open spec fn views<T>(frames: Seq<Raster<T>>) -> Seq<RasterView<T>> {
    Seq::new(frames.len(), |i: int| frames[i]@)
}

impl View for Png {
    type V = PngView;

    open spec fn view(&self) -> PngView {
        match self {
            Png::Argb32(d) => PngView::Argb32(views(d@)),
            Png::Indexed(pal, d) => PngView::Indexed(pal@, views(d@)),
        }
    }
}

impl PngView {
    /// The number of frames.
    pub open spec fn frames(self) -> nat {
        match self {
            PngView::Argb32(d) => d.len(),
            PngView::Indexed(_, d) => d.len(),
        }
    }

    /// The width of the first frame.
    pub open spec fn width(self) -> nat {
        match self {
            PngView::Argb32(d) => d[0].width,
            PngView::Indexed(_, d) => d[0].width,
        }
    }

    /// The height of the first frame.
    pub open spec fn height(self) -> nat {
        match self {
            PngView::Argb32(d) => d[0].height,
            PngView::Indexed(_, d) => d[0].height,
        }
    }
}

impl Png {
    /// The width of the first frame.
    pub fn width(&self) -> (w: usize)
        requires
            self@.frames() > 0,
        ensures
            w == self@.width(),
    {
        match self {
            Png::Argb32(d) => d[0].width(),
            Png::Indexed(_, d) => d[0].width(),
        }
    }

    /// The height of the first frame.
    pub fn height(&self) -> (h: usize)
        requires
            self@.frames() > 0,
        ensures
            h == self@.height(),
    {
        match self {
            Png::Argb32(d) => d[0].height(),
            Png::Indexed(_, d) => d[0].height(),
        }
    }
}

/// Byte `k` of a colour, lowest first: blue, green, red, alpha.
pub open spec fn channel(c: u32, k: int) -> u8 {
    if k == 0 {
        (c % 0x100) as u8
    } else if k == 1 {
        ((c / 0x100) % 0x100) as u8
    } else if k == 2 {
        ((c / 0x1_0000) % 0x100) as u8
    } else {
        (c / 0x100_0000) as u8
    }
}

/// The colour of four bytes.
pub open spec fn argb(b: u8, g: u8, r: u8, a: u8) -> u32 {
    (b + g * 0x100 + r * 0x1_0000 + a * 0x100_0000) as u32
}

/// The bytes of colours as a PNG file stores them: red, green, blue, alpha.
pub open spec fn spec_rgba_bytes(colors: Seq<u32>) -> Seq<u8> {
    Seq::new(
        4 * colors.len(),
        |j: int|
            if j % 4 == 0 {
                channel(colors[j / 4], 2)
            } else if j % 4 == 1 {
                channel(colors[j / 4], 1)
            } else if j % 4 == 2 {
                channel(colors[j / 4], 0)
            } else {
                channel(colors[j / 4], 3)
            },
    )
}

/// The bytes of the pixels of a frame of 32-bit colour.
pub fn rgba_bytes(colors: &[u32]) -> (out: Vec<u8>)
    ensures
        out@ == spec_rgba_bytes(colors@),
{
    let n: usize = colors.len();
    let mut out: Vec<u8> = Vec::new();
    let mut i: usize = 0;
    while i < n
        invariant
            i <= n,
            n == colors@.len(),
            out@.len() == 4 * i,
            forall|j: int| 0 <= j < 4 * i ==> #[trigger] out@[j] == spec_rgba_bytes(colors@)[j],
        decreases n - i,
    {
        let c: u32 = colors[i];
        out.push(((c / 0x1_0000) % 0x100) as u8);
        out.push(((c / 0x100) % 0x100) as u8);
        out.push((c % 0x100) as u8);
        out.push((c / 0x100_0000) as u8);
        i += 1;
    }
    assert(out@ =~= spec_rgba_bytes(colors@));
    out
}

/// The colours of a palette as a PNG file stores them: three bytes for each, red,
/// green, blue.
pub open spec fn spec_palette_rgb(palette: Seq<u32>) -> Seq<u8> {
    Seq::new(
        3 * palette.len(),
        |j: int|
            if j % 3 == 0 {
                channel(palette[j / 3], 2)
            } else if j % 3 == 1 {
                channel(palette[j / 3], 1)
            } else {
                channel(palette[j / 3], 0)
            },
    )
}

/// The alphas of a palette, one byte for each colour.
pub open spec fn spec_palette_alpha(palette: Seq<u32>) -> Seq<u8> {
    Seq::new(palette.len(), |i: int| channel(palette[i], 3))
}

/// The colours and the alphas of a palette as a PNG file stores them.
pub fn palette_chunks(palette: &[u32]) -> (r: (Vec<u8>, Vec<u8>))
    ensures
        r.0@ == spec_palette_rgb(palette@),
        r.1@ == spec_palette_alpha(palette@),
{
    let n: usize = palette.len();
    let mut pal: Vec<u8> = Vec::new();
    let mut alp: Vec<u8> = Vec::new();
    let mut i: usize = 0;
    while i < n
        invariant
            i <= n,
            n == palette@.len(),
            pal@.len() == 3 * i,
            alp@.len() == i,
            forall|j: int| 0 <= j < 3 * i ==> #[trigger] pal@[j] == spec_palette_rgb(palette@)[j],
            forall|j: int| 0 <= j < i ==> #[trigger] alp@[j] == spec_palette_alpha(palette@)[j],
        decreases n - i,
    {
        let c: u32 = palette[i];
        pal.push(((c / 0x1_0000) % 0x100) as u8);
        pal.push(((c / 0x100) % 0x100) as u8);
        pal.push((c % 0x100) as u8);
        alp.push((c / 0x100_0000) as u8);
        i += 1;
    }
    assert(pal@ =~= spec_palette_rgb(palette@));
    assert(alp@ =~= spec_palette_alpha(palette@));
    (pal, alp)
}

/// The palette that a PNG file stores as colours of three bytes and, for the first
/// of them, alphas. A colour without an alpha is opaque.
pub open spec fn spec_palette_from(rgb: Seq<u8>, alpha: Seq<u8>) -> Seq<u32> {
    Seq::new(
        rgb.len() / 3,
        |i: int|
            argb(
                rgb[3 * i + 2],
                rgb[3 * i + 1],
                rgb[3 * i],
                if i < alpha.len() {
                    alpha[i]
                } else {
                    0xFFu8
                },
            ),
    )
}

/// Packs four channels into one colour, blue lowest.
pub fn to_argb(b: u8, g: u8, r: u8, a: u8) -> (c: u32)
    ensures
        c == argb(b, g, r, a),
{
    b as u32 + g as u32 * 0x100 + r as u32 * 0x1_0000 + a as u32 * 0x100_0000
}

/// The palette of a PNG file.
pub fn palette_from(rgb: &[u8], alpha: &[u8]) -> (pal: Vec<u32>)
    ensures
        pal@ == spec_palette_from(rgb@, alpha@),
{
    let len: usize = rgb.len();
    let n: usize = len / 3;
    let mut pal: Vec<u32> = Vec::with_capacity(n);
    let mut i: usize = 0;
    while i < n
        invariant
            i <= n,
            len == rgb@.len(),
            n == rgb@.len() / 3,
            pal@.len() == i,
            forall|j: int| 0 <= j < i ==> #[trigger] pal@[j] == spec_palette_from(rgb@, alpha@)[j],
        decreases n - i,
    {
        let a: u8 = if i < alpha.len() { alpha[i] } else { 0xFF };
        pal.push(to_argb(rgb[3 * i + 2], rgb[3 * i + 1], rgb[3 * i], a));
        i += 1;
    }
    assert(pal@ =~= spec_palette_from(rgb@, alpha@));
    pal
}

/// How the pixels of a PNG file of 32-bit colour or of grey are stored.
#[derive(Debug, Clone, Copy, PartialEq, Eq, Structural)]
pub enum Samples {
    Grayscale,
    GrayscaleAlpha,
    Rgb,
    Rgba,
}

impl Samples {
    /// The number of bytes of a pixel.
    pub open spec fn size(self) -> nat {
        match self {
            Samples::Grayscale => 1,
            Samples::GrayscaleAlpha => 2,
            Samples::Rgb => 3,
            Samples::Rgba => 4,
        }
    }

    /// The number of bytes of a pixel.
    pub fn bytes_per(self) -> (n: usize)
        ensures
            n == self.size(),
    {
        match self {
            Samples::Grayscale => 1,
            Samples::GrayscaleAlpha => 2,
            Samples::Rgb => 3,
            Samples::Rgba => 4,
        }
    }
}

/// The colour of the pixel whose bytes start at `at`. Grey is a colour of three
/// equal parts, and a pixel without alpha is opaque.
pub open spec fn sample_at(bytes: Seq<u8>, at: int, samples: Samples) -> u32 {
    match samples {
        Samples::Grayscale => argb(bytes[at], bytes[at], bytes[at], 0xFF),
        Samples::GrayscaleAlpha => argb(bytes[at], bytes[at], bytes[at], bytes[at + 1]),
        Samples::Rgb => argb(bytes[at + 2], bytes[at + 1], bytes[at], 0xFF),
        Samples::Rgba => argb(bytes[at + 2], bytes[at + 1], bytes[at], bytes[at + 3]),
    }
}

/// The colours of the whole pixels of `bytes`.
pub open spec fn spec_colors_from(bytes: Seq<u8>, samples: Samples) -> Seq<u32> {
    Seq::new(bytes.len() / samples.size(), |i: int| sample_at(bytes, i * samples.size(), samples))
}

/// The colours of the pixels of a frame of a PNG file.
pub fn colors_from(bytes: &[u8], samples: Samples) -> (colors: Vec<u32>)
    ensures
        colors@ == spec_colors_from(bytes@, samples),
{
    let size: usize = samples.bytes_per();
    let len: usize = bytes.len();
    let n: usize = len / size;
    let mut colors: Vec<u32> = Vec::with_capacity(n);
    let mut i: usize = 0;
    while i < n
        invariant
            i <= n,
            len == bytes@.len(),
            size == samples.size(),
            n == len / size,
            colors@.len() == i,
            forall|j: int| 0 <= j < i ==> #[trigger] colors@[j] == spec_colors_from(bytes@, samples)[j],
        decreases n - i,
    {
        proof {
            vstd::arithmetic::div_mod::lemma_fundamental_div_mod(len as int, size as int);
            assert(i * size + size <= n * size) by (nonlinear_arith)
                requires
                    i + 1 <= n,
                    size >= 0,
            ;
            assert(size * n == n * size) by (nonlinear_arith);
        }
        let at: usize = i * size;
        let c: u32 = match samples {
            Samples::Grayscale => to_argb(bytes[at], bytes[at], bytes[at], 0xFF),
            Samples::GrayscaleAlpha => to_argb(bytes[at], bytes[at], bytes[at], bytes[at + 1]),
            Samples::Rgb => to_argb(bytes[at + 2], bytes[at + 1], bytes[at], 0xFF),
            Samples::Rgba => to_argb(bytes[at + 2], bytes[at + 1], bytes[at], bytes[at + 3]),
        };
        colors.push(c);
        i += 1;
    }
    assert(colors@ =~= spec_colors_from(bytes@, samples));
    colors
}

} // verus!
