//! ITP images as PNG images, and back.

use crate::dxt::s3tc::{bc1, bc1_pixel, bc2, bc2_pixel, bc3, bc3_pixel};
use crate::itp::{
    ImageData, ImageView, Itp, ItpRevision, ItpView, level_values, Palette, PaletteView, PixelKind, raster_values,
};
use crate::permute::{lemma_swizzle_inverse, swizzle_index, unswizzle};
use crate::png::{Png, PngView, views};
use crate::raster::{Raster, RasterView};
use vstd::prelude::*;

verus! {

/// Why an ITP image is no PNG image.
#[derive(Debug, Clone, Copy, PartialEq, Eq, Structural)]
pub enum ConvertError {
    /// The colours of an external palette are not known.
    ExternalPalette,
    /// 16-bit colour is not converted.
    Argb16,
    /// Blocks of the newest format are not decoded.
    Bc7,
    /// A pixel names a colour that the palette does not have.
    PaletteIndex,
    /// The decoded image has more pixels than can be counted.
    TooLarge,
}

/// The levels that are converted: all of them, or the first alone.
pub open spec fn kept<T>(levels: Seq<T>, keep_all: bool) -> Seq<T> {
    if levels.len() > 1 && !keep_all {
        levels.subrange(0, 1)
    } else {
        levels
    }
}

/// A level of numbers as a frame of pixels of 32 bits.
pub open spec fn as_colors(level: RasterView<nat>) -> RasterView<u32> {
    RasterView { width: level.width, height: level.height, data: Seq::new(level.data.len(), |i: int| level.data[i] as u32) }
}

/// A level of numbers as a frame of palette indices.
pub open spec fn as_indices(level: RasterView<nat>) -> RasterView<u8> {
    RasterView { width: level.width, height: level.height, data: Seq::new(level.data.len(), |i: int| level.data[i] as u8) }
}

/// Every pixel of a level names a colour of a palette of `n` colours.
pub open spec fn indices_ok(level: RasterView<nat>, n: nat) -> bool {
    forall|i: int| 0 <= i < level.data.len() ==> #[trigger] level.data[i] < n
}

/// A level of palette indices as a frame of the colours that they name.
pub open spec fn looked_up(level: RasterView<nat>, pal: Seq<u32>) -> RasterView<u32> {
    RasterView {
        width: level.width,
        height: level.height,
        data: Seq::new(level.data.len(), |i: int| pal[level.data[i] as int]),
    }
}

/// A level of palette indices as a frame of colours; an index that names no colour
/// gives no colour at all.
pub open spec fn looked_up_or_zero(level: RasterView<u8>, pal: Seq<u32>) -> RasterView<u32> {
    RasterView {
        width: level.width,
        height: level.height,
        data: Seq::new(
            level.data.len(),
            |i: int|
                if level.data[i] < pal.len() {
                    pal[level.data[i] as int]
                } else {
                    0u32
                },
        ),
    }
}

/// Pixel `i` of the block with the number `block`, in the format of `kind`.
pub open spec fn block_pixel(kind: PixelKind, block: nat, i: nat) -> u32 {
    match kind {
        PixelKind::Bc1 => bc1_pixel(block as u64, i),
        PixelKind::Bc2 => bc2_pixel(block as u128, i),
        _ => bc3_pixel(block as u128, i),
    }
}

/// A level of blocks as a frame of pixels: each block gives 4 by 4 pixels.
pub open spec fn decoded(level: RasterView<nat>, kind: PixelKind) -> RasterView<u32> {
    RasterView {
        width: 4 * level.width,
        height: 4 * level.height,
        data: Seq::new(
            16 * level.data.len(),
            |i: int|
                block_pixel(
                    kind,
                    level.data[swizzle_index(4, level.width as int, 4, i) / 16],
                    (swizzle_index(4, level.width as int, 4, i) % 16) as nat,
                ),
        ),
    }
}

/// The decoded image can be held: its pixels can be counted.
pub open spec fn decodable(level: RasterView<nat>) -> bool {
    16 * level.data.len() <= usize::MAX && 4 * level.width <= usize::MAX && 4 * level.height <= usize::MAX
}

/// The PNG image of an ITP image.
///
/// Indexed pixels stay indexed, or become the colours that they name where
/// `no_palette` is set. Blocks are decoded. All mip levels become frames where
/// `mipmap` is set, else the first alone.
pub open spec fn spec_itp_to_png(no_palette: bool, mipmap: bool, itp: ItpView) -> Result<PngView, ConvertError> {
    let levels = kept(itp.image.levels, mipmap);
    match itp.image.kind {
        PixelKind::Indexed => match itp.image.palette {
            Some(PaletteView::Embedded(pal)) => if no_palette {
                if exists|k: int| 0 <= k < levels.len() && !indices_ok(#[trigger] levels[k], pal.len()) {
                    Err(ConvertError::PaletteIndex)
                } else {
                    Ok(PngView::Argb32(Seq::new(levels.len(), |k: int| looked_up(levels[k], pal))))
                }
            } else {
                Ok(PngView::Indexed(pal, Seq::new(levels.len(), |k: int| as_indices(levels[k]))))
            },
            _ => Err(ConvertError::ExternalPalette),
        },
        PixelKind::Argb16(_) => Err(ConvertError::Argb16),
        PixelKind::Argb32 => Ok(PngView::Argb32(Seq::new(levels.len(), |k: int| as_colors(levels[k])))),
        PixelKind::Bc7 => Err(ConvertError::Bc7),
        kind => if exists|k: int| 0 <= k < levels.len() && !decodable(#[trigger] levels[k]) {
            Err(ConvertError::TooLarge)
        } else {
            Ok(PngView::Argb32(Seq::new(levels.len(), |k: int| decoded(levels[k], kind))))
        },
    }
}

/// How many levels are converted.
fn kept_len(n: usize, keep_all: bool) -> (m: usize)
    ensures
        m == (if n > 1 && !keep_all { 1 } else { n as int }),
{
    if n > 1 && !keep_all {
        1
    } else {
        n
    }
}

/// A copy of a raster.
pub fn copy_raster<T: Copy>(raster: &Raster<T>) -> (out: Raster<T>)
    ensures
        out@ == raster@,
{
    let pixels: &[T] = raster.as_slice();
    let n: usize = pixels.len();
    let mut data: Vec<T> = Vec::with_capacity(n);
    let mut i: usize = 0;
    while i < n
        invariant
            i <= n,
            n == pixels@.len(),
            data@.len() == i,
            forall|k: int| 0 <= k < i ==> #[trigger] data@[k] == pixels@[k],
        decreases n - i,
    {
        data.push(pixels[i]);
        i += 1;
    }
    assert(data@ =~= pixels@);
    Raster::new_with(raster.width(), raster.height(), data)
}

/// Copies of the levels that are converted.
pub fn copy_levels<T: Copy>(keep_all: bool, levels: &Vec<Raster<T>>) -> (out: Vec<Raster<T>>)
    ensures
        views(out@) == kept(views(levels@), keep_all),
{
    let n: usize = kept_len(levels.len(), keep_all);
    let mut out: Vec<Raster<T>> = Vec::with_capacity(n);
    let mut k: usize = 0;
    while k < n
        invariant
            k <= n,
            n <= levels@.len(),
            out@.len() == k,
            forall|j: int| 0 <= j < k ==> (#[trigger] out@[j])@ == levels@[j]@,
        decreases n - k,
    {
        out.push(copy_raster(&levels[k]));
        k += 1;
    }
    assert(views(out@) =~= kept(views(levels@), keep_all));
    out
}

/// The colours that the pixels of a raster name, or `None` where a pixel names none.
pub fn look_up(raster: &Raster<u8>, pal: &Vec<u32>) -> (r: Option<Raster<u32>>)
    ensures
        r is Some <==> indices_ok(raster_values(raster@), pal@.len()),
        r matches Some(out) ==> out@ == looked_up(raster_values(raster@), pal@),
{
    let pixels: &[u8] = raster.as_slice();
    let n: usize = pixels.len();
    let mut data: Vec<u32> = Vec::with_capacity(n);
    let mut i: usize = 0;
    while i < n
        invariant
            i <= n,
            n == pixels@.len(),
            pixels@ == raster@.data,
            data@.len() == i,
            forall|k: int| 0 <= k < i ==> (#[trigger] pixels@[k]) < pal@.len(),
            forall|k: int| 0 <= k < i ==> #[trigger] data@[k] == pal@[pixels@[k] as int],
        decreases n - i,
    {
        let at: usize = pixels[i] as usize;
        if at >= pal.len() {
            assert(raster_values(raster@).data[i as int] >= pal@.len());
            return None;
        }
        data.push(pal[at]);
        i += 1;
    }
    assert(data@ =~= looked_up(raster_values(raster@), pal@).data);
    assert forall|k: int| 0 <= k < raster_values(raster@).data.len() implies #[trigger] raster_values(
        raster@,
    ).data[k] < pal@.len() by {
        assert(pixels@[k] < pal@.len());
    }
    Some(Raster::new_with(raster.width(), raster.height(), data))
}

/// The colours that the pixels of a raster name; no colour at all for a pixel that
/// names none.
pub fn look_up_or_zero(raster: &Raster<u8>, pal: &Vec<u32>) -> (out: Raster<u32>)
    ensures
        out@ == looked_up_or_zero(raster@, pal@),
{
    let pixels: &[u8] = raster.as_slice();
    let n: usize = pixels.len();
    let mut data: Vec<u32> = Vec::with_capacity(n);
    let mut i: usize = 0;
    while i < n
        invariant
            i <= n,
            n == pixels@.len(),
            pixels@ == raster@.data,
            data@.len() == i,
            forall|k: int| 0 <= k < i ==> #[trigger] data@[k] == looked_up_or_zero(raster@, pal@).data[k],
        decreases n - i,
    {
        let at: usize = pixels[i] as usize;
        data.push(if at < pal.len() { pal[at] } else { 0 });
        i += 1;
    }
    assert(data@ =~= looked_up_or_zero(raster@, pal@).data);
    Raster::new_with(raster.width(), raster.height(), data)
}

/// Puts the pixels of decoded blocks, block after block, into row-major order.
fn place_blocks(pixels: Vec<u32>, w: usize, h: usize) -> (out: Raster<u32>)
    requires
        pixels@.len() == 16 * (w * h),
        4 * w <= usize::MAX,
        4 * h <= usize::MAX,
    ensures
        out@.width == 4 * w,
        out@.height == 4 * h,
        out@.data.len() == pixels@.len(),
        forall|i: int|
            0 <= i < pixels@.len() ==> 0 <= #[trigger] swizzle_index(4, w as int, 4, i) < pixels@.len()
                && out@.data[i] == pixels@[swizzle_index(4, w as int, 4, i)],
{
    let mut data = pixels;
    let total: usize = data.len();
    proof {
        assert((4 * w) * (4 * h) == 16 * (w * h)) by (nonlinear_arith);
    }
    unswizzle(&mut data, 4 * h, 4 * w, 4, 4);
    proof {
        assert((4 * w) / 4 == w as int);
        assert forall|i: int| 0 <= i < total implies 0 <= #[trigger] swizzle_index(4, w as int, 4, i) < total by {
            assert(h * 4 * w * 4 == 16 * (w * h)) by (nonlinear_arith);
            if w > 0 {
                lemma_swizzle_inverse(h as int, 4, w as int, 4, i);
            } else {
                assert(w * h == 0) by (nonlinear_arith)
                    requires
                        w == 0,
                ;
            }
        }
    }
    Raster::new_with(4 * w, 4 * h, data)
}

/// Whether the decoded image of a raster of blocks can be held.
fn can_decode<T>(raster: &Raster<T>) -> (b: bool)
    ensures
        b == (16 * raster@.data.len() <= usize::MAX && 4 * raster@.width <= usize::MAX && 4 * raster@.height
            <= usize::MAX),
        raster@.wf(),
{
    let n: usize = raster.as_slice().len();
    n <= usize::MAX / 16 && raster.width() <= usize::MAX / 4 && raster.height() <= usize::MAX / 4
}

/// The pixels of a raster of blocks of the first format.
pub fn decode_bc1_raster(raster: &Raster<u64>) -> (r: Option<Raster<u32>>)
    ensures
        r is Some <==> decodable(raster_values(raster@)),
        r matches Some(out) ==> out@ == decoded(raster_values(raster@), PixelKind::Bc1),
{
    if !can_decode(raster) {
        return None;
    }
    let blocks: &[u64] = raster.as_slice();
    let n: usize = blocks.len();
    let mut pixels: Vec<u32> = Vec::with_capacity(16 * n);
    let mut k: usize = 0;
    while k < n
        invariant
            k <= n,
            n == blocks@.len(),
            16 * n <= usize::MAX,
            pixels@.len() == 16 * k,
            forall|j: int| 0 <= j < 16 * k ==> #[trigger] pixels@[j] == bc1_pixel(blocks@[j / 16], (j % 16) as nat),
        decreases n - k,
    {
        let block = bc1(blocks[k]);
        let mut i: usize = 0;
        while i < 16
            invariant
                i <= 16,
                k < n,
                n == blocks@.len(),
                pixels@.len() == 16 * k + i,
                forall|j: int| 0 <= j < 16 ==> #[trigger] block@[j] == bc1_pixel(blocks@[k as int], j as nat),
                forall|j: int|
                    0 <= j < 16 * k + i ==> #[trigger] pixels@[j] == bc1_pixel(blocks@[j / 16], (j % 16) as nat),
            decreases 16 - i,
        {
            pixels.push(block[i]);
            i += 1;
        }
        k += 1;
    }
    let ghost stored = pixels@;
    let out = place_blocks(pixels, raster.width(), raster.height());
    proof {
        let level = raster_values(raster@);
        let want = decoded(level, PixelKind::Bc1);
        assert forall|i: int| 0 <= i < stored.len() implies out@.data[i] == want.data[i] by {
            let j = swizzle_index(4, raster@.width as int, 4, i);
            assert(0 <= j < stored.len());
            assert(out@.data[i] == stored[j]);
        }
        assert(out@.data =~= want.data);
    }
    Some(out)
}

/// The pixels of a raster of blocks of the second or of the third format.
pub fn decode_wide_raster(raster: &Raster<u128>, third: bool) -> (r: Option<Raster<u32>>)
    ensures
        r is Some <==> decodable(raster_values(raster@)),
        r matches Some(out) ==> out@ == decoded(
            raster_values(raster@),
            if third {
                PixelKind::Bc3
            } else {
                PixelKind::Bc2
            },
        ),
{
    let kind = if third {
        PixelKind::Bc3
    } else {
        PixelKind::Bc2
    };
    if !can_decode(raster) {
        return None;
    }
    let blocks: &[u128] = raster.as_slice();
    let n: usize = blocks.len();
    let mut pixels: Vec<u32> = Vec::with_capacity(16 * n);
    let mut k: usize = 0;
    while k < n
        invariant
            k <= n,
            n == blocks@.len(),
            16 * n <= usize::MAX,
            kind == (if third {
                PixelKind::Bc3
            } else {
                PixelKind::Bc2
            }),
            pixels@.len() == 16 * k,
            forall|j: int|
                0 <= j < 16 * k ==> #[trigger] pixels@[j] == block_pixel(kind, blocks@[j / 16] as nat, (j % 16) as nat),
        decreases n - k,
    {
        let block = if third {
            bc3(blocks[k])
        } else {
            bc2(blocks[k])
        };
        let mut i: usize = 0;
        while i < 16
            invariant
                i <= 16,
                k < n,
                n == blocks@.len(),
                kind == (if third {
                    PixelKind::Bc3
                } else {
                    PixelKind::Bc2
                }),
                pixels@.len() == 16 * k + i,
                forall|j: int|
                    0 <= j < 16 ==> #[trigger] block@[j] == block_pixel(kind, blocks@[k as int] as nat, j as nat),
                forall|j: int|
                    0 <= j < 16 * k + i ==> #[trigger] pixels@[j] == block_pixel(
                        kind,
                        blocks@[j / 16] as nat,
                        (j % 16) as nat,
                    ),
            decreases 16 - i,
        {
            pixels.push(block[i]);
            i += 1;
        }
        k += 1;
    }
    let ghost stored = pixels@;
    let out = place_blocks(pixels, raster.width(), raster.height());
    proof {
        let level = raster_values(raster@);
        let want = decoded(level, kind);
        assert forall|i: int| 0 <= i < stored.len() implies out@.data[i] == want.data[i] by {
            let j = swizzle_index(4, raster@.width as int, 4, i);
            assert(0 <= j < stored.len());
            assert(out@.data[i] == stored[j]);
        }
        assert(out@.data =~= want.data);
    }
    Some(out)
}

/// The frames of the colours that the pixels of the converted levels name.
fn look_up_levels(keep_all: bool, levels: &Vec<Raster<u8>>, pal: &Vec<u32>) -> (r: Option<Vec<Raster<u32>>>)
    ensures
        r is None <==> exists|k: int|
            0 <= k < kept(level_values(levels@), keep_all).len() && !indices_ok(
                #[trigger] kept(level_values(levels@), keep_all)[k],
                pal@.len(),
            ),
        r matches Some(out) ==> views(out@) == Seq::new(
            kept(level_values(levels@), keep_all).len(),
            |k: int| looked_up(kept(level_values(levels@), keep_all)[k], pal@),
        ),
{
    let ghost want = kept(level_values(levels@), keep_all);
    let n: usize = kept_len(levels.len(), keep_all);
    let mut out: Vec<Raster<u32>> = Vec::with_capacity(n);
    let mut k: usize = 0;
    while k < n
        invariant
            k <= n,
            n == want.len(),
            n <= levels@.len(),
            want == kept(level_values(levels@), keep_all),
            forall|j: int| 0 <= j < n ==> #[trigger] want[j] == raster_values(levels@[j]@),
            out@.len() == k,
            forall|j: int| 0 <= j < k ==> indices_ok(#[trigger] want[j], pal@.len()),
            forall|j: int| 0 <= j < k ==> (#[trigger] out@[j])@ == looked_up(want[j], pal@),
        decreases n - k,
    {
        match look_up(&levels[k], pal) {
            None => {
                assert(!indices_ok(want[k as int], pal@.len()));
                return None;
            },
            Some(frame) => {
                out.push(frame);
            },
        }
        k += 1;
    }
    assert(views(out@) =~= Seq::new(want.len(), |k: int| looked_up(want[k], pal@)));
    Some(out)
}

/// The frames of the pixels of the converted levels of blocks of the first format.
fn decode_narrow_levels(keep_all: bool, levels: &Vec<Raster<u64>>) -> (r: Option<Vec<Raster<u32>>>)
    ensures
        r is None <==> exists|k: int|
            0 <= k < kept(level_values(levels@), keep_all).len() && !decodable(
                #[trigger] kept(level_values(levels@), keep_all)[k],
            ),
        r matches Some(out) ==> views(out@) == Seq::new(
            kept(level_values(levels@), keep_all).len(),
            |k: int| decoded(kept(level_values(levels@), keep_all)[k], PixelKind::Bc1),
        ),
{
    let ghost want = kept(level_values(levels@), keep_all);
    let n: usize = kept_len(levels.len(), keep_all);
    let mut out: Vec<Raster<u32>> = Vec::with_capacity(n);
    let mut k: usize = 0;
    while k < n
        invariant
            k <= n,
            n == want.len(),
            n <= levels@.len(),
            want == kept(level_values(levels@), keep_all),
            forall|j: int| 0 <= j < n ==> #[trigger] want[j] == raster_values(levels@[j]@),
            out@.len() == k,
            forall|j: int| 0 <= j < k ==> decodable(#[trigger] want[j]),
            forall|j: int| 0 <= j < k ==> (#[trigger] out@[j])@ == decoded(want[j], PixelKind::Bc1),
        decreases n - k,
    {
        match decode_bc1_raster(&levels[k]) {
            None => {
                assert(!decodable(want[k as int]));
                return None;
            },
            Some(frame) => {
                out.push(frame);
            },
        }
        k += 1;
    }
    assert(views(out@) =~= Seq::new(want.len(), |k: int| decoded(want[k], PixelKind::Bc1)));
    Some(out)
}

/// The frames of the pixels of the converted levels of blocks of the second or of
/// the third format.
fn decode_wide_levels(keep_all: bool, levels: &Vec<Raster<u128>>, third: bool) -> (r: Option<Vec<Raster<u32>>>)
    ensures
        r is None <==> exists|k: int|
            0 <= k < kept(level_values(levels@), keep_all).len() && !decodable(
                #[trigger] kept(level_values(levels@), keep_all)[k],
            ),
        r matches Some(out) ==> views(out@) == Seq::new(
            kept(level_values(levels@), keep_all).len(),
            |k: int|
                decoded(
                    kept(level_values(levels@), keep_all)[k],
                    if third {
                        PixelKind::Bc3
                    } else {
                        PixelKind::Bc2
                    },
                ),
        ),
{
    let ghost kind = if third {
        PixelKind::Bc3
    } else {
        PixelKind::Bc2
    };
    let ghost want = kept(level_values(levels@), keep_all);
    let n: usize = kept_len(levels.len(), keep_all);
    let mut out: Vec<Raster<u32>> = Vec::with_capacity(n);
    let mut k: usize = 0;
    while k < n
        invariant
            k <= n,
            n == want.len(),
            n <= levels@.len(),
            want == kept(level_values(levels@), keep_all),
            kind == (if third {
                PixelKind::Bc3
            } else {
                PixelKind::Bc2
            }),
            forall|j: int| 0 <= j < n ==> #[trigger] want[j] == raster_values(levels@[j]@),
            out@.len() == k,
            forall|j: int| 0 <= j < k ==> decodable(#[trigger] want[j]),
            forall|j: int| 0 <= j < k ==> (#[trigger] out@[j])@ == decoded(want[j], kind),
        decreases n - k,
    {
        match decode_wide_raster(&levels[k], third) {
            None => {
                assert(!decodable(want[k as int]));
                return None;
            },
            Some(frame) => {
                out.push(frame);
            },
        }
        k += 1;
    }
    assert(views(out@) =~= Seq::new(want.len(), |k: int| decoded(want[k], kind)));
    Some(out)
}

/// The contents of copied levels are the numbers of the levels.
proof fn lemma_copied_colors(out: Seq<Raster<u32>>, levels: Seq<Raster<u32>>, keep_all: bool)
    requires
        views(out) == kept(views(levels), keep_all),
    ensures
        views(out) == Seq::new(
            kept(level_values(levels), keep_all).len(),
            |k: int| as_colors(kept(level_values(levels), keep_all)[k]),
        ),
{
    let want = Seq::new(
        kept(level_values(levels), keep_all).len(),
        |k: int| as_colors(kept(level_values(levels), keep_all)[k]),
    );
    assert(views(out).len() == want.len());
    assert forall|k: int| 0 <= k < want.len() implies views(out)[k] == want[k] by {
        assert(views(out)[k] == levels[k]@);
        assert(kept(level_values(levels), keep_all)[k] == raster_values(levels[k]@));
        assert(want[k].data =~= levels[k]@.data);
    }
    assert(views(out) =~= want);
}

/// The contents of copied levels are the numbers of the levels.
proof fn lemma_copied_indices(out: Seq<Raster<u8>>, levels: Seq<Raster<u8>>, keep_all: bool)
    requires
        views(out) == kept(views(levels), keep_all),
    ensures
        views(out) == Seq::new(
            kept(level_values(levels), keep_all).len(),
            |k: int| as_indices(kept(level_values(levels), keep_all)[k]),
        ),
{
    let want = Seq::new(
        kept(level_values(levels), keep_all).len(),
        |k: int| as_indices(kept(level_values(levels), keep_all)[k]),
    );
    assert(views(out).len() == want.len());
    assert forall|k: int| 0 <= k < want.len() implies views(out)[k] == want[k] by {
        assert(views(out)[k] == levels[k]@);
        assert(kept(level_values(levels), keep_all)[k] == raster_values(levels[k]@));
        assert(want[k].data =~= levels[k]@.data);
    }
    assert(views(out) =~= want);
}

/// A copy of a list of numbers.
fn copy_colors(colors: &Vec<u32>) -> (out: Vec<u32>)
    ensures
        out@ == colors@,
{
    let n: usize = colors.len();
    let mut out: Vec<u32> = Vec::with_capacity(n);
    let mut i: usize = 0;
    while i < n
        invariant
            i <= n,
            n == colors@.len(),
            out@.len() == i,
            forall|k: int| 0 <= k < i ==> #[trigger] out@[k] == colors@[k],
        decreases n - i,
    {
        out.push(colors[i]);
        i += 1;
    }
    assert(out@ =~= colors@);
    out
}

/// Converts an ITP image to a PNG image.
pub fn itp_to_png(png_no_palette: bool, png_mipmap: bool, itp: &Itp) -> (r: Result<Png, ConvertError>)
    ensures
        match r {
            Ok(png) => spec_itp_to_png(png_no_palette, png_mipmap, itp@) == Ok::<PngView, ConvertError>(png@),
            Err(e) => spec_itp_to_png(png_no_palette, png_mipmap, itp@) == Err::<PngView, ConvertError>(e),
        },
{
    match &itp.data {
        ImageData::Indexed(pal, data) => {
            let pal = match pal {
                Palette::Embedded(pal) => pal,
                Palette::External(_) => {
                    return Err(ConvertError::ExternalPalette);
                },
            };
            if png_no_palette {
                match look_up_levels(png_mipmap, data, pal) {
                    Some(frames) => Ok(Png::Argb32(frames)),
                    None => Err(ConvertError::PaletteIndex),
                }
            } else {
                let frames = copy_levels(png_mipmap, data);
                proof {
                    lemma_copied_indices(frames@, data@, png_mipmap);
                }
                Ok(Png::Indexed(copy_colors(pal), frames))
            }
        },
        ImageData::Argb16(_, _) => Err(ConvertError::Argb16),
        ImageData::Argb32(data) => {
            let frames = copy_levels(png_mipmap, data);
            proof {
                lemma_copied_colors(frames@, data@, png_mipmap);
            }
            Ok(Png::Argb32(frames))
        },
        ImageData::Bc1(data) => match decode_narrow_levels(png_mipmap, data) {
            Some(frames) => Ok(Png::Argb32(frames)),
            None => Err(ConvertError::TooLarge),
        },
        ImageData::Bc2(data) => match decode_wide_levels(png_mipmap, data, false) {
            Some(frames) => Ok(Png::Argb32(frames)),
            None => Err(ConvertError::TooLarge),
        },
        ImageData::Bc3(data) => match decode_wide_levels(png_mipmap, data, true) {
            Some(frames) => Ok(Png::Argb32(frames)),
            None => Err(ConvertError::TooLarge),
        },
        ImageData::Bc7(_) => Err(ConvertError::Bc7),
    }
}

/// The ITP image of a PNG image: indexed frames stay indexed, or become the
/// colours that they name where `no_palette` is set; the status is the one that
/// the constructor gives for revision 3.
pub open spec fn spec_png_to_itp(no_palette: bool, mipmap: bool, png: PngView) -> ItpView {
    let image = match png {
        PngView::Argb32(frames) => ImageView {
            kind: PixelKind::Argb32,
            palette: None,
            levels: Seq::new(kept(frames, mipmap).len(), |k: int| raster_values(kept(frames, mipmap)[k])),
        },
        PngView::Indexed(pal, frames) => if no_palette {
            ImageView {
                kind: PixelKind::Argb32,
                palette: None,
                levels: Seq::new(
                    kept(frames, mipmap).len(),
                    |k: int| raster_values(looked_up_or_zero(kept(frames, mipmap)[k], pal)),
                ),
            }
        } else {
            ImageView {
                kind: PixelKind::Indexed,
                palette: Some(PaletteView::Embedded(pal)),
                levels: Seq::new(kept(frames, mipmap).len(), |k: int| raster_values(kept(frames, mipmap)[k])),
            }
        },
    };
    ItpView { status: image.default_status(ItpRevision::V3), image }
}

/// Converts a PNG image to an ITP image of revision 3.
pub fn png_to_itp(png_no_palette: bool, png_mipmap: bool, png: &Png) -> (itp: Itp)
    ensures
        itp@ == spec_png_to_itp(png_no_palette, png_mipmap, png@),
{
    let data = match png {
        Png::Argb32(data) => {
            let frames = copy_levels(png_mipmap, data);
            assert(level_values(frames@) =~= Seq::new(
                kept(views(data@), png_mipmap).len(),
                |k: int| raster_values(kept(views(data@), png_mipmap)[k]),
            ));
            ImageData::Argb32(frames)
        },
        Png::Indexed(pal, data) => if png_no_palette {
            let n: usize = kept_len(data.len(), png_mipmap);
            let ghost want = kept(views(data@), png_mipmap);
            let mut frames: Vec<Raster<u32>> = Vec::with_capacity(n);
            let mut k: usize = 0;
            while k < n
                invariant
                    k <= n,
                    n == want.len(),
                    n <= data@.len(),
                    want == kept(views(data@), png_mipmap),
                    frames@.len() == k,
                    forall|j: int| 0 <= j < k ==> (#[trigger] frames@[j])@ == looked_up_or_zero(want[j], pal@),
                decreases n - k,
            {
                assert(want[k as int] == data@[k as int]@);
                frames.push(look_up_or_zero(&data[k], pal));
                k += 1;
            }
            assert(level_values(frames@) =~= Seq::new(
                want.len(),
                |k: int| raster_values(looked_up_or_zero(want[k], pal@)),
            ));
            ImageData::Argb32(frames)
        } else {
            let frames = copy_levels(png_mipmap, data);
            assert(level_values(frames@) =~= Seq::new(
                kept(views(data@), png_mipmap).len(),
                |k: int| raster_values(kept(views(data@), png_mipmap)[k]),
            ));
            ImageData::Indexed(Palette::Embedded(copy_colors(pal)), frames)
        },
    };
    Itp::new(ItpRevision::V3, data)
}

} // verus!
