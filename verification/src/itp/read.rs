//! Decoding of ITP files.

use super::{
    Argb16Mode, BaseFormatType, CompressionType, ImageData, ImageView, Itp, ItpRevision, ItpStatus, ItpView,
    level_values, MipmapType, MultiPlaneType, Palette, PaletteView, PixelBitFormatType, PixelFormatType, PixelKind,
    raster_values,
};
use super::ccpi::{ccpi_image, read_ccpi};
use super::compress::{expanded, freadp};
use super::fast_mode::{a_fast_mode2, fast_mode_pixels};
use super::flags::{FLAGS_PRESENT, gen1_to_flags, spec_gen1_to_flags, spec_status_from_flags, status_from_flags};
use crate::bytes::{avail, le_at, lemma_pow256_values, Pixel, read_le};
use crate::permute::{
    is_pow2, lemma_swizzle_inverse, lemma_tile_volume, lemma_unmorton_index, swizzle_index, unmorton, unmorton_index,
    unswizzle,
};
use crate::raster::{Raster, RasterView};
use vstd::prelude::*;
use vstd::slice::{slice_subrange, slice_to_vec};

verus! {

/// The field of the flag word that holds no value.
#[derive(Debug, Clone, Copy, PartialEq, Eq, Structural)]
pub enum FlagField {
    IndexedType,
    BaseFormatType,
    PixelFormat,
}

/// A field of a file that holds a number.
#[derive(Debug, Clone, Copy, PartialEq, Eq, Structural)]
pub enum Field {
    IhdrItpRevision,
    IhdrBaseFormat,
    IhdrPixelFormat,
    IhdrPixelBitFormat,
    IhdrCompression,
    IhdrMultiPlane,
    ImipMipmap,
    IpalIsExternal,
    IalpUseAlpha,
    CcpiTileWidth,
    CcpiTileHeight,
    LocalColor,
    RunLength,
}

/// A part of the format that this library does not decode.
#[derive(Debug, Clone, Copy, PartialEq, Eq, Structural)]
pub enum Unsupported {
    IextChunk,
    CcpiInRevision3,
    FastModeSubformat,
    FastModeTileEncoding,
}

/// Why a byte string is no ITP file.
#[allow(inconsistent_fields)]
#[derive(Debug, Clone, Copy, PartialEq, Eq)]
pub enum ReadError {
    /// The first four bytes belong to another format, or to none.
    NotItp,
    /// The file ends inside a field.
    UnexpectedEnd,
    /// A field with a fixed value holds another.
    Mismatch { expected: u32, found: u32 },
    /// Compressed data could not be expanded.
    Compress,
    /// The flag word gives no value for a field.
    MissingFlag { what: FlagField },
    /// The flag word has bits set that mean nothing.
    ExtraFlags { flags: u32 },
    /// A chunk has an unknown tag, given as the little-endian number of its four bytes.
    BadChunk { fourcc: u32 },
    /// A field holds a number that stands for nothing.
    Invalid { field: Field, value: u32 },
    /// Data has another length than the structure calls for.
    WrongSize,
    /// The header announces another number of mip levels than the file holds.
    WrongMips { expected: usize, value: usize },
    /// Data goes on after its expected end.
    RemainingData,
    /// A tile-dictionary image has another version than the one that is decoded.
    CcpiVersion { version: u16 },
    /// Pixel data comes before any header.
    NoHeader,
    /// A second header chunk comes where the file has had its header.
    RepeatedHeader,
    /// The base format cannot be used with the pixel bit format.
    PixelFormat { bft: BaseFormatType, pbft: PixelBitFormatType },
    /// An external palette is announced with a number of colours.
    ExternalPaletteMustBe0,
    /// A palette comes with a format that has no use for one.
    PalettePresent,
    /// An indexed format comes without a palette.
    PaletteMissing,
    /// The pixel order cannot tile an image of these dimensions.
    Dimensions { width: u32, height: u32 },
    /// The file uses a part of the format that is not decoded.
    Todo { what: Unsupported },
}

/// The 16-bit number at `at`.
pub open spec fn le16(s: Seq<u8>, at: int) -> u16 {
    le_at(s, at, 2) as u16
}

/// The 32-bit number at `at`.
pub open spec fn le32(s: Seq<u8>, at: int) -> u32 {
    le_at(s, at, 4) as u32
}

/// The 16-bit number at `at`, or the error of a file that ends before it.
pub open spec fn u16_at(s: Seq<u8>, at: int) -> Result<u16, ReadError> {
    if avail(s, at, 2) {
        Ok(le16(s, at))
    } else {
        Err(ReadError::UnexpectedEnd)
    }
}

/// The 32-bit number at `at`, or the error of a file that ends before it.
pub open spec fn u32_at(s: Seq<u8>, at: int) -> Result<u32, ReadError> {
    if avail(s, at, 4) {
        Ok(le32(s, at))
    } else {
        Err(ReadError::UnexpectedEnd)
    }
}

/// Reads the 16-bit number at `at`.
pub fn get_u16(data: &[u8], at: usize) -> (r: Result<u16, ReadError>)
    ensures
        r == u16_at(data@, at as int),
{
    if data.len() >= 2 && at <= data.len() - 2 {
        proof {
            lemma_pow256_values();
        }
        Ok(read_le(data, at, 2) as u16)
    } else {
        Err(ReadError::UnexpectedEnd)
    }
}

/// Reads the 32-bit number at `at`.
pub fn get_u32(data: &[u8], at: usize) -> (r: Result<u32, ReadError>)
    ensures
        r == u32_at(data@, at as int),
{
    if data.len() >= 4 && at <= data.len() - 4 {
        proof {
            lemma_pow256_values();
        }
        Ok(read_le(data, at, 4) as u32)
    } else {
        Err(ReadError::UnexpectedEnd)
    }
}

/// What expanding the compressed stream at `at` gives: the expanded bytes and the
/// position behind the stream.
pub open spec fn expand_at(s: Seq<u8>, at: int) -> Result<(Seq<u8>, int), ReadError> {
    match expanded(s.subrange(at, s.len() as int)) {
        Some((out, used)) => if 0 < used <= s.len() - at {
            Ok((out, at + used))
        } else {
            Err(ReadError::Compress)
        },
        None => Err(ReadError::Compress),
    }
}

/// What expanding one compressed stream after another gives, from `at` on, until
/// `want` bytes or more have come out.
pub open spec fn expand_many(s: Seq<u8>, at: int, want: int) -> Result<(Seq<u8>, int), ReadError>
    decreases s.len() - at,
{
    if want <= 0 {
        Ok((Seq::empty(), at))
    } else {
        match expand_at(s, at) {
            Err(e) => Err(e),
            Ok((out, end)) => if end <= at {
                Err(ReadError::Compress)
            } else {
                match expand_many(s, end, want - out.len()) {
                    Err(e) => Err(e),
                    Ok((more, last)) => Ok((out + more, last)),
                }
            },
        }
    }
}

/// The `len` bytes stored at `at` under the compression `comp`, and the position
/// behind them. Data that expands to another length than `len` is refused.
pub open spec fn stored_bytes(s: Seq<u8>, at: int, comp: CompressionType, len: nat) -> Result<
    (Seq<u8>, int),
    ReadError,
> {
    match comp {
        CompressionType::Uncompressed => if avail(s, at, len as int) {
            Ok((s.subrange(at, at + len), at + len))
        } else {
            Err(ReadError::UnexpectedEnd)
        },
        CompressionType::Bz_2 => sized(expand_many(s, at, len as int), len),
        _ => sized(expand_at(s, at), len),
    }
}

/// Expanded data, if it has the expected length.
pub open spec fn sized(r: Result<(Seq<u8>, int), ReadError>, len: nat) -> Result<(Seq<u8>, int), ReadError> {
    match r {
        Ok((out, end)) => if out.len() == len {
            r
        } else {
            Err(ReadError::WrongSize)
        },
        Err(e) => Err(e),
    }
}

/// What the reader makes of an answer of the compression library for the stream
/// at `at`: the expanded bytes with the position behind the stream, or the error
/// that stands for all of the library's.
pub fn expansion(answer: Result<(Vec<u8>, usize), falcompress::Error>, at: usize) -> (r: Result<
    (Vec<u8>, usize),
    ReadError,
>)
    requires
        answer matches Ok((_, used)) ==> at + used <= usize::MAX,
    ensures
        match answer {
            Ok((out, used)) => r == Ok::<(Vec<u8>, usize), ReadError>((out, (at + used) as usize)),
            Err(_) => r == Err::<(Vec<u8>, usize), ReadError>(ReadError::Compress),
        },
{
    match answer {
        Ok((out, used)) => Ok((out, at + used)),
        Err(_) => Err(ReadError::Compress),
    }
}

/// Expands the compressed stream at `at`.
pub fn expand_once(data: &[u8], at: usize) -> (r: Result<(Vec<u8>, usize), ReadError>)
    requires
        at <= data@.len(),
    ensures
        match r {
            Ok((out, end)) => expand_at(data@, at as int) == Ok::<(Seq<u8>, int), ReadError>((out@, end as int))
                && at < end <= data@.len(),
            Err(e) => expand_at(data@, at as int) == Err::<(Seq<u8>, int), ReadError>(e),
        },
{
    let answer = freadp(slice_subrange(data, at, data.len()));
    expansion(answer, at)
}

/// Expands one compressed stream after another until `want` bytes or more have
/// come out.
pub fn expand_until(data: &[u8], at: usize, want: u128) -> (r: Result<(Vec<u8>, usize), ReadError>)
    requires
        at <= data@.len(),
    ensures
        match r {
            Ok((out, end)) => expand_many(data@, at as int, want as int) == Ok::<(Seq<u8>, int), ReadError>(
                (out@, end as int),
            ) && at <= end <= data@.len(),
            Err(e) => expand_many(data@, at as int, want as int) == Err::<(Seq<u8>, int), ReadError>(e),
        },
{
    let mut out: Vec<u8> = Vec::new();
    let mut pos: usize = at;
    while (out.len() as u128) < want
        invariant
            at <= pos <= data@.len(),
            out@.len() <= want || expand_many(data@, pos as int, want - out@.len()) == Ok::<(Seq<u8>, int), ReadError>(
                (Seq::<u8>::empty(), pos as int),
            ),
            expand_many(data@, at as int, want as int) == (match expand_many(
                data@,
                pos as int,
                want - out@.len(),
            ) {
                Ok((more, last)) => Ok::<(Seq<u8>, int), ReadError>((out@ + more, last)),
                Err(e) => Err::<(Seq<u8>, int), ReadError>(e),
            }),
        decreases data@.len() - pos,
    {
        let ghost before = out@;
        let ghost from = pos;
        match expand_once(data, pos) {
            Err(e) => {
                return Err(e);
            },
            Ok((mut piece, end)) => {
                proof {
                    let next = expand_many(data@, end as int, want - before.len() - piece@.len());
                    match next {
                        Ok((more, last)) => {
                            assert((before + piece@) + more =~= before + (piece@ + more));
                        },
                        Err(_) => {},
                    }
                }
                out.append(&mut piece);
                pos = end;
            },
        }
    }
    proof {
        assert(out@ + Seq::<u8>::empty() =~= out@);
    }
    Ok((out, pos))
}

/// Reads the `len` bytes stored at `at` under the compression `comp`.
pub fn read_maybe_compressed(data: &[u8], at: usize, comp: CompressionType, len: u128) -> (r: Result<
    (Vec<u8>, usize),
    ReadError,
>)
    requires
        at <= data@.len(),
    ensures
        match r {
            Ok((out, end)) => stored_bytes(data@, at as int, comp, len as nat) == Ok::<(Seq<u8>, int), ReadError>(
                (out@, end as int),
            ) && at <= end <= data@.len() && out@.len() == len,
            Err(e) => stored_bytes(data@, at as int, comp, len as nat) == Err::<(Seq<u8>, int), ReadError>(e),
        },
{
    let (out, end) = match comp {
        CompressionType::Uncompressed => {
            let rest: usize = data.len() - at;
            if len > rest as u128 {
                return Err(ReadError::UnexpectedEnd);
            }
            let n: usize = len as usize;
            (slice_to_vec(slice_subrange(data, at, at + n)), at + n)
        },
        CompressionType::Bz_2 => {
            match expand_until(data, at, len) {
                Ok(found) => found,
                Err(e) => {
                    return Err(e);
                },
            }
        },
        _ => {
            match expand_once(data, at) {
                Ok(found) => found,
                Err(e) => {
                    return Err(e);
                },
            }
        },
    };
    if out.len() as u128 != len {
        return Err(ReadError::WrongSize);
    }
    Ok((out, end))
}

/// The colour with its red and blue bytes exchanged: the lowest byte and the
/// third change places.
pub open spec fn swap_rb(c: u32) -> u32 {
    let b0 = c % 256;
    let b1 = (c / 256) % 256;
    let b2 = (c / 65536) % 256;
    let b3 = c / 16777216;
    (b2 + b1 * 256 + b0 * 65536 + b3 * 16777216) as u32
}

/// Exchanges the red and the blue channel of a colour.
pub fn swap_red_blue(c: u32) -> (r: u32)
    ensures
        r == swap_rb(c),
{
    let b0: u32 = c % 256;
    let b1: u32 = (c / 256) % 256;
    let b2: u32 = (c / 65536) % 256;
    let b3: u32 = c / 16777216;
    b2 + b1 * 256 + b0 * 65536 + b3 * 16777216
}

/// Exchanging red and blue twice changes nothing.
pub proof fn lemma_swap_rb_twice(c: u32)
    by (bit_vector)
    ensures
        swap_rb(swap_rb(c)) == c,
{
}

/// The sum of the first `i + 1` numbers of `bytes`, each of 32 bits and the sum as well.
pub open spec fn running_sum(bytes: Seq<u8>, i: int) -> u32
    decreases i,
{
    if i <= 0 {
        le32(bytes, 0)
    } else {
        ((running_sum(bytes, i - 1) + le32(bytes, 4 * i)) % 0x1_0000_0000) as u32
    }
}

/// The `size` colours stored in `bytes`. On disk red and blue stand the other way
/// round, and with `delta` each colour is stored as its difference from the one
/// before.
pub open spec fn palette_colors(bytes: Seq<u8>, size: nat, delta: bool) -> Seq<u32> {
    Seq::new(
        size,
        |i: int|
            swap_rb(
                if delta {
                    running_sum(bytes, i)
                } else {
                    le32(bytes, 4 * i)
                },
            ),
    )
}

/// Turns stored colours into the colours of the palette.
pub fn decode_palette(bytes: &[u8], size: usize, delta: bool) -> (colors: Vec<u32>)
    requires
        bytes@.len() == 4 * size,
    ensures
        colors@ == palette_colors(bytes@, size as nat, delta),
{
    let mut colors: Vec<u32> = Vec::with_capacity(size);
    let mut sum: u32 = 0;
    let mut i: usize = 0;
    let total: usize = bytes.len();
    while i < size
        invariant
            i <= size,
            total == 4 * size,
            bytes@.len() == 4 * size,
            colors@.len() == i,
            i > 0 ==> sum == running_sum(bytes@, i - 1),
            forall|k: int| 0 <= k < i ==> #[trigger] colors@[k] == palette_colors(bytes@, size as nat, delta)[k],
        decreases size - i,
    {
        proof {
            lemma_pow256_values();
        }
        let raw: u32 = read_le(bytes, 4 * i, 4) as u32;
        sum = if i == 0 {
            raw
        } else {
            sum.wrapping_add(raw)
        };
        let c: u32 = if delta {
            sum
        } else {
            raw
        };
        colors.push(swap_red_blue(c));
        i += 1;
    }
    assert(colors@ =~= palette_colors(bytes@, size as nat, delta));
    colors
}

/// The position of the first zero byte at or behind `at`.
pub open spec fn nul_from(s: Seq<u8>, at: int) -> Option<int>
    decreases s.len() - at,
{
    if at < 0 || at >= s.len() {
        None
    } else if s[at] == 0 {
        Some(at)
    } else {
        nul_from(s, at + 1)
    }
}

/// The palette stored at `at`, and the position behind it: a name that ends with a
/// zero byte where the palette is external, else `size` colours.
pub open spec fn palette_at(s: Seq<u8>, at: int, status: ItpStatus, is_external: bool, size: nat) -> Result<
    (PaletteView, int),
    ReadError,
> {
    if is_external {
        if size != 0 {
            Err(ReadError::ExternalPaletteMustBe0)
        } else {
            match nul_from(s, at) {
                None => Err(ReadError::UnexpectedEnd),
                Some(k) => Ok((PaletteView::External(s.subrange(at, k)), k + 1)),
            }
        }
    } else {
        match stored_bytes(s, at, status.compression, size * 4) {
            Err(e) => Err(e),
            Ok((bytes, end)) => Ok(
                (
                    PaletteView::Embedded(
                        palette_colors(bytes, size, status.base_format == BaseFormatType::Indexed2),
                    ),
                    end,
                ),
            ),
        }
    }
}

/// Reads a palette of `size` colours, or the name of an external one.
pub fn read_ipal(data: &[u8], at: usize, status: &ItpStatus, is_external: bool, size: usize) -> (r: Result<
    (Palette, usize),
    ReadError,
>)
    requires
        at <= data@.len(),
        size <= u32::MAX,
    ensures
        match r {
            Ok((pal, end)) => palette_at(data@, at as int, *status, is_external, size as nat) == Ok::<
                (PaletteView, int),
                ReadError,
            >((pal@, end as int)) && at <= end <= data@.len(),
            Err(e) => palette_at(data@, at as int, *status, is_external, size as nat) == Err::<
                (PaletteView, int),
                ReadError,
            >(e),
        },
{
    if is_external {
        if size != 0 {
            return Err(ReadError::ExternalPaletteMustBe0);
        }
        let mut k: usize = at;
        while k < data.len() && data[k] != 0
            invariant
                at <= k <= data@.len(),
                nul_from(data@, at as int) == nul_from(data@, k as int),
            decreases data@.len() - k,
        {
            k += 1;
        }
        if k >= data.len() {
            return Err(ReadError::UnexpectedEnd);
        }
        let name = slice_to_vec(slice_subrange(data, at, k));
        Ok((Palette::External(name), k + 1))
    } else {
        let (bytes, end) = match read_maybe_compressed(data, at, status.compression, size as u128 * 4) {
            Ok(found) => found,
            Err(e) => {
                return Err(e);
            },
        };
        let delta = status.base_format == BaseFormatType::Indexed2;
        let colors = decode_palette(bytes.as_slice(), size, delta);
        Ok((Palette::Embedded(colors), end))
    }
}

/// The pixel order `pf` can tile an image of `w` by `h` elements.
pub open spec fn tiles_ok(pf: PixelFormatType, w: nat, h: nat) -> bool {
    match pf {
        PixelFormatType::Linear => true,
        PixelFormatType::Pfp_1 => w % 16 == 0 && h % 8 == 0,
        PixelFormatType::Pfp_2 => w % 32 == 0 && h % 32 == 0,
        PixelFormatType::Pfp_3 => is_pow2(w) && is_pow2(h),
        PixelFormatType::Pfp_4 => h % 8 == 0 && is_pow2(w * h / 8),
    }
}

/// The position on disk of the element that belongs at the row-major position `i`.
pub open spec fn source_index(pf: PixelFormatType, w: nat, h: nat, i: int) -> int {
    match pf {
        PixelFormatType::Linear => i,
        PixelFormatType::Pfp_1 => swizzle_index(8, (w / 16) as int, 16, i),
        PixelFormatType::Pfp_2 => swizzle_index(32, (w / 32) as int, 32, i),
        PixelFormatType::Pfp_3 => unmorton_index(h, w, i as nat) as int,
        PixelFormatType::Pfp_4 => unmorton_index(w * h / 8, 8, swizzle_index(8, w as int, 1, i) as nat) as int,
    }
}

/// Every row-major position takes its element from a position on disk.
pub proof fn lemma_source_index(pf: PixelFormatType, w: nat, h: nat, i: int)
    requires
        tiles_ok(pf, w, h),
        0 <= i < w * h,
    ensures
        0 <= source_index(pf, w, h, i) < w * h,
{
    match pf {
        PixelFormatType::Linear => {},
        PixelFormatType::Pfp_1 => {
            lemma_tile_volume(h as int, w as int, 8, 16);
            assert((h as int / 8) * 8 * (w as int / 16) * 16 == (h as int / 8) * (w as int / 16) * 8 * 16)
                by (nonlinear_arith);
            if w / 16 > 0 {
                lemma_swizzle_inverse(h as int / 8, 8, w as int / 16, 16, i);
            }
        },
        PixelFormatType::Pfp_2 => {
            lemma_tile_volume(h as int, w as int, 32, 32);
            assert((h as int / 32) * 32 * (w as int / 32) * 32 == (h as int / 32) * (w as int / 32) * 32 * 32)
                by (nonlinear_arith);
            if w / 32 > 0 {
                lemma_swizzle_inverse(h as int / 32, 32, w as int / 32, 32, i);
            }
        },
        PixelFormatType::Pfp_3 => {
            assert(w * h == h * w) by (nonlinear_arith);
            lemma_unmorton_index(h, w, i as nat);
        },
        PixelFormatType::Pfp_4 => {
            lemma_strip_volume(w, h);
            lemma_tile_volume(h as int, w as int, 8, 1);
            assert((h as int / 8) * 8 * (w as int / 1) * 1 == (h as int / 8) * (w as int / 1) * 8 * 1)
                by (nonlinear_arith);
            if w > 0 {
                lemma_swizzle_inverse(h as int / 8, 8, w as int, 1, i);
                lemma_unmorton_index(w * h / 8, 8, swizzle_index(8, w as int, 1, i) as nat);
            }
        },
    }
}

/// An image whose height is a multiple of 8 divides into strips of 8 elements.
pub proof fn lemma_strip_volume(w: nat, h: nat)
    requires
        h % 8 == 0,
    ensures
        (w * h / 8) * 8 == w * h,
        8 * (w * h / 8) == w * h,
        is_pow2(8),
{
    let k = h / 8;
    assert(w * h == (w * k) * 8) by (nonlinear_arith)
        requires
            h == 8 * k,
    ;
    vstd::arithmetic::div_mod::lemma_mod_multiples_basic((w * k) as int, 8);
    reveal_with_fuel(is_pow2, 5);
}

/// Whether `n` is a power of two.
pub fn is_power_of_two(n: usize) -> (b: bool)
    ensures
        b == is_pow2(n as nat),
{
    let mut m: usize = n;
    while m > 1 && m % 2 == 0
        invariant
            is_pow2(n as nat) == is_pow2(m as nat),
        decreases m,
    {
        m = m / 2;
    }
    m == 1
}

/// Brings elements from the order `pixel_format` on disk into row-major order, or
/// gives `None` where that order cannot tile the image.
pub fn do_unswizzle<T: Copy>(data: Vec<T>, width: usize, height: usize, pixel_format: PixelFormatType) -> (r: Option<
    Vec<T>,
>)
    requires
        data@.len() == width * height,
    ensures
        r is Some <==> tiles_ok(pixel_format, width as nat, height as nat),
        r matches Some(out) ==> out@.len() == data@.len() && forall|i: int|
            0 <= i < out@.len() ==> #[trigger] out@[i] == data@[source_index(
                pixel_format,
                width as nat,
                height as nat,
                i,
            )],
{
    let mut data = data;
    let n: usize = data.len();
    match pixel_format {
        PixelFormatType::Linear => {},
        PixelFormatType::Pfp_1 => {
            if width % 16 != 0 || height % 8 != 0 {
                return None;
            }
            unswizzle(&mut data, height, width, 8, 16);
        },
        PixelFormatType::Pfp_2 => {
            if width % 32 != 0 || height % 32 != 0 {
                return None;
            }
            unswizzle(&mut data, height, width, 32, 32);
        },
        PixelFormatType::Pfp_3 => {
            if !is_power_of_two(width) || !is_power_of_two(height) {
                return None;
            }
            unmorton(&mut data, height, width);
        },
        PixelFormatType::Pfp_4 => {
            if height % 8 != 0 || !is_power_of_two(n / 8) {
                return None;
            }
            proof {
                lemma_strip_volume(width as nat, height as nat);
            }
            unmorton(&mut data, n / 8, 8);
            unswizzle(&mut data, height, width, 8, 1);
            proof {
                assert forall|i: int| 0 <= i < n implies 0 <= #[trigger] swizzle_index(8, width as int, 1, i) < n by {
                    lemma_tile_volume(height as int, width as int, 8, 1);
                    assert((height as int / 8) * 8 * (width as int / 1) * 1 == (height as int / 8) * (width as int
                        / 1) * 8 * 1) by (nonlinear_arith);
                    if width > 0 {
                        lemma_swizzle_inverse(height as int / 8, 8, width as int, 1, i);
                    }
                }
            }
        },
    }
    Some(data)
}

/// The elements of one mip level stored at `at`, `w` by `h` of them and each of
/// `size` bytes, and the position behind them.
pub open spec fn level_at(
    s: Seq<u8>,
    at: int,
    comp: CompressionType,
    pf: PixelFormatType,
    size: nat,
    w: nat,
    h: nat,
) -> Result<(RasterView<nat>, int), ReadError> {
    match stored_bytes(s, at, comp, w * h * size) {
        Err(e) => Err(e),
        Ok((bytes, end)) => if !tiles_ok(pf, w, h) {
            Err(ReadError::Dimensions { width: w as u32, height: h as u32 })
        } else {
            Ok(
                (
                    RasterView {
                        width: w,
                        height: h,
                        data: Seq::new(w * h, |i: int| le_at(bytes, source_index(pf, w, h, i) * size, size as int)),
                    },
                    end,
                ),
            )
        },
    }
}

/// The numbers that `bytes` spells, `count` of them and each of `size` bytes.
pub fn decode_pixels<T: Pixel>(bytes: &[u8], count: usize) -> (pixels: Vec<T>)
    requires
        bytes@.len() == count * T::size(),
    ensures
        pixels@.len() == count,
        forall|i: int| 0 <= i < count ==> (#[trigger] pixels@[i]).value() == le_at(bytes@, i * T::size(), T::size() as int),
{
    let size: usize = T::byte_len();
    let mut pixels: Vec<T> = Vec::with_capacity(count);
    let mut i: usize = 0;
    let total: usize = bytes.len();
    while i < count
        invariant
            i <= count,
            size == T::size(),
            1 <= size <= 16,
            total == count * size,
            bytes@.len() == count * size,
            pixels@.len() == i,
            forall|k: int| 0 <= k < i ==> (#[trigger] pixels@[k]).value() == le_at(bytes@, k * T::size(), T::size() as int),
        decreases count - i,
    {
        proof {
            assert(i * size + size <= count * size) by (nonlinear_arith)
                requires
                    i + 1 <= count,
                    size >= 0,
            ;
        }
        let v: u128 = read_le(bytes, i * size, size);
        pixels.push(T::from_value(v));
        i += 1;
    }
    pixels
}

/// Reads one mip level of `w` by `h` elements.
pub fn read_level<T: Pixel>(
    data: &[u8],
    at: usize,
    comp: CompressionType,
    pf: PixelFormatType,
    w: u32,
    h: u32,
) -> (r: Result<(Raster<T>, usize), ReadError>)
    requires
        at <= data@.len(),
    ensures
        match r {
            Ok((raster, end)) => level_at(data@, at as int, comp, pf, T::size(), w as nat, h as nat) == Ok::<
                (RasterView<nat>, int),
                ReadError,
            >((raster_values(raster@), end as int)) && at <= end <= data@.len(),
            Err(e) => level_at(data@, at as int, comp, pf, T::size(), w as nat, h as nat) == Err::<
                (RasterView<nat>, int),
                ReadError,
            >(e),
        },
{
    let size: usize = T::byte_len();
    proof {
        assert(0 <= w * h <= 0xFFFF_FFFF * 0xFFFF_FFFF) by (nonlinear_arith)
            requires
                w <= 0xFFFF_FFFF,
                h <= 0xFFFF_FFFF,
        ;
        assert(w * h * size <= (0xFFFF_FFFF * 0xFFFF_FFFF) * 16) by (nonlinear_arith)
            requires
                w * h <= 0xFFFF_FFFF * 0xFFFF_FFFF,
                0 <= w * h,
                size <= 16,
        ;
    }
    let count: u128 = w as u128 * h as u128;
    let (bytes, end) = match read_maybe_compressed(data, at, comp, count * size as u128) {
        Ok(found) => found,
        Err(e) => {
            return Err(e);
        },
    };
    proof {
        assert(w * h <= w * h * size) by (nonlinear_arith)
            requires
                size >= 1,
                w * h >= 0,
        ;
    }
    let total: usize = bytes.len();
    let n: usize = count as usize;
    let stored: Vec<T> = decode_pixels(bytes.as_slice(), n);
    let pixels = match do_unswizzle(stored, w as usize, h as usize, pf) {
        Some(pixels) => pixels,
        None => {
            return Err(ReadError::Dimensions { width: w, height: h });
        },
    };
    let raster = Raster::new_with(w as usize, h as usize, pixels);
    proof {
        let want = Seq::new(
            (w * h) as nat,
            |i: int| le_at(bytes@, source_index(pf, w as nat, h as nat, i) * T::size(), T::size() as int),
        );
        assert forall|i: int| 0 <= i < n implies raster_values(raster@).data[i] == want[i] by {
            lemma_source_index(pf, w as nat, h as nat, i);
        }
        assert(raster_values(raster@).data =~= want);
    }
    Ok((raster, end))
}

/// `image` with one more mip level.
pub open spec fn with_level(image: ImageView, r: Result<(RasterView<nat>, int), ReadError>) -> Result<
    (ImageView, int),
    ReadError,
> {
    match r {
        Err(e) => Err(e),
        Ok((level, end)) => Ok((ImageView { levels: image.levels.push(level), ..image }, end)),
    }
}

/// One mip level in the nibble-packed encoding, stored at `at` behind its length.
pub open spec fn fast_level_at(s: Seq<u8>, at: int, comp: CompressionType, w: nat, h: nat) -> Result<
    (RasterView<nat>, int),
    ReadError,
> {
    if !avail(s, at, 4) {
        Err(ReadError::UnexpectedEnd)
    } else {
        match stored_bytes(s, at + 4, comp, le32(s, at) as nat) {
            Err(e) => Err(e),
            Ok((g, end)) => match fast_mode_pixels(g, w, h) {
                Err(e) => Err(e),
                Ok((pixels, used)) => if used != g.len() {
                    Err(ReadError::RemainingData)
                } else {
                    Ok((raster_values::<u8>(RasterView { width: w, height: h, data: pixels }), end))
                },
            },
        }
    }
}

/// `image` with the mip level stored at `at`, which measures `w` by `h` pixels, and
/// the position behind the level.
pub open spec fn idat_at(s: Seq<u8>, at: int, status: ItpStatus, image: ImageView, w: u32, h: u32) -> Result<
    (ImageView, int),
    ReadError,
> {
    match image.kind {
        PixelKind::Indexed => match status.base_format {
            BaseFormatType::Indexed1 => with_level(
                image,
                level_at(s, at, status.compression, status.pixel_format, 1, w as nat, h as nat),
            ),
            BaseFormatType::Indexed2 => with_level(image, fast_level_at(s, at, status.compression, w as nat, h as nat)),
            BaseFormatType::Indexed3 => Err(ReadError::Todo { what: Unsupported::CcpiInRevision3 }),
            _ => Err(ReadError::PixelFormat { bft: status.base_format, pbft: status.pixel_bit_format }),
        },
        kind => with_level(
            image,
            level_at(
                s,
                at,
                status.compression,
                status.pixel_format,
                kind.size(),
                (w / (kind.scale() as u32)) as nat,
                (h / (kind.scale() as u32)) as nat,
            ),
        ),
    }
}

/// The image of a status before any of its pixels is read: the kind that the base
/// format and the pixel bit format name together.
pub open spec fn empty_image(status: ItpStatus) -> Result<ImageView, ReadError> {
    match (status.base_format, status.pixel_bit_format) {
        (BaseFormatType::Indexed1, PixelBitFormatType::Indexed)
        | (BaseFormatType::Indexed2, PixelBitFormatType::Indexed)
        | (BaseFormatType::Indexed3, PixelBitFormatType::Indexed) => Ok(
            ImageView {
                kind: PixelKind::Indexed,
                palette: Some(PaletteView::Embedded(Seq::empty())),
                levels: Seq::empty(),
            },
        ),
        (BaseFormatType::Argb16, PixelBitFormatType::Argb16_1) => Ok(bare(PixelKind::Argb16(Argb16Mode::Mode1))),
        (BaseFormatType::Argb16, PixelBitFormatType::Argb16_2) => Ok(bare(PixelKind::Argb16(Argb16Mode::Mode2))),
        (BaseFormatType::Argb16, PixelBitFormatType::Argb16_3) => Ok(bare(PixelKind::Argb16(Argb16Mode::Mode3))),
        (BaseFormatType::Argb32, PixelBitFormatType::Argb32) => Ok(bare(PixelKind::Argb32)),
        (BaseFormatType::Bc1, PixelBitFormatType::Compressed) => Ok(bare(PixelKind::Bc1)),
        (BaseFormatType::Bc2, PixelBitFormatType::Compressed) => Ok(bare(PixelKind::Bc2)),
        (BaseFormatType::Bc3, PixelBitFormatType::Compressed) => Ok(bare(PixelKind::Bc3)),
        (BaseFormatType::Bc7, PixelBitFormatType::Compressed) => Ok(bare(PixelKind::Bc7)),
        (bft, pbft) => Err(ReadError::PixelFormat { bft, pbft }),
    }
}

/// An image of kind `kind` without a palette and without pixels.
pub open spec fn bare(kind: PixelKind) -> ImageView {
    ImageView { kind, palette: None, levels: Seq::empty() }
}

/// The image without levels that a status asks for.
pub fn make_data(status: &ItpStatus) -> (r: Result<ImageData, ReadError>)
    ensures
        match r {
            Ok(data) => empty_image(*status) == Ok::<ImageView, ReadError>(data@),
            Err(e) => empty_image(*status) == Err::<ImageView, ReadError>(e),
        },
{
    let data = match (status.base_format, status.pixel_bit_format) {
        (BaseFormatType::Indexed1, PixelBitFormatType::Indexed)
        | (BaseFormatType::Indexed2, PixelBitFormatType::Indexed)
        | (BaseFormatType::Indexed3, PixelBitFormatType::Indexed) => ImageData::Indexed(
            Palette::Embedded(Vec::new()),
            Vec::new(),
        ),
        (BaseFormatType::Argb16, PixelBitFormatType::Argb16_1) => ImageData::Argb16(Argb16Mode::Mode1, Vec::new()),
        (BaseFormatType::Argb16, PixelBitFormatType::Argb16_2) => ImageData::Argb16(Argb16Mode::Mode2, Vec::new()),
        (BaseFormatType::Argb16, PixelBitFormatType::Argb16_3) => ImageData::Argb16(Argb16Mode::Mode3, Vec::new()),
        (BaseFormatType::Argb32, PixelBitFormatType::Argb32) => ImageData::Argb32(Vec::new()),
        (BaseFormatType::Bc1, PixelBitFormatType::Compressed) => ImageData::Bc1(Vec::new()),
        (BaseFormatType::Bc2, PixelBitFormatType::Compressed) => ImageData::Bc2(Vec::new()),
        (BaseFormatType::Bc3, PixelBitFormatType::Compressed) => ImageData::Bc3(Vec::new()),
        (BaseFormatType::Bc7, PixelBitFormatType::Compressed) => ImageData::Bc7(Vec::new()),
        (bft, pbft) => {
            return Err(ReadError::PixelFormat { bft, pbft });
        },
    };
    proof {
        assert(data@.levels =~= Seq::empty());
    }
    Ok(data)
}

/// The levels of an image with one more behind them.
proof fn lemma_push_level<T: Pixel>(levels: Seq<Raster<T>>, raster: Raster<T>)
    ensures
        level_values(levels.push(raster)) == level_values(levels).push(raster_values(raster@)),
{
    assert(level_values(levels.push(raster)) =~= level_values(levels).push(raster_values(raster@)));
}

/// Reads one mip level in the nibble-packed encoding.
pub fn read_fast_level(data: &[u8], at: usize, comp: CompressionType, w: u32, h: u32) -> (r: Result<
    (Raster<u8>, usize),
    ReadError,
>)
    requires
        at <= data@.len(),
    ensures
        match r {
            Ok((raster, end)) => fast_level_at(data@, at as int, comp, w as nat, h as nat) == Ok::<
                (RasterView<nat>, int),
                ReadError,
            >((raster_values(raster@), end as int)) && at <= end <= data@.len(),
            Err(e) => fast_level_at(data@, at as int, comp, w as nat, h as nat) == Err::<
                (RasterView<nat>, int),
                ReadError,
            >(e),
        },
{
    let len: usize = data.len();
    let size: u32 = match get_u32(data, at) {
        Ok(v) => v,
        Err(e) => {
            return Err(e);
        },
    };
    let (body, end) = match read_maybe_compressed(data, at + 4, comp, size as u128) {
        Ok(found) => found,
        Err(e) => {
            return Err(e);
        },
    };
    let (pixels, used) = match a_fast_mode2(body.as_slice(), w, h) {
        Ok(found) => found,
        Err(e) => {
            return Err(e);
        },
    };
    if used != body.len() {
        return Err(ReadError::RemainingData);
    }
    Ok((Raster::new_with(w as usize, h as usize, pixels), end))
}

/// Reads the mip level stored at `at`, which measures `w` by `h` pixels, into `image`.
pub fn read_idat(data: &[u8], at: usize, status: &ItpStatus, image: ImageData, w: u32, h: u32) -> (r: Result<
    (ImageData, usize),
    ReadError,
>)
    requires
        at <= data@.len(),
    ensures
        match r {
            Ok((out, end)) => idat_at(data@, at as int, *status, image@, w, h) == Ok::<(ImageView, int), ReadError>(
                (out@, end as int),
            ) && at <= end <= data@.len(),
            Err(e) => idat_at(data@, at as int, *status, image@, w, h) == Err::<(ImageView, int), ReadError>(e),
        },
{
    let comp = status.compression;
    let pf = status.pixel_format;
    match image {
        ImageData::Indexed(pal, mut d) => {
            let (raster, end) = match status.base_format {
                BaseFormatType::Indexed1 => match read_level::<u8>(data, at, comp, pf, w, h) {
                    Ok(found) => found,
                    Err(e) => {
                        return Err(e);
                    },
                },
                BaseFormatType::Indexed2 => match read_fast_level(data, at, comp, w, h) {
                    Ok(found) => found,
                    Err(e) => {
                        return Err(e);
                    },
                },
                BaseFormatType::Indexed3 => {
                    return Err(ReadError::Todo { what: Unsupported::CcpiInRevision3 });
                },
                _ => {
                    return Err(ReadError::PixelFormat { bft: status.base_format, pbft: status.pixel_bit_format });
                },
            };
            proof {
                lemma_push_level(d@, raster);
            }
            d.push(raster);
            Ok((ImageData::Indexed(pal, d), end))
        },
        ImageData::Argb16(mode, mut d) => {
            let (raster, end) = match read_level::<u16>(data, at, comp, pf, w, h) {
                Ok(found) => found,
                Err(e) => {
                    return Err(e);
                },
            };
            proof {
                lemma_push_level(d@, raster);
            }
            d.push(raster);
            Ok((ImageData::Argb16(mode, d), end))
        },
        ImageData::Argb32(mut d) => {
            let (raster, end) = match read_level::<u32>(data, at, comp, pf, w, h) {
                Ok(found) => found,
                Err(e) => {
                    return Err(e);
                },
            };
            proof {
                lemma_push_level(d@, raster);
            }
            d.push(raster);
            Ok((ImageData::Argb32(d), end))
        },
        ImageData::Bc1(mut d) => {
            let (raster, end) = match read_level::<u64>(data, at, comp, pf, w / 4, h / 4) {
                Ok(found) => found,
                Err(e) => {
                    return Err(e);
                },
            };
            proof {
                lemma_push_level(d@, raster);
            }
            d.push(raster);
            Ok((ImageData::Bc1(d), end))
        },
        ImageData::Bc2(mut d) => {
            let (raster, end) = match read_level::<u128>(data, at, comp, pf, w / 4, h / 4) {
                Ok(found) => found,
                Err(e) => {
                    return Err(e);
                },
            };
            proof {
                lemma_push_level(d@, raster);
            }
            d.push(raster);
            Ok((ImageData::Bc2(d), end))
        },
        ImageData::Bc3(mut d) => {
            let (raster, end) = match read_level::<u128>(data, at, comp, pf, w / 4, h / 4) {
                Ok(found) => found,
                Err(e) => {
                    return Err(e);
                },
            };
            proof {
                lemma_push_level(d@, raster);
            }
            d.push(raster);
            Ok((ImageData::Bc3(d), end))
        },
        ImageData::Bc7(mut d) => {
            let (raster, end) = match read_level::<u128>(data, at, comp, pf, w / 4, h / 4) {
                Ok(found) => found,
                Err(e) => {
                    return Err(e);
                },
            };
            proof {
                lemma_push_level(d@, raster);
            }
            d.push(raster);
            Ok((ImageData::Bc7(d), end))
        },
    }
}

/// The first four bytes of a file of revision 3, `ITP` and `0xFF`, as a number.
pub const ITP_MAGIC: u32 = 0xFF50_5449;

/// The first four bytes of a PNG file, as a number.
pub const PNG_MAGIC: u32 = 0x474E_5089;

/// The first four bytes of a DDS file, as a number.
pub const DDS_MAGIC: u32 = 0x2053_4444;

/// The tag of the header chunk.
pub const IHDR: u32 = 0x5244_4849;

/// The tag of the mipmap chunk.
pub const IMIP: u32 = 0x5049_4D49;

/// The tag of the hash chunk, whose contents are passed over.
pub const IHAS: u32 = 0x5341_4849;

/// The tag of the palette chunk.
pub const IPAL: u32 = 0x4C41_5049;

/// The tag of the alpha chunk.
pub const IALP: u32 = 0x504C_4149;

/// The tag of a data chunk.
pub const IDAT: u32 = 0x5441_4449;

/// The tag of the extension chunk, which is not decoded.
pub const IEXT: u32 = 0x5458_4549;

/// The tag of the chunk that ends a file.
pub const IEND: u32 = 0x444E_4549;

/// What went wrong with a 32-bit field that must hold `v`, if anything.
pub open spec fn expect32(s: Seq<u8>, at: int, v: u32) -> Option<ReadError> {
    if !avail(s, at, 4) {
        Some(ReadError::UnexpectedEnd)
    } else if le32(s, at) != v {
        Some(ReadError::Mismatch { expected: v, found: le32(s, at) })
    } else {
        None
    }
}

/// What went wrong with a 16-bit field that must hold `v`, if anything.
pub open spec fn expect16(s: Seq<u8>, at: int, v: u16) -> Option<ReadError> {
    if !avail(s, at, 2) {
        Some(ReadError::UnexpectedEnd)
    } else if le16(s, at) != v {
        Some(ReadError::Mismatch { expected: v as u32, found: le16(s, at) as u32 })
    } else {
        None
    }
}

/// What went wrong with a 16-bit field that holds one of `valid` numbers, if anything.
pub open spec fn expect_code(s: Seq<u8>, at: int, field: Field, valid: bool) -> Option<ReadError> {
    if !avail(s, at, 2) {
        Some(ReadError::UnexpectedEnd)
    } else if !valid {
        Some(ReadError::Invalid { field, value: le16(s, at) as u32 })
    } else {
        None
    }
}

/// Tests that the 32-bit number at `at` is `v`.
pub fn check_u32(data: &[u8], at: usize, v: u32) -> (r: Result<(), ReadError>)
    ensures
        r is Ok <==> expect32(data@, at as int, v) is None,
        r matches Err(e) ==> expect32(data@, at as int, v) == Some(e),
{
    match get_u32(data, at) {
        Err(e) => Err(e),
        Ok(found) => if found != v {
            Err(ReadError::Mismatch { expected: v, found })
        } else {
            Ok(())
        },
    }
}

/// Tests that the 16-bit number at `at` is `v`.
pub fn check_u16(data: &[u8], at: usize, v: u16) -> (r: Result<(), ReadError>)
    ensures
        r is Ok <==> expect16(data@, at as int, v) is None,
        r matches Err(e) ==> expect16(data@, at as int, v) == Some(e),
{
    match get_u16(data, at) {
        Err(e) => Err(e),
        Ok(found) => if found != v {
            Err(ReadError::Mismatch { expected: v as u32, found: found as u32 })
        } else {
            Ok(())
        },
    }
}

/// A dimension of the image at mip level `level`: halved once for each level.
pub open spec fn mip_dim(n: u32, level: int) -> u32
    decreases level,
{
    if level <= 0 {
        n
    } else {
        mip_dim(n, level - 1) / 2
    }
}

/// A dimension that was halved to nothing stays nothing.
proof fn lemma_mip_dim_zero(n: u32, j: int, k: int)
    requires
        0 <= j <= k,
        mip_dim(n, j) == 0,
    ensures
        mip_dim(n, k) == 0,
    decreases k - j,
{
    if j < k {
        lemma_mip_dim_zero(n, j, k - 1);
    }
}

/// A dimension of mip level `level`: the dimension of the image halved `level` times.
pub fn mip_size(n: u32, level: usize) -> (v: u32)
    ensures
        v == mip_dim(n, level as int),
{
    let mut v: u32 = n;
    let mut i: usize = 0;
    while i < level && v > 0
        invariant
            i <= level,
            v == mip_dim(n, i as int),
        decreases level - i,
    {
        v = v / 2;
        i += 1;
    }
    proof {
        if i < level {
            lemma_mip_dim_zero(n, i as int, level as int);
        }
    }
    v
}

/// What the reader of revision 3 knows between two chunks.
pub struct ChunkStateView {
    pub width: u32,
    pub height: u32,
    pub file_size: u32,
    /// The number of mip levels that the file announces.
    pub n_mip: int,
    /// The number of mip levels read.
    pub current_mip: int,
    pub status: ItpStatus,
    pub palette: Option<PaletteView>,
    pub image: Option<ImageView>,
}

/// What the chunks read so far have told.
pub struct ChunkState {
    pub width: u32,
    pub height: u32,
    pub file_size: u32,
    pub n_mip: usize,
    pub current_mip: usize,
    pub status: ItpStatus,
    pub palette: Option<Palette>,
    pub image: Option<ImageData>,
}

impl View for ChunkState {
    type V = ChunkStateView;

    open spec fn view(&self) -> ChunkStateView {
        ChunkStateView {
            width: self.width,
            height: self.height,
            file_size: self.file_size,
            n_mip: self.n_mip as int,
            current_mip: self.current_mip as int,
            status: self.status,
            palette: match self.palette {
                Some(p) => Some(p@),
                None => None,
            },
            image: match self.image {
                Some(d) => Some(d@),
                None => None,
            },
        }
    }
}

/// The state before the first chunk: a file announces one mip level unless it says
/// otherwise.
pub open spec fn first_state() -> ChunkStateView {
    ChunkStateView {
        width: 0,
        height: 0,
        file_size: 0,
        n_mip: 1,
        current_mip: 0,
        status: ItpStatus {
            itp_revision: ItpRevision::V3,
            base_format: BaseFormatType::Argb32,
            compression: CompressionType::Uncompressed,
            pixel_format: PixelFormatType::Linear,
            pixel_bit_format: PixelBitFormatType::Argb32,
            multi_plane: MultiPlaneType::SinglePlane,
            mipmap: MipmapType::NoMipmap,
            use_alpha: None,
        },
        palette: None,
        image: None,
    }
}

/// The first thing wrong with the fields of a header chunk, if anything.
pub open spec fn ihdr_error(s: Seq<u8>, at: int) -> Option<ReadError> {
    if expect32(s, at, 32) is Some {
        expect32(s, at, 32)
    } else if !avail(s, at + 4, 12) {
        Some(ReadError::UnexpectedEnd)
    } else if expect_code(s, at + 16, Field::IhdrItpRevision, ItpRevision::from_code(le16(s, at + 16)) is Some)
        is Some {
        expect_code(s, at + 16, Field::IhdrItpRevision, false)
    } else if expect_code(s, at + 18, Field::IhdrBaseFormat, BaseFormatType::from_code(le16(s, at + 18)) is Some)
        is Some {
        expect_code(s, at + 18, Field::IhdrBaseFormat, false)
    } else if expect_code(s, at + 20, Field::IhdrPixelFormat, PixelFormatType::from_code(le16(s, at + 20)) is Some)
        is Some {
        expect_code(s, at + 20, Field::IhdrPixelFormat, false)
    } else if expect_code(
        s,
        at + 22,
        Field::IhdrPixelBitFormat,
        PixelBitFormatType::from_code(le16(s, at + 22)) is Some,
    ) is Some {
        expect_code(s, at + 22, Field::IhdrPixelBitFormat, false)
    } else if expect_code(s, at + 24, Field::IhdrCompression, CompressionType::from_code(le16(s, at + 24)) is Some)
        is Some {
        expect_code(s, at + 24, Field::IhdrCompression, false)
    } else if expect_code(s, at + 26, Field::IhdrMultiPlane, MultiPlaneType::from_code(le16(s, at + 26)) is Some)
        is Some {
        expect_code(s, at + 26, Field::IhdrMultiPlane, false)
    } else {
        expect32(s, at + 28, 0)
    }
}

/// The status that a header chunk gives: the six fields that the chunk holds, the
/// others as they were.
pub open spec fn ihdr_status(s: Seq<u8>, at: int, before: ItpStatus) -> ItpStatus {
    ItpStatus {
        itp_revision: ItpRevision::from_code(le16(s, at + 16)).unwrap(),
        base_format: BaseFormatType::from_code(le16(s, at + 18)).unwrap(),
        pixel_format: PixelFormatType::from_code(le16(s, at + 20)).unwrap(),
        pixel_bit_format: PixelBitFormatType::from_code(le16(s, at + 22)).unwrap(),
        compression: CompressionType::from_code(le16(s, at + 24)).unwrap(),
        multi_plane: MultiPlaneType::from_code(le16(s, at + 26)).unwrap(),
        ..before
    }
}

/// The state behind a header chunk whose body starts at `at`: the dimensions, the
/// announced size of the file, the format, and an image without pixels.
pub open spec fn ihdr(s: Seq<u8>, at: int, st: ChunkStateView) -> Result<(ChunkStateView, int), ReadError> {
    if st.image is Some {
        Err(ReadError::RepeatedHeader)
    } else {
        match ihdr_error(s, at) {
            Some(e) => Err(e),
            None => match empty_image(ihdr_status(s, at, st.status)) {
                Err(e) => Err(e),
                Ok(image) => Ok(
                    (
                        ChunkStateView {
                            width: le32(s, at + 4),
                            height: le32(s, at + 8),
                            file_size: le32(s, at + 12),
                            status: ihdr_status(s, at, st.status),
                            image: Some(image),
                            ..st
                        },
                        at + 32,
                    ),
                ),
            },
        }
    }
}

/// The state behind a mipmap chunk: the kind of mipmaps, and the number of levels,
/// stored less one.
pub open spec fn imip(s: Seq<u8>, at: int, st: ChunkStateView) -> Result<(ChunkStateView, int), ReadError> {
    if expect32(s, at, 12) is Some {
        Err(expect32(s, at, 12).unwrap())
    } else if expect_code(s, at + 4, Field::ImipMipmap, MipmapType::from_code(le16(s, at + 4)) is Some) is Some {
        Err(expect_code(s, at + 4, Field::ImipMipmap, false).unwrap())
    } else if !avail(s, at + 6, 2) {
        Err(ReadError::UnexpectedEnd)
    } else if expect32(s, at + 8, 0) is Some {
        Err(expect32(s, at + 8, 0).unwrap())
    } else {
        Ok(
            (
                ChunkStateView {
                    status: ItpStatus { mipmap: MipmapType::from_code(le16(s, at + 4)).unwrap(), ..st.status },
                    n_mip: le16(s, at + 6) + 1,
                    ..st
                },
                at + 12,
            ),
        )
    }
}

/// The state behind a hash chunk, which nothing is taken from.
pub open spec fn ihas(s: Seq<u8>, at: int, st: ChunkStateView) -> Result<(ChunkStateView, int), ReadError> {
    if expect32(s, at, 16) is Some {
        Err(expect32(s, at, 16).unwrap())
    } else if expect32(s, at + 4, 0) is Some {
        Err(expect32(s, at + 4, 0).unwrap())
    } else if !avail(s, at + 8, 8) {
        Err(ReadError::UnexpectedEnd)
    } else {
        Ok((st, at + 16))
    }
}

/// The state behind a palette chunk.
pub open spec fn ipal(s: Seq<u8>, at: int, st: ChunkStateView) -> Result<(ChunkStateView, int), ReadError> {
    if expect32(s, at, 8) is Some {
        Err(expect32(s, at, 8).unwrap())
    } else if expect_code(s, at + 4, Field::IpalIsExternal, le16(s, at + 4) <= 1) is Some {
        Err(expect_code(s, at + 4, Field::IpalIsExternal, false).unwrap())
    } else if !avail(s, at + 6, 2) {
        Err(ReadError::UnexpectedEnd)
    } else {
        match palette_at(s, at + 8, st.status, le16(s, at + 4) == 1, le16(s, at + 6) as nat) {
            Err(e) => Err(e),
            Ok((pal, end)) => Ok((ChunkStateView { palette: Some(pal), ..st }, end)),
        }
    }
}

/// The state behind an alpha chunk.
pub open spec fn ialp(s: Seq<u8>, at: int, st: ChunkStateView) -> Result<(ChunkStateView, int), ReadError> {
    if expect32(s, at, 8) is Some {
        Err(expect32(s, at, 8).unwrap())
    } else if expect_code(s, at + 4, Field::IalpUseAlpha, le16(s, at + 4) <= 1) is Some {
        Err(expect_code(s, at + 4, Field::IalpUseAlpha, false).unwrap())
    } else if expect16(s, at + 6, 0) is Some {
        Err(expect16(s, at + 6, 0).unwrap())
    } else {
        Ok((ChunkStateView { status: ItpStatus { use_alpha: Some(le16(s, at + 4) == 1), ..st.status }, ..st }, at + 8))
    }
}

/// The state behind a data chunk: one more mip level, which must be the one that
/// the chunk says it is, of an image that a header has announced.
pub open spec fn idat(s: Seq<u8>, at: int, st: ChunkStateView) -> Result<(ChunkStateView, int), ReadError> {
    if expect32(s, at, 8) is Some {
        Err(expect32(s, at, 8).unwrap())
    } else if expect16(s, at + 4, 0) is Some {
        Err(expect16(s, at + 4, 0).unwrap())
    } else if expect16(s, at + 6, (st.current_mip % 0x1_0000) as u16) is Some {
        Err(expect16(s, at + 6, (st.current_mip % 0x1_0000) as u16).unwrap())
    } else {
        match st.image {
            None => Err(ReadError::NoHeader),
            Some(image) => match idat_at(
                s,
                at + 8,
                st.status,
                image,
                mip_dim(st.width, st.current_mip),
                mip_dim(st.height, st.current_mip),
            ) {
                Err(e) => Err(e),
                Ok((next, end)) => Ok(
                    (ChunkStateView { image: Some(next), current_mip: st.current_mip + 1, ..st }, end),
                ),
            },
        }
    }
}

/// The state behind the body at `at` of a chunk with the tag `tag`.
pub open spec fn chunk_body(s: Seq<u8>, at: int, tag: u32, st: ChunkStateView) -> Result<
    (ChunkStateView, int),
    ReadError,
> {
    if tag == IHDR {
        ihdr(s, at, st)
    } else if tag == IMIP {
        imip(s, at, st)
    } else if tag == IHAS {
        ihas(s, at, st)
    } else if tag == IPAL {
        ipal(s, at, st)
    } else if tag == IALP {
        ialp(s, at, st)
    } else if tag == IDAT {
        idat(s, at, st)
    } else if tag == IEXT {
        Err(ReadError::Todo { what: Unsupported::IextChunk })
    } else {
        Err(ReadError::BadChunk { fourcc: tag })
    }
}

/// The state behind the end chunk, and the position behind that chunk, for the
/// chunks from `at` on. Each chunk starts with its tag and its length; the length
/// is not looked at.
#[verifier::opaque]
pub open spec fn chunks(s: Seq<u8>, at: int, st: ChunkStateView) -> Result<(ChunkStateView, int), ReadError>
    decreases s.len() - at,
{
    if !avail(s, at, 8) {
        Err(ReadError::UnexpectedEnd)
    } else if le32(s, at) == IEND {
        Ok((st, at + 8))
    } else {
        match chunk_body(s, at + 8, le32(s, at), st) {
            Err(e) => Err(e),
            Ok((next, end)) => if end < at + 8 || end > s.len() {
                Err(ReadError::UnexpectedEnd)
            } else {
                chunks(s, end, next)
            },
        }
    }
}

/// The image that the chunks have given, if they fit together: there is a header,
/// a palette exactly where the format is indexed, the file is as long as the header
/// says, and it holds as many mip levels as it announces.
pub open spec fn finished(st: ChunkStateView, consumed: int) -> Result<ItpView, ReadError> {
    match st.image {
        None => Err(ReadError::NoHeader),
        Some(image) => if st.palette is Some && image.kind != PixelKind::Indexed {
            Err(ReadError::PalettePresent)
        } else if st.palette is None && image.kind == PixelKind::Indexed {
            Err(ReadError::PaletteMissing)
        } else if consumed != st.file_size {
            Err(ReadError::WrongSize)
        } else if st.n_mip != st.current_mip {
            Err(ReadError::WrongMips { expected: st.n_mip as usize, value: st.current_mip as usize })
        } else {
            Ok(
                ItpView {
                    status: st.status,
                    image: if st.palette is Some {
                        ImageView { palette: st.palette, ..image }
                    } else {
                        image
                    },
                },
            )
        },
    }
}

/// The image that a file of revision 3 holds.
pub open spec fn revision_3(s: Seq<u8>) -> Result<ItpView, ReadError> {
    if !avail(s, 0, 4) {
        Err(ReadError::UnexpectedEnd)
    } else if le32(s, 0) != ITP_MAGIC {
        Err(ReadError::NotItp)
    } else {
        match chunks(s, 4, first_state()) {
            Err(e) => Err(e),
            Ok((st, end)) => finished(st, end),
        }
    }
}

/// The flag word that the first four bytes of a legacy file stand for: that of a
/// fixed header code, or the bytes themselves where they have the bit of a flag word.
pub open spec fn legacy_flags(head: u32) -> Option<u32> {
    if spec_gen1_to_flags(head) is Some {
        spec_gen1_to_flags(head)
    } else if head & FLAGS_PRESENT != 0 {
        Some(head)
    } else {
        None
    }
}

/// Where the palette of a legacy file starts and how many colours it has. Two of
/// the fixed header codes imply 256 colours; otherwise the number is stored.
pub open spec fn legacy_palette(s: Seq<u8>, head: u32) -> Result<(int, nat), ReadError> {
    if head == 1000 || head == 1002 {
        Ok((12, 256))
    } else if !avail(s, 12, 4) {
        Err(ReadError::UnexpectedEnd)
    } else {
        Ok((16, le32(s, 12) as nat))
    }
}

/// The image that a legacy file of another format than the tile dictionary holds:
/// the dimensions, the palette if the format is indexed, and one mip level.
pub open spec fn legacy_image(s: Seq<u8>, head: u32, status: ItpStatus) -> Result<ItpView, ReadError> {
    match empty_image(status) {
        Err(e) => Err(e),
        Ok(image) => if !avail(s, 4, 8) {
            Err(ReadError::UnexpectedEnd)
        } else if image.kind == PixelKind::Indexed {
            match legacy_palette(s, head) {
                Err(e) => Err(e),
                Ok((at, size)) => match palette_at(s, at, status, false, size) {
                    Err(e) => Err(e),
                    Ok((pal, p)) => match idat_at(
                        s,
                        p,
                        status,
                        ImageView { palette: Some(pal), ..image },
                        le32(s, 4),
                        le32(s, 8),
                    ) {
                        Err(e) => Err(e),
                        Ok((full, _)) => Ok(ItpView { status, image: full }),
                    },
                },
            }
        } else {
            match idat_at(s, 12, status, image, le32(s, 4), le32(s, 8)) {
                Err(e) => Err(e),
                Ok((full, _)) => Ok(ItpView { status, image: full }),
            }
        },
    }
}

/// The image that a file holds.
///
/// The first four bytes tell the revision: the magic of revision 3, one of the
/// fixed header codes, or a flag word. A file that starts like a PNG or a DDS
/// file, or with none of these, is no ITP file.
pub open spec fn spec_read(s: Seq<u8>) -> Result<ItpView, ReadError> {
    if !avail(s, 0, 4) {
        Err(ReadError::UnexpectedEnd)
    } else if le32(s, 0) == PNG_MAGIC || le32(s, 0) == DDS_MAGIC {
        Err(ReadError::NotItp)
    } else if le32(s, 0) == ITP_MAGIC {
        revision_3(s)
    } else {
        match legacy_flags(le32(s, 0)) {
            None => Err(ReadError::NotItp),
            Some(flags) => match spec_status_from_flags(flags) {
                Err(e) => Err(e),
                Ok(status) => if status.base_format == BaseFormatType::Indexed3 {
                    ccpi_image(s, 4, status)
                } else {
                    legacy_image(s, le32(s, 0), status)
                },
            },
        }
    }
}

/// Reads a 16-bit field that holds a truth value.
fn get_flag(data: &[u8], at: usize, field: Field) -> (r: Result<bool, ReadError>)
    ensures
        match r {
            Ok(b) => expect_code(data@, at as int, field, le16(data@, at as int) <= 1) is None && b == (le16(
                data@,
                at as int,
            ) == 1),
            Err(e) => expect_code(data@, at as int, field, le16(data@, at as int) <= 1) == Some(e),
        },
{
    match get_u16(data, at) {
        Err(e) => Err(e),
        Ok(0) => Ok(false),
        Ok(1) => Ok(true),
        Ok(v) => Err(ReadError::Invalid { field, value: v as u32 }),
    }
}

/// The value that a number stands for, or the error for a field whose number stands for nothing.
fn invalid<T>(found: Option<T>, field: Field, value: u16) -> (r: Result<T, ReadError>)
    ensures
        match found {
            Some(v) => r == Ok::<T, ReadError>(v),
            None => r == Err::<T, ReadError>(ReadError::Invalid { field, value: value as u32 }),
        },
{
    match found {
        Some(v) => Ok(v),
        None => Err(ReadError::Invalid { field, value: value as u32 }),
    }
}

/// Reads the body of a header chunk.
pub fn read_ihdr(data: &[u8], at: usize, st: ChunkState) -> (r: Result<(ChunkState, usize), ReadError>)
    requires
        at <= data@.len(),
    ensures
        match r {
            Ok((next, end)) => ihdr(data@, at as int, st@) == Ok::<(ChunkStateView, int), ReadError>(
                (next@, end as int),
            ) && at <= end <= data@.len() && next.current_mip == st.current_mip,
            Err(e) => ihdr(data@, at as int, st@) == Err::<(ChunkStateView, int), ReadError>(e),
        },
{
    let len: usize = data.len();
    if st.image.is_some() {
        return Err(ReadError::RepeatedHeader);
    }
    check_u32(data, at, 32)?;
    if len - at < 16 {
        return Err(ReadError::UnexpectedEnd);
    }
    let width: u32 = get_u32(data, at + 4)?;
    let height: u32 = get_u32(data, at + 8)?;
    let file_size: u32 = get_u32(data, at + 12)?;
    let v: u16 = get_u16(data, at + 16)?;
    let itp_revision = invalid(ItpRevision::from_u16(v), Field::IhdrItpRevision, v)?;
    let v: u16 = get_u16(data, at + 18)?;
    let base_format = invalid(BaseFormatType::from_u16(v), Field::IhdrBaseFormat, v)?;
    let v: u16 = get_u16(data, at + 20)?;
    let pixel_format = invalid(PixelFormatType::from_u16(v), Field::IhdrPixelFormat, v)?;
    let v: u16 = get_u16(data, at + 22)?;
    let pixel_bit_format = invalid(PixelBitFormatType::from_u16(v), Field::IhdrPixelBitFormat, v)?;
    let v: u16 = get_u16(data, at + 24)?;
    let compression = invalid(CompressionType::from_u16(v), Field::IhdrCompression, v)?;
    let v: u16 = get_u16(data, at + 26)?;
    let multi_plane = invalid(MultiPlaneType::from_u16(v), Field::IhdrMultiPlane, v)?;
    check_u32(data, at + 28, 0)?;
    let status = ItpStatus {
        itp_revision,
        base_format,
        pixel_format,
        pixel_bit_format,
        compression,
        multi_plane,
        mipmap: st.status.mipmap,
        use_alpha: st.status.use_alpha,
    };
    let image = make_data(&status)?;
    Ok(
        (
            ChunkState {
                width,
                height,
                file_size,
                n_mip: st.n_mip,
                current_mip: st.current_mip,
                status,
                palette: st.palette,
                image: Some(image),
            },
            at + 32,
        ),
    )
}

/// Reads the body of a mipmap chunk.
pub fn read_imip(data: &[u8], at: usize, st: ChunkState) -> (r: Result<(ChunkState, usize), ReadError>)
    requires
        at <= data@.len(),
    ensures
        match r {
            Ok((next, end)) => imip(data@, at as int, st@) == Ok::<(ChunkStateView, int), ReadError>(
                (next@, end as int),
            ) && at <= end <= data@.len() && next.current_mip == st.current_mip,
            Err(e) => imip(data@, at as int, st@) == Err::<(ChunkStateView, int), ReadError>(e),
        },
{
    let len: usize = data.len();
    check_u32(data, at, 12)?;
    let v: u16 = get_u16(data, at + 4)?;
    let mipmap = invalid(MipmapType::from_u16(v), Field::ImipMipmap, v)?;
    let count: u16 = get_u16(data, at + 6)?;
    check_u32(data, at + 8, 0)?;
    let status = ItpStatus {
        itp_revision: st.status.itp_revision,
        base_format: st.status.base_format,
        pixel_format: st.status.pixel_format,
        pixel_bit_format: st.status.pixel_bit_format,
        compression: st.status.compression,
        multi_plane: st.status.multi_plane,
        mipmap,
        use_alpha: st.status.use_alpha,
    };
    Ok(
        (
            ChunkState {
                width: st.width,
                height: st.height,
                file_size: st.file_size,
                n_mip: count as usize + 1,
                current_mip: st.current_mip,
                status,
                palette: st.palette,
                image: st.image,
            },
            at + 12,
        ),
    )
}

/// Reads the body of a hash chunk.
pub fn read_ihas(data: &[u8], at: usize, st: ChunkState) -> (r: Result<(ChunkState, usize), ReadError>)
    requires
        at <= data@.len(),
    ensures
        match r {
            Ok((next, end)) => ihas(data@, at as int, st@) == Ok::<(ChunkStateView, int), ReadError>(
                (next@, end as int),
            ) && at <= end <= data@.len() && next.current_mip == st.current_mip,
            Err(e) => ihas(data@, at as int, st@) == Err::<(ChunkStateView, int), ReadError>(e),
        },
{
    let len: usize = data.len();
    check_u32(data, at, 16)?;
    check_u32(data, at + 4, 0)?;
    if len - at < 16 {
        return Err(ReadError::UnexpectedEnd);
    }
    Ok((st, at + 16))
}

/// Reads the body of a palette chunk.
pub fn read_ipal_chunk(data: &[u8], at: usize, st: ChunkState) -> (r: Result<(ChunkState, usize), ReadError>)
    requires
        at <= data@.len(),
    ensures
        match r {
            Ok((next, end)) => ipal(data@, at as int, st@) == Ok::<(ChunkStateView, int), ReadError>(
                (next@, end as int),
            ) && at <= end <= data@.len() && next.current_mip == st.current_mip,
            Err(e) => ipal(data@, at as int, st@) == Err::<(ChunkStateView, int), ReadError>(e),
        },
{
    let len: usize = data.len();
    check_u32(data, at, 8)?;
    let is_external = get_flag(data, at + 4, Field::IpalIsExternal)?;
    let size: u16 = get_u16(data, at + 6)?;
    let (pal, end) = read_ipal(data, at + 8, &st.status, is_external, size as usize)?;
    Ok(
        (
            ChunkState {
                width: st.width,
                height: st.height,
                file_size: st.file_size,
                n_mip: st.n_mip,
                current_mip: st.current_mip,
                status: st.status,
                palette: Some(pal),
                image: st.image,
            },
            end,
        ),
    )
}

/// Reads the body of an alpha chunk.
pub fn read_ialp(data: &[u8], at: usize, st: ChunkState) -> (r: Result<(ChunkState, usize), ReadError>)
    requires
        at <= data@.len(),
    ensures
        match r {
            Ok((next, end)) => ialp(data@, at as int, st@) == Ok::<(ChunkStateView, int), ReadError>(
                (next@, end as int),
            ) && at <= end <= data@.len() && next.current_mip == st.current_mip,
            Err(e) => ialp(data@, at as int, st@) == Err::<(ChunkStateView, int), ReadError>(e),
        },
{
    let len: usize = data.len();
    check_u32(data, at, 8)?;
    let use_alpha = get_flag(data, at + 4, Field::IalpUseAlpha)?;
    check_u16(data, at + 6, 0)?;
    let status = ItpStatus {
        itp_revision: st.status.itp_revision,
        base_format: st.status.base_format,
        pixel_format: st.status.pixel_format,
        pixel_bit_format: st.status.pixel_bit_format,
        compression: st.status.compression,
        multi_plane: st.status.multi_plane,
        mipmap: st.status.mipmap,
        use_alpha: Some(use_alpha),
    };
    Ok(
        (
            ChunkState {
                width: st.width,
                height: st.height,
                file_size: st.file_size,
                n_mip: st.n_mip,
                current_mip: st.current_mip,
                status,
                palette: st.palette,
                image: st.image,
            },
            at + 8,
        ),
    )
}

/// Reads the body of a data chunk.
pub fn read_idat_chunk(data: &[u8], at: usize, st: ChunkState) -> (r: Result<(ChunkState, usize), ReadError>)
    requires
        at <= data@.len(),
        st.current_mip <= at,
    ensures
        match r {
            Ok((next, end)) => idat(data@, at as int, st@) == Ok::<(ChunkStateView, int), ReadError>(
                (next@, end as int),
            ) && at <= end <= data@.len() && next.current_mip <= end,
            Err(e) => idat(data@, at as int, st@) == Err::<(ChunkStateView, int), ReadError>(e),
        },
{
    let len: usize = data.len();
    check_u32(data, at, 8)?;
    check_u16(data, at + 4, 0)?;
    check_u16(data, at + 6, (st.current_mip % 0x1_0000) as u16)?;
    let image = match st.image {
        Some(image) => image,
        None => {
            return Err(ReadError::NoHeader);
        },
    };
    let w: u32 = mip_size(st.width, st.current_mip);
    let h: u32 = mip_size(st.height, st.current_mip);
    let (next, end) = read_idat(data, at + 8, &st.status, image, w, h)?;
    Ok(
        (
            ChunkState {
                width: st.width,
                height: st.height,
                file_size: st.file_size,
                n_mip: st.n_mip,
                current_mip: st.current_mip + 1,
                status: st.status,
                palette: st.palette,
                image: Some(next),
            },
            end,
        ),
    )
}

/// Reads the body at `at` of a chunk with the tag `tag`.
pub fn read_chunk_body(data: &[u8], at: usize, tag: u32, st: ChunkState) -> (r: Result<(ChunkState, usize), ReadError>)
    requires
        at <= data@.len(),
        st.current_mip <= at,
    ensures
        match r {
            Ok((next, end)) => chunk_body(data@, at as int, tag, st@) == Ok::<(ChunkStateView, int), ReadError>(
                (next@, end as int),
            ) && at <= end <= data@.len() && next.current_mip <= end,
            Err(e) => chunk_body(data@, at as int, tag, st@) == Err::<(ChunkStateView, int), ReadError>(e),
        },
{
    if tag == IHDR {
        read_ihdr(data, at, st)
    } else if tag == IMIP {
        read_imip(data, at, st)
    } else if tag == IHAS {
        read_ihas(data, at, st)
    } else if tag == IPAL {
        read_ipal_chunk(data, at, st)
    } else if tag == IALP {
        read_ialp(data, at, st)
    } else if tag == IDAT {
        read_idat_chunk(data, at, st)
    } else if tag == IEXT {
        Err(ReadError::Todo { what: Unsupported::IextChunk })
    } else {
        Err(ReadError::BadChunk { fourcc: tag })
    }
}

/// Puts together what the chunks have given.
pub fn finish(st: ChunkState, consumed: usize) -> (r: Result<Itp, ReadError>)
    ensures
        match r {
            Ok(itp) => finished(st@, consumed as int) == Ok::<ItpView, ReadError>(itp@),
            Err(e) => finished(st@, consumed as int) == Err::<ItpView, ReadError>(e),
        },
{
    let image = match st.image {
        Some(image) => image,
        None => {
            return Err(ReadError::NoHeader);
        },
    };
    let data = match st.palette {
        Some(pal) => match image {
            ImageData::Indexed(_, d) => ImageData::Indexed(pal, d),
            _ => {
                return Err(ReadError::PalettePresent);
            },
        },
        None => match image {
            ImageData::Indexed(_, _) => {
                return Err(ReadError::PaletteMissing);
            },
            other => other,
        },
    };
    if consumed as u64 != st.file_size as u64 {
        return Err(ReadError::WrongSize);
    }
    if st.n_mip != st.current_mip {
        return Err(ReadError::WrongMips { expected: st.n_mip, value: st.current_mip });
    }
    Ok(Itp { status: st.status, data })
}

/// Reads a file of revision 3: the magic, and the chunks up to the end chunk.
pub fn read_revision_3(data: &[u8]) -> (r: Result<Itp, ReadError>)
    ensures
        match r {
            Ok(itp) => revision_3(data@) == Ok::<ItpView, ReadError>(itp@),
            Err(e) => revision_3(data@) == Err::<ItpView, ReadError>(e),
        },
{
    let len: usize = data.len();
    let magic: u32 = get_u32(data, 0)?;
    if magic != ITP_MAGIC {
        return Err(ReadError::NotItp);
    }
    let mut st = ChunkState {
        width: 0,
        height: 0,
        file_size: 0,
        n_mip: 1,
        current_mip: 0,
        status: ItpStatus {
            itp_revision: ItpRevision::V3,
            base_format: BaseFormatType::Argb32,
            compression: CompressionType::Uncompressed,
            pixel_format: PixelFormatType::Linear,
            pixel_bit_format: PixelBitFormatType::Argb32,
            multi_plane: MultiPlaneType::SinglePlane,
            mipmap: MipmapType::NoMipmap,
            use_alpha: None,
        },
        palette: None,
        image: None,
    };
    let mut at: usize = 4;
    loop
        invariant
            4 <= at <= len,
            len == data@.len(),
            st.current_mip <= at,
            avail(data@, 0, 4),
            le32(data@, 0) == ITP_MAGIC,
            chunks(data@, 4, first_state()) == chunks(data@, at as int, st@),
        decreases len - at,
    {
        proof {
            reveal(chunks);
        }
        if len - at < 8 {
            return Err(ReadError::UnexpectedEnd);
        }
        let tag: u32 = get_u32(data, at)?;
        if tag == IEND {
            return finish(st, at + 8);
        }
        let (next, end) = read_chunk_body(data, at + 8, tag, st)?;
        st = next;
        at = end;
    }
}

/// Reads a legacy file of another format than the tile dictionary.
pub fn read_legacy(data: &[u8], head: u32, status: ItpStatus) -> (r: Result<Itp, ReadError>)
    requires
        avail(data@, 0, 4),
    ensures
        match r {
            Ok(itp) => legacy_image(data@, head, status) == Ok::<ItpView, ReadError>(itp@),
            Err(e) => legacy_image(data@, head, status) == Err::<ItpView, ReadError>(e),
        },
{
    let len: usize = data.len();
    let image = make_data(&status)?;
    if len - 4 < 8 {
        return Err(ReadError::UnexpectedEnd);
    }
    let width: u32 = get_u32(data, 4)?;
    let height: u32 = get_u32(data, 8)?;
    match image {
        ImageData::Indexed(_, d) => {
            let (at, size): (usize, usize) = if head == 1000 || head == 1002 {
                (12, 256)
            } else {
                (16, get_u32(data, 12)? as usize)
            };
            let (pal, p) = read_ipal(data, at, &status, false, size)?;
            let (full, _) = read_idat(data, p, &status, ImageData::Indexed(pal, d), width, height)?;
            Ok(Itp { status, data: full })
        },
        other => {
            let (full, _) = read_idat(data, 12, &status, other, width, height)?;
            Ok(Itp { status, data: full })
        },
    }
}

/// Reads an ITP file of any revision.
pub fn read(data: &[u8]) -> (r: Result<Itp, ReadError>)
    ensures
        match r {
            Ok(itp) => spec_read(data@) == Ok::<ItpView, ReadError>(itp@),
            Err(e) => spec_read(data@) == Err::<ItpView, ReadError>(e),
        },
{
    let head: u32 = get_u32(data, 0)?;
    if head == PNG_MAGIC || head == DDS_MAGIC {
        return Err(ReadError::NotItp);
    }
    if head == ITP_MAGIC {
        return read_revision_3(data);
    }
    let flags: u32 = match gen1_to_flags(head) {
        Some(flags) => flags,
        None => if head & FLAGS_PRESENT != 0 {
            head
        } else {
            return Err(ReadError::NotItp);
        },
    };
    let status = status_from_flags(flags)?;
    if status.base_format == BaseFormatType::Indexed3 {
        read_ccpi(data, 4, status)
    } else {
        read_legacy(data, head, status)
    }
}

/// A data chunk counts as one mip level read and no other chunk counts; a mipmap
/// chunk sets the number of levels announced, one more than it stores, and no
/// other chunk changes it.
pub proof fn lemma_chunk_counts(s: Seq<u8>, at: int, tag: u32, st: ChunkStateView)
    requires
        chunk_body(s, at, tag, st) is Ok,
    ensures
        chunk_body(s, at, tag, st).unwrap().0.current_mip == st.current_mip + (if tag == IDAT {
            1int
        } else {
            0int
        }),
        chunk_body(s, at, tag, st).unwrap().0.n_mip == (if tag == IMIP {
            le16(s, at + 6) + 1
        } else {
            st.n_mip
        }),
{
}

/// A file of revision 3 whose chunks are sound in themselves is read if and only
/// if it holds as many mip levels as it announces, and is refused for the wrong
/// number of mip levels otherwise.
pub proof fn lemma_mip_consistency(st: ChunkStateView, consumed: int)
    requires
        st.image is Some,
        st.palette is Some <==> st.image.unwrap().kind == PixelKind::Indexed,
        consumed == st.file_size,
    ensures
        finished(st, consumed) is Ok <==> st.n_mip == st.current_mip,
        st.n_mip != st.current_mip ==> finished(st, consumed) == Err::<ItpView, ReadError>(
            ReadError::WrongMips { expected: st.n_mip as usize, value: st.current_mip as usize },
        ),
{
}

/// The levels that a state holds are those that were read, of the kind that the
/// formats of the status name, each of the size of the header halved as often as
/// its place says, in elements of the kind.
pub open spec fn levels_measure(st: ChunkStateView) -> bool {
    match st.image {
        None => st.current_mip == 0,
        Some(image) => empty_image(st.status) is Ok && empty_image(st.status).unwrap().kind == image.kind && (
        image.kind != PixelKind::Indexed ==> image.palette is None) && image.levels.len() == st.current_mip
            && forall|i: int|
            0 <= i < st.current_mip ==> (#[trigger] image.levels[i]).width == mip_dim(st.width, i) / (
            image.kind.scale() as u32) && image.levels[i].height == mip_dim(st.height, i) / (
            image.kind.scale() as u32),
    }
}

/// A chunk keeps the levels and their measures in step with the count of levels read.
pub proof fn lemma_chunk_measures(s: Seq<u8>, at: int, tag: u32, st: ChunkStateView)
    requires
        levels_measure(st),
        chunk_body(s, at, tag, st) is Ok,
    ensures
        levels_measure(chunk_body(s, at, tag, st).unwrap().0),
{
    let next = chunk_body(s, at, tag, st).unwrap().0;
    if tag == IDAT {
        let image = st.image.unwrap();
        let after = next.image.unwrap();
        assert(after.kind == image.kind);
        assert(after.levels.len() == image.levels.len() + 1);
        assert forall|i: int| 0 <= i < next.current_mip implies (#[trigger] after.levels[i]).width == mip_dim(
            next.width,
            i,
        ) / (after.kind.scale() as u32) && after.levels[i].height == mip_dim(next.height, i) / (
        after.kind.scale() as u32) by {
            if i < st.current_mip {
                assert(after.levels[i] == image.levels[i]);
            }
        }
    }
}

/// The chunks of a file keep the levels and their measures in step with the count
/// of levels read.
pub proof fn lemma_chunks_measure(s: Seq<u8>, at: int, st: ChunkStateView)
    requires
        levels_measure(st),
        chunks(s, at, st) is Ok,
    ensures
        levels_measure(chunks(s, at, st).unwrap().0),
    decreases s.len() - at,
{
    reveal(chunks);
    if le32(s, at) != IEND {
        let (next, end) = chunk_body(s, at + 8, le32(s, at), st).unwrap();
        lemma_chunk_measures(s, at + 8, le32(s, at), st);
        lemma_chunks_measure(s, end, next);
    }
}

/// An image that is read from a file of revision 3 is of the kind that the formats
/// of its status name, has a palette if and only if it is indexed, and holds as
/// many mip levels as the file announces, of which level `i` has the size of the
/// header halved `i` times, in elements of its kind.
pub proof fn lemma_read_mips(s: Seq<u8>)
    requires
        revision_3(s) is Ok,
    ensures
        chunks(s, 4, first_state()) is Ok,
        empty_image(revision_3(s).unwrap().status) is Ok,
        empty_image(revision_3(s).unwrap().status).unwrap().kind == revision_3(s).unwrap().image.kind,
        revision_3(s).unwrap().image.palette is Some <==> revision_3(s).unwrap().image.kind == PixelKind::Indexed,
        chunks(s, 4, first_state()).unwrap().0.n_mip == chunks(s, 4, first_state()).unwrap().0.current_mip,
        revision_3(s).unwrap().image.levels.len() == chunks(s, 4, first_state()).unwrap().0.n_mip,
        forall|i: int|
            0 <= i < revision_3(s).unwrap().image.levels.len() ==> (#[trigger] revision_3(
                s,
            ).unwrap().image.levels[i]).width == mip_dim(chunks(s, 4, first_state()).unwrap().0.width, i) / (
            revision_3(s).unwrap().image.kind.scale() as u32) && revision_3(s).unwrap().image.levels[i].height
                == mip_dim(chunks(s, 4, first_state()).unwrap().0.height, i) / (revision_3(
                s,
            ).unwrap().image.kind.scale() as u32),
{
    lemma_chunks_measure(s, 4, first_state());
}

} // verus!
