//! Encoding of ITP files.

use super::{
    BaseFormatType, CompressionType, ImageData, ImageView, Itp, ItpRevision, ItpStatus, ItpView, MipmapType, Palette,
    PaletteView, PixelBitFormatType, PixelFormatType, PixelKind, raster_values,
};
use super::ccpi::{ccpi_file, lemma_level_indices, level_indices, write_ccpi};
use super::compress::{compress, COMPRESS_LIMIT, compressed};
use super::fast_mode::{encode_fast_mode, fast_mode_bytes};
use super::flags::{flags_to_gen1, spec_flags_to_gen1, spec_status_to_flags, status_to_flags};
use super::read::{
    IALP, IDAT, IEND, IHDR, IMIP, IPAL, is_power_of_two, ITP_MAGIC, lemma_strip_volume, swap_rb, swap_red_blue,
    tiles_ok, Unsupported,
};
use crate::bytes::{le_bytes, lemma_le_bytes_len, Pixel, push_le};
use crate::permute::{
    lemma_morton_index, lemma_swizzle_inverse, lemma_tile_volume, morton, morton_index, swizzle, swizzle_index,
};
use crate::raster::{Raster, RasterView};
use vstd::arithmetic::div_mod::lemma_fundamental_div_mod_converse;
use vstd::prelude::*;

verus! {

/// Why an image cannot be written.
#[derive(Debug, Clone, Copy, PartialEq, Eq)]
pub enum WriteError {
    /// The revision asked for cannot express the status.
    Unrepresentable,
    /// The format and revision have no place for the name of an external palette.
    ExternalPalette,
    /// A tile holds more than 16 different palette indices.
    AFastMode2Colors,
    /// The tile-dictionary format stores indexed images only.
    CcpiNotIndexed,
    /// The tile-dictionary format stores one mip level only.
    CcpiMipmaps,
    /// The tile-dictionary format knows no compression but the first kind.
    CcpiCompression,
    /// The pixel order cannot tile an image of these dimensions.
    Dimensions { width: usize, height: usize },
    /// Indexed pixels come with a base format that is not indexed.
    PixelFormat { bft: BaseFormatType, pbft: PixelBitFormatType },
    /// The image has no mip level.
    Empty,
    /// Data that is to be compressed is longer than `COMPRESS_LIMIT`, or a file of
    /// revision 3 is longer than its header can say.
    TooLarge,
    /// The image asks for a part of the format that is not encoded.
    Todo { what: Unsupported },
}

/// The lowest 32 bits of `n`.
pub open spec fn low32(n: int) -> u32 {
    (n % 0x1_0000_0000) as u32
}

/// The lowest 16 bits of `n`.
pub open spec fn low16(n: int) -> u16 {
    (n % 0x1_0000) as u16
}

/// Cuts a number to its lowest 32 bits.
pub fn to_low32(n: u128) -> (v: u32)
    ensures
        v == low32(n as int),
{
    (n % 0x1_0000_0000) as u32
}

/// Cuts a number to its lowest 16 bits.
pub fn to_low16(n: u128) -> (v: u16)
    ensures
        v == low16(n as int),
{
    (n % 0x1_0000) as u16
}

/// The four bytes of the 32-bit number `v`, lowest first.
pub open spec fn bytes32(v: u32) -> Seq<u8> {
    seq![(v % 256) as u8, ((v / 0x100) % 256) as u8, ((v / 0x1_0000) % 256) as u8, (v / 0x100_0000) as u8]
}

/// The two bytes of the 16-bit number `v`, lowest first.
pub open spec fn bytes16(v: u16) -> Seq<u8> {
    seq![(v % 256) as u8, (v / 0x100) as u8]
}

/// The bytes of a number are its lowest bytes, lowest first.
pub proof fn lemma_bytes_of_numbers(v: u32, w: u16)
    ensures
        bytes32(v) == le_bytes(v as nat, 4),
        bytes16(w) == le_bytes(w as nat, 2),
{
    reveal_with_fuel(le_bytes, 5);
    assert(bytes32(v) =~= le_bytes(v as nat, 4));
    assert(bytes16(w) =~= le_bytes(w as nat, 2));
}

/// Appends a 32-bit number.
pub fn put_u32(out: &mut Vec<u8>, v: u32)
    ensures
        final(out)@ == old(out)@ + bytes32(v),
{
    proof {
        lemma_bytes_of_numbers(v, 0);
    }
    push_le(out, v as u128, 4);
}

/// Appends a 16-bit number.
pub fn put_u16(out: &mut Vec<u8>, v: u16)
    ensures
        final(out)@ == old(out)@ + bytes16(v),
{
    proof {
        lemma_bytes_of_numbers(0, v);
    }
    push_le(out, v as u128, 2);
}

/// Appends a copy of `bytes`.
pub fn put_slice(out: &mut Vec<u8>, bytes: &[u8])
    ensures
        final(out)@ == old(out)@ + bytes@,
{
    let n: usize = bytes.len();
    let mut i: usize = 0;
    while i < n
        invariant
            i <= n,
            n == bytes@.len(),
            out@ == old(out)@ + bytes@.subrange(0, i as int),
        decreases n - i,
    {
        proof {
            assert((old(out)@ + bytes@.subrange(0, i as int)).push(bytes@[i as int]) =~= old(out)@ + bytes@.subrange(
                0,
                i + 1,
            ));
        }
        out.push(bytes[i]);
        i += 1;
    }
    assert(bytes@.subrange(0, n as int) =~= bytes@);
}

/// `data` as it is stored under the compression `comp`.
pub open spec fn maybe_compressed(comp: CompressionType, data: Seq<u8>) -> Seq<u8> {
    if comp == CompressionType::Uncompressed {
        data
    } else {
        compressed(data)
    }
}

/// Whether `len` bytes can be stored under the compression `comp`: any number
/// uncompressed, and no more than `COMPRESS_LIMIT` compressed.
pub open spec fn storable(comp: CompressionType, len: nat) -> bool {
    comp == CompressionType::Uncompressed || len <= COMPRESS_LIMIT
}

/// Tests whether `len` bytes can be stored under the compression `comp`.
pub fn is_storable(comp: CompressionType, len: usize) -> (b: bool)
    ensures
        b == storable(comp, len as nat),
{
    match comp {
        CompressionType::Uncompressed => true,
        _ => len <= COMPRESS_LIMIT,
    }
}

/// Stores `data` under the compression `comp`.
pub fn maybe_compress(comp: CompressionType, data: Vec<u8>) -> (out: Vec<u8>)
    requires
        storable(comp, data@.len()),
    ensures
        out@ == maybe_compressed(comp, data@),
{
    match comp {
        CompressionType::Uncompressed => data,
        _ => compress(data.as_slice()),
    }
}

/// The row-major position of the element that is stored at position `k` on disk.
pub open spec fn store_index(pf: PixelFormatType, w: nat, h: nat, k: int) -> int {
    match pf {
        PixelFormatType::Linear => k,
        PixelFormatType::Pfp_1 => swizzle_index((w / 16) as int, 8, 16, k),
        PixelFormatType::Pfp_2 => swizzle_index((w / 32) as int, 32, 32, k),
        PixelFormatType::Pfp_3 => morton_index(h, w, k as nat) as int,
        PixelFormatType::Pfp_4 => swizzle_index(w as int, 8, 1, morton_index(w * h / 8, 8, k as nat) as int),
    }
}

/// Every position on disk takes its element from a row-major position.
pub proof fn lemma_store_index(pf: PixelFormatType, w: nat, h: nat, k: int)
    requires
        tiles_ok(pf, w, h),
        0 <= k < w * h,
    ensures
        0 <= store_index(pf, w, h, k) < w * h,
{
    match pf {
        PixelFormatType::Linear => {},
        PixelFormatType::Pfp_1 => {
            lemma_tile_volume(h as int, w as int, 8, 16);
            if w / 16 > 0 {
                lemma_swizzle_inverse(h as int / 8, w as int / 16, 8, 16, k);
            }
        },
        PixelFormatType::Pfp_2 => {
            lemma_tile_volume(h as int, w as int, 32, 32);
            if w / 32 > 0 {
                lemma_swizzle_inverse(h as int / 32, w as int / 32, 32, 32, k);
            }
        },
        PixelFormatType::Pfp_3 => {
            assert(w * h == h * w) by (nonlinear_arith);
            lemma_morton_index(h, w, k as nat);
        },
        PixelFormatType::Pfp_4 => {
            lemma_strip_volume(w, h);
            lemma_tile_volume(h as int, w as int, 8, 1);
            lemma_morton_index(w * h / 8, 8, k as nat);
            if w > 0 {
                lemma_swizzle_inverse(h as int / 8, w as int, 8, 1, morton_index(w * h / 8, 8, k as nat) as int);
            }
        },
    }
}

/// The elements of a raster in the order `pixel_format` on disk, or `None` where
/// that order cannot tile the raster.
pub fn do_swizzle<T: Copy>(raster: &Raster<T>, pixel_format: PixelFormatType) -> (r: Option<Vec<T>>)
    ensures
        r is Some <==> tiles_ok(pixel_format, raster@.width, raster@.height),
        r matches Some(out) ==> out@.len() == raster@.data.len() && forall|k: int|
            0 <= k < out@.len() ==> #[trigger] out@[k] == raster@.data[store_index(
                pixel_format,
                raster@.width,
                raster@.height,
                k,
            )],
{
    let width: usize = raster.width();
    let height: usize = raster.height();
    let pixels: &[T] = raster.as_slice();
    let n: usize = pixels.len();
    let mut data: Vec<T> = Vec::with_capacity(n);
    let mut i: usize = 0;
    while i < n
        invariant
            i <= n,
            n == pixels@.len(),
            data@.len() == i,
            forall|k: int| 0 <= k < i ==> #[trigger] data@[k] == pixels@[k],
        decreases n - i,
    {
        data.push(pixels[i]);
        i += 1;
    }
    assert(data@ =~= pixels@);
    match pixel_format {
        PixelFormatType::Linear => {},
        PixelFormatType::Pfp_1 => {
            if width % 16 != 0 || height % 8 != 0 {
                return None;
            }
            swizzle(&mut data, height, width, 8, 16);
            assert(forall|k: int|
                0 <= k < n ==> #[trigger] data@[k] == pixels@[store_index(pixel_format, width as nat, height as nat, k)]);
        },
        PixelFormatType::Pfp_2 => {
            if width % 32 != 0 || height % 32 != 0 {
                return None;
            }
            swizzle(&mut data, height, width, 32, 32);
            assert(forall|k: int|
                0 <= k < n ==> #[trigger] data@[k] == pixels@[store_index(pixel_format, width as nat, height as nat, k)]);
        },
        PixelFormatType::Pfp_3 => {
            if !is_power_of_two(width) || !is_power_of_two(height) {
                return None;
            }
            morton(&mut data, height, width);
            assert(forall|k: int|
                0 <= k < n ==> #[trigger] data@[k] == pixels@[store_index(pixel_format, width as nat, height as nat, k)]);
        },
        PixelFormatType::Pfp_4 => {
            if height % 8 != 0 || !is_power_of_two(n / 8) {
                return None;
            }
            proof {
                lemma_strip_volume(width as nat, height as nat);
            }
            swizzle(&mut data, height, width, 8, 1);
            let ghost mid = data@;
            morton(&mut data, n / 8, 8);
            proof {
                assert forall|k: int| 0 <= k < n implies #[trigger] data@[k] == pixels@[store_index(
                    pixel_format,
                    width as nat,
                    height as nat,
                    k,
                )] by {
                    lemma_morton_index((n / 8) as nat, 8, k as nat);
                    let j = morton_index((n / 8) as nat, 8, k as nat) as int;
                    assert(0 <= j < n);
                    assert(data@[k] == mid[j]);
                    assert(mid[j] == pixels@[swizzle_index(width as int, 8, 1, j)]);
                }
            }
        },
    }
    Some(data)
}

/// The bytes of `values`, each stored in `size` bytes.
pub open spec fn pixel_bytes(values: Seq<nat>, size: nat) -> Seq<u8> {
    Seq::new(values.len() * size, |j: int| le_bytes(values[j / size as int], size)[j % size as int])
}

/// The values of a level in the order `pf` on disk.
pub open spec fn stored_values(level: RasterView<nat>, pf: PixelFormatType) -> Seq<nat> {
    Seq::new(level.data.len(), |k: int| level.data[store_index(pf, level.width, level.height, k)])
}

/// One mip level as it is stored: its elements in the order of the pixel format,
/// each in `size` bytes, under the compression of the status. A level that the
/// pixel format cannot tile is not stored, nor one too long to compress.
pub open spec fn level_bytes(level: RasterView<nat>, size: nat, pf: PixelFormatType, comp: CompressionType) -> Result<
    Seq<u8>,
    WriteError,
> {
    if !tiles_ok(pf, level.width, level.height) {
        Err(WriteError::Dimensions { width: level.width as usize, height: level.height as usize })
    } else if !storable(comp, level.data.len() * size) {
        Err(WriteError::TooLarge)
    } else {
        Ok(maybe_compressed(comp, pixel_bytes(stored_values(level, pf), size)))
    }
}

/// The bytes of the numbers that `pixels` hold.
pub fn encode_pixels<T: Pixel>(pixels: &Vec<T>) -> (out: Vec<u8>)
    ensures
        out@ == pixel_bytes(Seq::new(pixels@.len(), |i: int| pixels@[i].value()), T::size()),
{
    let size: usize = T::byte_len();
    let n: usize = pixels.len();
    let ghost values = Seq::new(pixels@.len(), |i: int| pixels@[i].value());
    let mut out: Vec<u8> = Vec::new();
    let mut i: usize = 0;
    while i < n
        invariant
            i <= n,
            n == pixels@.len(),
            size == T::size(),
            1 <= size <= 16,
            values == Seq::new(pixels@.len(), |i: int| pixels@[i].value()),
            out@.len() == i * size,
            forall|j: int| 0 <= j < i * size ==> #[trigger] out@[j] == le_bytes(values[j / size as int], size as nat)[j % size as int],
        decreases n - i,
    {
        let ghost before = out@;
        push_le(&mut out, pixels[i].to_value(), size);
        proof {
            lemma_le_bytes_len(values[i as int], size as nat);
            assert((i + 1) * size == i * size + size) by (nonlinear_arith);
            assert forall|j: int| 0 <= j < (i + 1) * size implies #[trigger] out@[j] == le_bytes(
                values[j / size as int],
                size as nat,
            )[j % size as int] by {
                if j >= i * size {
                    lemma_fundamental_div_mod_converse(j, size as int, i as int, j - i * size);
                }
            }
        }
        i += 1;
    }
    assert(out@ =~= pixel_bytes(values, T::size()));
    out
}

/// Encodes one mip level.
pub fn write_level<T: Pixel>(raster: &Raster<T>, status: &ItpStatus) -> (r: Result<Vec<u8>, WriteError>)
    ensures
        match r {
            Ok(out) => level_bytes(raster_values(raster@), T::size(), status.pixel_format, status.compression) == Ok::<
                Seq<u8>,
                WriteError,
            >(out@),
            Err(e) => level_bytes(raster_values(raster@), T::size(), status.pixel_format, status.compression) == Err::<
                Seq<u8>,
                WriteError,
            >(e),
        },
{
    let width: usize = raster.width();
    let height: usize = raster.height();
    let stored = match do_swizzle(raster, status.pixel_format) {
        Some(stored) => stored,
        None => {
            return Err(WriteError::Dimensions { width, height });
        },
    };
    let bytes = encode_pixels(&stored);
    proof {
        let level = raster_values(raster@);
        assert forall|k: int| 0 <= k < stored@.len() implies stored@[k].value() == stored_values(
            level,
            status.pixel_format,
        )[k] by {
            lemma_store_index(status.pixel_format, raster@.width, raster@.height, k);
        }
        assert(Seq::new(stored@.len(), |i: int| stored@[i].value()) =~= stored_values(level, status.pixel_format));
    }
    if !is_storable(status.compression, bytes.len()) {
        return Err(WriteError::TooLarge);
    }
    Ok(maybe_compress(status.compression, bytes))
}

/// The colours of a palette as they are stored: red and blue exchanged, and with
/// `delta` each colour but the first less the one before it.
pub open spec fn stored_colors(colors: Seq<u32>, delta: bool) -> Seq<u32> {
    Seq::new(
        colors.len(),
        |i: int|
            if delta && i > 0 {
                ((swap_rb(colors[i]) - swap_rb(colors[i - 1])) % 0x1_0000_0000) as u32
            } else {
                swap_rb(colors[i])
            },
    )
}

/// `colors` cut or filled with zeros to 256 colours.
pub open spec fn fixed_colors(colors: Seq<u32>) -> Seq<u32> {
    Seq::new(256, |i: int| if i < colors.len() { colors[i] } else { 0u32 })
}

/// The bytes of `colors`, four for each.
pub open spec fn color_bytes(colors: Seq<u32>) -> Seq<u8> {
    pixel_bytes(Seq::new(colors.len(), |i: int| colors[i] as nat), 4)
}

/// What is stored for a palette: whether it is external, the number of its colours,
/// and its bytes. An external palette is stored as its name and a zero byte.
pub open spec fn palette_bytes(status: ItpStatus, pal: PaletteView, fixed_size: bool) -> (bool, nat, Seq<u8>) {
    match pal {
        PaletteView::Embedded(colors) => {
            let stored = stored_colors(colors, status.base_format == BaseFormatType::Indexed2);
            (
                false,
                colors.len(),
                maybe_compressed(
                    status.compression,
                    color_bytes(
                        if fixed_size {
                            fixed_colors(stored)
                        } else {
                            stored
                        },
                    ),
                ),
            )
        },
        PaletteView::External(name) => (true, 0, name.push(0u8)),
    }
}

/// Whether a palette can be stored: an external one always, an embedded one
/// where its colours, four bytes each, can be stored under the compression.
pub open spec fn palette_storable(status: ItpStatus, pal: PaletteView, fixed_size: bool) -> bool {
    match pal {
        PaletteView::Embedded(colors) => storable(
            status.compression,
            if fixed_size {
                1024
            } else {
                4 * colors.len()
            },
        ),
        PaletteView::External(_) => true,
    }
}

/// Tests whether a palette can be stored.
pub fn is_palette_storable(status: &ItpStatus, pal: &Palette, fixed_size: bool) -> (b: bool)
    ensures
        b == palette_storable(*status, pal@, fixed_size),
{
    match pal {
        Palette::Embedded(colors) => match status.compression {
            CompressionType::Uncompressed => true,
            _ => fixed_size || colors.len() <= COMPRESS_LIMIT / 4,
        },
        Palette::External(_) => true,
    }
}

/// Encodes a palette: whether it is external, the number of its colours, and its bytes.
pub fn write_ipal(status: &ItpStatus, pal: &Palette, fixed_size: bool) -> (r: (bool, usize, Vec<u8>))
    requires
        palette_storable(*status, pal@, fixed_size),
    ensures
        (r.0, r.1 as nat, r.2@) == palette_bytes(*status, pal@, fixed_size),
{
    match pal {
        Palette::Embedded(colors) => {
            let delta = status.base_format == BaseFormatType::Indexed2;
            let n: usize = colors.len();
            let mut stored: Vec<u32> = Vec::with_capacity(n);
            let mut i: usize = 0;
            while i < n
                invariant
                    i <= n,
                    n == colors@.len(),
                    stored@.len() == i,
                    forall|k: int| 0 <= k < i ==> #[trigger] stored@[k] == stored_colors(colors@, delta)[k],
                decreases n - i,
            {
                let c: u32 = swap_red_blue(colors[i]);
                let v: u32 = if delta && i > 0 {
                    c.wrapping_sub(swap_red_blue(colors[i - 1]))
                } else {
                    c
                };
                stored.push(v);
                i += 1;
            }
            assert(stored@ =~= stored_colors(colors@, delta));
            if fixed_size {
                let mut fixed: Vec<u32> = Vec::with_capacity(256);
                let mut k: usize = 0;
                while k < 256
                    invariant
                        k <= 256,
                        n == stored@.len(),
                        fixed@.len() == k,
                        forall|j: int| 0 <= j < k ==> #[trigger] fixed@[j] == fixed_colors(stored@)[j],
                    decreases 256 - k,
                {
                    fixed.push(if k < n { stored[k] } else { 0 });
                    k += 1;
                }
                assert(fixed@ =~= fixed_colors(stored@));
                stored = fixed;
            }
            let bytes = encode_pixels(&stored);
            assert(Seq::new(stored@.len(), |i: int| stored@[i].value()) =~= Seq::new(
                stored@.len(),
                |i: int| stored@[i] as nat,
            ));
            (false, n, maybe_compress(status.compression, bytes))
        },
        Palette::External(name) => {
            let mut bytes: Vec<u8> = Vec::new();
            put_slice(&mut bytes, name.as_slice());
            bytes.push(0);
            assert(bytes@ =~= name@.push(0u8));
            (true, 0, bytes)
        },
    }
}

/// Mip level `n` of an image as it is stored.
pub open spec fn idat_bytes(status: ItpStatus, image: ImageView, n: int) -> Result<Seq<u8>, WriteError> {
    match image.kind {
        PixelKind::Indexed => match status.base_format {
            BaseFormatType::Indexed1 => level_bytes(image.levels[n], 1, status.pixel_format, status.compression),
            BaseFormatType::Indexed2 => match fast_mode_bytes(level_indices(image.levels[n])) {
                Err(e) => Err(e),
                Ok(data) => if !storable(status.compression, data.len()) {
                    Err(WriteError::TooLarge)
                } else {
                    Ok(bytes32(low32(data.len() as int)) + maybe_compressed(status.compression, data))
                },
            },
            BaseFormatType::Indexed3 => Err(WriteError::Todo { what: Unsupported::CcpiInRevision3 }),
            _ => Err(WriteError::PixelFormat { bft: status.base_format, pbft: status.pixel_bit_format }),
        },
        kind => level_bytes(image.levels[n], kind.size(), status.pixel_format, status.compression),
    }
}

/// Encodes mip level `level` of `data`.
pub fn write_idat(status: &ItpStatus, data: &ImageData, level: usize) -> (r: Result<Vec<u8>, WriteError>)
    requires
        level < data@.levels.len(),
    ensures
        match r {
            Ok(out) => idat_bytes(*status, data@, level as int) == Ok::<Seq<u8>, WriteError>(out@),
            Err(e) => idat_bytes(*status, data@, level as int) == Err::<Seq<u8>, WriteError>(e),
        },
{
    match data {
        ImageData::Indexed(_, d) => match status.base_format {
            BaseFormatType::Indexed1 => write_level(&d[level], status),
            BaseFormatType::Indexed2 => {
                proof {
                    lemma_level_indices(d@[level as int]@);
                }
                let body = encode_fast_mode(&d[level])?;
                if !is_storable(status.compression, body.len()) {
                    return Err(WriteError::TooLarge);
                }
                let mut out: Vec<u8> = Vec::new();
                put_u32(&mut out, to_low32(body.len() as u128));
                let mut stored = maybe_compress(status.compression, body);
                out.append(&mut stored);
                assert(out@ =~= idat_bytes(*status, data@, level as int).unwrap());
                Ok(out)
            },
            BaseFormatType::Indexed3 => Err(WriteError::Todo { what: Unsupported::CcpiInRevision3 }),
            _ => Err(WriteError::PixelFormat { bft: status.base_format, pbft: status.pixel_bit_format }),
        },
        ImageData::Argb16(_, d) => write_level(&d[level], status),
        ImageData::Argb32(d) => write_level(&d[level], status),
        ImageData::Bc1(d) => write_level(&d[level], status),
        ImageData::Bc2(d) => write_level(&d[level], status),
        ImageData::Bc3(d) => write_level(&d[level], status),
        ImageData::Bc7(d) => write_level(&d[level], status),
    }
}

/// The mip levels from level `n` on as they are stored, one after another, behind `out`.
pub open spec fn levels_bytes(status: ItpStatus, image: ImageView, n: int, out: Seq<u8>) -> Result<Seq<u8>, WriteError>
    decreases image.levels.len() - n,
{
    if n >= image.levels.len() {
        Ok(out)
    } else {
        match idat_bytes(status, image, n) {
            Err(e) => Err(e),
            Ok(level) => levels_bytes(status, image, n + 1, out + level),
        }
    }
}

/// The status that the head of a legacy file stands for. A tile-dictionary file
/// keeps its compression in its own header, and its head names none.
pub open spec fn head_status(status: ItpStatus) -> ItpStatus {
    if status.base_format == BaseFormatType::Indexed3 {
        ItpStatus { compression: CompressionType::Uncompressed, ..status }
    } else {
        status
    }
}

/// The first four bytes of a legacy file for a status: the fixed header code of
/// its flag word for revision 1, the flag word for revision 2.
pub open spec fn legacy_head(status: ItpStatus) -> Option<u32> {
    match status.itp_revision {
        ItpRevision::V1 => match spec_status_to_flags(head_status(status)) {
            Some(flags) => spec_flags_to_gen1(flags),
            None => None,
        },
        ItpRevision::V2 => spec_status_to_flags(head_status(status)),
        ItpRevision::V3 => None,
    }
}

/// The palette of a legacy file as it is stored, behind the number of its colours
/// unless the header code implies it. A legacy file cannot name an external palette.
pub open spec fn legacy_palette_bytes(status: ItpStatus, image: ImageView, head: u32) -> Result<Seq<u8>, WriteError> {
    if image.kind != PixelKind::Indexed || image.palette is None {
        Ok(Seq::empty())
    } else {
        let fixed = head == 1000 || head == 1002;
        let pal = palette_bytes(status, image.palette.unwrap(), fixed);
        if !palette_storable(status, image.palette.unwrap(), fixed) {
            Err(WriteError::TooLarge)
        } else if pal.0 {
            Err(WriteError::ExternalPalette)
        } else if fixed {
            Ok(pal.2)
        } else {
            Ok(bytes32(low32(pal.1 as int)) + pal.2)
        }
    }
}

/// A legacy file of another format than the tile dictionary: the head, the
/// dimensions, the palette if there is one, and the mip levels.
pub open spec fn legacy_file(itp: ItpView, head: u32) -> Result<Seq<u8>, WriteError> {
    if itp.image.levels.len() == 0 {
        Err(WriteError::Empty)
    } else {
        match legacy_palette_bytes(itp.status, itp.image, head) {
            Err(e) => Err(e),
            Ok(pal) => levels_bytes(
                itp.status,
                itp.image,
                0,
                bytes32(head) + bytes32(low32(itp.image.width() as int)) + bytes32(low32(itp.image.height() as int))
                    + pal,
            ),
        }
    }
}

/// A chunk: its tag, the length of its body, and its body.
pub open spec fn chunk(tag: u32, body: Seq<u8>) -> Seq<u8> {
    bytes32(tag) + bytes32(low32(body.len() as int)) + body
}

/// The body of the header chunk of a file of `file_size` bytes.
#[verifier::opaque]
pub open spec fn ihdr_body(status: ItpStatus, image: ImageView, file_size: int) -> Seq<u8> {
    bytes32(32) + bytes32(low32(image.width() as int)) + bytes32(low32(image.height() as int)) + bytes32(
        low32(file_size),
    ) + bytes16(status.itp_revision.code()) + bytes16(status.base_format.code()) + bytes16(
        status.pixel_format.code(),
    ) + bytes16(status.pixel_bit_format.code()) + bytes16(status.compression.code()) + bytes16(
        status.multi_plane.code(),
    ) + bytes32(0)
}

/// The mipmap chunk. An image of one level without mipmaps needs none and gets none.
pub open spec fn imip_chunk(status: ItpStatus, image: ImageView) -> Seq<u8> {
    if status.mipmap == MipmapType::NoMipmap && image.levels.len() == 1 {
        Seq::empty()
    } else {
        chunk(IMIP, bytes32(12) + bytes16(status.mipmap.code()) + bytes16(low16(image.levels.len() - 1)) + bytes32(0))
    }
}

/// Whether the palette of an image, if it has one, can be stored in a chunk.
pub open spec fn image_palette_storable(status: ItpStatus, image: ImageView) -> bool {
    image.kind == PixelKind::Indexed && image.palette is Some ==> palette_storable(
        status,
        image.palette.unwrap(),
        false,
    )
}

/// The palette chunk of an indexed image; nothing for another.
pub open spec fn ipal_chunk(status: ItpStatus, image: ImageView) -> Seq<u8> {
    if image.kind != PixelKind::Indexed || image.palette is None {
        Seq::empty()
    } else {
        let pal = palette_bytes(status, image.palette.unwrap(), false);
        chunk(
            IPAL,
            bytes32(8) + bytes16(
                if pal.0 {
                    1
                } else {
                    0
                },
            ) + bytes16(low16(pal.1 as int)) + pal.2,
        )
    }
}

/// The alpha chunk of a status that says whether alpha is used; nothing for another.
pub open spec fn ialp_chunk(status: ItpStatus) -> Seq<u8> {
    match status.use_alpha {
        Some(b) => chunk(
            IALP,
            bytes32(8) + bytes16(
                if b {
                    1
                } else {
                    0
                },
            ) + bytes16(0),
        ),
        None => Seq::empty(),
    }
}

/// The data chunks of the mip levels from level `n` on, behind `out`.
pub open spec fn idat_chunks(status: ItpStatus, image: ImageView, n: int, out: Seq<u8>) -> Result<Seq<u8>, WriteError>
    decreases image.levels.len() - n,
{
    if n >= image.levels.len() {
        Ok(out)
    } else {
        match idat_bytes(status, image, n) {
            Err(e) => Err(e),
            Ok(level) => idat_chunks(
                status,
                image,
                n + 1,
                out + chunk(IDAT, bytes32(8) + bytes16(0) + bytes16(low16(n)) + level),
            ),
        }
    }
}

/// The length of the magic and the header chunk of a file of revision 3.
pub const HEADER_LEN: usize = 44;

/// A file of revision 3: the magic, the header chunk, and behind it the chunks for
/// mipmaps, palette, alpha and data as far as the image has them, and the end
/// chunk. The header holds the length of the whole file in 32 bits; a file that is
/// longer is not written.
pub open spec fn revision_3_file(itp: ItpView) -> Result<Seq<u8>, WriteError> {
    if itp.image.levels.len() == 0 {
        Err(WriteError::Empty)
    } else if !image_palette_storable(itp.status, itp.image) {
        Err(WriteError::TooLarge)
    } else {
        match idat_chunks(
            itp.status,
            itp.image,
            0,
            imip_chunk(itp.status, itp.image) + ipal_chunk(itp.status, itp.image) + ialp_chunk(itp.status),
        ) {
            Err(e) => Err(e),
            Ok(chunks) => if HEADER_LEN + chunks.len() + 8 > u32::MAX {
                Err(WriteError::TooLarge)
            } else {
                Ok(
                    bytes32(ITP_MAGIC) + chunk(
                        IHDR,
                        ihdr_body(itp.status, itp.image, HEADER_LEN + chunks.len() + 8),
                    ) + chunks + chunk(IEND, Seq::empty()),
                )
            },
        }
    }
}

/// The file that holds an image.
pub open spec fn spec_write(itp: ItpView) -> Result<Seq<u8>, WriteError> {
    if itp.status.itp_revision == ItpRevision::V3 {
        revision_3_file(itp)
    } else {
        match legacy_head(itp.status) {
            None => Err(WriteError::Unrepresentable),
            Some(head) => if itp.status.base_format == BaseFormatType::Indexed3 {
                match ccpi_file(itp) {
                    Err(e) => Err(e),
                    Ok(rest) => Ok(bytes32(head) + rest),
                }
            } else {
                legacy_file(itp, head)
            },
        }
    }
}

/// Appends a chunk.
pub fn put_chunk(out: &mut Vec<u8>, tag: u32, body: &Vec<u8>)
    ensures
        final(out)@ == old(out)@ + chunk(tag, body@),
{
    put_u32(out, tag);
    put_u32(out, to_low32(body.len() as u128));
    put_slice(out, body.as_slice());
    assert(out@ =~= old(out)@ + chunk(tag, body@));
}

/// The lowest 32 bits of the width and of the height of an image in pixels.
pub fn dimensions(data: &ImageData) -> (r: (u32, u32))
    requires
        data@.levels.len() > 0,
    ensures
        r.0 == low32(data@.width() as int),
        r.1 == low32(data@.height() as int),
{
    match data {
        ImageData::Indexed(_, d) => {
            assert(data@.kind.scale() == 1 && data@.levels[0] == raster_values(d@[0]@));
            plain_dimensions(&d[0])
        },
        ImageData::Argb16(_, d) => {
            assert(data@.kind.scale() == 1 && data@.levels[0] == raster_values(d@[0]@));
            plain_dimensions(&d[0])
        },
        ImageData::Argb32(d) => {
            assert(data@.kind.scale() == 1 && data@.levels[0] == raster_values(d@[0]@));
            plain_dimensions(&d[0])
        },
        ImageData::Bc1(d) => {
            assert(data@.kind.scale() == 4 && data@.levels[0] == raster_values(d@[0]@));
            block_dimensions(&d[0])
        },
        ImageData::Bc2(d) => {
            assert(data@.kind.scale() == 4 && data@.levels[0] == raster_values(d@[0]@));
            block_dimensions(&d[0])
        },
        ImageData::Bc3(d) => {
            assert(data@.kind.scale() == 4 && data@.levels[0] == raster_values(d@[0]@));
            block_dimensions(&d[0])
        },
        ImageData::Bc7(d) => {
            assert(data@.kind.scale() == 4 && data@.levels[0] == raster_values(d@[0]@));
            block_dimensions(&d[0])
        },
    }
}

/// The lowest 32 bits of the dimensions of a level of pixels.
fn plain_dimensions<T: Pixel>(level: &Raster<T>) -> (r: (u32, u32))
    ensures
        r.0 == low32(level@.width as int),
        r.1 == low32(level@.height as int),
{
    (to_low32(level.width() as u128), to_low32(level.height() as u128))
}

/// The lowest 32 bits of the dimensions of a level of blocks, in pixels.
fn block_dimensions<T: Pixel>(level: &Raster<T>) -> (r: (u32, u32))
    ensures
        r.0 == low32((4 * level@.width) as int),
        r.1 == low32((4 * level@.height) as int),
{
    (to_low32(level.width() as u128 * 4), to_low32(level.height() as u128 * 4))
}

/// Encodes the mipmap chunk, where the image needs one.
pub fn write_imip(status: &ItpStatus, data: &ImageData) -> (out: Vec<u8>)
    requires
        data@.levels.len() > 0,
    ensures
        out@ == imip_chunk(*status, data@),
{
    let levels: usize = data.mipmaps();
    let mut out: Vec<u8> = Vec::new();
    match status.mipmap {
        MipmapType::NoMipmap if levels == 1 => {},
        _ => {
            let mut body: Vec<u8> = Vec::new();
            put_u32(&mut body, 12);
            put_u16(&mut body, status.mipmap.to_u16());
            put_u16(&mut body, to_low16((levels - 1) as u128));
            put_u32(&mut body, 0);
            put_chunk(&mut out, IMIP, &body);
        },
    }
    assert(out@ =~= imip_chunk(*status, data@));
    out
}

/// Encodes the palette chunk, where the image has a palette.
pub fn write_ipal_chunk(status: &ItpStatus, data: &ImageData) -> (out: Vec<u8>)
    requires
        image_palette_storable(*status, data@),
    ensures
        out@ == ipal_chunk(*status, data@),
{
    let mut out: Vec<u8> = Vec::new();
    match data {
        ImageData::Indexed(pal, _) => {
            let (is_external, pal_size, mut bytes) = write_ipal(status, pal, false);
            let mut body: Vec<u8> = Vec::new();
            put_u32(&mut body, 8);
            put_u16(&mut body, if is_external { 1 } else { 0 });
            put_u16(&mut body, to_low16(pal_size as u128));
            body.append(&mut bytes);
            put_chunk(&mut out, IPAL, &body);
        },
        _ => {},
    }
    assert(out@ =~= ipal_chunk(*status, data@));
    out
}

/// Encodes the alpha chunk, where the status says whether alpha is used.
pub fn write_ialp(status: &ItpStatus) -> (out: Vec<u8>)
    ensures
        out@ == ialp_chunk(*status),
{
    let mut out: Vec<u8> = Vec::new();
    match status.use_alpha {
        Some(use_alpha) => {
            let mut body: Vec<u8> = Vec::new();
            put_u32(&mut body, 8);
            put_u16(&mut body, if use_alpha { 1 } else { 0 });
            put_u16(&mut body, 0);
            put_chunk(&mut out, IALP, &body);
        },
        None => {},
    }
    assert(out@ =~= ialp_chunk(*status));
    out
}

/// Appends the data chunks of all mip levels.
pub fn write_idat_chunks(status: &ItpStatus, data: &ImageData, start: Vec<u8>) -> (r: Result<Vec<u8>, WriteError>)
    ensures
        match r {
            Ok(out) => idat_chunks(*status, data@, 0, start@) == Ok::<Seq<u8>, WriteError>(out@),
            Err(e) => idat_chunks(*status, data@, 0, start@) == Err::<Seq<u8>, WriteError>(e),
        },
{
    let levels: usize = data.mipmaps();
    let mut chunks: Vec<u8> = start;
    let mut n: usize = 0;
    while n < levels
        invariant
            n <= levels,
            levels == data@.levels.len(),
            idat_chunks(*status, data@, 0, start@) == idat_chunks(*status, data@, n as int, chunks@),
        decreases levels - n,
    {
        let mut level = write_idat(status, data, n)?;
        let mut body: Vec<u8> = Vec::new();
        put_u32(&mut body, 8);
        put_u16(&mut body, 0);
        put_u16(&mut body, to_low16(n as u128));
        body.append(&mut level);
        put_chunk(&mut chunks, IDAT, &body);
        n += 1;
    }
    Ok(chunks)
}

/// Encodes the body of the header chunk of a file whose other chunks take
/// `rest` bytes.
pub fn write_ihdr(status: &ItpStatus, data: &ImageData, rest: usize) -> (header: Vec<u8>)
    requires
        data@.levels.len() > 0,
    ensures
        header@ == ihdr_body(*status, data@, HEADER_LEN + rest),
{
    let (width, height) = dimensions(data);
    let mut header: Vec<u8> = Vec::new();
    put_u32(&mut header, 32);
    put_u32(&mut header, width);
    put_u32(&mut header, height);
    put_u32(&mut header, to_low32(HEADER_LEN as u128 + rest as u128));
    put_u16(&mut header, status.itp_revision.to_u16());
    put_u16(&mut header, status.base_format.to_u16());
    put_u16(&mut header, status.pixel_format.to_u16());
    put_u16(&mut header, status.pixel_bit_format.to_u16());
    put_u16(&mut header, status.compression.to_u16());
    put_u16(&mut header, status.multi_plane.to_u16());
    put_u32(&mut header, 0);
    proof {
        reveal(ihdr_body);
    }
    assert(header@ =~= ihdr_body(*status, data@, HEADER_LEN + rest));
    header
}

/// Encodes a file of revision 3, in two passes: the first encodes the chunks
/// behind the header, the second the header, which holds the length of the whole.
pub fn write_revision_3(itp: &Itp) -> (r: Result<Vec<u8>, WriteError>)
    ensures
        match r {
            Ok(out) => revision_3_file(itp@) == Ok::<Seq<u8>, WriteError>(out@),
            Err(e) => revision_3_file(itp@) == Err::<Seq<u8>, WriteError>(e),
        },
{
    if itp.data.mipmaps() == 0 {
        return Err(WriteError::Empty);
    }
    match &itp.data {
        ImageData::Indexed(pal, _) => {
            if !is_palette_storable(&itp.status, pal, false) {
                return Err(WriteError::TooLarge);
            }
        },
        _ => {},
    }
    let mut start = write_imip(&itp.status, &itp.data);
    let mut ipal = write_ipal_chunk(&itp.status, &itp.data);
    let mut ialp = write_ialp(&itp.status);
    start.append(&mut ipal);
    start.append(&mut ialp);
    let mut tail = write_idat_chunks(&itp.status, &itp.data, start)?;
    let ghost chunks = tail@;
    if tail.len() > 0xFFFF_FFFF - 52 {
        return Err(WriteError::TooLarge);
    }
    let empty: Vec<u8> = Vec::new();
    put_chunk(&mut tail, IEND, &empty);
    let header = write_ihdr(&itp.status, &itp.data, tail.len());
    let mut out: Vec<u8> = Vec::new();
    put_u32(&mut out, ITP_MAGIC);
    put_chunk(&mut out, IHDR, &header);
    out.append(&mut tail);
    proof {
        assert(chunk(IEND, Seq::empty()).len() == 8);
        assert(out@ =~= bytes32(ITP_MAGIC) + chunk(IHDR, header@) + chunks + chunk(IEND, Seq::empty()));
    }
    Ok(out)
}

/// Encodes a legacy file of another format than the tile dictionary.
pub fn write_legacy(itp: &Itp, head: u32) -> (r: Result<Vec<u8>, WriteError>)
    ensures
        match r {
            Ok(out) => legacy_file(itp@, head) == Ok::<Seq<u8>, WriteError>(out@),
            Err(e) => legacy_file(itp@, head) == Err::<Seq<u8>, WriteError>(e),
        },
{
    let status = &itp.status;
    let data = &itp.data;
    let levels: usize = data.mipmaps();
    if levels == 0 {
        return Err(WriteError::Empty);
    }
    let (width, height) = dimensions(data);
    let mut out: Vec<u8> = Vec::new();
    put_u32(&mut out, head);
    put_u32(&mut out, width);
    put_u32(&mut out, height);
    match data {
        ImageData::Indexed(pal, _) => {
            let fixed_size: bool = head == 1000 || head == 1002;
            if !is_palette_storable(status, pal, fixed_size) {
                return Err(WriteError::TooLarge);
            }
            let (is_external, pal_size, mut bytes) = write_ipal(status, pal, fixed_size);
            if is_external {
                return Err(WriteError::ExternalPalette);
            }
            if !fixed_size {
                put_u32(&mut out, to_low32(pal_size as u128));
            }
            out.append(&mut bytes);
        },
        _ => {},
    }
    let ghost start = out@;
    assert(start =~= bytes32(head) + bytes32(low32(data@.width() as int)) + bytes32(low32(data@.height() as int))
        + legacy_palette_bytes(*status, data@, head).unwrap());
    let mut n: usize = 0;
    while n < levels
        invariant
            n <= levels,
            *status == itp.status,
            data@ == itp@.image,
            levels == data@.levels.len(),
            levels > 0,
            legacy_palette_bytes(*status, data@, head) is Ok,
            start == bytes32(head) + bytes32(low32(data@.width() as int)) + bytes32(low32(data@.height() as int))
                + legacy_palette_bytes(*status, data@, head).unwrap(),
            levels_bytes(*status, data@, 0, start) == levels_bytes(*status, data@, n as int, out@),
        decreases levels - n,
    {
        let mut level = write_idat(status, data, n)?;
        out.append(&mut level);
        n += 1;
    }
    Ok(out)
}

/// Encodes an image as a file of the revision that its status names.
pub fn write(itp: &Itp) -> (r: Result<Vec<u8>, WriteError>)
    ensures
        match r {
            Ok(out) => spec_write(itp@) == Ok::<Seq<u8>, WriteError>(out@),
            Err(e) => spec_write(itp@) == Err::<Seq<u8>, WriteError>(e),
        },
{
    let mut named: ItpStatus = itp.status;
    if named.base_format == BaseFormatType::Indexed3 {
        named.compression = CompressionType::Uncompressed;
    }
    assert(named == head_status(itp.status));
    let head: Option<u32> = match itp.status.itp_revision {
        ItpRevision::V1 => match status_to_flags(&named) {
            Some(flags) => flags_to_gen1(flags),
            None => None,
        },
        ItpRevision::V2 => status_to_flags(&named),
        ItpRevision::V3 => {
            return write_revision_3(itp);
        },
    };
    let head: u32 = match head {
        Some(head) => head,
        None => {
            return Err(WriteError::Unrepresentable);
        },
    };
    if itp.status.base_format == BaseFormatType::Indexed3 {
        let mut rest = write_ccpi(itp)?;
        let mut out: Vec<u8> = Vec::new();
        put_u32(&mut out, head);
        out.append(&mut rest);
        Ok(out)
    } else {
        write_legacy(itp, head)
    }
}

} // verus!
