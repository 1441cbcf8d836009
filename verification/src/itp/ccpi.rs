//! The tile-dictionary indexed encoding.
//!
//! The image is cut into tiles. Each tile stores a dictionary of patches of 2 by 2
//! pixels, then one selector byte for each patch. A selector names a dictionary
//! entry; the selector `0xFF` repeats the entry named last as often as the byte
//! behind it says.

use super::{CompressionType, ImageData, ImageView, Itp, ItpStatus, ItpView, PaletteView, PixelKind, raster_values};
use super::fast_mode::{distinct, first_index, lemma_distinct, lemma_first_index};
use super::read::{
    Field, get_u16, get_u32, le16, le32, palette_at, read_ipal, read_maybe_compressed, ReadError, stored_bytes,
};
use super::write::{
    bytes16, bytes32, is_storable, lemma_bytes_of_numbers, low16, low32, maybe_compress, maybe_compressed,
    palette_bytes, put_slice, put_u16, put_u32, storable, to_low16, to_low32, write_ipal, WriteError,
};
use crate::bytes::{avail, lemma_le_bytes_of_value, lemma_le_value_bound, lemma_pow256_values, read_le};
use crate::permute::{swizzle, swizzled, unswizzle};
use crate::raster::{Raster, RasterView};
use vstd::prelude::*;

verus! {

/// The four bytes `CCPI`, read as a little-endian number.
pub const CCPI_MAGIC: u32 = 0x4950_4343;

/// The number of entries that a selector byte can name.
pub const DICTIONARY_ENTRIES: usize = 256;

/// Byte `j` of entry `i` of the dictionary of a tile that stores `n` entries from
/// `dict_at` on.
///
/// The stored entries come first. Behind them stand their mirror images left to
/// right, and behind both the mirror images top to bottom of both. Entries that
/// are neither hold zeros.
pub open spec fn dictionary_byte(s: Seq<u8>, dict_at: int, n: int, i: int, j: int) -> u8 {
    if i < n {
        s[dict_at + 4 * i + j]
    } else if i < 2 * n {
        s[dict_at + 4 * (i - n) + flip_x(j)]
    } else if i < 3 * n {
        s[dict_at + 4 * (i - 2 * n) + flip_y(j)]
    } else if i < 4 * n {
        s[dict_at + 4 * (i - 3 * n) + flip_x(flip_y(j))]
    } else {
        0
    }
}

/// Where byte `j` of a patch comes from when the patch is mirrored left to right.
pub open spec fn flip_x(j: int) -> int {
    if j == 0 {
        1
    } else if j == 1 {
        0
    } else if j == 2 {
        3
    } else {
        2
    }
}

/// Where byte `j` of a patch comes from when the patch is mirrored top to bottom.
pub open spec fn flip_y(j: int) -> int {
    if j == 0 {
        2
    } else if j == 1 {
        3
    } else if j == 2 {
        0
    } else {
        1
    }
}

/// The whole dictionary, entry after entry: 256 entries of 4 bytes.
pub open spec fn dictionary(s: Seq<u8>, dict_at: int, n: int) -> Seq<u8> {
    Seq::new(1024, |k: int| dictionary_byte(s, dict_at, n, k / 4, k % 4))
}

/// Entry `i` of a dictionary.
pub open spec fn entry(table: Seq<u8>, i: int) -> Seq<u8> {
    table.subrange(4 * i, 4 * i + 4)
}

/// `done` with `times` copies of `patch` behind it.
pub open spec fn repeated(done: Seq<u8>, patch: Seq<u8>, times: int) -> Seq<u8>
    decreases times,
{
    if times <= 0 {
        done
    } else {
        repeated(done + patch, patch, times - 1)
    }
}

/// The bytes that the selectors from `p` on stand for, behind those in `done`,
/// until there are `len` bytes or more.
pub open spec fn selected(s: Seq<u8>, p: int, table: Seq<u8>, len: int, last: int, done: Seq<u8>) -> Result<
    (Seq<u8>, int),
    ReadError,
>
    decreases s.len() - p,
{
    if done.len() >= len {
        Ok((done, p))
    } else if !avail(s, p, 1) {
        Err(ReadError::UnexpectedEnd)
    } else if s[p] == 0xFF {
        if !avail(s, p + 1, 1) {
            Err(ReadError::UnexpectedEnd)
        } else {
            selected(s, p + 2, table, len, last, repeated(done, entry(table, last), s[p + 1] as int))
        }
    } else {
        selected(s, p + 1, table, len, s[p] as int, done + entry(table, s[p] as int))
    }
}

/// The `len` bytes of the tile stored at `p`, patch after patch, and the position
/// behind the tile.
pub open spec fn ccpi_chunk(s: Seq<u8>, p: int, len: int) -> Result<(Seq<u8>, int), ReadError> {
    if !avail(s, p, 1) {
        Err(ReadError::UnexpectedEnd)
    } else if !avail(s, p + 1, 4 * s[p]) {
        Err(ReadError::UnexpectedEnd)
    } else {
        match selected(s, p + 1 + 4 * s[p], dictionary(s, p + 1, s[p] as int), len, 0, Seq::empty()) {
            Err(e) => Err(e),
            Ok((chunk, end)) => if chunk.len() != len {
                Err(ReadError::WrongSize)
            } else {
                Ok((chunk, end))
            },
        }
    }
}

/// The pixels of the tile of `tw` by `th` pixels stored at `p`, row after row.
pub open spec fn ccpi_tile(s: Seq<u8>, p: int, tw: int, th: int) -> Result<(Seq<u8>, int), ReadError> {
    match ccpi_chunk(s, p, tw * th) {
        Err(e) => Err(e),
        Ok((chunk, end)) => if tw % 2 != 0 || th % 2 != 0 {
            Err(ReadError::Dimensions { width: tw as u32, height: th as u32 })
        } else {
            Ok((swizzled(chunk, 2, tw / 2, 2), end))
        },
    }
}

/// `image` with `row` written over the pixels from `base` on.
pub open spec fn placed(image: Seq<u8>, base: int, row: Seq<u8>) -> Seq<u8> {
    Seq::new(image.len(), |i: int| if base <= i < base + row.len() { row[i - base] } else { image[i] })
}

/// `image`, `w` pixels wide, with the rows of `tile` from row `r` on written over
/// the rectangle whose corner is `(x0, y0)`.
pub open spec fn blitted(image: Seq<u8>, w: int, x0: int, y0: int, tw: int, th: int, tile: Seq<u8>, r: int) -> Seq<u8>
    decreases th - r,
{
    if r >= th {
        image
    } else {
        blitted(placed(image, (y0 + r) * w + x0, tile.subrange(r * tw, (r + 1) * tw)), w, x0, y0, tw, th, tile, r + 1)
    }
}

/// An image that is all of index zero.
pub open spec fn blank(n: nat) -> Seq<u8> {
    Seq::new(n, |i: int| 0u8)
}

/// The smaller of two numbers.
pub open spec fn min(a: int, b: int) -> int {
    if a <= b {
        a
    } else {
        b
    }
}

/// The image with one row of tiles read into it, from the tile at column `x0` on.
pub open spec fn ccpi_cols(s: Seq<u8>, p: int, w: int, h: int, cw: int, ch: int, y0: int, x0: int, image: Seq<u8>) -> Result<
    (Seq<u8>, int),
    ReadError,
>
    decreases (if x0 < w { w - x0 } else { 0 }),
{
    if x0 >= w || cw <= 0 {
        Ok((image, p))
    } else {
        let tw = min(cw, w - x0);
        let th = min(ch, h - y0);
        match ccpi_tile(s, p, tw, th) {
            Err(e) => Err(e),
            Ok((tile, next)) => ccpi_cols(s, next, w, h, cw, ch, y0, x0 + cw, blitted(image, w, x0, y0, tw, th, tile, 0)),
        }
    }
}

/// The image with the rows of tiles from row `y0` on read into it.
pub open spec fn ccpi_rows(s: Seq<u8>, p: int, w: int, h: int, cw: int, ch: int, y0: int, image: Seq<u8>) -> Result<
    (Seq<u8>, int),
    ReadError,
>
    decreases (if y0 < h { h - y0 } else { 0 }),
{
    if y0 >= h || ch <= 0 {
        Ok((image, p))
    } else {
        match ccpi_cols(s, p, w, h, cw, ch, y0, 0, image) {
            Err(e) => Err(e),
            Ok((next_image, next)) => ccpi_rows(s, next, w, h, cw, ch, y0 + ch, next_image),
        }
    }
}

/// The side of a tile whose logarithm is stored as `log`. No image is wider or
/// higher than 65535 pixels, so a larger tile is as good as one of 65536.
pub open spec fn tile_side(log: u8) -> int
    decreases log,
{
    if log >= 16 {
        65536
    } else if log == 0 {
        1
    } else {
        2 * tile_side((log - 1) as u8)
    }
}

/// The compression that the header's flags name: bit 15 asks for the first kind.
pub open spec fn ccpi_compression(flags: u16) -> CompressionType {
    if flags & 0x8000 != 0 {
        CompressionType::Bz_1
    } else {
        CompressionType::Uncompressed
    }
}

/// The image of `w` by `h` pixels in the body `g` of a file, with its palette of
/// `pal_size` colours, or with the name of its palette where `external` is set.
pub open spec fn ccpi_body(g: Seq<u8>, status: ItpStatus, external: bool, pal_size: nat, w: int, h: int, cw: int, ch: int) -> Result<
    (PaletteView, Seq<u8>),
    ReadError,
> {
    match palette_at(g, 0, ItpStatus { compression: CompressionType::Uncompressed, ..status }, external, pal_size) {
        Err(e) => Err(e),
        Ok((pal, p)) => match ccpi_rows(g, p, w, h, cw, ch, 0, blank((w * h) as nat)) {
            Err(e) => Err(e),
            Ok((pixels, end)) => if end != g.len() {
                Err(ReadError::RemainingData)
            } else {
                Ok((pal, pixels))
            },
        },
    }
}

/// The image that the tile-dictionary file `s` holds behind its first four bytes,
/// which gave `status`.
pub open spec fn ccpi_image(s: Seq<u8>, at: int, status: ItpStatus) -> Result<ItpView, ReadError> {
    if !avail(s, at, 8) {
        Err(ReadError::UnexpectedEnd)
    } else if le32(s, at + 4) != CCPI_MAGIC {
        Err(ReadError::Mismatch { expected: CCPI_MAGIC, found: le32(s, at + 4) })
    } else if !avail(s, at + 8, 12) {
        Err(ReadError::UnexpectedEnd)
    } else if le16(s, at + 8) != 6 && le16(s, at + 8) != 7 {
        Err(ReadError::CcpiVersion { version: le16(s, at + 8) })
    } else if s[at + 12] >= 64 {
        Err(ReadError::Invalid { field: Field::CcpiTileWidth, value: s[at + 12] as u32 })
    } else if s[at + 13] >= 64 {
        Err(ReadError::Invalid { field: Field::CcpiTileHeight, value: s[at + 13] as u32 })
    } else if le32(s, at) < 16 {
        Err(ReadError::WrongSize)
    } else {
        let flags = le16(s, at + 18);
        let w = le16(s, at + 14) as int;
        let h = le16(s, at + 16) as int;
        match stored_bytes(s, at + 20, ccpi_compression(flags), (le32(s, at) - 16) as nat) {
            Err(e) => Err(e),
            Ok((g, _)) => match ccpi_body(
                g,
                status,
                flags & 0x200 != 0,
                le16(s, at + 10) as nat,
                w,
                h,
                tile_side(s[at + 12]),
                tile_side(s[at + 13]),
            ) {
                Err(e) => Err(e),
                Ok((pal, pixels)) => Ok(
                    ItpView {
                        status: ItpStatus { compression: ccpi_compression(flags), ..status },
                        image: ImageView {
                            kind: PixelKind::Indexed,
                            palette: Some(pal),
                            levels: seq![
                                RasterView {
                                    width: w as nat,
                                    height: h as nat,
                                    data: Seq::new(pixels.len(), |i: int| pixels[i] as nat),
                                },
                            ],
                        },
                    },
                ),
            },
        }
    }
}

/// Builds the dictionary of a tile that stores `n` entries from `dict_at` on.
///
/// The dictionary has an entry for every selector byte, so no selector leads
/// outside it.
pub fn read_dictionary(data: &[u8], dict_at: usize, n: u8) -> (table: Vec<u8>)
    requires
        dict_at + 4 * n <= data@.len(),
    ensures
        table@ == dictionary(data@, dict_at as int, n as int),
        table@.len() == 4 * DICTIONARY_ENTRIES,
{
    let len: usize = data.len();
    let mut table: Vec<u8> = Vec::with_capacity(1024);
    let count: usize = n as usize;
    let mut i: usize = 0;
    while i < 256
        invariant
            i <= 256,
            count == n,
            len == data@.len(),
            dict_at + 4 * n <= len,
            table@.len() == 4 * i,
            forall|k: int| 0 <= k < 4 * i ==> #[trigger] table@[k] == dictionary_byte(data@, dict_at as int, n as int, k / 4, k % 4),
        decreases 256 - i,
    {
        let mut j: usize = 0;
        while j < 4
            invariant
                j <= 4,
                i < 256,
                count == n,
                len == data@.len(),
                dict_at + 4 * n <= len,
                table@.len() == 4 * i + j,
                forall|k: int| 0 <= k < 4 * i + j ==> #[trigger] table@[k] == dictionary_byte(data@, dict_at as int, n as int, k / 4, k % 4),
            decreases 4 - j,
        {
            let fx: usize = if j == 0 { 1 } else if j == 1 { 0 } else if j == 2 { 3 } else { 2 };
            let fy: usize = if j == 0 { 2 } else if j == 1 { 3 } else if j == 2 { 0 } else { 1 };
            let fxy: usize = if fy == 0 { 1 } else if fy == 1 { 0 } else if fy == 2 { 3 } else { 2 };
            let b: u8 = if i < count {
                data[dict_at + 4 * i + j]
            } else if i < 2 * count {
                data[dict_at + 4 * (i - count) + fx]
            } else if i < 3 * count {
                data[dict_at + 4 * (i - 2 * count) + fy]
            } else if i < 4 * count {
                data[dict_at + 4 * (i - 3 * count) + fxy]
            } else {
                0
            };
            assert((4 * i + j) / 4 == i && (4 * i + j) % 4 == j);
            table.push(b);
            j += 1;
        }
        i += 1;
    }
    assert(table@ =~= dictionary(data@, dict_at as int, n as int));
    table
}

/// Reads the tile of `len` bytes stored at `p`, patch after patch.
pub fn read_ccpi_chunk(data: &[u8], p: usize, len: usize) -> (r: Result<(Vec<u8>, usize), ReadError>)
    requires
        p <= data@.len(),
    ensures
        match r {
            Ok((chunk, end)) => ccpi_chunk(data@, p as int, len as int) == Ok::<(Seq<u8>, int), ReadError>(
                (chunk@, end as int),
            ) && p <= end <= data@.len() && chunk@.len() == len,
            Err(e) => ccpi_chunk(data@, p as int, len as int) == Err::<(Seq<u8>, int), ReadError>(e),
        },
{
    let total: usize = data.len();
    if p >= total {
        return Err(ReadError::UnexpectedEnd);
    }
    let n: u8 = data[p];
    if 4 * (n as usize) > total - (p + 1) {
        return Err(ReadError::UnexpectedEnd);
    }
    let table = read_dictionary(data, p + 1, n);
    let mut chunk: Vec<u8> = Vec::new();
    let mut at: usize = p + 1 + 4 * (n as usize);
    let mut last: usize = 0;
    while chunk.len() < len
        invariant
            p < total,
            n == data@[p as int],
            p + 1 + 4 * n <= at <= total,
            total == data@.len(),
            last < 256,
            table@ == dictionary(data@, p + 1, n as int),
            table@.len() == 1024,
            selected(data@, p + 1 + 4 * n, table@, len as int, 0, Seq::empty()) == selected(
                data@,
                at as int,
                table@,
                len as int,
                last as int,
                chunk@,
            ),
        decreases total - at,
    {
        if at >= total {
            return Err(ReadError::UnexpectedEnd);
        }
        let b: u8 = data[at];
        if b == 0xFF {
            if at + 1 >= total {
                return Err(ReadError::UnexpectedEnd);
            }
            let times: u8 = data[at + 1];
            let ghost before = chunk@;
            let mut t: u8 = 0;
            while t < times
                invariant
                    t <= times,
                    last < 256,
                    table@.len() == 1024,
                    repeated(before, entry(table@, last as int), times as int) == repeated(
                        chunk@,
                        entry(table@, last as int),
                        times - t,
                    ),
                decreases times - t,
            {
                push_entry(&mut chunk, &table, last);
                t += 1;
            }
            at += 2;
        } else {
            last = b as usize;
            push_entry(&mut chunk, &table, last);
            at += 1;
        }
    }
    if chunk.len() != len {
        return Err(ReadError::WrongSize);
    }
    Ok((chunk, at))
}

/// Appends the four bytes of a dictionary entry.
fn push_entry(chunk: &mut Vec<u8>, table: &Vec<u8>, i: usize)
    requires
        i < 256,
        table@.len() == 1024,
    ensures
        final(chunk)@ == old(chunk)@ + entry(table@, i as int),
{
    chunk.push(table[4 * i]);
    chunk.push(table[4 * i + 1]);
    chunk.push(table[4 * i + 2]);
    chunk.push(table[4 * i + 3]);
    assert(chunk@ =~= old(chunk)@ + entry(table@, i as int));
}

/// Writes the `n` pixels of `tile` from `from` on over those of `image` from `base` on.
fn place_row(image: &mut Vec<u8>, base: usize, tile: &Vec<u8>, from: usize, n: usize)
    requires
        base + n <= old(image)@.len(),
        from + n <= tile@.len(),
    ensures
        final(image)@ == placed(old(image)@, base as int, tile@.subrange(from as int, from + n)),
{
    let mut c: usize = 0;
    let image_len: usize = image.len();
    let tile_len: usize = tile.len();
    while c < n
        invariant
            c <= n,
            image_len == image@.len(),
            tile_len == tile@.len(),
            base + n <= image@.len(),
            from + n <= tile@.len(),
            image@.len() == old(image)@.len(),
            forall|i: int| 0 <= i < image@.len() ==> #[trigger] image@[i] == (if base <= i < base + c {
                tile@[from + i - base]
            } else {
                old(image)@[i]
            }),
        decreases n - c,
    {
        image.set(base + c, tile[from + c]);
        c += 1;
    }
    assert(image@ =~= placed(old(image)@, base as int, tile@.subrange(from as int, from + n)));
}

/// Writes a tile of `tw` by `th` pixels over the rectangle of `image` whose corner
/// is `(x0, y0)`.
fn blit(image: &mut Vec<u8>, w: usize, h: usize, x0: usize, y0: usize, tw: usize, th: usize, tile: &Vec<u8>)
    requires
        old(image)@.len() == w * h,
        tile@.len() == tw * th,
        x0 + tw <= w,
        y0 + th <= h,
    ensures
        final(image)@ == blitted(old(image)@, w as int, x0 as int, y0 as int, tw as int, th as int, tile@, 0),
        final(image)@.len() == old(image)@.len(),
{
    let mut r: usize = 0;
    let total: usize = image.len();
    let tile_len: usize = tile.len();
    while r < th
        invariant
            r <= th,
            total == w * h,
            tile_len == tw * th,
            image@.len() == w * h,
            tile@.len() == tw * th,
            x0 + tw <= w,
            y0 + th <= h,
            blitted(old(image)@, w as int, x0 as int, y0 as int, tw as int, th as int, tile@, 0) == blitted(
                image@,
                w as int,
                x0 as int,
                y0 as int,
                tw as int,
                th as int,
                tile@,
                r as int,
            ),
        decreases th - r,
    {
        proof {
            assert((y0 + r) * w + w <= h * w) by (nonlinear_arith)
                requires
                    y0 + r + 1 <= h,
                    w >= 0,
            ;
            assert(h * w == w * h) by (nonlinear_arith);
            assert((y0 + r) * w >= 0) by (nonlinear_arith)
                requires
                    y0 + r >= 0,
                    w >= 0,
            ;
            assert(r * tw + tw <= tw * th && r * tw >= 0 && (r + 1) * tw == r * tw + tw) by (nonlinear_arith)
                requires
                    0 <= r,
                    r + 1 <= th,
                    tw >= 0,
            ;
        }
        place_row(image, (y0 + r) * w + x0, tile, r * tw, tw);
        r += 1;
    }
}

/// Reads the tile of `tw` by `th` pixels stored at `p`.
pub fn read_ccpi_tile(data: &[u8], p: usize, tw: usize, th: usize) -> (r: Result<(Vec<u8>, usize), ReadError>)
    requires
        p <= data@.len(),
        tw <= 65535,
        th <= 65535,
    ensures
        match r {
            Ok((tile, end)) => ccpi_tile(data@, p as int, tw as int, th as int) == Ok::<(Seq<u8>, int), ReadError>(
                (tile@, end as int),
            ) && p <= end <= data@.len() && tile@.len() == tw * th,
            Err(e) => ccpi_tile(data@, p as int, tw as int, th as int) == Err::<(Seq<u8>, int), ReadError>(e),
        },
{
    proof {
        assert(0 <= tw * th <= 65535 * 65535) by (nonlinear_arith)
            requires
                0 <= tw <= 65535,
                0 <= th <= 65535,
        ;
    }
    let (mut chunk, end) = match read_ccpi_chunk(data, p, tw * th) {
        Ok(found) => found,
        Err(e) => {
            return Err(e);
        },
    };
    if tw % 2 != 0 || th % 2 != 0 {
        return Err(ReadError::Dimensions { width: tw as u32, height: th as u32 });
    }
    unswizzle(&mut chunk, th, tw, 2, 2);
    Ok((chunk, end))
}

/// The side of a tile: two to the power of the stored exponent.
fn side(log: u8) -> (n: usize)
    requires
        log < 64,
    ensures
        n == tile_side(log),
        1 <= n <= 65536,
{
    proof {
        reveal_with_fuel(tile_side, 17);
    }
    match log {
        0 => 1,
        1 => 2,
        2 => 4,
        3 => 8,
        4 => 16,
        5 => 32,
        6 => 64,
        7 => 128,
        8 => 256,
        9 => 512,
        10 => 1024,
        11 => 2048,
        12 => 4096,
        13 => 8192,
        14 => 16384,
        15 => 32768,
        _ => 65536,
    }
}

/// Reads the tiles of an image of `w` by `h` pixels, row of tiles after row of tiles.
pub fn read_ccpi_tiles(data: &[u8], p: usize, w: usize, h: usize, cw: usize, ch: usize) -> (r: Result<
    (Vec<u8>, usize),
    ReadError,
>)
    requires
        p <= data@.len(),
        w <= 65535,
        h <= 65535,
        1 <= cw <= 65536,
        1 <= ch <= 65536,
    ensures
        match r {
            Ok((pixels, end)) => ccpi_rows(
                data@,
                p as int,
                w as int,
                h as int,
                cw as int,
                ch as int,
                0,
                blank((w * h) as nat),
            ) == Ok::<(Seq<u8>, int), ReadError>((pixels@, end as int)) && p <= end <= data@.len() && pixels@.len()
                == w * h,
            Err(e) => ccpi_rows(
                data@,
                p as int,
                w as int,
                h as int,
                cw as int,
                ch as int,
                0,
                blank((w * h) as nat),
            ) == Err::<(Seq<u8>, int), ReadError>(e),
        },
{
    proof {
        assert(0 <= w * h <= 65535 * 65535) by (nonlinear_arith)
            requires
                0 <= w <= 65535,
                0 <= h <= 65535,
        ;
    }
    let total: usize = w * h;
    let mut pixels: Vec<u8> = Vec::with_capacity(total);
    let mut i: usize = 0;
    while i < total
        invariant
            i <= total,
            pixels@.len() == i,
            forall|k: int| 0 <= k < i ==> #[trigger] pixels@[k] == 0u8,
        decreases total - i,
    {
        pixels.push(0);
        i += 1;
    }
    assert(pixels@ =~= blank((w * h) as nat));
    let ghost start = pixels@;
    let mut at: usize = p;
    let mut y0: usize = 0;
    while y0 < h
        invariant
            p <= at <= data@.len(),
            w <= 65535,
            h <= 65535,
            1 <= cw <= 65536,
            1 <= ch <= 65536,
            total == w * h,
            pixels@.len() == total,
            start == blank((w * h) as nat),
            ccpi_rows(data@, p as int, w as int, h as int, cw as int, ch as int, 0, start) == ccpi_rows(
                data@,
                at as int,
                w as int,
                h as int,
                cw as int,
                ch as int,
                y0 as int,
                pixels@,
            ),
        decreases (if y0 < h { h - y0 } else { 0 }),
    {
        let th: usize = if ch <= h - y0 { ch } else { h - y0 };
        let ghost row_at = at;
        let ghost row_start = pixels@;
        let mut x0: usize = 0;
        while x0 < w
            invariant
                p <= at <= data@.len(),
                w <= 65535,
                h <= 65535,
                y0 < h,
                1 <= cw <= 65536,
                1 <= ch <= 65536,
                th == min(ch as int, h - y0),
                total == w * h,
                pixels@.len() == total,
                start == blank((w * h) as nat),
                ccpi_rows(data@, p as int, w as int, h as int, cw as int, ch as int, 0, start) == ccpi_rows(
                    data@,
                    row_at as int,
                    w as int,
                    h as int,
                    cw as int,
                    ch as int,
                    y0 as int,
                    row_start,
                ),
                ccpi_cols(data@, row_at as int, w as int, h as int, cw as int, ch as int, y0 as int, 0, row_start)
                    == ccpi_cols(
                    data@,
                    at as int,
                    w as int,
                    h as int,
                    cw as int,
                    ch as int,
                    y0 as int,
                    x0 as int,
                    pixels@,
                ),
            decreases (if x0 < w { w - x0 } else { 0 }),
        {
            let tw: usize = if cw <= w - x0 { cw } else { w - x0 };
            match read_ccpi_tile(data, at, tw, th) {
                Err(e) => {
                    return Err(e);
                },
                Ok((tile, next)) => {
                    blit(&mut pixels, w, h, x0, y0, tw, th, &tile);
                    at = next;
                    x0 = x0 + cw;
                },
            }
        }
        y0 = y0 + ch;
    }
    Ok((pixels, at))
}

/// Reads the file behind its first four bytes, which named the tile-dictionary format and gave
/// `status`.
pub fn read_ccpi(data: &[u8], at: usize, status: ItpStatus) -> (r: Result<Itp, ReadError>)
    requires
        at <= data@.len(),
    ensures
        match r {
            Ok(itp) => ccpi_image(data@, at as int, status) == Ok::<ItpView, ReadError>(itp@),
            Err(e) => ccpi_image(data@, at as int, status) == Err::<ItpView, ReadError>(e),
        },
{
    let len: usize = data.len();
    if len - at < 8 {
        return Err(ReadError::UnexpectedEnd);
    }
    let data_size: u32 = match get_u32(data, at) {
        Ok(v) => v,
        Err(e) => {
            return Err(e);
        },
    };
    let magic: u32 = match get_u32(data, at + 4) {
        Ok(v) => v,
        Err(e) => {
            return Err(e);
        },
    };
    if magic != CCPI_MAGIC {
        return Err(ReadError::Mismatch { expected: CCPI_MAGIC, found: magic });
    }
    if len - at < 20 {
        return Err(ReadError::UnexpectedEnd);
    }
    let version: u16 = match get_u16(data, at + 8) {
        Ok(v) => v,
        Err(e) => {
            return Err(e);
        },
    };
    let pal_size: u16 = match get_u16(data, at + 10) {
        Ok(v) => v,
        Err(e) => {
            return Err(e);
        },
    };
    let cw_log: u8 = data[at + 12];
    let ch_log: u8 = data[at + 13];
    let w: u16 = match get_u16(data, at + 14) {
        Ok(v) => v,
        Err(e) => {
            return Err(e);
        },
    };
    let h: u16 = match get_u16(data, at + 16) {
        Ok(v) => v,
        Err(e) => {
            return Err(e);
        },
    };
    let flags: u16 = match get_u16(data, at + 18) {
        Ok(v) => v,
        Err(e) => {
            return Err(e);
        },
    };
    if version != 6 && version != 7 {
        return Err(ReadError::CcpiVersion { version });
    }
    if cw_log >= 64 {
        return Err(ReadError::Invalid { field: Field::CcpiTileWidth, value: cw_log as u32 });
    }
    if ch_log >= 64 {
        return Err(ReadError::Invalid { field: Field::CcpiTileHeight, value: ch_log as u32 });
    }
    if data_size < 16 {
        return Err(ReadError::WrongSize);
    }
    let compression = if flags & 0x8000 != 0 {
        CompressionType::Bz_1
    } else {
        CompressionType::Uncompressed
    };
    let (body, _) = match read_maybe_compressed(data, at + 20, compression, (data_size - 16) as u128) {
        Ok(found) => found,
        Err(e) => {
            return Err(e);
        },
    };
    let plain = ItpStatus { compression: CompressionType::Uncompressed, ..status };
    let (pal, p) = match read_ipal(body.as_slice(), 0, &plain, flags & 0x200 != 0, pal_size as usize) {
        Ok(found) => found,
        Err(e) => {
            return Err(e);
        },
    };
    let (pixels, end) = match read_ccpi_tiles(body.as_slice(), p, w as usize, h as usize, side(cw_log), side(ch_log)) {
        Ok(found) => found,
        Err(e) => {
            return Err(e);
        },
    };
    if end != body.len() {
        return Err(ReadError::RemainingData);
    }
    let raster: Raster<u8> = Raster::new_with(w as usize, h as usize, pixels);
    let mut levels: Vec<Raster<u8>> = Vec::new();
    levels.push(raster);
    let itp = Itp {
        status: ItpStatus { compression, ..status },
        data: ImageData::Indexed(pal, levels),
    };
    proof {
        let want = ccpi_image(data@, at as int, status);
        assert(want is Ok);
        assert(itp@.image.levels =~= want.unwrap().image.levels) by {
            assert(itp@.image.levels[0].data =~= want.unwrap().image.levels[0].data);
        }
    }
    Ok(itp)
}

/// The patches of a tile as numbers: each patch of four bytes is read as one number.
pub open spec fn patch_values(chunk: Seq<u8>) -> Seq<u32> {
    Seq::new(chunk.len() / 4, |i: int| le32(chunk, 4 * i))
}

/// The different patches of a tile, in the order in which they first appear.
pub open spec fn entries(chunk: Seq<u8>) -> Seq<u32> {
    distinct(patch_values(chunk), chunk.len() as int / 4)
}

/// The bytes of dictionary entries, four for each.
pub open spec fn entry_bytes(entries: Seq<u32>) -> Seq<u8> {
    Seq::new(4 * entries.len(), |k: int| bytes32(entries[k / 4])[k % 4])
}

/// A tile as it is stored: the number of its different patches, these patches as
/// the dictionary, and one selector for each patch of the tile, which names the
/// dictionary entry that the patch is.
pub open spec fn chunk_bytes(chunk: Seq<u8>) -> Seq<u8> {
    seq![entries(chunk).len() as u8] + entry_bytes(entries(chunk)) + Seq::new(
        chunk.len() / 4,
        |i: int| first_index(entries(chunk), patch_values(chunk)[i]) as u8,
    )
}

/// The first position of `v` in `entries`, or the length of `entries`.
fn find_entry(entries: &Vec<u32>, v: u32) -> (at: usize)
    ensures
        at == first_index(entries@, v),
        at <= entries@.len(),
{
    let n: usize = entries.len();
    let mut k: usize = 0;
    assert(entries@.subrange(0, n as int) =~= entries@);
    while k < n && entries[k] != v
        invariant
            k <= n,
            n == entries@.len(),
            first_index(entries@, v) == k + first_index(entries@.subrange(k as int, n as int), v),
        decreases n - k,
    {
        proof {
            let rest = entries@.subrange(k as int, n as int);
            assert(rest.drop_first() =~= entries@.subrange(k + 1, n as int));
        }
        k += 1;
    }
    proof {
        lemma_first_index(entries@.subrange(k as int, n as int), v);
    }
    k
}

/// Encodes one tile, given patch after patch.
///
/// A tile of 255 different patches or fewer can be stored, however many patches
/// it has: its selectors run from 0 to 254 at most, and none of them is the
/// selector that asks for a repetition.
pub fn encode_ccpi_chunk(chunk: &[u8]) -> (v: Vec<u8>)
    requires
        entries(chunk@).len() <= 255,
    ensures
        v@ == chunk_bytes(chunk@),
{
    let len: usize = chunk.len();
    let n: usize = len / 4;
    let ghost values = patch_values(chunk@);
    let mut dict: Vec<u32> = Vec::new();
    let mut i: usize = 0;
    while i < n
        invariant
            i <= n,
            len == chunk@.len(),
            n == len / 4,
            values == patch_values(chunk@),
            dict@ == distinct(values, i as int),
        decreases n - i,
    {
        proof {
            lemma_pow256_values();
        }
        let value: u32 = read_le(chunk, 4 * i, 4) as u32;
        let at: usize = find_entry(&dict, value);
        proof {
            lemma_first_index(dict@, value);
        }
        if at == dict.len() {
            dict.push(value);
        }
        i += 1;
    }
    let count: usize = dict.len();
    let mut v: Vec<u8> = Vec::new();
    v.push(count as u8);
    let mut k: usize = 0;
    while k < count
        invariant
            k <= count,
            count == dict@.len(),
            v@.len() == 1 + 4 * k,
            v@[0] == count as u8,
            forall|t: int| 1 <= t < 1 + 4 * k ==> #[trigger] v@[t] == entry_bytes(dict@)[t - 1],
        decreases count - k,
    {
        let ghost before = v@;
        put_u32(&mut v, dict[k]);
        proof {
            assert forall|t: int| 1 <= t < 1 + 4 * (k + 1) implies #[trigger] v@[t] == entry_bytes(dict@)[t - 1] by {
                if t < 1 + 4 * k {
                    assert(v@[t] == before[t]);
                } else {
                    assert((t - 1) / 4 == k as int);
                    assert((t - 1) % 4 == t - 1 - 4 * k);
                    assert(v@[t] == bytes32(dict@[k as int])[t - 1 - 4 * k]);
                }
            }
        }
        k += 1;
    }
    let ghost head = v@;
    assert(head =~= seq![count as u8] + entry_bytes(dict@));
    i = 0;
    while i < n
        invariant
            i <= n,
            len == chunk@.len(),
            n == len / 4,
            values == patch_values(chunk@),
            dict@ == entries(chunk@),
            head == seq![count as u8] + entry_bytes(dict@),
            count == dict@.len(),
            v@.len() == head.len() + i,
            forall|j: int| 0 <= j < head.len() ==> #[trigger] v@[j] == head[j],
            forall|t: int|
                head.len() <= t < head.len() + i ==> #[trigger] v@[t] == first_index(
                    dict@,
                    values[t - head.len()],
                ) as u8,
        decreases n - i,
    {
        proof {
            lemma_pow256_values();
        }
        let value: u32 = read_le(chunk, 4 * i, 4) as u32;
        let at: usize = find_entry(&dict, value);
        v.push(at as u8);
        i += 1;
    }
    assert(v@ =~= chunk_bytes(chunk@));
    v
}

/// The pixels of the rectangle of `image` whose corner is `(x0, y0)`, from row `r`
/// of the rectangle on and row after row, behind those in `done`.
pub open spec fn gathered(image: Seq<u8>, w: int, x0: int, y0: int, tw: int, th: int, r: int, done: Seq<u8>) -> Seq<u8>
    decreases th - r,
{
    if r >= th {
        done
    } else {
        gathered(image, w, x0, y0, tw, th, r + 1, done + image.subrange((y0 + r) * w + x0, (y0 + r) * w + x0 + tw))
    }
}

/// The tile of `tw` by `th` pixels at `(x0, y0)` as it is stored.
pub open spec fn tile_bytes(image: Seq<u8>, w: int, x0: int, y0: int, tw: int, th: int) -> Result<Seq<u8>, WriteError> {
    if tw % 2 != 0 || th % 2 != 0 {
        Err(WriteError::Dimensions { width: tw as usize, height: th as usize })
    } else {
        Ok(chunk_bytes(swizzled(gathered(image, w, x0, y0, tw, th, 0, Seq::empty()), tw / 2, 2, 2)))
    }
}

/// The width of the tiles that encoding cuts an image into.
pub const TILE_WIDTH: usize = 16;

/// The height of the tiles that encoding cuts an image into.
pub const TILE_HEIGHT: usize = 32;

/// One row of tiles as it is stored, from the tile at column `x0` on, behind `out`.
pub open spec fn tile_row_bytes(image: Seq<u8>, w: int, h: int, y0: int, x0: int, out: Seq<u8>) -> Result<
    Seq<u8>,
    WriteError,
>
    decreases (if x0 < w { w - x0 } else { 0 }),
{
    if x0 >= w {
        Ok(out)
    } else {
        match tile_bytes(image, w, x0, y0, min(16, w - x0), min(32, h - y0)) {
            Err(e) => Err(e),
            Ok(tile) => tile_row_bytes(image, w, h, y0, x0 + 16, out + tile),
        }
    }
}

/// The rows of tiles as they are stored, from the row of tiles at `y0` on, behind `out`.
pub open spec fn tile_rows_bytes(image: Seq<u8>, w: int, h: int, y0: int, out: Seq<u8>) -> Result<
    Seq<u8>,
    WriteError,
>
    decreases (if y0 < h { h - y0 } else { 0 }),
{
    if y0 >= h {
        Ok(out)
    } else {
        match tile_row_bytes(image, w, h, y0, 0, out) {
            Err(e) => Err(e),
            Ok(next) => tile_rows_bytes(image, w, h, y0 + 32, next),
        }
    }
}

/// The tiles of a raster as they are stored: tiles of 16 by 32 pixels, cut short
/// at the right and lower edges, row of tiles after row of tiles.
pub open spec fn ccpi_tiles_bytes(level: RasterView<u8>) -> Result<Seq<u8>, WriteError> {
    tile_rows_bytes(level.data, level.width as int, level.height as int, 0, Seq::empty())
}

/// Gathers the pixels of a rectangle, row after row.
fn gather(pixels: &[u8], w: usize, h: usize, x0: usize, y0: usize, tw: usize, th: usize) -> (chunk: Vec<u8>)
    requires
        pixels@.len() == w * h,
        x0 + tw <= w,
        y0 + th <= h,
        tw <= 16,
        th <= 32,
    ensures
        chunk@ == gathered(pixels@, w as int, x0 as int, y0 as int, tw as int, th as int, 0, Seq::empty()),
        chunk@.len() == tw * th,
{
    let total: usize = pixels.len();
    let mut chunk: Vec<u8> = Vec::new();
    let mut r: usize = 0;
    while r < th
        invariant
            r <= th,
            total == w * h,
            pixels@.len() == w * h,
            x0 + tw <= w,
            y0 + th <= h,
            tw <= 16,
            th <= 32,
            chunk@.len() == r * tw,
            gathered(pixels@, w as int, x0 as int, y0 as int, tw as int, th as int, 0, Seq::empty()) == gathered(
                pixels@,
                w as int,
                x0 as int,
                y0 as int,
                tw as int,
                th as int,
                r as int,
                chunk@,
            ),
        decreases th - r,
    {
        proof {
            assert((y0 + r) * w + w <= h * w) by (nonlinear_arith)
                requires
                    y0 + r + 1 <= h,
                    w >= 0,
            ;
            assert(h * w == w * h) by (nonlinear_arith);
            assert((y0 + r) * w >= 0) by (nonlinear_arith)
                requires
                    y0 + r >= 0,
                    w >= 0,
            ;
            assert((r + 1) * tw == r * tw + tw) by (nonlinear_arith);
        }
        let from: usize = (y0 + r) * w + x0;
        put_slice(&mut chunk, vstd::slice::slice_subrange(pixels, from, from + tw));
        r += 1;
    }
    assert(th * tw == tw * th) by (nonlinear_arith);
    chunk
}

/// Encodes the tiles of a raster. Gives the width and the height of a tile, and the bytes.
pub fn encode_ccpi(pixels: &Raster<u8>) -> (r: Result<(usize, usize, Vec<u8>), WriteError>)
    ensures
        match r {
            Ok((cw, ch, out)) => cw == TILE_WIDTH && ch == TILE_HEIGHT && ccpi_tiles_bytes(pixels@) == Ok::<
                Seq<u8>,
                WriteError,
            >(out@),
            Err(e) => ccpi_tiles_bytes(pixels@) == Err::<Seq<u8>, WriteError>(e),
        },
{
    let w: usize = pixels.width();
    let h: usize = pixels.height();
    let data: &[u8] = pixels.as_slice();
    let mut out: Vec<u8> = Vec::new();
    let mut y0: usize = 0;
    while y0 < h
        invariant
            y0 <= h,
            w == pixels@.width,
            h == pixels@.height,
            data@ == pixels@.data,
            data@.len() == w * h,
            tile_rows_bytes(data@, w as int, h as int, 0, Seq::empty()) == tile_rows_bytes(
                data@,
                w as int,
                h as int,
                y0 as int,
                out@,
            ),
        decreases h - y0,
    {
        let th: usize = if h - y0 <= 32 { h - y0 } else { 32 };
        let ghost row_start = out@;
        let mut x0: usize = 0;
        while x0 < w
            invariant
                x0 <= w,
                y0 < h,
                th == min(32, h - y0),
                w == pixels@.width,
                h == pixels@.height,
                data@ == pixels@.data,
                data@.len() == w * h,
                tile_rows_bytes(data@, w as int, h as int, 0, Seq::empty()) == tile_rows_bytes(
                    data@,
                    w as int,
                    h as int,
                    y0 as int,
                    row_start,
                ),
                tile_row_bytes(data@, w as int, h as int, y0 as int, 0, row_start) == tile_row_bytes(
                    data@,
                    w as int,
                    h as int,
                    y0 as int,
                    x0 as int,
                    out@,
                ),
            decreases w - x0,
        {
            let tw: usize = if w - x0 <= 16 { w - x0 } else { 16 };
            let mut chunk = gather(data, w, h, x0, y0, tw, th);
            if tw % 2 != 0 || th % 2 != 0 {
                return Err(WriteError::Dimensions { width: tw, height: th });
            }
            swizzle(&mut chunk, th, tw, 2, 2);
            proof {
                assert(tw * th <= 16 * 32) by (nonlinear_arith)
                    requires
                        0 <= tw <= 16,
                        0 <= th <= 32,
                ;
            }
            proof {
                lemma_distinct(patch_values(chunk@), chunk@.len() as int / 4);
            }
            let mut tile = encode_ccpi_chunk(chunk.as_slice());
            out.append(&mut tile);
            proof {
                // Behind the last tile of a row every column gives the row as it stands.
                reveal_with_fuel(tile_row_bytes, 2);
            }
            x0 = if w - x0 <= 16 { w } else { x0 + 16 };
        }
        proof {
            reveal_with_fuel(tile_rows_bytes, 2);
        }
        y0 = if h - y0 <= 32 { h } else { y0 + 32 };
    }
    Ok((16, 32, out))
}

/// The numbers of a level as palette indices.
pub open spec fn level_indices(level: RasterView<nat>) -> RasterView<u8> {
    RasterView { width: level.width, height: level.height, data: Seq::new(level.data.len(), |i: int| level.data[i] as u8) }
}

/// The flags of the header: bit 9 for an external palette, bit 15 for compression.
pub open spec fn ccpi_flags(external: bool, comp: CompressionType) -> u16 {
    ((if external { 0x200int } else { 0 }) + (if comp == CompressionType::Bz_1 { 0x8000int } else { 0 })) as u16
}

/// What of a tile-dictionary file stands behind its first four bytes: the length
/// of the body, the header, and the body, which holds the palette and the tiles.
///
/// The format stores an indexed image of one mip level, compressed in the first
/// kind or not at all.
pub open spec fn ccpi_file(itp: ItpView) -> Result<Seq<u8>, WriteError> {
    if itp.image.kind != PixelKind::Indexed || itp.image.palette is None {
        Err(WriteError::CcpiNotIndexed)
    } else if itp.image.levels.len() != 1 {
        Err(WriteError::CcpiMipmaps)
    } else if itp.status.compression != CompressionType::Uncompressed && itp.status.compression
        != CompressionType::Bz_1 {
        Err(WriteError::CcpiCompression)
    } else {
        match ccpi_tiles_bytes(level_indices(itp.image.levels[0])) {
            Err(e) => Err(e),
            Ok(tiles) => {
                let pal = palette_bytes(
                    ItpStatus { compression: CompressionType::Uncompressed, ..itp.status },
                    itp.image.palette.unwrap(),
                    false,
                );
                let g = pal.2 + tiles;
                if !storable(itp.status.compression, g.len()) {
                    Err(WriteError::TooLarge)
                } else {
                    Ok(
                    bytes32(low32(g.len() as int + 16)) + bytes32(CCPI_MAGIC) + bytes16(7) + bytes16(low16(pal.1 as int))
                        + seq![4u8, 5u8] + bytes16(low16(itp.image.levels[0].width as int)) + bytes16(
                        low16(itp.image.levels[0].height as int),
                    ) + bytes16(ccpi_flags(pal.0, itp.status.compression)) + maybe_compressed(
                        itp.status.compression,
                        g,
                    ),
                    )
                }
            },
        }
    }
}

/// The palette indices of a raster are the numbers of its pixels.
pub proof fn lemma_level_indices(level: RasterView<u8>)
    ensures
        level_indices(raster_values(level)) == level,
{
    assert(level_indices(raster_values(level)).data =~= level.data);
}

/// Encodes what of a tile-dictionary file stands behind its first four bytes.
pub fn write_ccpi(itp: &Itp) -> (r: Result<Vec<u8>, WriteError>)
    ensures
        match r {
            Ok(out) => ccpi_file(itp@) == Ok::<Seq<u8>, WriteError>(out@),
            Err(e) => ccpi_file(itp@) == Err::<Seq<u8>, WriteError>(e),
        },
{
    let (pal, levels) = match &itp.data {
        ImageData::Indexed(pal, levels) => (pal, levels),
        _ => {
            return Err(WriteError::CcpiNotIndexed);
        },
    };
    if levels.len() != 1 {
        return Err(WriteError::CcpiMipmaps);
    }
    let pixels: &Raster<u8> = &levels[0];
    let plain = ItpStatus {
        itp_revision: itp.status.itp_revision,
        base_format: itp.status.base_format,
        compression: CompressionType::Uncompressed,
        pixel_format: itp.status.pixel_format,
        pixel_bit_format: itp.status.pixel_bit_format,
        multi_plane: itp.status.multi_plane,
        mipmap: itp.status.mipmap,
        use_alpha: itp.status.use_alpha,
    };
    let (external, pal_size, mut g) = write_ipal(&plain, pal, false);
    let mut flags: u16 = 0;
    if external {
        flags = flags + 0x200;
    }
    match itp.status.compression {
        CompressionType::Uncompressed => {},
        CompressionType::Bz_1 => {
            flags = flags + 0x8000;
        },
        _ => {
            return Err(WriteError::CcpiCompression);
        },
    }
    proof {
        lemma_level_indices(pixels@);
    }
    let (_, _, mut tiles) = encode_ccpi(pixels)?;
    g.append(&mut tiles);
    let mut out: Vec<u8> = Vec::new();
    put_u32(&mut out, to_low32(g.len() as u128 + 16));
    put_u32(&mut out, CCPI_MAGIC);
    put_u16(&mut out, 7);
    put_u16(&mut out, to_low16(pal_size as u128));
    out.push(4);
    out.push(5);
    put_u16(&mut out, to_low16(pixels.width() as u128));
    put_u16(&mut out, to_low16(pixels.height() as u128));
    put_u16(&mut out, flags);
    if !is_storable(itp.status.compression, g.len()) {
        return Err(WriteError::TooLarge);
    }
    let mut stored = maybe_compress(itp.status.compression, g);
    out.append(&mut stored);
    proof {
        let want = ccpi_file(itp@);
        assert(want is Ok);
        assert(out@ =~= want.unwrap());
    }
    Ok(out)
}

/// Every selector byte names an entry of the dictionary: the dictionary has 256
/// entries, whatever the number of entries stored.
pub proof fn lemma_selector_in_dictionary(s: Seq<u8>, dict_at: int, n: int, selector: u8)
    ensures
        dictionary(s, dict_at, n).len() == 4 * 256,
        0 <= 4 * selector && 4 * selector + 4 <= dictionary(s, dict_at, n).len(),
        entry(dictionary(s, dict_at, n), selector as int).len() == 4,
        selector >= 4 * n ==> entry(dictionary(s, dict_at, n), selector as int) == seq![0u8, 0u8, 0u8, 0u8],
{
    let e = entry(dictionary(s, dict_at, n), selector as int);
    if selector >= 4 * n {
        assert forall|j: int| 0 <= j < 4 implies e[j] == 0u8 by {
            assert((4 * selector + j) / 4 == selector as int);
        }
        assert(e =~= seq![0u8, 0u8, 0u8, 0u8]);
    }
}

/// The bytes of a patch spell the number that the patch is read as.
pub proof fn lemma_patch_bytes(chunk: Seq<u8>, i: int)
    requires
        0 <= i < chunk.len() / 4,
    ensures
        bytes32(le32(chunk, 4 * i)) == chunk.subrange(4 * i, 4 * i + 4),
{
    let part = chunk.subrange(4 * i, 4 * i + 4);
    lemma_le_value_bound(part);
    lemma_pow256_values();
    lemma_le_bytes_of_value(part);
    lemma_bytes_of_numbers(le32(chunk, 4 * i), 0);
}

/// The encoding of a tile starts with the number of its different patches, and
/// each of its selectors names one of them: none is the selector that asks for a
/// repetition.
pub proof fn lemma_chunk_selectors(chunk: Seq<u8>, i: int)
    requires
        entries(chunk).len() <= 255,
        0 <= i < chunk.len() / 4,
    ensures
        chunk_bytes(chunk).len() == 1 + 4 * entries(chunk).len() + chunk.len() / 4,
        chunk_bytes(chunk)[0] == entries(chunk).len(),
        chunk_bytes(chunk)[1 + 4 * entries(chunk).len() + i] < entries(chunk).len(),
        chunk_bytes(chunk)[1 + 4 * entries(chunk).len() + i] != 0xFF,
{
    let values = patch_values(chunk);
    lemma_distinct(values, chunk.len() as int / 4);
    assert(entries(chunk).contains(values[i]));
    lemma_first_index(entries(chunk), values[i]);
}

/// Selectors that each name the dictionary entry of their patch stand for the tile.
proof fn lemma_selected(chunk: Seq<u8>, s: Seq<u8>, table: Seq<u8>, base: int, n: int, i: int, last: int)
    requires
        chunk.len() == 4 * n,
        0 <= i <= n,
        0 <= base,
        s.len() >= base + n,
        forall|k: int|
            0 <= k < n ==> (#[trigger] s[base + k]) != 0xFF && entry(table, s[base + k] as int) == chunk.subrange(
                4 * k,
                4 * k + 4,
            ),
    ensures
        selected(s, base + i, table, 4 * n, last, chunk.subrange(0, 4 * i)) == Ok::<(Seq<u8>, int), ReadError>(
            (chunk, base + n),
        ),
    decreases n - i,
{
    if i == n {
        assert(chunk.subrange(0, 4 * i) =~= chunk);
    } else {
        assert(s[base + i] != 0xFF);
        assert(chunk.subrange(0, 4 * i) + chunk.subrange(4 * i, 4 * i + 4) =~= chunk.subrange(0, 4 * (i + 1)));
        lemma_selected(chunk, s, table, base, n, i + 1, s[base + i] as int);
    }
}

/// Decoding the encoding of a tile gives the tile back, whatever follows the
/// encoding. A tile of 255 different patches or fewer can be encoded, however
/// many patches it has.
pub proof fn lemma_ccpi_chunk_round_trip(chunk: Seq<u8>, rest: Seq<u8>)
    requires
        chunk.len() % 4 == 0,
        entries(chunk).len() <= 255,
    ensures
        ccpi_chunk(chunk_bytes(chunk) + rest, 0, chunk.len() as int) == Ok::<(Seq<u8>, int), ReadError>(
            (chunk, chunk_bytes(chunk).len() as int),
        ),
{
    let n = chunk.len() as int / 4;
    let values = patch_values(chunk);
    let dict = entries(chunk);
    let m = dict.len() as int;
    let s = chunk_bytes(chunk) + rest;
    let table = dictionary(s, 1, m);
    let base = 1 + 4 * m;
    lemma_distinct(values, n);
    assert(s[0] == m as u8);
    assert forall|k: int| 0 <= k < 4 * m implies #[trigger] table[k] == entry_bytes(dict)[k] by {
        assert(k / 4 < m);
        assert(4 * (k / 4) + k % 4 == k);
        assert(s[1 + k] == entry_bytes(dict)[k]);
    }
    assert forall|k: int| 0 <= k < n implies (#[trigger] s[base + k]) != 0xFF && entry(table, s[base + k] as int)
        == chunk.subrange(4 * k, 4 * k + 4) by {
        let at = first_index(dict, values[k]);
        assert(dict.contains(values[k]));
        lemma_first_index(dict, values[k]);
        assert(s[base + k] == chunk_bytes(chunk)[base + k]);
        assert(s[base + k] == at as u8);
        lemma_patch_bytes(chunk, k);
        assert forall|j: int| 0 <= j < 4 implies entry(table, at)[j] == bytes32(dict[at])[j] by {
            assert((4 * at + j) / 4 == at);
            assert((4 * at + j) % 4 == j);
            assert(table[4 * at + j] == entry_bytes(dict)[4 * at + j]);
        }
        assert(entry(table, at) =~= bytes32(dict[at]));
    }
    assert(chunk.subrange(0, 0) =~= Seq::<u8>::empty());
    lemma_selected(chunk, s, table, base, n, 0, 0);
}

} // verus!
