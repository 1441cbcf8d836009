//! The nibble-packed indexed encoding with a local palette for each tile.
//!
//! The image is cut into tiles of 8 rows by 16 columns, stored tile after tile. A
//! tile names at most 16 of the image's palette indices, its local colours, and
//! stores for each pixel which of them it is.
//!
//! The layout: for each tile a nibble that holds the number of its local colours
//! less one, or zero for a tile that is all of index zero; then the local colours
//! of all tiles, one after another; then a byte that selects how the pixels are
//! stored; then the pixels of each tile that has local colours.

use super::PixelFormatType;
use super::read::{do_unswizzle, Field, lemma_source_index, ReadError, source_index, tiles_ok, Unsupported};
use super::write::{do_swizzle, store_index, WriteError};
use crate::bytes::avail;
use crate::raster::{Raster, RasterView};
use vstd::prelude::*;

verus! {

/// The number of pixels in a tile.
pub const TILE_PIXELS: usize = 128;

/// Nibble `k` of the nibbles packed from `base` on, the high half of each byte first.
pub open spec fn nibble(s: Seq<u8>, base: int, k: int) -> u8 {
    if k % 2 == 0 {
        s[base + k / 2] / 16
    } else {
        s[base + k / 2] % 16
    }
}

/// The number of local colours of tile `k`. A nibble is stored for every tile.
pub open spec fn local_count(s: Seq<u8>, tiles: int, k: int) -> int {
    let raw = if k < tiles {
        nibble(s, 0, k) as int
    } else {
        0
    };
    if raw != 0 {
        raw + 1
    } else {
        0
    }
}

/// The number of local colours of the tiles before tile `k`.
pub open spec fn pool_offset(s: Seq<u8>, tiles: int, k: int) -> int
    decreases k,
{
    if k <= 0 {
        0
    } else {
        pool_offset(s, tiles, k - 1) + local_count(s, tiles, k - 1)
    }
}

/// A tile that is all of index zero.
pub open spec fn blank_tile() -> Seq<u8> {
    Seq::new(128, |i: int| 0u8)
}

/// The first of the 128 nibbles from `i` on that names no local colour.
pub open spec fn first_bad_nibble(s: Seq<u8>, q: int, count: int, i: int) -> Option<int>
    decreases 128 - i,
{
    if i >= 128 {
        None
    } else if nibble(s, q, i) >= count {
        Some(i)
    } else {
        first_bad_nibble(s, q, count, i + 1)
    }
}

/// A tile stored as one nibble for each pixel: the number of its local colour.
pub open spec fn raw_tile(s: Seq<u8>, q: int, colors_at: int, count: int) -> Result<(Seq<u8>, int), ReadError> {
    if !avail(s, q, 64) {
        Err(ReadError::UnexpectedEnd)
    } else {
        match first_bad_nibble(s, q, count, 0) {
            Some(i) => Err(ReadError::Invalid { field: Field::LocalColor, value: nibble(s, q, i) as u32 }),
            None => Ok((Seq::new(128, |i: int| s[colors_at + nibble(s, q, i)]), q + 64)),
        }
    }
}

/// `chunk` with the `n` pixels from `pos` on set to `v`.
pub open spec fn filled(chunk: Seq<u8>, pos: int, n: int, v: u8) -> Seq<u8> {
    Seq::new(chunk.len(), |i: int| if pos <= i < pos + n { v } else { chunk[i] })
}

/// A tile stored as runs, from lane `j` on.
///
/// Each of the 16 local colours has a lane of length bytes that ends with `0xFF`.
/// The runs take turns, across lanes too: one is skipped, the next is filled with
/// the lane's colour, one pixel longer than its length byte says, and followed by
/// one pixel more that is skipped.
pub open spec fn run_tile(
    s: Seq<u8>,
    q: int,
    colors_at: int,
    count: int,
    j: int,
    pos: int,
    toggle: bool,
    chunk: Seq<u8>,
) -> Result<(Seq<u8>, int), ReadError>
    decreases 16 - j, s.len() - q,
{
    if j >= 16 {
        Ok((chunk, q))
    } else if !avail(s, q, 1) {
        Err(ReadError::UnexpectedEnd)
    } else {
        let m = s[q] as int;
        if m == 0xFF {
            run_tile(s, q + 1, colors_at, count, j + 1, 0, toggle, chunk)
        } else if toggle {
            if pos + m + 1 > 128 {
                Err(ReadError::Invalid { field: Field::RunLength, value: m as u32 })
            } else if j >= count {
                Err(ReadError::Invalid { field: Field::LocalColor, value: j as u32 })
            } else {
                run_tile(s, q + 1, colors_at, count, j, pos + m + 2, false, filled(chunk, pos, m + 1, s[colors_at + j]))
            }
        } else {
            run_tile(s, q + 1, colors_at, count, j, pos + m, true, chunk)
        }
    }
}

/// The pixels of one tile with `count` local colours at `colors_at`, and the
/// position behind the tile's data.
pub open spec fn fast_tile(s: Seq<u8>, q: int, colors_at: int, count: int, mode: u8) -> Result<
    (Seq<u8>, int),
    ReadError,
> {
    if count == 0 {
        Ok((blank_tile(), q))
    } else if mode == 0 {
        raw_tile(s, q, colors_at, count)
    } else if mode == 1 {
        Err(ReadError::Todo { what: Unsupported::FastModeSubformat })
    } else if !avail(s, q, 1) {
        Err(ReadError::UnexpectedEnd)
    } else if s[q] != 1 {
        Err(ReadError::Todo { what: Unsupported::FastModeTileEncoding })
    } else {
        run_tile(s, q + 1, colors_at, count, 0, 0, false, blank_tile())
    }
}

/// The pixels of the tiles from tile `k` on, behind those in `done`.
pub open spec fn fast_tiles(s: Seq<u8>, tiles: int, pool: int, mode: u8, k: int, q: int, done: Seq<u8>) -> Result<
    (Seq<u8>, int),
    ReadError,
>
    decreases tiles - k,
{
    if k >= tiles {
        Ok((done, q))
    } else {
        match fast_tile(s, q, pool + pool_offset(s, tiles, k), local_count(s, tiles, k), mode) {
            Err(e) => Err(e),
            Ok((chunk, next)) => fast_tiles(s, tiles, pool, mode, k + 1, next, done + chunk),
        }
    }
}

/// The number of tiles of an image.
pub open spec fn tile_count(w: nat, h: nat) -> int {
    ((h / 8) * (w / 16)) as int
}

/// The image that `s` encodes, `w` by `h` pixels in row-major order, and the
/// position behind the encoding.
pub open spec fn fast_mode_pixels(s: Seq<u8>, w: nat, h: nat) -> Result<(Seq<u8>, int), ReadError> {
    let tiles = tile_count(w, h);
    let pool = (tiles + 1) / 2;
    let total = pool_offset(s, tiles, tiles);
    if !avail(s, 0, pool) {
        Err(ReadError::UnexpectedEnd)
    } else if !avail(s, pool, total + 1) {
        Err(ReadError::UnexpectedEnd)
    } else {
        match fast_tiles(s, tiles, pool, s[pool + total], 0, pool + total + 1, Seq::empty()) {
            Err(e) => Err(e),
            Ok((stored, end)) => if !tiles_ok(PixelFormatType::Pfp_1, w, h) {
                Err(ReadError::Dimensions { width: w as u32, height: h as u32 })
            } else {
                Ok((Seq::new(w * h, |i: int| stored[source_index(PixelFormatType::Pfp_1, w, h, i)]), end))
            },
        }
    }
}

/// The colours of the tiles before a tile take at most 16 bytes a tile.
proof fn lemma_pool_offset_bounds(s: Seq<u8>, tiles: int, k: int)
    requires
        0 <= k,
    ensures
        0 <= pool_offset(s, tiles, k) <= 16 * k,
    decreases k,
{
    if k > 0 {
        lemma_pool_offset_bounds(s, tiles, k - 1);
    }
}

/// Half a byte of the data: of each byte the high half comes first.
fn get_nibble(data: &[u8], base: usize, k: u64) -> (v: u8)
    requires
        base + k / 2 < data@.len(),
    ensures
        v == nibble(data@, base as int, k as int),
        v < 16,
{
    let len: usize = data.len();
    let b: u8 = data[base + (k / 2) as usize];
    if k % 2 == 0 {
        b / 16
    } else {
        b % 16
    }
}

/// Reads a tile stored as one nibble for each pixel.
fn read_raw_tile(data: &[u8], q: usize, colors_at: usize, count: u8) -> (r: Result<(Vec<u8>, usize), ReadError>)
    requires
        colors_at + count <= data@.len(),
    ensures
        match r {
            Ok((chunk, next)) => raw_tile(data@, q as int, colors_at as int, count as int) == Ok::<
                (Seq<u8>, int),
                ReadError,
            >((chunk@, next as int)) && q <= next <= data@.len() && chunk@.len() == 128,
            Err(e) => raw_tile(data@, q as int, colors_at as int, count as int) == Err::<(Seq<u8>, int), ReadError>(
                e,
            ),
        },
{
    if data.len() < 64 || q > data.len() - 64 {
        return Err(ReadError::UnexpectedEnd);
    }
    let len: usize = data.len();
    let mut chunk: Vec<u8> = Vec::with_capacity(128);
    let mut i: usize = 0;
    while i < 128
        invariant
            i <= 128,
            len == data@.len(),
            q + 64 <= data@.len(),
            colors_at + count <= data@.len(),
            chunk@.len() == i,
            first_bad_nibble(data@, q as int, count as int, 0) == first_bad_nibble(data@, q as int, count as int, i as int),
            forall|k: int| 0 <= k < i ==> #[trigger] chunk@[k] == data@[colors_at + nibble(data@, q as int, k)],
        decreases 128 - i,
    {
        let v: u8 = get_nibble(data, q, i as u64);
        if v >= count {
            return Err(ReadError::Invalid { field: Field::LocalColor, value: v as u32 });
        }
        chunk.push(data[colors_at + v as usize]);
        i += 1;
    }
    assert(chunk@ =~= Seq::new(128, |i: int| data@[colors_at + nibble(data@, q as int, i)]));
    Ok((chunk, q + 64))
}

/// Reads a tile stored as runs.
fn read_run_tile(data: &[u8], q: usize, colors_at: usize, count: u8) -> (r: Result<(Vec<u8>, usize), ReadError>)
    requires
        colors_at + count <= data@.len(),
        q <= data@.len(),
    ensures
        match r {
            Ok((chunk, next)) => run_tile(
                data@,
                q as int,
                colors_at as int,
                count as int,
                0,
                0,
                false,
                blank_tile(),
            ) == Ok::<(Seq<u8>, int), ReadError>((chunk@, next as int)) && q <= next <= data@.len() && chunk@.len()
                == 128,
            Err(e) => run_tile(data@, q as int, colors_at as int, count as int, 0, 0, false, blank_tile()) == Err::<
                (Seq<u8>, int),
                ReadError,
            >(e),
        },
{
    let mut chunk: Vec<u8> = Vec::with_capacity(128);
    let mut i: usize = 0;
    while i < 128
        invariant
            i <= 128,
            chunk@.len() == i,
            forall|k: int| 0 <= k < i ==> #[trigger] chunk@[k] == 0u8,
        decreases 128 - i,
    {
        chunk.push(0);
        i += 1;
    }
    assert(chunk@ =~= blank_tile());
    let mut at: usize = q;
    let mut j: u8 = 0;
    let mut pos: u128 = 0;
    let mut toggle: bool = false;
    while j < 16
        invariant
            j <= 16,
            q <= at <= data@.len(),
            colors_at + count <= data@.len(),
            chunk@.len() == 128,
            pos <= 256 * (at - q),
            run_tile(data@, q as int, colors_at as int, count as int, 0, 0, false, blank_tile()) == run_tile(
                data@,
                at as int,
                colors_at as int,
                count as int,
                j as int,
                pos as int,
                toggle,
                chunk@,
            ),
        decreases 16 - j, data@.len() - at,
    {
        if at >= data.len() {
            return Err(ReadError::UnexpectedEnd);
        }
        let m: u8 = data[at];
        at += 1;
        if m == 0xFF {
            j += 1;
            pos = 0;
        } else if toggle {
            if pos + m as u128 + 1 > 128 {
                return Err(ReadError::Invalid { field: Field::RunLength, value: m as u32 });
            }
            if j >= count {
                return Err(ReadError::Invalid { field: Field::LocalColor, value: j as u32 });
            }
            let v: u8 = data[colors_at + j as usize];
            let from: usize = pos as usize;
            let to: usize = from + m as usize + 1;
            let ghost before = chunk@;
            let mut k: usize = from;
            while k < to
                invariant
                    from <= k <= to <= 128,
                    chunk@.len() == 128,
                    before.len() == 128,
                    forall|x: int| 0 <= x < 128 ==> #[trigger] chunk@[x] == (if from <= x < k { v } else { before[x] }),
                decreases to - k,
            {
                chunk.set(k, v);
                k += 1;
            }
            assert(chunk@ =~= filled(before, pos as int, m + 1, v));
            pos = pos + m as u128 + 2;
            toggle = false;
        } else {
            pos = pos + m as u128;
            toggle = true;
        }
    }
    Ok((chunk, at))
}

/// Reads the pixels of one tile.
fn read_tile(data: &[u8], q: usize, colors_at: usize, count: u8, mode: u8) -> (r: Result<(Vec<u8>, usize), ReadError>)
    requires
        colors_at + count <= data@.len(),
        q <= data@.len(),
    ensures
        match r {
            Ok((chunk, next)) => fast_tile(data@, q as int, colors_at as int, count as int, mode) == Ok::<
                (Seq<u8>, int),
                ReadError,
            >((chunk@, next as int)) && q <= next <= data@.len() && chunk@.len() == 128,
            Err(e) => fast_tile(data@, q as int, colors_at as int, count as int, mode) == Err::<
                (Seq<u8>, int),
                ReadError,
            >(e),
        },
{
    if count == 0 {
        let mut chunk: Vec<u8> = Vec::with_capacity(128);
        let mut i: usize = 0;
        while i < 128
            invariant
                i <= 128,
                chunk@.len() == i,
                forall|k: int| 0 <= k < i ==> #[trigger] chunk@[k] == 0u8,
            decreases 128 - i,
        {
            chunk.push(0);
            i += 1;
        }
        assert(chunk@ =~= blank_tile());
        Ok((chunk, q))
    } else if mode == 0 {
        read_raw_tile(data, q, colors_at, count)
    } else if mode == 1 {
        Err(ReadError::Todo { what: Unsupported::FastModeSubformat })
    } else if q >= data.len() {
        Err(ReadError::UnexpectedEnd)
    } else if data[q] != 1 {
        Err(ReadError::Todo { what: Unsupported::FastModeTileEncoding })
    } else {
        read_run_tile(data, q + 1, colors_at, count)
    }
}

/// Decodes an image of `width` by `height` pixels from `data`: the pixels in
/// row-major order, and the position behind the encoding.
pub fn a_fast_mode2(data: &[u8], width: u32, height: u32) -> (r: Result<(Vec<u8>, usize), ReadError>)
    ensures
        match r {
            Ok((pixels, end)) => fast_mode_pixels(data@, width as nat, height as nat) == Ok::<
                (Seq<u8>, int),
                ReadError,
            >((pixels@, end as int)) && end <= data@.len() && pixels@.len() == width * height,
            Err(e) => fast_mode_pixels(data@, width as nat, height as nat) == Err::<(Seq<u8>, int), ReadError>(e),
        },
{
    let len: usize = data.len();
    proof {
        assert(0 <= (height / 8) * (width / 16) <= 0x2000_0000 * 0x1000_0000) by (nonlinear_arith)
            requires
                0 <= height / 8 <= 0x2000_0000,
                0 <= width / 16 <= 0x1000_0000,
        ;
    }
    let tiles: u64 = (height / 8) as u64 * (width / 16) as u64;
    if (tiles + 1) / 2 > len as u64 {
        return Err(ReadError::UnexpectedEnd);
    }
    let pool: usize = ((tiles + 1) / 2) as usize;
    let mut total: u128 = 0;
    let mut k: u64 = 0;
    while k < tiles
        invariant
            k <= tiles,
            tiles < u64::MAX,
            pool == (tiles + 1) / 2,
            pool <= len,
            len == data@.len(),
            total == pool_offset(data@, tiles as int, k as int),
            total <= 16 * k,
        decreases tiles - k,
    {
        let count: u8 = tile_colors(data, tiles, k);
        total = total + count as u128;
        k += 1;
    }
    if total + 1 > (len - pool) as u128 {
        return Err(ReadError::UnexpectedEnd);
    }
    let colors: usize = total as usize;
    let mode: u8 = data[pool + colors];
    let mut out: Vec<u8> = Vec::new();
    let mut q: usize = pool + colors + 1;
    let mut offset: usize = 0;
    k = 0;
    while k < tiles
        invariant
            k <= tiles,
            tiles < u64::MAX,
            pool == (tiles + 1) / 2,
            pool <= len,
            len == data@.len(),
            colors == pool_offset(data@, tiles as int, tiles as int),
            tiles == tile_count(width as nat, height as nat),
            mode == data@[pool + colors],
            offset == pool_offset(data@, tiles as int, k as int),
            pool + colors + 1 <= q <= len,
            out@.len() == 128 * k,
            fast_tiles(data@, tiles as int, pool as int, mode, 0, pool + colors + 1, Seq::empty()) == fast_tiles(
                data@,
                tiles as int,
                pool as int,
                mode,
                k as int,
                q as int,
                out@,
            ),
        decreases tiles - k,
    {
        let count: u8 = tile_colors(data, tiles, k);
        proof {
            lemma_pool_offset_monotonic(data@, tiles as int, k as int + 1, tiles as int);
        }
        match read_tile(data, q, pool + offset, count, mode) {
            Err(e) => {
                return Err(e);
            },
            Ok((mut chunk, next)) => {
                out.append(&mut chunk);
                q = next;
                offset = offset + count as usize;
                k += 1;
            },
        }
    }
    let w: usize = width as usize;
    let h: usize = height as usize;
    if w % 16 != 0 || h % 8 != 0 {
        return Err(ReadError::Dimensions { width, height });
    }
    proof {
        crate::permute::lemma_tile_volume(h as int, w as int, 8, 16);
        assert((h / 8) * (w / 16) * 8 * 16 == 128 * ((h / 8) * (w / 16))) by (nonlinear_arith);
    }
    let ghost stored = out@;
    match do_unswizzle(out, w, h, PixelFormatType::Pfp_1) {
        None => Err(ReadError::Dimensions { width, height }),
        Some(pixels) => {
            assert(pixels@ =~= Seq::new(
                (w * h) as nat,
                |i: int| stored[source_index(PixelFormatType::Pfp_1, w as nat, h as nat, i)],
            ));
            Ok((pixels, q))
        },
    }
}

/// The colours of a tile stand behind those of the tiles before it.
proof fn lemma_pool_offset_monotonic(s: Seq<u8>, tiles: int, j: int, k: int)
    requires
        0 <= j <= k,
    ensures
        pool_offset(s, tiles, j) <= pool_offset(s, tiles, k),
        pool_offset(s, tiles, j) >= 0,
    decreases k - j,
{
    lemma_pool_offset_bounds(s, tiles, j);
    if j < k {
        lemma_pool_offset_monotonic(s, tiles, j, k - 1);
    }
}

/// The number of local colours of tile `k`.
fn tile_colors(data: &[u8], tiles: u64, k: u64) -> (count: u8)
    requires
        tiles < u64::MAX,
        (tiles + 1) / 2 <= data@.len(),
    ensures
        count == local_count(data@, tiles as int, k as int),
        count <= 16,
{
    let raw: u8 = if k < tiles {
        get_nibble(data, 0, k)
    } else {
        0
    };
    if raw != 0 {
        raw + 1
    } else {
        0
    }
}

/// The different values among the first `i` of `chunk`, in the order in which
/// they first appear.
pub open spec fn distinct<T>(chunk: Seq<T>, i: int) -> Seq<T>
    decreases i,
{
    if i <= 0 {
        Seq::empty()
    } else if distinct(chunk, i - 1).contains(chunk[i - 1]) {
        distinct(chunk, i - 1)
    } else {
        distinct(chunk, i - 1).push(chunk[i - 1])
    }
}

/// Every pixel of `chunk` is of index zero.
pub open spec fn is_blank(chunk: Seq<u8>) -> bool {
    forall|i: int| 0 <= i < chunk.len() ==> chunk[i] == 0
}

/// The local colours of a tile: none for a blank tile, else its different values
/// in the order of their first appearance, and index zero behind a single one,
/// since a tile that has local colours has two or more.
pub open spec fn local_colors(chunk: Seq<u8>) -> Seq<u8> {
    if is_blank(chunk) {
        Seq::empty()
    } else if distinct(chunk, chunk.len() as int).len() == 1 {
        distinct(chunk, chunk.len() as int).push(0u8)
    } else {
        distinct(chunk, chunk.len() as int)
    }
}

/// The first position of `v` in `colors`, or the length of `colors` where `v` is
/// not in it.
pub open spec fn first_index<T>(colors: Seq<T>, v: T) -> int
    decreases colors.len(),
{
    if colors.len() == 0 {
        0
    } else if colors[0] == v {
        0
    } else {
        1 + first_index(colors.drop_first(), v)
    }
}

/// For each pixel of a tile the number of its local colour; nothing for a blank tile.
pub open spec fn tile_indices(chunk: Seq<u8>) -> Seq<u8> {
    if is_blank(chunk) {
        Seq::empty()
    } else {
        Seq::new(chunk.len(), |i: int| first_index(local_colors(chunk), chunk[i]) as u8)
    }
}

/// The nibble that stands for a number of local colours.
pub open spec fn count_nibble(colors: Seq<u8>) -> u8 {
    if colors.len() == 0 {
        0
    } else {
        (colors.len() - 1) as u8
    }
}

/// What encoding makes of the tiles from tile `k` on: the count nibbles, the local
/// colours and the pixel nibbles of all tiles, behind those given.
pub open spec fn encode_tiles(stored: Seq<u8>, k: int, tiles: int, counts: Seq<u8>, pool: Seq<u8>, data: Seq<u8>) -> Result<
    (Seq<u8>, Seq<u8>, Seq<u8>),
    WriteError,
>
    decreases tiles - k,
{
    if k >= tiles {
        Ok((counts, pool, data))
    } else {
        let chunk = tile_at(stored, k);
        if local_colors(chunk).len() > 16 {
            Err(WriteError::AFastMode2Colors)
        } else {
            encode_tiles(
                stored,
                k + 1,
                tiles,
                counts.push(count_nibble(local_colors(chunk))),
                pool + local_colors(chunk),
                data + tile_indices(chunk),
            )
        }
    }
}

/// Nibbles packed two to a byte, the first of each pair in the high half. A last
/// nibble without a partner gets a zero nibble for one.
pub open spec fn packed(nibbles: Seq<u8>) -> Seq<u8> {
    Seq::new(
        (nibbles.len() + 1) / 2,
        |b: int|
            (nibbles[2 * b] * 16 + (if 2 * b + 1 < nibbles.len() {
                nibbles[2 * b + 1]
            } else {
                0u8
            })) as u8,
    )
}

/// The pixels of a raster, tile after tile.
pub open spec fn tiled(level: RasterView<u8>) -> Seq<u8> {
    Seq::new(
        level.data.len(),
        |k: int| level.data[store_index(PixelFormatType::Pfp_1, level.width, level.height, k)],
    )
}

/// The encoding of a raster: the count nibbles, the local colours, the selector
/// zero, and the pixel nibbles. A raster that does not divide into tiles is
/// refused, and so is one with a tile of more than 16 different values.
pub open spec fn fast_mode_bytes(level: RasterView<u8>) -> Result<Seq<u8>, WriteError> {
    if !tiles_ok(PixelFormatType::Pfp_1, level.width, level.height) {
        Err(WriteError::Dimensions { width: level.width as usize, height: level.height as usize })
    } else {
        match encode_tiles(tiled(level), 0, level.data.len() as int / 128, Seq::empty(), Seq::empty(), Seq::empty()) {
            Err(e) => Err(e),
            Ok((counts, pool, data)) => Ok(packed(counts) + pool + seq![0u8] + packed(data)),
        }
    }
}

/// Where a value stands in a list, it is found.
pub proof fn lemma_first_index<T>(colors: Seq<T>, v: T)
    ensures
        0 <= first_index(colors, v) <= colors.len(),
        first_index(colors, v) < colors.len() ==> colors[first_index(colors, v)] == v,
        colors.contains(v) ==> first_index(colors, v) < colors.len(),
        forall|j: int| 0 <= j < first_index(colors, v) ==> colors[j] != v,
    decreases colors.len(),
{
    if colors.len() > 0 && colors[0] != v {
        let rest = colors.drop_first();
        lemma_first_index(rest, v);
        if colors.contains(v) {
            let j = choose|j: int| 0 <= j < colors.len() && colors[j] == v;
            assert(rest[j - 1] == v);
        }
        assert forall|j: int| 0 <= j < first_index(colors, v) implies colors[j] != v by {
            if j > 0 {
                assert(rest[j - 1] == colors[j]);
            }
        }
    }
}

/// The different values of a list are as many as its items at most, each is one
/// of its items, and each item is one of them.
pub proof fn lemma_distinct<T>(chunk: Seq<T>, i: int)
    requires
        0 <= i <= chunk.len(),
    ensures
        distinct(chunk, i).len() <= i,
        forall|j: int| 0 <= j < i ==> distinct(chunk, i).contains(#[trigger] chunk[j]),
        forall|k: int|
            0 <= k < distinct(chunk, i).len() ==> exists|j: int|
                0 <= j < i && chunk[j] == #[trigger] distinct(chunk, i)[k],
    decreases i,
{
    if i > 0 {
        lemma_distinct(chunk, i - 1);
        let prev = distinct(chunk, i - 1);
        let cur = distinct(chunk, i);
        assert forall|j: int| 0 <= j < i implies cur.contains(#[trigger] chunk[j]) by {
            if j < i - 1 {
                assert(prev.contains(chunk[j]));
                let k = choose|k: int| 0 <= k < prev.len() && prev[k] == chunk[j];
                assert(cur[k] == chunk[j]);
            } else if prev.contains(chunk[i - 1]) {
            } else {
                assert(cur[prev.len() as int] == chunk[j]);
            }
        }
        assert forall|k: int| 0 <= k < cur.len() implies exists|j: int|
            0 <= j < i && chunk[j] == #[trigger] cur[k] by {
            if k < prev.len() {
                assert(cur[k] == prev[k]);
                let j = choose|j: int| 0 <= j < i - 1 && chunk[j] == prev[k];
                assert(0 <= j < i && chunk[j] == cur[k]);
            } else {
                assert(chunk[i - 1] == cur[k]);
            }
        }
    }
}

/// The local colours of a tile, and for each pixel the number of its colour.
fn encode_tile(chunk: &[u8]) -> (r: (Vec<u8>, Vec<u8>))
    requires
        chunk@.len() == 128,
    ensures
        r.0@ == local_colors(chunk@),
        r.1@ == tile_indices(chunk@),
        r.0@.len() <= 129,
{
    let mut blank: bool = true;
    let mut i: usize = 0;
    while i < 128
        invariant
            i <= 128,
            chunk@.len() == 128,
            blank == (forall|j: int| 0 <= j < i ==> chunk@[j] == 0),
        decreases 128 - i,
    {
        if chunk[i] != 0 {
            blank = false;
        }
        i += 1;
    }
    if blank {
        assert(is_blank(chunk@));
        assert(tile_indices(chunk@) =~= Seq::<u8>::empty());
        return (Vec::new(), Vec::new());
    }
    assert(!is_blank(chunk@));
    let mut colors: Vec<u8> = Vec::new();
    i = 0;
    while i < 128
        invariant
            i <= 128,
            chunk@.len() == 128,
            colors@ == distinct(chunk@, i as int),
            colors@.len() <= i,
        decreases 128 - i,
    {
        let v: u8 = chunk[i];
        let at: usize = find(&colors, v);
        proof {
            lemma_first_index(colors@, v);
        }
        if at == colors.len() {
            colors.push(v);
        }
        i += 1;
    }
    if colors.len() == 1 {
        colors.push(0);
    }
    assert(colors@ == local_colors(chunk@));
    let mut indices: Vec<u8> = Vec::with_capacity(128);
    i = 0;
    while i < 128
        invariant
            i <= 128,
            chunk@.len() == 128,
            colors@.len() <= 129,
            indices@.len() == i,
            forall|j: int| 0 <= j < i ==> #[trigger] indices@[j] == first_index(colors@, chunk@[j]) as u8,
        decreases 128 - i,
    {
        let at: usize = find(&colors, chunk[i]);
        indices.push(at as u8);
        i += 1;
    }
    assert(indices@ =~= tile_indices(chunk@));
    (colors, indices)
}

/// The first position of `v` in `colors`, or the length of `colors`.
fn find(colors: &Vec<u8>, v: u8) -> (at: usize)
    ensures
        at == first_index(colors@, v),
        at <= colors@.len(),
{
    let n: usize = colors.len();
    let mut k: usize = 0;
    assert(colors@.subrange(0, n as int) =~= colors@);
    while k < n && colors[k] != v
        invariant
            k <= n,
            n == colors@.len(),
            first_index(colors@, v) == k + first_index(colors@.subrange(k as int, n as int), v),
        decreases n - k,
    {
        proof {
            let rest = colors@.subrange(k as int, n as int);
            assert(rest.drop_first() =~= colors@.subrange(k + 1, n as int));
        }
        k += 1;
    }
    proof {
        assert(colors@.subrange(0, n as int) =~= colors@);
        lemma_first_index(colors@.subrange(k as int, n as int), v);
    }
    k
}

/// Packs nibbles two to a byte.
fn pack(nibbles: &Vec<u8>, out: &mut Vec<u8>)
    requires
        forall|i: int| 0 <= i < nibbles@.len() ==> #[trigger] nibbles@[i] < 16,
    ensures
        final(out)@ == old(out)@ + packed(nibbles@),
{
    let total: usize = nibbles.len();
    let n: usize = total / 2 + total % 2;
    let mut b: usize = 0;
    while b < n
        invariant
            b <= n,
            total == nibbles@.len(),
            n == (nibbles@.len() + 1) / 2,
            forall|i: int| 0 <= i < nibbles@.len() ==> #[trigger] nibbles@[i] < 16,
            out@.len() == old(out)@.len() + b,
            forall|j: int| 0 <= j < old(out)@.len() ==> #[trigger] out@[j] == old(out)@[j],
            forall|j: int|
                old(out)@.len() <= j < old(out)@.len() + b ==> #[trigger] out@[j] == packed(nibbles@)[j - old(
                    out,
                )@.len()],
        decreases n - b,
    {
        let low: u8 = if 2 * b + 1 < total {
            nibbles[2 * b + 1]
        } else {
            0
        };
        out.push(nibbles[2 * b] * 16 + low);
        b += 1;
    }
    assert(out@ =~= old(out)@ + packed(nibbles@));
}

/// Encodes a raster in the nibble-packed encoding.
pub fn encode_fast_mode(raster: &Raster<u8>) -> (r: Result<Vec<u8>, WriteError>)
    ensures
        match r {
            Ok(out) => fast_mode_bytes(raster@) == Ok::<Seq<u8>, WriteError>(out@),
            Err(e) => fast_mode_bytes(raster@) == Err::<Seq<u8>, WriteError>(e),
        },
{
    let width: usize = raster.width();
    let height: usize = raster.height();
    let stored = match do_swizzle(raster, PixelFormatType::Pfp_1) {
        Some(stored) => stored,
        None => {
            return Err(WriteError::Dimensions { width, height });
        },
    };
    assert(stored@ =~= tiled(raster@));
    let tiles: usize = stored.len() / 128;
    let mut counts: Vec<u8> = Vec::new();
    let mut pool: Vec<u8> = Vec::new();
    let mut data: Vec<u8> = Vec::new();
    let mut k: usize = 0;
    while k < tiles
        invariant
            k <= tiles,
            tiles == stored@.len() / 128,
            stored@.len() <= usize::MAX,
            stored@ == tiled(raster@),
            stored@.len() == raster@.data.len(),
            tiles_ok(PixelFormatType::Pfp_1, raster@.width, raster@.height),
            forall|i: int| 0 <= i < counts@.len() ==> #[trigger] counts@[i] < 16,
            forall|i: int| 0 <= i < data@.len() ==> #[trigger] data@[i] < 16,
            encode_tiles(stored@, 0, tiles as int, Seq::empty(), Seq::empty(), Seq::empty()) == encode_tiles(
                stored@,
                k as int,
                tiles as int,
                counts@,
                pool@,
                data@,
            ),
        decreases tiles - k,
    {
        assert(128 * (k + 1) <= stored@.len()) by {
            assert(k + 1 <= stored@.len() / 128);
        }
        let chunk = vstd::slice::slice_subrange(stored.as_slice(), 128 * k, 128 * k + 128);
        let (mut colors, mut indices) = encode_tile(chunk);
        if colors.len() > 16 {
            return Err(WriteError::AFastMode2Colors);
        }
        proof {
            assert forall|i: int| 0 <= i < indices@.len() implies #[trigger] indices@[i] < 16 by {
                lemma_tile_indices(chunk@, i);
            }
        }
        let nib: u8 = if colors.len() == 0 {
            0
        } else {
            (colors.len() - 1) as u8
        };
        counts.push(nib);
        pool.append(&mut colors);
        data.append(&mut indices);
        k += 1;
    }
    let ghost colors = pool@;
    let mut out: Vec<u8> = Vec::new();
    pack(&counts, &mut out);
    out.append(&mut pool);
    out.push(0);
    pack(&data, &mut out);
    assert(out@ =~= packed(counts@) + colors + seq![0u8] + packed(data@));
    Ok(out)
}

/// Every pixel of a tile has one of the tile's local colours, and its number
/// leads back to it.
pub proof fn lemma_tile_indices(chunk: Seq<u8>, i: int)
    requires
        0 <= i < chunk.len(),
        !is_blank(chunk),
    ensures
        tile_indices(chunk).len() == chunk.len(),
        0 <= first_index(local_colors(chunk), chunk[i]) < local_colors(chunk).len(),
        local_colors(chunk)[first_index(local_colors(chunk), chunk[i])] == chunk[i],
{
    let n = chunk.len() as int;
    lemma_distinct(chunk, n);
    let d = distinct(chunk, n);
    let colors = local_colors(chunk);
    assert(d.contains(chunk[i]));
    let k = choose|k: int| 0 <= k < d.len() && d[k] == chunk[i];
    assert(colors[k] == chunk[i]);
    assert(colors.contains(chunk[i]));
    lemma_first_index(colors, chunk[i]);
}

/// Tile `k` of an image stored tile after tile.
pub open spec fn tile_at(stored: Seq<u8>, k: int) -> Seq<u8> {
    stored.subrange(128 * k, 128 * k + 128)
}

/// Encoding the tiles from tile `k` on fails if and only if one of them has more
/// than 16 local colours, and then for that reason.
pub proof fn lemma_encode_tiles(stored: Seq<u8>, k: int, tiles: int, counts: Seq<u8>, pool: Seq<u8>, data: Seq<u8>)
    requires
        0 <= k,
    ensures
        encode_tiles(stored, k, tiles, counts, pool, data) is Err <==> exists|j: int|
            k <= j < tiles && local_colors(#[trigger] tile_at(stored, j)).len() > 16,
        encode_tiles(stored, k, tiles, counts, pool, data) is Err ==> encode_tiles(
            stored,
            k,
            tiles,
            counts,
            pool,
            data,
        ) == Err::<(Seq<u8>, Seq<u8>, Seq<u8>), WriteError>(WriteError::AFastMode2Colors),
    decreases tiles - k,
{
    if k < tiles {
        let chunk = tile_at(stored, k);
        if local_colors(chunk).len() > 16 {
        } else {
            lemma_encode_tiles(
                stored,
                k + 1,
                tiles,
                counts.push(count_nibble(local_colors(chunk))),
                pool + local_colors(chunk),
                data + tile_indices(chunk),
            );
            if exists|j: int| k <= j < tiles && local_colors(#[trigger] tile_at(stored, j)).len() > 16 {
                let j = choose|j: int| k <= j < tiles && local_colors(#[trigger] tile_at(stored, j)).len() > 16;
                assert(k + 1 <= j < tiles && local_colors(tile_at(stored, j)).len() > 16);
            }
        }
    }
}

/// An image that divides into tiles can be encoded if and only if none of its
/// tiles has more than 16 local colours; one that has is refused for that.
pub proof fn lemma_too_many_colors(level: RasterView<u8>)
    requires
        tiles_ok(PixelFormatType::Pfp_1, level.width, level.height),
    ensures
        fast_mode_bytes(level) is Ok <==> forall|j: int|
            0 <= j < level.data.len() / 128 ==> local_colors(#[trigger] tile_at(tiled(level), j)).len() <= 16,
        fast_mode_bytes(level) is Err ==> fast_mode_bytes(level) == Err::<Seq<u8>, WriteError>(
            WriteError::AFastMode2Colors,
        ),
{
    lemma_encode_tiles(tiled(level), 0, level.data.len() as int / 128, Seq::empty(), Seq::empty(), Seq::empty());
}

/// A tile that is not blank has two local colours or more, and at most one more
/// than it has pixels.
pub proof fn lemma_local_colors(chunk: Seq<u8>)
    requires
        chunk.len() > 0,
    ensures
        is_blank(chunk) ==> local_colors(chunk).len() == 0,
        !is_blank(chunk) ==> 2 <= local_colors(chunk).len() <= chunk.len() + 1,
{
    lemma_distinct(chunk, chunk.len() as int);
    assert(distinct(chunk, chunk.len() as int).contains(chunk[0]));
}

/// Indices below the number of colours are all valid.
proof fn lemma_no_bad_nibble(s: Seq<u8>, q: int, count: int, i: int)
    requires
        0 <= i <= 128,
        forall|j: int| i <= j < 128 ==> (#[trigger] nibble(s, q, j)) < count,
    ensures
        first_bad_nibble(s, q, count, i) is None,
    decreases 128 - i,
{
    if i < 128 {
        lemma_no_bad_nibble(s, q, count, i + 1);
    }
}

/// Packed nibbles come apart again.
pub proof fn lemma_packed_nibble(nibbles: Seq<u8>, s: Seq<u8>, q: int, i: int)
    requires
        0 <= q,
        0 <= i < nibbles.len(),
        q + (nibbles.len() + 1) / 2 <= s.len(),
        s.subrange(q, q + (nibbles.len() + 1) / 2) == packed(nibbles),
        forall|j: int| 0 <= j < nibbles.len() ==> (#[trigger] nibbles[j]) < 16,
    ensures
        nibble(s, q, i) == nibbles[i],
{
    let b = i / 2;
    assert(s[q + b] == s.subrange(q, q + (nibbles.len() + 1) / 2)[b]);
    assert(nibbles[2 * b] < 16);
    if 2 * b + 1 < nibbles.len() {
        assert(nibbles[2 * b + 1] < 16);
    }
}

/// Decoding what encoding stores for a tile of 16 local colours or fewer gives the
/// tile back.
///
/// `s` is any byte string that holds the tile's pixel nibbles at `q` and its
/// local colours at `colors_at`, as encoding lays them out; the count that
/// decoding is given is the one that the tile's count nibble stands for.
pub proof fn lemma_tile_round_trip(chunk: Seq<u8>, s: Seq<u8>, q: int, colors_at: int)
    requires
        chunk.len() == 128,
        local_colors(chunk).len() <= 16,
        0 <= q,
        0 <= colors_at,
        q + tile_indices(chunk).len() / 2 <= s.len(),
        colors_at + local_colors(chunk).len() <= s.len(),
        s.subrange(q, q + tile_indices(chunk).len() / 2) == packed(tile_indices(chunk)),
        s.subrange(colors_at, colors_at + local_colors(chunk).len()) == local_colors(chunk),
    ensures
        (if count_nibble(local_colors(chunk)) != 0 {
            count_nibble(local_colors(chunk)) + 1
        } else {
            0
        }) == local_colors(chunk).len(),
        fast_tile(s, q, colors_at, local_colors(chunk).len() as int, 0) == Ok::<(Seq<u8>, int), ReadError>(
            (chunk, q + tile_indices(chunk).len() / 2),
        ),
{
    lemma_local_colors(chunk);
    let colors = local_colors(chunk);
    let count = colors.len() as int;
    if is_blank(chunk) {
        assert(chunk =~= blank_tile());
    } else {
        let idx = tile_indices(chunk);
        assert forall|j: int| 0 <= j < idx.len() implies (#[trigger] idx[j]) < 16 by {
            lemma_tile_indices(chunk, j);
        }
        assert forall|j: int| 0 <= j < 128 implies (#[trigger] nibble(s, q, j)) < count && s[colors_at + nibble(
            s,
            q,
            j,
        )] == chunk[j] by {
            lemma_packed_nibble(idx, s, q, j);
            lemma_tile_indices(chunk, j);
            let at = first_index(colors, chunk[j]);
            assert(s[colors_at + at] == s.subrange(colors_at, colors_at + count)[at]);
        }
        lemma_no_bad_nibble(s, q, count, 0);
        assert(Seq::new(128, |i: int| s[colors_at + nibble(s, q, i)]) =~= chunk);
    }
}

/// The count nibbles of the first `k` tiles.
pub open spec fn counts_of(stored: Seq<u8>, k: int) -> Seq<u8> {
    Seq::new(k as nat, |j: int| count_nibble(local_colors(tile_at(stored, j))))
}

/// The local colours of the first `k` tiles, one tile after another.
pub open spec fn pool_of(stored: Seq<u8>, k: int) -> Seq<u8>
    decreases k,
{
    if k <= 0 {
        Seq::empty()
    } else {
        pool_of(stored, k - 1) + local_colors(tile_at(stored, k - 1))
    }
}

/// The pixel nibbles of the first `k` tiles, one tile after another.
pub open spec fn data_of(stored: Seq<u8>, k: int) -> Seq<u8>
    decreases k,
{
    if k <= 0 {
        Seq::empty()
    } else {
        data_of(stored, k - 1) + tile_indices(tile_at(stored, k - 1))
    }
}

/// None of the tiles from `from` up to `tiles` has more than 16 local colours.
pub open spec fn tiles_fit(stored: Seq<u8>, from: int, tiles: int) -> bool {
    forall|j: int| from <= j < tiles ==> local_colors(#[trigger] tile_at(stored, j)).len() <= 16
}

/// Encoding gives the count nibbles, the local colours and the pixel nibbles of
/// all tiles, each kind tile after tile.
pub proof fn lemma_encoded_parts(stored: Seq<u8>, k: int, tiles: int)
    requires
        0 <= k <= tiles,
        tiles_fit(stored, k, tiles),
    ensures
        encode_tiles(stored, k, tiles, counts_of(stored, k), pool_of(stored, k), data_of(stored, k)) == Ok::<
            (Seq<u8>, Seq<u8>, Seq<u8>),
            WriteError,
        >((counts_of(stored, tiles), pool_of(stored, tiles), data_of(stored, tiles))),
    decreases tiles - k,
{
    if k < tiles {
        let chunk = tile_at(stored, k);
        assert(local_colors(chunk).len() <= 16);
        assert(counts_of(stored, k).push(count_nibble(local_colors(chunk))) =~= counts_of(stored, k + 1));
        lemma_encoded_parts(stored, k + 1, tiles);
    }
}

/// The pixel nibbles of whole tiles are a whole number of tiles of nibbles.
pub proof fn lemma_data_len(stored: Seq<u8>, k: int)
    requires
        0 <= k,
        128 * k <= stored.len(),
    ensures
        data_of(stored, k).len() % 128 == 0,
        data_of(stored, k).len() <= 128 * k,
    decreases k,
{
    if k > 0 {
        lemma_data_len(stored, k - 1);
        let chunk = tile_at(stored, k - 1);
        assert(chunk.len() == 128);
    }
}

/// The nibbles and the local colours of tile `k` stand in those of all tiles
/// behind those of the tiles before it.
pub proof fn lemma_parts_at(stored: Seq<u8>, tiles: int, k: int)
    requires
        0 <= k < tiles,
    ensures
        data_of(stored, k).len() + tile_indices(tile_at(stored, k)).len() <= data_of(stored, tiles).len(),
        pool_of(stored, k).len() + local_colors(tile_at(stored, k)).len() <= pool_of(stored, tiles).len(),
        forall|j: int|
            0 <= j < tile_indices(tile_at(stored, k)).len() ==> data_of(stored, tiles)[data_of(stored, k).len() + j]
                == tile_indices(tile_at(stored, k))[j],
        forall|j: int|
            0 <= j < local_colors(tile_at(stored, k)).len() ==> pool_of(stored, tiles)[pool_of(stored, k).len() + j]
                == local_colors(tile_at(stored, k))[j],
    decreases tiles - k,
{
    if k < tiles - 1 {
        lemma_parts_at(stored, tiles - 1, k);
    }
}

/// The count that decoding takes from the nibble of a tile is the number of the
/// tile's local colours.
pub proof fn lemma_local_count(stored: Seq<u8>, s: Seq<u8>, tiles: int, k: int)
    requires
        0 <= k < tiles,
        128 * tiles <= stored.len(),
        tiles_fit(stored, 0, tiles),
        (tiles + 1) / 2 <= s.len(),
        s.subrange(0, (tiles + 1) / 2) == packed(counts_of(stored, tiles)),
    ensures
        local_count(s, tiles, k) == local_colors(tile_at(stored, k)).len(),
{
    let counts = counts_of(stored, tiles);
    assert forall|j: int| 0 <= j < counts.len() implies (#[trigger] counts[j]) < 16 by {
        assert(local_colors(tile_at(stored, j)).len() <= 16);
    }
    lemma_packed_nibble(counts, s, 0, k);
    let chunk = tile_at(stored, k);
    assert(chunk.len() == 128);
    lemma_local_colors(chunk);
    assert(local_colors(chunk).len() <= 16);
}

/// Decoding finds the local colours of a tile behind those of the tiles before it.
pub proof fn lemma_pool_offset(stored: Seq<u8>, s: Seq<u8>, tiles: int, k: int)
    requires
        0 <= k <= tiles,
        128 * tiles <= stored.len(),
        tiles_fit(stored, 0, tiles),
        (tiles + 1) / 2 <= s.len(),
        s.subrange(0, (tiles + 1) / 2) == packed(counts_of(stored, tiles)),
    ensures
        pool_offset(s, tiles, k) == pool_of(stored, k).len(),
    decreases k,
{
    if k > 0 {
        lemma_pool_offset(stored, s, tiles, k - 1);
        lemma_local_count(stored, s, tiles, k - 1);
    }
}

/// What encoding lays out for the tiles of an image: the count nibbles, the local
/// colours, the selector zero, and the pixel nibbles.
pub open spec fn laid_out(s: Seq<u8>, stored: Seq<u8>, tiles: int) -> bool {
    &&& stored.len() == 128 * tiles
    &&& tiles_fit(stored, 0, tiles)
    &&& s.len() == (tiles + 1) / 2 + pool_of(stored, tiles).len() + 1 + data_of(stored, tiles).len() / 2
    &&& s.subrange(0, (tiles + 1) / 2) == packed(counts_of(stored, tiles))
    &&& s.subrange((tiles + 1) / 2, (tiles + 1) / 2 + pool_of(stored, tiles).len()) == pool_of(stored, tiles)
    &&& s[(tiles + 1) / 2 + pool_of(stored, tiles).len()] == 0
    &&& s.subrange((tiles + 1) / 2 + pool_of(stored, tiles).len() + 1, s.len() as int) == packed(
        data_of(stored, tiles),
    )
}

/// Where the pixel nibbles of tile `k` start in what encoding lays out.
pub open spec fn nibbles_at(stored: Seq<u8>, tiles: int, k: int) -> int {
    (tiles + 1) / 2 + pool_of(stored, tiles).len() + 1 + data_of(stored, k).len() / 2
}

/// Decoding what encoding lays out for tile `k` gives the tile back.
pub proof fn lemma_tile_of_image(s: Seq<u8>, stored: Seq<u8>, tiles: int, k: int)
    requires
        0 <= k < tiles,
        laid_out(s, stored, tiles),
    ensures
        fast_tile(
            s,
            nibbles_at(stored, tiles, k),
            (tiles + 1) / 2 + pool_offset(s, tiles, k),
            local_count(s, tiles, k),
            0,
        ) == Ok::<(Seq<u8>, int), ReadError>((tile_at(stored, k), nibbles_at(stored, tiles, k + 1))),
{
    let chunk = tile_at(stored, k);
    let idx = tile_indices(chunk);
    let colors = local_colors(chunk);
    let p = (tiles + 1) / 2;
    let total = pool_of(stored, tiles).len() as int;
    let base = p + total + 1;
    let before = data_of(stored, k).len() as int;
    let q = nibbles_at(stored, tiles, k);
    let colors_at = p + pool_of(stored, k).len();
    assert(chunk.len() == 128);
    assert(colors.len() <= 16);
    lemma_pool_offset(stored, s, tiles, k);
    lemma_local_count(stored, s, tiles, k);
    lemma_data_len(stored, k);
    lemma_data_len(stored, tiles);
    lemma_parts_at(stored, tiles, k);
    assert(idx.len() == 0 || idx.len() == 128);
    let all = data_of(stored, tiles);
    let tail = s.subrange(base, s.len() as int);
    assert forall|b: int| 0 <= b < idx.len() / 2 implies s.subrange(q, q + idx.len() / 2)[b] == packed(idx)[b] by {
        assert(s[q + b] == tail[before / 2 + b]);
        assert(2 * (before / 2 + b) == before + 2 * b);
        assert(all[before + 2 * b] == idx[2 * b]);
        assert(all[before + 2 * b + 1] == idx[2 * b + 1]);
    }
    assert(s.subrange(q, q + idx.len() / 2) =~= packed(idx));
    let pool = s.subrange(p, p + total);
    assert forall|j: int| 0 <= j < colors.len() implies s.subrange(colors_at, colors_at + colors.len())[j]
        == colors[j] by {
        assert(s[colors_at + j] == pool[pool_of(stored, k).len() + j]);
    }
    assert(s.subrange(colors_at, colors_at + colors.len()) =~= colors);
    lemma_tile_round_trip(chunk, s, q, colors_at);
    assert(data_of(stored, k + 1) == data_of(stored, k) + idx);
}

/// Decoding what encoding lays out for the tiles from tile `k` on gives the tiles
/// back, behind those before them.
pub proof fn lemma_tiles_of_image(s: Seq<u8>, stored: Seq<u8>, tiles: int, k: int)
    requires
        0 <= k <= tiles,
        laid_out(s, stored, tiles),
    ensures
        fast_tiles(
            s,
            tiles,
            (tiles + 1) / 2,
            0,
            k,
            nibbles_at(stored, tiles, k),
            stored.subrange(0, 128 * k),
        ) == Ok::<(Seq<u8>, int), ReadError>((stored, s.len() as int)),
    decreases tiles - k,
{
    if k < tiles {
        lemma_tile_of_image(s, stored, tiles, k);
        assert(stored.subrange(0, 128 * k) + tile_at(stored, k) =~= stored.subrange(0, 128 * (k + 1)));
        lemma_tiles_of_image(s, stored, tiles, k + 1);
    } else {
        assert(stored.subrange(0, 128 * k) =~= stored);
    }
}

/// Decoding the encoding of a raster gives the raster back, and takes all of the
/// encoding: for every raster that divides into tiles and has no tile of more than
/// 16 local colours.
pub proof fn lemma_fast_mode_round_trip(level: RasterView<u8>)
    requires
        level.wf(),
        tiles_ok(PixelFormatType::Pfp_1, level.width, level.height),
        tiles_fit(tiled(level), 0, level.data.len() as int / 128),
    ensures
        fast_mode_bytes(level) is Ok,
        fast_mode_pixels(fast_mode_bytes(level).unwrap(), level.width, level.height) == Ok::<
            (Seq<u8>, int),
            ReadError,
        >((level.data, fast_mode_bytes(level).unwrap().len() as int)),
{
    let w = level.width;
    let h = level.height;
    let stored = tiled(level);
    let tiles = level.data.len() as int / 128;
    crate::permute::lemma_tile_volume(h as int, w as int, 8, 16);
    assert((h / 8) * (w / 16) * 8 * 16 == 128 * ((h / 8) * (w / 16))) by (nonlinear_arith);
    assert(tiles == tile_count(w, h));
    assert(stored.len() == 128 * tiles);
    assert(counts_of(stored, 0) =~= Seq::<u8>::empty());
    lemma_encoded_parts(stored, 0, tiles);
    let counts = counts_of(stored, tiles);
    let pool = pool_of(stored, tiles);
    let data = data_of(stored, tiles);
    let s = fast_mode_bytes(level).unwrap();
    assert(s == packed(counts) + pool + seq![0u8] + packed(data));
    let p = (tiles + 1) / 2;
    let total = pool.len() as int;
    lemma_data_len(stored, tiles);
    assert(packed(counts).len() == p);
    assert(packed(data).len() == data.len() / 2);
    assert(s.subrange(0, p) =~= packed(counts));
    assert(s.subrange(p, p + total) =~= pool);
    assert(s.subrange(p + total + 1, s.len() as int) =~= packed(data));
    assert(laid_out(s, stored, tiles));
    lemma_pool_offset(stored, s, tiles, tiles);
    assert(stored.subrange(0, 0) =~= Seq::<u8>::empty());
    lemma_tiles_of_image(s, stored, tiles, 0);
    let back = Seq::new(w * h, |i: int| stored[source_index(PixelFormatType::Pfp_1, w, h, i)]);
    assert forall|i: int| 0 <= i < w * h implies back[i] == level.data[i] by {
        lemma_source_index(PixelFormatType::Pfp_1, w, h, i);
        assert((h as int / 8) * 8 * (w as int / 16) * 16 == (h as int / 8) * (w as int / 16) * 8 * 16)
            by (nonlinear_arith);
        if w / 16 > 0 {
            crate::permute::lemma_swizzle_inverse(h as int / 8, 8, w as int / 16, 16, i);
        }
    }
    assert(back =~= level.data);
}

} // verus!
