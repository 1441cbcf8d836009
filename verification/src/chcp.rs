//! Sprites of 256 by 256 pixels, put together from tiles.
//!
//! One file holds the tiles, each of 256 pixels of four bits each of alpha, red,
//! green and blue. The other holds the frames: each names 256 tiles, which follow
//! one another in the frame.

use crate::bytes::avail;
use crate::ch::{from_4444, spec_from_4444};
use crate::itp::read::{get_u16, le16};
use crate::raster::{Raster, RasterView};
use vstd::prelude::*;

verus! {

/// Why two files are no sprites.
#[derive(Debug, Clone, Copy, PartialEq, Eq, Structural)]
pub enum ReadError {
    /// A file ends inside a number.
    UnexpectedEnd,
    /// A frame names a tile that is not there.
    InvalidTile,
}

/// The name of no tile at all, which stands for 256 pixels of nothing.
pub const NO_TILE: u16 = 0xFFFF;

/// The first thing wrong with the tile names from name `e` on, if anything: the
/// file ends inside a name, or a name names no tile of the `tiles` that there are.
pub open spec fn name_error(cp: Seq<u8>, tiles: int, count: int, e: int) -> Option<ReadError>
    decreases count - e,
{
    if e >= count {
        None
    } else if !avail(cp, 2 + 2 * e, 2) {
        Some(ReadError::UnexpectedEnd)
    } else if le16(cp, 2 + 2 * e) != NO_TILE && le16(cp, 2 + 2 * e) >= tiles {
        Some(ReadError::InvalidTile)
    } else {
        name_error(cp, tiles, count, e + 1)
    }
}

/// Pixel `i` of frame `f`.
pub open spec fn sprite_pixel(ch: Seq<u8>, cp: Seq<u8>, f: int, i: int) -> u32 {
    let id = le16(cp, 2 + 2 * (256 * f + i / 256));
    if id == NO_TILE {
        0
    } else {
        spec_from_4444(le16(ch, 2 + 2 * (256 * id + i % 256)))
    }
}

/// The frames that the two files hold.
pub open spec fn spec_read(ch: Seq<u8>, cp: Seq<u8>) -> Result<Seq<RasterView<u32>>, ReadError> {
    if !avail(ch, 0, 2) {
        Err(ReadError::UnexpectedEnd)
    } else if !avail(ch, 2, 512 * le16(ch, 0)) {
        Err(ReadError::UnexpectedEnd)
    } else if !avail(cp, 0, 2) {
        Err(ReadError::UnexpectedEnd)
    } else {
        match name_error(cp, le16(ch, 0) as int, 256 * le16(cp, 0), 0) {
            Some(e) => Err(e),
            None => Ok(
                Seq::new(
                    le16(cp, 0) as nat,
                    |f: int|
                        RasterView { width: 256, height: 256, data: Seq::new(65536, |i: int| sprite_pixel(ch, cp, f, i)) },
                ),
            ),
        }
    }
}

/// The contents of each raster.
pub open spec fn views(frames: Seq<Raster<u32>>) -> Seq<RasterView<u32>> {
    Seq::new(frames.len(), |i: int| frames[i]@)
}

/// The tiles as the frames take them: every tile is kept, also one that is there twice.
pub fn unduplicate(tiles: Vec<u32>) -> (out: Vec<u32>)
    ensures
        out@ == tiles@,
{
    tiles
}

/// Reads the frames that the two files hold.
pub fn read(ch: &[u8], cp: &[u8]) -> (r: Result<Vec<Raster<u32>>, ReadError>)
    ensures
        match r {
            Ok(frames) => spec_read(ch@, cp@) == Ok::<Seq<RasterView<u32>>, ReadError>(views(frames@)),
            Err(e) => spec_read(ch@, cp@) == Err::<Seq<RasterView<u32>>, ReadError>(e),
        },
{
    let n_tiles: usize = match get_u16(ch, 0) {
        Ok(n) => n as usize,
        Err(_) => {
            return Err(ReadError::UnexpectedEnd);
        },
    };
    let ch_len: usize = ch.len();
    if (ch_len - 2) / 512 < n_tiles {
        return Err(ReadError::UnexpectedEnd);
    }
    let mut tiles: Vec<u32> = Vec::with_capacity(256 * n_tiles);
    let mut t: usize = 0;
    while t < 256 * n_tiles
        invariant
            t <= 256 * n_tiles,
            n_tiles <= 0xFFFF,
            ch_len == ch@.len(),
            2 + 512 * n_tiles <= ch_len,
            tiles@.len() == t,
            forall|k: int| 0 <= k < t ==> #[trigger] tiles@[k] == spec_from_4444(le16(ch@, 2 + 2 * k)),
        decreases 256 * n_tiles - t,
    {
        let v: u16 = match get_u16(ch, 2 + 2 * t) {
            Ok(v) => v,
            Err(_) => {
                return Err(ReadError::UnexpectedEnd);
            },
        };
        tiles.push(from_4444(v));
        t += 1;
    }
    let tiles = unduplicate(tiles);
    let n_frames: usize = match get_u16(cp, 0) {
        Ok(n) => n as usize,
        Err(_) => {
            return Err(ReadError::UnexpectedEnd);
        },
    };
    let cp_len: usize = cp.len();
    let mut frames: Vec<Raster<u32>> = Vec::with_capacity(n_frames);
    let mut f: usize = 0;
    while f < n_frames
        invariant
            f <= n_frames,
            n_frames == le16(cp@, 0),
            n_tiles == le16(ch@, 0),
            avail(ch@, 0, 2),
            avail(ch@, 2, 512 * n_tiles),
            avail(cp@, 0, 2),
            cp_len == cp@.len(),
            tiles@.len() == 256 * n_tiles,
            forall|k: int| 0 <= k < 256 * n_tiles ==> #[trigger] tiles@[k] == spec_from_4444(le16(ch@, 2 + 2 * k)),
            name_error(cp@, n_tiles as int, 256 * n_frames, 0) == name_error(
                cp@,
                n_tiles as int,
                256 * n_frames,
                256 * f,
            ),
            frames@.len() == f,
            forall|j: int|
                0 <= j < f ==> (#[trigger] frames@[j])@ == (RasterView {
                    width: 256,
                    height: 256,
                    data: Seq::new(65536, |i: int| sprite_pixel(ch@, cp@, j, i)),
                }),
        decreases n_frames - f,
    {
        let mut img: Vec<u32> = Vec::with_capacity(65536);
        let mut e: usize = 0;
        while e < 256
            invariant
                e <= 256,
                f < n_frames,
                n_frames <= 0xFFFF,
                n_tiles <= 0xFFFF,
                n_frames == le16(cp@, 0),
                n_tiles == le16(ch@, 0),
                avail(ch@, 0, 2),
                avail(ch@, 2, 512 * n_tiles),
                avail(cp@, 0, 2),
                cp_len == cp@.len(),
                tiles@.len() == 256 * n_tiles,
                forall|k: int|
                    0 <= k < 256 * n_tiles ==> #[trigger] tiles@[k] == spec_from_4444(le16(ch@, 2 + 2 * k)),
                name_error(cp@, n_tiles as int, 256 * n_frames, 0) == name_error(
                    cp@,
                    n_tiles as int,
                    256 * n_frames,
                    256 * f + e,
                ),
                img@.len() == 256 * e,
                forall|i: int| 0 <= i < 256 * e ==> #[trigger] img@[i] == sprite_pixel(ch@, cp@, f as int, i),
            decreases 256 - e,
        {
            let at: usize = 2 + 2 * (256 * f + e);
            let id: u16 = match get_u16(cp, at) {
                Ok(id) => id,
                Err(_) => {
                    return Err(ReadError::UnexpectedEnd);
                },
            };
            if id != NO_TILE && id as usize >= n_tiles {
                return Err(ReadError::InvalidTile);
            }
            let mut i: usize = 0;
            while i < 256
                invariant
                    i <= 256,
                    e < 256,
                    id == le16(cp@, 2 + 2 * (256 * f + e)),
                    id == NO_TILE || id < n_tiles,
                    tiles@.len() == 256 * n_tiles,
                    forall|k: int|
                        0 <= k < 256 * n_tiles ==> #[trigger] tiles@[k] == spec_from_4444(le16(ch@, 2 + 2 * k)),
                    img@.len() == 256 * e + i,
                    forall|j: int|
                        0 <= j < 256 * e + i ==> #[trigger] img@[j] == sprite_pixel(ch@, cp@, f as int, j),
                decreases 256 - i,
            {
                let v: u32 = if id == NO_TILE {
                    0
                } else {
                    tiles[256 * id as usize + i]
                };
                assert((256 * e + i) / 256 == e && (256 * e + i) % 256 == i);
                img.push(v);
                i += 1;
            }
            e += 1;
        }
        let frame = Raster::new_with(256, 256, img);
        assert(frame@.data =~= Seq::new(65536, |i: int| sprite_pixel(ch@, cp@, f as int, i)));
        frames.push(frame);
        f += 1;
    }
    assert(views(frames@) =~= spec_read(ch@, cp@).unwrap());
    Ok(frames)
}

} // verus!
