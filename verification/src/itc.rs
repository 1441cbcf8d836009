//! Sheets of up to 128 sprites: each sprite is an ITP file with a place and a scale.
//!
//! The file holds a table of where each sprite's file stands and how long it is,
//! then for all sprites one field after another, then a palette that the
//! sprites may share, then the sprites' files.

use crate::bytes::avail;
use crate::itp::read::{get_u16, get_u32, le16, le32};
use crate::itp::write::{bytes16, bytes32, low32, put_slice, put_u16, put_u32, to_low32};
use vstd::prelude::*;

verus! {

/// The number of sprites that a sheet has room for.
pub const FRAMES: usize = 128;

/// The four bytes `V101`, which a sheet without a palette starts with.
pub const V101: u32 = 0x3130_3156;

/// The four bytes `V102`, which a sheet with a palette starts with.
pub const V102: u32 = 0x3230_3156;

/// The number one as the bits of a floating-point number of 32 bits.
pub const ONE: u32 = 0x3F80_0000;

/// Where the fields of the sprites start, behind the table.
pub const FIELDS_AT: usize = 1028;

/// Where the palette starts, behind the fields.
pub const PALETTE_AT: usize = 3332;

/// One sprite of a sheet. The place and the scale are floating-point numbers of 32
/// bits, kept as their bits.
#[derive(Debug, PartialEq, Eq)]
pub struct Frame {
    /// The ITP file of the sprite, if the sheet has this sprite.
    pub itp: Option<Vec<u8>>,
    pub unknown: u16,
    pub offset: (u32, u32),
    pub scale: (u32, u32),
    /// The place of the sprite's file among the files of the sheet.
    pub order: usize,
}

/// One sprite of a sheet, as plain values.
pub struct FrameView {
    pub itp: Option<Seq<u8>>,
    pub unknown: u16,
    pub offset: (u32, u32),
    pub scale: (u32, u32),
    pub order: usize,
}

impl View for Frame {
    type V = FrameView;

    open spec fn view(&self) -> FrameView {
        FrameView {
            itp: match self.itp {
                Some(itp) => Some(itp@),
                None => None,
            },
            unknown: self.unknown,
            offset: self.offset,
            scale: self.scale,
            order: self.order,
        }
    }
}

impl Clone for Frame {
    fn clone(&self) -> (frame: Self)
        ensures
            frame@ == self@,
    {
        Frame {
            itp: match &self.itp {
                Some(itp) => Some(vstd::slice::slice_to_vec(itp.as_slice())),
                None => None,
            },
            unknown: self.unknown,
            offset: self.offset,
            scale: self.scale,
            order: self.order,
        }
    }
}

impl Default for Frame {
    /// No sprite: nowhere, of scale one, and last in order.
    fn default() -> (frame: Self)
        ensures
            frame@ == (FrameView { itp: None, unknown: 0, offset: (0, 0), scale: (ONE, ONE), order: usize::MAX }),
    {
        Frame { itp: None, unknown: 0, offset: (0, 0), scale: (ONE, ONE), order: usize::MAX }
    }
}

/// A sheet of sprites, with the palette they share if they share one.
#[derive(Debug, Clone, PartialEq, Eq)]
pub struct Itc {
    /// The sprites: 128 of them.
    pub frames: Vec<Frame>,
    pub palette: Option<Vec<u32>>,
}

/// A sheet of sprites, as plain values.
pub struct ItcView {
    pub frames: Seq<FrameView>,
    pub palette: Option<Seq<u32>>,
}

impl View for Itc {
    type V = ItcView;

    open spec fn view(&self) -> ItcView {
        ItcView {
            frames: Seq::new(self.frames@.len(), |i: int| self.frames@[i]@),
            palette: match self.palette {
                Some(p) => Some(p@),
                None => None,
            },
        }
    }
}

impl Default for Itc {
    /// A sheet without sprites and without a palette.
    fn default() -> (itc: Self)
        ensures
            itc@.frames.len() == FRAMES,
            itc@.palette is None,
            forall|i: int|
                0 <= i < FRAMES ==> #[trigger] itc@.frames[i] == (FrameView {
                    itp: None,
                    unknown: 0,
                    offset: (0, 0),
                    scale: (ONE, ONE),
                    order: usize::MAX,
                }),
    {
        let mut frames: Vec<Frame> = Vec::with_capacity(FRAMES);
        let mut i: usize = 0;
        while i < FRAMES
            invariant
                i <= FRAMES,
                frames@.len() == i,
                forall|k: int|
                    0 <= k < i ==> (#[trigger] frames@[k])@ == (FrameView {
                        itp: None,
                        unknown: 0,
                        offset: (0, 0),
                        scale: (ONE, ONE),
                        order: usize::MAX,
                    }),
            decreases FRAMES - i,
        {
            frames.push(Frame::default());
            i += 1;
        }
        Itc { frames, palette: None }
    }
}

/// Why bytes are no sheet.
#[derive(Debug, Clone, Copy, PartialEq, Eq, Structural)]
pub enum ReadError {
    /// The first four bytes are not those of a sheet.
    NotItc,
    /// The file ends inside a field, or a sprite's file stands outside it.
    UnexpectedEnd,
}

/// Why a sheet cannot be written.
#[derive(Debug, Clone, Copy, PartialEq, Eq, Structural)]
pub enum WriteError {
    /// The sheet has another number of sprites than 128.
    FrameCount,
    /// A sprite's file stands too far behind to be found by a number of 32 bits.
    TooLarge,
}

/// Where the file of sprite `k` starts, by the table.
pub open spec fn start_of(s: Seq<u8>, k: int) -> u32 {
    le32(s, 4 + 8 * k)
}

/// How long the file of sprite `k` is, by the table.
pub open spec fn length_of(s: Seq<u8>, k: int) -> u32 {
    le32(s, 8 + 8 * k)
}

/// The sheet has sprite `k`: its line of the table is not all zero.
pub open spec fn present(s: Seq<u8>, k: int) -> bool {
    start_of(s, k) != 0 || length_of(s, k) != 0
}

/// The first thing wrong with the lines of the table from line `k` on, if
/// anything: the file ends inside the line, or the sprite's file stands outside
/// the sheet's.
pub open spec fn table_error(s: Seq<u8>, k: int) -> Option<ReadError>
    decreases FRAMES - k,
{
    if k >= FRAMES {
        None
    } else if !avail(s, 4 + 8 * k, 8) {
        Some(ReadError::UnexpectedEnd)
    } else if present(s, k) && start_of(s, k) + length_of(s, k) > s.len() {
        Some(ReadError::UnexpectedEnd)
    } else {
        table_error(s, k + 1)
    }
}

/// The number of sprites among the first `j` whose files start before `start`.
pub open spec fn started_before(s: Seq<u8>, start: int, j: int) -> nat
    decreases j,
{
    if j <= 0 {
        0
    } else {
        started_before(s, start, j - 1) + (if present(s, j - 1) && start_of(s, j - 1) < start {
            1nat
        } else {
            0nat
        })
    }
}

/// Sprite `k` as the sheet holds it. The order of a sprite is the number of
/// sprites whose files start before its file.
pub open spec fn frame_of(s: Seq<u8>, k: int) -> FrameView {
    FrameView {
        itp: if present(s, k) {
            Some(s.subrange(start_of(s, k) as int, start_of(s, k) + length_of(s, k)))
        } else {
            None
        },
        unknown: le16(s, FIELDS_AT + 2 * k),
        offset: (le32(s, FIELDS_AT + 256 + 4 * k), le32(s, FIELDS_AT + 768 + 4 * k)),
        scale: (le32(s, FIELDS_AT + 1280 + 4 * k), le32(s, FIELDS_AT + 1792 + 4 * k)),
        order: if present(s, k) {
            started_before(s, start_of(s, k) as int, FRAMES as int) as usize
        } else {
            usize::MAX
        },
    }
}

/// The sheet that `s` holds.
pub open spec fn spec_read(s: Seq<u8>) -> Result<ItcView, ReadError> {
    if !avail(s, 0, 4) {
        Err(ReadError::UnexpectedEnd)
    } else if le32(s, 0) != V101 && le32(s, 0) != V102 {
        Err(ReadError::NotItc)
    } else if table_error(s, 0) is Some {
        Err(table_error(s, 0).unwrap())
    } else if !avail(s, FIELDS_AT as int, 2304) {
        Err(ReadError::UnexpectedEnd)
    } else if le32(s, 0) == V101 {
        Ok(ItcView { frames: Seq::new(FRAMES as nat, |k: int| frame_of(s, k)), palette: None })
    } else if !avail(s, PALETTE_AT as int, 4) {
        Err(ReadError::UnexpectedEnd)
    } else if !avail(s, PALETTE_AT + 4, 4 * le32(s, PALETTE_AT as int)) {
        Err(ReadError::UnexpectedEnd)
    } else {
        Ok(
            ItcView {
                frames: Seq::new(FRAMES as nat, |k: int| frame_of(s, k)),
                palette: Some(Seq::new(le32(s, PALETTE_AT as int) as nat, |i: int| le32(s, PALETTE_AT + 4 + 4 * i))),
            },
        )
    }
}

/// The 32-bit number at `at`, or the error of a file that ends before it.
fn number(data: &[u8], at: usize) -> (r: Result<u32, ReadError>)
    ensures
        match r {
            Ok(v) => avail(data@, at as int, 4) && v == le32(data@, at as int),
            Err(e) => !avail(data@, at as int, 4) && e == ReadError::UnexpectedEnd,
        },
{
    match get_u32(data, at) {
        Ok(v) => Ok(v),
        Err(_) => Err(ReadError::UnexpectedEnd),
    }
}

/// Reads a sheet.
pub fn read(data: &[u8]) -> (r: Result<Itc, ReadError>)
    ensures
        match r {
            Ok(itc) => spec_read(data@) == Ok::<ItcView, ReadError>(itc@),
            Err(e) => spec_read(data@) == Err::<ItcView, ReadError>(e),
        },
{
    let len: usize = data.len();
    let magic = number(data, 0)?;
    if magic != V101 && magic != V102 {
        return Err(ReadError::NotItc);
    }
    let mut k: usize = 0;
    while k < FRAMES
        invariant
            k <= FRAMES,
            len == data@.len(),
            table_error(data@, 0) == table_error(data@, k as int),
            avail(data@, 0, 4),
            le32(data@, 0) == magic,
            magic == V101 || magic == V102,
        decreases FRAMES - k,
    {
        let start = number(data, 4 + 8 * k)?;
        let length = number(data, 8 + 8 * k)?;
        if (start != 0 || length != 0) && start as u64 + length as u64 > len as u64 {
            return Err(ReadError::UnexpectedEnd);
        }
        k += 1;
    }
    if len < PALETTE_AT {
        return Err(ReadError::UnexpectedEnd);
    }
    let mut frames: Vec<Frame> = Vec::with_capacity(FRAMES);
    k = 0;
    while k < FRAMES
        invariant
            k <= FRAMES,
            len == data@.len(),
            len >= PALETTE_AT,
            table_error(data@, 0) is None,
            frames@.len() == k,
            forall|j: int| 0 <= j < k ==> (#[trigger] frames@[j])@ == frame_of(data@, j),
        decreases FRAMES - k,
    {
        let start = number(data, 4 + 8 * k)?;
        let length = number(data, 8 + 8 * k)?;
        let found = start != 0 || length != 0;
        proof {
            lemma_table(data@, 0, k as int);
        }
        let itp: Option<Vec<u8>> = if found {
            Some(
                vstd::slice::slice_to_vec(
                    vstd::slice::slice_subrange(data, start as usize, start as usize + length as usize),
                ),
            )
        } else {
            None
        };
        let order: usize = if found {
            let mut before: usize = 0;
            let mut j: usize = 0;
            while j < FRAMES
                invariant
                    j <= FRAMES,
                    len >= PALETTE_AT,
                    len == data@.len(),
                    before <= j,
                    before == started_before(data@, start as int, j as int),
                decreases FRAMES - j,
            {
                let other = number(data, 4 + 8 * j)?;
                let other_length = number(data, 8 + 8 * j)?;
                if (other != 0 || other_length != 0) && other < start {
                    before += 1;
                }
                j += 1;
            }
            before
        } else {
            usize::MAX
        };
        let unknown: u16 = match get_u16(data, FIELDS_AT + 2 * k) {
            Ok(v) => v,
            Err(_) => {
                return Err(ReadError::UnexpectedEnd);
            },
        };
        let offset = (number(data, FIELDS_AT + 256 + 4 * k)?, number(data, FIELDS_AT + 768 + 4 * k)?);
        let scale = (number(data, FIELDS_AT + 1280 + 4 * k)?, number(data, FIELDS_AT + 1792 + 4 * k)?);
        frames.push(Frame { itp, unknown, offset, scale, order });
        k += 1;
    }
    let palette: Option<Vec<u32>> = if magic == V102 {
        let size = number(data, PALETTE_AT)?;
        if (len - PALETTE_AT - 4) / 4 < size as usize {
            return Err(ReadError::UnexpectedEnd);
        }
        let n: usize = size as usize;
        let mut palette: Vec<u32> = Vec::with_capacity(n);
        let mut i: usize = 0;
        while i < n
            invariant
                i <= n,
                len == data@.len(),
                PALETTE_AT + 4 + 4 * n <= len,
                palette@.len() == i,
                forall|j: int| 0 <= j < i ==> #[trigger] palette@[j] == le32(data@, PALETTE_AT + 4 + 4 * j),
            decreases n - i,
        {
            palette.push(number(data, PALETTE_AT + 4 + 4 * i)?);
            i += 1;
        }
        assert(palette@ =~= Seq::new(size as nat, |i: int| le32(data@, PALETTE_AT + 4 + 4 * i)));
        Some(palette)
    } else {
        None
    };
    let itc = Itc { frames, palette };
    assert(itc@.frames =~= Seq::new(FRAMES as nat, |k: int| frame_of(data@, k)));
    Ok(itc)
}

/// A table without an error has all its lines, and every sprite's file inside the
/// sheet's.
proof fn lemma_table(s: Seq<u8>, from: int, k: int)
    requires
        0 <= from <= k < FRAMES,
        table_error(s, from) is None,
    ensures
        avail(s, 4 + 8 * k, 8),
        present(s, k) ==> start_of(s, k) + length_of(s, k) <= s.len(),
    decreases k - from,
{
    if from < k {
        lemma_table(s, from + 1, k);
    }
}

/// The sprites in `sorted` and sprite `k`, in the order of their orders. A sprite
/// stands behind those of the same order that were there before it.
pub open spec fn inserted(frames: Seq<FrameView>, sorted: Seq<int>, k: int) -> Seq<int>
    decreases sorted.len(),
{
    if sorted.len() == 0 {
        seq![k]
    } else if frames[sorted.last()].order <= frames[k].order {
        sorted.push(k)
    } else {
        inserted(frames, sorted.drop_last(), k).push(sorted.last())
    }
}

/// Those of the first `n` sprites that the sheet has, in the order of their
/// orders; of two sprites of the same order the one with the lower number first.
pub open spec fn sorted_frames(frames: Seq<FrameView>, n: int) -> Seq<int>
    decreases n,
{
    if n <= 0 {
        Seq::empty()
    } else if frames[n - 1].itp is Some {
        inserted(frames, sorted_frames(frames, n - 1), n - 1)
    } else {
        sorted_frames(frames, n - 1)
    }
}

/// Where the file of each sprite starts, for the sprites from place `i` of
/// `sorted` on, which follow one another from `at` on; for the others as in
/// `table`.
pub open spec fn places(frames: Seq<FrameView>, sorted: Seq<int>, i: int, at: int, table: Seq<int>) -> Seq<int>
    decreases sorted.len() - i,
{
    if i >= sorted.len() {
        table
    } else {
        places(frames, sorted, i + 1, at + frames[sorted[i]].itp.unwrap().len(), table.update(sorted[i], at))
    }
}

/// The files of the sprites from place `i` of `sorted` on, one after another, behind `out`.
pub open spec fn files(frames: Seq<FrameView>, sorted: Seq<int>, i: int, out: Seq<u8>) -> Seq<u8>
    decreases sorted.len() - i,
{
    if i >= sorted.len() {
        out
    } else {
        files(frames, sorted, i + 1, out + frames[sorted[i]].itp.unwrap())
    }
}

/// The lines of the table from line `k` on, behind `out`: for a sprite that the
/// sheet has where its file starts and how long it is, else zeros.
pub open spec fn table_bytes(frames: Seq<FrameView>, table: Seq<int>, k: int, out: Seq<u8>) -> Seq<u8>
    decreases FRAMES - k,
{
    if k >= FRAMES {
        out
    } else {
        table_bytes(
            frames,
            table,
            k + 1,
            out + (match frames[k].itp {
                Some(itp) => bytes32(low32(table[k])) + bytes32(low32(itp.len() as int)),
                None => bytes32(0) + bytes32(0),
            }),
        )
    }
}

/// One field of the sprites from sprite `k` on, behind `out`: 0 for the unknown
/// field, 1 and 2 for the place, 3 and 4 for the scale.
pub open spec fn field_bytes(frames: Seq<FrameView>, field: int, k: int, out: Seq<u8>) -> Seq<u8>
    decreases FRAMES - k,
{
    if k >= FRAMES {
        out
    } else {
        field_bytes(
            frames,
            field,
            k + 1,
            out + (if field == 0 {
                bytes16(frames[k].unknown)
            } else if field == 1 {
                bytes32(frames[k].offset.0)
            } else if field == 2 {
                bytes32(frames[k].offset.1)
            } else if field == 3 {
                bytes32(frames[k].scale.0)
            } else {
                bytes32(frames[k].scale.1)
            }),
        )
    }
}

/// The colours from colour `i` on, behind `out`.
pub open spec fn color_bytes(pal: Seq<u32>, i: int, out: Seq<u8>) -> Seq<u8>
    decreases pal.len() - i,
{
    if i >= pal.len() {
        out
    } else {
        color_bytes(pal, i + 1, out + bytes32(pal[i]))
    }
}

/// The palette as it is stored: the number of its colours, and the colours.
pub open spec fn palette_bytes(palette: Option<Seq<u32>>) -> Seq<u8> {
    match palette {
        Some(pal) => color_bytes(pal, 0, bytes32(low32(pal.len() as int))),
        None => Seq::empty(),
    }
}

/// Where the files of the sprites start.
pub open spec fn files_at(itc: ItcView) -> int {
    PALETTE_AT + palette_bytes(itc.palette).len()
}

/// Where the file of each sprite starts; zero for a sprite that the sheet has not.
pub open spec fn starts(itc: ItcView) -> Seq<int> {
    places(itc.frames, sorted_frames(itc.frames, FRAMES as int), 0, files_at(itc), Seq::new(FRAMES as nat, |k: int| 0int))
}

/// The file of a sheet: the magic, the table, the fields, the palette, and the
/// files of the sprites in the order of their orders.
pub open spec fn spec_write(itc: ItcView) -> Result<Seq<u8>, WriteError> {
    if itc.frames.len() != FRAMES {
        Err(WriteError::FrameCount)
    } else if exists|k: int| 0 <= k < FRAMES && itc.frames[k].itp is Some && #[trigger] starts(itc)[k] > u32::MAX {
        Err(WriteError::TooLarge)
    } else {
        Ok(
            files(
                itc.frames,
                sorted_frames(itc.frames, FRAMES as int),
                0,
                field_bytes(
                    itc.frames,
                    4,
                    0,
                    field_bytes(
                        itc.frames,
                        3,
                        0,
                        field_bytes(
                            itc.frames,
                            2,
                            0,
                            field_bytes(
                                itc.frames,
                                1,
                                0,
                                field_bytes(
                                    itc.frames,
                                    0,
                                    0,
                                    table_bytes(
                                        itc.frames,
                                        starts(itc),
                                        0,
                                        bytes32(
                                            if itc.palette is Some {
                                                V102
                                            } else {
                                                V101
                                            },
                                        ),
                                    ),
                                ),
                            ),
                        ),
                    ),
                ) + palette_bytes(itc.palette),
            ),
        )
    }
}

/// Every sprite in `sorted` is one that the sheet has.
pub open spec fn all_present(frames: Seq<FrameView>, sorted: Seq<int>) -> bool {
    forall|i: int| 0 <= i < sorted.len() ==> 0 <= #[trigger] sorted[i] < frames.len() && frames[sorted[i]].itp is Some
}

/// The contents of each sprite.
pub open spec fn frame_views(frames: Seq<Frame>) -> Seq<FrameView> {
    Seq::new(frames.len(), |i: int| frames[i]@)
}

/// The sprites that the sheet has, in the order of their orders.
fn sort_frames(frames: &Vec<Frame>) -> (sorted: Vec<usize>)
    requires
        frames@.len() == FRAMES,
    ensures
        Seq::new(sorted@.len(), |i: int| sorted@[i] as int) == sorted_frames(frame_views(frames@), FRAMES as int),
        all_present(frame_views(frames@), Seq::new(sorted@.len(), |i: int| sorted@[i] as int)),
{
    let ghost views = frame_views(frames@);
    let mut sorted: Vec<usize> = Vec::with_capacity(FRAMES);
    let mut n: usize = 0;
    assert(Seq::new(sorted@.len(), |i: int| sorted@[i] as int) =~= sorted_frames(views, 0));
    while n < FRAMES
        invariant
            n <= FRAMES,
            frames@.len() == FRAMES,
            views == frame_views(frames@),
            Seq::new(sorted@.len(), |i: int| sorted@[i] as int) == sorted_frames(views, n as int),
            all_present(views, Seq::new(sorted@.len(), |i: int| sorted@[i] as int)),
            forall|i: int| 0 <= i < sorted@.len() ==> (#[trigger] sorted@[i]) < FRAMES,
        decreases FRAMES - n,
    {
        if frames[n].itp.is_some() {
            let ghost before = Seq::new(sorted@.len(), |i: int| sorted@[i] as int);
            let order: usize = frames[n].order;
            let mut pos: usize = sorted.len();
            assert(before.subrange(0, pos as int) =~= before);
            assert(inserted(views, before, n as int) =~= inserted(views, before.subrange(0, pos as int), n as int)
                + before.subrange(pos as int, before.len() as int));
            while pos > 0 && frames[sorted[pos - 1]].order > order
                invariant
                    pos <= sorted@.len(),
                    n < FRAMES,
                    frames@.len() == FRAMES,
                    views == frame_views(frames@),
                    order == views[n as int].order,
                    before == Seq::new(sorted@.len(), |i: int| sorted@[i] as int),
                    forall|i: int| 0 <= i < sorted@.len() ==> (#[trigger] sorted@[i]) < FRAMES,
                    inserted(views, before, n as int) == inserted(views, before.subrange(0, pos as int), n as int)
                        + before.subrange(pos as int, before.len() as int),
                decreases pos,
            {
                proof {
                    let head = before.subrange(0, pos as int);
                    assert(head.last() == before[pos - 1]);
                    assert(head.drop_last() =~= before.subrange(0, pos - 1));
                    assert(inserted(views, head.drop_last(), n as int).push(head.last()) + before.subrange(
                        pos as int,
                        before.len() as int,
                    ) =~= inserted(views, head.drop_last(), n as int) + before.subrange(
                        pos - 1,
                        before.len() as int,
                    ));
                }
                pos -= 1;
            }
            proof {
                let head = before.subrange(0, pos as int);
                if pos > 0 {
                    assert(head.last() == before[pos - 1]);
                }
                assert(inserted(views, head, n as int) == head.push(n as int));
            }
            sorted.insert(pos, n);
            proof {
                let after = Seq::new(sorted@.len(), |i: int| sorted@[i] as int);
                assert(after =~= before.subrange(0, pos as int).push(n as int) + before.subrange(
                    pos as int,
                    before.len() as int,
                ));
                assert forall|i: int| 0 <= i < after.len() implies 0 <= #[trigger] after[i] < views.len()
                    && views[after[i]].itp is Some by {
                    if i < pos {
                        assert(after[i] == before[i]);
                    } else if i > pos {
                        assert(after[i] == before[i - 1]);
                    }
                }
            }
        }
        n += 1;
    }
    sorted
}

/// Where the file of each sprite starts.
fn place_frames(frames: &Vec<Frame>, sorted: &Vec<usize>, files_at: u128) -> (table: Vec<u128>)
    requires
        files_at <= usize::MAX * 8,
        frames@.len() == FRAMES,
        all_present(frame_views(frames@), Seq::new(sorted@.len(), |i: int| sorted@[i] as int)),
        sorted@.len() <= FRAMES,
    ensures
        Seq::new(table@.len(), |k: int| table@[k] as int) == places(
            frame_views(frames@),
            Seq::new(sorted@.len(), |i: int| sorted@[i] as int),
            0,
            files_at as int,
            Seq::new(FRAMES as nat, |k: int| 0int),
        ),
        table@.len() == FRAMES,
{
    let ghost views = frame_views(frames@);
    let ghost order = Seq::new(sorted@.len(), |i: int| sorted@[i] as int);
    let mut table: Vec<u128> = Vec::with_capacity(FRAMES);
    let mut k: usize = 0;
    while k < FRAMES
        invariant
            k <= FRAMES,
            table@.len() == k,
            forall|j: int| 0 <= j < k ==> #[trigger] table@[j] == 0,
        decreases FRAMES - k,
    {
        table.push(0);
        k += 1;
    }
    assert(Seq::new(table@.len(), |k: int| table@[k] as int) =~= Seq::new(FRAMES as nat, |k: int| 0int));
    let n: usize = sorted.len();
    let mut at: u128 = files_at;
    let mut i: usize = 0;
    while i < n
        invariant
            i <= n,
            n == sorted@.len(),
            n <= FRAMES,
            frames@.len() == FRAMES,
            views == frame_views(frames@),
            order == Seq::new(sorted@.len(), |i: int| sorted@[i] as int),
            all_present(views, order),
            table@.len() == FRAMES,
            at <= usize::MAX * (i + 8),
            places(views, order, 0, files_at as int, Seq::new(FRAMES as nat, |k: int| 0int)) == places(
                views,
                order,
                i as int,
                at as int,
                Seq::new(table@.len(), |k: int| table@[k] as int),
            ),
        decreases n - i,
    {
        let k: usize = sorted[i];
        assert(order[i as int] == k);
        let length: usize = match &frames[k].itp {
            Some(itp) => itp.len(),
            None => 0,
        };
        proof {
            assert(Seq::new(table@.len(), |j: int| table@[j] as int).update(k as int, at as int) =~= Seq::new(
                table@.len(),
                |j: int| table@.update(k as int, at)[j] as int,
            ));
            assert(usize::MAX * (i + 8) + usize::MAX == usize::MAX * (i + 9)) by (nonlinear_arith);
            assert(usize::MAX * (i + 9) <= usize::MAX * 137) by (nonlinear_arith)
                requires
                    i + 9 <= 137,
            ;
        }
        table.set(k, at);
        at = at + length as u128;
        i += 1;
    }
    table
}

/// Appends the palette as it is stored.
fn write_palette(palette: &Option<Vec<u32>>) -> (out: Vec<u8>)
    ensures
        out@ == palette_bytes(
            match palette {
                Some(p) => Some(p@),
                None => None,
            },
        ),
        out@.len() <= usize::MAX,
{
    let mut out: Vec<u8> = Vec::new();
    match palette {
        Some(pal) => {
            let n: usize = pal.len();
            put_u32(&mut out, to_low32(n as u128));
            let ghost start = out@;
            let mut i: usize = 0;
            while i < n
                invariant
                    i <= n,
                    n == pal@.len(),
                    color_bytes(pal@, 0, start) == color_bytes(pal@, i as int, out@),
                decreases n - i,
            {
                put_u32(&mut out, pal[i]);
                i += 1;
            }
        },
        None => {},
    }
    let len: usize = out.len();
    out
}

/// Appends one field of all sprites.
fn write_field(out: &mut Vec<u8>, frames: &Vec<Frame>, field: u8)
    requires
        frames@.len() == FRAMES,
    ensures
        final(out)@ == field_bytes(frame_views(frames@), field as int, 0, old(out)@),
{
    let ghost views = frame_views(frames@);
    let mut k: usize = 0;
    while k < FRAMES
        invariant
            k <= FRAMES,
            frames@.len() == FRAMES,
            views == frame_views(frames@),
            field_bytes(views, field as int, 0, old(out)@) == field_bytes(views, field as int, k as int, out@),
        decreases FRAMES - k,
    {
        let frame = &frames[k];
        assert(views[k as int] == frame@);
        if field == 0 {
            put_u16(out, frame.unknown);
        } else if field == 1 {
            put_u32(out, frame.offset.0);
        } else if field == 2 {
            put_u32(out, frame.offset.1);
        } else if field == 3 {
            put_u32(out, frame.scale.0);
        } else {
            put_u32(out, frame.scale.1);
        }
        k += 1;
    }
}

/// Writes a sheet.
pub fn write(itc: &Itc) -> (r: Result<Vec<u8>, WriteError>)
    ensures
        match r {
            Ok(out) => spec_write(itc@) == Ok::<Seq<u8>, WriteError>(out@),
            Err(e) => spec_write(itc@) == Err::<Seq<u8>, WriteError>(e),
        },
{
    let frames = &itc.frames;
    if frames.len() != FRAMES {
        return Err(WriteError::FrameCount);
    }
    let ghost views = frame_views(frames@);
    assert(views =~= itc@.frames);
    let mut palette = write_palette(&itc.palette);
    let files_at: u128 = PALETTE_AT as u128 + palette.len() as u128;
    let sorted = sort_frames(frames);
    let ghost order = Seq::new(sorted@.len(), |i: int| sorted@[i] as int);
    proof {
        lemma_sorted_len(views, FRAMES as int);
    }
    let table = place_frames(frames, &sorted, files_at);
    let ghost table_view = Seq::new(table@.len(), |k: int| table@[k] as int);
    assert(table_view == starts(itc@));
    let mut k: usize = 0;
    while k < FRAMES
        invariant
            k <= FRAMES,
            frames@.len() == FRAMES,
            table@.len() == FRAMES,
            views == itc@.frames,
            views == frame_views(frames@),
            table_view == Seq::new(table@.len(), |k: int| table@[k] as int),
            table_view == starts(itc@),
            forall|j: int| 0 <= j < k && views[j].itp is Some ==> #[trigger] starts(itc@)[j] <= u32::MAX,
        decreases FRAMES - k,
    {
        assert(views[k as int] == frames@[k as int]@);
        assert(table_view[k as int] == table@[k as int]);
        if frames[k].itp.is_some() && table[k] > u32::MAX as u128 {
            return Err(WriteError::TooLarge);
        }
        k += 1;
    }
    let mut out: Vec<u8> = Vec::new();
    put_u32(&mut out, if itc.palette.is_some() { V102 } else { V101 });
    let ghost magic = out@;
    assert(magic =~= bytes32(if itc@.palette is Some { V102 } else { V101 }));
    k = 0;
    while k < FRAMES
        invariant
            k <= FRAMES,
            frames@.len() == FRAMES,
            table@.len() == FRAMES,
            views == frame_views(frames@),
            table_view == Seq::new(table@.len(), |k: int| table@[k] as int),
            table_bytes(views, table_view, 0, magic) == table_bytes(views, table_view, k as int, out@),
        decreases FRAMES - k,
    {
        assert(views[k as int] == frames@[k as int]@);
        assert(table_view[k as int] == table@[k as int]);
        let ghost before = out@;
        match &frames[k].itp {
            Some(itp) => {
                put_u32(&mut out, to_low32(table[k]));
                put_u32(&mut out, to_low32(itp.len() as u128));
                assert(out@ =~= before + (bytes32(low32(table_view[k as int])) + bytes32(low32(itp@.len() as int))));
            },
            None => {
                put_u32(&mut out, 0);
                put_u32(&mut out, 0);
                assert(out@ =~= before + (bytes32(0) + bytes32(0)));
            },
        }
        k += 1;
    }
    write_field(&mut out, frames, 0);
    write_field(&mut out, frames, 1);
    write_field(&mut out, frames, 2);
    write_field(&mut out, frames, 3);
    write_field(&mut out, frames, 4);
    out.append(&mut palette);
    let ghost head = out@;
    let n: usize = sorted.len();
    let mut i: usize = 0;
    while i < n
        invariant
            i <= n,
            n == sorted@.len(),
            frames@.len() == FRAMES,
            views == frame_views(frames@),
            order == Seq::new(sorted@.len(), |i: int| sorted@[i] as int),
            all_present(views, order),
            files(views, order, 0, head) == files(views, order, i as int, out@),
        decreases n - i,
    {
        let k: usize = sorted[i];
        assert(order[i as int] == k);
        assert(views[k as int] == frames@[k as int]@);
        match &frames[k].itp {
            Some(itp) => {
                put_slice(&mut out, itp.as_slice());
            },
            None => {},
        }
        i += 1;
    }
    Ok(out)
}

/// No more sprites are in order than the sheet has room for.
proof fn lemma_sorted_len(frames: Seq<FrameView>, n: int)
    requires
        0 <= n,
    ensures
        sorted_frames(frames, n).len() <= n,
    decreases n,
{
    if n > 0 {
        lemma_sorted_len(frames, n - 1);
        if frames[n - 1].itp is Some {
            lemma_inserted_len(frames, sorted_frames(frames, n - 1), n - 1);
        }
    }
}

/// Inserting a frame makes the list one longer.
proof fn lemma_inserted_len(frames: Seq<FrameView>, sorted: Seq<int>, k: int)
    ensures
        inserted(frames, sorted, k).len() == sorted.len() + 1,
    decreases sorted.len(),
{
    if sorted.len() > 0 && frames[sorted.last()].order > frames[k].order {
        lemma_inserted_len(frames, sorted.drop_last(), k);
    }
}

} // verus!
