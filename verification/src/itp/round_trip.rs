//! Reading what was written gives it back, and writing it again gives the same file.
//!
//! The laws here speak of images without compression and with their rows in
//! order, as the constructor makes them.

use super::{
    BaseFormatType, CompressionType, ImageView, ItpRevision, ItpStatus, ItpView, MipmapType, MultiPlaneType,
    PaletteView, PixelBitFormatType, PixelFormatType, PixelKind,
};
use super::flags::{
    lemma_flag_word, lemma_flags_decode_encode, lemma_gen1_round_trip, spec_status_from_flags, spec_status_to_flags,
};
use super::read::{
    chunk_body, chunks, ChunkStateView, DDS_MAGIC, empty_image, expect16, expect32, finished, first_state, ialp, IALP,
    idat, IDAT, idat_at, IEND, IHDR, ihdr_error, ihdr_status, imip, IMIP, ipal, IPAL, ITP_MAGIC, le16, le32,
    legacy_flags, legacy_image, legacy_palette, lemma_swap_rb_twice, level_at, mip_dim, nul_from, palette_at,
    palette_colors, PNG_MAGIC, ReadError, revision_3, running_sum, source_index, spec_read, swap_rb,
};
use super::write::{
    bytes16, bytes32, chunk, color_bytes, fixed_colors, HEADER_LEN, ialp_chunk, idat_bytes, idat_chunks, ihdr_body,
    imip_chunk, ipal_chunk, legacy_file, legacy_head, legacy_palette_bytes, lemma_bytes_of_numbers, level_bytes,
    levels_bytes, low16, low32, palette_bytes, pixel_bytes, revision_3_file, spec_write, stored_colors, stored_values,
    WriteError,
};
use crate::bytes::{avail, le_at, le_bytes, lemma_le_bytes_len, lemma_le_value_of_bytes, lemma_pow256_values, pow256};
use crate::raster::RasterView;
use vstd::arithmetic::div_mod::lemma_fundamental_div_mod_converse;
use vstd::prelude::*;

verus! {

/// The four bytes of a number are read as the number.
pub proof fn lemma_read32(s: Seq<u8>, at: int, v: u32)
    requires
        0 <= at,
        at + 4 <= s.len(),
        s.subrange(at, at + 4) == bytes32(v),
    ensures
        avail(s, at, 4),
        le32(s, at) == v,
{
    lemma_bytes_of_numbers(v, 0);
    lemma_pow256_values();
    lemma_le_value_of_bytes(v as nat, 4);
}

/// The two bytes of a number are read as the number.
pub proof fn lemma_read16(s: Seq<u8>, at: int, v: u16)
    requires
        0 <= at,
        at + 2 <= s.len(),
        s.subrange(at, at + 2) == bytes16(v),
    ensures
        avail(s, at, 2),
        le16(s, at) == v,
{
    lemma_bytes_of_numbers(0, v);
    lemma_pow256_values();
    lemma_le_value_of_bytes(v as nat, 2);
}

/// In the bytes of a list of numbers, each number is read where it was written.
pub proof fn lemma_pixel_bytes(values: Seq<nat>, size: nat, i: int)
    requires
        size >= 1,
        0 <= i < values.len(),
        values[i] < pow256(size),
    ensures
        pixel_bytes(values, size).len() == values.len() * size,
        0 <= i * size,
        i * size + size <= values.len() * size,
        le_at(pixel_bytes(values, size), i * size, size as int) == values[i],
{
    assert(0 <= i * size && i * size + size <= values.len() * size) by (nonlinear_arith)
        requires
            0 <= i,
            i + 1 <= values.len(),
            size >= 1,
    ;
    let bytes = pixel_bytes(values, size);
    lemma_le_bytes_len(values[i], size);
    assert forall|j: int| 0 <= j < size implies bytes.subrange(i * size, i * size + size)[j] == le_bytes(
        values[i],
        size,
    )[j] by {
        lemma_fundamental_div_mod_converse(i * size + j, size as int, i, j);
    }
    assert(bytes.subrange(i * size, i * size + size) =~= le_bytes(values[i], size));
    lemma_le_value_of_bytes(values[i], size);
}

/// A level holds one number for each of its pixels, and each fits the size of an element.
pub open spec fn level_ok(level: RasterView<nat>, size: nat) -> bool {
    &&& level.wf()
    &&& forall|i: int| 0 <= i < level.data.len() ==> #[trigger] level.data[i] < pow256(size)
}

/// A level that is written without compression and with its rows in order is
/// read back as it was.
pub proof fn lemma_level_round_trip(s: Seq<u8>, at: int, level: RasterView<nat>, size: nat)
    requires
        1 <= size <= 16,
        level_ok(level, size),
        0 <= at,
        at + level.data.len() * size <= s.len(),
        s.subrange(at, at + level.data.len() * size) == pixel_bytes(level.data, size),
    ensures
        level_bytes(level, size, PixelFormatType::Linear, CompressionType::Uncompressed) == Ok::<Seq<u8>, WriteError>(
            pixel_bytes(level.data, size),
        ),
        level_at(
            s,
            at,
            CompressionType::Uncompressed,
            PixelFormatType::Linear,
            size,
            level.width,
            level.height,
        ) == Ok::<(RasterView<nat>, int), ReadError>((level, at + level.data.len() * size)),
{
    assert(stored_values(level, PixelFormatType::Linear) =~= level.data);
    let w = level.width;
    let h = level.height;
    let bytes = s.subrange(at, at + w * h * size);
    let read = Seq::new(
        w * h,
        |i: int| le_at(bytes, source_index(PixelFormatType::Linear, w, h, i) * size, size as int),
    );
    assert forall|i: int| 0 <= i < level.data.len() implies read[i] == level.data[i] by {
        lemma_pixel_bytes(level.data, size, i);
    }
    assert(read =~= level.data);
}

/// The colours as numbers.
pub open spec fn color_values(colors: Seq<u32>) -> Seq<nat> {
    Seq::new(colors.len(), |i: int| colors[i] as nat)
}

/// What is stored for colour `i` of a palette.
proof fn lemma_stored_color(bytes: Seq<u8>, stored: Seq<u32>, i: int)
    requires
        bytes == color_bytes(stored),
        0 <= i < stored.len(),
    ensures
        bytes.len() == 4 * stored.len(),
        le32(bytes, 4 * i) == stored[i],
{
    lemma_pow256_values();
    lemma_pixel_bytes(color_values(stored), 4, i);
    assert(color_bytes(stored) == pixel_bytes(color_values(stored), 4));
}

/// Adding back what was subtracted, both wrapping, gives the number back.
proof fn lemma_wrapped_difference(a: u32, b: u32)
    ensures
        ((a + ((b - a) % 0x1_0000_0000) as u32) % 0x1_0000_0000) as u32 == b,
{
}

/// The running sums of stored differences are the colours.
proof fn lemma_running_sum(bytes: Seq<u8>, colors: Seq<u32>, i: int)
    requires
        bytes == color_bytes(stored_colors(colors, true)),
        0 <= i < colors.len(),
    ensures
        running_sum(bytes, i) == swap_rb(colors[i]),
    decreases i,
{
    let stored = stored_colors(colors, true);
    lemma_stored_color(bytes, stored, i);
    if i > 0 {
        lemma_running_sum(bytes, colors, i - 1);
        let a = swap_rb(colors[i - 1]);
        let b = swap_rb(colors[i]);
        lemma_wrapped_difference(a, b);
        assert(stored[i] == ((b - a) % 0x1_0000_0000) as u32);
        assert(running_sum(bytes, i) == ((running_sum(bytes, i - 1) + le32(bytes, 4 * i)) % 0x1_0000_0000) as u32);
    } else {
        assert(4 * 0 == 0);
    }
}

/// An embedded palette of the number of colours that is read for it is read back
/// as it was written, with or without differences.
pub proof fn lemma_palette_round_trip(s: Seq<u8>, at: int, status: ItpStatus, colors: Seq<u32>)
    requires
        status.compression == CompressionType::Uncompressed,
        0 <= at,
        at + 4 * colors.len() <= s.len(),
        s.subrange(at, at + 4 * colors.len()) == palette_bytes(status, PaletteView::Embedded(colors), false).2,
    ensures
        palette_bytes(status, PaletteView::Embedded(colors), false).0 == false,
        palette_bytes(status, PaletteView::Embedded(colors), false).1 == colors.len(),
        palette_bytes(status, PaletteView::Embedded(colors), false).2.len() == 4 * colors.len(),
        palette_at(s, at, status, false, colors.len()) == Ok::<(PaletteView, int), ReadError>(
            (PaletteView::Embedded(colors), at + 4 * colors.len()),
        ),
{
    let delta = status.base_format == BaseFormatType::Indexed2;
    let stored = stored_colors(colors, delta);
    let bytes = s.subrange(at, at + colors.len() * 4);
    assert(bytes == color_bytes(stored));
    let read = palette_colors(bytes, colors.len(), delta);
    assert forall|i: int| 0 <= i < colors.len() implies read[i] == colors[i] by {
        lemma_stored_color(bytes, stored, i);
        if delta {
            lemma_running_sum(bytes, colors, i);
        }
        lemma_swap_rb_twice(colors[i]);
    }
    assert(read =~= colors);
    if colors.len() > 0 {
        lemma_stored_color(bytes, stored, 0);
    } else {
        assert(bytes.len() == 0);
    }
}

/// A palette of 256 colours is read back as it was written where the number of
/// its colours is not stored.
pub proof fn lemma_fixed_palette_round_trip(s: Seq<u8>, at: int, status: ItpStatus, colors: Seq<u32>)
    requires
        status.compression == CompressionType::Uncompressed,
        colors.len() == 256,
        0 <= at,
        at + 1024 <= s.len(),
        s.subrange(at, at + 1024) == palette_bytes(status, PaletteView::Embedded(colors), true).2,
    ensures
        palette_bytes(status, PaletteView::Embedded(colors), true).0 == false,
        palette_bytes(status, PaletteView::Embedded(colors), true).2.len() == 1024,
        palette_at(s, at, status, false, 256) == Ok::<(PaletteView, int), ReadError>(
            (PaletteView::Embedded(colors), at + 1024),
        ),
{
    let delta = status.base_format == BaseFormatType::Indexed2;
    assert(fixed_colors(stored_colors(colors, delta)) =~= stored_colors(colors, delta));
    assert(palette_bytes(status, PaletteView::Embedded(colors), true).2 == palette_bytes(
        status,
        PaletteView::Embedded(colors),
        false,
    ).2);
    lemma_palette_round_trip(s, at, status, colors);
}

/// The name of an external palette ends at its zero byte.
proof fn lemma_nul_from(s: Seq<u8>, at: int, k: int)
    requires
        0 <= at <= k < s.len(),
        s[k] == 0,
        forall|j: int| at <= j < k ==> s[j] != 0,
    ensures
        nul_from(s, at) == Some(k),
    decreases k - at,
{
    if at < k {
        lemma_nul_from(s, at + 1, k);
    }
}

/// The name of an external palette is read back as it was written, if no byte of
/// it is zero.
pub proof fn lemma_external_palette_round_trip(s: Seq<u8>, at: int, status: ItpStatus, name: Seq<u8>)
    requires
        forall|j: int| 0 <= j < name.len() ==> name[j] != 0,
        0 <= at,
        at + name.len() + 1 <= s.len(),
        s.subrange(at, at + name.len() + 1) == palette_bytes(status, PaletteView::External(name), false).2,
    ensures
        palette_bytes(status, PaletteView::External(name), false).0 == true,
        palette_bytes(status, PaletteView::External(name), false).1 == 0,
        palette_bytes(status, PaletteView::External(name), false).2.len() == name.len() + 1,
        palette_at(s, at, status, true, 0) == Ok::<(PaletteView, int), ReadError>(
            (PaletteView::External(name), at + name.len() + 1),
        ),
{
    let stored = s.subrange(at, at + name.len() + 1);
    assert forall|j: int| at <= j < at + name.len() implies s[j] != 0 by {
        assert(s[j] == stored[j - at]);
    }
    assert(s[at + name.len()] == stored[name.len() as int]);
    lemma_nul_from(s, at, at + name.len());
    assert(s.subrange(at, at + name.len()) =~= name);
}

/// A field of a part of a file stands in the file where it stands in the part.
pub proof fn lemma_field(s: Seq<u8>, q: int, part: Seq<u8>, off: int, field: Seq<u8>)
    requires
        0 <= q,
        q + part.len() <= s.len(),
        s.subrange(q, q + part.len()) == part,
        0 <= off,
        off + field.len() <= part.len(),
        part.subrange(off, off + field.len()) == field,
    ensures
        s.subrange(q + off, q + off + field.len()) == field,
{
    assert forall|k: int| 0 <= k < field.len() implies s.subrange(q + off, q + off + field.len())[k] == field[k] by {
        assert(s[q + off + k] == s.subrange(q, q + part.len())[off + k]);
        assert(part.subrange(off, off + field.len())[k] == part[off + k]);
    }
    assert(s.subrange(q + off, q + off + field.len()) =~= field);
}

/// Where the rest of a file starts with a chunk, the reader finds the tag of the
/// chunk, its body behind the tag and the length, and behind the body the rest.
pub proof fn lemma_chunk_layout(s: Seq<u8>, p: int, tag: u32, body: Seq<u8>, rest: Seq<u8>)
    requires
        0 <= p <= s.len(),
        s.subrange(p, s.len() as int) == chunk(tag, body) + rest,
    ensures
        avail(s, p, 8),
        le32(s, p) == tag,
        p + 8 + body.len() + rest.len() == s.len(),
        s.subrange(p + 8, p + 8 + body.len()) == body,
        s.subrange(p + 8 + body.len(), s.len() as int) == rest,
{
    let suffix = s.subrange(p, s.len() as int);
    let c = chunk(tag, body);
    assert(c.len() == 8 + body.len());
    assert(suffix.len() == c.len() + rest.len());
    assert(s.subrange(p, p + 4) =~= bytes32(tag)) by {
        assert forall|k: int| 0 <= k < 4 implies s.subrange(p, p + 4)[k] == bytes32(tag)[k] by {
            assert(s[p + k] == suffix[k]);
            assert(suffix[k] == c[k]);
        }
    }
    lemma_read32(s, p, tag);
    assert(s.subrange(p + 8, p + 8 + body.len()) =~= body) by {
        assert forall|k: int| 0 <= k < body.len() implies s.subrange(p + 8, p + 8 + body.len())[k] == body[k] by {
            assert(s[p + 8 + k] == suffix[8 + k]);
            assert(suffix[8 + k] == c[8 + k]);
        }
    }
    assert(s.subrange(p + 8 + body.len(), s.len() as int) =~= rest) by {
        assert forall|k: int| 0 <= k < rest.len() implies s.subrange(p + 8 + body.len(), s.len() as int)[k]
            == rest[k] by {
            assert(s[p + 8 + body.len() + k] == suffix[8 + body.len() + k]);
        }
    }
}

/// A 32-bit field of a part of a file is read as the number written.
pub proof fn lemma_field32(s: Seq<u8>, q: int, part: Seq<u8>, off: int, v: u32)
    requires
        0 <= q,
        q + part.len() <= s.len(),
        s.subrange(q, q + part.len()) == part,
        0 <= off,
        off + 4 <= part.len(),
        part.subrange(off, off + 4) == bytes32(v),
    ensures
        avail(s, q + off, 4),
        le32(s, q + off) == v,
        expect32(s, q + off, v) is None,
{
    lemma_field(s, q, part, off, bytes32(v));
    lemma_read32(s, q + off, v);
}

/// A 16-bit field of a part of a file is read as the number written.
pub proof fn lemma_field16(s: Seq<u8>, q: int, part: Seq<u8>, off: int, v: u16)
    requires
        0 <= q,
        q + part.len() <= s.len(),
        s.subrange(q, q + part.len()) == part,
        0 <= off,
        off + 2 <= part.len(),
        part.subrange(off, off + 2) == bytes16(v),
    ensures
        avail(s, q + off, 2),
        le16(s, q + off) == v,
        expect16(s, q + off, v) is None,
{
    lemma_field(s, q, part, off, bytes16(v));
    lemma_read16(s, q + off, v);
}

/// The body of a mipmap chunk.
pub open spec fn imip_body(mipmap: MipmapType, more: u16) -> Seq<u8> {
    bytes32(12) + bytes16(mipmap.code()) + bytes16(more) + bytes32(0)
}

/// A mipmap chunk is read as it was written.
pub proof fn lemma_imip_round_trip(s: Seq<u8>, q: int, st: ChunkStateView, mipmap: MipmapType, more: u16)
    requires
        0 <= q,
        q + 12 <= s.len(),
        s.subrange(q, q + 12) == imip_body(mipmap, more),
    ensures
        imip(s, q, st) == Ok::<(ChunkStateView, int), ReadError>(
            (ChunkStateView { status: ItpStatus { mipmap, ..st.status }, n_mip: more + 1, ..st }, q + 12),
        ),
{
    let body = imip_body(mipmap, more);
    assert(body.subrange(0, 4) =~= bytes32(12));
    assert(body.subrange(4, 6) =~= bytes16(mipmap.code()));
    assert(body.subrange(6, 8) =~= bytes16(more));
    assert(body.subrange(8, 12) =~= bytes32(0));
    lemma_field32(s, q, body, 0, 12);
    lemma_field16(s, q, body, 4, mipmap.code());
    lemma_field16(s, q, body, 6, more);
    lemma_field32(s, q, body, 8, 0);
}

/// The body of an alpha chunk.
pub open spec fn ialp_body(use_alpha: bool) -> Seq<u8> {
    bytes32(8) + bytes16(if use_alpha { 1 } else { 0 }) + bytes16(0)
}

/// An alpha chunk is read as it was written.
pub proof fn lemma_ialp_round_trip(s: Seq<u8>, q: int, st: ChunkStateView, use_alpha: bool)
    requires
        0 <= q,
        q + 8 <= s.len(),
        s.subrange(q, q + 8) == ialp_body(use_alpha),
    ensures
        ialp(s, q, st) == Ok::<(ChunkStateView, int), ReadError>(
            (ChunkStateView { status: ItpStatus { use_alpha: Some(use_alpha), ..st.status }, ..st }, q + 8),
        ),
{
    let body = ialp_body(use_alpha);
    let flag: u16 = if use_alpha { 1 } else { 0 };
    assert(body.subrange(0, 4) =~= bytes32(8));
    assert(body.subrange(4, 6) =~= bytes16(flag));
    assert(body.subrange(6, 8) =~= bytes16(0));
    lemma_field32(s, q, body, 0, 8);
    lemma_field16(s, q, body, 4, flag);
    lemma_field16(s, q, body, 6, 0);
}

/// A palette as the file of revision 3 can hold it: an embedded palette of fewer
/// than 65536 colours, or a name without a zero byte.
pub open spec fn palette_ok(pal: PaletteView) -> bool {
    match pal {
        PaletteView::Embedded(colors) => colors.len() <= 0xFFFF,
        PaletteView::External(name) => forall|j: int| 0 <= j < name.len() ==> name[j] != 0,
    }
}

/// The body of the palette chunk.
pub open spec fn ipal_body(status: ItpStatus, pal: PaletteView) -> Seq<u8> {
    bytes32(8) + bytes16(if palette_bytes(status, pal, false).0 { 1 } else { 0 }) + bytes16(
        low16(palette_bytes(status, pal, false).1 as int),
    ) + palette_bytes(status, pal, false).2
}

/// A palette chunk is read as it was written.
#[verifier::spinoff_prover]
#[verifier::rlimit(100)]
pub proof fn lemma_ipal_round_trip(s: Seq<u8>, q: int, st: ChunkStateView, pal: PaletteView)
    requires
        st.status.compression == CompressionType::Uncompressed,
        palette_ok(pal),
        0 <= q,
        q + ipal_body(st.status, pal).len() <= s.len(),
        s.subrange(q, q + ipal_body(st.status, pal).len()) == ipal_body(st.status, pal),
    ensures
        ipal(s, q, st) == Ok::<(ChunkStateView, int), ReadError>(
            (ChunkStateView { palette: Some(pal), ..st }, q + ipal_body(st.status, pal).len()),
        ),
{
    let body = ipal_body(st.status, pal);
    let stored = palette_bytes(st.status, pal, false);
    let flag: u16 = if stored.0 { 1 } else { 0 };
    let size: u16 = low16(stored.1 as int);
    assert(body.subrange(0, 4) =~= bytes32(8));
    assert(body.subrange(4, 6) =~= bytes16(flag));
    assert(body.subrange(6, 8) =~= bytes16(size));
    assert(body.subrange(8, body.len() as int) =~= stored.2);
    lemma_field32(s, q, body, 0, 8);
    lemma_field16(s, q, body, 4, flag);
    lemma_field16(s, q, body, 6, size);
    lemma_field(s, q, body, 8, stored.2);
    match pal {
        PaletteView::Embedded(colors) => {
            let delta = st.status.base_format == BaseFormatType::Indexed2;
            if colors.len() > 0 {
                lemma_stored_color(color_bytes(stored_colors(colors, delta)), stored_colors(colors, delta), 0);
            } else {
                assert(color_bytes(stored_colors(colors, delta)).len() == 0);
            }
            lemma_palette_round_trip(s, q + 8, st.status, colors);
        },
        PaletteView::External(name) => {
            lemma_external_palette_round_trip(s, q + 8, st.status, name);
        },
    }
}

/// The two parts of a byte string that was put together from two.
pub proof fn lemma_parts(a: Seq<u8>, b: Seq<u8>)
    ensures
        (a + b).len() == a.len() + b.len(),
        (a + b).subrange(0, a.len() as int) == a,
        (a + b).subrange(a.len() as int, (a + b).len() as int) == b,
{
    assert((a + b).subrange(0, a.len() as int) =~= a);
    assert((a + b).subrange(a.len() as int, (a + b).len() as int) =~= b);
}

/// The order in which byte strings are put together makes no difference.
pub proof fn lemma_joined(a: Seq<u8>, b: Seq<u8>, c: Seq<u8>)
    ensures
        a + b + c == a + (b + c),
{
    assert(a + b + c =~= a + (b + c));
}

/// Where a part of a file starts with a 32-bit number, the number is read, and
/// behind it stands the rest of the part.
pub proof fn lemma_peel32(s: Seq<u8>, q: int, v: u32, rest: Seq<u8>)
    requires
        0 <= q,
        q + 4 + rest.len() <= s.len(),
        s.subrange(q, q + 4 + rest.len()) == bytes32(v) + rest,
    ensures
        avail(s, q, 4),
        le32(s, q) == v,
        expect32(s, q, v) is None,
        s.subrange(q + 4, q + 4 + rest.len()) == rest,
{
    let part = bytes32(v) + rest;
    lemma_parts(bytes32(v), rest);
    lemma_field(s, q, part, 0, bytes32(v));
    lemma_field(s, q, part, 4, rest);
    lemma_read32(s, q, v);
}

/// Where a part of a file starts with a 16-bit number, the number is read, and
/// behind it stands the rest of the part.
pub proof fn lemma_peel16(s: Seq<u8>, q: int, v: u16, rest: Seq<u8>)
    requires
        0 <= q,
        q + 2 + rest.len() <= s.len(),
        s.subrange(q, q + 2 + rest.len()) == bytes16(v) + rest,
    ensures
        avail(s, q, 2),
        le16(s, q) == v,
        expect16(s, q, v) is None,
        s.subrange(q + 2, q + 2 + rest.len()) == rest,
{
    let part = bytes16(v) + rest;
    lemma_parts(bytes16(v), rest);
    lemma_field(s, q, part, 0, bytes16(v));
    lemma_field(s, q, part, 2, rest);
    lemma_read16(s, q, v);
}

/// The six format fields of a header chunk and the zero behind them.
pub open spec fn format_fields(status: ItpStatus) -> Seq<u8> {
    bytes16(status.itp_revision.code()) + (bytes16(status.base_format.code()) + (bytes16(
        status.pixel_format.code(),
    ) + (bytes16(status.pixel_bit_format.code()) + (bytes16(status.compression.code()) + (bytes16(
        status.multi_plane.code(),
    ) + bytes32(0))))))
}

/// The fields of a header chunk.
pub open spec fn header_fields(status: ItpStatus, w: u32, h: u32, file_size: u32) -> Seq<u8> {
    bytes32(32) + (bytes32(w) + (bytes32(h) + (bytes32(file_size) + format_fields(status))))
}

/// The body of a header chunk has 32 bytes, which are its fields one after another.
pub proof fn lemma_header_fields(status: ItpStatus, image: ImageView, file_size: int)
    ensures
        ihdr_body(status, image, file_size) == header_fields(
            status,
            low32(image.width() as int),
            low32(image.height() as int),
            low32(file_size),
        ),
        ihdr_body(status, image, file_size).len() == 32,
{
    let f1 = bytes32(32);
    let f2 = bytes32(low32(image.width() as int));
    let f3 = bytes32(low32(image.height() as int));
    let f4 = bytes32(low32(file_size));
    let f5 = bytes16(status.itp_revision.code());
    let f6 = bytes16(status.base_format.code());
    let f7 = bytes16(status.pixel_format.code());
    let f8 = bytes16(status.pixel_bit_format.code());
    let f9 = bytes16(status.compression.code());
    let f10 = bytes16(status.multi_plane.code());
    let f11 = bytes32(0);
    reveal(ihdr_body);
    lemma_join11(f1, f2, f3, f4, f5, f6, f7, f8, f9, f10, f11);
}

/// Eleven byte strings put together from the left are the same put together from
/// the right, and as long as all of them together.
pub proof fn lemma_join11(
    f1: Seq<u8>,
    f2: Seq<u8>,
    f3: Seq<u8>,
    f4: Seq<u8>,
    f5: Seq<u8>,
    f6: Seq<u8>,
    f7: Seq<u8>,
    f8: Seq<u8>,
    f9: Seq<u8>,
    f10: Seq<u8>,
    f11: Seq<u8>,
)
    ensures
        f1 + f2 + f3 + f4 + f5 + f6 + f7 + f8 + f9 + f10 + f11 == f1 + (f2 + (f3 + (f4 + (f5 + (f6 + (f7 + (f8 + (f9
            + (f10 + f11))))))))),
        (f1 + f2 + f3 + f4 + f5 + f6 + f7 + f8 + f9 + f10 + f11).len() == f1.len() + f2.len() + f3.len() + f4.len()
            + f5.len() + f6.len() + f7.len() + f8.len() + f9.len() + f10.len() + f11.len(),
{
    let r10 = f10 + f11;
    let r9 = f9 + r10;
    let r8 = f8 + r9;
    let r7 = f7 + r8;
    let r6 = f6 + r7;
    let r5 = f5 + r6;
    let r4 = f4 + r5;
    let r3 = f3 + r4;
    lemma_joined(f1 + f2 + f3 + f4 + f5 + f6 + f7 + f8 + f9, f10, f11);
    lemma_joined(f1 + f2 + f3 + f4 + f5 + f6 + f7 + f8, f9, r10);
    lemma_joined(f1 + f2 + f3 + f4 + f5 + f6 + f7, f8, r9);
    lemma_joined(f1 + f2 + f3 + f4 + f5 + f6, f7, r8);
    lemma_joined(f1 + f2 + f3 + f4 + f5, f6, r7);
    lemma_joined(f1 + f2 + f3 + f4, f5, r6);
    lemma_joined(f1 + f2 + f3, f4, r5);
    lemma_joined(f1 + f2, f3, r4);
    lemma_joined(f1, f2, r3);
}

/// The format fields of a header take sixteen bytes.
proof fn lemma_format_fields_len(status: ItpStatus)
    ensures
        format_fields(status).len() == 16,
{
}

/// The format fields of a header are read as they were written.
proof fn lemma_format_fields_round_trip(s: Seq<u8>, q: int, status: ItpStatus)
    requires
        0 <= q,
        q + 16 <= s.len(),
        s.subrange(q, q + 16) == format_fields(status),
    ensures
        le16(s, q) == status.itp_revision.code(),
        le16(s, q + 2) == status.base_format.code(),
        le16(s, q + 4) == status.pixel_format.code(),
        le16(s, q + 6) == status.pixel_bit_format.code(),
        le16(s, q + 8) == status.compression.code(),
        le16(s, q + 10) == status.multi_plane.code(),
        avail(s, q, 12),
        expect32(s, q + 12, 0) is None,
{
    let f6 = bytes32(0);
    let f5 = bytes16(status.multi_plane.code()) + f6;
    let f4 = bytes16(status.compression.code()) + f5;
    let f3 = bytes16(status.pixel_bit_format.code()) + f4;
    let f2 = bytes16(status.pixel_format.code()) + f3;
    let f1 = bytes16(status.base_format.code()) + f2;
    lemma_peel16(s, q, status.itp_revision.code(), f1);
    lemma_peel16(s, q + 2, status.base_format.code(), f2);
    lemma_peel16(s, q + 4, status.pixel_format.code(), f3);
    lemma_peel16(s, q + 6, status.pixel_bit_format.code(), f4);
    lemma_peel16(s, q + 8, status.compression.code(), f5);
    lemma_peel16(s, q + 10, status.multi_plane.code(), f6);
    assert(f6 + Seq::<u8>::empty() =~= f6);
    lemma_peel32(s, q + 12, 0, Seq::empty());
}

/// A header chunk is read as it was written: the reader takes the dimensions, the
/// size of the file and the six format fields from it.
pub proof fn lemma_ihdr_round_trip(s: Seq<u8>, q: int, st: ChunkStateView, status: ItpStatus, w: u32, h: u32, f: u32)
    requires
        0 <= q,
        q + 32 <= s.len(),
        s.subrange(q, q + 32) == header_fields(status, w, h, f),
    ensures
        ihdr_error(s, q) is None,
        le32(s, q + 4) == w,
        le32(s, q + 8) == h,
        le32(s, q + 12) == f,
        ihdr_status(s, q, st.status) == (ItpStatus {
            mipmap: st.status.mipmap,
            use_alpha: st.status.use_alpha,
            ..status
        }),
{
    let g4 = format_fields(status);
    let g3 = bytes32(f) + g4;
    let g2 = bytes32(h) + g3;
    let g1 = bytes32(w) + g2;
    lemma_format_fields_len(status);
    lemma_peel32(s, q, 32, g1);
    lemma_peel32(s, q + 4, w, g2);
    lemma_peel32(s, q + 8, h, g3);
    lemma_peel32(s, q + 12, f, g4);
    lemma_format_fields_round_trip(s, q + 16, status);
    lemma_codes(status);
}

/// The number of each format selector stands for the selector.
pub proof fn lemma_codes(status: ItpStatus)
    ensures
        ItpRevision::from_code(status.itp_revision.code()) == Some(status.itp_revision),
        BaseFormatType::from_code(status.base_format.code()) == Some(status.base_format),
        PixelFormatType::from_code(status.pixel_format.code()) == Some(status.pixel_format),
        PixelBitFormatType::from_code(status.pixel_bit_format.code()) == Some(status.pixel_bit_format),
        CompressionType::from_code(status.compression.code()) == Some(status.compression),
        MultiPlaneType::from_code(status.multi_plane.code()) == Some(status.multi_plane),
        MipmapType::from_code(status.mipmap.code()) == Some(status.mipmap),
{
}

/// The status stores its pixels without compression and with their rows in order,
/// and its formats name the kind `kind`; for indexed pixels, the plain indexed format.
pub open spec fn plain_status(status: ItpStatus, kind: PixelKind) -> bool {
    &&& status.compression == CompressionType::Uncompressed
    &&& status.pixel_format == PixelFormatType::Linear
    &&& empty_image(status) is Ok
    &&& empty_image(status).unwrap().kind == kind
    &&& kind == PixelKind::Indexed ==> status.base_format == BaseFormatType::Indexed1
}

/// The body of the data chunk of mip level `n`.
pub open spec fn idat_body(n: int, level: RasterView<nat>, size: nat) -> Seq<u8> {
    bytes32(8) + bytes16(0) + bytes16(low16(n)) + pixel_bytes(level.data, size)
}

/// Mip level `n` of an image is written as the bytes of its elements.
pub proof fn lemma_idat_bytes(status: ItpStatus, image: ImageView, n: int)
    requires
        plain_status(status, image.kind),
        0 <= n < image.levels.len(),
        level_ok(image.levels[n], image.kind.size()),
    ensures
        idat_bytes(status, image, n) == Ok::<Seq<u8>, WriteError>(
            pixel_bytes(image.levels[n].data, image.kind.size()),
        ),
{
    assert(stored_values(image.levels[n], PixelFormatType::Linear) =~= image.levels[n].data);
}

/// A level that is read where the next level of an image is expected becomes the
/// next level of the image.
pub proof fn lemma_idat_at(
    s: Seq<u8>,
    at: int,
    status: ItpStatus,
    image: ImageView,
    level: RasterView<nat>,
    w: u32,
    h: u32,
    end: int,
)
    requires
        plain_status(status, image.kind),
        level.width == w / (image.kind.scale() as u32),
        level.height == h / (image.kind.scale() as u32),
        level_at(
            s,
            at,
            CompressionType::Uncompressed,
            PixelFormatType::Linear,
            image.kind.size(),
            level.width,
            level.height,
        ) == Ok::<(RasterView<nat>, int), ReadError>((level, end)),
    ensures
        idat_at(s, at, status, image, w, h) == Ok::<(ImageView, int), ReadError>(
            (ImageView { levels: image.levels.push(level), ..image }, end),
        ),
{
    match image.kind {
        PixelKind::Indexed => {
            assert(image.kind.scale() == 1 && image.kind.size() == 1);
            assert(w / 1u32 == w && h / 1u32 == h);
        },
        PixelKind::Argb16(_) => {
            assert(image.kind.scale() == 1 && image.kind.size() == 2);
            assert(w / 1u32 == w && h / 1u32 == h);
        },
        PixelKind::Argb32 => {
            assert(image.kind.scale() == 1 && image.kind.size() == 4);
            assert(w / 1u32 == w && h / 1u32 == h);
        },
        PixelKind::Bc1 => {
            assert(image.kind.scale() == 4 && image.kind.size() == 8);
        },
        PixelKind::Bc2 => {
            assert(image.kind.scale() == 4 && image.kind.size() == 16);
        },
        PixelKind::Bc3 => {
            assert(image.kind.scale() == 4 && image.kind.size() == 16);
        },
        PixelKind::Bc7 => {
            assert(image.kind.scale() == 4 && image.kind.size() == 16);
        },
    }
}

/// A data chunk is read as it was written: the level that it holds is the next
/// level of the image.
#[verifier::spinoff_prover]
#[verifier::rlimit(100)]
pub proof fn lemma_idat_round_trip(s: Seq<u8>, q: int, st: ChunkStateView, level: RasterView<nat>)
    requires
        st.image is Some,
        plain_status(st.status, st.image.unwrap().kind),
        level_ok(level, st.image.unwrap().kind.size()),
        0 <= st.current_mip < 0x1_0000,
        level.width == mip_dim(st.width, st.current_mip) / (st.image.unwrap().kind.scale() as u32),
        level.height == mip_dim(st.height, st.current_mip) / (st.image.unwrap().kind.scale() as u32),
        0 <= q,
        q + idat_body(st.current_mip, level, st.image.unwrap().kind.size()).len() <= s.len(),
        s.subrange(q, q + idat_body(st.current_mip, level, st.image.unwrap().kind.size()).len()) == idat_body(
            st.current_mip,
            level,
            st.image.unwrap().kind.size(),
        ),
    ensures
        idat(s, q, st) == Ok::<(ChunkStateView, int), ReadError>(
            (
                ChunkStateView {
                    image: Some(
                        ImageView { levels: st.image.unwrap().levels.push(level), ..st.image.unwrap() },
                    ),
                    current_mip: st.current_mip + 1,
                    ..st
                },
                q + idat_body(st.current_mip, level, st.image.unwrap().kind.size()).len(),
            ),
        ),
{
    let image = st.image.unwrap();
    let size = image.kind.size();
    let n = st.current_mip;
    let body = idat_body(n, level, size);
    let pixels = pixel_bytes(level.data, size);
    assert(body.len() == 8 + pixels.len());
    assert(body.subrange(0, 4) =~= bytes32(8));
    assert(body.subrange(4, 6) =~= bytes16(0));
    assert(body.subrange(6, 8) =~= bytes16(low16(n)));
    assert(body.subrange(8, 8 + pixels.len() as int) =~= pixels);
    lemma_field32(s, q, body, 0, 8);
    lemma_field16(s, q, body, 4, 0);
    lemma_field16(s, q, body, 6, low16(n));
    lemma_field(s, q, body, 8, pixels);
    assert(pixels.len() == level.data.len() * size);
    lemma_level_round_trip(s, q + 8, level, size);
    lemma_idat_at(
        s,
        q + 8,
        st.status,
        image,
        level,
        mip_dim(st.width, n),
        mip_dim(st.height, n),
        q + 8 + level.data.len() * size,
    );
    assert(expect16(s, q + 6, (n % 0x1_0000) as u16) is None);
}

/// Mip level `n` of an image of `w` by `h` pixels has the size of its level and
/// holds numbers that fit its elements.
pub open spec fn level_fits(image: ImageView, n: int, w: u32, h: u32) -> bool {
    &&& level_ok(image.levels[n], image.kind.size())
    &&& image.levels[n].width == mip_dim(w, n) / (image.kind.scale() as u32)
    &&& image.levels[n].height == mip_dim(h, n) / (image.kind.scale() as u32)
}

/// An image as a file of revision 3 can hold it: between one and 65536 mip
/// levels, each half the size of the one before; a size that fits 32 bits; and a
/// palette if and only if its pixels are indexed.
pub open spec fn image_ok(image: ImageView) -> bool {
    &&& 1 <= image.levels.len() <= 0x1_0000
    &&& image.width() <= u32::MAX
    &&& image.height() <= u32::MAX
    &&& forall|n: int|
        0 <= n < image.levels.len() ==> #[trigger] level_fits(
            image,
            n,
            image.width() as u32,
            image.height() as u32,
        )
    &&& image.kind == PixelKind::Indexed <==> image.palette is Some
    &&& image.palette is Some ==> palette_ok(image.palette.unwrap())
}

/// The data chunks of the mip levels from level `n` on.
pub open spec fn idat_tail(image: ImageView, n: int) -> Seq<u8>
    decreases image.levels.len() - n,
{
    if n >= image.levels.len() {
        Seq::empty()
    } else {
        chunk(IDAT, idat_body(n, image.levels[n], image.kind.size())) + idat_tail(image, n + 1)
    }
}

/// The writer puts the data chunks of the mip levels one behind another.
pub proof fn lemma_idat_chunks(status: ItpStatus, image: ImageView, n: int, out: Seq<u8>)
    requires
        plain_status(status, image.kind),
        image_ok(image),
        0 <= n <= image.levels.len(),
    ensures
        idat_chunks(status, image, n, out) == Ok::<Seq<u8>, WriteError>(out + idat_tail(image, n)),
    decreases image.levels.len() - n,
{
    if n < image.levels.len() {
        assert(level_fits(image, n, image.width() as u32, image.height() as u32));
        lemma_idat_bytes(status, image, n);
        let level = pixel_bytes(image.levels[n].data, image.kind.size());
        let c = chunk(IDAT, bytes32(8) + bytes16(0) + bytes16(low16(n)) + level);
        assert(c == chunk(IDAT, idat_body(n, image.levels[n], image.kind.size())));
        lemma_idat_chunks(status, image, n + 1, out + c);
        assert((out + c) + idat_tail(image, n + 1) =~= out + idat_tail(image, n));
    } else {
        assert(out + idat_tail(image, n) =~= out);
    }
}

/// One chunk on: where the reader finds a chunk that is not the end chunk and
/// reads its body, it goes on behind the body.
pub proof fn lemma_step(s: Seq<u8>, p: int, tag: u32, body: Seq<u8>, rest: Seq<u8>, st: ChunkStateView, next: ChunkStateView)
    requires
        0 <= p <= s.len(),
        s.subrange(p, s.len() as int) == chunk(tag, body) + rest,
        tag != IEND,
        chunk_body(s, p + 8, tag, st) == Ok::<(ChunkStateView, int), ReadError>((next, p + 8 + body.len())),
    ensures
        chunks(s, p, st) == chunks(s, p + 8 + body.len(), next),
        p + 8 + body.len() <= s.len(),
        s.subrange(p + 8 + body.len(), s.len() as int) == rest,
{
    reveal(chunks);
    lemma_chunk_layout(s, p, tag, body, rest);
}

/// The reader reads the data chunks of the mip levels from level `n` on, and the
/// end chunk behind them.
pub proof fn lemma_read_levels(s: Seq<u8>, p: int, st: ChunkStateView, image: ImageView, n: int)
    requires
        image_ok(image),
        plain_status(st.status, image.kind),
        st.width == image.width(),
        st.height == image.height(),
        0 <= n <= image.levels.len(),
        st.current_mip == n,
        st.image is Some,
        st.image.unwrap().kind == image.kind,
        st.image.unwrap().levels == image.levels.subrange(0, n),
        0 <= p <= s.len(),
        s.subrange(p, s.len() as int) == idat_tail(image, n) + chunk(IEND, Seq::empty()),
    ensures
        chunks(s, p, st) == Ok::<(ChunkStateView, int), ReadError>(
            (
                ChunkStateView {
                    image: Some(ImageView { levels: image.levels, ..st.image.unwrap() }),
                    current_mip: image.levels.len() as int,
                    ..st
                },
                s.len() as int,
            ),
        ),
    decreases image.levels.len() - n,
{
    let end = chunk(IEND, Seq::<u8>::empty());
    if n >= image.levels.len() {
        reveal(chunks);
        assert(idat_tail(image, n) + end =~= end + Seq::<u8>::empty());
        lemma_chunk_layout(s, p, IEND, Seq::empty(), Seq::empty());
        assert(image.levels.subrange(0, n) =~= image.levels);
    } else {
        let level = image.levels[n];
        let body = idat_body(n, level, image.kind.size());
        let rest = idat_tail(image, n + 1) + end;
        assert(idat_tail(image, n) + end =~= chunk(IDAT, body) + rest);
        lemma_chunk_layout(s, p, IDAT, body, rest);
        assert(level_fits(image, n, image.width() as u32, image.height() as u32));
        lemma_idat_round_trip(s, p + 8, st, level);
        let next = ChunkStateView {
            image: Some(ImageView { levels: st.image.unwrap().levels.push(level), ..st.image.unwrap() }),
            current_mip: n + 1,
            ..st
        };
        lemma_step(s, p, IDAT, body, rest, st, next);
        assert(image.levels.subrange(0, n).push(level) =~= image.levels.subrange(0, n + 1));
        lemma_read_levels(s, p + 8 + body.len(), next, image, n + 1);
    }
}

/// The reader passes the mipmap chunk of an image, if the writer has written one,
/// and knows the kind of mipmaps and the number of levels behind it.
pub proof fn lemma_pass_imip(s: Seq<u8>, p: int, st: ChunkStateView, status: ItpStatus, image: ImageView, rest: Seq<u8>)
    requires
        1 <= image.levels.len() <= 0x1_0000,
        st.status.mipmap == MipmapType::NoMipmap,
        st.n_mip == 1,
        0 <= p <= s.len(),
        s.subrange(p, s.len() as int) == imip_chunk(status, image) + rest,
    ensures
        chunks(s, p, st) == chunks(
            s,
            p + imip_chunk(status, image).len(),
            ChunkStateView {
                status: ItpStatus { mipmap: status.mipmap, ..st.status },
                n_mip: image.levels.len() as int,
                ..st
            },
        ),
        p + imip_chunk(status, image).len() <= s.len(),
        s.subrange(p + imip_chunk(status, image).len(), s.len() as int) == rest,
{
    if status.mipmap == MipmapType::NoMipmap && image.levels.len() == 1 {
        assert(imip_chunk(status, image) + rest =~= rest);
    } else {
        let more = low16(image.levels.len() - 1);
        let body = imip_body(status.mipmap, more);
        assert(imip_chunk(status, image) == chunk(IMIP, body));
        lemma_chunk_layout(s, p, IMIP, body, rest);
        lemma_imip_round_trip(s, p + 8, st, status.mipmap, more);
        let next = ChunkStateView { status: ItpStatus { mipmap: status.mipmap, ..st.status }, n_mip: more + 1, ..st };
        lemma_step(s, p, IMIP, body, rest, st, next);
    }
}

/// The reader passes the palette chunk of an image, if the image has a palette,
/// and knows the palette behind it.
pub proof fn lemma_pass_ipal(s: Seq<u8>, p: int, st: ChunkStateView, status: ItpStatus, image: ImageView, rest: Seq<u8>)
    requires
        image.kind == PixelKind::Indexed <==> image.palette is Some,
        image.palette is Some ==> palette_ok(image.palette.unwrap()),
        st.status.compression == CompressionType::Uncompressed,
        st.status.compression == status.compression,
        st.status.base_format == status.base_format,
        st.palette is None,
        0 <= p <= s.len(),
        s.subrange(p, s.len() as int) == ipal_chunk(status, image) + rest,
    ensures
        chunks(s, p, st) == chunks(
            s,
            p + ipal_chunk(status, image).len(),
            ChunkStateView { palette: image.palette, ..st },
        ),
        p + ipal_chunk(status, image).len() <= s.len(),
        s.subrange(p + ipal_chunk(status, image).len(), s.len() as int) == rest,
{
    if image.kind != PixelKind::Indexed {
        assert(ipal_chunk(status, image) + rest =~= rest);
    } else {
        let pal = image.palette.unwrap();
        let body = ipal_body(st.status, pal);
        assert(palette_bytes(st.status, pal, false) == palette_bytes(status, pal, false));
        assert(ipal_chunk(status, image) == chunk(IPAL, body));
        lemma_chunk_layout(s, p, IPAL, body, rest);
        lemma_ipal_round_trip(s, p + 8, st, pal);
        let next = ChunkStateView { palette: Some(pal), ..st };
        lemma_step(s, p, IPAL, body, rest, st, next);
    }
}

/// The reader passes the alpha chunk of a status, if the status says whether alpha
/// is used, and knows it behind the chunk.
pub proof fn lemma_pass_ialp(s: Seq<u8>, p: int, st: ChunkStateView, status: ItpStatus, rest: Seq<u8>)
    requires
        st.status.use_alpha is None,
        0 <= p <= s.len(),
        s.subrange(p, s.len() as int) == ialp_chunk(status) + rest,
    ensures
        chunks(s, p, st) == chunks(
            s,
            p + ialp_chunk(status).len(),
            ChunkStateView { status: ItpStatus { use_alpha: status.use_alpha, ..st.status }, ..st },
        ),
        p + ialp_chunk(status).len() <= s.len(),
        s.subrange(p + ialp_chunk(status).len(), s.len() as int) == rest,
{
    match status.use_alpha {
        None => {
            assert(ialp_chunk(status) + rest =~= rest);
        },
        Some(b) => {
            let body = ialp_body(b);
            assert(ialp_chunk(status) == chunk(IALP, body));
            lemma_chunk_layout(s, p, IALP, body, rest);
            lemma_ialp_round_trip(s, p + 8, st, b);
            let next = ChunkStateView { status: ItpStatus { use_alpha: Some(b), ..st.status }, ..st };
            lemma_step(s, p, IALP, body, rest, st, next);
        },
    }
}

/// The reader passes the header chunk and knows the dimensions, the size of the
/// file and the format behind it.
#[verifier::spinoff_prover]
#[verifier::rlimit(100)]
pub proof fn lemma_pass_ihdr(s: Seq<u8>, status: ItpStatus, w: u32, h: u32, f: u32, rest: Seq<u8>)
    requires
        empty_image(status) is Ok,
        4 <= s.len(),
        s.subrange(4, s.len() as int) == chunk(IHDR, header_fields(status, w, h, f)) + rest,
        header_fields(status, w, h, f).len() == 32,
    ensures
        chunks(s, 4, first_state()) == chunks(s, 44, header_state(status, w, h, f)),
        44 <= s.len(),
        s.subrange(44, s.len() as int) == rest,
{
    let body = header_fields(status, w, h, f);
    lemma_chunk_layout(s, 4, IHDR, body, rest);
    lemma_ihdr_round_trip(s, 12, first_state(), status, w, h, f);
    lemma_header_state(s, status, w, h, f);
    lemma_step(s, 4, IHDR, body, rest, first_state(), header_state(status, w, h, f));
}

/// The state of the reader behind the header chunk.
pub open spec fn header_state(status: ItpStatus, w: u32, h: u32, f: u32) -> ChunkStateView {
    ChunkStateView {
        width: w,
        height: h,
        file_size: f,
        status: ItpStatus { mipmap: MipmapType::NoMipmap, use_alpha: None, ..status },
        image: Some(empty_image(status).unwrap()),
        ..first_state()
    }
}

/// What the reader knows behind the header chunk.
proof fn lemma_header_state(s: Seq<u8>, status: ItpStatus, w: u32, h: u32, f: u32)
    requires
        empty_image(status) is Ok,
        ihdr_error(s, 12) is None,
        le32(s, 16) == w,
        le32(s, 20) == h,
        le32(s, 24) == f,
        ihdr_status(s, 12, first_state().status) == (ItpStatus {
            mipmap: MipmapType::NoMipmap,
            use_alpha: None,
            ..status
        }),
    ensures
        chunk_body(s, 12, IHDR, first_state()) == Ok::<(ChunkStateView, int), ReadError>(
            (header_state(status, w, h, f), 44),
        ),
{
    let status1 = ItpStatus { mipmap: MipmapType::NoMipmap, use_alpha: None, ..status };
    assert(empty_image(status1) == empty_image(status));
}

/// The chunks of a file of revision 3 behind the header chunk.
#[verifier::opaque]
pub open spec fn chunks_behind_header(itp: ItpView) -> Seq<u8> {
    imip_chunk(itp.status, itp.image) + (ipal_chunk(itp.status, itp.image) + (ialp_chunk(itp.status) + (idat_tail(
        itp.image,
        0,
    ) + chunk(IEND, Seq::empty()))))
}

/// The file of revision 3 of an image that is stored without compression and with
/// its rows in order.
pub open spec fn revision_3_layout(itp: ItpView) -> Seq<u8> {
    bytes32(ITP_MAGIC) + (chunk(
        IHDR,
        ihdr_body(itp.status, itp.image, HEADER_LEN + chunks_behind_header(itp).len()),
    ) + chunks_behind_header(itp))
}

/// The writer lays the file out as the magic, the header chunk, and the other chunks.
#[verifier::spinoff_prover]
#[verifier::rlimit(100)]
pub proof fn lemma_revision_3_layout(itp: ItpView)
    requires
        plain_status(itp.status, itp.image.kind),
        image_ok(itp.image),
    ensures
        revision_3_layout(itp).len() <= u32::MAX ==> revision_3_file(itp) == Ok::<Seq<u8>, WriteError>(
            revision_3_layout(itp),
        ),
        revision_3_layout(itp).len() > u32::MAX ==> revision_3_file(itp) == Err::<Seq<u8>, WriteError>(
            WriteError::TooLarge,
        ),
        revision_3_layout(itp).len() == HEADER_LEN + chunks_behind_header(itp).len(),
{
    reveal(chunks_behind_header);
    let status = itp.status;
    let image = itp.image;
    let a = imip_chunk(status, image);
    let b = ipal_chunk(status, image);
    let c = ialp_chunk(status);
    let tail = idat_tail(image, 0);
    let end = chunk(IEND, Seq::<u8>::empty());
    let magic = bytes32(ITP_MAGIC);
    lemma_idat_chunks(status, image, 0, a + b + c);
    let parts = a + b + c + tail;
    lemma_joined(a + b + c, tail, end);
    lemma_joined(a + b, c, tail + end);
    lemma_joined(a, b, c + (tail + end));
    assert(parts + end == chunks_behind_header(itp));
    lemma_parts(parts, end);
    let size = HEADER_LEN + parts.len() + 8;
    let header = chunk(IHDR, ihdr_body(status, image, size));
    lemma_header_fields(status, image, size);
    lemma_joined(magic + header, parts, end);
    lemma_joined(magic, header, parts + end);
    lemma_parts(magic, header + (parts + end));
    lemma_parts(header, parts + end);
    assert(end.len() == 8);
    assert(revision_3_layout(itp).len() == size);
}

/// The state of the reader behind the last chunk of the file of an image.
#[verifier::opaque]
pub open spec fn last_state(itp: ItpView, file_size: int) -> ChunkStateView {
    ChunkStateView {
        width: itp.image.width() as u32,
        height: itp.image.height() as u32,
        file_size: file_size as u32,
        n_mip: itp.image.levels.len() as int,
        current_mip: itp.image.levels.len() as int,
        status: itp.status,
        palette: itp.image.palette,
        image: Some(ImageView { levels: itp.image.levels, ..empty_image(itp.status).unwrap() }),
    }
}

/// The state of the reader behind the mipmap chunk of the file of an image, or
/// where that chunk would stand.
pub open spec fn state_behind_imip(itp: ItpView, file_size: int) -> ChunkStateView {
    ChunkStateView {
        status: ItpStatus { use_alpha: None, ..itp.status },
        n_mip: itp.image.levels.len() as int,
        ..header_state(itp.status, itp.image.width() as u32, itp.image.height() as u32, file_size as u32)
    }
}

/// The state of the reader behind the palette chunk.
pub open spec fn state_behind_ipal(itp: ItpView, file_size: int) -> ChunkStateView {
    ChunkStateView { palette: itp.image.palette, ..state_behind_imip(itp, file_size) }
}

/// The state of the reader behind the alpha chunk.
pub open spec fn state_behind_ialp(itp: ItpView, file_size: int) -> ChunkStateView {
    ChunkStateView { status: itp.status, ..state_behind_ipal(itp, file_size) }
}

/// The reader reads the data chunks and the end chunk of the file of an image.
pub proof fn lemma_read_from_idat(s: Seq<u8>, p: int, itp: ItpView, file_size: int)
    requires
        plain_status(itp.status, itp.image.kind),
        image_ok(itp.image),
        0 <= p <= s.len(),
        s.subrange(p, s.len() as int) == idat_tail(itp.image, 0) + chunk(IEND, Seq::empty()),
    ensures
        chunks(s, p, state_behind_ialp(itp, file_size)) == Ok::<(ChunkStateView, int), ReadError>(
            (last_state(itp, file_size), s.len() as int),
        ),
{
    reveal(last_state);
    let st = state_behind_ialp(itp, file_size);
    assert(st.image.unwrap().levels =~= itp.image.levels.subrange(0, 0));
    lemma_read_levels(s, p, st, itp.image, 0);
}

/// The reader reads the file of an image from the alpha chunk on.
pub proof fn lemma_read_from_ialp(s: Seq<u8>, p: int, itp: ItpView, file_size: int)
    requires
        plain_status(itp.status, itp.image.kind),
        image_ok(itp.image),
        0 <= p <= s.len(),
        s.subrange(p, s.len() as int) == ialp_chunk(itp.status) + (idat_tail(itp.image, 0) + chunk(
            IEND,
            Seq::empty(),
        )),
    ensures
        chunks(s, p, state_behind_ipal(itp, file_size)) == Ok::<(ChunkStateView, int), ReadError>(
            (last_state(itp, file_size), s.len() as int),
        ),
{
    let rest = idat_tail(itp.image, 0) + chunk(IEND, Seq::<u8>::empty());
    lemma_pass_ialp(s, p, state_behind_ipal(itp, file_size), itp.status, rest);
    lemma_read_from_idat(s, p + ialp_chunk(itp.status).len(), itp, file_size);
}

/// The reader reads the file of an image from the palette chunk on.
pub proof fn lemma_read_from_ipal(s: Seq<u8>, p: int, itp: ItpView, file_size: int)
    requires
        plain_status(itp.status, itp.image.kind),
        image_ok(itp.image),
        0 <= p <= s.len(),
        s.subrange(p, s.len() as int) == ipal_chunk(itp.status, itp.image) + (ialp_chunk(itp.status) + (idat_tail(
            itp.image,
            0,
        ) + chunk(IEND, Seq::empty()))),
    ensures
        chunks(s, p, state_behind_imip(itp, file_size)) == Ok::<(ChunkStateView, int), ReadError>(
            (last_state(itp, file_size), s.len() as int),
        ),
{
    let rest = ialp_chunk(itp.status) + (idat_tail(itp.image, 0) + chunk(IEND, Seq::<u8>::empty()));
    lemma_pass_ipal(s, p, state_behind_imip(itp, file_size), itp.status, itp.image, rest);
    lemma_read_from_ialp(s, p + ipal_chunk(itp.status, itp.image).len(), itp, file_size);
}

/// The reader reads the file of an image from the mipmap chunk on.
pub proof fn lemma_read_from_imip(s: Seq<u8>, itp: ItpView, file_size: int)
    requires
        plain_status(itp.status, itp.image.kind),
        image_ok(itp.image),
        44 <= s.len(),
        s.subrange(44, s.len() as int) == chunks_behind_header(itp),
    ensures
        chunks(
            s,
            44,
            header_state(itp.status, itp.image.width() as u32, itp.image.height() as u32, file_size as u32),
        ) == Ok::<(ChunkStateView, int), ReadError>((last_state(itp, file_size), s.len() as int)),
{
    reveal(chunks_behind_header);
    let rest = ipal_chunk(itp.status, itp.image) + (ialp_chunk(itp.status) + (idat_tail(itp.image, 0) + chunk(
        IEND,
        Seq::<u8>::empty(),
    )));
    let st = header_state(itp.status, itp.image.width() as u32, itp.image.height() as u32, file_size as u32);
    lemma_pass_imip(s, 44, st, itp.status, itp.image, rest);
    lemma_read_from_ipal(s, 44 + imip_chunk(itp.status, itp.image).len() as int, itp, file_size);
}

/// The reader reads the chunks of the file of an image, from the header chunk to
/// the end chunk.
#[verifier::spinoff_prover]
#[verifier::rlimit(100)]
pub proof fn lemma_read_chunks(s: Seq<u8>, itp: ItpView, file_size: int)
    requires
        plain_status(itp.status, itp.image.kind),
        image_ok(itp.image),
        0 <= file_size <= u32::MAX,
        4 <= s.len(),
        s.subrange(4, s.len() as int) == chunk(IHDR, ihdr_body(itp.status, itp.image, file_size))
            + chunks_behind_header(itp),
    ensures
        chunks(s, 4, first_state()) == Ok::<(ChunkStateView, int), ReadError>(
            (last_state(itp, file_size), s.len() as int),
        ),
{
    lemma_header_fields(itp.status, itp.image, file_size);
    lemma_pass_ihdr(
        s,
        itp.status,
        itp.image.width() as u32,
        itp.image.height() as u32,
        file_size as u32,
        chunks_behind_header(itp),
    );
    lemma_read_from_imip(s, itp, file_size);
}

/// What the chunks of the file of an image have given is the image.
pub proof fn lemma_finished(itp: ItpView, file_size: int)
    requires
        plain_status(itp.status, itp.image.kind),
        image_ok(itp.image),
        0 <= file_size <= u32::MAX,
    ensures
        finished(last_state(itp, file_size), file_size) == Ok::<ItpView, ReadError>(itp),
{
    reveal(last_state);
}

/// The file of an image, laid out as the writer lays it out, is read as the image.
#[verifier::spinoff_prover]
#[verifier::rlimit(100)]
pub proof fn lemma_read_layout(file: Seq<u8>, itp: ItpView)
    requires
        plain_status(itp.status, itp.image.kind),
        image_ok(itp.image),
        file.len() <= u32::MAX,
        file == bytes32(ITP_MAGIC) + (chunk(IHDR, ihdr_body(itp.status, itp.image, file.len() as int))
            + chunks_behind_header(itp)),
    ensures
        spec_read(file) == Ok::<ItpView, ReadError>(itp),
{
    let size = file.len() as int;
    let magic = bytes32(ITP_MAGIC);
    let rest = chunk(IHDR, ihdr_body(itp.status, itp.image, size)) + chunks_behind_header(itp);
    lemma_parts(magic, rest);
    lemma_read32(file, 0, ITP_MAGIC);
    lemma_read_chunks(file, itp, size);
    lemma_finished(itp, size);
    assert(revision_3(file) == Ok::<ItpView, ReadError>(itp));
}

/// An image is read back from its file of revision 3 as it was, if the file
/// stores it without compression and with its rows in order. It has such a file
/// unless the file would be longer than its header can say.
#[verifier::spinoff_prover]
#[verifier::rlimit(100)]
pub proof fn lemma_revision_3_round_trip(itp: ItpView)
    requires
        itp.status.itp_revision == ItpRevision::V3,
        plain_status(itp.status, itp.image.kind),
        image_ok(itp.image),
    ensures
        spec_write(itp) is Ok || spec_write(itp) == Err::<Seq<u8>, WriteError>(WriteError::TooLarge),
        spec_write(itp) is Ok ==> spec_read(spec_write(itp).unwrap()) == Ok::<ItpView, ReadError>(itp),
{
    lemma_revision_3_layout(itp);
    if revision_3_layout(itp).len() <= u32::MAX {
        lemma_read_layout(revision_3_layout(itp), itp);
    }
}

/// An image that the constructor has made for revision 3 is read back from its
/// file as it was. It has a file unless the file would be longer than its header
/// can say.
pub proof fn lemma_new_round_trip(image: ImageView)
    requires
        image_ok(image),
    ensures
        spec_write(ItpView { status: image.default_status(ItpRevision::V3), image }) is Ok || spec_write(
            ItpView { status: image.default_status(ItpRevision::V3), image },
        ) == Err::<Seq<u8>, WriteError>(WriteError::TooLarge),
        spec_write(ItpView { status: image.default_status(ItpRevision::V3), image }) is Ok ==> spec_read(
            spec_write(ItpView { status: image.default_status(ItpRevision::V3), image }).unwrap(),
        ) == Ok::<ItpView, ReadError>(ItpView { status: image.default_status(ItpRevision::V3), image }),
{
    lemma_default_status(image, ItpRevision::V3);
    lemma_revision_3_round_trip(ItpView { status: image.default_status(ItpRevision::V3), image });
}

/// The status that the constructor gives an image stores the image without
/// compression and with its rows in order, in the formats of its kind.
pub proof fn lemma_default_status(image: ImageView, revision: ItpRevision)
    ensures
        plain_status(image.default_status(revision), image.kind),
        image.default_status(revision).itp_revision == revision,
        image.default_status(revision).use_alpha is None,
        image.default_status(revision).mipmap == MipmapType::NoMipmap <==> image.levels.len() <= 1,
{
}

/// What of a legacy file stands behind its first four bytes, for an image of one
/// mip level that is stored without compression and with its rows in order.
#[verifier::opaque]
pub open spec fn legacy_layout(itp: ItpView, head: u32) -> Seq<u8> {
    bytes32(itp.image.width() as u32) + (bytes32(itp.image.height() as u32) + (legacy_palette_bytes(
        itp.status,
        itp.image,
        head,
    ).unwrap() + pixel_bytes(itp.image.levels[0].data, itp.image.kind.size())))
}

/// A palette as a legacy file can hold it: embedded, and of 256 colours where the
/// head of the file implies that number.
pub open spec fn legacy_palette_ok(image: ImageView, head: u32) -> bool {
    image.palette is Some ==> (match image.palette.unwrap() {
        PaletteView::Embedded(colors) => if head == 1000 || head == 1002 {
            colors.len() == 256
        } else {
            colors.len() <= u32::MAX
        },
        PaletteView::External(_) => false,
    })
}

/// The writer puts the one mip level of an image behind what stands before it.
pub proof fn lemma_one_level_bytes(status: ItpStatus, image: ImageView, start: Seq<u8>)
    requires
        plain_status(status, image.kind),
        image_ok(image),
        image.levels.len() == 1,
    ensures
        levels_bytes(status, image, 0, start) == Ok::<Seq<u8>, WriteError>(
            start + pixel_bytes(image.levels[0].data, image.kind.size()),
        ),
{
    assert(level_fits(image, 0, image.width() as u32, image.height() as u32));
    lemma_idat_bytes(status, image, 0);
    let pixels = pixel_bytes(image.levels[0].data, image.kind.size());
    assert(levels_bytes(status, image, 0, start) == levels_bytes(status, image, 1, start + pixels));
}

/// The writer lays a legacy file out as the head, the dimensions, the palette and
/// the pixels.
#[verifier::spinoff_prover]
pub proof fn lemma_legacy_layout(itp: ItpView, head: u32)
    requires
        plain_status(itp.status, itp.image.kind),
        image_ok(itp.image),
        itp.image.levels.len() == 1,
        legacy_palette_ok(itp.image, head),
    ensures
        legacy_palette_bytes(itp.status, itp.image, head) is Ok,
        legacy_file(itp, head) == Ok::<Seq<u8>, WriteError>(bytes32(head) + legacy_layout(itp, head)),
{
    reveal(legacy_layout);
    let status = itp.status;
    let image = itp.image;
    lemma_legacy_palette_bytes(status, image, head);
    let pal = legacy_palette_bytes(status, image, head).unwrap();
    let pixels = pixel_bytes(image.levels[0].data, image.kind.size());
    let w = bytes32(low32(image.width() as int));
    let h = bytes32(low32(image.height() as int));
    lemma_one_level_bytes(status, image, bytes32(head) + w + h + pal);
    lemma_joined(bytes32(head) + w + h, pal, pixels);
    lemma_joined(bytes32(head) + w, h, pal + pixels);
    lemma_joined(bytes32(head), w, h + (pal + pixels));
    lemma_image_size(image);
}

/// The size of an image that a file can hold is its size in 32 bits.
pub proof fn lemma_image_size(image: ImageView)
    requires
        image.width() <= u32::MAX,
        image.height() <= u32::MAX,
    ensures
        low32(image.width() as int) == image.width() as u32,
        low32(image.height() as int) == image.height() as u32,
{
}

/// The reader reads the first mip level of a legacy file where the palette ends.
pub proof fn lemma_read_legacy_level(s: Seq<u8>, p: int, status: ItpStatus, image: ImageView, start: ImageView)
    requires
        plain_status(status, image.kind),
        image_ok(image),
        image.levels.len() == 1,
        start == (ImageView { levels: Seq::empty(), ..image }),
        0 <= p <= s.len(),
        s.subrange(p, s.len() as int) == pixel_bytes(image.levels[0].data, image.kind.size()),
    ensures
        idat_at(s, p, status, start, image.width() as u32, image.height() as u32) == Ok::<
            (ImageView, int),
            ReadError,
        >((image, s.len() as int)),
{
    let level = image.levels[0];
    let size = image.kind.size();
    assert(level_fits(image, 0, image.width() as u32, image.height() as u32));
    assert(pixel_bytes(level.data, size).len() == level.data.len() * size);
    lemma_level_round_trip(s, p, level, size);
    lemma_idat_at(s, p, status, start, level, image.width() as u32, image.height() as u32, s.len() as int);
    assert(start.levels.push(level) =~= image.levels);
}

/// The reader reads the dimensions of a legacy file behind its first four bytes.
pub proof fn lemma_read_legacy_dimensions(s: Seq<u8>, w: u32, h: u32, rest: Seq<u8>)
    requires
        4 <= s.len(),
        s.subrange(4, s.len() as int) == bytes32(w) + (bytes32(h) + rest),
    ensures
        avail(s, 4, 8),
        le32(s, 4) == w,
        le32(s, 8) == h,
        12 + rest.len() == s.len(),
        s.subrange(12, s.len() as int) == rest,
{
    let r1 = bytes32(h) + rest;
    lemma_parts(bytes32(w), r1);
    lemma_parts(bytes32(h), rest);
    lemma_peel32(s, 4, w, r1);
    lemma_peel32(s, 8, h, rest);
}

/// The reader reads the palette of a legacy file that stores the number of its colours.
pub proof fn lemma_read_legacy_palette(s: Seq<u8>, status: ItpStatus, colors: Seq<u32>, pixels: Seq<u8>)
    requires
        status.compression == CompressionType::Uncompressed,
        colors.len() <= u32::MAX,
        12 <= s.len(),
        s.subrange(12, s.len() as int) == (bytes32(low32(colors.len() as int)) + palette_bytes(
            status,
            PaletteView::Embedded(colors),
            false,
        ).2) + pixels,
    ensures
        avail(s, 12, 4),
        le32(s, 12) == colors.len(),
        palette_at(s, 16, status, false, colors.len()) == Ok::<(PaletteView, int), ReadError>(
            (PaletteView::Embedded(colors), 16 + 4 * colors.len() as int),
        ),
        16 + 4 * colors.len() + pixels.len() == s.len(),
        s.subrange(16 + 4 * colors.len() as int, s.len() as int) == pixels,
{
    let stored = palette_bytes(status, PaletteView::Embedded(colors), false).2;
    let delta = status.base_format == BaseFormatType::Indexed2;
    lemma_stored_color_len(stored_colors(colors, delta));
    assert(stored.len() == 4 * colors.len());
    let size = bytes32(low32(colors.len() as int));
    lemma_joined(size, stored, pixels);
    lemma_parts(size, stored + pixels);
    lemma_parts(stored, pixels);
    lemma_peel32(s, 12, low32(colors.len() as int), stored + pixels);
    lemma_field(s, 16, stored + pixels, 0, stored);
    lemma_field(s, 16, stored + pixels, stored.len() as int, pixels);
    lemma_palette_round_trip(s, 16, status, colors);
}

/// The reader reads the palette of a legacy file whose head implies 256 colours.
pub proof fn lemma_read_legacy_fixed_palette(s: Seq<u8>, status: ItpStatus, colors: Seq<u32>, pixels: Seq<u8>)
    requires
        status.compression == CompressionType::Uncompressed,
        colors.len() == 256,
        12 <= s.len(),
        s.subrange(12, s.len() as int) == palette_bytes(status, PaletteView::Embedded(colors), true).2 + pixels,
    ensures
        palette_at(s, 12, status, false, 256) == Ok::<(PaletteView, int), ReadError>(
            (PaletteView::Embedded(colors), 1036),
        ),
        1036 + pixels.len() == s.len(),
        s.subrange(1036, s.len() as int) == pixels,
{
    let stored = palette_bytes(status, PaletteView::Embedded(colors), true).2;
    let delta = status.base_format == BaseFormatType::Indexed2;
    assert(fixed_colors(stored_colors(colors, delta)) =~= stored_colors(colors, delta));
    lemma_stored_color_len(stored_colors(colors, delta));
    assert(stored.len() == 1024);
    lemma_parts(stored, pixels);
    lemma_field(s, 12, stored + pixels, 0, stored);
    lemma_field(s, 12, stored + pixels, 1024, pixels);
    lemma_fixed_palette_round_trip(s, 12, status, colors);
}

/// What an uncompressed legacy file stores for the palette of an image.
pub proof fn lemma_legacy_palette_bytes(status: ItpStatus, image: ImageView, head: u32)
    requires
        status.compression == CompressionType::Uncompressed,
        image.kind == PixelKind::Indexed <==> image.palette is Some,
        legacy_palette_ok(image, head),
    ensures
        legacy_palette_bytes(status, image, head) is Ok,
        image.kind != PixelKind::Indexed ==> legacy_palette_bytes(status, image, head).unwrap() == Seq::<u8>::empty(),
        image.kind == PixelKind::Indexed && (head == 1000 || head == 1002) ==> legacy_palette_bytes(
            status,
            image,
            head,
        ).unwrap() == palette_bytes(status, image.palette.unwrap(), true).2,
        image.kind == PixelKind::Indexed && !(head == 1000 || head == 1002) ==> legacy_palette_bytes(
            status,
            image,
            head,
        ).unwrap() == bytes32(low32(image.palette.unwrap()->Embedded_0.len() as int)) + palette_bytes(
            status,
            image.palette.unwrap(),
            false,
        ).2,
{
}

/// The reader reads the palette and the pixels of a legacy file.
#[verifier::spinoff_prover]
#[verifier::rlimit(100)]
pub proof fn lemma_read_legacy_body(s: Seq<u8>, itp: ItpView, head: u32)
    requires
        plain_status(itp.status, itp.image.kind),
        image_ok(itp.image),
        itp.image.levels.len() == 1,
        legacy_palette_ok(itp.image, head),
        12 <= s.len(),
        s.subrange(12, s.len() as int) == legacy_palette_bytes(itp.status, itp.image, head).unwrap() + pixel_bytes(
            itp.image.levels[0].data,
            itp.image.kind.size(),
        ),
    ensures
        itp.image.kind == PixelKind::Indexed ==> legacy_palette(s, head) is Ok && palette_at(
            s,
            legacy_palette(s, head).unwrap().0,
            itp.status,
            false,
            legacy_palette(s, head).unwrap().1,
        ) is Ok && palette_at(
            s,
            legacy_palette(s, head).unwrap().0,
            itp.status,
            false,
            legacy_palette(s, head).unwrap().1,
        ).unwrap().0 == itp.image.palette.unwrap() && idat_at(
            s,
            palette_at(
                s,
                legacy_palette(s, head).unwrap().0,
                itp.status,
                false,
                legacy_palette(s, head).unwrap().1,
            ).unwrap().1,
            itp.status,
            ImageView { levels: Seq::empty(), ..itp.image },
            itp.image.width() as u32,
            itp.image.height() as u32,
        ) == Ok::<(ImageView, int), ReadError>((itp.image, s.len() as int)),
        itp.image.kind != PixelKind::Indexed ==> idat_at(
            s,
            12,
            itp.status,
            ImageView { levels: Seq::empty(), ..itp.image },
            itp.image.width() as u32,
            itp.image.height() as u32,
        ) == Ok::<(ImageView, int), ReadError>((itp.image, s.len() as int)),
{
    let status = itp.status;
    let image = itp.image;
    lemma_legacy_palette_bytes(status, image, head);
    let pal = legacy_palette_bytes(status, image, head).unwrap();
    let pixels = pixel_bytes(image.levels[0].data, image.kind.size());
    let start = ImageView { levels: Seq::<RasterView<nat>>::empty(), ..image };
    if image.kind == PixelKind::Indexed {
        let colors = image.palette.unwrap()->Embedded_0;
        if head == 1000 || head == 1002 {
            lemma_read_legacy_fixed_palette(s, status, colors, pixels);
            lemma_read_legacy_level(s, 1036, status, image, start);
        } else {
            lemma_read_legacy_palette(s, status, colors, pixels);
            lemma_read_legacy_level(s, 16 + 4 * colors.len() as int, status, image, start);
        }
    } else {
        assert(pal + pixels =~= pixels);
        lemma_read_legacy_level(s, 12, status, image, start);
    }
}

/// The reader reads what of a legacy file stands behind its first four bytes.
#[verifier::spinoff_prover]
#[verifier::rlimit(100)]
pub proof fn lemma_read_legacy(s: Seq<u8>, itp: ItpView, head: u32)
    requires
        plain_status(itp.status, itp.image.kind),
        image_ok(itp.image),
        itp.image.levels.len() == 1,
        legacy_palette_ok(itp.image, head),
        4 <= s.len(),
        s.subrange(4, s.len() as int) == legacy_layout(itp, head),
    ensures
        legacy_image(s, head, itp.status) == Ok::<ItpView, ReadError>(itp),
{
    reveal(legacy_layout);
    let pal = legacy_palette_bytes(itp.status, itp.image, head).unwrap();
    let pixels = pixel_bytes(itp.image.levels[0].data, itp.image.kind.size());
    lemma_read_legacy_dimensions(s, itp.image.width() as u32, itp.image.height() as u32, pal + pixels);
    lemma_read_legacy_body(s, itp, head);
    lemma_legacy_start(itp);
}

/// The image of a status before its pixels are read is the image without its
/// levels, but for the palette.
pub proof fn lemma_legacy_start(itp: ItpView)
    requires
        plain_status(itp.status, itp.image.kind),
        image_ok(itp.image),
    ensures
        empty_image(itp.status).unwrap().kind == itp.image.kind,
        empty_image(itp.status).unwrap().levels == Seq::<RasterView<nat>>::empty(),
        itp.image.kind != PixelKind::Indexed ==> empty_image(itp.status).unwrap() == (ImageView {
            levels: Seq::empty(),
            ..itp.image
        }),
        itp.image.kind == PixelKind::Indexed ==> (ImageView {
            palette: itp.image.palette,
            ..empty_image(itp.status).unwrap()
        }) == (ImageView { levels: Seq::empty(), ..itp.image }),
{
}

/// As many colours are stored as the palette has.
proof fn lemma_stored_color_len(stored: Seq<u32>)
    ensures
        color_bytes(stored).len() == 4 * stored.len(),
{
}

/// The first four bytes of the legacy file of a status lead back to the status.
pub proof fn lemma_legacy_head(status: ItpStatus)
    requires
        legacy_head(status) is Some,
        status.base_format != BaseFormatType::Indexed3,
    ensures
        legacy_head(status).unwrap() != PNG_MAGIC,
        legacy_head(status).unwrap() != DDS_MAGIC,
        legacy_head(status).unwrap() != ITP_MAGIC,
        legacy_flags(legacy_head(status).unwrap()) is Some,
        spec_status_from_flags(legacy_flags(legacy_head(status).unwrap()).unwrap()) == Ok::<ItpStatus, ReadError>(
            status,
        ),
{
    let head = legacy_head(status).unwrap();
    let flags = spec_status_to_flags(status).unwrap();
    lemma_flag_word(status);
    lemma_flags_decode_encode(status);
    lemma_gen1_round_trip(flags, head);
}

/// An image of one mip level is read back from its legacy file as it was, if the
/// file stores it without compression and with its rows in order, and the
/// revision of its status can express the status.
#[verifier::spinoff_prover]
#[verifier::rlimit(100)]
pub proof fn lemma_legacy_round_trip(itp: ItpView)
    requires
        itp.status.itp_revision != ItpRevision::V3,
        plain_status(itp.status, itp.image.kind),
        image_ok(itp.image),
        itp.image.levels.len() == 1,
        legacy_head(itp.status) is Some,
        legacy_palette_ok(itp.image, legacy_head(itp.status).unwrap()),
    ensures
        spec_write(itp) is Ok,
        spec_read(spec_write(itp).unwrap()) == Ok::<ItpView, ReadError>(itp),
{
    let head = legacy_head(itp.status).unwrap();
    lemma_legacy_head(itp.status);
    lemma_legacy_layout(itp, head);
    let rest = legacy_layout(itp, head);
    let file = bytes32(head) + rest;
    lemma_parts(bytes32(head), rest);
    lemma_read32(file, 0, head);
    lemma_read_legacy(file, itp, head);
}

/// An image of one mip level that the constructor has made for a legacy revision
/// is read back from its file as it was, if the revision can express its status.
pub proof fn lemma_new_legacy_round_trip(image: ImageView, revision: ItpRevision)
    requires
        revision != ItpRevision::V3,
        image_ok(image),
        image.levels.len() == 1,
        legacy_head(image.default_status(revision)) is Some,
        legacy_palette_ok(image, legacy_head(image.default_status(revision)).unwrap()),
    ensures
        spec_write(ItpView { status: image.default_status(revision), image }) is Ok,
        spec_read(spec_write(ItpView { status: image.default_status(revision), image }).unwrap()) == Ok::<
            ItpView,
            ReadError,
        >(ItpView { status: image.default_status(revision), image }),
{
    lemma_default_status(image, revision);
    lemma_legacy_round_trip(ItpView { status: image.default_status(revision), image });
}

/// Writing what was read from a file gives the file again, byte for byte: for
/// every file that the writer makes of an image that it stores without compression
/// and with its rows in order, in revision 3 or, with one mip level, in an older one.
pub proof fn lemma_written_file_comes_back(itp: ItpView)
    requires
        plain_status(itp.status, itp.image.kind),
        image_ok(itp.image),
        itp.status.itp_revision != ItpRevision::V3 ==> itp.image.levels.len() == 1 && legacy_head(itp.status) is Some
            && legacy_palette_ok(itp.image, legacy_head(itp.status).unwrap()),
        spec_write(itp) is Ok,
    ensures
        spec_read(spec_write(itp).unwrap()) is Ok,
        spec_write(spec_read(spec_write(itp).unwrap()).unwrap()) == spec_write(itp),
{
    if itp.status.itp_revision == ItpRevision::V3 {
        lemma_revision_3_round_trip(itp);
    } else {
        lemma_legacy_round_trip(itp);
    }
}

} // verus!
