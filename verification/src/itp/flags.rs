//! The legacy header of bit flags, and the fixed header codes older than it.
//!
//! Each field of a status owns some bits of the flag word. Encoding sets the bits of
//! each field's value; decoding tries the bits of each field in a fixed order and
//! takes the value of the first that is set.

use super::{
    BaseFormatType, CompressionType, ItpRevision, ItpStatus, MipmapType, MultiPlaneType, PixelBitFormatType,
    PixelFormatType,
};
use super::read::{FlagField, ReadError};
use vstd::prelude::*;

verus! {

/// The bits that belong to no field.
pub const UNUSED_FLAGS: u32 = 0x888C_03E0;

/// The bit that tells a flag word from the fixed header codes.
pub const FLAGS_PRESENT: u32 = 0x4000_0000;

/// Bit `k` of `f` is set.
pub open spec fn flag(f: u32, k: u32) -> bool {
    f & (1u32 << k) != 0
}

/// Whether bit `k` of the flag word is set.
fn has_flag(f: u32, k: u32) -> (b: bool)
    requires
        k < 32,
    ensures
        b == flag(f, k),
{
    f & (1u32 << k) != 0
}

/// The bits for a revision: bit 30 for revision 2, none for revision 1.
pub open spec fn revision_bits(r: ItpRevision) -> Option<u32> {
    match r {
        ItpRevision::V1 => Some(0),
        ItpRevision::V2 => Some(0x4000_0000),
        ItpRevision::V3 => None,
    }
}

/// The bits for a pair of base format and pixel bit format: bit 0 with one of 20, 21,
/// 22 for the indexed formats, one of 3, 1, 2 for 16-bit colour, 4 and 20 for 32-bit
/// colour, one of 24, 25, 26 for the block formats.
pub open spec fn format_bits(bft: BaseFormatType, pbft: PixelBitFormatType) -> Option<u32> {
    match (bft, pbft) {
        (BaseFormatType::Indexed1, PixelBitFormatType::Indexed) => Some(0x0010_0001),
        (BaseFormatType::Indexed2, PixelBitFormatType::Indexed) => Some(0x0020_0001),
        (BaseFormatType::Indexed3, PixelBitFormatType::Indexed) => Some(0x0040_0001),
        (BaseFormatType::Argb16, PixelBitFormatType::Argb16_1) => Some(0x0000_0008),
        (BaseFormatType::Argb16, PixelBitFormatType::Argb16_2) => Some(0x0000_0002),
        (BaseFormatType::Argb16, PixelBitFormatType::Argb16_3) => Some(0x0000_0004),
        (BaseFormatType::Argb32, PixelBitFormatType::Argb32) => Some(0x0010_0010),
        (BaseFormatType::Bc1, PixelBitFormatType::Compressed) => Some(0x0100_0000),
        (BaseFormatType::Bc2, PixelBitFormatType::Compressed) => Some(0x0200_0000),
        (BaseFormatType::Bc3, PixelBitFormatType::Compressed) => Some(0x0400_0000),
        _ => None,
    }
}

/// The bits for a compression: 15 for none, 16 for the first kind, 16 and 17 for the
/// second. The tile-dictionary format sets no bit for none, and knows no
/// compression but the first kind.
pub open spec fn compression_bits(bft: BaseFormatType, c: CompressionType) -> Option<u32> {
    if bft == BaseFormatType::Indexed3 {
        match c {
            CompressionType::Uncompressed => Some(0),
            CompressionType::Bz_1 => Some(0x0001_0000),
            _ => None,
        }
    } else {
        match c {
            CompressionType::Uncompressed => Some(0x0000_8000),
            CompressionType::Bz_1 => Some(0x0001_0000),
            CompressionType::Bz_2 => Some(0x0003_0000),
            CompressionType::C77 => None,
        }
    }
}

/// The bit for a pixel order: one of 10 to 14.
pub open spec fn pixel_format_bits(p: PixelFormatType) -> u32 {
    match p {
        PixelFormatType::Linear => 0x0000_0800,
        PixelFormatType::Pfp_1 => 0x0000_0400,
        PixelFormatType::Pfp_2 => 0x0000_1000,
        PixelFormatType::Pfp_3 => 0x0000_2000,
        PixelFormatType::Pfp_4 => 0x0000_4000,
    }
}

/// The bit for the use of alpha: 28 for yes, 29 for no, none where it is unspecified.
pub open spec fn alpha_bits(a: Option<bool>) -> u32 {
    match a {
        Some(true) => 0x1000_0000,
        Some(false) => 0x2000_0000,
        None => 0,
    }
}

/// The flag word of a status, if the legacy header can express the status.
///
/// It cannot express revision 3, the formats that revision 3 added, the third
/// compression, the second compression of the tile-dictionary format, or mipmaps.
pub open spec fn spec_status_to_flags(s: ItpStatus) -> Option<u32> {
    if revision_bits(s.itp_revision) is None || format_bits(s.base_format, s.pixel_bit_format) is None
        || compression_bits(s.base_format, s.compression) is None || s.mipmap != MipmapType::NoMipmap {
        None
    } else {
        Some(
            revision_bits(s.itp_revision).unwrap() | format_bits(s.base_format, s.pixel_bit_format).unwrap()
                | compression_bits(s.base_format, s.compression).unwrap() | pixel_format_bits(s.pixel_format)
                | alpha_bits(s.use_alpha),
        )
    }
}

/// The fixed header code that stood for a flag word before flag words were written.
pub open spec fn spec_flags_to_gen1(flags: u32) -> Option<u32> {
    if flags == 0x108802 {
        Some(999)
    } else if flags == 0x108801 {
        Some(1000)
    } else if flags == 0x110802 {
        Some(1001)
    } else if flags == 0x110801 {
        Some(1002)
    } else if flags == 0x110402 {
        Some(1003)
    } else if flags == 0x110401 {
        Some(1004)
    } else if flags == 0x210401 {
        Some(1005)
    } else if flags == 0x400401 {
        Some(1006)
    } else {
        None
    }
}

/// The flag word that a fixed header code stands for.
pub open spec fn spec_gen1_to_flags(head: u32) -> Option<u32> {
    if head == 999 {
        Some(0x108802)
    } else if head == 1000 {
        Some(0x108801)
    } else if head == 1001 {
        Some(0x110802)
    } else if head == 1002 {
        Some(0x110801)
    } else if head == 1003 {
        Some(0x110402)
    } else if head == 1004 {
        Some(0x110401)
    } else if head == 1005 {
        Some(0x210401)
    } else if head == 1006 {
        Some(0x400401)
    } else {
        None
    }
}

/// The formats that a flag word names: the first of bits 0, 3, 1, 2, 4, 24, 25, 26
/// that is set decides, and bit 0 asks for one of 20, 21, 22.
pub open spec fn format_of_flags(f: u32) -> Result<(BaseFormatType, PixelBitFormatType), FlagField> {
    if flag(f, 0) {
        if flag(f, 20) {
            Ok((BaseFormatType::Indexed1, PixelBitFormatType::Indexed))
        } else if flag(f, 21) {
            Ok((BaseFormatType::Indexed2, PixelBitFormatType::Indexed))
        } else if flag(f, 22) {
            Ok((BaseFormatType::Indexed3, PixelBitFormatType::Indexed))
        } else {
            Err(FlagField::IndexedType)
        }
    } else if flag(f, 3) {
        Ok((BaseFormatType::Argb16, PixelBitFormatType::Argb16_1))
    } else if flag(f, 1) {
        Ok((BaseFormatType::Argb16, PixelBitFormatType::Argb16_2))
    } else if flag(f, 2) {
        Ok((BaseFormatType::Argb16, PixelBitFormatType::Argb16_3))
    } else if flag(f, 4) {
        Ok((BaseFormatType::Argb32, PixelBitFormatType::Argb32))
    } else if flag(f, 24) {
        Ok((BaseFormatType::Bc1, PixelBitFormatType::Compressed))
    } else if flag(f, 25) {
        Ok((BaseFormatType::Bc2, PixelBitFormatType::Compressed))
    } else if flag(f, 26) {
        Ok((BaseFormatType::Bc3, PixelBitFormatType::Compressed))
    } else {
        Err(FlagField::BaseFormatType)
    }
}

/// The compression that a flag word names.
pub open spec fn compression_of_flags(f: u32) -> CompressionType {
    if flag(f, 15) {
        CompressionType::Uncompressed
    } else if flag(f, 16) {
        if flag(f, 17) {
            CompressionType::Bz_2
        } else {
            CompressionType::Bz_1
        }
    } else {
        CompressionType::Uncompressed
    }
}

/// The pixel order that a flag word names, if it names one.
pub open spec fn pixel_format_of_flags(f: u32) -> Option<PixelFormatType> {
    if flag(f, 10) {
        Some(PixelFormatType::Pfp_1)
    } else if flag(f, 11) {
        Some(PixelFormatType::Linear)
    } else if flag(f, 12) {
        Some(PixelFormatType::Pfp_2)
    } else if flag(f, 13) {
        Some(PixelFormatType::Pfp_3)
    } else if flag(f, 14) {
        Some(PixelFormatType::Pfp_4)
    } else {
        None
    }
}

/// What a flag word says of alpha, if it says anything.
pub open spec fn alpha_of_flags(f: u32) -> Option<bool> {
    if flag(f, 28) {
        Some(true)
    } else if flag(f, 29) {
        Some(false)
    } else {
        None
    }
}

/// The status that a flag word stands for.
///
/// A word without a format or without a pixel order is refused, the format first;
/// then a word with a bit set that belongs to no field.
pub open spec fn spec_status_from_flags(f: u32) -> Result<ItpStatus, ReadError> {
    match format_of_flags(f) {
        Err(what) => Err(ReadError::MissingFlag { what }),
        Ok((base_format, pixel_bit_format)) => match pixel_format_of_flags(f) {
            None => Err(ReadError::MissingFlag { what: FlagField::PixelFormat }),
            Some(pixel_format) => if f & UNUSED_FLAGS != 0 {
                Err(ReadError::ExtraFlags { flags: f & UNUSED_FLAGS })
            } else {
                Ok(
                    ItpStatus {
                        itp_revision: if flag(f, 30) {
                            ItpRevision::V2
                        } else {
                            ItpRevision::V1
                        },
                        base_format,
                        compression: compression_of_flags(f),
                        pixel_format,
                        pixel_bit_format,
                        multi_plane: MultiPlaneType::SinglePlane,
                        mipmap: MipmapType::NoMipmap,
                        use_alpha: alpha_of_flags(f),
                    },
                )
            },
        },
    }
}

/// The flag word of `status`, or `None` where the legacy header cannot express it.
pub fn status_to_flags(status: &ItpStatus) -> (flags: Option<u32>)
    ensures
        flags == spec_status_to_flags(*status),
{
    let revision: u32 = match status.itp_revision {
        ItpRevision::V1 => 0,
        ItpRevision::V2 => 0x4000_0000,
        ItpRevision::V3 => return None,
    };
    let format: u32 = match (status.base_format, status.pixel_bit_format) {
        (BaseFormatType::Indexed1, PixelBitFormatType::Indexed) => 0x0010_0001,
        (BaseFormatType::Indexed2, PixelBitFormatType::Indexed) => 0x0020_0001,
        (BaseFormatType::Indexed3, PixelBitFormatType::Indexed) => 0x0040_0001,
        (BaseFormatType::Argb16, PixelBitFormatType::Argb16_1) => 0x0000_0008,
        (BaseFormatType::Argb16, PixelBitFormatType::Argb16_2) => 0x0000_0002,
        (BaseFormatType::Argb16, PixelBitFormatType::Argb16_3) => 0x0000_0004,
        (BaseFormatType::Argb32, PixelBitFormatType::Argb32) => 0x0010_0010,
        (BaseFormatType::Bc1, PixelBitFormatType::Compressed) => 0x0100_0000,
        (BaseFormatType::Bc2, PixelBitFormatType::Compressed) => 0x0200_0000,
        (BaseFormatType::Bc3, PixelBitFormatType::Compressed) => 0x0400_0000,
        _ => return None,
    };
    let compression: u32 = if status.base_format == BaseFormatType::Indexed3 {
        match status.compression {
            CompressionType::Uncompressed => 0,
            CompressionType::Bz_1 => 0x0001_0000,
            _ => return None,
        }
    } else {
        match status.compression {
            CompressionType::Uncompressed => 0x0000_8000,
            CompressionType::Bz_1 => 0x0001_0000,
            CompressionType::Bz_2 => 0x0003_0000,
            CompressionType::C77 => return None,
        }
    };
    let pixel_format: u32 = match status.pixel_format {
        PixelFormatType::Linear => 0x0000_0800,
        PixelFormatType::Pfp_1 => 0x0000_0400,
        PixelFormatType::Pfp_2 => 0x0000_1000,
        PixelFormatType::Pfp_3 => 0x0000_2000,
        PixelFormatType::Pfp_4 => 0x0000_4000,
    };
    match status.mipmap {
        MipmapType::NoMipmap => {},
        _ => return None,
    }
    let alpha: u32 = match status.use_alpha {
        Some(true) => 0x1000_0000,
        Some(false) => 0x2000_0000,
        None => 0,
    };
    Some(revision | format | compression | pixel_format | alpha)
}

/// The fixed header code for `flags`, where there is one.
pub fn flags_to_gen1(flags: u32) -> (head: Option<u32>)
    ensures
        head == spec_flags_to_gen1(flags),
{
    match flags {
        0x108802 => Some(999),
        0x108801 => Some(1000),
        0x110802 => Some(1001),
        0x110801 => Some(1002),
        0x110402 => Some(1003),
        0x110401 => Some(1004),
        0x210401 => Some(1005),
        0x400401 => Some(1006),
        _ => None,
    }
}

/// The flag word for the fixed header code `head`, where it is one.
pub fn gen1_to_flags(head: u32) -> (flags: Option<u32>)
    ensures
        flags == spec_gen1_to_flags(head),
{
    match head {
        999 => Some(0x108802),
        1000 => Some(0x108801),
        1001 => Some(0x110802),
        1002 => Some(0x110801),
        1003 => Some(0x110402),
        1004 => Some(0x110401),
        1005 => Some(0x210401),
        1006 => Some(0x400401),
        _ => None,
    }
}

/// The status that the flag word `f` stands for.
pub fn status_from_flags(f: u32) -> (r: Result<ItpStatus, ReadError>)
    ensures
        r == spec_status_from_flags(f),
{
    let itp_revision = if has_flag(f, 30) {
        ItpRevision::V2
    } else {
        ItpRevision::V1
    };
    let (base_format, pixel_bit_format) = if has_flag(f, 0) {
        if has_flag(f, 20) {
            (BaseFormatType::Indexed1, PixelBitFormatType::Indexed)
        } else if has_flag(f, 21) {
            (BaseFormatType::Indexed2, PixelBitFormatType::Indexed)
        } else if has_flag(f, 22) {
            (BaseFormatType::Indexed3, PixelBitFormatType::Indexed)
        } else {
            return Err(ReadError::MissingFlag { what: FlagField::IndexedType });
        }
    } else if has_flag(f, 3) {
        (BaseFormatType::Argb16, PixelBitFormatType::Argb16_1)
    } else if has_flag(f, 1) {
        (BaseFormatType::Argb16, PixelBitFormatType::Argb16_2)
    } else if has_flag(f, 2) {
        (BaseFormatType::Argb16, PixelBitFormatType::Argb16_3)
    } else if has_flag(f, 4) {
        (BaseFormatType::Argb32, PixelBitFormatType::Argb32)
    } else if has_flag(f, 24) {
        (BaseFormatType::Bc1, PixelBitFormatType::Compressed)
    } else if has_flag(f, 25) {
        (BaseFormatType::Bc2, PixelBitFormatType::Compressed)
    } else if has_flag(f, 26) {
        (BaseFormatType::Bc3, PixelBitFormatType::Compressed)
    } else {
        return Err(ReadError::MissingFlag { what: FlagField::BaseFormatType });
    };
    let compression = if has_flag(f, 15) {
        CompressionType::Uncompressed
    } else if has_flag(f, 16) {
        if has_flag(f, 17) {
            CompressionType::Bz_2
        } else {
            CompressionType::Bz_1
        }
    } else {
        CompressionType::Uncompressed
    };
    let pixel_format = if has_flag(f, 10) {
        PixelFormatType::Pfp_1
    } else if has_flag(f, 11) {
        PixelFormatType::Linear
    } else if has_flag(f, 12) {
        PixelFormatType::Pfp_2
    } else if has_flag(f, 13) {
        PixelFormatType::Pfp_3
    } else if has_flag(f, 14) {
        PixelFormatType::Pfp_4
    } else {
        return Err(ReadError::MissingFlag { what: FlagField::PixelFormat });
    };
    let use_alpha = if has_flag(f, 28) {
        Some(true)
    } else if has_flag(f, 29) {
        Some(false)
    } else {
        None
    };
    if f & UNUSED_FLAGS != 0 {
        return Err(ReadError::ExtraFlags { flags: f & UNUSED_FLAGS });
    }
    Ok(
        ItpStatus {
            itp_revision,
            base_format,
            compression,
            pixel_format,
            pixel_bit_format,
            multi_plane: MultiPlaneType::SinglePlane,
            mipmap: MipmapType::NoMipmap,
            use_alpha,
        },
    )
}

/// Which bits of a word built from single bits are set.
proof fn lemma_flag_tests(r: u32, m: u32, c: u32, p: u32, a: u32)
    by (bit_vector)
    requires
        r == 0 || r == 0x4000_0000,
        m == 0x0010_0001 || m == 0x0020_0001 || m == 0x0040_0001 || m == 0x0000_0008 || m == 0x0000_0002 || m
            == 0x0000_0004 || m == 0x0010_0010 || m == 0x0100_0000 || m == 0x0200_0000 || m == 0x0400_0000,
        c == 0 || c == 0x0000_8000 || c == 0x0001_0000 || c == 0x0003_0000,
        p == 0x0000_0800 || p == 0x0000_0400 || p == 0x0000_1000 || p == 0x0000_2000 || p == 0x0000_4000,
        a == 0 || a == 0x1000_0000 || a == 0x2000_0000,
    ensures
        flag(r | m | c | p | a, 30) == (r == 0x4000_0000),
        flag(r | m | c | p | a, 0) == (m == 0x0010_0001 || m == 0x0020_0001 || m == 0x0040_0001),
        flag(r | m | c | p | a, 20) == (m == 0x0010_0001 || m == 0x0010_0010),
        flag(r | m | c | p | a, 21) == (m == 0x0020_0001),
        flag(r | m | c | p | a, 22) == (m == 0x0040_0001),
        flag(r | m | c | p | a, 3) == (m == 0x0000_0008),
        flag(r | m | c | p | a, 1) == (m == 0x0000_0002),
        flag(r | m | c | p | a, 2) == (m == 0x0000_0004),
        flag(r | m | c | p | a, 4) == (m == 0x0010_0010),
        flag(r | m | c | p | a, 24) == (m == 0x0100_0000),
        flag(r | m | c | p | a, 25) == (m == 0x0200_0000),
        flag(r | m | c | p | a, 26) == (m == 0x0400_0000),
        flag(r | m | c | p | a, 15) == (c == 0x0000_8000),
        flag(r | m | c | p | a, 16) == (c == 0x0001_0000 || c == 0x0003_0000),
        flag(r | m | c | p | a, 17) == (c == 0x0003_0000),
        flag(r | m | c | p | a, 10) == (p == 0x0000_0400),
        flag(r | m | c | p | a, 11) == (p == 0x0000_0800),
        flag(r | m | c | p | a, 12) == (p == 0x0000_1000),
        flag(r | m | c | p | a, 13) == (p == 0x0000_2000),
        flag(r | m | c | p | a, 14) == (p == 0x0000_4000),
        flag(r | m | c | p | a, 28) == (a == 0x1000_0000),
        flag(r | m | c | p | a, 29) == (a == 0x2000_0000),
        (r | m | c | p | a) & 0x888C_03E0 == 0,
{
}

/// Decoding the flag word of a status gives the status back.
pub proof fn lemma_flags_decode_encode(s: ItpStatus)
    requires
        spec_status_to_flags(s) is Some,
    ensures
        spec_status_from_flags(spec_status_to_flags(s).unwrap()) == Ok::<ItpStatus, ReadError>(s),
{
    let r = revision_bits(s.itp_revision).unwrap();
    let m = format_bits(s.base_format, s.pixel_bit_format).unwrap();
    let c = compression_bits(s.base_format, s.compression).unwrap();
    let p = pixel_format_bits(s.pixel_format);
    let a = alpha_bits(s.use_alpha);
    lemma_flag_tests(r, m, c, p, a);
}

/// The status of a flag word can be encoded, unless it is the tile-dictionary
/// format under the second compression. Encoding it gives a word that stands for
/// the same status, and gives the very word back if and only if the word is one
/// that encoding can give at all.
pub proof fn lemma_flags_encode_decode(f: u32)
    requires
        spec_status_from_flags(f) is Ok,
    ensures
        spec_status_to_flags(spec_status_from_flags(f).unwrap()) is Some <==> !(spec_status_from_flags(
            f,
        ).unwrap().base_format == BaseFormatType::Indexed3 && spec_status_from_flags(f).unwrap().compression
            == CompressionType::Bz_2),
        spec_status_to_flags(spec_status_from_flags(f).unwrap()) matches Some(g) ==> spec_status_from_flags(g)
            == spec_status_from_flags(f),
        spec_status_to_flags(spec_status_from_flags(f).unwrap()) == Some(f) <==> exists|t: ItpStatus|
            spec_status_to_flags(t) == Some(f),
{
    let s = spec_status_from_flags(f).unwrap();
    if spec_status_to_flags(s) is Some {
        lemma_flags_decode_encode(s);
    }
    if exists|t: ItpStatus| spec_status_to_flags(t) == Some(f) {
        let t = choose|t: ItpStatus| spec_status_to_flags(t) == Some(f);
        lemma_flags_decode_encode(t);
        assert(s == t);
    }
}

/// Which statuses have a flag word, and what every flag word is like.
///
/// A status has none if and only if it is of revision 3, its formats are no pair
/// of the legacy header, it has mipmaps, its compression is the third kind, or it
/// is the tile-dictionary format under the second kind. A flag word has no bit
/// that belongs to no field, and bit 30 if and only if the status is of revision 2.
pub proof fn lemma_flags_expressible(s: ItpStatus)
    ensures
        spec_status_to_flags(s) is None <==> s.itp_revision == ItpRevision::V3 || format_bits(
            s.base_format,
            s.pixel_bit_format,
        ) is None || s.mipmap != MipmapType::NoMipmap || s.compression == CompressionType::C77 || (s.base_format
            == BaseFormatType::Indexed3 && s.compression == CompressionType::Bz_2),
        spec_status_to_flags(s) matches Some(f) ==> f & UNUSED_FLAGS == 0 && (flag(f, 30) <==> s.itp_revision
            == ItpRevision::V2),
{
    if spec_status_to_flags(s) is Some {
        let r = revision_bits(s.itp_revision).unwrap();
        let m = format_bits(s.base_format, s.pixel_bit_format).unwrap();
        let c = compression_bits(s.base_format, s.compression).unwrap();
        let p = pixel_format_bits(s.pixel_format);
        let a = alpha_bits(s.use_alpha);
        lemma_flag_tests(r, m, c, p, a);
    }
}

/// A fixed header code and its flag word stand for each other.
pub proof fn lemma_gen1_round_trip(flags: u32, head: u32)
    ensures
        spec_flags_to_gen1(flags) == Some(head) <==> spec_gen1_to_flags(head) == Some(flags),
{
}

/// A flag word built from its fields is none of the numbers that begin a file of another kind,
/// and tells its revision by its size.
proof fn lemma_flag_word_parts(r: u32, m: u32, c: u32, p: u32, a: u32)
    by (bit_vector)
    requires
        r == 0 || r == 0x4000_0000,
        m == 0x0010_0001 || m == 0x0020_0001 || m == 0x0040_0001 || m == 0x0000_0008 || m == 0x0000_0002 || m
            == 0x0000_0004 || m == 0x0010_0010 || m == 0x0100_0000 || m == 0x0200_0000 || m == 0x0400_0000,
        c == 0 || c == 0x0000_8000 || c == 0x0001_0000 || c == 0x0003_0000,
        p == 0x0000_0800 || p == 0x0000_0400 || p == 0x0000_1000 || p == 0x0000_2000 || p == 0x0000_4000,
        a == 0 || a == 0x1000_0000 || a == 0x2000_0000,
    ensures
        (r | m | c | p | a) != 0x474E_5089,
        (r | m | c | p | a) != 0x2053_4444,
        (r | m | c | p | a) != 0xFF50_5449,
        r == 0x4000_0000 ==> (r | m | c | p | a) & 0x4000_0000 != 0 && (r | m | c | p | a) >= 0x4000_0000,
        r == 0 ==> (r | m | c | p | a) < 0x4000_0000,
{
}

/// The flag word of a status is none of the numbers that other formats start
/// with, and it has the bit that tells a flag word from a header code if and only
/// if the status is of revision 2.
pub proof fn lemma_flag_word(s: ItpStatus)
    requires
        spec_status_to_flags(s) is Some,
    ensures
        spec_status_to_flags(s).unwrap() != 0x474E_5089,
        spec_status_to_flags(s).unwrap() != 0x2053_4444,
        spec_status_to_flags(s).unwrap() != 0xFF50_5449,
        s.itp_revision == ItpRevision::V2 ==> spec_status_to_flags(s).unwrap() & FLAGS_PRESENT != 0
            && spec_status_to_flags(s).unwrap() >= 0x4000_0000,
        s.itp_revision == ItpRevision::V1 ==> spec_status_to_flags(s).unwrap() < 0x4000_0000,
{
    let r = revision_bits(s.itp_revision).unwrap();
    let m = format_bits(s.base_format, s.pixel_bit_format).unwrap();
    let c = compression_bits(s.base_format, s.compression).unwrap();
    let p = pixel_format_bits(s.pixel_format);
    let a = alpha_bits(s.use_alpha);
    lemma_flag_word_parts(r, m, c, p, a);
}

} // verus!
