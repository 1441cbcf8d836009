use cradle::itp::flags::{flags_to_gen1, gen1_to_flags, status_from_flags, status_to_flags};
use cradle::itp::read::FlagField;
use cradle::itp::{
    BaseFormatType, CompressionType, ItpRevision, ItpStatus, MipmapType, MultiPlaneType, PixelBitFormatType,
    PixelFormatType, ReadError,
};

fn status(
    itp_revision: ItpRevision,
    base_format: BaseFormatType,
    pixel_bit_format: PixelBitFormatType,
    compression: CompressionType,
    pixel_format: PixelFormatType,
    use_alpha: Option<bool>,
) -> ItpStatus {
    ItpStatus {
        itp_revision,
        base_format,
        compression,
        pixel_format,
        pixel_bit_format,
        multi_plane: MultiPlaneType::SinglePlane,
        mipmap: MipmapType::NoMipmap,
        use_alpha,
    }
}

#[test]
fn header_codes_and_flag_words() {
    let pairs = [
        (999, 0x108802),
        (1000, 0x108801),
        (1001, 0x110802),
        (1002, 0x110801),
        (1003, 0x110402),
        (1004, 0x110401),
        (1005, 0x210401),
        (1006, 0x400401),
    ];
    for (code, flags) in pairs {
        assert_eq!(gen1_to_flags(code), Some(flags));
        assert_eq!(flags_to_gen1(flags), Some(code));
    }
    assert_eq!(gen1_to_flags(998), None);
    assert_eq!(gen1_to_flags(1007), None);
    assert_eq!(flags_to_gen1(0x108800), None);
    assert_eq!(flags_to_gen1(0x4010_8801), None);
}

#[test]
fn flag_words_of_the_header_codes() {
    let v1 = ItpRevision::V1;
    let indexed = PixelBitFormatType::Indexed;
    let plain = CompressionType::Uncompressed;
    let bz = CompressionType::Bz_1;
    let linear = PixelFormatType::Linear;
    let tiles = PixelFormatType::Pfp_1;
    assert_eq!(status_to_flags(&status(v1, BaseFormatType::Indexed1, indexed, plain, linear, None)), Some(0x108801));
    assert_eq!(status_to_flags(&status(v1, BaseFormatType::Indexed1, indexed, bz, linear, None)), Some(0x110801));
    assert_eq!(status_to_flags(&status(v1, BaseFormatType::Indexed1, indexed, bz, tiles, None)), Some(0x110401));
    assert_eq!(status_to_flags(&status(v1, BaseFormatType::Indexed2, indexed, bz, tiles, None)), Some(0x210401));
    assert_eq!(status_to_flags(&status(v1, BaseFormatType::Indexed3, indexed, plain, tiles, None)), Some(0x400401));
    assert_eq!(status_to_flags(&status(v1, BaseFormatType::Indexed3, indexed, bz, tiles, None)), Some(0x410401));
}

#[test]
fn every_field_has_its_bits() {
    let s = status(
        ItpRevision::V2,
        BaseFormatType::Bc3,
        PixelBitFormatType::Compressed,
        CompressionType::Bz_2,
        PixelFormatType::Pfp_4,
        Some(false),
    );
    assert_eq!(status_to_flags(&s), Some((1 << 30) | (1 << 26) | (1 << 16) | (1 << 17) | (1 << 14) | (1 << 29)));
    let s = status(
        ItpRevision::V2,
        BaseFormatType::Argb16,
        PixelBitFormatType::Argb16_1,
        CompressionType::Uncompressed,
        PixelFormatType::Pfp_2,
        Some(true),
    );
    assert_eq!(status_to_flags(&s), Some((1 << 30) | (1 << 3) | (1 << 15) | (1 << 12) | (1 << 28)));
    let s = status(
        ItpRevision::V1,
        BaseFormatType::Argb32,
        PixelBitFormatType::Argb32,
        CompressionType::Bz_1,
        PixelFormatType::Pfp_3,
        None,
    );
    assert_eq!(status_to_flags(&s), Some((1 << 4) | (1 << 20) | (1 << 16) | (1 << 13)));
}

#[test]
fn what_the_flag_word_cannot_say() {
    let ok = status(
        ItpRevision::V2,
        BaseFormatType::Argb32,
        PixelBitFormatType::Argb32,
        CompressionType::Uncompressed,
        PixelFormatType::Linear,
        None,
    );
    assert!(status_to_flags(&ok).is_some());
    assert_eq!(status_to_flags(&ItpStatus { itp_revision: ItpRevision::V3, ..ok }), None);
    assert_eq!(status_to_flags(&ItpStatus { compression: CompressionType::C77, ..ok }), None);
    assert_eq!(status_to_flags(&ItpStatus { mipmap: MipmapType::Mipmap_1, ..ok }), None);
    assert_eq!(status_to_flags(&ItpStatus { mipmap: MipmapType::Mipmap_2, ..ok }), None);
    assert_eq!(status_to_flags(&ItpStatus { pixel_bit_format: PixelBitFormatType::Indexed, ..ok }), None);
    assert_eq!(
        status_to_flags(&ItpStatus {
            base_format: BaseFormatType::Bc7,
            pixel_bit_format: PixelBitFormatType::Compressed,
            ..ok
        }),
        None
    );
}

#[test]
fn decoding_gives_back_what_was_encoded() {
    let revisions = [ItpRevision::V1, ItpRevision::V2];
    let formats = [
        (BaseFormatType::Indexed1, PixelBitFormatType::Indexed),
        (BaseFormatType::Indexed2, PixelBitFormatType::Indexed),
        (BaseFormatType::Argb16, PixelBitFormatType::Argb16_1),
        (BaseFormatType::Argb16, PixelBitFormatType::Argb16_2),
        (BaseFormatType::Argb16, PixelBitFormatType::Argb16_3),
        (BaseFormatType::Argb32, PixelBitFormatType::Argb32),
        (BaseFormatType::Bc1, PixelBitFormatType::Compressed),
        (BaseFormatType::Bc2, PixelBitFormatType::Compressed),
        (BaseFormatType::Bc3, PixelBitFormatType::Compressed),
    ];
    let compressions = [CompressionType::Uncompressed, CompressionType::Bz_1, CompressionType::Bz_2];
    let orders = [
        PixelFormatType::Linear,
        PixelFormatType::Pfp_1,
        PixelFormatType::Pfp_2,
        PixelFormatType::Pfp_3,
        PixelFormatType::Pfp_4,
    ];
    let alphas = [None, Some(true), Some(false)];
    let mut seen = Vec::new();
    for r in revisions {
        for (b, p) in formats {
            for c in compressions {
                for o in orders {
                    for a in alphas {
                        let s = status(r, b, p, c, o, a);
                        let flags = status_to_flags(&s).unwrap();
                        assert_eq!(status_from_flags(flags), Ok(s));
                        assert_eq!(status_to_flags(&status_from_flags(flags).unwrap()), Some(flags));
                        seen.push(flags);
                    }
                }
            }
        }
    }
    seen.sort();
    seen.dedup();
    assert_eq!(seen.len(), 2 * 9 * 3 * 5 * 3);
}

#[test]
fn tile_dictionary_format_knows_one_compression() {
    let s = status(
        ItpRevision::V2,
        BaseFormatType::Indexed3,
        PixelBitFormatType::Indexed,
        CompressionType::Bz_1,
        PixelFormatType::Linear,
        None,
    );
    let flags = status_to_flags(&s).unwrap();
    assert_eq!(flags, 0x4041_0801);
    assert_eq!(status_from_flags(flags), Ok(s));
    let plain = ItpStatus { compression: CompressionType::Uncompressed, ..s };
    assert_eq!(status_to_flags(&plain), Some(0x4040_0801));
    assert_eq!(status_from_flags(0x4040_0801), Ok(plain));
    assert_eq!(status_to_flags(&ItpStatus { compression: CompressionType::Bz_2, ..s }), None);
    assert_eq!(status_to_flags(&ItpStatus { compression: CompressionType::C77, ..s }), None);
    // A word can name the pair that no status is encoded as.
    let odd = status_from_flags(0x4043_0801).unwrap();
    assert_eq!(odd.compression, CompressionType::Bz_2);
    assert_eq!(status_to_flags(&odd), None);
}

#[test]
fn decoding_takes_the_first_bit_that_is_set() {
    // Bits 0 and 20 name the first indexed format, whatever other format bits are set.
    let s = status_from_flags(0x4010_881F).unwrap();
    assert_eq!(s.base_format, BaseFormatType::Indexed1);
    assert_eq!(status_to_flags(&s), Some(0x4010_8801));
    // A word without compression bits means no compression; encoding sets bit 15.
    let s = status_from_flags(0x4000_0810).unwrap();
    assert_eq!(s.base_format, BaseFormatType::Argb32);
    assert_eq!(s.compression, CompressionType::Uncompressed);
    assert_eq!(status_to_flags(&s), Some(0x4010_8810));
    // The pixel orders are tried from bit 10 on.
    assert_eq!(status_from_flags(0x0000_7C10).unwrap().pixel_format, PixelFormatType::Pfp_1);
    assert_eq!(status_from_flags(0x0000_7810).unwrap().pixel_format, PixelFormatType::Linear);
    assert_eq!(status_from_flags(0x3000_0810).unwrap().use_alpha, Some(true));
}

#[test]
fn malformed_flag_words() {
    assert_eq!(status_from_flags(0), Err(ReadError::MissingFlag { what: FlagField::BaseFormatType }));
    assert_eq!(status_from_flags(1), Err(ReadError::MissingFlag { what: FlagField::IndexedType }));
    assert_eq!(status_from_flags(0x10), Err(ReadError::MissingFlag { what: FlagField::PixelFormat }));
    for bit in [5, 6, 7, 8, 9, 18, 19, 23, 27, 31] {
        assert_eq!(status_from_flags(0x810 | 1 << bit), Err(ReadError::ExtraFlags { flags: 1 << bit }));
    }
    assert_eq!(status_from_flags(0x810 | 0x8000_0020), Err(ReadError::ExtraFlags { flags: 0x8000_0020 }));
    // The missing format is told before the extra bits.
    assert_eq!(status_from_flags(0x20), Err(ReadError::MissingFlag { what: FlagField::BaseFormatType }));
}
