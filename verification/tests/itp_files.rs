use cradle::itp::read::{Field, FlagField, Unsupported};
use cradle::itp::{
    read, read_size, Argb16Mode, BaseFormatType, CompressionType, ImageData, Itp, ItpRevision, ItpStatus,
    MipmapType, MultiPlaneType, Palette, PixelBitFormatType, PixelFormatType, ReadError, WriteError,
};
use cradle::itp::write::{is_palette_storable, is_storable};
use cradle::raster::Raster;

fn put32(out: &mut Vec<u8>, v: u32) {
    out.extend(v.to_le_bytes());
}

fn put16(out: &mut Vec<u8>, v: u16) {
    out.extend(v.to_le_bytes());
}

fn chunk(out: &mut Vec<u8>, tag: &[u8; 4], body: &[u8]) {
    out.extend(tag);
    put32(out, body.len() as u32);
    out.extend(body);
}

fn ihdr(width: u32, height: u32, file_size: u32, codes: [u16; 6]) -> Vec<u8> {
    let mut body = Vec::new();
    put32(&mut body, 32);
    put32(&mut body, width);
    put32(&mut body, height);
    put32(&mut body, file_size);
    for code in codes {
        put16(&mut body, code);
    }
    put32(&mut body, 0);
    body
}

fn idat(level: u16, pixels: &[u8]) -> Vec<u8> {
    let mut body = Vec::new();
    put32(&mut body, 8);
    put16(&mut body, 0);
    put16(&mut body, level);
    body.extend(pixels);
    body
}

fn imip(mipmap: u16, more_levels: u16) -> Vec<u8> {
    let mut body = Vec::new();
    put32(&mut body, 12);
    put16(&mut body, mipmap);
    put16(&mut body, more_levels);
    put32(&mut body, 0);
    body
}

/// A file of revision 3 from the chunks behind the header; the header is made to fit.
fn revision_3(width: u32, height: u32, codes: [u16; 6], rest: &[u8]) -> Vec<u8> {
    let mut out = Vec::new();
    out.extend(b"ITP\xFF");
    let size = 4 + 40 + rest.len() as u32 + 8;
    chunk(&mut out, b"IHDR", &ihdr(width, height, size, codes));
    out.extend(rest);
    chunk(&mut out, b"IEND", &[]);
    out
}

fn argb32_status(revision: ItpRevision) -> ItpStatus {
    ItpStatus {
        itp_revision: revision,
        base_format: BaseFormatType::Argb32,
        compression: CompressionType::Uncompressed,
        pixel_format: PixelFormatType::Linear,
        pixel_bit_format: PixelBitFormatType::Argb32,
        multi_plane: MultiPlaneType::SinglePlane,
        mipmap: MipmapType::NoMipmap,
        use_alpha: None,
    }
}

fn indexed_status(revision: ItpRevision, base_format: BaseFormatType) -> ItpStatus {
    ItpStatus {
        base_format,
        pixel_bit_format: PixelBitFormatType::Indexed,
        ..argb32_status(revision)
    }
}

const ARGB32: [u16; 6] = [3, 5, 0, 5, 0, 0];
const INDEXED1: [u16; 6] = [3, 0, 0, 0, 0, 0];

#[test]
fn indexed_file_of_revision_3_parses_and_comes_back_byte_for_byte() {
    let pixels: Vec<u8> = (0..256 * 256).map(|i| (i % 4) as u8).collect();
    let mut rest = Vec::new();
    let mut ipal = Vec::new();
    put32(&mut ipal, 8);
    put16(&mut ipal, 0);
    put16(&mut ipal, 4);
    for stored in [0x11223344u32, 0x55667788, 0x99AABBCC, 0xDDEEFF00] {
        put32(&mut ipal, stored);
    }
    chunk(&mut rest, b"IPAL", &ipal);
    chunk(&mut rest, b"IDAT", &idat(0, &pixels));
    let file = revision_3(256, 256, INDEXED1, &rest);
    assert_eq!(file.len(), 65636);

    let itp = read(&file).unwrap();
    assert_eq!(itp.status, indexed_status(ItpRevision::V3, BaseFormatType::Indexed1));
    assert_eq!(
        itp.data,
        ImageData::Indexed(
            // Red and blue change places between the file and the palette.
            Palette::Embedded(vec![0x11443322, 0x55887766, 0x99CCBBAA, 0xDD00FFEE]),
            vec![Raster::new_with(256, 256, pixels)],
        )
    );
    assert_eq!(cradle::itp::write(&itp).unwrap(), file);
    assert_eq!(read_size(&file), Ok((256, 256)));
}

#[test]
fn argb32_round_trip_in_revision_3() {
    let data = ImageData::Argb32(vec![Raster::new_with(3, 2, vec![1, 2, 3, 0xFFFFFFFF, 5, 6])]);
    let itp = Itp::new(ItpRevision::V3, data);
    let file = cradle::itp::write(&itp).unwrap();
    let mut pixels = Vec::new();
    for v in [1u32, 2, 3, 0xFFFFFFFF, 5, 6] {
        put32(&mut pixels, v);
    }
    let mut rest = Vec::new();
    chunk(&mut rest, b"IDAT", &idat(0, &pixels));
    assert_eq!(file, revision_3(3, 2, ARGB32, &rest));
    assert_eq!(read(&file), Ok(itp));
}

#[test]
fn mipmaps_round_trip_in_revision_3() {
    let data = ImageData::Argb16(
        Argb16Mode::Mode2,
        vec![
            Raster::new_with(4, 4, (0..16).collect()),
            Raster::new_with(2, 2, vec![100, 200, 300, 400]),
            Raster::new_with(1, 1, vec![0xFFFF]),
        ],
    );
    let itp = Itp::new(ItpRevision::V3, data);
    assert_eq!(itp.status.mipmap, MipmapType::Mipmap_1);
    assert_eq!(itp.status.pixel_bit_format, PixelBitFormatType::Argb16_2);
    let file = cradle::itp::write(&itp).unwrap();
    // The mipmap chunk stands right behind the header and holds the number of levels less one.
    assert_eq!(&file[44..48], b"IMIP");
    assert_eq!(&file[52..64], &[12, 0, 0, 0, 1, 0, 2, 0, 0, 0, 0, 0]);
    assert_eq!(read(&file), Ok(itp));
}

#[test]
fn block_formats_round_trip_in_revision_3() {
    for data in [
        ImageData::Bc1(vec![Raster::new_with(2, 1, vec![0x0123456789ABCDEF, u64::MAX])]),
        ImageData::Bc2(vec![Raster::new_with(1, 2, vec![1u128 << 127, 3])]),
        ImageData::Bc3(vec![Raster::new_with(1, 1, vec![u128::MAX])]),
        ImageData::Bc7(vec![Raster::new_with(2, 2, vec![1, 2, 3, 0x0102030405060708090A0B0C0D0E0F10])]),
    ] {
        let itp = Itp::new(ItpRevision::V3, data);
        let file = cradle::itp::write(&itp).unwrap();
        assert_eq!(read(&file), Ok(itp));
    }
}

#[test]
fn block_pixels_are_stored_lowest_byte_first() {
    let itp = Itp::new(ItpRevision::V3, ImageData::Bc1(vec![Raster::new_with(1, 1, vec![0x0807060504030201])]));
    let file = cradle::itp::write(&itp).unwrap();
    // Header: the image measures four pixels for each block.
    assert_eq!(&file[16..24], &[4, 0, 0, 0, 4, 0, 0, 0]);
    assert_eq!(&file[file.len() - 16..file.len() - 8], &[1, 2, 3, 4, 5, 6, 7, 8]);
    assert_eq!(read_size(&file), Ok((4, 4)));
}

#[test]
fn alpha_chunk_round_trips() {
    for use_alpha in [Some(true), Some(false), None] {
        let mut itp = Itp::new(ItpRevision::V3, ImageData::Argb32(vec![Raster::new_with(1, 1, vec![7])]));
        itp.status.use_alpha = use_alpha;
        let file = cradle::itp::write(&itp).unwrap();
        assert_eq!(file.windows(4).any(|w| w == b"IALP"), use_alpha.is_some());
        assert_eq!(read(&file), Ok(itp));
    }
}

#[test]
fn external_palette_round_trips_in_revision_3() {
    let itp = Itp::new(
        ItpRevision::V3,
        ImageData::Indexed(Palette::External(b"shared.pal".to_vec()), vec![Raster::new_with(2, 2, vec![0, 1, 2, 3])]),
    );
    let file = cradle::itp::write(&itp).unwrap();
    assert!(file.windows(11).any(|w| w == b"shared.pal\0"));
    assert_eq!(read(&file), Ok(itp));
}

#[test]
fn hash_chunk_is_passed_over() {
    let mut rest = Vec::new();
    let mut ihas = Vec::new();
    put32(&mut ihas, 16);
    put32(&mut ihas, 0);
    ihas.extend([9u8; 8]);
    chunk(&mut rest, b"IHAS", &ihas);
    chunk(&mut rest, b"IDAT", &idat(0, &[1, 0, 0, 0]));
    let file = revision_3(1, 1, ARGB32, &rest);
    let itp = read(&file).unwrap();
    assert_eq!(itp.data, ImageData::Argb32(vec![Raster::new_with(1, 1, vec![1])]));
}

#[test]
fn wrong_number_of_levels_is_refused() {
    // The file announces two levels and holds one.
    let mut rest = Vec::new();
    chunk(&mut rest, b"IMIP", &imip(1, 1));
    chunk(&mut rest, b"IDAT", &idat(0, &[0; 16]));
    let file = revision_3(2, 2, ARGB32, &rest);
    assert_eq!(read(&file), Err(ReadError::WrongMips { expected: 2, value: 1 }));

    // The file announces one level and holds two.
    let mut rest = Vec::new();
    chunk(&mut rest, b"IDAT", &idat(0, &[0; 16]));
    chunk(&mut rest, b"IDAT", &idat(1, &[0; 4]));
    let file = revision_3(2, 2, ARGB32, &rest);
    assert_eq!(read(&file), Err(ReadError::WrongMips { expected: 1, value: 2 }));
}

#[test]
fn data_before_the_header_is_refused() {
    let mut file = Vec::new();
    file.extend(b"ITP\xFF");
    chunk(&mut file, b"IDAT", &idat(0, &[0; 4]));
    assert_eq!(read(&file), Err(ReadError::NoHeader));
}

#[test]
fn a_file_without_a_header_is_refused() {
    let mut file = Vec::new();
    file.extend(b"ITP\xFF");
    chunk(&mut file, b"IEND", &[]);
    assert_eq!(read(&file), Err(ReadError::NoHeader));
}

#[test]
fn unknown_chunk_is_refused() {
    let mut rest = Vec::new();
    chunk(&mut rest, b"IXYZ", &[]);
    let file = revision_3(1, 1, ARGB32, &rest);
    assert_eq!(read(&file), Err(ReadError::BadChunk { fourcc: u32::from_le_bytes(*b"IXYZ") }));
}

#[test]
fn extension_chunk_is_not_decoded() {
    let mut rest = Vec::new();
    chunk(&mut rest, b"IEXT", &[]);
    let file = revision_3(1, 1, ARGB32, &rest);
    assert_eq!(read(&file), Err(ReadError::Todo { what: Unsupported::IextChunk }));
}

#[test]
fn wrong_file_size_is_refused() {
    let mut rest = Vec::new();
    chunk(&mut rest, b"IDAT", &idat(0, &[0; 4]));
    let mut file = revision_3(1, 1, ARGB32, &rest);
    file[24] ^= 1;
    assert_eq!(read(&file), Err(ReadError::WrongSize));
}

#[test]
fn invalid_field_is_refused() {
    let mut rest = Vec::new();
    chunk(&mut rest, b"IDAT", &idat(0, &[0; 4]));
    let file = revision_3(1, 1, [3, 3, 0, 5, 0, 0], &rest);
    assert_eq!(read(&file), Err(ReadError::Invalid { field: Field::IhdrBaseFormat, value: 3 }));
    let file = revision_3(1, 1, [3, 5, 0, 5, 4, 0], &rest);
    assert_eq!(read(&file), Err(ReadError::Invalid { field: Field::IhdrCompression, value: 4 }));
}

#[test]
fn formats_that_do_not_go_together_are_refused() {
    let file = revision_3(1, 1, [3, 5, 0, 6, 0, 0], &[]);
    assert_eq!(
        read(&file),
        Err(ReadError::PixelFormat { bft: BaseFormatType::Argb32, pbft: PixelBitFormatType::Compressed })
    );
}

#[test]
fn palette_must_come_with_indexed_formats_only() {
    let mut rest = Vec::new();
    chunk(&mut rest, b"IDAT", &idat(0, &[0]));
    let file = revision_3(1, 1, INDEXED1, &rest);
    assert_eq!(read(&file), Err(ReadError::PaletteMissing));

    let mut rest = Vec::new();
    let mut ipal = Vec::new();
    put32(&mut ipal, 8);
    put16(&mut ipal, 0);
    put16(&mut ipal, 0);
    chunk(&mut rest, b"IPAL", &ipal);
    chunk(&mut rest, b"IDAT", &idat(0, &[0; 4]));
    let file = revision_3(1, 1, ARGB32, &rest);
    assert_eq!(read(&file), Err(ReadError::PalettePresent));
}

#[test]
fn external_palette_has_no_colours() {
    let mut rest = Vec::new();
    let mut ipal = Vec::new();
    put32(&mut ipal, 8);
    put16(&mut ipal, 1);
    put16(&mut ipal, 2);
    ipal.extend(b"name\0");
    chunk(&mut rest, b"IPAL", &ipal);
    let file = revision_3(1, 1, INDEXED1, &rest);
    assert_eq!(read(&file), Err(ReadError::ExternalPaletteMustBe0));
}

#[test]
fn truncated_files_are_refused() {
    assert_eq!(read(&[]), Err(ReadError::UnexpectedEnd));
    assert_eq!(read(b"ITP"), Err(ReadError::UnexpectedEnd));
    assert_eq!(read(b"ITP\xFFIH"), Err(ReadError::UnexpectedEnd));
    let mut rest = Vec::new();
    chunk(&mut rest, b"IDAT", &idat(0, &[0; 3]));
    let mut file = revision_3(1, 1, ARGB32, &rest);
    file.truncate(file.len() - 8);
    assert_eq!(read(&file), Err(ReadError::UnexpectedEnd));
}

#[test]
fn a_field_with_a_fixed_value_must_hold_it() {
    let mut rest = Vec::new();
    let mut body = idat(0, &[0; 4]);
    body[0] = 9;
    chunk(&mut rest, b"IDAT", &body);
    let file = revision_3(1, 1, ARGB32, &rest);
    assert_eq!(read(&file), Err(ReadError::Mismatch { expected: 8, found: 9 }));
}

#[test]
fn other_formats_are_no_itp() {
    assert_eq!(read(b"\x89PNG\r\n\x1a\n"), Err(ReadError::NotItp));
    assert_eq!(read(b"DDS |\0\0\0"), Err(ReadError::NotItp));
    assert_eq!(read(&[0, 0, 0, 0, 1, 2, 3, 4]), Err(ReadError::NotItp));
    assert_eq!(read(&1007u32.to_le_bytes()), Err(ReadError::NotItp));
}

#[test]
fn flag_word_without_a_format_is_refused() {
    let mut file = Vec::new();
    put32(&mut file, 0x4000_0800);
    assert_eq!(read(&file), Err(ReadError::MissingFlag { what: FlagField::BaseFormatType }));
    let mut file = Vec::new();
    put32(&mut file, 0x4000_0801);
    assert_eq!(read(&file), Err(ReadError::MissingFlag { what: FlagField::IndexedType }));
    let mut file = Vec::new();
    put32(&mut file, 0x4000_8010);
    assert_eq!(read(&file), Err(ReadError::MissingFlag { what: FlagField::PixelFormat }));
    let mut file = Vec::new();
    put32(&mut file, 0x4010_8830);
    assert_eq!(read(&file), Err(ReadError::ExtraFlags { flags: 0x20 }));
}

#[test]
fn legacy_code_1000_implies_256_colours() {
    let mut file = Vec::new();
    put32(&mut file, 1000);
    put32(&mut file, 2);
    put32(&mut file, 1);
    for i in 0..256u32 {
        put32(&mut file, i << 16);
    }
    file.extend([5, 255]);
    let itp = read(&file).unwrap();
    assert_eq!(itp.status, indexed_status(ItpRevision::V1, BaseFormatType::Indexed1));
    let colors: Vec<u32> = (0..256).collect();
    assert_eq!(
        itp.data,
        ImageData::Indexed(Palette::Embedded(colors), vec![Raster::new_with(2, 1, vec![5, 255])])
    );
    assert_eq!(cradle::itp::write(&itp).unwrap(), file);
}

#[test]
fn legacy_code_999_holds_16_bit_colour() {
    let mut file = Vec::new();
    put32(&mut file, 999);
    put32(&mut file, 1);
    put32(&mut file, 2);
    file.extend([0x34, 0x12, 0x78, 0x56]);
    let itp = read(&file).unwrap();
    assert_eq!(itp.status.itp_revision, ItpRevision::V1);
    assert_eq!(itp.status.base_format, BaseFormatType::Argb16);
    assert_eq!(itp.data, ImageData::Argb16(Argb16Mode::Mode2, vec![Raster::new_with(1, 2, vec![0x1234, 0x5678])]));
    // The flag word of 16-bit colour is none of those that have a header code.
    assert_eq!(cradle::itp::write(&itp), Err(WriteError::Unrepresentable));
    let mut itp = itp;
    itp.status.itp_revision = ItpRevision::V2;
    let mut want = 0x4000_8802u32.to_le_bytes().to_vec();
    want.extend(&file[4..]);
    assert_eq!(cradle::itp::write(&itp).unwrap(), want);
}

#[test]
fn argb32_round_trip_in_revision_2() {
    let itp = Itp::new(ItpRevision::V2, ImageData::Argb32(vec![Raster::new_with(2, 2, vec![1, 2, 3, 4])]));
    let file = cradle::itp::write(&itp).unwrap();
    assert_eq!(&file[..4], &0x4010_8810u32.to_le_bytes());
    assert_eq!(file.len(), 12 + 16);
    assert_eq!(read(&file), Ok(itp));
}

#[test]
fn indexed_round_trip_in_revision_2_stores_the_palette_size() {
    let mut itp = Itp::new(
        ItpRevision::V2,
        ImageData::Indexed(Palette::Embedded(vec![0xFF102030, 0x80000001]), vec![Raster::new_with(2, 1, vec![1, 0])]),
    );
    itp.status.use_alpha = Some(true);
    let file = cradle::itp::write(&itp).unwrap();
    let mut want = Vec::new();
    put32(&mut want, 0x5010_8801);
    put32(&mut want, 2);
    put32(&mut want, 1);
    put32(&mut want, 2);
    put32(&mut want, 0xFF302010);
    put32(&mut want, 0x80010000);
    want.extend([1, 0]);
    assert_eq!(file, want);
    assert_eq!(read(&file), Ok(itp));
}

#[test]
fn revision_1_cannot_hold_32_bit_colour() {
    let itp = Itp::new(ItpRevision::V1, ImageData::Argb32(vec![Raster::new_with(1, 1, vec![1])]));
    assert_eq!(cradle::itp::write(&itp), Err(WriteError::Unrepresentable));
}

#[test]
fn legacy_revisions_cannot_hold_bc7_or_mipmaps() {
    let itp = Itp::new(ItpRevision::V2, ImageData::Bc7(vec![Raster::new_with(1, 1, vec![1])]));
    assert_eq!(cradle::itp::write(&itp), Err(WriteError::Unrepresentable));
    let itp = Itp::new(
        ItpRevision::V2,
        ImageData::Argb32(vec![Raster::new_with(2, 2, vec![1; 4]), Raster::new_with(1, 1, vec![1])]),
    );
    assert_eq!(cradle::itp::write(&itp), Err(WriteError::Unrepresentable));
}

#[test]
fn legacy_revisions_cannot_name_an_external_palette() {
    let itp = Itp::new(
        ItpRevision::V2,
        ImageData::Indexed(Palette::External(b"p".to_vec()), vec![Raster::new_with(1, 1, vec![0])]),
    );
    assert_eq!(cradle::itp::write(&itp), Err(WriteError::ExternalPalette));
}

#[test]
fn an_image_without_levels_cannot_be_written() {
    let itp = Itp::new(ItpRevision::V3, ImageData::Argb32(vec![]));
    assert_eq!(cradle::itp::write(&itp), Err(WriteError::Empty));
    let itp = Itp::new(ItpRevision::V2, ImageData::Argb32(vec![]));
    assert_eq!(cradle::itp::write(&itp), Err(WriteError::Empty));
}

#[test]
fn tiled_pixel_orders_round_trip() {
    for (pixel_format, w, h) in [
        (PixelFormatType::Pfp_1, 32, 16),
        (PixelFormatType::Pfp_2, 64, 32),
        (PixelFormatType::Pfp_3, 8, 32),
        (PixelFormatType::Pfp_4, 4, 16),
        (PixelFormatType::Linear, 5, 3),
    ] {
        let pixels: Vec<u32> = (0..(w * h) as u32).map(|i| i.wrapping_mul(2654435761)).collect();
        let mut itp = Itp::new(ItpRevision::V3, ImageData::Argb32(vec![Raster::new_with(w, h, pixels)]));
        itp.status.pixel_format = pixel_format;
        let file = cradle::itp::write(&itp).unwrap();
        assert_eq!(read(&file), Ok(itp));
    }
}

#[test]
fn tiles_of_8_by_16_are_stored_tile_after_tile() {
    let pixels: Vec<u8> = (0..32 * 8).map(|i| (i % 32) as u8).collect();
    let mut itp = Itp::new(
        ItpRevision::V2,
        ImageData::Indexed(Palette::Embedded(vec![]), vec![Raster::new_with(32, 8, pixels)]),
    );
    itp.status.pixel_format = PixelFormatType::Pfp_1;
    let file = cradle::itp::write(&itp).unwrap();
    // Head, dimensions, palette size: sixteen bytes. Then the left tile row after row.
    let stored = &file[16..];
    assert_eq!(&stored[..16], &(0..16).collect::<Vec<u8>>()[..]);
    assert_eq!(&stored[16..32], &(0..16).collect::<Vec<u8>>()[..]);
    assert_eq!(&stored[128..144], &(16..32).collect::<Vec<u8>>()[..]);
    assert_eq!(read(&file), Ok(itp));
}

#[test]
fn pixel_order_that_cannot_tile_the_image_is_refused() {
    let mut itp = Itp::new(ItpRevision::V3, ImageData::Argb32(vec![Raster::new_with(3, 8, vec![0; 24])]));
    itp.status.pixel_format = PixelFormatType::Pfp_3;
    assert_eq!(cradle::itp::write(&itp), Err(WriteError::Dimensions { width: 3, height: 8 }));

    let mut rest = Vec::new();
    chunk(&mut rest, b"IDAT", &idat(0, &[0; 4 * 24]));
    let file = revision_3(3, 8, [3, 5, 1, 5, 0, 0], &rest);
    assert_eq!(read(&file), Err(ReadError::Dimensions { width: 3, height: 8 }));
}

#[test]
fn delta_palette_of_the_second_indexed_format() {
    let colors = vec![0x01020304, 0x01020305, 0xFFFFFFFF, 0];
    let mut itp = Itp::new(
        ItpRevision::V2,
        ImageData::Indexed(Palette::Embedded(colors), vec![Raster::new_with(16, 8, vec![0; 128])]),
    );
    itp.status.base_format = BaseFormatType::Indexed2;
    let file = cradle::itp::write(&itp).unwrap();
    // Stored colours: the first as it is, the others less the one before, red and blue exchanged first.
    assert_eq!(&file[16..20], &0x01040302u32.to_le_bytes());
    assert_eq!(&file[20..24], &0x00010000u32.to_le_bytes());
    assert_eq!(&file[24..28], &0xFFFFFFFFu32.wrapping_sub(0x01050302).to_le_bytes());
    assert_eq!(&file[28..32], &1u32.to_le_bytes());
    assert_eq!(read(&file), Ok(itp));
}

#[test]
fn compressed_files_round_trip() {
    let pixels: Vec<u8> = (0..64 * 64).map(|i| ((i / 7) % 5) as u8).collect();
    for compression in [CompressionType::Bz_1, CompressionType::C77] {
        let mut itp = Itp::new(
            ItpRevision::V3,
            ImageData::Indexed(
                Palette::Embedded(vec![1, 2, 3, 4, 5]),
                vec![Raster::new_with(64, 64, pixels.clone())],
            ),
        );
        itp.status.compression = compression;
        let file = cradle::itp::write(&itp).unwrap();
        // The pixels repeat, so the compressed file is shorter than the pixels alone.
        assert!(file.len() < 64 * 64);
        assert_eq!(read(&file), Ok(itp));
    }
}

#[test]
fn compressed_data_that_does_not_expand_is_refused() {
    let mut rest = Vec::new();
    chunk(&mut rest, b"IDAT", &idat(0, &[1, 2, 3]));
    let file = revision_3(2, 2, [3, 5, 0, 5, 1, 0], &rest);
    assert_eq!(read(&file), Err(ReadError::Compress));
}

#[test]
fn compressed_data_of_another_length_is_refused() {
    let itp = {
        let mut itp = Itp::new(ItpRevision::V3, ImageData::Argb32(vec![Raster::new_with(2, 2, vec![7; 4])]));
        itp.status.compression = CompressionType::Bz_1;
        itp
    };
    let mut file = cradle::itp::write(&itp).unwrap();
    // The header now says that the image is three pixels wide.
    file[16] = 3;
    assert_eq!(read(&file), Err(ReadError::WrongSize));
}

#[test]
fn sizes_of_files_without_an_image() {
    assert_eq!(read_size(&[1, 2, 3, 4]), Err(ReadError::NotItp));
    let mut rest = Vec::new();
    chunk(&mut rest, b"IMIP", &imip(0, 0xFFFF));
    let file = revision_3(1, 1, ARGB32, &rest);
    assert_eq!(read(&file), Err(ReadError::WrongMips { expected: 65536, value: 0 }));
    assert_eq!(read_size(&file), Err(ReadError::WrongMips { expected: 65536, value: 0 }));
}

#[test]
fn data_beyond_the_limit_is_not_handed_to_the_compressor() {
    let limit = cradle::itp::compress::COMPRESS_LIMIT;
    assert_eq!(limit, 0x4000_0000);
    assert!(is_storable(CompressionType::Uncompressed, limit + 1));
    assert!(is_storable(CompressionType::Uncompressed, usize::MAX));
    assert!(is_storable(CompressionType::Bz_1, limit));
    assert!(!is_storable(CompressionType::Bz_1, limit + 1));
    assert!(!is_storable(CompressionType::Bz_2, limit + 1));
    assert!(!is_storable(CompressionType::C77, usize::MAX));

    let mut status = ItpStatus::default();
    status.compression = CompressionType::Bz_1;
    let small = Palette::Embedded(vec![0xFF00_0000; 256]);
    assert!(is_palette_storable(&status, &small, false));
    assert!(is_palette_storable(&status, &small, true));
    let named = Palette::External(b"shared".to_vec());
    assert!(is_palette_storable(&status, &named, false));
}

#[test]
fn indexed_pixels_under_a_colour_format_are_not_written() {
    let data = ImageData::Indexed(Palette::Embedded(vec![0; 4]), vec![Raster::new_with(2, 2, vec![0, 1, 2, 3])]);
    let mut itp = Itp::new(ItpRevision::V3, data);
    itp.status.base_format = BaseFormatType::Argb32;
    assert_eq!(
        cradle::itp::write(&itp),
        Err(WriteError::PixelFormat { bft: BaseFormatType::Argb32, pbft: PixelBitFormatType::Indexed })
    );
}

fn whole_chunk(tag: &[u8; 4], body: &[u8]) -> Vec<u8> {
    let mut out = tag.to_vec();
    out.extend((body.len() as u32).to_le_bytes());
    out.extend(body);
    out
}

#[test]
fn second_header_chunk_is_refused() {
    // One pixel of 32-bit colour, rows in order, no compression.
    let header = ihdr(1, 1, 148, [3, 5, 0, 5, 0, 0]);
    let mut file = b"ITP\xFF".to_vec();
    file.extend(whole_chunk(b"IHDR", &header));
    file.extend(whole_chunk(b"IMIP", &imip(0, 1)));
    file.extend(whole_chunk(b"IDAT", &idat(0, &[1, 2, 3, 4])));
    file.extend(whole_chunk(b"IHDR", &header));
    file.extend(whole_chunk(b"IDAT", &idat(1, &[])));
    file.extend(whole_chunk(b"IEND", &[]));
    assert_eq!(file.len(), 148);
    assert_eq!(read(&file), Err(ReadError::RepeatedHeader));
    assert_eq!(cradle::itp::read::read_revision_3(&file), Err(ReadError::RepeatedHeader));
}

#[test]
fn reader_of_revision_3_tests_the_magic() {
    assert_eq!(cradle::itp::read::read_revision_3(&[]), Err(ReadError::UnexpectedEnd));
    assert_eq!(cradle::itp::read::read_revision_3(b"ITP"), Err(ReadError::UnexpectedEnd));
    assert_eq!(cradle::itp::read::read_revision_3(b"ITPxIEND\0\0\0\0"), Err(ReadError::NotItp));
    assert_eq!(cradle::itp::read::read_revision_3(b"ITP\xFFIEND\0\0\0\0"), Err(ReadError::NoHeader));
}

#[test]
fn levels_that_are_read_have_the_size_of_the_header_halved() {
    let levels = vec![
        Raster::new_with(5, 3, vec![7u32; 15]),
        Raster::new_with(2, 1, vec![8u32; 2]),
        Raster::new_with(1, 0, vec![]),
    ];
    let mut itp = Itp::new(ItpRevision::V3, ImageData::Argb32(levels));
    itp.status.mipmap = MipmapType::Mipmap_1;
    let file = cradle::itp::write(&itp).unwrap();
    let back = read(&file).unwrap();
    assert_eq!(back, itp);
    assert_eq!(back.data.mipmaps(), 3);
    if let ImageData::Argb32(levels) = &back.data {
        assert_eq!((levels[1].width(), levels[1].height()), (5 >> 1, 3 >> 1));
        assert_eq!((levels[2].width(), levels[2].height()), (5 >> 2, 3 >> 2));
    }
}
