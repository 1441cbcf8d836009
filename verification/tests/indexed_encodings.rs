use cradle::itp::ccpi::{encode_ccpi, encode_ccpi_chunk, read_ccpi_chunk, read_ccpi_tile, read_dictionary};
use cradle::itp::fast_mode::{a_fast_mode2, encode_fast_mode};
use cradle::itp::read::{Field, Unsupported};
use cradle::itp::{
    read, BaseFormatType, CompressionType, ImageData, Itp, ItpRevision, Palette, PixelFormatType, ReadError,
    WriteError,
};
use cradle::raster::Raster;

fn indexed(revision: ItpRevision, base_format: BaseFormatType, w: usize, h: usize, pixels: Vec<u8>) -> Itp {
    let mut itp = Itp::new(
        revision,
        ImageData::Indexed(Palette::Embedded(vec![0xFF000000, 0xFFFFFFFF, 0x12345678]), vec![Raster::new_with(w, h, pixels)]),
    );
    itp.status.base_format = base_format;
    itp
}

#[test]
fn tile_dictionary_chunk_is_count_patches_selectors() {
    assert_eq!(
        encode_ccpi_chunk(&[1, 2, 3, 4, 5, 6, 7, 8]),
        vec![2, 1, 2, 3, 4, 5, 6, 7, 8, 0, 1]
    );
    assert_eq!(encode_ccpi_chunk(&[]), vec![0]);
}

#[test]
fn tile_of_255_different_patches_can_be_encoded() {
    let chunk: Vec<u8> = (0..255u32).flat_map(|k| [k as u8, 1, 2, 3]).collect();
    let bytes = encode_ccpi_chunk(&chunk);
    assert_eq!(bytes.len(), 1 + 255 * 4 + 255);
    assert_eq!(bytes[0], 255);
    assert_eq!(*bytes.last().unwrap(), 254);
    assert_eq!(read_ccpi_chunk(&bytes, 0, chunk.len()), Ok((chunk, bytes.len())));
}

#[test]
fn patch_that_comes_again_is_stored_once() {
    assert_eq!(
        encode_ccpi_chunk(&[1, 2, 3, 4, 5, 6, 7, 8, 1, 2, 3, 4, 1, 2, 3, 4, 5, 6, 7, 8]),
        vec![2, 1, 2, 3, 4, 5, 6, 7, 8, 0, 1, 0, 0, 1]
    );
    // More patches than a dictionary has entries, of which few differ.
    let chunk: Vec<u8> = (0..600u32).flat_map(|k| [(k % 7) as u8, 9, 9, (k % 3) as u8]).collect();
    let bytes = encode_ccpi_chunk(&chunk);
    assert_eq!(bytes[0], 21);
    assert_eq!(bytes.len(), 1 + 21 * 4 + 600);
    assert_eq!(read_ccpi_chunk(&bytes, 0, chunk.len()), Ok((chunk, bytes.len())));
}

#[test]
fn encoded_chunk_decodes_to_itself() {
    let chunk: Vec<u8> = (0..128 * 4).map(|i| (i * 3 % 256) as u8).collect();
    let bytes = encode_ccpi_chunk(&chunk);
    assert_eq!(read_ccpi_chunk(&bytes, 0, chunk.len()), Ok((chunk, bytes.len())));
}

#[test]
fn dictionary_holds_mirror_images() {
    let table = read_dictionary(&[1, 2, 3, 4, 5, 6, 7, 8], 0, 2);
    assert_eq!(table.len(), 1024);
    assert_eq!(&table[0..8], &[1, 2, 3, 4, 5, 6, 7, 8]);
    // Left to right.
    assert_eq!(&table[8..16], &[2, 1, 4, 3, 6, 5, 8, 7]);
    // Top to bottom, of the stored entries and of their mirror images.
    assert_eq!(&table[16..24], &[3, 4, 1, 2, 7, 8, 5, 6]);
    assert_eq!(&table[24..32], &[4, 3, 2, 1, 8, 7, 6, 5]);
    assert!(table[32..].iter().all(|b| *b == 0));
}

#[test]
fn dictionary_of_many_entries_stops_at_256() {
    let raw: Vec<u8> = (0..200 * 4).map(|i| (i / 4) as u8).collect();
    let table = read_dictionary(&raw, 0, 200);
    assert_eq!(table.len(), 1024);
    assert_eq!(&table[4 * 199..4 * 200], &[199; 4]);
    assert_eq!(&table[4 * 200..4 * 201], &[0; 4]);
    assert_eq!(&table[4 * 255..], &[55; 4]);
}

#[test]
fn selectors_repeat_and_select() {
    // One patch; select it, repeat it twice, select its mirror image.
    let bytes = [1, 1, 2, 3, 4, 0, 0xFF, 2, 1];
    assert_eq!(
        read_ccpi_chunk(&bytes, 0, 16),
        Ok((vec![1, 2, 3, 4, 1, 2, 3, 4, 1, 2, 3, 4, 2, 1, 4, 3], 9))
    );
}

#[test]
fn repetition_before_any_selector_repeats_entry_zero() {
    let bytes = [1, 9, 8, 7, 6, 0xFF, 1];
    assert_eq!(read_ccpi_chunk(&bytes, 0, 4), Ok((vec![9, 8, 7, 6], 7)));
}

#[test]
fn chunk_that_overshoots_is_refused() {
    let bytes = [1, 1, 2, 3, 4, 0xFF, 3];
    assert_eq!(read_ccpi_chunk(&bytes, 0, 8), Err(ReadError::WrongSize));
    assert_eq!(read_ccpi_chunk(&bytes, 0, 13), Err(ReadError::UnexpectedEnd));
    assert_eq!(read_ccpi_chunk(&[2, 0, 0], 0, 4), Err(ReadError::UnexpectedEnd));
    assert_eq!(read_ccpi_chunk(&[], 0, 4), Err(ReadError::UnexpectedEnd));
}

#[test]
fn tile_is_stored_patch_after_patch() {
    // A tile of 4 by 2 pixels holds two patches of 2 by 2.
    let bytes = [2, 1, 2, 5, 6, 3, 4, 7, 8, 0, 1];
    assert_eq!(read_ccpi_tile(&bytes, 0, 4, 2), Ok((vec![1, 2, 3, 4, 5, 6, 7, 8], 11)));
    assert_eq!(read_ccpi_tile(&[1, 1, 2, 3, 4, 0, 0], 0, 3, 2), Err(ReadError::WrongSize));
    assert_eq!(read_ccpi_tile(&[0, 0xFF, 0], 0, 1, 4), Err(ReadError::UnexpectedEnd));
    assert_eq!(read_ccpi_tile(&[1, 1, 2, 3, 4, 0], 0, 1, 4), Err(ReadError::Dimensions { width: 1, height: 4 }));
}

#[test]
fn image_is_cut_into_tiles_of_16_by_32() {
    let pixels: Vec<u8> = (0..18 * 2).collect();
    let (cw, ch, bytes) = encode_ccpi(&Raster::new_with(18, 2, pixels)).unwrap();
    assert_eq!((cw, ch), (16, 32));
    // The left tile has 8 patches, the right tile one.
    assert_eq!(bytes.len(), (1 + 32 + 8) + (1 + 4 + 1));
    assert_eq!(&bytes[..5], &[8, 0, 1, 18, 19]);
    assert_eq!(&bytes[41..], &[1, 16, 17, 34, 35, 0]);
}

#[test]
fn image_of_odd_width_cannot_be_cut_into_patches() {
    assert_eq!(
        encode_ccpi(&Raster::new_with(17, 2, vec![0; 34])),
        Err(WriteError::Dimensions { width: 1, height: 2 })
    );
}

#[test]
fn tile_dictionary_file_round_trips() {
    let pixels: Vec<u8> = (0..40 * 34).map(|i| (i % 3) as u8).collect();
    let itp = indexed(ItpRevision::V1, BaseFormatType::Indexed3, 40, 34, pixels);
    let mut itp = itp;
    itp.status.pixel_format = PixelFormatType::Pfp_1;
    let file = cradle::itp::write(&itp).unwrap();
    assert_eq!(&file[..4], &1006u32.to_le_bytes());
    assert_eq!(&file[8..12], b"CCPI");
    // Version 7, three colours, tiles of 2^4 by 2^5, 40 by 34 pixels, no flags.
    assert_eq!(&file[12..24], &[7, 0, 3, 0, 4, 5, 40, 0, 34, 0, 0, 0]);
    assert_eq!(u32::from_le_bytes(file[4..8].try_into().unwrap()) as usize, file.len() - 8);
    assert_eq!(read(&file), Ok(itp));
}

#[test]
fn compressed_tile_dictionary_file_round_trips() {
    let pixels: Vec<u8> = (0..64 * 64).map(|i| (i % 2) as u8).collect();
    let mut itp = indexed(ItpRevision::V2, BaseFormatType::Indexed3, 64, 64, pixels);
    itp.status.compression = CompressionType::Bz_1;
    let file = cradle::itp::write(&itp).unwrap();
    assert_eq!(&file[..4], &0x4040_0801u32.to_le_bytes());
    assert_eq!(file[23] & 0x80, 0x80);
    assert_eq!(read(&file), Ok(itp));
}

#[test]
fn tile_dictionary_file_with_external_palette_round_trips() {
    let mut itp = Itp::new(
        ItpRevision::V2,
        ImageData::Indexed(Palette::External(b"common".to_vec()), vec![Raster::new_with(2, 2, vec![1, 2, 3, 4])]),
    );
    itp.status.base_format = BaseFormatType::Indexed3;
    let file = cradle::itp::write(&itp).unwrap();
    assert_eq!(file[23] & 0x02, 0x02);
    assert_eq!(read(&file), Ok(itp));
}

#[test]
fn tile_dictionary_format_has_its_limits() {
    let mut itp = Itp::new(ItpRevision::V2, ImageData::Argb32(vec![Raster::new_with(2, 2, vec![0; 4])]));
    itp.status.base_format = BaseFormatType::Indexed3;
    itp.status.pixel_bit_format = cradle::itp::PixelBitFormatType::Indexed;
    assert_eq!(cradle::itp::write(&itp), Err(WriteError::CcpiNotIndexed));

    let mut itp = indexed(ItpRevision::V2, BaseFormatType::Indexed3, 2, 2, vec![0; 4]);
    if let ImageData::Indexed(_, levels) = &mut itp.data {
        levels.push(Raster::new_with(1, 1, vec![0]));
    }
    assert_eq!(cradle::itp::write(&itp), Err(WriteError::CcpiMipmaps));

    let mut itp = indexed(ItpRevision::V2, BaseFormatType::Indexed3, 2, 2, vec![0; 4]);
    itp.status.compression = CompressionType::Bz_2;
    assert_eq!(cradle::itp::write(&itp), Err(WriteError::CcpiCompression));

    let mut itp = indexed(ItpRevision::V3, BaseFormatType::Indexed3, 2, 2, vec![0; 4]);
    itp.status.compression = CompressionType::Uncompressed;
    assert_eq!(cradle::itp::write(&itp), Err(WriteError::Todo { what: Unsupported::CcpiInRevision3 }));
}

#[test]
fn tile_dictionary_version_is_checked() {
    let itp = indexed(ItpRevision::V1, BaseFormatType::Indexed3, 2, 2, vec![0, 1, 2, 0]);
    let mut itp = itp;
    itp.status.pixel_format = PixelFormatType::Pfp_1;
    let mut file = cradle::itp::write(&itp).unwrap();
    file[12] = 6;
    assert_eq!(read(&file), Ok(itp));
    file[12] = 8;
    assert_eq!(read(&file), Err(ReadError::CcpiVersion { version: 8 }));
    // The version is tested before the size of the tiles.
    file[16] = 64;
    assert_eq!(read(&file), Err(ReadError::CcpiVersion { version: 8 }));
    file[12] = 7;
    assert_eq!(read(&file), Err(ReadError::Invalid { field: Field::CcpiTileWidth, value: 64 }));
    file[16] = 4;
    file.push(0);
    file[4] += 1;
    assert_eq!(read(&file), Err(ReadError::RemainingData));
    file[8] = b'X';
    assert_eq!(
        read(&file),
        Err(ReadError::Mismatch { expected: u32::from_le_bytes(*b"CCPI"), found: u32::from_le_bytes(*b"XCPI") })
    );
}

#[test]
fn nibble_packed_layout() {
    // Two tiles side by side: the left of three colours, the right blank.
    let mut pixels = vec![0u8; 32 * 8];
    pixels[0] = 9;
    pixels[1] = 5;
    pixels[2] = 9;
    pixels[32] = 7;
    let bytes = encode_fast_mode(&Raster::new_with(32, 8, pixels.clone())).unwrap();
    let mut want = vec![0x20, 9, 5, 0, 0];
    let mut data = vec![0x22u8; 64];
    data[0] = 0x01;
    data[1] = 0x02;
    data[8] = 0x32;
    // The fourth colour of the tile is 7; it stands behind 9, 5 and 0.
    want[0] = 0x30;
    want.insert(4, 7);
    want.extend(data);
    assert_eq!(bytes, want);
    assert_eq!(a_fast_mode2(&bytes, 32, 8), Ok((pixels, bytes.len())));
}

#[test]
fn tile_of_one_colour_gets_index_zero_as_second() {
    let bytes = encode_fast_mode(&Raster::new_with(32, 8, vec![4u8; 256])).unwrap();
    assert_eq!(&bytes[..6], &[0x11, 4, 0, 4, 0, 0]);
    assert_eq!(bytes.len(), 6 + 128);
    assert!(bytes[6..].iter().all(|b| *b == 0));
    assert_eq!(a_fast_mode2(&bytes, 32, 8), Ok((vec![4u8; 256], bytes.len())));
}

#[test]
fn tile_of_16_colours_round_trips_and_17_are_too_many() {
    let sixteen: Vec<u8> = (0..256).map(|i| (i % 16 * 3) as u8).collect();
    let bytes = encode_fast_mode(&Raster::new_with(16, 16, sixteen.clone())).unwrap();
    assert_eq!(bytes[0], 0xFF);
    assert_eq!(a_fast_mode2(&bytes, 16, 16), Ok((sixteen, bytes.len())));

    let seventeen: Vec<u8> = (0..256).map(|i| (i % 17) as u8).collect();
    assert_eq!(encode_fast_mode(&Raster::new_with(16, 16, seventeen)), Err(WriteError::AFastMode2Colors));
}

#[test]
fn nibble_packed_image_must_divide_into_tiles() {
    assert_eq!(
        encode_fast_mode(&Raster::new_with(8, 8, vec![0; 64])),
        Err(WriteError::Dimensions { width: 8, height: 8 })
    );
    assert_eq!(a_fast_mode2(&[0], 8, 8), Err(ReadError::Dimensions { width: 8, height: 8 }));
}

#[test]
fn nibble_packed_file_round_trips() {
    let pixels: Vec<u8> = (0..64 * 16).map(|i| ((i / 5) % 11) as u8).collect();
    for compression in [CompressionType::Uncompressed, CompressionType::Bz_1] {
        for revision in [ItpRevision::V2, ItpRevision::V3] {
            let mut itp = indexed(revision, BaseFormatType::Indexed2, 64, 16, pixels.clone());
            itp.status.compression = compression;
            let file = cradle::itp::write(&itp).unwrap();
            assert_eq!(read(&file), Ok(itp));
        }
    }
}

#[test]
fn header_code_1005_is_the_nibble_packed_format() {
    let mut itp = indexed(ItpRevision::V1, BaseFormatType::Indexed2, 32, 8, vec![2; 256]);
    itp.status.compression = CompressionType::Bz_1;
    itp.status.pixel_format = PixelFormatType::Pfp_1;
    let file = cradle::itp::write(&itp).unwrap();
    assert_eq!(&file[..4], &1005u32.to_le_bytes());
    assert_eq!(read(&file), Ok(itp));
}

#[test]
fn last_of_an_odd_number_of_tiles_has_its_count() {
    // The counts are stored two to a byte; a count without a partner gets a zero nibble.
    let bytes = encode_fast_mode(&Raster::new_with(16, 8, vec![5; 128])).unwrap();
    assert_eq!(&bytes[..4], &[0x10, 5, 0, 0]);
    assert_eq!(bytes.len(), 4 + 64);
    assert_eq!(a_fast_mode2(&bytes, 16, 8), Ok((vec![5; 128], bytes.len())));
    let blank = encode_fast_mode(&Raster::new_with(16, 8, vec![0; 128])).unwrap();
    assert_eq!(blank, vec![0, 0]);
    assert_eq!(a_fast_mode2(&blank, 16, 8), Ok((vec![0; 128], 2)));
    // Three tiles, each of its own colours.
    let pixels: Vec<u8> = (0..48 * 8).map(|i| ((i % 48) / 16 * 3 + i % 3) as u8).collect();
    let bytes = encode_fast_mode(&Raster::new_with(48, 8, pixels.clone())).unwrap();
    assert_eq!(a_fast_mode2(&bytes, 48, 8), Ok((pixels, bytes.len())));
}

#[test]
fn runs_fill_the_tile() {
    // Two tiles; the second is blank. The first has two colours, 8 and 9, stored as runs.
    let mut data = vec![0x10, 8, 9, 2, 1];
    // Lane of colour 8: skip 3, fill 2 (and pass one over), skip 0, fill 1.
    data.extend([3, 1, 0, 0, 0xFF]);
    // Lane of colour 9: the turn goes on where the last lane stopped, so this skips 2, then fills 4.
    data.extend([2, 3, 0xFF]);
    data.extend([0xFF; 14]);
    let (pixels, end) = a_fast_mode2(&data, 32, 8).unwrap();
    assert_eq!(end, data.len());
    let mut tile = [0u8; 128];
    tile[3] = 8;
    tile[4] = 8;
    tile[6] = 8;
    for p in &mut tile[2..6] {
        *p = 9;
    }
    // The tile is the left half of the image.
    for y in 0..8 {
        assert_eq!(&pixels[y * 32..y * 32 + 16], &tile[y * 16..y * 16 + 16]);
        assert_eq!(&pixels[y * 32 + 16..y * 32 + 32], &[0; 16]);
    }
}

#[test]
fn bad_runs_are_refused() {
    let head = vec![0x10u8, 8, 9, 2, 1];
    let mut data = head.clone();
    data.extend([0, 128]);
    assert_eq!(a_fast_mode2(&data, 32, 8), Err(ReadError::Invalid { field: Field::RunLength, value: 128 }));
    let mut data = head.clone();
    data.extend([0xFF, 0xFF, 0, 1]);
    assert_eq!(a_fast_mode2(&data, 32, 8), Err(ReadError::Invalid { field: Field::LocalColor, value: 2 }));
    let mut data = head.clone();
    data.extend([0xFF; 15]);
    assert_eq!(a_fast_mode2(&data, 32, 8), Err(ReadError::UnexpectedEnd));
    let mut data = head;
    data[4] = 2;
    assert_eq!(a_fast_mode2(&data, 32, 8), Err(ReadError::Todo { what: Unsupported::FastModeTileEncoding }));
}

#[test]
fn nibble_that_names_no_colour_is_refused() {
    let mut data = vec![0x10u8, 8, 9, 0];
    data.extend([0x01; 64]);
    assert!(a_fast_mode2(&data, 32, 8).is_ok());
    data[10] = 0x20;
    assert_eq!(a_fast_mode2(&data, 32, 8), Err(ReadError::Invalid { field: Field::LocalColor, value: 2 }));
    data[3] = 1;
    assert_eq!(a_fast_mode2(&data, 32, 8), Err(ReadError::Todo { what: Unsupported::FastModeSubformat }));
    assert_eq!(a_fast_mode2(&data[..20], 32, 8), Err(ReadError::Todo { what: Unsupported::FastModeSubformat }));
    data[3] = 0;
    assert_eq!(a_fast_mode2(&data[..20], 32, 8), Err(ReadError::UnexpectedEnd));
    assert_eq!(a_fast_mode2(&data[..2], 32, 8), Err(ReadError::UnexpectedEnd));
}

#[test]
fn nibble_packed_data_must_end_with_the_last_tile() {
    let itp = indexed(ItpRevision::V2, BaseFormatType::Indexed2, 32, 8, vec![1; 256]);
    let mut file = cradle::itp::write(&itp).unwrap();
    assert_eq!(read(&file), Ok(itp));
    // One byte more in the data, and the length in front of it one more.
    file.push(0);
    let at = 12 + 4 + 12;
    file[at] += 1;
    assert_eq!(read(&file), Err(ReadError::RemainingData));
}
