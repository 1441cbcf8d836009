use cradle::dds::{Dds, Dx10Header, PixelFormat, DDPF, DDSD, DXGI_FORMAT};
use cradle::dxt::s3tc::{lerp, lerp1, rgb565};
use cradle::dxt::{decode_bc1, decode_bc2, decode_bc3};
use cradle::itp::{ImageData, Itp, ItpRevision, MipmapType, Palette};
use cradle::itp_dds::{dds_header, dds_to_itp, itp_to_dds, mask, mask1, sr64, un_dxgi};
use cradle::itp_png::{itp_to_png, png_to_itp};
use cradle::png::{colors_from, palette_chunks, palette_from, rgba_bytes, Png, Samples};
use cradle::raster::Raster;

#[test]
fn test_mask() {
    assert_eq!(mask1(sr64(0xF000), 0x1234), 0x11);
    assert_eq!(mask1(sr64(0b011100000), 0b001100000), 0b01101101);
    assert_eq!(mask1(sr64(0x00FE0000), 0xFEFEFEFE), 0xFF);
    assert_eq!(mask1(sr64(0xFE000000), 0xFEFEFEFE), 0xFF);
    assert_eq!(
        mask1(
            sr64(0b00000111111111100000000000000000),
            0b11111110111111101111111011111110,
        ),
        0b11011111
    );
}

#[test]
fn no_mask_lets_nothing_through() {
    assert_eq!(sr64(0), u64::MAX);
    assert_eq!(mask1(sr64(0), 0xFFFFFFFF), 0);
    assert_eq!(mask1(sr64(0xFF), 0), 0);
    assert_eq!(mask1(sr64(0xFF), 0x80), 0x80);
    assert_eq!(mask1(sr64(1), 1), 0xFF);
}

#[test]
fn masks_cut_a_colour_apart() {
    let masks = (sr64(0x00FF0000), sr64(0x0000FF00), sr64(0x000000FF), sr64(0xFF000000));
    assert_eq!(mask(masks, 0x80402010), 0x80402010);
    let swapped = (sr64(0x000000FF), sr64(0x0000FF00), sr64(0x00FF0000), sr64(0));
    assert_eq!(mask(swapped, 0x80402010), 0x00102040);
    let five_six_five = (sr64(0xF800), sr64(0x07E0), sr64(0x001F), sr64(0));
    assert_eq!(mask(five_six_five, 0xFFFF), 0x00FFFFFF);
    assert_eq!(mask(five_six_five, 0x8000), 0x00840000);
}

#[test]
fn colours_of_16_bits() {
    assert_eq!(rgb565(0xFFFF), (0xFF, 0xFF, 0xFF, 0xFF));
    assert_eq!(rgb565(0), (0, 0, 0, 0xFF));
    assert_eq!(rgb565(0xF800), (0, 0, 0xFF, 0xFF));
    assert_eq!(rgb565(0x07E0), (0, 0xFF, 0, 0xFF));
    assert_eq!(rgb565(0x001F), (0xFF, 0, 0, 0xFF));
    assert_eq!(rgb565(0x8410), (0x84, 0x82, 0x84, 0xFF));
}

#[test]
fn steps_between_two_values() {
    assert_eq!(lerp1(0, 255, 0, 3), 0);
    assert_eq!(lerp1(0, 255, 1, 3), 85);
    assert_eq!(lerp1(0, 255, 2, 3), 170);
    assert_eq!(lerp1(0, 255, 3, 3), 255);
    assert_eq!(lerp1(10, 20, 1, 2), 15);
    assert_eq!(lerp1(200, 100, 3, 7), 157);
    assert_eq!(lerp(0xFFFF, 0, 1, 3), 0xFFAAAAAA);
}

#[test]
fn block_of_four_colours() {
    // White and black, the first the greater; the pixels pick the colours 0, 1, 2, 3 in turn,
    // which are the four steps from the first colour to the second.
    let block: u64 = 0xE4E4_E4E4_0000_FFFF;
    let pixels = decode_bc1(block);
    for row in 0..4 {
        assert_eq!(&pixels[4 * row..4 * row + 4], &[0xFFFFFFFF, 0xFFAAAAAA, 0xFF555555, 0xFF000000]);
    }
}

#[test]
fn block_of_three_colours_and_nothing() {
    let block: u64 = 0xE4E4_E4E4_FFFF_0000;
    let pixels = decode_bc1(block);
    assert_eq!(&pixels[..4], &[0xFF000000, 0xFF7F7F7F, 0xFFFFFFFF, 0x00000000]);
    // Two equal colours offer three colours as well.
    assert_eq!(decode_bc1(0xFFFF_FFFF_1234_1234)[0], 0);
}

#[test]
fn block_with_four_bits_of_alpha() {
    let block: u128 = (0x0000_0000_0000_FFFFu128 << 64) | 0xFEDC_BA98_7654_3210;
    let pixels = decode_bc2(block);
    for (i, p) in pixels.iter().enumerate() {
        assert_eq!(*p, 0x00FFFFFF | ((i as u32 * 0x11) << 24));
    }
}

#[test]
fn block_with_steps_of_alpha() {
    // Alphas 255 and 0, eight steps; the pixels pick the alphas 0 to 7, twice.
    let picks: u128 = (0..16).map(|i| ((i % 8) as u128) << (3 * i)).sum();
    let block: u128 = (0x0000_0000_0000_FFFFu128 << 64) | (picks << 16) | 0x00FF;
    let pixels = decode_bc3(block);
    let alphas = [255, 0, 218, 182, 145, 109, 72, 36];
    for (i, p) in pixels.iter().enumerate() {
        assert_eq!(*p, 0x00FFFFFF | (alphas[i % 8] << 24));
    }
    // Alphas 0 and 255, six steps, nothing and everything.
    let block: u128 = (picks << 16) | 0xFF00;
    let pixels = decode_bc3(block);
    let alphas = [0, 255, 51, 102, 153, 204, 0, 255];
    for (i, p) in pixels.iter().enumerate() {
        assert_eq!(*p >> 24, alphas[i % 8]);
    }
}

#[test]
fn default_header() {
    let dds = Dds::default();
    assert_eq!(dds.flags, DDSD::CAPS | DDSD::HEIGHT | DDSD::WIDTH | DDSD::PIXELFORMAT);
    assert_eq!(dds.mip_map_count, 1);
    assert_eq!(dds.pixel_format, PixelFormat::default());
    assert_eq!(dds.pixel_format.rgb_bit_count, 32);
    assert_eq!(dds.pixel_format.flags, DDPF::ALPHAPIXELS | DDPF::RGB);
    assert_eq!(dds.dx10, None);
    assert_eq!(Dx10Header::default().dxgi_format, DXGI_FORMAT::B8G8R8A8_UNORM);
    let mut bytes = Vec::new();
    dds.write(&mut bytes);
    assert_eq!(bytes.len(), 128);
    assert_eq!(&bytes[..8], b"DDS \x7C\0\0\0");
    assert_eq!(&bytes[76..80], &[32, 0, 0, 0]);
    assert_eq!(&bytes[108..112], &[0, 0x10, 0, 0]);
    assert_eq!(Dds::read(&bytes), Ok((dds, 128)));
}

#[test]
fn header_with_extension() {
    let mut dds = Dds::default();
    dds.width = 640;
    dds.height = 480;
    dds.reserved[3] = 7;
    dds.caps = 1u128 << 100;
    dds.pixel_format.four_cc = *b"DX10";
    dds.dx10 = Some(Dx10Header { dxgi_format: DXGI_FORMAT::BC7_UNORM, ..Dx10Header::default() });
    let mut bytes = vec![9, 9];
    dds.write(&mut bytes);
    assert_eq!(bytes.len(), 2 + 148);
    assert_eq!(Dds::read(&bytes[2..]), Ok((dds, 148)));
    assert_eq!(Dds::read(&bytes[2..149]), Err(cradle::dds::ReadError::UnexpectedEnd));
    assert_eq!(Dds::read(&bytes[2..100]), Err(cradle::dds::ReadError::UnexpectedEnd));
    bytes[2 + 4] = 125;
    assert_eq!(
        Dds::read(&bytes[2..]),
        Err(cradle::dds::ReadError::InvalidData { expected: 124, found: 125 })
    );
    assert_eq!(
        Dds::read(b"ITP\xFF"),
        Err(cradle::dds::ReadError::InvalidData { expected: 0x20534444, found: 0xFF505449 })
    );
}

#[test]
fn extended_header_names_plain_colour() {
    let mut dds = Dds::default();
    dds.pixel_format.flags = DDPF::FOURCC;
    dds.pixel_format.four_cc = *b"DX10";
    dds.dx10 = Some(Dx10Header { dxgi_format: DXGI_FORMAT::B5G6R5_UNORM, ..Dx10Header::default() });
    let plain = un_dxgi(dds.clone());
    assert_eq!(plain.pixel_format.flags, 0);
    assert_eq!(plain.pixel_format.rgb_bit_count, 16);
    assert_eq!(plain.pixel_format.r_bit_mask, 0xF800);
    assert_eq!(plain.pixel_format.g_bit_mask, 0x07E0);
    assert_eq!(plain.pixel_format.b_bit_mask, 0x001F);
    assert_eq!(plain.pixel_format.a_bit_mask, 0);
    dds.dx10 = Some(Dx10Header { dxgi_format: DXGI_FORMAT::BC7_UNORM, ..Dx10Header::default() });
    assert_eq!(un_dxgi(dds.clone()), dds);
}

#[test]
fn itp_images_round_trip_through_dds() {
    for data in [
        ImageData::Argb32(vec![Raster::new_with(2, 2, vec![0x11223344, 0, 0xFFFFFFFF, 5])]),
        ImageData::Bc1(vec![Raster::new_with(2, 2, vec![1, 2, 3, 4]), Raster::new_with(1, 1, vec![9])]),
        ImageData::Bc2(vec![Raster::new_with(1, 1, vec![u128::MAX])]),
        ImageData::Bc3(vec![Raster::new_with(1, 2, vec![1, 2])]),
        ImageData::Bc7(vec![Raster::new_with(2, 1, vec![1 << 90, 2])]),
        ImageData::Indexed(Palette::Embedded(vec![1, 2, 3, 0xFF000000]), vec![Raster::new_with(3, 1, vec![0, 3, 1])]),
    ] {
        let itp = Itp::new(ItpRevision::V3, data);
        let dds = itp_to_dds(&itp).unwrap();
        assert_eq!(dds_to_itp(&dds), Ok(itp));
    }
}

#[test]
fn dds_file_of_an_indexed_image() {
    let itp = Itp::new(
        ItpRevision::V3,
        ImageData::Indexed(Palette::Embedded(vec![0x80112233, 0]), vec![Raster::new_with(2, 1, vec![1, 0])]),
    );
    let header = dds_header(&itp).unwrap();
    assert_eq!((header.width, header.height), (2, 1));
    assert_eq!(header.pixel_format.rgb_bit_count, 8);
    assert_eq!(header.pixel_format.flags, DDPF::ALPHAPIXELS | DDPF::RGB | DDPF::PALETTEINDEXED8);
    let dds = itp_to_dds(&itp).unwrap();
    assert_eq!(dds.len(), 128 + 1024 + 2);
    assert_eq!(&dds[128..136], &[0x11, 0x22, 0x33, 0x80, 0, 0, 0, 0]);
    assert_eq!(&dds[128 + 1024..], &[1, 0]);
    // The second colour is used, so it stays though it is no colour at all.
    assert_eq!(dds_to_itp(&dds), Ok(itp));
}

#[test]
fn unused_colours_at_the_end_are_dropped() {
    let itp = Itp::new(
        ItpRevision::V3,
        ImageData::Indexed(Palette::Embedded(vec![5, 0, 6, 0, 0]), vec![Raster::new_with(2, 1, vec![1, 0])]),
    );
    let back = dds_to_itp(&itp_to_dds(&itp).unwrap()).unwrap();
    assert_eq!(
        back.data,
        ImageData::Indexed(Palette::Embedded(vec![5, 0, 6]), vec![Raster::new_with(2, 1, vec![1, 0])])
    );
}

#[test]
fn dds_file_with_mip_levels() {
    let itp = Itp::new(
        ItpRevision::V3,
        ImageData::Argb32(vec![Raster::new_with(2, 2, vec![1; 4]), Raster::new_with(1, 1, vec![2])]),
    );
    assert_eq!(itp.status.mipmap, MipmapType::Mipmap_1);
    let header = dds_header(&itp).unwrap();
    assert_eq!(header.mip_map_count, 2);
    assert_eq!(header.flags, DDSD::DEFAULT | DDSD::MIPMAPCOUNT);
    let dds = itp_to_dds(&itp).unwrap();
    assert_eq!(dds.len(), 128 + 16 + 4);
    assert_eq!(dds_to_itp(&dds), Ok(itp));
    assert_eq!(dds_to_itp(&dds[..dds.len() - 1]), Err(cradle::itp_dds::ConvertError::UnexpectedEnd));
}

#[test]
fn what_is_not_converted_to_dds() {
    let itp = Itp::new(
        ItpRevision::V3,
        ImageData::Argb16(cradle::itp::Argb16Mode::Mode1, vec![Raster::new_with(1, 1, vec![1])]),
    );
    assert_eq!(itp_to_dds(&itp), Err(cradle::itp_dds::ConvertError::Argb16));
    let itp = Itp::new(
        ItpRevision::V3,
        ImageData::Indexed(Palette::External(vec![b'p']), vec![Raster::new_with(1, 1, vec![1])]),
    );
    assert_eq!(itp_to_dds(&itp), Err(cradle::itp_dds::ConvertError::ExternalPalette));
    let itp = Itp::new(
        ItpRevision::V3,
        ImageData::Indexed(Palette::Embedded(vec![0; 257]), vec![Raster::new_with(1, 1, vec![1])]),
    );
    assert_eq!(itp_to_dds(&itp), Err(cradle::itp_dds::ConvertError::PaletteTooLong));
    let itp = Itp::new(ItpRevision::V3, ImageData::Argb32(vec![]));
    assert_eq!(itp_to_dds(&itp), Err(cradle::itp_dds::ConvertError::Empty));
}

#[test]
fn what_is_not_converted_from_dds() {
    let mut dds = Dds::default();
    dds.pixel_format.flags = DDPF::FOURCC;
    dds.pixel_format.four_cc = *b"DXT2";
    let mut bytes = Vec::new();
    dds.write(&mut bytes);
    assert_eq!(dds_to_itp(&bytes), Err(cradle::itp_dds::ConvertError::FourCc));

    dds.pixel_format.four_cc = *b"DX10";
    dds.dx10 = Some(Dx10Header { dxgi_format: DXGI_FORMAT::BC5_UNORM, ..Dx10Header::default() });
    let mut bytes = Vec::new();
    dds.write(&mut bytes);
    assert_eq!(dds_to_itp(&bytes), Err(cradle::itp_dds::ConvertError::Dxgi));

    let mut dds = Dds::default();
    dds.pixel_format.rgb_bit_count = 24;
    let mut bytes = Vec::new();
    dds.write(&mut bytes);
    assert_eq!(dds_to_itp(&bytes), Err(cradle::itp_dds::ConvertError::BitCount));

    dds.pixel_format.flags = DDPF::YUV;
    let mut bytes = Vec::new();
    dds.write(&mut bytes);
    assert_eq!(dds_to_itp(&bytes), Err(cradle::itp_dds::ConvertError::Format));

    assert_eq!(
        dds_to_itp(b"DDS"),
        Err(cradle::itp_dds::ConvertError::Header(cradle::dds::ReadError::UnexpectedEnd))
    );
}

#[test]
fn sixteen_bit_colour_of_a_dds_file_becomes_32_bit_colour() {
    let mut dds = Dds::default();
    dds.width = 2;
    dds.height = 1;
    dds.pixel_format.flags = DDPF::FOURCC | DDPF::RGB;
    dds.pixel_format.four_cc = *b"DX10";
    dds.dx10 = Some(Dx10Header { dxgi_format: DXGI_FORMAT::B5G6R5_UNORM, ..Dx10Header::default() });
    let mut bytes = Vec::new();
    dds.write(&mut bytes);
    bytes.extend([0xFF, 0xFF, 0x00, 0xF8]);
    let itp = dds_to_itp(&bytes).unwrap();
    assert_eq!(itp.data, ImageData::Argb32(vec![Raster::new_with(2, 1, vec![0x00FFFFFF, 0x00FF0000])]));
}

#[test]
fn png_bytes_of_colours() {
    assert_eq!(rgba_bytes(&[0x80112233, 0xFF000001]), vec![0x11, 0x22, 0x33, 0x80, 0, 0, 1, 0xFF]);
    let (rgb, alpha) = palette_chunks(&[0x80112233, 0xFF000001]);
    assert_eq!(rgb, vec![0x11, 0x22, 0x33, 0, 0, 1]);
    assert_eq!(alpha, vec![0x80, 0xFF]);
    assert_eq!(palette_from(&rgb, &alpha), vec![0x80112233, 0xFF000001]);
    assert_eq!(palette_from(&rgb, &[7]), vec![0x07112233, 0xFF000001]);
    assert_eq!(palette_from(&rgb[..5], &[]), vec![0xFF112233]);
}

#[test]
fn colours_of_png_pixels() {
    assert_eq!(colors_from(&[1, 2, 3, 4, 5, 6, 7, 8], Samples::Rgba), vec![0x04010203, 0x08050607]);
    assert_eq!(colors_from(&[1, 2, 3, 4, 5, 6], Samples::Rgb), vec![0xFF010203, 0xFF040506]);
    assert_eq!(colors_from(&[1, 2, 3, 4], Samples::GrayscaleAlpha), vec![0x02010101, 0x04030303]);
    assert_eq!(colors_from(&[9, 8], Samples::Grayscale), vec![0xFF090909, 0xFF080808]);
    assert_eq!(colors_from(&[1, 2, 3, 4, 5], Samples::Rgba), vec![0x04010203]);
}

#[test]
fn first_frame_gives_the_size() {
    let png = Png::Argb32(vec![Raster::new_with(4, 2, vec![0; 8]), Raster::new_with(2, 1, vec![0; 2])]);
    assert_eq!((png.width(), png.height()), (4, 2));
    let png = Png::Indexed(vec![], vec![Raster::new_with(3, 5, vec![0; 15])]);
    assert_eq!((png.width(), png.height()), (3, 5));
}

#[test]
fn itp_images_as_png_images() {
    let levels = vec![Raster::new_with(2, 2, vec![1, 0, 1, 1]), Raster::new_with(1, 1, vec![0])];
    let itp = Itp::new(ItpRevision::V3, ImageData::Indexed(Palette::Embedded(vec![10, 20]), levels.clone()));
    assert_eq!(itp_to_png(false, true, &itp), Ok(Png::Indexed(vec![10, 20], levels.clone())));
    assert_eq!(itp_to_png(false, false, &itp), Ok(Png::Indexed(vec![10, 20], levels[..1].to_vec())));
    assert_eq!(
        itp_to_png(true, false, &itp),
        Ok(Png::Argb32(vec![Raster::new_with(2, 2, vec![20, 10, 20, 20])]))
    );
    let short = Itp::new(ItpRevision::V3, ImageData::Indexed(Palette::Embedded(vec![10]), levels.clone()));
    assert_eq!(itp_to_png(true, false, &short), Err(cradle::itp_png::ConvertError::PaletteIndex));
    assert_eq!(itp_to_png(false, false, &short), Ok(Png::Indexed(vec![10], levels[..1].to_vec())));
    let external = Itp::new(ItpRevision::V3, ImageData::Indexed(Palette::External(vec![1]), levels));
    assert_eq!(itp_to_png(false, false, &external), Err(cradle::itp_png::ConvertError::ExternalPalette));
    let bc7 = Itp::new(ItpRevision::V3, ImageData::Bc7(vec![Raster::new_with(1, 1, vec![0])]));
    assert_eq!(itp_to_png(false, false, &bc7), Err(cradle::itp_png::ConvertError::Bc7));
    let argb16 = Itp::new(
        ItpRevision::V3,
        ImageData::Argb16(cradle::itp::Argb16Mode::Mode3, vec![Raster::new_with(1, 1, vec![0])]),
    );
    assert_eq!(itp_to_png(false, false, &argb16), Err(cradle::itp_png::ConvertError::Argb16));
}

#[test]
fn blocks_become_pixels_in_rows() {
    // Two blocks side by side: the left all white, the right all black.
    let white: u64 = 0x0000_0000_0000_FFFF;
    let black: u64 = 0x0000_0000_0000_0001;
    let itp = Itp::new(ItpRevision::V3, ImageData::Bc1(vec![Raster::new_with(2, 1, vec![white, black])]));
    let png = itp_to_png(false, false, &itp).unwrap();
    let mut want = Vec::new();
    for _ in 0..4 {
        want.extend([0xFFFFFFFFu32; 4]);
        want.extend([0xFF000008u32; 4]);
    }
    assert_eq!(png, Png::Argb32(vec![Raster::new_with(8, 4, want)]));
}

#[test]
fn png_images_as_itp_images() {
    let frames = vec![Raster::new_with(2, 1, vec![1, 5])];
    let png = Png::Indexed(vec![10, 20], frames.clone());
    let itp = png_to_itp(false, false, &png);
    assert_eq!(itp, Itp::new(ItpRevision::V3, ImageData::Indexed(Palette::Embedded(vec![10, 20]), frames)));
    let itp = png_to_itp(true, false, &png);
    assert_eq!(itp, Itp::new(ItpRevision::V3, ImageData::Argb32(vec![Raster::new_with(2, 1, vec![20, 0])])));
    let two = Png::Argb32(vec![Raster::new_with(2, 2, vec![7; 4]), Raster::new_with(1, 1, vec![7])]);
    assert_eq!(png_to_itp(false, false, &two).data.mipmaps(), 1);
    assert_eq!(png_to_itp(false, true, &two).data.mipmaps(), 2);
    assert_eq!(png_to_itp(false, true, &two).status.mipmap, MipmapType::Mipmap_1);
}
