use cradle::ch::{ch_to_dds, ch_to_png, from_1555, from_4444, itp_to_ch, to_1555, to_4444, ImageData, Mode};
use cradle::crop::{bounds, crop, do_crop, do_pad, is_not_blank, next_power_of_two, pad, try_crop, try_pad, CropError};
use cradle::itc::{Frame, Itc, ReadError, WriteError};
use cradle::itp::{Itp, ItpRevision, Palette};
use cradle::png::Png;
use cradle::raster::Raster;

fn sheet(palette: Option<Vec<u32>>, files: &[(usize, &[u8], usize)]) -> Itc {
    let mut itc = Itc::default();
    itc.palette = palette;
    for (k, file, order) in files {
        itc.frames[*k] = Frame {
            itp: Some(file.to_vec()),
            unknown: *k as u16,
            offset: (0x3F000000, 0xBF000000),
            scale: (0x40000000, 0x3F800000),
            order: *order,
        };
    }
    itc
}

#[test]
fn empty_sheet() {
    let itc = Itc::default();
    assert_eq!(itc.frames.len(), 128);
    assert_eq!(itc.frames[5], Frame::default());
    assert_eq!(Frame::default().scale, (1.0f32.to_bits(), 1.0f32.to_bits()));
    assert_eq!(Frame::default().order, usize::MAX);
    let file = cradle::itc::write(&itc).unwrap();
    assert_eq!(file.len(), 3332);
    assert_eq!(&file[..4], b"V101");
    assert!(file[4..1284].iter().all(|b| *b == 0));
    assert_eq!(&file[2308..2312], &1.0f32.to_le_bytes());
    assert_eq!(cradle::itc::read(&file), Ok(itc));
}

#[test]
fn sheet_with_sprites_round_trips() {
    let itc = sheet(Some(vec![1, 2, 3]), &[(3, b"first", 0), (0, b"second!", 1), (127, b"", 2)]);
    let file = cradle::itc::write(&itc).unwrap();
    assert_eq!(&file[..4], b"V102");
    assert_eq!(&file[3332..3348], &[3, 0, 0, 0, 1, 0, 0, 0, 2, 0, 0, 0, 3, 0, 0, 0]);
    // The files stand behind the palette, in the order of their orders.
    assert_eq!(&file[3348..], b"firstsecond!");
    // The table: the file of sprite 0 stands behind that of sprite 3.
    assert_eq!(&file[4..12], &[(3348 + 5) as u8, ((3348 + 5) >> 8) as u8, 0, 0, 7, 0, 0, 0]);
    assert_eq!(&file[4 + 8 * 3..12 + 8 * 3], &[3348u32 as u8, (3348 >> 8) as u8, 0, 0, 5, 0, 0, 0]);
    assert_eq!(cradle::itc::read(&file), Ok(itc));
}

#[test]
fn sprites_of_the_same_order_keep_their_places() {
    let itc = sheet(None, &[(9, b"b", 4), (2, b"a", 4), (5, b"c", 1)]);
    let file = cradle::itc::write(&itc).unwrap();
    assert_eq!(&file[3332..], b"cab");
    let back = cradle::itc::read(&file).unwrap();
    assert_eq!(back.frames[5].order, 0);
    assert_eq!(back.frames[2].order, 1);
    assert_eq!(back.frames[9].order, 2);
}

#[test]
fn what_is_no_sheet() {
    assert_eq!(cradle::itc::read(b"V10"), Err(ReadError::UnexpectedEnd));
    assert_eq!(cradle::itc::read(b"V103"), Err(ReadError::NotItc));
    let file = cradle::itc::write(&sheet(Some(vec![7]), &[(1, b"x", 0)])).unwrap();
    assert_eq!(cradle::itc::read(&file[..file.len() - 1]), Err(ReadError::UnexpectedEnd));
    assert_eq!(cradle::itc::read(&file[..3335]), Err(ReadError::UnexpectedEnd));
    assert_eq!(cradle::itc::read(&file[..3000]), Err(ReadError::UnexpectedEnd));
    assert_eq!(cradle::itc::read(&file[..100]), Err(ReadError::UnexpectedEnd));
    let mut itc = Itc::default();
    itc.frames.pop();
    assert_eq!(cradle::itc::write(&itc), Err(WriteError::FrameCount));
}

#[test]
fn colours_of_few_bits() {
    assert_eq!(from_4444(0xF000), 0xFF000000);
    assert_eq!(from_4444(0x1234), 0x11223344);
    assert_eq!(to_4444(0x11223344), 0x1234);
    assert_eq!(to_4444(0x1F2F3F4F), 0x1234);
    assert_eq!(from_1555(0x8000), 0xFF000000);
    assert_eq!(from_1555(0x7FFF), 0x00FFFFFF);
    assert_eq!(from_1555(0x0401), 0x00080008);
    assert_eq!(to_1555(0xFF080008), 0x8401);
    for v in [0u16, 1, 0x8000, 0x1234, 0xFFFF, 0x7C1F, 0xABCD] {
        assert_eq!(to_4444(from_4444(v)), v);
        assert_eq!(to_1555(from_1555(v)), v);
    }
}

#[test]
fn headerless_images_as_other_images() {
    let ch = ImageData::Argb4444(Raster::new_with(2, 1, vec![0xF00F, 0x0F00]));
    assert_eq!(ch.to_argb32(), Raster::new_with(2, 1, vec![0xFF0000FF, 0x00FF0000]));
    assert_eq!(ch_to_png(&ch), Png::Argb32(vec![Raster::new_with(2, 1, vec![0xFF0000FF, 0x00FF0000])]));
    assert_eq!(ImageData::from_argb32(&ch.to_argb32(), Mode::Argb4444), ch);
    assert_eq!(
        ImageData::from_argb32(&ch.to_argb32(), Mode::Argb1555),
        ImageData::Argb1555(Raster::new_with(2, 1, vec![0x801F, 0x7C00]))
    );
    let dds = ch_to_dds(&ch);
    assert_eq!(dds.len(), 128 + 4);
    assert_eq!(&dds[12..20], &[1, 0, 0, 0, 2, 0, 0, 0]);
    // Sixteen bits, and the masks of red, green, blue and alpha.
    assert_eq!(&dds[88..92], &[16, 0, 0, 0]);
    assert_eq!(&dds[92..108], &[0, 0x0F, 0, 0, 0xF0, 0, 0, 0, 0x0F, 0, 0, 0, 0, 0xF0, 0, 0]);
    assert_eq!(&dds[128..], &[0x0F, 0xF0, 0x00, 0x0F]);
}

#[test]
fn itp_images_as_headerless_images() {
    let itp = Itp::new(ItpRevision::V3, cradle::itp::ImageData::Argb32(vec![Raster::new_with(1, 1, vec![0x11223344])]));
    assert_eq!(itp_to_ch(Mode::Argb8888, &itp), Ok(ImageData::Argb8888(Raster::new_with(1, 1, vec![0x11223344]))));
    assert_eq!(itp_to_ch(Mode::Argb4444, &itp), Ok(ImageData::Argb4444(Raster::new_with(1, 1, vec![0x1234]))));
    let itp = Itp::new(
        ItpRevision::V3,
        cradle::itp::ImageData::Indexed(Palette::Embedded(vec![0xFFFFFFFF]), vec![Raster::new_with(2, 1, vec![0, 1])]),
    );
    assert_eq!(itp_to_ch(Mode::Argb1555, &itp), Ok(ImageData::Argb1555(Raster::new_with(2, 1, vec![0xFFFF, 0]))));
    let itp = Itp::new(ItpRevision::V3, cradle::itp::ImageData::Bc1(vec![Raster::new_with(1, 1, vec![0])]));
    assert_eq!(itp_to_ch(Mode::Argb1555, &itp), Err(cradle::ch::ConvertError::UnsupportedInput));
    let itp = Itp::new(ItpRevision::V3, cradle::itp::ImageData::Argb32(vec![]));
    assert_eq!(itp_to_ch(Mode::Argb1555, &itp), Err(cradle::ch::ConvertError::UnsupportedInput));
}

#[test]
fn sprites_of_tiles() {
    // Two tiles; the first all of one colour, the second all of another.
    let mut ch = vec![2, 0];
    for _ in 0..256 {
        ch.extend([0x34, 0x12]);
    }
    for _ in 0..256 {
        ch.extend([0x00, 0xF0]);
    }
    // One frame: the second tile, then nothing, then the first tile for the rest.
    let mut cp = vec![1, 0, 1, 0, 0xFF, 0xFF];
    for _ in 2..256 {
        cp.extend([0, 0]);
    }
    let frames = cradle::chcp::read(&ch, &cp).unwrap();
    assert_eq!(frames.len(), 1);
    assert_eq!((frames[0].width(), frames[0].height()), (256, 256));
    let pixels = frames[0].as_slice();
    assert!(pixels[..256].iter().all(|p| *p == 0xFF000000));
    assert!(pixels[256..512].iter().all(|p| *p == 0));
    assert!(pixels[512..].iter().all(|p| *p == 0x11223344));

    cp[2] = 2;
    assert_eq!(cradle::chcp::read(&ch, &cp), Err(cradle::chcp::ReadError::InvalidTile));
    cp[2] = 1;
    cp.pop();
    assert_eq!(cradle::chcp::read(&ch, &cp), Err(cradle::chcp::ReadError::UnexpectedEnd));
    assert_eq!(cradle::chcp::read(&ch[..ch.len() - 1], &cp), Err(cradle::chcp::ReadError::UnexpectedEnd));
    assert_eq!(cradle::chcp::read(&[0, 0], &[0, 0]), Ok(vec![]));
    assert_eq!(cradle::chcp::read(&[], &[0, 0]), Err(cradle::chcp::ReadError::UnexpectedEnd));
}

fn dot(w: usize, h: usize, at: &[(usize, usize)]) -> Raster<u8> {
    let mut data = vec![0u8; w * h];
    for (x, y) in at {
        data[y * w + x] = 1;
    }
    Raster::new_with(w, h, data)
}

#[test]
fn bounds_of_what_is_not_background() {
    let sprite = dot(16, 8, &[(3, 2), (9, 5), (4, 4)]);
    assert!(is_not_blank(&sprite));
    assert_eq!(bounds(&sprite), (3, 9, 2, 5));
    assert_eq!(bounds(&dot(4, 4, &[(3, 3)])), (3, 3, 3, 3));
    assert!(!is_not_blank(&dot(4, 4, &[])));
    // The pixel in the corner is the background itself.
    assert_eq!(bounds(&dot(2, 2, &[(0, 0)])), (0, 1, 0, 1));
    assert!(!is_not_blank(&Raster::<u8>::new_with(0, 3, vec![])));
}

#[test]
fn powers_of_two() {
    assert_eq!(next_power_of_two(0), Some(1));
    assert_eq!(next_power_of_two(1), Some(1));
    assert_eq!(next_power_of_two(6), Some(8));
    assert_eq!(next_power_of_two(8), Some(8));
    assert_eq!(next_power_of_two(9), Some(16));
    assert_eq!(next_power_of_two(usize::MAX), None);
}

#[test]
fn cutting_the_border_off() {
    // Content in the columns 30 to 32 and the rows 30 to 31 of a sprite of 64 by 64.
    let sprite = dot(64, 64, &[(30, 30), (32, 31)]);
    let (part, shift) = do_crop(&sprite);
    // The columns from the first to the last and six more make eight; the rows make seven, so eight.
    assert_eq!((part.width(), part.height()), (8, 8));
    assert_eq!(shift, (1, 2));
    // The part starts at column 27 and row 26.
    assert_eq!(*part.get(30 - 27, 30 - 26), 1);
    assert_eq!(*part.get(32 - 27, 31 - 26), 1);
    assert_eq!(part.as_slice().iter().filter(|p| **p == 1).count(), 2);
    assert_eq!(try_crop(&sprite), Ok((part, shift)));
}

#[test]
fn sprite_as_wide_as_its_part_stays_centred() {
    let sprite = dot(8, 8, &[(1, 3), (2, 4)]);
    let (part, shift) = do_crop(&sprite);
    assert_eq!((part.width(), part.height()), (8, 8));
    assert_eq!(shift, (0, 0));
    assert_eq!(part, sprite);
}

#[test]
fn what_cannot_be_cut() {
    assert_eq!(try_crop(&dot(8, 8, &[])), Err(CropError::Blank));
    // The part around a pixel at the edge would reach outside.
    assert_eq!(try_crop(&dot(64, 64, &[(63, 63)])), Err(CropError::OutOfBounds));
    assert_eq!(try_crop(&dot(10, 10, &[(9, 5)])), Err(CropError::OutOfBounds));
    assert!(try_crop(&dot(10, 10, &[(5, 5)])).is_ok());
}

#[test]
fn putting_a_border_around() {
    let sprite = Raster::new_with(2, 1, vec![7u32, 9]);
    let padded = do_pad(&sprite, 0, 0, 4, 3);
    assert_eq!(padded.as_slice(), &[7, 7, 7, 7, 7, 7, 9, 7, 7, 7, 7, 7]);
    let shifted = do_pad(&sprite, 1, -1, 4, 3);
    assert_eq!(shifted.as_slice(), &[7, 7, 7, 7, 7, 7, 7, 7, 7, 9, 7, 7]);
    assert_eq!(try_pad(&sprite, 1, -1, 4, 3), Some(shifted));
    assert_eq!(try_pad(&sprite, 2, 0, 4, 3), None);
    assert_eq!(try_pad(&sprite, 0, 0, 1, 3), None);
    assert_eq!(try_pad(&sprite, -2, 0, 4, 3), None);
    assert_eq!(try_pad(&Raster::<u32>::new_with(0, 0, vec![]), 0, 0, 4, 3), None);
}

#[test]
fn images_of_one_frame_are_cut_and_padded() {
    let sprite = dot(64, 64, &[(30, 30), (32, 31)]);
    let png = Png::Indexed(vec![1, 2], vec![sprite.clone()]);
    let (cut, shift) = crop(png).unwrap();
    assert_eq!(shift, (1, 2));
    assert_eq!(cut.width(), 8);
    let back = pad(cut, shift.0, shift.1, 64, 64).unwrap();
    assert_eq!(back, Png::Indexed(vec![1, 2], vec![sprite.clone()]));

    let two = Png::Argb32(vec![Raster::new_with(1, 1, vec![0]), Raster::new_with(1, 1, vec![0])]);
    assert_eq!(crop(two.clone()), Ok((two.clone(), (0, 0))));
    assert_eq!(pad(two.clone(), 0, 0, 1, 1), Ok(two));
    assert_eq!(crop(Png::Indexed(vec![], vec![dot(4, 4, &[])])), Err(CropError::Blank));
    assert_eq!(pad(Png::Indexed(vec![], vec![sprite]), 0, 0, 8, 8), Err(CropError::OutOfBounds));
}
