use cradle::ch::{guess_from_byte_size, guess_from_image_size, read, ImageData, Mode, ReadError};
use cradle::raster::Raster;

#[test]
fn pixels_are_stored_lowest_byte_first() {
    let bytes = [0x34, 0x12, 0x78, 0x56, 0xBC, 0x9A, 0xF0, 0xDE];
    assert_eq!(
        read(Mode::Argb1555, 2, &bytes),
        Ok(ImageData::Argb1555(Raster::new_with(2, 2, vec![0x1234, 0x5678, 0x9ABC, 0xDEF0])))
    );
    assert_eq!(
        read(Mode::Argb4444, 4, &bytes),
        Ok(ImageData::Argb4444(Raster::new_with(4, 1, vec![0x1234, 0x5678, 0x9ABC, 0xDEF0])))
    );
    assert_eq!(
        read(Mode::Argb8888, 1, &bytes),
        Ok(ImageData::Argb8888(Raster::new_with(1, 2, vec![0x56781234, 0xDEF09ABC])))
    );
    for mode in [Mode::Argb1555, Mode::Argb4444, Mode::Argb8888] {
        let img = read(mode, 1, &bytes).unwrap();
        assert_eq!(cradle::ch::write(&img), bytes.to_vec());
    }
}

#[test]
fn bytes_must_be_whole_rows() {
    assert_eq!(read(Mode::Argb8888, 0, &[1, 2, 3, 4]), Err(ReadError::InvalidWidth));
    assert_eq!(read(Mode::Argb8888, 0, &[]), Err(ReadError::InvalidWidth));
    assert_eq!(read(Mode::Argb8888, 2, &[1, 2, 3, 4]), Err(ReadError::InvalidSize));
    assert_eq!(read(Mode::Argb1555, 1, &[1, 2, 3]), Err(ReadError::InvalidSize));
    assert_eq!(read(Mode::Argb1555, usize::MAX, &[1, 2]), Err(ReadError::InvalidSize));
    assert_eq!(read(Mode::Argb1555, 3, &[]), Ok(ImageData::Argb1555(Raster::new_with(3, 0, vec![]))));
}

#[test]
fn bytes_of_a_pixel() {
    assert_eq!(Mode::Argb1555.bytes_per(), 2);
    assert_eq!(Mode::Argb4444.bytes_per(), 2);
    assert_eq!(Mode::Argb8888.bytes_per(), 4);
}

#[test]
fn known_images_by_their_bytes() {
    assert_eq!(guess_from_byte_size("c_ka0001._ch", 128 * 128 * 2), Some((Mode::Argb1555, 128, 128)));
    assert_eq!(guess_from_byte_size("h_stch01._ch", 1024 * 1024 * 4), Some((Mode::Argb8888, 1024, 1024)));
    // Two lines share a start; the size tells them apart.
    assert_eq!(guess_from_byte_size("ca12345._ch", 128 * 128 * 2), Some((Mode::Argb1555, 128, 128)));
    assert_eq!(guess_from_byte_size("ca12345._ch", 256 * 256 * 2), Some((Mode::Argb1555, 256, 256)));
    // The longer start comes first.
    assert_eq!(guess_from_byte_size("c_vis419._ch", 768 * 512 * 2), Some((Mode::Argb4444, 768, 512)));
    assert_eq!(guess_from_byte_size("c_vis001._ch", 768 * 512 * 2), Some((Mode::Argb1555, 768, 512)));
    // The last lines fit every name.
    assert_eq!(guess_from_byte_size("whatever", 512 * 512 * 2), Some((Mode::Argb4444, 512, 512)));
    assert_eq!(guess_from_byte_size("", 256 * 256 * 2), Some((Mode::Argb4444, 256, 256)));
    assert_eq!(guess_from_byte_size("whatever", 12345), None);
    assert_eq!(guess_from_byte_size("c_ka0001._ch", 128 * 128 * 4), None);
}

#[test]
fn known_images_by_their_size() {
    assert_eq!(guess_from_image_size("c_ka0001", 128, 128), Some(Mode::Argb1555));
    assert_eq!(guess_from_image_size("c_ka0001", 256, 256), Some(Mode::Argb4444));
    assert_eq!(guess_from_image_size("h_map01", 2048, 1024), Some(Mode::Argb4444));
    assert_eq!(guess_from_image_size("c_map012", 1024, 512), Some(Mode::Argb1555));
    assert_eq!(guess_from_image_size("c_map01", 1024, 512), Some(Mode::Argb4444));
    assert_eq!(guess_from_image_size("x", 1024, 1024), Some(Mode::Argb4444));
    assert_eq!(guess_from_image_size("x", 100, 100), None);
}
