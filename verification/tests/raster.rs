use cradle::raster::Raster;

#[test]
fn new_fills_with_the_default() {
    let r: Raster<u32> = Raster::new(3, 2);
    assert_eq!(r.width(), 3);
    assert_eq!(r.height(), 2);
    assert_eq!(r.as_slice(), &[0, 0, 0, 0, 0, 0]);
}

#[test]
fn splat_fills_with_the_value() {
    let r = Raster::splat(2, 2, 7u8);
    assert_eq!(r.as_slice(), &[7, 7, 7, 7]);
}

#[test]
fn new_with_keeps_the_buffer() {
    let r = Raster::new_with(2, 3, vec![1u16, 2, 3, 4, 5, 6]);
    assert_eq!(r.width(), 2);
    assert_eq!(r.height(), 3);
    assert_eq!(*r.get(1, 0), 2);
    assert_eq!(*r.get(0, 1), 3);
    assert_eq!(*r.get(1, 2), 6);
}

#[test]
fn empty_raster() {
    let r: Raster<u8> = Raster::new(0, 5);
    assert_eq!(r.as_slice().len(), 0);
    assert_eq!(r.height(), 5);
}

#[test]
fn map_keeps_the_shape() {
    let r = Raster::new_with(2, 2, vec![1u8, 2, 3, 4]);
    let doubled = r.map(|p| *p as u32 * 2);
    assert_eq!(doubled.width(), 2);
    assert_eq!(doubled.height(), 2);
    assert_eq!(doubled.as_slice(), &[2, 4, 6, 8]);
}

#[test]
fn clone_is_equal() {
    let r = Raster::new_with(1, 2, vec![9u64, 8]);
    assert_eq!(r.clone(), r);
    assert_ne!(r, Raster::new_with(2, 1, vec![9u64, 8]));
}
