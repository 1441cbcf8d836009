use cradle::permute::{
    apply_permutation, iter_morton, iter_swizzle, morton, permute, swizzle, unmorton, unpermute, unswizzle,
};

#[test]
fn test_morton_wide() {
    let mut mort = iter_morton(4, 16);
    mort.sort();
    let sort = (0..mort.len()).collect::<Vec<_>>();
    assert_eq!(mort, sort);
}

#[test]
fn test_morton_tall() {
    let mut mort = iter_morton(16, 4);
    mort.sort();
    let sort = (0..mort.len()).collect::<Vec<_>>();
    assert_eq!(mort, sort);
}

#[test]
fn morton_of_two_by_two() {
    assert_eq!(iter_morton(2, 2), vec![0, 2, 1, 3]);
}

#[test]
fn morton_of_one_pixel() {
    assert_eq!(iter_morton(1, 1), vec![0]);
}

#[test]
fn morton_gives_high_bits_to_the_longer_side() {
    // Two rows of eight: the lowest bit chooses the row, the others the column.
    assert_eq!(iter_morton(2, 8), vec![0, 8, 1, 9, 2, 10, 3, 11, 4, 12, 5, 13, 6, 14, 7, 15]);
}

#[test]
fn swizzle_indices_exchange_the_middle_axes() {
    assert_eq!(iter_swizzle(1, 2, 2, 1), vec![0, 2, 1, 3]);
    assert_eq!(iter_swizzle(2, 2, 2, 2), vec![0, 1, 4, 5, 2, 3, 6, 7, 8, 9, 12, 13, 10, 11, 14, 15]);
}

#[test]
fn swizzle_indices_of_an_empty_array() {
    assert_eq!(iter_swizzle(0, 3, 4, 5), Vec::<usize>::new());
    assert_eq!(iter_swizzle(3, 4, 0, 5), Vec::<usize>::new());
}

#[test]
fn swizzle_gathers_tiles() {
    let mut data: Vec<u32> = (0..16).collect();
    swizzle(&mut data, 4, 4, 2, 2);
    assert_eq!(data, vec![0, 1, 4, 5, 2, 3, 6, 7, 8, 9, 12, 13, 10, 11, 14, 15]);
}

#[test]
fn unswizzle_undoes_swizzle() {
    let before: Vec<u16> = (0..8 * 12).map(|i| (i * 7 + 3) as u16).collect();
    let mut data = before.clone();
    swizzle(&mut data, 8, 12, 4, 3);
    assert_ne!(data, before);
    unswizzle(&mut data, 8, 12, 4, 3);
    assert_eq!(data, before);
}

#[test]
fn swizzle_undoes_unswizzle() {
    let before: Vec<u8> = (0..64).collect();
    let mut data = before.clone();
    unswizzle(&mut data, 8, 8, 2, 4);
    swizzle(&mut data, 8, 8, 2, 4);
    assert_eq!(data, before);
}

#[test]
fn morton_follows_the_curve() {
    let mut data: Vec<u8> = vec![10, 11, 12, 13];
    morton(&mut data, 2, 2);
    assert_eq!(data, vec![10, 12, 11, 13]);
}

#[test]
fn unmorton_undoes_morton() {
    let before: Vec<u32> = (0..4 * 32).map(|i| i * i).collect();
    let mut data = before.clone();
    morton(&mut data, 4, 32);
    assert_ne!(data, before);
    unmorton(&mut data, 4, 32);
    assert_eq!(data, before);
}

#[test]
fn morton_undoes_unmorton() {
    let before: Vec<u32> = (0..16 * 2).collect();
    let mut data = before.clone();
    unmorton(&mut data, 16, 2);
    morton(&mut data, 16, 2);
    assert_eq!(data, before);
}

#[test]
fn permute_gathers_and_unpermute_scatters() {
    let perm = vec![2usize, 0, 3, 1];
    let mut data = vec!['a', 'b', 'c', 'd'];
    permute(&mut data, &perm);
    assert_eq!(data, vec!['c', 'a', 'd', 'b']);
    unpermute(&mut data, &perm);
    assert_eq!(data, vec!['a', 'b', 'c', 'd']);
}

#[test]
fn apply_permutation_moves_pairs() {
    let mut data = vec![1u8, 2, 3, 4];
    apply_permutation(&mut data, &vec![(0, 3), (3, 0)]);
    assert_eq!(data, vec![4, 2, 3, 1]);
}
