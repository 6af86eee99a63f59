use prune::bytes::{bytes_equal, first_32, slice_to_vec, u64_from_le_bytes, u64_to_le_bytes};

#[test]
fn numbers_as_little_endian_bytes() {
    assert_eq!(u64_to_le_bytes(0x0102_0304_0506_0708), vec![8, 7, 6, 5, 4, 3, 2, 1]);
    assert_eq!(u64_from_le_bytes(&[8, 7, 6, 5, 4, 3, 2, 1]), 0x0102_0304_0506_0708);
    assert_eq!(u64_from_le_bytes(&u64_to_le_bytes(u64::MAX)), u64::MAX);
}

#[test]
fn parts_of_byte_strings() {
    assert_eq!(slice_to_vec(&[1, 2, 3, 4], 1, 3), vec![2, 3]);
    let mut long = vec![7u8; 40];
    long[32] = 9;
    assert_eq!(first_32(&long), [7; 32]);
    assert!(bytes_equal(&[1, 2], &[1, 2]));
    assert!(!bytes_equal(&[1, 2], &[1, 3]));
    assert!(!bytes_equal(&[1, 2], &[1, 2, 3]));
}
