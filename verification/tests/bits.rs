use netfault::bits::{bit_differs, invert_bit, nth_matching_bit};

#[test]
fn bits_count_from_the_low_end() {
    let original = vec![0u8; 3];
    let mut out = original.clone();
    invert_bit(&mut out, 9);
    assert_eq!(out, vec![0, 0b10, 0]);
    assert!(bit_differs(&original, &out, 9));
    assert!(!bit_differs(&original, &out, 8));
}

#[test]
fn inverting_twice_restores_the_bytes() {
    let original = vec![0b1010_0101u8];
    let mut out = original.clone();
    invert_bit(&mut out, 3);
    assert_eq!(out, vec![0b1010_1101]);
    invert_bit(&mut out, 3);
    assert_eq!(out, original);
}

#[test]
fn matching_bits_are_numbered_from_below() {
    let original = vec![0xFFu8; 2];
    let out = vec![0b1111_1010u8, 0b0111_1111];
    // Bits 0, 2 and 15 differ.
    let matching = [1, 3, 4, 5, 6, 7, 8, 9, 10, 11, 12, 13, 14];
    for (rank, p) in matching.iter().enumerate() {
        assert_eq!(nth_matching_bit(&original, &out, rank, 16), *p);
    }
}

#[test]
fn matching_bits_are_found_in_long_strings() {
    let original: Vec<u8> = (0..64).map(|i| (i * 37) as u8).collect();
    let out: Vec<u8> = (0..64).map(|i| (i * 91 + 5) as u8).collect();
    let limit = 64 * 8 - 3;
    let matching: Vec<usize> =
        (0..limit).filter(|p| !bit_differs(&original, &out, *p)).collect();
    for (rank, p) in matching.iter().enumerate() {
        assert_eq!(nth_matching_bit(&original, &out, rank, limit), *p);
    }
}
