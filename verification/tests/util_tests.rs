use dht::hash::hash_md5;
use dht::ring::is_in_wraparound_range;

#[test]
fn test_is_in_wraparound_range() {
    // No wrap around
    assert_eq!(is_in_wraparound_range(1, 10, 8, 12, true, true), true);
    assert_eq!(is_in_wraparound_range(1, 10, 10, 12, true, false), false);
    assert_eq!(is_in_wraparound_range(1, 10, 11, 12, true, true), false);

    // Wrap around
    assert_eq!(is_in_wraparound_range(10, 3, 11, 12, true, true), true);
    assert_eq!(is_in_wraparound_range(10, 3, 0, 12, true, true), true);
    assert_eq!(is_in_wraparound_range(10, 3, 2, 12, true, true), true);
    assert_eq!(is_in_wraparound_range(10, 3, 5, 12, true, true), false);

    // Boundary cases
    assert_eq!(is_in_wraparound_range(5, 10, 5, 12, true, true), true);
    assert_eq!(is_in_wraparound_range(5, 10, 5, 12, false, true), false);
    assert_eq!(is_in_wraparound_range(5, 10, 10, 12, true, true), true);
    assert_eq!(is_in_wraparound_range(5, 10, 10, 12, true, false), false);
}

#[test]
fn test_is_in_wraparound_range_empty_open_arc() {
    // An arc from a point to itself holds only that point, and only
    // when the left end is inclusive.
    assert_eq!(is_in_wraparound_range(4, 4, 4, 12, true, false), true);
    assert_eq!(is_in_wraparound_range(4, 4, 4, 12, false, true), false);
    assert_eq!(is_in_wraparound_range(4, 4, 7, 12, true, true), false);
}

#[test]
fn test_hash_md5() {
    let expected_hash: Vec<u8> = vec![
        0x2b, 0xd8, 0xf6, 0xbc, 0xb0, 0xf4, 0xbc, 0x5d, 0xd2, 0xd1, 0xa4, 0x84, 0x43, 0x44,
        0xf1, 0x1d,
    ];
    let actual_hash = hash_md5(&b"Pineapple belongs on pizza".to_vec());
    assert_eq!(actual_hash.len(), 16);
    assert_eq!(actual_hash, expected_hash);
}

#[test]
fn test_position_is_on_the_ring() {
    // Positions are always below 2^m.
    for m in [1u32, 4, 8, 16, 32] {
        let pos = dht::hash::position_of(&b"127.0.0.1:8080".to_vec(), m);
        if m < 32 {
            assert!((pos as u64) < (1u64 << m));
        }
    }
    // On a ring of two positions only 0 and 1 exist.
    let p = dht::hash::position_of(&b"anything".to_vec(), 1);
    assert!(p == 0 || p == 1);
}
