use hatch_blink_search::cache_format::{
    cache_file_size, decode_values, encode_values, header_matches, observation_cache_header,
    OBSERVATION_CACHE_HEADER_SIZE,
};

#[test]
fn the_header_is_magic_version_seed_and_count_little_endian() {
    let header = observation_cache_header(0xB63523CA, 5_001);
    let mut expected = b"HBSFMT\0\0".to_vec();
    expected.extend_from_slice(&1u32.to_le_bytes());
    expected.extend_from_slice(&0xB63523CAu32.to_le_bytes());
    expected.extend_from_slice(&5_001u64.to_le_bytes());
    assert_eq!(header, expected);
    assert_eq!(header.len() as u64, OBSERVATION_CACHE_HEADER_SIZE);
}

#[test]
fn a_header_is_accepted_only_for_its_own_seed_and_count() {
    let header = observation_cache_header(7, 100);
    assert!(header_matches(&header, 7, 100));
    assert!(!header_matches(&header, 8, 100));
    assert!(!header_matches(&header, 7, 101));
    assert!(!header_matches(&header[..23], 7, 100));
    let mut wrong_version = header.clone();
    wrong_version[8] = 2;
    assert!(!header_matches(&wrong_version, 7, 100));
}

#[test]
fn values_round_trip_through_their_bytes() {
    let values = vec![0u64, 1, 0x0123_4567_89AB_CDEF, u64::MAX];
    let bytes = encode_values(&values);
    let mut expected = Vec::new();
    for v in &values {
        expected.extend_from_slice(&v.to_le_bytes());
    }
    assert_eq!(bytes, expected);
    assert_eq!(decode_values(&bytes), values);
    assert_eq!(decode_values(&bytes[..15]), vec![0]);
}

#[test]
fn the_file_size_counts_the_header_and_eight_bytes_per_value() {
    assert_eq!(cache_file_size(0), Some(24));
    assert_eq!(cache_file_size(5_001), Some(24 + 8 * 5_001));
    assert_eq!(cache_file_size(u64::MAX / 8), None);
}
