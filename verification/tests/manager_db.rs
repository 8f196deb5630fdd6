use crypto_cta_manager::manager_db::{decode_seq_key, encode_seq_key, encode_ts_key, SeqKeyError};

#[test]
fn sequence_keys_stay_ordered_within_the_same_microsecond() {
    let first = encode_seq_key(1_700_000_000_000_001, 0).unwrap();
    let second = encode_seq_key(1_700_000_000_000_001, 1).unwrap();
    let later = encode_seq_key(1_700_000_000_000_002, 0).unwrap();
    assert!(first.as_slice() < second.as_slice());
    assert!(second.as_slice() < later.as_slice());
    assert_eq!(decode_seq_key(&second), Some((1_700_000_000_000_001, 1)));
}

#[test]
fn sequence_keys_require_positive_timestamps() {
    assert_eq!(encode_seq_key(0, 1), Err(SeqKeyError::NonPositiveTimestamp));
    assert_eq!(encode_seq_key(-5, 1), Err(SeqKeyError::NonPositiveTimestamp));
    assert_eq!(decode_seq_key(&[0u8; 11]), None);
}

#[test]
fn timestamp_keys_are_big_endian() {
    assert_eq!(encode_ts_key(1), [0, 0, 0, 0, 0, 0, 0, 1]);
    assert_eq!(encode_ts_key(0x0102_0304_0506_0708), [1, 2, 3, 4, 5, 6, 7, 8]);
    assert_eq!(encode_ts_key(-1), [0xff; 8]);
}

#[test]
fn sequence_key_roundtrip_keeps_large_values() {
    let key = encode_seq_key(i64::MAX, u32::MAX).unwrap();
    assert_eq!(decode_seq_key(&key), Some((i64::MAX, u32::MAX)));
}
