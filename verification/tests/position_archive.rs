use crypto_cta_manager::manager_db::{decode_seq_key, encode_seq_key};
use crypto_cta_manager::position_archive::{
    AppendError, ArchiveSequence, POSITION_UPDATE_MSG_TYPE, POSITION_UPDATE_SCHEMA_VERSION,
};

#[test]
fn continues_sequence_after_reopen() {
    let mut first = ArchiveSequence::opened(None);
    let seq = first.next(1_700_000_000_000_001).unwrap();
    assert_eq!(seq, 0);
    let stored = encode_seq_key(1_700_000_000_000_001, seq).unwrap();

    // Reopening reads the latest stored key back.
    let mut archive = ArchiveSequence::opened(decode_seq_key(&stored));
    let same_tick = archive.next(1_700_000_000_000_001).unwrap();
    let later = archive.next(1_700_000_000_000_002).unwrap();
    assert_eq!(same_tick, 1);
    assert_eq!(later, 0);
}

#[test]
fn archive_keys_grow_and_refuse_non_positive_times() {
    let mut archive = ArchiveSequence::opened(None);
    let a = archive.next(5).unwrap();
    let b = archive.next(5).unwrap();
    let c = archive.next(6).unwrap();
    let ka = encode_seq_key(5, a).unwrap();
    let kb = encode_seq_key(5, b).unwrap();
    let kc = encode_seq_key(6, c).unwrap();
    assert!(ka < kb && kb < kc);
    assert_eq!(archive.next(0), Err(AppendError::NonPositiveTimestamp));
    assert_eq!(archive.last_received_at_us, 6);
    assert_eq!(
        AppendError::NonPositiveTimestamp.message(),
        "position update received_at_us must be positive"
    );
    assert_eq!(POSITION_UPDATE_MSG_TYPE, "position_update");
    assert_eq!(POSITION_UPDATE_SCHEMA_VERSION, 4);
}

#[test]
fn sequence_saturates_within_one_microsecond() {
    let mut archive = ArchiveSequence::opened(Some((9, u32::MAX)));
    assert_eq!(archive.next(9), Ok(u32::MAX));
}
