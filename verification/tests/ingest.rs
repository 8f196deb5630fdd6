use crypto_cta_manager::ingest::{
    decode_batch, plan_scan, saturating_sub_i64, seconds_to_micros, IngestError, RawRecord,
    ScanWindow,
};

#[test]
fn duration_conversion_is_checked() {
    assert_eq!(seconds_to_micros(60).unwrap(), 60_000_000);
    assert!(seconds_to_micros(u64::MAX).is_err());
}

#[test]
fn duration_errors_distinguish_u64_and_i64_overflow() {
    assert_eq!(seconds_to_micros(u64::MAX), Err(IngestError::MicrosOverflowU64));
    assert_eq!(seconds_to_micros(10_000_000_000_000), Err(IngestError::MicrosExceedI64));
    assert_eq!(seconds_to_micros(9_223_372_036_854), Ok(9_223_372_036_854_000_000));
}

#[test]
fn scan_window_starts_at_checkpoint_less_overlap() {
    let w = plan_scan(Some(1_000_000_000), None, 2_000_000_000, 5, 300).unwrap();
    assert_eq!(
        w,
        ScanWindow {
            next_ts_us: 1_000_000_000,
            scan_start_ts_us: 700_000_000,
            scan_end_ts_us: 1_995_000_000,
            idle: false
        }
    );
}

#[test]
fn scan_window_is_idle_until_the_lag_passes() {
    let w = plan_scan(Some(1_000), Some(5_000), 5_100, 1, 300).unwrap();
    assert!(w.idle);
    assert_eq!(w.next_ts_us, 5_000);
    assert_eq!(w.scan_end_ts_us, -994_900);
}

#[test]
fn scan_window_never_starts_before_the_configured_start() {
    let w = plan_scan(None, Some(100), 10_000_000_000, 0, 300).unwrap();
    assert_eq!(w.scan_start_ts_us, 100);
    assert!(!w.idle);
}

#[test]
fn saturating_subtraction_clamps() {
    assert_eq!(saturating_sub_i64(i64::MIN, 1), i64::MIN);
    assert_eq!(saturating_sub_i64(i64::MAX, -1), i64::MAX);
    assert_eq!(saturating_sub_i64(5, 7), -2);
}

#[test]
fn batch_decoding_separates_failures() {
    let mut payload = Vec::new();
    payload.extend_from_slice(&1_i64.to_le_bytes());
    payload.extend_from_slice(&0_u16.to_le_bytes());
    for v in [0_i64; 7] {
        payload.extend_from_slice(&v.to_le_bytes());
    }
    payload.extend_from_slice(&[0, 0, 0]);
    for v in [0.0_f64; 4] {
        payload.extend_from_slice(&v.to_le_bytes());
    }
    payload.push(0);
    payload.extend_from_slice(&0_u32.to_le_bytes());
    let records = vec![
        RawRecord { key: b"00000000000000000001".to_vec(), value: payload.clone() },
        RawRecord { key: b"bad".to_vec(), value: payload.clone() },
    ];
    let (events, failures) = decode_batch(records);
    assert_eq!(events.len(), 1);
    assert_eq!(events[0].event_ts_us, 1);
    assert_eq!(failures.len(), 1);
    assert_eq!(failures[0].record_key, b"bad".to_vec());
    assert!(failures[0].error.contains("20-digit"));
}
