use crypto_cta_manager::model::{
    decode_order_update, decode_trade_update, decode_uniform_order, order_type_name, side_name,
    status_name, venue_name, ModelError, RecordKind, SIGNAL_BBO_BINARY_LEN,
};

fn push_leg(out: &mut Vec<u8>, venue: u8, ts: i64, prices: [f64; 4]) {
    out.push(venue);
    out.extend_from_slice(&ts.to_le_bytes());
    for value in prices {
        out.extend_from_slice(&value.to_le_bytes());
    }
}

fn fixture() -> Vec<u8> {
    let mut out = Vec::new();
    out.extend_from_slice(&1_000_i64.to_le_bytes());
    out.extend_from_slice(&7_u16.to_le_bytes());
    out.extend_from_slice(b"BTCUSDT");
    for value in [10_i64, 11, 12, 13, 14, 15, 16] {
        out.extend_from_slice(&value.to_le_bytes());
    }
    out.extend_from_slice(&[1, 1, 2]);
    for value in [100.0_f64, 0.1, 2.0, 0.5] {
        out.extend_from_slice(&value.to_le_bytes());
    }
    out.push(3);
    out.extend_from_slice(&4_u32.to_le_bytes());
    out.extend_from_slice(b"open");
    out.extend_from_slice(&3_u16.to_le_bytes());
    out.extend_from_slice(b"bbo");
    out.push(0b11);
    push_leg(&mut out, 1, 20, [99.0, 1.0, 100.0, 2.0]);
    push_leg(&mut out, 0, 21, [98.0, 3.0, 101.0, 4.0]);
    out
}

#[test]
fn decodes_v2_uniform_order_with_bbo() {
    let event = decode_uniform_order(b"00000000000000001000", &fixture()).unwrap();
    assert_eq!(event.event_ts_us, 1_000);
    assert_eq!(event.symbol, "BTCUSDT");
    assert_eq!(event.client_order_id, 16);
    assert_eq!(event.venue, "BinanceFutures");
    assert_eq!(event.side, "SELL");
    assert_eq!(event.status, "FILLED");
    assert_eq!(event.from_key, b"open");
    assert_eq!(event.bbo_spread, "bbo");
    assert_eq!(f64::from_bits(event.signal_open.unwrap().bid_price_bits), 99.0);
    assert_eq!(f64::from_bits(event.signal_hedge.unwrap().ask_quantity_bits), 4.0);
}

#[test]
fn rejects_non_timestamp_key() {
    let error = decode_uniform_order(b"bad", &fixture()).unwrap_err();
    assert!(error.message().contains("20-digit"));
}

#[test]
fn decodes_historical_record_without_optional_bbo_tail() {
    let mut payload = fixture();
    payload.truncate(payload.len() - (2 + 3 + SIGNAL_BBO_BINARY_LEN));
    let event = decode_uniform_order(b"00000000000000001000", &payload).unwrap();
    assert_eq!(event.from_key, b"open");
    assert!(event.bbo_spread.is_empty());
    assert!(event.signal_open.is_none());
    assert!(event.signal_hedge.is_none());
}

#[test]
fn uniform_order_keeps_every_fixed_field() {
    let payload = fixture();
    let event = decode_uniform_order(b"00000000000000001000", &payload).unwrap();
    assert_eq!(event.record_key, "00000000000000001000");
    assert_eq!(event.recv_ts_us, 1_000);
    assert_eq!(
        [
            event.create_ts_us,
            event.update_ts_us,
            event.signal_ts_us,
            event.submit_ts_us,
            event.local_ts_us,
            event.market_ts_us
        ],
        [10, 11, 12, 13, 14, 15]
    );
    assert_eq!(event.venue_code, 1);
    assert_eq!(event.order_type, "LIMIT");
    assert_eq!(f64::from_bits(event.price_bits), 100.0);
    assert_eq!(f64::from_bits(event.price_offset_bits), 0.1);
    assert_eq!(f64::from_bits(event.amount_initial_bits), 2.0);
    assert_eq!(f64::from_bits(event.amount_update_bits), 0.5);
    assert_eq!(event.from_key_text, "open");
    assert_eq!(event.signal_open.unwrap().ts_us, 20);
    assert_eq!(event.signal_hedge.unwrap().venue_code, 0);
    assert_eq!(event.wire_payload, payload);
}

#[test]
fn uniform_order_rejects_key_errors_by_kind() {
    let payload = fixture();
    assert_eq!(
        decode_uniform_order(&[0xff, 0xfe], &payload).unwrap_err(),
        ModelError::KeyNotUtf8 { kind: RecordKind::UniformOrder }
    );
    assert_eq!(
        decode_uniform_order(b"0000000000000000100a", &payload).unwrap_err(),
        ModelError::KeyNotTimestamp { kind: RecordKind::UniformOrder }
    );
    assert_eq!(
        decode_uniform_order(b"99999999999999999999", &payload).unwrap_err(),
        ModelError::KeyExceedsI64 { kind: RecordKind::UniformOrder }
    );
    assert_eq!(
        decode_uniform_order(b"09223372036854775807", &payload).unwrap().event_ts_us,
        i64::MAX
    );
}

#[test]
fn uniform_order_rejects_bad_tails() {
    let mut payload = fixture();
    payload.push(0);
    assert_eq!(
        decode_uniform_order(b"00000000000000001000", &payload).unwrap_err(),
        ModelError::SignalBboLength { remaining: 84 }
    );
    let mut payload = fixture();
    let mask_at = payload.len() - SIGNAL_BBO_BINARY_LEN;
    payload[mask_at] = 4;
    assert_eq!(
        decode_uniform_order(b"00000000000000001000", &payload).unwrap_err(),
        ModelError::InvalidSignalMask { mask: 4 }
    );
    let payload = fixture();
    assert!(matches!(
        decode_uniform_order(b"00000000000000001000", &payload[..40]).unwrap_err(),
        ModelError::TooShort { .. }
    ));
}

#[test]
fn uniform_order_mask_selects_legs() {
    let mut payload = fixture();
    let mask_at = payload.len() - SIGNAL_BBO_BINARY_LEN;
    payload[mask_at] = 0b10;
    let event = decode_uniform_order(b"00000000000000001000", &payload).unwrap();
    assert!(event.signal_open.is_none());
    assert_eq!(f64::from_bits(event.signal_hedge.unwrap().bid_price_bits), 98.0);
}

fn trade_payload(status: Option<u8>) -> Vec<u8> {
    let mut out = Vec::new();
    for v in [5_i64, 6, 7] {
        out.extend_from_slice(&v.to_le_bytes());
    }
    out.extend_from_slice(&3_u32.to_le_bytes());
    out.extend_from_slice(b"ETH");
    out.extend_from_slice(&42_i64.to_le_bytes());
    out.extend_from_slice(&43_i64.to_le_bytes());
    out.push(1);
    out.extend_from_slice(&2500.5_f64.to_le_bytes());
    out.push(1);
    out.push(3);
    out.extend_from_slice(&0.25_f64.to_le_bytes());
    match status {
        None => out.push(0),
        Some(s) => {
            out.push(1);
            out.push(s);
        }
    }
    out
}

#[test]
fn decodes_trade_updates_with_and_without_status() {
    let event = decode_trade_update(b"00000000000000000077", &trade_payload(Some(3))).unwrap();
    assert_eq!(event.record_ts_us, 77);
    assert_eq!(event.recv_ts_us, 5);
    assert_eq!(event.trade_ts_us, 7);
    assert_eq!(event.symbol, "ETH");
    assert_eq!(event.order_id, 42);
    assert_eq!(event.client_order_id, 43);
    assert_eq!(f64::from_bits(event.price_bits), 2500.5);
    assert!(event.is_maker);
    assert_eq!(event.venue_code, 3);
    assert_eq!(f64::from_bits(event.cumulative_filled_quantity_bits), 0.25);
    assert_eq!(event.status_code, Some(3));
    let event = decode_trade_update(b"00000000000000000077", &trade_payload(None)).unwrap();
    assert_eq!(event.status_code, None);
}

#[test]
fn trade_update_rejects_bad_flag_and_trailing_bytes() {
    let mut payload = trade_payload(None);
    let last = payload.len() - 1;
    payload[last] = 2;
    assert_eq!(
        decode_trade_update(b"00000000000000000077", &payload).unwrap_err(),
        ModelError::InvalidStatusFlag { value: 2 }
    );
    let mut payload = trade_payload(None);
    payload.push(9);
    assert_eq!(
        decode_trade_update(b"00000000000000000077", &payload).unwrap_err(),
        ModelError::TrailingBytes { kind: RecordKind::TradeUpdate, remaining: 1 }
    );
}

fn order_payload(client_text: Option<&str>) -> Vec<u8> {
    let mut out = Vec::new();
    out.extend_from_slice(&1_i64.to_le_bytes());
    out.extend_from_slice(&2_i64.to_le_bytes());
    out.extend_from_slice(&4_u32.to_le_bytes());
    out.extend_from_slice(b"SOLX");
    out.extend_from_slice(&9_i64.to_le_bytes());
    out.extend_from_slice(&10_i64.to_le_bytes());
    match client_text {
        None => out.push(0),
        Some(t) => {
            out.push(1);
            out.extend_from_slice(&(t.len() as u32).to_le_bytes());
            out.extend_from_slice(t.as_bytes());
        }
    }
    out.extend_from_slice(&[2, 1, 3]);
    for v in [12.5_f64, 4.0, 1.0] {
        out.extend_from_slice(&v.to_le_bytes());
    }
    out.push(2);
    out.extend_from_slice(&16_u32.to_le_bytes());
    out.extend_from_slice(b"PARTIALLY_FILLED");
    out.push(4);
    out.extend_from_slice(&5_u32.to_le_bytes());
    out.extend_from_slice(b"TRADE");
    out.push(1);
    out
}

#[test]
fn decodes_order_updates_with_optional_client_text() {
    let event = decode_order_update(b"00000000000000000005", &order_payload(Some("abc"))).unwrap();
    assert_eq!(event.record_ts_us, 5);
    assert_eq!(event.symbol, "SOLX");
    assert_eq!(event.client_order_id_text.as_deref(), Some("abc"));
    assert_eq!(event.side_code, 2);
    assert_eq!(event.time_in_force_code, 3);
    assert_eq!(f64::from_bits(event.price_bits), 12.5);
    assert_eq!(f64::from_bits(event.quantity_bits), 4.0);
    assert_eq!(event.status_code, 2);
    assert_eq!(event.raw_status, "PARTIALLY_FILLED");
    assert_eq!(event.execution_type_code, 4);
    assert_eq!(event.raw_execution_type, "TRADE");
    assert_eq!(event.venue_code, 1);
    let event = decode_order_update(b"00000000000000000005", &order_payload(None)).unwrap();
    assert!(event.client_order_id_text.is_none());
}

#[test]
fn order_update_rejects_invalid_present_flag() {
    let mut payload = order_payload(None);
    payload[40] = 7;
    assert_eq!(
        decode_order_update(b"00000000000000000005", &payload).unwrap_err(),
        ModelError::InvalidPresentFlag { field: "client_order_id_str", value: 7 }
    );
}

#[test]
fn code_names_cover_known_and_unknown_codes() {
    assert_eq!(venue_name(0), "BinanceMargin");
    assert_eq!(venue_name(13), "HyperliquidFutures");
    assert_eq!(venue_name(200), "UNKNOWN(200)");
    assert_eq!(order_type_name(9), "TAKE_PROFIT_MARKET");
    assert_eq!(order_type_name(2), "UNKNOWN(2)");
    assert_eq!(side_name(1), "BUY");
    assert_eq!(side_name(0), "UNKNOWN(0)");
    assert_eq!(status_name(6), "EXPIRED_IN_MATCH");
    assert_eq!(status_name(7), "UNKNOWN(7)");
}

#[test]
fn lossy_text_replaces_invalid_utf8_in_symbols() {
    let mut payload = fixture();
    payload[10] = 0xff;
    let event = decode_uniform_order(b"00000000000000001000", &payload).unwrap();
    assert_eq!(event.symbol, "\u{fffd}TCUSDT");
}

#[test]
fn key_error_text_quotes_a_non_timestamp_key() {
    let payload = fixture();
    let key = b"0000000000000000100a";
    let err = decode_uniform_order(key, &payload).unwrap_err();
    assert_eq!(
        err.message_at(key),
        "uniform order key is not a 20-digit timestamp: \"0000000000000000100a\""
    );
    let other = ModelError::KeyExceedsI64 { kind: RecordKind::UniformOrder };
    assert_eq!(other.message_at(b"99999999999999999999"), other.message());
}
