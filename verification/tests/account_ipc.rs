use crypto_cta_manager::account_ipc::{
    encode_wallet_event, parse_okx_unified_risk, parse_wallet_asset, parse_wallet_snapshot,
    SourceLiveState, WalletAssetAccumulator, ACCOUNT_RISK_TYPE, EVENT_HEADER_LEN,
    LIVE_EQUITY_SOURCE, OKEX_UNIFIED_SCOPE,
};

/// Equity, wallet balance, unrealized PnL and available balance of the
/// accumulated rows, as the live equity reading adds them up.
fn totals(acc: &WalletAssetAccumulator) -> (f64, f64, f64, f64) {
    let mut wallet = 0.0;
    let mut pnl = 0.0;
    let mut available = 0.0;
    for row in &acc.assets {
        wallet += f64::from_bits(row.wallet_balance_bits);
        pnl += f64::from_bits(row.unrealized_pnl_bits);
        available += f64::from_bits(row.available_balance_bits);
    }
    (wallet + pnl, wallet, pnl, available)
}

fn wallet_event(ts: i64, upd: i64, asset: &str, amounts: [f64; 5]) -> Vec<u8> {
    encode_wallet_event(
        ts,
        upd,
        asset,
        true,
        amounts[0].to_bits(),
        amounts[1].to_bits(),
        amounts[2].to_bits(),
        amounts[3].to_bits(),
        amounts[4].to_bits(),
    )
}

#[test]
fn decodes_standard_um_wallet_equity() {
    let payload = wallet_event(
        1_700_000_000_000,
        1_700_000_000_100,
        "USDT",
        [12_000.0, 11_500.0, 250.5, 9_000.0, 8_000.0],
    );
    let row = parse_wallet_asset(&payload).expect("wallet snapshot");
    let mut acc = WalletAssetAccumulator::default();
    assert!(acc.update(row));
    let (equity, wallet, pnl, _) = totals(&acc);
    assert_eq!(LIVE_EQUITY_SOURCE, "binance_std_um_stable_wallets");
    assert!((equity - 11_750.5).abs() < 1e-9);
    assert!((wallet - 11_500.0).abs() < 1e-9);
    assert!((pnl - 250.5).abs() < 1e-9);
    assert_eq!(acc.ts_ms, Some(1_700_000_000_000));
}

#[test]
fn aggregates_usdt_and_bfusd_wallet_rows() {
    let usdt = wallet_event(10, 10, "USDT", [100.0, 90.0, 5.0, 80.0, 70.0]);
    let bfusd = wallet_event(10, 10, "BFUSD", [200.0, 200.0, 0.0, 190.0, 180.0]);
    let mut acc = WalletAssetAccumulator::default();
    assert!(acc.update(parse_wallet_asset(&usdt).expect("USDT row")));
    assert!(acc.update(parse_wallet_asset(&bfusd).expect("BFUSD row")));
    let (equity, wallet, _, available) = totals(&acc);
    assert!((equity - 295.0).abs() < 1e-9);
    assert!((wallet - 290.0).abs() < 1e-9);
    assert!((available - 270.0).abs() < 1e-9);
}

#[test]
fn a_new_poll_replaces_previous_asset_rows() {
    let mut acc = WalletAssetAccumulator::default();
    for asset in ["USDT", "BFUSD"] {
        let payload = wallet_event(10, 10, asset, [100.0, 100.0, 0.0, 100.0, 100.0]);
        acc.update(parse_wallet_asset(&payload).expect("wallet row"));
    }
    let next = wallet_event(11, 11, "USDT", [50.0, 50.0, 0.0, 50.0, 50.0]);
    assert!(acc.update(parse_wallet_asset(&next).expect("next wallet row")));
    let (equity, _, _, _) = totals(&acc);
    assert!((equity - 50.0).abs() < 1e-9);
}

#[test]
fn ignores_non_stable_wallet_rows() {
    let payload = wallet_event(1, 1, "BTC", [1.0, 1.0, 0.0, 1.0, 1.0]);
    assert!(parse_wallet_asset(&payload).is_none());
}

fn encode_account_risk(scope: u32, timestamp_ms: i64, margin_ratio: f64) -> Vec<u8> {
    let mut body = Vec::new();
    body.extend_from_slice(&ACCOUNT_RISK_TYPE.to_le_bytes());
    body.extend_from_slice(&timestamp_ms.to_le_bytes());
    for value in [0.0, 0.0, 0.0, 0.0, margin_ratio, 0.0, 0.0] {
        body.extend_from_slice(&f64::to_le_bytes(value));
    }
    let mut wrapped = Vec::new();
    wrapped.extend_from_slice(&ACCOUNT_RISK_TYPE.to_le_bytes());
    wrapped.extend_from_slice(&scope.to_le_bytes());
    wrapped.extend_from_slice(&(body.len() as u32).to_le_bytes());
    wrapped.extend_from_slice(&body);
    wrapped
}

#[test]
fn decodes_okx_unified_unimmr_and_keeps_the_newer_sample() {
    let payload = encode_account_risk(OKEX_UNIFIED_SCOPE, 1_700_000_000_000, 66.7489666667);
    let (ts_ms, uni_mmr_bits) = parse_okx_unified_risk(&payload).expect("okx risk");
    assert_eq!(ts_ms, 1_700_000_000_000);
    assert!((f64::from_bits(uni_mmr_bits) - 66.7489666667).abs() < 1e-12);
    assert!(parse_okx_unified_risk(&encode_account_risk(1, 1, 2.0)).is_none());

    let mut state = SourceLiveState::default();
    state.apply_okx_unified_risk(20, 4.5f64.to_bits());
    state.apply_okx_unified_risk(10, 1.1f64.to_bits());
    let reading = state.reading().expect("reading");
    assert!(reading.unified_account);
    assert_eq!(reading.uni_mmr_bits, Some(4.5f64.to_bits()));
    assert!(reading.equity.is_none());
}

#[test]
fn wallet_rows_ignore_ascii_case_and_refuse_bad_frames() {
    let payload = wallet_event(7, 8, "bfusd", [1.0, 2.0, 3.0, 4.0, 5.0]);
    let row = parse_wallet_asset(&payload).expect("lowercase stable coin");
    assert_eq!(row.asset, "BFUSD");
    assert_eq!(f64::from_bits(row.wallet_balance_bits), 2.0);
    assert_eq!(f64::from_bits(row.unrealized_pnl_bits), 3.0);
    assert_eq!(f64::from_bits(row.available_balance_bits), 4.0);
    assert_eq!(row.ts_ms, 7);
    // The body alone parses as a snapshot.
    let body = &payload[EVENT_HEADER_LEN..];
    assert_eq!(parse_wallet_snapshot(body), Some(row));
    // A truncated frame, a non-finite amount and a wrong type are refused.
    assert!(parse_wallet_asset(&payload[..payload.len() - 1]).is_none());
    let infinite = wallet_event(7, 8, "USDT", [1.0, f64::INFINITY, 3.0, 4.0, 5.0]);
    assert!(parse_wallet_asset(&infinite).is_none());
    let mut wrong = payload.clone();
    wrong[0] = 0;
    assert!(parse_wallet_asset(&wrong).is_none());
}

#[test]
fn older_wallet_rows_are_refused() {
    let mut acc = WalletAssetAccumulator::default();
    let now = wallet_event(10, 10, "USDT", [1.0, 1.0, 0.0, 1.0, 1.0]);
    let old = wallet_event(9, 9, "BFUSD", [1.0, 1.0, 0.0, 1.0, 1.0]);
    assert!(acc.update(parse_wallet_asset(&now).unwrap()));
    assert!(!acc.update(parse_wallet_asset(&old).unwrap()));
    assert_eq!(acc.assets.len(), 1);
    assert_eq!(acc.ts_ms, Some(10));
}

#[test]
fn negative_or_early_risk_samples_are_refused() {
    assert!(parse_okx_unified_risk(&encode_account_risk(OKEX_UNIFIED_SCOPE, 5, -1.0)).is_none());
    assert!(parse_okx_unified_risk(&encode_account_risk(OKEX_UNIFIED_SCOPE, -5, 1.0)).is_none());
    let (_, zero) = parse_okx_unified_risk(&encode_account_risk(OKEX_UNIFIED_SCOPE, 5, -0.0)).unwrap();
    assert_eq!(f64::from_bits(zero), 0.0);
    assert!(SourceLiveState::default().reading().is_none());
}
