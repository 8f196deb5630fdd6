use crypto_cta_manager::config::{
    default_database_url_env, AppConfig, DatabaseConfig, IngestionConfig, OrderConfigSettings, RedisSettings,
    SourceConfig, TwapConfig,
};
use crypto_cta_manager::ingest::RawRecord;
use crypto_cta_manager::model::UniformOrderEvent;
use crypto_cta_manager::nav::fills::{chronological_order, historical_fills, validated_fill_side, FillErrorKind, Side};
use crypto_cta_manager::nav::prepare::{
    prepare_source_events, PositionSnapshot, PrepareError, SnapshotPosition, StrategyPositionSnapshot, StrategySnapshotPosition,
};
use crypto_cta_manager::nav::liquidity::{decode_liquidity_by_order, liquidity_role_for_event};
use crypto_cta_manager::nav::timeline::{replay_split, timeline_fill_strategy, timeline_order, TimelineEvent};
use crypto_cta_manager::nav::prepare::PreparedFill;
use crypto_cta_manager::nav::inference::{inferred_snapshot_ts, AllocationHeader, InferenceError};
use crypto_cta_manager::nav::window::{check_snapshot_sources, source_anchor, timeline_window, WindowError};
use crypto_cta_manager::nav::selection::{select_sources, select_timeline_symbols, SourceSelectionError};
use crypto_cta_manager::nav::{
    is_system_position_close, liquidity_role, next_timeline_tick, strategy_from_from_key,
    LiquidityRole, StrategyPnlRowKind, NAV_TICK_INTERVAL_US, UNATTRIBUTED_STRATEGY,
};

#[test]
fn strategy_from_key_accepts_only_stable_batch_exec_names() {
    assert_eq!(
        strategy_from_from_key("batch_exec:CTA_SK_C40V6PosT1_LXY_filter_Position"),
        "CTA_SK_C40V6PosT1_LXY_filter_Position"
    );
    assert_eq!(
        strategy_from_from_key("batch_exec:system_position_close"),
        "system_position_close"
    );
    assert_eq!(strategy_from_from_key("other:alpha"), UNATTRIBUTED_STRATEGY);
    assert_eq!(strategy_from_from_key("batch_exec:"), UNATTRIBUTED_STRATEGY);
}

#[test]
fn strategy_names_reject_unstable_text() {
    assert_eq!(strategy_from_from_key("batch_exec:a b"), UNATTRIBUTED_STRATEGY);
    assert_eq!(
        strategy_from_from_key(&format!("batch_exec:{}", "x".repeat(257))),
        UNATTRIBUTED_STRATEGY
    );
    assert!(is_system_position_close("SYSTEM_POSITION_CLOSE"));
    assert!(is_system_position_close("system_position_close"));
    assert!(!is_system_position_close("system_position_closed"));
}

#[test]
fn timeline_ticks_are_the_next_interval_multiple() {
    assert_eq!(next_timeline_tick(0, NAV_TICK_INTERVAL_US), 900_000_000);
    assert_eq!(next_timeline_tick(899_999_999, NAV_TICK_INTERVAL_US), 900_000_000);
    assert_eq!(next_timeline_tick(900_000_000, NAV_TICK_INTERVAL_US), 1_800_000_000);
    assert_eq!(next_timeline_tick(-1, 10), 0);
    assert_eq!(next_timeline_tick(-10, 10), 0);
    assert_eq!(next_timeline_tick(-11, 10), -10);
    assert_eq!(next_timeline_tick(i64::MAX, 10), i64::MAX);
    assert_eq!(next_timeline_tick(i64::MIN, 1), i64::MIN + 1);
}

#[test]
fn row_kinds_and_liquidity_roles() {
    assert_eq!(StrategyPnlRowKind::WindowStart.as_str(), "window_start");
    assert_eq!(StrategyPnlRowKind::Fill.as_str(), "fill");
    assert_eq!(StrategyPnlRowKind::WindowEnd.as_str(), "window_end");
    assert_eq!(liquidity_role(None, 1), LiquidityRole::Maker);
    assert_eq!(liquidity_role(None, 8), LiquidityRole::Taker);
    assert_eq!(liquidity_role(None, 2), LiquidityRole::Unknown);
    assert_eq!(liquidity_role(Some(LiquidityRole::Taker), 1), LiquidityRole::Taker);
}

fn nav_source(id: &str, enabled: bool) -> SourceConfig {
    SourceConfig {
        id: id.to_string(),
        account: id.to_string(),
        alias: None,
        venue: "binance-futures".to_string(),
        rocksdb_path: format!("/data/{id}"),
        enabled,
        start_ts_us: None,
        poll_interval_secs: None,
        estimated_fee_rate_bits: None,
        gateway_prefix: None,
        exec_config_url: None,
        exec_viz_url: None,
        ipc_namespace: None,
        account_ipc_service: None,
        share_unit_usdt_bits: None,
    }
}

fn nav_config(sources: Vec<SourceConfig>) -> AppConfig {
    AppConfig {
        database: DatabaseConfig { url_env: default_database_url_env(), max_connections: 4 },
        ingestion: IngestionConfig::default(),
        order_config: OrderConfigSettings::default(),
        redis: RedisSettings::default(),
        twap: TwapConfig::default(),
        sources,
    }
}

fn ids(v: &[&str]) -> Vec<String> {
    v.iter().map(|s| s.to_string()).collect()
}

#[test]
fn nav_selects_every_enabled_source_when_none_is_requested() {
    let config = nav_config(vec![nav_source("b", true), nav_source("a", false), nav_source("c", true)]);
    let selected = select_sources(&config, &Vec::new()).unwrap();
    let got: Vec<&str> = selected.iter().map(|s| s.id.as_str()).collect();
    assert_eq!(got, vec!["b", "c"]);
    let empty = nav_config(vec![nav_source("a", false)]);
    assert!(select_sources(&empty, &Vec::new()).unwrap().is_empty());
}

#[test]
fn nav_selects_requested_sources_in_configuration_order() {
    let config = nav_config(vec![nav_source("b", true), nav_source("a", true), nav_source("c", true)]);
    let selected = select_sources(&config, &ids(&["c", "b"])).unwrap();
    let got: Vec<&str> = selected.iter().map(|s| s.id.as_str()).collect();
    assert_eq!(got, vec!["b", "c"]);
}

#[test]
fn nav_source_selection_refusals() {
    let config = nav_config(vec![nav_source("b", true), nav_source("a", false), nav_source("c", true)]);
    let dup = select_sources(&config, &ids(&["b", "zz", "b"])).unwrap_err();
    assert!(matches!(dup, SourceSelectionError::DuplicateIds));
    assert_eq!(dup.message(), "selected source IDs contain duplicates");
    let missing = select_sources(&config, &ids(&["zz", "a", "y"])).unwrap_err();
    assert_eq!(missing.message(), "selected source a is disabled");
    let missing = select_sources(&config, &ids(&["zz", "b", "y"])).unwrap_err();
    assert_eq!(missing.message(), "selected source y is not configured");
}

#[test]
fn timeline_symbols_default_to_every_available_symbol() {
    let available = ids(&["ETHUSDT", "BTCUSDT"]);
    assert_eq!(select_timeline_symbols(&available, Vec::new()).unwrap(), available);
    assert_eq!(select_timeline_symbols(&available, ids(&["  ", ""])).unwrap(), available);
}

#[test]
fn timeline_symbols_are_normalized_sorted_and_filtered() {
    let available = ids(&["SOLUSDT", "ETHUSDT", "BTCUSDT"]);
    let selected = select_timeline_symbols(&available, ids(&[" ethusdt", "BTCUSDT", "EthUsdt ", "DOGEUSDT"])).unwrap();
    assert_eq!(selected, ids(&["BTCUSDT", "ETHUSDT"]));
}

#[test]
fn timeline_symbols_refuse_requests_that_match_nothing() {
    let available = ids(&["BTCUSDT"]);
    let err = select_timeline_symbols(&available, ids(&["DOGEUSDT"])).unwrap_err();
    assert_eq!(err.message(), "none of the requested symbols exist in the selected time range");
    assert!(select_timeline_symbols(&Vec::new(), ids(&["DOGEUSDT"])).unwrap().is_empty());
}

fn liquidity_payload(symbol: &str, client_order_id: i64, is_maker: bool, venue: u8, quantity: f64) -> Vec<u8> {
    let mut out = Vec::new();
    for v in [5_i64, 6, 7] {
        out.extend_from_slice(&v.to_le_bytes());
    }
    out.extend_from_slice(&(symbol.len() as u32).to_le_bytes());
    out.extend_from_slice(symbol.as_bytes());
    out.extend_from_slice(&42_i64.to_le_bytes());
    out.extend_from_slice(&client_order_id.to_le_bytes());
    out.push(1);
    out.extend_from_slice(&2500.5_f64.to_le_bytes());
    out.push(u8::from(is_maker));
    out.push(venue);
    out.extend_from_slice(&quantity.to_le_bytes());
    out.push(0);
    out
}

fn trade_record(ts: u64, payload: Vec<u8>) -> RawRecord {
    RawRecord { key: format!("{ts:020}").into_bytes(), value: payload }
}

fn role_of(roles: &[((String, i16, i64), LiquidityRole)], symbol: &str, venue: i16, id: i64) -> Option<LiquidityRole> {
    roles.iter().find(|e| e.0 .0 == symbol && e.0 .1 == venue && e.0 .2 == id).map(|e| e.1)
}

#[test]
fn liquidity_roles_merge_trade_updates_of_each_order() {
    let families = vec![
        (
            "trade_updates".to_string(),
            vec![
                trade_record(1, liquidity_payload("BTCUSDT", 7, true, 1, 0.5)),
                trade_record(2, liquidity_payload("BTCUSDT", 7, true, 1, 1.0)),
                trade_record(3, liquidity_payload("ETHUSDT", 8, false, 1, 0.2)),
                trade_record(4, liquidity_payload("ETHUSDT", 9, true, 1, 0.0)),
                trade_record(5, liquidity_payload("ETHUSDT", 0, true, 1, 1.0)),
            ],
        ),
        (
            "trade_updates_unmatched".to_string(),
            vec![
                trade_record(6, liquidity_payload("ETHUSDT", 8, true, 1, 0.3)),
                trade_record(7, liquidity_payload("BTCUSDT", 7, true, 2, 1.0)),
            ],
        ),
    ];
    let roles = decode_liquidity_by_order(&families).unwrap();
    assert_eq!(roles.len(), 3);
    assert_eq!(role_of(&roles, "BTCUSDT", 1, 7), Some(LiquidityRole::Maker));
    assert_eq!(role_of(&roles, "ETHUSDT", 1, 8), Some(LiquidityRole::Unknown));
    assert_eq!(role_of(&roles, "BTCUSDT", 2, 7), Some(LiquidityRole::Maker));
    assert_eq!(role_of(&roles, "ETHUSDT", 1, 9), None);
}

#[test]
fn liquidity_roles_refuse_an_undecodable_trade_update() {
    let mut broken = liquidity_payload("BTCUSDT", 7, true, 1, 0.5);
    broken.push(0);
    let families = vec![(
        "trade_updates".to_string(),
        vec![trade_record(1, liquidity_payload("BTCUSDT", 7, true, 1, 0.5)), trade_record(2, broken)],
    )];
    let err = decode_liquidity_by_order(&families).unwrap_err();
    assert_eq!(err.column_family, "trade_updates");
    assert_eq!((err.family_index, err.record_index), (0, 1));
    assert_eq!(err.record_key, b"00000000000000000002".to_vec());
}

fn fill_event(symbol: &str, venue_code: i16, client_order_id: i64, order_type_code: i16) -> UniformOrderEvent {
    UniformOrderEvent {
        record_key: "00000000000000000001".to_string(),
        event_ts_us: 1,
        recv_ts_us: 1,
        symbol: symbol.to_string(),
        create_ts_us: 1,
        update_ts_us: 1,
        signal_ts_us: 0,
        submit_ts_us: 0,
        local_ts_us: 0,
        market_ts_us: 0,
        client_order_id,
        venue_code,
        venue: "binance-futures".to_string(),
        order_type_code,
        order_type: String::new(),
        side_code: 1,
        side: "buy".to_string(),
        price_bits: 100.0_f64.to_bits(),
        price_offset_bits: 0,
        amount_initial_bits: 1.0_f64.to_bits(),
        amount_update_bits: 1.0_f64.to_bits(),
        status_code: 2,
        status: String::new(),
        from_key: Vec::new(),
        from_key_text: String::new(),
        bbo_spread: String::new(),
        signal_open: None,
        signal_hedge: None,
        wire_payload: Vec::new(),
    }
}

#[test]
fn fill_roles_come_from_trade_updates_before_order_types() {
    let roles = vec![(("BTCUSDT".to_string(), 1_i16, 7_i64), LiquidityRole::Taker)];
    assert_eq!(liquidity_role_for_event(&fill_event("BTCUSDT", 1, 7, 1), &roles), LiquidityRole::Taker);
    assert_eq!(liquidity_role_for_event(&fill_event("BTCUSDT", 1, 8, 1), &roles), LiquidityRole::Maker);
    assert_eq!(liquidity_role_for_event(&fill_event("BTCUSDT", 2, 7, 4), &roles), LiquidityRole::Taker);
    assert_eq!(liquidity_role_for_event(&fill_event("BTCUSDT", 2, 7, 2), &roles), LiquidityRole::Unknown);
}

fn timed_fill(key: &str, update_ts_us: i64, event_ts_us: i64, side_code: i16, amount: f64) -> UniformOrderEvent {
    let mut e = fill_event("BTCUSDT", 1, 7, 1);
    e.record_key = key.to_string();
    e.update_ts_us = update_ts_us;
    e.event_ts_us = event_ts_us;
    e.side_code = side_code;
    e.amount_update_bits = amount.to_bits();
    e
}

#[test]
fn fills_are_ordered_by_fifo_time_event_time_and_key() {
    let events = vec![
        timed_fill("b", 20, 1, 1, 1.0),
        timed_fill("a", 0, 10, 1, 1.0),
        timed_fill("c", 10, 5, 1, 1.0),
        timed_fill("a", 10, 5, 1, 1.0),
        timed_fill("a", 10, 5, 2, 1.0),
    ];
    assert_eq!(chronological_order(&events), vec![3, 4, 2, 1, 0]);
}

#[test]
fn historical_fills_sign_sells_and_skip_empty_fills() {
    let events = vec![
        timed_fill("2", 20, 20, 2, 0.5),
        timed_fill("1", 10, 10, 1, 1.5),
        timed_fill("3", 30, 30, 1, 0.0),
    ];
    let fills = historical_fills("trade01", &events).unwrap();
    assert_eq!(fills.len(), 2);
    assert_eq!(fills[0].record_key, "1");
    assert_eq!(f64::from_bits(fills[0].signed_quantity_bits), 1.5);
    assert_eq!(fills[0].ts_us, 10);
    assert_eq!(fills[1].record_key, "2");
    assert_eq!(f64::from_bits(fills[1].signed_quantity_bits), -0.5);
    assert_eq!(f64::from_bits(fills[1].price_bits), 100.0);
}

#[test]
fn historical_fills_report_the_first_refused_fill_in_order() {
    let events = vec![timed_fill("late", 50, 50, 3, 1.0), timed_fill("early", 5, 5, 1, f64::NAN)];
    let err = historical_fills("trade01", &events).unwrap_err();
    assert_eq!(err.record_key, "early");
    assert_eq!(err.source_id, "trade01");
    assert!(matches!(err.kind, FillErrorKind::InvalidAmount(_)));
}

#[test]
fn fill_sides_are_validated() {
    assert_eq!(validated_fill_side("s", &timed_fill("k", 1, 1, 1, 2.0)).unwrap(), Some(Side::Buy));
    assert_eq!(validated_fill_side("s", &timed_fill("k", 1, 1, 2, 2.0)).unwrap(), Some(Side::Sell));
    assert_eq!(validated_fill_side("s", &timed_fill("k", 1, 1, 9, -0.0)).unwrap(), None);
    assert_eq!(validated_fill_side("s", &timed_fill("k", 1, 1, 9, 2.0)).unwrap_err().kind, FillErrorKind::UnsupportedSide(9));
    assert_eq!(
        validated_fill_side("s", &timed_fill("k", 1, 1, 1, -1.0)).unwrap_err().kind,
        FillErrorKind::InvalidAmount((-1.0_f64).to_bits())
    );
    let mut bad_price = timed_fill("k", 1, 1, 1, 2.0);
    bad_price.price_bits = 0.0_f64.to_bits();
    assert_eq!(validated_fill_side("s", &bad_price).unwrap_err().kind, FillErrorKind::InvalidPrice(0));
    let mut blank = timed_fill("k", 1, 1, 1, 2.0);
    blank.symbol = "  ".to_string();
    assert_eq!(validated_fill_side("s", &blank).unwrap_err().kind, FillErrorKind::EmptySymbol);
}

fn account_snapshot(source_id: &str, ts: i64, reference: Option<f64>) -> PositionSnapshot {
    PositionSnapshot {
        source_id: source_id.to_string(),
        snapshot_ts_us: ts,
        positions: vec![SnapshotPosition {
            symbol: "BTCUSDT".to_string(),
            venue_code: 1,
            quantity_bits: 2.0_f64.to_bits(),
            reference_price_bits: reference.map(f64::to_bits),
        }],
    }
}

#[test]
fn prepared_events_skip_fills_up_to_the_snapshot_and_seed_lots() {
    let source = nav_source("trade01", true);
    let mut late = timed_fill("k2", 30, 30, 2, 1.0);
    late.price_bits = 105.0_f64.to_bits();
    let events = vec![timed_fill("k1", 10, 10, 1, 1.0), late, timed_fill("k3", 40, 40, 1, 0.0)];
    let snap = account_snapshot("trade01", 20, None);
    let p = prepare_source_events(&source, &events, Some(&snap), None, &Vec::new()).unwrap();
    assert_eq!(p.snapshot_ts_us, Some(20));
    assert_eq!(p.ignored_at_or_before_snapshot_event_count, 1);
    assert_eq!(p.ignored_non_fill_event_count, 1);
    assert_eq!(p.order_event_count, 3);
    assert_eq!(p.fill_events.len(), 1);
    assert_eq!(p.fill_events[0].event_index, 1);
    assert_eq!(p.fill_events[0].side, Side::Sell);
    assert_eq!(p.initial_states.len(), 1);
    let lot = &p.initial_states[0].1;
    assert_eq!(f64::from_bits(lot.reference_price_bits), 105.0);
    assert_eq!(lot.reference_source, crypto_cta_manager::nav::InitialReferencePriceSource::FirstFill);
    assert_eq!(lot.venue, "binance-futures");
    assert_eq!(lot.snapshot_ts_us, 20);
    assert!(!p.strategy_allocation_active);
    assert_eq!(p.initial_strategy_states[0].0 .0, "__initial_position__");
}

#[test]
fn prepared_events_refuse_positions_without_a_price_and_repeats() {
    let source = nav_source("trade01", true);
    let events = vec![timed_fill("k1", 10, 10, 1, 1.0)];
    let snap = account_snapshot("trade01", 20, None);
    let err = prepare_source_events(&source, &events, Some(&snap), None, &Vec::new()).unwrap_err();
    assert!(matches!(err, PrepareError::MissingReference(ref s, ref y, 1) if s == "trade01" && y == "BTCUSDT"));
    let mut twice = account_snapshot("trade01", 5, Some(100.0));
    twice.positions.push(twice.positions[0].clone());
    let err = prepare_source_events(&source, &events, Some(&twice), None, &Vec::new()).unwrap_err();
    assert!(matches!(err, PrepareError::DuplicateInitial(_, _, 1)));
    let other = account_snapshot("trade02", 5, Some(100.0));
    let err = prepare_source_events(&source, &events, Some(&other), None, &Vec::new()).unwrap_err();
    assert!(matches!(err, PrepareError::SnapshotSource(ref a, ref b) if a == "trade02" && b == "trade01"));
}

#[test]
fn newer_strategy_snapshot_seeds_strategy_lots() {
    let source = nav_source("trade01", true);
    let events = vec![timed_fill("k1", 50, 50, 1, 1.0)];
    let account = account_snapshot("trade01", 10, Some(100.0));
    let strategy = StrategyPositionSnapshot {
        source_id: "trade01".to_string(),
        snapshot_ts_us: 30,
        positions: vec![StrategySnapshotPosition {
            strategy_name: "cta_a".to_string(),
            symbol: "BTCUSDT".to_string(),
            venue_code: 1,
            quantity_bits: 2.0_f64.to_bits(),
            reference_price_bits: 101.0_f64.to_bits(),
        }],
    };
    let view = account_snapshot("trade01", 30, Some(101.0));
    let p = prepare_source_events(&source, &events, Some(&account), Some((&strategy, &view)), &Vec::new()).unwrap();
    assert!(p.strategy_allocation_active);
    assert_eq!(p.snapshot_ts_us, Some(30));
    assert_eq!(p.initial_strategy_states.len(), 1);
    assert_eq!(p.initial_strategy_states[0].0 .0, "cta_a");
    assert_eq!(f64::from_bits(p.initial_strategy_states[0].1.reference_price_bits), 101.0);
}

#[test]
fn timeline_window_rules() {
    assert_eq!(timeline_window(-1, None, &vec![]), Err(WindowError::NegativeEnd));
    assert_eq!(timeline_window(100, None, &vec![30, 20, 50]), Ok((20, 20)));
    assert_eq!(timeline_window(100, Some(25), &vec![30, 20, 50]), Ok((25, 20)));
    assert_eq!(timeline_window(100, Some(10), &vec![30, 20]), Err(WindowError::StartBeforeEarliest(20)));
    assert_eq!(timeline_window(100, Some(150), &vec![30]), Err(WindowError::EndBeforeStart));
    assert_eq!(timeline_window(100, None, &vec![]), Ok((100, 100)));
    assert_eq!(
        WindowError::StartBeforeEarliest(20).message(),
        "start timestamp must be greater than or equal to earliest source timestamp 20"
    );
    assert_eq!(WindowError::EndBeforeStart.message(), "end timestamp must be greater than or equal to start timestamp");
    assert_eq!(
        WindowError::StartBeforeEarliest(-42).message(),
        "start timestamp must be greater than or equal to earliest source timestamp -42"
    );
}

#[test]
fn timeline_snapshots_must_belong_to_selected_sources() {
    let selected = vec!["a".to_string(), "b".to_string()];
    assert!(check_snapshot_sources(&selected, &vec!["b".to_string()], &vec!["a".to_string()]).is_ok());
    let err = check_snapshot_sources(&selected, &vec!["c".to_string()], &vec!["d".to_string()]).unwrap_err();
    assert!(!err.strategy);
    assert_eq!(err.message(), "position snapshots contain unselected source c");
    let err = check_snapshot_sources(&selected, &vec![], &vec!["d".to_string()]).unwrap_err();
    assert_eq!(err.message(), "strategy position snapshots contain unselected source d");
}

#[test]
fn source_anchor_prefers_snapshot_then_first_fill() {
    let source = nav_source("trade01", true);
    let events = vec![timed_fill("k1", 10, 10, 1, 1.0), timed_fill("k2", 30, 30, 2, 1.0)];
    let p = prepare_source_events(&source, &events, None, None, &Vec::new()).unwrap();
    assert_eq!(source_anchor(&p, 100), Some(10));
    assert_eq!(source_anchor(&p, 5), None);
    let snap = account_snapshot("trade01", 20, Some(100.0));
    let p = prepare_source_events(&source, &events, Some(&snap), None, &Vec::new()).unwrap();
    assert_eq!(source_anchor(&p, 100), Some(20));
    assert_eq!(source_anchor(&p, 15), None);
}

fn timeline_fill(source: &str, ts: i64, event_ts: i64, key: &str) -> TimelineEvent {
    TimelineEvent::Fill {
        source_index: 0,
        source_id: source.to_string(),
        fill: PreparedFill {
            event_index: 0,
            side: Side::Buy,
            fill_ts_us: ts,
            liquidity: crypto_cta_manager::nav::LiquidityRole::Taker,
        },
        event_ts_us: event_ts,
        record_key: key.to_string(),
    }
}

#[test]
fn timeline_replays_snapshots_first_then_by_source_and_record() {
    let events = vec![
        timeline_fill("b", 20, 5, "k2"),
        timeline_fill("a", 20, 5, "k9"),
        TimelineEvent::Snapshot { source_index: 1, source_id: "b".to_string(), ts_us: 20 },
        timeline_fill("a", 10, 7, "k1"),
        timeline_fill("a", 20, 4, "k9"),
        timeline_fill("a", 20, 5, "k3"),
        timeline_fill("a", 20, 5, "k3"),
    ];
    let ord = timeline_order(&events);
    assert_eq!(ord, vec![3, 2, 4, 5, 6, 1, 0]);
    assert_eq!(replay_split(&events, &ord, 20), 1);
    assert_eq!(replay_split(&events, &ord, 5), 0);
    assert_eq!(replay_split(&events, &ord, 21), 7);
}

#[test]
fn timeline_lists_system_closes_as_unallocated_when_allocating() {
    assert_eq!(timeline_fill_strategy("batch_exec:SYSTEM_position_close", true), "__unallocated__");
    assert_eq!(timeline_fill_strategy("batch_exec:system_position_close", false), "system_position_close");
    assert_eq!(timeline_fill_strategy("batch_exec:alpha", true), "alpha");
    assert_eq!(timeline_fill_strategy("other:alpha", true), UNATTRIBUTED_STRATEGY);
}

#[test]
fn inferred_snapshot_time_rules() {
    let header = AllocationHeader { source_id: "trade01".to_string(), snapshot_ts_ms: 1_000, position_ready: true };
    let mut other_venue = timed_fill("k0", 5, 5, 1, 1.0);
    other_venue.venue_code = 2;
    let events = vec![timed_fill("k1", 300, 300, 1, 1.0), timed_fill("k2", 200, 200, 1, 0.0), other_venue, timed_fill("k3", 400, 400, 2, 2.0)];
    assert_eq!(inferred_snapshot_ts("trade01", 1, None, &header, &events), Ok(299));
    assert_eq!(inferred_snapshot_ts("trade01", 1, Some(50), &header, &events), Ok(50));
    assert_eq!(inferred_snapshot_ts("trade01", 1, Some(1_000_000), &header, &events), Err(InferenceError::RequestedNotEarlier));
    assert_eq!(inferred_snapshot_ts("trade01", 1, Some(0), &header, &events), Err(InferenceError::NonPositiveSnapshot));
    assert_eq!(inferred_snapshot_ts("trade01", 3, None, &header, &events), Err(InferenceError::NoFills));
    assert_eq!(inferred_snapshot_ts("trade01", 256, None, &header, &events), Err(InferenceError::VenueCode));
    assert_eq!(inferred_snapshot_ts("trade02", 1, None, &header, &events), Err(InferenceError::AllocationSource));
    let not_ready = AllocationHeader { position_ready: false, ..header };
    assert_eq!(inferred_snapshot_ts("trade01", 1, None, &not_ready, &events), Err(InferenceError::AllocationNotReady));
    let huge = AllocationHeader { source_id: "trade01".to_string(), snapshot_ts_ms: i64::MAX, position_ready: true };
    assert_eq!(inferred_snapshot_ts("trade01", 1, None, &huge, &events), Err(InferenceError::AllocationTsOverflow));
    assert_eq!(InferenceError::NoFills.message(), "the selected venue has no factual fills to infer from");
}
