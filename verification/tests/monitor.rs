use base64::Engine;
use hmac::{Hmac, Mac};
use crypto_cta_manager::config::SourceConfig;
use crypto_cta_manager::ingest::RawRecord;
use crypto_cta_manager::monitor::dingtalk::{
    heartbeat_content, notice_content, notice_header, notice_text_of, truncate_notice,
    webhook_signature,
};
use crypto_cta_manager::monitor::market::{check_market, MarketQuotes};
use crypto_cta_manager::monitor::orders::check_orders;
use crypto_cta_manager::monitor::position::{check_position_state, micros_to_millis, ExecSnapshotState};
use crypto_cta_manager::monitor::{
    heartbeat_message, in_quiet_window, issue, normalize_symbol, sanitize_thread_name,
    seconds_to_us, shanghai_hour_of_day, shanghai_secs, AlertTracker, HeartbeatSchedule,
    MonitorIssue, NoticeChannel, PendingNotice,
};

/// A monotonic clock reading, in nanoseconds, far from zero.
const START_NS: u64 = 5_000_000_000_000;

fn at(seconds: u64) -> u64 {
    START_NS + seconds * 1_000_000_000
}

fn test_source(venue: &str) -> SourceConfig {
    SourceConfig {
        id: "src".to_string(),
        account: "src".to_string(),
        alias: None,
        venue: venue.to_string(),
        rocksdb_path: "/tmp/nonexistent".to_string(),
        enabled: true,
        start_ts_us: None,
        poll_interval_secs: None,
        estimated_fee_rate_bits: None,
        gateway_prefix: None,
        exec_config_url: None,
        exec_viz_url: None,
        ipc_namespace: None,
        account_ipc_service: None,
        share_unit_usdt_bits: None,
    }
}

#[test]
fn tracker_notifies_on_transition_repeats_and_recovery() {
    let issue = MonitorIssue::new("position", "stale", "trade01", "stale".to_string());
    let issues = vec![issue];
    let mut tracker = AlertTracker::new();
    let first = at(0);
    let notices = tracker.pending(&issues, first, 60);
    assert_eq!(notices.len(), 1);
    tracker.mark_sent(&notices, first);
    assert!(tracker.pending(&issues, first, 60).is_empty());
    let later = at(61);
    assert_eq!(tracker.pending(&issues, later, 60).len(), 1);
    let recovery = tracker.pending(&Vec::new(), later, 60);
    assert_eq!(recovery.len(), 1);
    assert!(recovery[0].recovery);
    tracker.mark_sent(&recovery, later);
    assert!(tracker.pending(&Vec::new(), later, 60).is_empty());
}

#[test]
fn market_symbols_are_normalized() {
    assert_eq!(normalize_symbol("btc-usdt"), "BTCUSDT");
    assert_eq!(normalize_symbol("eth_usdt"), "ETHUSDT");
}

#[test]
fn repeat_alert_interval_has_thirty_second_floor() {
    let issues = vec![MonitorIssue::new("market", "v:bbo", "global", "m".to_string())];
    let mut tracker = AlertTracker::new();
    let start = at(0);
    let notices = tracker.pending(&issues, start, 1);
    tracker.mark_sent(&notices, start);
    assert!(tracker.pending(&issues, at(5), 1).is_empty());
    assert_eq!(tracker.pending(&issues, at(31), 1).len(), 1);
}

#[test]
fn recovery_notice_reuses_alert_message() {
    let issues = vec![MonitorIssue::new("market", "v:bbo", "global", "行情故障: test".to_string())];
    let mut tracker = AlertTracker::new();
    let start = at(0);
    let notices = tracker.pending(&issues, start, 30);
    tracker.mark_sent(&notices, start);
    let recovery = tracker.pending(&Vec::new(), at(1), 30);
    assert_eq!(recovery.len(), 1);
    assert_eq!(recovery[0].message, "问题已恢复: 行情故障: test");
}

#[test]
fn delayed_issue_disappears_without_alert_or_recovery() {
    let issue = MonitorIssue::new("position", "account-missing:GUSDT", "trade06", "missing".to_string())
        .with_initial_delay(30);
    let issues = vec![issue];
    let mut tracker = AlertTracker::new();
    assert!(tracker.pending(&issues, at(0), 30).is_empty());
    assert_eq!(tracker.active_count(NoticeChannel::Order), 0);
    assert!(tracker.pending(&Vec::new(), at(10), 30).is_empty());
    assert_eq!(tracker.active_count(NoticeChannel::Order), 0);
}

#[test]
fn delayed_issue_alerts_after_grace_and_then_recovers() {
    let issue = MonitorIssue::new("position", "account-missing:GUSDT", "trade06", "missing".to_string())
        .with_initial_delay(30);
    let issues = vec![issue];
    let mut tracker = AlertTracker::new();
    assert!(tracker.pending(&issues, at(0), 30).is_empty());
    assert!(tracker.pending(&issues, at(29), 30).is_empty());
    let notices = tracker.pending(&issues, at(30), 30);
    assert_eq!(notices.len(), 1);
    tracker.mark_sent(&notices, at(30));
    assert_eq!(tracker.active_count(NoticeChannel::Order), 1);
    let recovery = tracker.pending(&Vec::new(), at(31), 30);
    assert_eq!(recovery.len(), 1);
    assert!(recovery[0].recovery);
}

#[test]
fn market_notices_and_order_notices_use_separate_channels() {
    let market = PendingNotice {
        key: "market:binance-futures:any:global".to_string(),
        message: "market".to_string(),
        recovery: false,
    };
    let order = PendingNotice {
        key: "orders:stale:trade01".to_string(),
        message: "order".to_string(),
        recovery: false,
    };
    assert_eq!(market.channel(), NoticeChannel::Market);
    assert_eq!(order.channel(), NoticeChannel::Order);
}

#[test]
fn shanghai_time_uses_fixed_utc8() {
    assert_eq!(shanghai_hour_of_day(shanghai_secs(0)), 8);
    assert_eq!(shanghai_hour_of_day(shanghai_secs(16 * 3_600)), 0);
    assert_eq!(shanghai_hour_of_day(shanghai_secs(86_400 + 3_600)), 9);
}

#[test]
fn quiet_window_covers_hours_and_wraps_overnight() {
    assert!(in_quiet_window(0, 0, 6));
    assert!(in_quiet_window(5, 0, 6));
    assert!(!in_quiet_window(6, 0, 6));
    assert!(!in_quiet_window(23, 0, 6));
    assert!(in_quiet_window(23, 22, 6));
    assert!(in_quiet_window(3, 22, 6));
    assert!(!in_quiet_window(12, 22, 6));
    assert!((0..24).all(|hour| !in_quiet_window(hour, 6, 6)));
}

#[test]
fn heartbeat_fires_once_per_slot_and_consumes_quiet_slots() {
    let day = 86_400 * 20_000;
    let mut schedule = HeartbeatSchedule::new(3, day + 9 * 3_600 + 30 * 60);
    assert!(!schedule.due(day + 10 * 3_600, false));
    assert!(!schedule.due(day + 11 * 3_600 + 59 * 60, false));
    assert!(schedule.due(day + 12 * 3_600, false));
    assert!(!schedule.due(day + 12 * 3_600 + 1, false));

    let mut schedule = HeartbeatSchedule::new(3, day + 21 * 3_600);
    assert!(!schedule.due(day + 24 * 3_600, true));
    assert!(!schedule.due(day + 27 * 3_600, true));
    assert!(schedule.due(day + 30 * 3_600, false));

    let mut off = HeartbeatSchedule::new(0, day);
    assert!(!off.due(day + 5 * 86_400, false));
}

#[test]
fn heartbeat_message_reports_channel_status() {
    assert_eq!(heartbeat_message(NoticeChannel::Market, 0), "行情监控运行正常，无未恢复告警");
    assert_eq!(heartbeat_message(NoticeChannel::Order, 2), "交易监控运行中，2 条告警未恢复");
}

#[test]
fn source_issues_carry_the_account_alias() {
    let mut source = test_source("binance-futures");
    source.id = "binance_exec_trade03".to_string();
    source.account = "trade03".to_string();
    source.alias = Some("p1prcp1".to_string());
    let entry = issue("position", "account:BTCUSDT", &source, "m");
    assert_eq!(entry.key, "position:account:BTCUSDT:binance_exec_trade03");
    assert_eq!(entry.message, "[p1prcp1] m");
    source.alias = Some(" ".to_string());
    let entry = issue("position", "scope", &source, "m");
    assert_eq!(entry.message, "[trade03] m");
    source.alias = None;
    source.account = " ".to_string();
    let entry = issue("position", "scope", &source, "m");
    assert_eq!(entry.message, "[binance_exec_trade03] m");
}

#[test]
fn new_issue_alerts_once_then_waits_for_the_interval() {
    // Law: a new issue without delay is alerted at once; within the repeat
    // interval it is not repeated.
    let issues = vec![MonitorIssue::new("orders", "stale:7", "trade01", "stuck".to_string())];
    let mut tracker = AlertTracker::new();
    let notices = tracker.pending(&issues, at(0), 120);
    assert_eq!(notices.len(), 1);
    assert_eq!(notices[0].key, "orders:stale:7:trade01");
    assert_eq!(notices[0].message, "stuck");
    assert!(!notices[0].recovery);
    tracker.mark_sent(&notices, at(0));
    assert!(tracker.pending(&issues, at(119), 120).is_empty());
    assert_eq!(tracker.pending(&issues, at(120), 120).len(), 1);
}

#[test]
fn recovery_with_empty_message_names_the_key() {
    let issues = vec![MonitorIssue::new("orders", "decode", "trade01", String::new())];
    let mut tracker = AlertTracker::new();
    let notices = tracker.pending(&issues, at(0), 30);
    tracker.mark_sent(&notices, at(0));
    let recovery = tracker.pending(&Vec::new(), at(1), 30);
    assert_eq!(recovery.len(), 1);
    assert_eq!(recovery[0].message, "问题已恢复: orders:decode:trade01");
}

#[test]
fn active_count_splits_channels() {
    let issues = vec![
        MonitorIssue::new("market", "v:bbo", "global", "m".to_string()),
        MonitorIssue::new("orders", "stale:1", "trade01", "o".to_string()),
        MonitorIssue::new("orders", "stale:2", "trade01", "o".to_string()),
    ];
    let mut tracker = AlertTracker::new();
    let notices = tracker.pending(&issues, at(0), 30);
    assert_eq!(notices.len(), 3);
    tracker.mark_sent(&notices, at(0));
    assert_eq!(tracker.active_count(NoticeChannel::Market), 1);
    assert_eq!(tracker.active_count(NoticeChannel::Order), 2);
    assert_eq!(NoticeChannel::Market.as_str(), "market");
    assert_eq!(NoticeChannel::Order.as_str(), "order");
}

#[test]
fn thread_names_and_durations() {
    assert_eq!(sanitize_thread_name("binance-futures:1"), "binance_futures_1");
    assert_eq!(seconds_to_us(3), 3_000_000);
    assert_eq!(seconds_to_us(u64::MAX), i64::MAX);
}

fn quote_config_sources() -> Vec<SourceConfig> {
    vec![test_source("binance-futures")]
}

fn watched(symbols: &[&str]) -> Vec<String> {
    symbols.iter().map(|s| s.to_string()).collect()
}

#[test]
fn market_check_alerts_only_when_no_watched_symbol_is_fresh() {
    let venue = "binance-futures";
    let sources = quote_config_sources();
    let symbols = watched(&["BTCUSDT", "ETHUSDT", "SOLUSDT", "XRPUSDT"]);
    let mut quotes = MarketQuotes::new();
    let now = 1_700_000_000_000_000_i64;

    let issues = check_market(&sources, &symbols, 5, &quotes, now);
    assert_eq!(issues.len(), 1);
    assert_eq!(issues[0].key, "market:binance-futures:bbo:global");

    quotes.record(venue, "DOGEUSDT", now);
    assert_eq!(check_market(&sources, &symbols, 5, &quotes, now).len(), 1);

    quotes.record(venue, "ETHUSDT", now);
    assert!(check_market(&sources, &symbols, 5, &quotes, now).is_empty());

    quotes.record(venue, "ETHUSDT", now - 6_000_000);
    assert_eq!(check_market(&sources, &symbols, 5, &quotes, now).len(), 1);
}

#[test]
fn market_check_without_symbols_watches_any_quote() {
    let mut sources = quote_config_sources();
    let mut disabled = test_source("okx-swap");
    disabled.enabled = false;
    sources.push(disabled);
    sources.push(test_source(" binance-futures "));
    let now = 1_700_000_000_000_000_i64;
    let mut quotes = MarketQuotes::new();
    let issues = check_market(&sources, &watched(&["", "-_"]), 5, &quotes, now);
    assert_eq!(issues.len(), 1);
    assert_eq!(issues[0].key, "market:binance-futures:any:global");
    assert_eq!(issues[0].source_id, "global");
    assert_eq!(issues[0].category, "market");
    assert_eq!(issues[0].message, "行情 BBO 在 binance-futures 已超过 5 秒没有新消息");
    quotes.record("binance-futures", "BTCUSDT", now - 5_000_000);
    assert!(check_market(&sources, &Vec::new(), 5, &quotes, now).is_empty());
    assert_eq!(quotes.last_any("binance-futures"), Some(now - 5_000_000));
    assert_eq!(
        quotes.latest_received("binance-futures", &watched(&["BTCUSDT", "ETHUSDT"])),
        Some(now - 5_000_000)
    );
    let bbo = check_market(&sources, &watched(&["eth-usdt"]), 5, &quotes, now);
    assert_eq!(bbo[0].message, "行情故障: binance-futures 已超过 5 秒没有新 BBO");
}

fn order_payload(client_order_id: i64, status: u8) -> Vec<u8> {
    let mut out = Vec::new();
    out.extend_from_slice(&1_i64.to_le_bytes());
    out.extend_from_slice(&7_u16.to_le_bytes());
    out.extend_from_slice(b"BTCUSDT");
    for value in [2_i64, 3, 4, 5, 6, 7, client_order_id] {
        out.extend_from_slice(&value.to_le_bytes());
    }
    out.extend_from_slice(&[1, 1, 2]);
    for value in [100.0_f64, 0.1, 2.0, 0.5] {
        out.extend_from_slice(&value.to_le_bytes());
    }
    out.push(status);
    out.extend_from_slice(&4_u32.to_le_bytes());
    out.extend_from_slice(b"open");
    out
}

fn trade_payload(client_order_id: i64, event_ts_us: i64) -> Vec<u8> {
    let mut out = Vec::new();
    for v in [5_i64, event_ts_us, 7] {
        out.extend_from_slice(&v.to_le_bytes());
    }
    out.extend_from_slice(&3_u32.to_le_bytes());
    out.extend_from_slice(b"ETH");
    out.extend_from_slice(&42_i64.to_le_bytes());
    out.extend_from_slice(&client_order_id.to_le_bytes());
    out.push(1);
    out.extend_from_slice(&2500.5_f64.to_le_bytes());
    out.push(1);
    out.push(3);
    out.extend_from_slice(&0.25_f64.to_le_bytes());
    out.push(0);
    out
}

fn key(ts_us: i64) -> Vec<u8> {
    format!("{ts_us:020}").into_bytes()
}

fn record(key: Vec<u8>, value: Vec<u8>) -> RawRecord {
    RawRecord { key, value }
}

#[test]
fn order_check_reports_stale_unknown_and_undecodable_orders() {
    let source = test_source("binance-futures");
    let t0 = 1_700_000_000_000_000_i64;
    let now = t0 + 400_000_000;
    let families = vec![(
        "uniform_orders".to_string(),
        vec![
            record(key(t0), order_payload(16, 1)),
            record(key(t0 + 1), order_payload(17, 3)),
            record(key(t0 + 2), order_payload(-5, 99)),
            record(b"bad".to_vec(), order_payload(18, 1)),
        ],
    )];
    let issues = check_orders(&source, 300, &families, now);
    let keys: Vec<&str> = issues.iter().map(|i| i.key.as_str()).collect();
    assert_eq!(
        keys,
        vec!["orders:decode:src", "orders:stale:16:src", "orders:unknown-status:-5:src", "orders:stale:-5:src"]
    );
    assert_eq!(issues[0].message, "[src] 订单事件最近窗口有 1 条无法解码记录");
    assert_eq!(issues[1].message, "[src] 订单 16 BTCUSDT 处于 NEW 状态，最近活动已停止约 400 秒");
    assert_eq!(issues[2].message, "[src] 订单 -5 BTCUSDT 状态无法识别: UNKNOWN(99)");
}

#[test]
fn order_check_counts_later_activity_and_latest_status() {
    let source = test_source("binance-futures");
    let t0 = 1_700_000_000_000_000_i64;
    let now = t0 + 400_000_000;
    let families = vec![
        (
            "uniform_orders".to_string(),
            vec![record(key(t0), order_payload(16, 1)), record(key(t0 + 5), order_payload(21, 1)),
                 record(key(t0 + 6), order_payload(21, 3))],
        ),
        ("trade_updates".to_string(), vec![record(key(t0), trade_payload(16, now - 1_000_000))]),
        ("order_updates".to_string(), Vec::new()),
    ];
    // Order 16 traded a second ago; order 21's latest record is FILLED.
    assert!(check_orders(&source, 300, &families, now).is_empty());
}

#[test]
fn heartbeat_content_uses_heartbeat_prefix_and_host_tag() {
    let content = heartbeat_content("el01", "行情监控运行正常，无未恢复告警");
    assert_eq!(
        content,
        "[el01][crypto_cta_manager] CTA 运行监控\n[心跳] 行情监控运行正常，无未恢复告警\n"
    );
    assert_eq!(notice_header(""), "[crypto_cta_manager] CTA 运行监控\n");
}

fn notice(message: &str, recovery: bool) -> PendingNotice {
    PendingNotice { key: "orders:x:trade01".to_string(), message: message.to_string(), recovery }
}

#[test]
fn notice_content_lists_thirty_notices_and_counts_the_rest() {
    let notices = vec![notice("a", false), notice("b", true)];
    assert_eq!(
        notice_content("", &notices),
        "[crypto_cta_manager] CTA 运行监控\n[告警] a\n[恢复] b\n"
    );
    let many: Vec<PendingNotice> = (0..32).map(|i| notice(&format!("n{i}"), false)).collect();
    let text = notice_content("h", &many);
    assert!(text.starts_with("[h][crypto_cta_manager] CTA 运行监控\n[告警] n0\n"));
    assert!(text.contains("[告警] n29\n"));
    assert!(!text.contains("n30"));
    assert!(text.ends_with("另有 2 条告警未展开\n"));
}

#[test]
fn over_long_notice_content_is_cut() {
    let long = "x".repeat(5_000);
    let text = notice_text_of("", &vec![notice(&long, false)]);
    assert!(text.len() > 4_000);
    let cut = truncate_notice(text.clone());
    assert_eq!(cut.len(), 3_980 + 4);
    assert!(cut.ends_with("...\n"));
    assert_eq!(&cut[..3_980], &text[..3_980]);
}

#[test]
fn webhook_signature_signs_time_and_secret() {
    let mut mac = <Hmac<sha2::Sha256> as Mac>::new_from_slice(b"secret").unwrap();
    mac.update(b"1700000000000\nsecret");
    let expected = base64::engine::general_purpose::STANDARD.encode(mac.finalize().into_bytes());
    assert_eq!(webhook_signature(1_700_000_000_000, "secret"), expected);
    assert_ne!(webhook_signature(1_700_000_000_001, "secret"), expected);
}

#[test]
fn position_state_rules() {
    let source = test_source("binance-futures");
    let fresh = ExecSnapshotState { source_id: "src".to_string(), snapshot_ts_ms: 1_000, position_ready: true };
    assert!(check_position_state(&source, 60, &fresh, 1_000_000 + 60_000_000).is_empty());
    let issues = check_position_state(&source, 60, &fresh, 1_000_000 + 60_001_000);
    assert_eq!(issues.len(), 1);
    assert_eq!(issues[0].key, "position:stale:src");
    assert_eq!(issues[0].message, "[src] Exec pre-trade 仓位快照已超过 60 秒没有更新");
    let bad = ExecSnapshotState { source_id: "other".to_string(), snapshot_ts_ms: 0, position_ready: false };
    let issues = check_position_state(&source, 60, &bad, 5_000_000);
    let keys: Vec<&str> = issues.iter().map(|i| i.key.as_str()).collect();
    assert_eq!(keys, vec!["position:source-id:src", "position:stale:src", "position:not-ready:src"]);
    assert_eq!(issues[0].message, "[src] Exec Viz snapshot source_id 不匹配: other");
    assert_eq!(issues[2].message, "[src] Exec pre-trade position_ready=false，仓位尚未准备好");
    assert_eq!(micros_to_millis(-1_999), -1);
    assert_eq!(micros_to_millis(i64::MIN), i64::MIN / 1000);
}
