use crypto_cta_manager::json::{JsonNumber, JsonValue};
use crypto_cta_manager::market_rules::symbol_info::{
    parse_sym_info, parse_sym_info_response, RapidxField, SymInfoErrorKind,
};
use crypto_cta_manager::market_rules::MarketRule;

const DECIMAL_TEXTS: [&str; 8] = ["0.001", "0.10", "0", "1", "2", "5.00", "0.01", "1.0"];

fn s(x: &str) -> JsonValue {
    JsonValue::String(x.to_string())
}

fn obj(members: Vec<(&str, JsonValue)>) -> JsonValue {
    JsonValue::Object(members.into_iter().map(|(k, v)| (k.to_string(), v)).collect())
}

fn binance_row(state: &str) -> Vec<(&'static str, JsonValue)> {
    vec![
        ("sym", s("BINANCE_PERP_BTC_USDT")),
        ("originalSymbol", s("BTCUSDT")),
        ("state", s(state)),
        ("lotSize", s("0.001")),
        ("tickSize", s("0.10")),
        ("minSize", s("0.001")),
        ("minNotional", s("0")),
        ("contractSize", s("1")),
    ]
}

fn with_field(mut row: Vec<(&'static str, JsonValue)>, name: &str, value: JsonValue) -> JsonValue {
    let at = row.iter().position(|member| member.0 == name).unwrap();
    row[at].1 = value;
    obj(row)
}

fn response(data: JsonValue) -> JsonValue {
    obj(vec![("code", s("200000")), ("data", data)])
}

fn numbers() -> Vec<(u64, String)> {
    vec![(1.0_f64.to_bits(), "1.0".to_string())]
}

fn values() -> Vec<(String, u64)> {
    DECIMAL_TEXTS.iter().map(|t| (t.to_string(), t.parse::<f64>().unwrap().to_bits())).collect()
}

fn parse(response: &JsonValue, venue: &str) -> Result<Vec<(String, MarketRule)>, SymInfoErrorKind> {
    parse_sym_info_response(response, venue, &numbers(), &values()).map_err(|e| e.kind)
}

fn rule<'a>(rules: &'a [(String, MarketRule)], symbol: &str) -> &'a MarketRule {
    &rules.iter().find(|(k, _)| k == symbol).unwrap().1
}

#[test]
fn parses_binance_and_preserves_decimal_strings() {
    let data = obj(vec![
        ("BINANCE_PERP_BTC_USDT", obj(binance_row("live"))),
        ("BINANCE_SPOT_BTC_USDT", obj(vec![("sym", s("BINANCE_SPOT_BTC_USDT"))])),
    ]);
    let rules = parse(&response(data), "binance-futures").unwrap();
    assert_eq!(rules.len(), 1);
    let rule = rule(&rules, "BTCUSDT");
    assert_eq!(rule.status, "TRADING");
    assert_eq!(rule.price_tick.text, "0.10");
    assert!(rule.min_notional.is_none());
    assert_eq!(rule.contract_multiplier.as_ref().map(|d| d.text.as_str()), Some("1"));
}

#[test]
fn parses_okx_contract_quantity_rules() {
    let row = obj(vec![
        ("sym", s("OKX_PERP_ETH_USDT")),
        ("originalSymbol", s("ETH-USDT-SWAP")),
        ("state", s("suspend")),
        ("lotSize", s("1")),
        ("tickSize", s("0.01")),
        ("minSize", s("1")),
        ("minNotional", s("5.00")),
        ("contractSize", s("0.01")),
    ]);
    let rules = parse(&response(obj(vec![("OKX_PERP_ETH_USDT", row)])), "okex-futures").unwrap();
    let rule = rule(&rules, "ETHUSDT");
    assert_eq!(rule.status, "suspend");
    assert_eq!(rule.contract_multiplier.as_ref().map(|d| d.text.as_str()), Some("0.01"));
    assert_eq!(rule.min_notional.as_ref().map(|d| d.text.as_str()), Some("5.00"));
}

#[test]
fn rejects_target_malformed_records_and_unknown_states() {
    let bad_contract = with_field(binance_row("live"), "contractSize", s("2"));
    assert!(parse(&response(obj(vec![("BINANCE_PERP_BTC_USDT", bad_contract)])), "binance-futures").is_err());
    let bad_state = obj(binance_row("paused"));
    assert!(parse(&response(obj(vec![("BINANCE_PERP_BTC_USDT", bad_state)])), "binance-futures").is_err());
}

#[test]
fn rejects_bad_business_code_target_key_and_target_row_mismatch() {
    let bad_code = obj(vec![("code", s("400000")), ("data", obj(vec![]))]);
    assert!(parse(&bad_code, "binance-futures").is_err());
    let bad_key = response(obj(vec![("BINANCE_PERP_BTC_USDT_EXTRA", obj(vec![]))]));
    assert!(parse(&bad_key, "binance-futures").is_err());
    let mismatch = response(obj(vec![(
        "BINANCE_SPOT_BTC_USDT",
        obj(vec![("sym", s("BINANCE_PERP_BTC_USDT"))]),
    )]));
    assert!(parse(&mismatch, "binance-futures").is_err());
}

#[test]
fn accepts_numeric_binance_contract_size_one() {
    let row = with_field(
        binance_row("live"),
        "contractSize",
        JsonValue::Number(JsonNumber::Float(1.0_f64.to_bits())),
    );
    let rules = parse(&response(obj(vec![("BINANCE_PERP_BTC_USDT", row)])), "binance-futures").unwrap();
    assert_eq!(rule(&rules, "BTCUSDT").contract_multiplier.as_ref().map(|d| d.text.as_str()), Some("1.0"));
}

#[test]
fn rejects_duplicate_raw_symbol_keys() {
    let data = obj(vec![("BINANCE_PERP_BTC_USDT", obj(vec![])), ("BINANCE_PERP_BTC_USDT", obj(vec![]))]);
    assert!(parse(&response(data), "binance-futures").is_err());
}

#[test]
fn symbol_info_refusals_name_their_cause() {
    let venues = parse_sym_info(&obj(vec![]), "gate-futures", &numbers(), &values()).unwrap_err();
    assert_eq!(venues.message(), "unsupported RapidX market-rules venue: gate-futures");
    assert_eq!(parse(&response(s("x")), "binance-futures").unwrap_err(), SymInfoErrorKind::NotSymbolMap);
    let empty = parse_sym_info(&obj(vec![]), "okex-futures", &numbers(), &values()).unwrap_err();
    assert_eq!(empty.message(), "RapidX sym info contained no target okex-futures PERP USDT records");
    let bad_key = parse_sym_info(&obj(vec![("BINANCE_PERP_BTC_USDT_EXTRA", obj(vec![]))]), "binance-futures", &numbers(), &values())
        .unwrap_err();
    assert_eq!(bad_key.kind, SymInfoErrorKind::MalformedTargetKey);
    let orig = with_field(binance_row("live"), "originalSymbol", s("BTC-USDT"));
    let err = parse_sym_info(&obj(vec![("BINANCE_PERP_BTC_USDT", orig)]), "binance-futures", &numbers(), &values()).unwrap_err();
    assert_eq!(err.message(), "RapidX originalSymbol is incoherent for BINANCE_PERP_BTC_USDT: expected BTCUSDT, got BTC-USDT");
    let contract = with_field(binance_row("live"), "contractSize", s("2"));
    let err = parse_sym_info(&obj(vec![("BINANCE_PERP_BTC_USDT", contract)]), "binance-futures", &numbers(), &values()).unwrap_err();
    assert_eq!(err.message(), "RapidX Binance PERP contractSize must be 1 for BINANCE_PERP_BTC_USDT, got 2");
    let tick = with_field(binance_row("live"), "tickSize", s("abc"));
    let err = parse_sym_info(&obj(vec![("BINANCE_PERP_BTC_USDT", tick)]), "binance-futures", &numbers(), &values()).unwrap_err();
    assert_eq!(err.kind, SymInfoErrorKind::UnparsableDecimal(RapidxField::TickSize));
    assert_eq!(err.message(), "RapidX invalid decimal BINANCE_PERP_BTC_USDT.tickSize=abc");
    let missing = obj(binance_row("live").into_iter().filter(|m| m.0 != "lotSize").collect());
    let err = parse_sym_info(&obj(vec![("BINANCE_PERP_BTC_USDT", missing)]), "binance-futures", &numbers(), &values()).unwrap_err();
    assert_eq!(err.message(), "RapidX required field is missing: BINANCE_PERP_BTC_USDT.lotSize");
}

#[test]
fn symbol_info_rules_come_in_symbol_order_each_once() {
    let eth = obj(vec![
        ("sym", s("BINANCE_PERP_ETH_USDT")),
        ("originalSymbol", s("ETHUSDT")),
        ("state", s("live")),
        ("lotSize", s("0.001")),
        ("tickSize", s("0.01")),
        ("minSize", s("0.001")),
        ("minNotional", s("5.00")),
        ("contractSize", s("1")),
    ]);
    let data = obj(vec![("BINANCE_PERP_ETH_USDT", eth), ("BINANCE_PERP_BTC_USDT", obj(binance_row("live")))]);
    let rules = parse_sym_info(&data, "binance-futures", &numbers(), &values()).unwrap();
    let symbols: Vec<&str> = rules.iter().map(|(k, _)| k.as_str()).collect();
    assert_eq!(symbols, vec!["BTCUSDT", "ETHUSDT"]);
    let lower = with_field(binance_row("live"), "sym", s("BINANCE_PERP_BTC_USDT"));
    let mut twice = vec![("BINANCE_PERP_BTC_USDT", obj(binance_row("live")))];
    twice.push(("BINANCE_PERP_BTC_USDT", lower));
    let err = parse_sym_info(&obj(twice), "binance-futures", &numbers(), &values()).unwrap_err();
    assert_eq!(err.message(), "duplicate RapidX target symbol: BTCUSDT");
}
