use crypto_cta_manager::market_rules::rapidx::{
    claims_target_perp, is_target, parse_symbol, required_value, target_venue, TargetVenue,
};
use crypto_cta_manager::market_rules::{
    execution_backend, validate_portfolio, BackendError, DecimalField, MarketRule,
    MarketRulesSnapshot, RuleDecimal, SnapshotErrorKind,
};

fn values(pairs: &[(&str, &str)]) -> Vec<(String, String)> {
    pairs.iter().map(|(k, v)| (k.to_string(), v.to_string())).collect()
}

fn decimal(text: &str) -> RuleDecimal {
    RuleDecimal { text: text.to_string(), parsed_bits: text.parse::<f64>().ok().map(f64::to_bits) }
}

#[test]
fn source_backend_matches_exec_mapping_precedence_and_fails_closed() {
    for mapping in ["*=native,okex=rapidx", "okex=rapidx,*=native"] {
        let values = values(&[("TRADE_ENGINE_EXEC_BACKEND_MAP", mapping)]);
        assert_eq!(execution_backend("okex-futures", &values).unwrap(), "ltp");
        assert_eq!(execution_backend("binance-futures", &values).unwrap(), "native");
    }
    for mapping in [
        "okx=rapidx",
        "okex=typo",
        "okex=rapidx,okex=native",
        "*=native,*=rapidx",
        "rapidx",
    ] {
        let values = values(&[("TRADE_ENGINE_EXEC_BACKEND_MAP", mapping)]);
        assert!(execution_backend("okex-futures", &values).is_err());
    }
    let values = values(&[("TRADE_ENGINE_EXEC_BACKEND", "rapidx")]);
    assert!(execution_backend("binance-coin-futures", &values).is_err());
    assert!(!validate_portfolio("../123"));
    assert!(validate_portfolio("123"));
}

#[test]
fn backend_errors_name_their_cause() {
    let v = values(&[("TRADE_ENGINE_EXEC_BACKEND_MAP", "okx=rapidx")]);
    assert_eq!(execution_backend("okex-futures", &v), Err(BackendError::UnknownExchange));
    let v = values(&[("TRADE_ENGINE_EXEC_BACKEND_MAP", "rapidx")]);
    assert_eq!(execution_backend("okex-futures", &v), Err(BackendError::MissingEquals));
    let v = values(&[("TRADE_ENGINE_EXEC_BACKEND_MAP", "*=native, *=ltp")]);
    assert_eq!(execution_backend("okex-futures", &v), Err(BackendError::DuplicateWildcard));
    let v = values(&[("TRADE_ENGINE_EXEC_BACKEND_MAP", " OKEX = RapidX , okex=native")]);
    assert_eq!(execution_backend("okex-futures", &v), Err(BackendError::DuplicateExchange));
    let v = values(&[("TRADE_ENGINE_EXEC_BACKEND", "fast")]);
    assert_eq!(execution_backend("okex-futures", &v), Err(BackendError::InvalidBackend));
    assert_eq!(execution_backend("gate-futures", &v), Err(BackendError::UnsupportedVenue));
}

#[test]
fn backend_default_and_blank_entries() {
    let v = values(&[
        ("TRADE_ENGINE_EXEC_BACKEND", " LiquidityTech "),
        ("TRADE_ENGINE_EXEC_BACKEND_MAP", " , ,bybit=native,"),
    ]);
    assert_eq!(execution_backend("okex-futures", &v), Ok("ltp"));
    assert_eq!(execution_backend("binance-futures", &values(&[])), Ok("native"));
}

fn rule(price_tick: &str) -> MarketRule {
    MarketRule {
        status: "TRADING".to_string(),
        base_asset: "BTC".to_string(),
        quote_asset: "USDT".to_string(),
        price_tick: decimal(price_tick),
        qty_step: decimal("0.001"),
        min_qty: decimal("0.001"),
        min_notional: Some(decimal("5")),
        contract_multiplier: Some(decimal("1")),
    }
}

fn snapshot(symbol: &str, rule: MarketRule) -> MarketRulesSnapshot {
    MarketRulesSnapshot {
        venue: "binance-futures".to_string(),
        execution_backend: "native".into(),
        portfolio_id: None,
        fetched_at_us: 1,
        symbols: vec![(symbol.to_string(), rule)],
    }
}

#[test]
fn rejects_non_positive_rule_values() {
    let snapshot = snapshot("BTCUSDT", rule("0"));
    assert!(snapshot.validate().is_err());
}

#[test]
fn snapshot_rules_and_their_order() {
    assert!(snapshot("BTCUSDT", rule("0.1")).validate().is_ok());
    assert!(snapshot("牛来USDT", rule("0.1")).validate().is_ok());
    assert_eq!(
        snapshot("btcusdt", rule("0.1")).validate().unwrap_err().kind,
        SnapshotErrorKind::SymbolNotNormalized
    );
    assert_eq!(
        snapshot("BTCUSDT", rule("abc")).validate().unwrap_err().kind,
        SnapshotErrorKind::NotDecimal(DecimalField::PriceTick)
    );
    assert_eq!(
        snapshot("BTCUSDT", rule("inf")).validate().unwrap_err().kind,
        SnapshotErrorKind::NotPositive(DecimalField::PriceTick)
    );
    let mut s = snapshot("BTCUSDT", rule("0.1"));
    s.execution_backend = "ltp".to_string();
    assert_eq!(s.validate().unwrap_err().kind, SnapshotErrorKind::InvalidScope);
    s.portfolio_id = Some("12a".to_string());
    assert_eq!(s.validate().unwrap_err().kind, SnapshotErrorKind::InvalidPortfolio);
    s.portfolio_id = Some("123".to_string());
    assert!(s.validate().is_ok());
    s.venue = "binance-coin-futures".to_string();
    assert_eq!(s.validate().unwrap_err().kind, SnapshotErrorKind::InvalidScope);
    let mut s = snapshot("BTCUSDT", rule("0.1"));
    s.fetched_at_us = 0;
    assert_eq!(s.validate().unwrap_err().kind, SnapshotErrorKind::NonPositiveFetchedAt);
    s.symbols.clear();
    s.fetched_at_us = 5;
    assert_eq!(s.validate().unwrap_err().kind, SnapshotErrorKind::EmptySnapshot);
}

#[test]
fn rapidx_symbols_split_into_four_parts() {
    let p = parse_symbol("BINANCE_PERP_BTC_USDT").unwrap();
    assert_eq!((p.exchange.as_str(), p.kind.as_str(), p.base.as_str(), p.quote.as_str()), ("BINANCE", "PERP", "BTC", "USDT"));
    assert!(parse_symbol("BINANCE_PERP_BTC_USDT_EXTRA").is_none());
    assert!(parse_symbol("KRAKEN_PERP_BTC_USDT").is_none());
    assert!(parse_symbol("OKX_PERP__USDT").is_none());
    assert!(parse_symbol("OKX__ETH_USDT").is_some());
    let t = target_venue("okex-futures").unwrap();
    assert_eq!(t, TargetVenue::Okx);
    assert!(target_venue("gate-futures").is_err());
    assert!(is_target(Some(&parse_symbol("OKX_PERP_ETH_USDT").unwrap()), t));
    assert!(!is_target(Some(&parse_symbol("OKX_SPOT_ETH_USDT").unwrap()), t));
    assert!(!is_target(None, t));
    assert_eq!(t.native_symbol(&parse_symbol("OKX_PERP_ETH_USDT").unwrap()), "ETH-USDT-SWAP");
    assert_eq!(
        TargetVenue::Binance.native_symbol(&parse_symbol("BINANCE_PERP_BTC_USDT").unwrap()),
        "BTCUSDT"
    );
    assert!(claims_target_perp("BINANCE_PERP_BTC_USDT_EXTRA", TargetVenue::Binance));
    assert!(!claims_target_perp("BINANCE_SPOT_BTC_USDT", TargetVenue::Binance));
    assert_eq!(TargetVenue::Binance.status("live").unwrap(), "TRADING");
    assert_eq!(TargetVenue::Binance.status("suspend").unwrap(), "SUSPEND");
    assert_eq!(TargetVenue::Okx.status("suspend").unwrap(), "suspend");
    assert!(TargetVenue::Binance.status("paused").is_err());
    let v = values(&[("LTP_API_KEY", "k"), ("LTP_API_SECRET", "  ")]);
    assert_eq!(required_value(&v, "LTP_API_KEY"), Ok("k"));
    assert!(required_value(&v, "LTP_API_SECRET").is_err());
    assert!(required_value(&v, "LTP_REST_URL").is_err());
}

#[test]
fn venue_errors_name_the_venue() {
    let mut s = snapshot("BTCUSDT", rule("0.1"));
    s.venue = "gate-futures".to_string();
    assert_eq!(s.validate().unwrap_err().message(), "unsupported market-rules venue: gate-futures");
    let mut s = snapshot("BTCUSDT", rule("0.1"));
    s.symbols.clear();
    assert_eq!(
        s.validate().unwrap_err().message(),
        "market-rules snapshot is empty for venue binance-futures"
    );
}
