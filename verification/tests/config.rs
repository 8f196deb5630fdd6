use crypto_cta_manager::config::urls::{host_verdict, http_origin_host, redis_url_host, unbracket_host};
use crypto_cta_manager::config::{
    default_database_url_env, is_supported_redis_db_path, validate_gateway_prefix,
    validate_source_id, AppConfig, ConfigErrorKind, ConfigUrlChecks, DatabaseConfig,
    IngestionConfig, OrderConfigSettings, RedisSettings, SourceConfig, SourceUrlChecks,
    TwapConfig, UrlCheck,
};

fn config_with_sources(sources: Vec<SourceConfig>) -> AppConfig {
    AppConfig {
        database: DatabaseConfig { url_env: default_database_url_env(), max_connections: 4 },
        ingestion: IngestionConfig::default(),
        order_config: OrderConfigSettings::default(),
        redis: RedisSettings::default(),
        twap: TwapConfig::default(),
        sources,
    }
}

fn source(id: &str, path: &str) -> SourceConfig {
    SourceConfig {
        id: id.to_string(),
        account: id.to_string(),
        alias: None,
        venue: "binance-futures".to_string(),
        rocksdb_path: path.to_string(),
        enabled: true,
        start_ts_us: None,
        poll_interval_secs: None,
        estimated_fee_rate_bits: Some(0.0004_f64.to_bits()),
        gateway_prefix: Some(format!("/{id}")),
        exec_config_url: None,
        exec_viz_url: None,
        ipc_namespace: None,
        account_ipc_service: None,
        share_unit_usdt_bits: None,
    }
}

/// The IP literals these tests use: `127.x.y.z` and `::1` are loopback.
fn test_ip_is_loopback(host: &str) -> bool {
    host.starts_with("127.") || host == "::1"
}

fn check_origin(url: &str) -> UrlCheck {
    match http_origin_host(url) {
        Err(check) => check,
        Ok(host) => host_verdict(&host, test_ip_is_loopback(&host)),
    }
}

fn check_redis(url: &str) -> UrlCheck {
    match redis_url_host(url) {
        Err(check) => check,
        Ok(host) => host_verdict(&host, test_ip_is_loopback(&host)),
    }
}

/// What the loopback check makes of every URL of the configuration.
fn loopback_checks(config: &AppConfig) -> ConfigUrlChecks {
    ConfigUrlChecks {
        redis: check_redis(&config.redis.url),
        sources: config
            .sources
            .iter()
            .map(|s| SourceUrlChecks {
                exec_config: s.exec_config_url.as_deref().map_or(UrlCheck::Loopback, check_origin),
                exec_viz: s.exec_viz_url.as_deref().map_or(UrlCheck::Loopback, check_origin),
            })
            .collect(),
    }
}

fn validate(config: &AppConfig) -> Result<(), crypto_cta_manager::config::ConfigError> {
    config.validate(&loopback_checks(config))
}

#[test]
fn accepts_multiple_independent_sources() {
    let config = config_with_sources(vec![
        source("binance_exec_trade01", "/srv/trade01/persist_manager"),
        source("binance_exec_trade02", "/srv/trade02/persist_manager"),
    ]);
    validate(&config).unwrap();
}

#[test]
fn rejects_duplicate_source_ids() {
    let config = config_with_sources(vec![
        source("binance_exec_trade01", "/srv/trade01/persist_manager"),
        source("binance_exec_trade01", "/srv/trade02/persist_manager"),
    ]);
    let mut second = config.clone();
    second.sources[1].gateway_prefix = Some("/other".to_string());
    assert!(validate(&config).unwrap_err().message().contains("duplicate"));
    assert!(validate(&second).unwrap_err().message().contains("duplicate"));
}

#[test]
fn rejects_duplicate_enabled_paths() {
    let config = config_with_sources(vec![
        source("binance_exec_trade01", "/srv/shared/persist_manager"),
        source("binance_exec_trade02", "/srv/shared/persist_manager"),
    ]);
    assert!(validate(&config).unwrap_err().message().contains("share"));
}

#[test]
fn rejects_invalid_estimated_fee_rate() {
    let mut invalid = source("binance_exec_trade01", "/srv/trade01/persist_manager");
    invalid.estimated_fee_rate_bits = Some(f64::NAN.to_bits());
    assert!(validate(&config_with_sources(vec![invalid]))
        .unwrap_err()
        .message()
        .contains("estimated_fee_rate"));
}

#[test]
fn rejects_invalid_or_duplicate_gateway_prefixes() {
    let mut invalid = source("binance_exec_trade01", "/srv/trade01/persist_manager");
    invalid.gateway_prefix = Some("/exec/trade01".to_string());
    assert!(validate(&config_with_sources(vec![invalid]))
        .unwrap_err()
        .message()
        .contains("gateway_prefix"));

    let mut first = source("binance_exec_trade01", "/srv/trade01/persist_manager");
    let mut second = source("binance_exec_trade02", "/srv/trade02/persist_manager");
    first.gateway_prefix = Some("/exec_trade".to_string());
    second.gateway_prefix = Some("/exec_trade".to_string());
    assert!(validate(&config_with_sources(vec![first, second]))
        .unwrap_err()
        .message()
        .contains("duplicate source gateway_prefix"));
}

#[test]
fn nav_fee_rate_is_required_only_when_requested() {
    let mut without_rate = source("binance_exec_trade01", "/srv/trade01/persist_manager");
    without_rate.estimated_fee_rate_bits = None;
    validate(&config_with_sources(vec![without_rate.clone()])).unwrap();
    assert!(without_rate.nav_fee_rate().is_err());
}

#[test]
fn exec_loopback_origins_must_be_http_loopback() {
    let mut valid = source("binance_exec_trade01", "/srv/trade01/persist_manager");
    valid.exec_config_url = Some("http://127.0.0.1:18161/".to_string());
    valid.exec_viz_url = Some("http://127.0.0.1:10041/".to_string());
    validate(&config_with_sources(vec![valid])).unwrap();

    for url in [
        "https://127.0.0.1:18161/",
        "http://172.16.30.42:18161/",
        "http://127.0.0.1:18161/api/",
    ] {
        let mut invalid = source("binance_exec_trade01", "/srv/trade01/persist_manager");
        invalid.exec_config_url = Some(url.to_string());
        assert!(validate(&config_with_sources(vec![invalid])).is_err());
        let mut invalid_viz = source("binance_exec_trade01", "/srv/trade01/persist_manager");
        invalid_viz.exec_viz_url = Some(url.replace("18161", "10041"));
        assert!(validate(&config_with_sources(vec![invalid_viz])).is_err());
    }
}

#[test]
fn redis_url_must_be_loopback() {
    let mut config = config_with_sources(vec![source(
        "binance_exec_trade01",
        "/srv/trade01/persist_manager",
    )]);
    validate(&config).unwrap();
    config.redis.url = "redis://172.16.30.42:6379/0".to_string();
    assert!(validate(&config).unwrap_err().message().contains("loopback"));
    config.redis.url = "http://127.0.0.1:6379/0".to_string();
    assert!(validate(&config).is_err());
}

#[test]
fn origin_hosts_come_from_the_parsed_url() {
    assert_eq!(http_origin_host("http://127.0.0.1:18161/"), Ok("127.0.0.1".to_string()));
    assert_eq!(http_origin_host("http://[::1]:9000"), Ok("::1".to_string()));
    assert_eq!(http_origin_host("http://LocalHost:80/"), Ok("localhost".to_string()));
    assert_eq!(http_origin_host("http://example.com"), Ok("example.com".to_string()));
    assert_eq!(http_origin_host("https://127.0.0.1/"), Err(UrlCheck::NotOrigin));
    assert_eq!(http_origin_host("http://user@127.0.0.1/"), Err(UrlCheck::NotOrigin));
    assert_eq!(http_origin_host("http://127.0.0.1/?q=1"), Err(UrlCheck::NotOrigin));
    assert_eq!(http_origin_host("http://127.0.0.1/#top"), Err(UrlCheck::NotOrigin));
    assert_eq!(http_origin_host("not a url"), Err(UrlCheck::Unparsable));
    assert_eq!(redis_url_host("redis://127.0.0.1:6379/15"), Ok("127.0.0.1".to_string()));
    assert_eq!(redis_url_host("redis://127.0.0.1:6379/16"), Err(UrlCheck::NotOrigin));
    assert_eq!(redis_url_host("redis:/0"), Err(UrlCheck::NoHost));
    assert_eq!(host_verdict("LOCALHOST", false), UrlCheck::Loopback);
    assert_eq!(host_verdict("example.com", false), UrlCheck::NotLoopback);
    assert_eq!(host_verdict("::1", true), UrlCheck::Loopback);
    assert_eq!(unbracket_host("[[::1]]"), "::1");
}

#[test]
fn display_name_prefers_alias() {
    let mut source = source("binance_exec_trade01", "/srv/trade01/persist_manager");
    source.account = "trade01".into();
    assert_eq!(source.display_name(), "trade01");
    source.alias = Some("bahll202210".into());
    assert_eq!(source.display_name(), "bahll202210");
    source.alias = Some("   ".into());
    assert_eq!(source.display_name(), "trade01");
}

#[test]
fn twap_path_must_not_reuse_exec_persist_manager() {
    let mut config = config_with_sources(vec![source(
        "binance_exec_trade01",
        "/srv/trade01/persist_manager",
    )]);
    config.twap.enabled = false;
    config.twap.rocksdb_path = "/srv/trade01/persist_manager".to_string();
    assert!(validate(&config).unwrap_err().message().contains("must not reuse"));
    config.twap.rocksdb_path = "/srv/trade01//persist_manager/".to_string();
    assert_eq!(validate(&config).unwrap_err().kind, ConfigErrorKind::TwapPathReused);
}

#[test]
fn service_names_default_to_the_source_id() {
    let mut s = source("binance_exec_trade01", "/srv/trade01/persist_manager");
    assert_eq!(
        s.reload_notify_service_name().as_deref(),
        Some("binance_exec_trade01/batch_exec_pubs/reload_notify")
    );
    assert_eq!(
        s.account_ipc_service_name().as_deref(),
        Some("binance_exec_trade01/account_pubs/binance_pm")
    );
    s.ipc_namespace = Some(" ns ".to_string());
    s.account_ipc_service = Some("account_pubs/okx".to_string());
    assert_eq!(s.account_ipc_service_name().as_deref(), Some("ns/account_pubs/okx"));
    s.id = String::new();
    s.ipc_namespace = None;
    assert_eq!(s.reload_notify_service_name(), None);
}

#[test]
fn share_unit_defaults_to_ten_thousand() {
    let mut s = source("a", "/a");
    assert_eq!(f64::from_bits(s.share_unit_usdt()), 10_000.0);
    s.share_unit_usdt_bits = Some(250.0_f64.to_bits());
    assert_eq!(f64::from_bits(s.share_unit_usdt()), 250.0);
    s.share_unit_usdt_bits = Some((-1.0_f64).to_bits());
    assert_eq!(f64::from_bits(s.share_unit_usdt()), 10_000.0);
    assert_eq!(s.poll_interval_secs(&IngestionConfig::default()), 60);
}

#[test]
fn id_prefix_and_redis_path_rules() {
    assert!(validate_source_id("binance_exec-01"));
    assert!(!validate_source_id(""));
    assert!(!validate_source_id("a.b"));
    assert!(!validate_source_id(&"x".repeat(129)));
    assert!(validate_gateway_prefix("/exec_trade01"));
    assert!(!validate_gateway_prefix("/"));
    assert!(!validate_gateway_prefix("exec"));
    assert!(is_supported_redis_db_path(""));
    assert!(is_supported_redis_db_path("/"));
    assert!(is_supported_redis_db_path("/15"));
    assert!(!is_supported_redis_db_path("/16"));
    assert!(!is_supported_redis_db_path("/01x"));
}

#[test]
fn global_rules_come_before_sources() {
    let mut config = config_with_sources(vec![]);
    assert_eq!(validate(&config).unwrap_err().kind, ConfigErrorKind::NoSources);
    config.database.max_connections = 0;
    assert_eq!(validate(&config).unwrap_err().kind, ConfigErrorKind::ZeroMaxConnections);
    config.database.url_env = "  ".to_string();
    assert_eq!(validate(&config).unwrap_err().kind, ConfigErrorKind::EmptyDatabaseUrlEnv);
    let mut config = config_with_sources(vec![source("a", "relative/path")]);
    assert_eq!(validate(&config).unwrap_err().kind, ConfigErrorKind::SourcePathRelative);
    config.twap.enabled = true;
    config.twap.interval_ms = 0;
    assert_eq!(validate(&config).unwrap_err().kind, ConfigErrorKind::ZeroTwapInterval);
}

#[test]
fn relative_source_path_error_names_the_path() {
    let config = config_with_sources(vec![source("trade01", "relative/persist")]);
    let err = validate(&config).unwrap_err();
    assert_eq!(err.kind, ConfigErrorKind::SourcePathRelative);
    assert_eq!(
        err.message(),
        "source trade01 rocksdb_path must be absolute: relative/persist"
    );
}

#[test]
fn invalid_source_id_error_quotes_the_id() {
    let config = config_with_sources(vec![source("bad id", "/srv/a")]);
    let err = validate(&config).unwrap_err();
    assert_eq!(err.kind, ConfigErrorKind::InvalidSourceId);
    assert_eq!(
        err.message(),
        "source id must contain 1-128 ASCII letters, digits, '_' or '-': \"bad id\""
    );
    let quoted = config_with_sources(vec![source("a\"b", "/srv/a")]);
    assert_eq!(
        validate(&quoted).unwrap_err().message(),
        "source id must contain 1-128 ASCII letters, digits, '_' or '-': \"a\\\"b\""
    );
}
