use base64::Engine;
use crypto_cta_manager::exchange_leverage::credentials::{source_credentials, AccountMode, ExchangeCredentials};
use crypto_cta_manager::exchange_leverage::signing::{
    binance_set_leverage_request, binance_signed_url, okx_signed_request, put_param, trim_end_char,
};
use crypto_cta_manager::exchange_leverage::timestamp::{civil_from_days, format_rfc3339_millis};
use hmac::Mac;
use crypto_cta_manager::exchange_leverage::responses::{
    parse_binance_fee_tier, parse_binance_multi_assets_mode, parse_binance_symbol_leverage,
    parse_okx_acct_lv, parse_okx_instrument_group_id, parse_okx_symbol_leverage, json_i64,
    ResponseError,
};
use crypto_cta_manager::json::{JsonNumber, JsonValue};
use crypto_cta_manager::exchange_leverage::{
    encode_query,
    okx_swap_inst_id, optional_env, parse_env_text, parse_okx_fee_level, required_env,
    required_trading_account_mode, sign_hmac_base64, sign_hmac_hex, unquote,
};

#[test]
fn formats_okx_swap_symbol() {
    assert_eq!(okx_swap_inst_id("BTCUSDT"), "BTC-USDT-SWAP");
}

#[test]
fn okx_instrument_keeps_bare_usdt_and_other_quotes() {
    assert_eq!(okx_swap_inst_id("USDT"), "USDT-USDT-SWAP");
    assert_eq!(okx_swap_inst_id("ETHBTC"), "ETHBTC-USDT-SWAP");
}

#[test]
fn parses_export_assignments_without_printing_secrets() {
    let values = parse_env_text(
        "# comment\nexport BINANCE_API_KEY='key'\n  BINANCE_API_SECRET = \"secret\" \n=orphan\nnoequals\nBINANCE_API_KEY=second\n",
    );
    assert_eq!(optional_env(&values, "BINANCE_API_KEY").as_deref(), Some("second"));
    assert_eq!(required_env(&values, "BINANCE_API_SECRET"), Ok("secret".to_string()));
    assert!(required_env(&values, "OKX_PASSPHRASE").is_err());
    assert_eq!(values.len(), 2);
}

#[test]
fn unquote_strips_one_matching_pair() {
    assert_eq!(unquote("\"abc\""), "abc");
    assert_eq!(unquote("'abc'"), "abc");
    assert_eq!(unquote("\"abc'"), "\"abc'");
    assert_eq!(unquote("\""), "\"");
    assert_eq!(unquote("\"\""), "");
}

#[test]
fn okx_fee_levels_read_their_digits() {
    assert_eq!(parse_okx_fee_level("Lv1"), Some(1));
    assert_eq!(parse_okx_fee_level("VIP 12"), Some(12));
    assert_eq!(parse_okx_fee_level("Lv"), None);
    assert_eq!(parse_okx_fee_level("9999999999"), None);
}

#[test]
fn account_modes_and_signatures() {
    assert!(required_trading_account_mode("okex-futures").starts_with("OKX unified"));
    assert_eq!(required_trading_account_mode("binance-futures"), "Binance USD-M Multi-Assets Mode");
    assert_eq!(
        sign_hmac_hex("key", "The quick brown fox jumps over the lazy dog"),
        "f7bc83f430538424b13298e6aa6fb143ef4d59a14946175997479dbc2d1a3cd8"
    );
    assert_eq!(
        sign_hmac_base64("key", "The quick brown fox jumps over the lazy dog"),
        "97yD9DBThCSxMpjmqm+xQ+9NWaFJRhdZl0edvC0aPNg="
    );
}

/// The JSON value of a response body, as the readers take it.
fn json(body: &str) -> JsonValue {
    fn convert(v: &serde_json::Value) -> JsonValue {
        match v {
            serde_json::Value::Null => JsonValue::Null,
            serde_json::Value::Bool(b) => JsonValue::Bool(*b),
            serde_json::Value::Number(n) => JsonValue::Number(if let Some(u) = n.as_u64() {
                JsonNumber::PosInt(u)
            } else if let Some(i) = n.as_i64() {
                JsonNumber::NegInt(i)
            } else {
                JsonNumber::Float(n.as_f64().unwrap().to_bits())
            }),
            serde_json::Value::String(s) => JsonValue::String(s.clone()),
            serde_json::Value::Array(items) => JsonValue::Array(items.iter().map(convert).collect()),
            serde_json::Value::Object(members) => JsonValue::Object(
                members.iter().map(|(k, v)| (k.clone(), convert(v))).collect(),
            ),
        }
    }
    convert(&serde_json::from_str(body).unwrap())
}

#[test]
fn percent_encodes_unicode_binance_symbols_before_signing() {
    let query = encode_query(&vec![
        ("symbol".to_string(), "龙虾USDT".to_string()),
        ("timestamp".to_string(), "123".to_string()),
    ]);
    assert_eq!(query, "symbol=%E9%BE%99%E8%99%BEUSDT&timestamp=123");
}

#[test]
fn parses_binance_position_risk_leverage() {
    let body = json(r#"[{"symbol":"BTCUSDT","leverage":"20","positionAmt":"0.0"}]"#);
    assert_eq!(parse_binance_symbol_leverage(&body, "BTCUSDT").unwrap(), 20);
    assert!(parse_binance_symbol_leverage(&body, "ETHUSDT").is_err());
}

#[test]
fn parses_binance_multi_assets_mode() {
    assert!(parse_binance_multi_assets_mode(&json(r#"{"multiAssetsMargin":true}"#)).unwrap());
    assert!(!parse_binance_multi_assets_mode(&json(r#"{"multiAssetsMargin":"false"}"#)).unwrap());
    assert!(parse_binance_multi_assets_mode(&json(r#"{}"#)).is_err());
}

#[test]
fn parses_okx_leverage_info() {
    let body = json(r#"{"code":"0","data":[{"instId":"BTC-USDT-SWAP","mgnMode":"cross","lever":"5"}]}"#);
    assert_eq!(parse_okx_symbol_leverage(&body, "BTC-USDT-SWAP").unwrap(), 5);
    assert!(parse_okx_symbol_leverage(&body, "ETH-USDT-SWAP").is_err());
}

#[test]
fn okx_unified_account_requires_acct_lv_at_least_three() {
    assert_eq!(parse_okx_acct_lv(&json(r#"{"code":"0","data":[{"acctLv":"4"}]}"#)).unwrap(), 4);
    assert!(parse_okx_acct_lv(&json(r#"{"code":"0","data":[{"acctLv":"3"}]}"#)).unwrap() >= 3);
    assert!(parse_okx_acct_lv(&json(r#"{"code":"0","data":[{"acctLv":"2"}]}"#)).unwrap() < 3);
    assert!(parse_okx_acct_lv(&json(r#"{"code":"50001","msg":"err"}"#)).is_err());
}

#[test]
fn binance_fee_tier_and_error_codes() {
    assert_eq!(parse_binance_fee_tier(&json(r#"{"feeTier":3}"#)).unwrap(), 3);
    assert!(parse_binance_fee_tier(&json(r#"{}"#)).is_err());
    assert_eq!(
        parse_binance_fee_tier(&json(r#"{"code":-2015,"msg":"bad key"}"#)),
        Err(ResponseError::BinanceCode { response: "Binance account", code: -2015 })
    );
    assert_eq!(parse_binance_fee_tier(&json(r#"{"code":200,"feeTier":"1"}"#)).unwrap(), 1);
    assert_eq!(
        parse_binance_fee_tier(&json(r#"{"feeTier":-1}"#)),
        Err(ResponseError::Invalid { response: "Binance account", field: "feeTier" })
    );
    let e = parse_binance_symbol_leverage(&json(r#"{"code":-1}"#), "X").unwrap_err();
    assert_eq!(e.message(), "Binance leverage response error code=-1");
}

#[test]
fn okx_instrument_group_ids_are_trimmed() {
    let instruments = json(r#"{"code":"0","data":[{"instId":"BTC-USDT-SWAP","groupId":"4"}]}"#);
    assert_eq!(
        parse_okx_instrument_group_id(&instruments, "BTC-USDT-SWAP").unwrap().as_deref(),
        Some("4")
    );
    let blank = json(r#"{"code":"0","data":[{"instId":"btc-usdt-swap","groupId":"  "}]}"#);
    assert_eq!(parse_okx_instrument_group_id(&blank, "BTC-USDT-SWAP").unwrap(), None);
    assert!(parse_okx_instrument_group_id(&instruments, "ETH-USDT-SWAP").is_err());
}

#[test]
fn json_integers_follow_the_number_kind() {
    assert_eq!(json_i64(&json("7")), Some(7));
    assert_eq!(json_i64(&json("-7")), Some(-7));
    assert_eq!(json_i64(&json("18446744073709551615")), None);
    assert_eq!(json_i64(&json("20.0")), Some(20));
    assert_eq!(json_i64(&json("-3.0")), Some(-3));
    assert_eq!(json_i64(&json("20.5")), None);
    assert_eq!(json_i64(&json("1e300")), Some(i64::MAX));
    assert_eq!(json_i64(&json(r#"" 42 ""#)), Some(42));
    assert_eq!(json_i64(&json(r#""4x""#)), None);
    assert_eq!(json_i64(&json("true")), None);
}

#[test]
fn civil_dates_of_unix_days() {
    assert_eq!(civil_from_days(0), (1970, 1, 1));
    assert_eq!(civil_from_days(-1), (1969, 12, 31));
    assert_eq!(civil_from_days(19782), (2024, 2, 29));
    assert_eq!(civil_from_days(11016), (2000, 2, 29));
    assert_eq!(civil_from_days(-719162), (1, 1, 1));
    assert_eq!(civil_from_days(-719468), (0, 3, 1));
    assert_eq!(civil_from_days(-719529), (-1, 12, 31));
}

#[test]
fn okx_timestamps_are_rfc3339_with_milliseconds() {
    assert_eq!(format_rfc3339_millis(0, 0), "1970-01-01T00:00:00.000Z");
    assert_eq!(format_rfc3339_millis(1_700_000_000, 123), "2023-11-14T22:13:20.123Z");
    assert_eq!(format_rfc3339_millis(-1, 999), "1969-12-31T23:59:59.999Z");
    assert_eq!(format_rfc3339_millis(951_782_400, 5), "2000-02-29T00:00:00.005Z");
    assert_eq!(format_rfc3339_millis(-59_027_093_939, 7), "0099-07-04T01:01:01.007Z");
    assert_eq!(format_rfc3339_millis(-62_167_219_200, 0), "0000-01-01T00:00:00.000Z");
    assert_eq!(format_rfc3339_millis(-62_167_219_200 - 86_400, 0), "-001-12-31T00:00:00.000Z");
}

fn exchange_source(id: &str, venue: &str) -> crypto_cta_manager::config::SourceConfig {
    crypto_cta_manager::config::SourceConfig {
        id: id.to_string(),
        account: id.to_string(),
        alias: None,
        venue: venue.to_string(),
        rocksdb_path: format!("/data/{id}"),
        enabled: true,
        start_ts_us: None,
        poll_interval_secs: None,
        estimated_fee_rate_bits: None,
        gateway_prefix: None,
        exec_config_url: None,
        exec_viz_url: None,
        ipc_namespace: None,
        account_ipc_service: None,
        share_unit_usdt_bits: None,
    }
}

#[test]
fn binance_credentials_read_keys_mode_and_default_hosts() {
    let values = parse_env_text(
        "BINANCE_API_KEY=key\nBINANCE_API_SECRET=secret\nBINANCE_ACCOUNT_MODE= PM \nBINANCE_FAPI_URL=https://fapi.test\n",
    );
    let c = source_credentials(&exchange_source("trade01", "binance-futures"), &values).unwrap();
    assert_eq!(c.api_key, "key");
    assert_eq!(c.api_secret, "secret");
    assert_eq!(c.account_mode, AccountMode::Unified);
    assert_eq!(c.fapi_url, "https://fapi.test");
    assert_eq!(c.papi_url, "https://papi.binance.com");
    assert_eq!(c.okx_base_url, "");
    assert_eq!(c.okx_passphrase, None);
}

#[test]
fn okx_credentials_need_a_passphrase() {
    let source = exchange_source("okx01", "okex-futures");
    let values = parse_env_text("OKX_API_KEY=k\nOKX_API_SECRET=s\n");
    let err = source_credentials(&source, &values).unwrap_err();
    assert_eq!(err.message(), "OKX_PASSPHRASE is missing in the Exec env file");
    let values = parse_env_text("OKX_API_KEY=k\nOKX_API_SECRET=s\nOKX_PASSPHRASE=p\n");
    let c = source_credentials(&source, &values).unwrap();
    assert_eq!(c.account_mode, AccountMode::Standard);
    assert_eq!(c.okx_base_url, "https://www.okx.com");
    assert_eq!(c.okx_passphrase.as_deref(), Some("p"));
}

#[test]
fn credentials_refusals_name_their_cause() {
    let binance = exchange_source("trade01", "binance-futures");
    let missing = source_credentials(&binance, &parse_env_text("BINANCE_API_KEY=  \n")).unwrap_err();
    assert_eq!(missing.message(), "BINANCE_API_KEY is missing in the Exec env file");
    let mode = source_credentials(
        &binance,
        &parse_env_text("BINANCE_API_KEY=k\nBINANCE_API_SECRET=s\nBINANCE_ACCOUNT_MODE=Cross\n"),
    )
    .unwrap_err();
    assert_eq!(mode.message(), "unsupported BINANCE_ACCOUNT_MODE: cross");
    let rapidx = source_credentials(&binance, &parse_env_text("TRADE_ENGINE_EXEC_BACKEND=ltp\n")).unwrap_err();
    assert_eq!(
        rapidx.message(),
        "native account APIs are disabled for RapidX sources; use the RapidX Exec adapter"
    );
    let coin = source_credentials(&exchange_source("coin01", "binance-coin-futures"), &Vec::new()).unwrap_err();
    assert_eq!(coin.message(), "source coin01 venue does not support set leverage: binance-coin-futures");
    let other = source_credentials(&exchange_source("x", "bybit-futures"), &Vec::new()).unwrap_err();
    assert_eq!(other.message(), "unsupported rule venue");
}

fn hmac_hex(secret: &str, payload: &str) -> String {
    let mut mac = hmac::Hmac::<sha2::Sha256>::new_from_slice(secret.as_bytes()).unwrap();
    mac.update(payload.as_bytes());
    hex::encode(mac.finalize().into_bytes())
}

#[test]
fn binance_signed_urls_add_window_timestamp_and_signature() {
    let params = vec![("symbol".to_string(), "BTCUSDT".to_string())];
    let url = binance_signed_url("https://fapi.binance.com//", "/fapi/v1/commissionRate", params, 1_700_000_000_000, "s3cret");
    let query = "recvWindow=5000&symbol=BTCUSDT&timestamp=1700000000000";
    assert_eq!(
        url,
        format!("https://fapi.binance.com/fapi/v1/commissionRate?{query}&signature={}", hmac_hex("s3cret", query))
    );
}

#[test]
fn put_param_keeps_keys_in_order_and_replaces_values() {
    let mut params: Vec<(String, String)> = Vec::new();
    put_param(&mut params, "timestamp".to_string(), "1".to_string());
    put_param(&mut params, "leverage".to_string(), "5".to_string());
    put_param(&mut params, "recvWindow".to_string(), "5000".to_string());
    put_param(&mut params, "leverage".to_string(), "7".to_string());
    put_param(&mut params, "Zeta".to_string(), "z".to_string());
    let keys: Vec<&str> = params.iter().map(|p| p.0.as_str()).collect();
    assert_eq!(keys, vec!["Zeta", "leverage", "recvWindow", "timestamp"]);
    assert_eq!(params[1].1, "7");
}

#[test]
fn binance_leverage_requests_follow_the_account_mode() {
    let mut credentials = ExchangeCredentials {
        api_key: "k".to_string(),
        api_secret: "s".to_string(),
        account_mode: AccountMode::Standard,
        fapi_url: "https://fapi.binance.com".to_string(),
        papi_url: "https://papi.binance.com/".to_string(),
        okx_base_url: String::new(),
        okx_passphrase: None,
    };
    let query = "leverage=5&recvWindow=5000&symbol=ETHUSDT&timestamp=42";
    let (url, path) = binance_set_leverage_request(&credentials, "ETHUSDT", 5, 42);
    assert_eq!(path, "/fapi/v1/leverage");
    assert_eq!(url, format!("https://fapi.binance.com/fapi/v1/leverage?{query}&signature={}", hmac_hex("s", query)));
    credentials.account_mode = AccountMode::Unified;
    let (url, path) = binance_set_leverage_request(&credentials, "ETHUSDT", 5, 42);
    assert_eq!(path, "/papi/v1/um/leverage");
    assert!(url.starts_with("https://papi.binance.com/papi/v1/um/leverage?leverage=5&"));
}

#[test]
fn okx_signed_requests_sign_timestamp_method_path_and_body() {
    let mut credentials = ExchangeCredentials {
        api_key: "k".to_string(),
        api_secret: "s".to_string(),
        account_mode: AccountMode::Standard,
        fapi_url: String::new(),
        papi_url: String::new(),
        okx_base_url: "https://www.okx.com/".to_string(),
        okx_passphrase: Some("p".to_string()),
    };
    let ts = "2023-11-14T22:13:20.123Z".to_string();
    let body = "{\"instId\":\"BTC-USDT-SWAP\",\"lever\":\"5\",\"mgnMode\":\"cross\"}";
    let q = okx_signed_request(&credentials, "POST", "/api/v5/account/set-leverage", body, ts.clone()).unwrap();
    let mut mac = hmac::Hmac::<sha2::Sha256>::new_from_slice(b"s").unwrap();
    mac.update(format!("{ts}POST/api/v5/account/set-leverage{body}").as_bytes());
    let expected = base64::engine::general_purpose::STANDARD.encode(mac.finalize().into_bytes());
    assert_eq!(q.signature, expected);
    assert_eq!(q.url, "https://www.okx.com/api/v5/account/set-leverage");
    assert_eq!(q.timestamp, ts);
    assert_eq!(q.passphrase, "p");
    assert_eq!(q.api_key, "k");
    credentials.okx_passphrase = Some(String::new());
    let err = okx_signed_request(&credentials, "GET", "/api/v5/account/config", "", ts).unwrap_err();
    assert_eq!(err.message(), "OKX_PASSPHRASE is missing in the Exec env file");
}

#[test]
fn trailing_slashes_are_trimmed_from_hosts() {
    assert_eq!(trim_end_char("https://x.test///", '/'), "https://x.test");
    assert_eq!(trim_end_char("https://x.test", '/'), "https://x.test");
    assert_eq!(trim_end_char("///", '/'), "");
}
