use crypto_cta_manager::order_config::{
    default_max_batch, validate_strategy_name, validate_symbol_order_parameter_overrides,
    validate_target_signal, OrderParameterOverrides, OrderParameters, OverridesErrorKind,
    ParamError, StrategyNameError, TargetError, TargetPosition,
};

fn valid_parameters() -> OrderParameters {
    OrderParameters {
        single_order_usdt_bits: 100.0_f64.to_bits(),
        orders_per_batch: 3,
        max_batch: 20,
        maker_price_anchor: "own_best".to_string(),
        tick_spacing: 1,
        batch_interval_ms: 500,
        maker_timeout_ms: 12_000,
        max_maker_requotes: 2,
        target_tolerance_usdt_bits: 10.0_f64.to_bits(),
    }
}

#[test]
fn validates_order_parameters() {
    assert!(valid_parameters().validate().is_ok());
    let mut invalid = valid_parameters();
    invalid.orders_per_batch = 0;
    assert!(invalid.validate().is_err());
    let mut invalid = valid_parameters();
    invalid.max_batch = 0;
    assert!(invalid.validate().is_err());
    let mut invalid = valid_parameters();
    invalid.maker_price_anchor = "mid".to_string();
    assert!(invalid.validate().is_err());
}

#[test]
fn symbol_overrides_replace_only_their_defined_fields() {
    let defaults = valid_parameters();
    let overrides = OrderParameterOverrides {
        single_order_usdt_bits: Some(250.0_f64.to_bits()),
        maker_price_anchor: Some("opposite_best_plus_one_tick".to_string()),
        ..Default::default()
    };
    let effective = overrides.apply_to(&defaults);
    assert_eq!(f64::from_bits(effective.single_order_usdt_bits), 250.0);
    assert_eq!(effective.maker_price_anchor, "opposite_best_plus_one_tick");
    assert_eq!(effective.orders_per_batch, defaults.orders_per_batch);

    let map = vec![("BTCUSDT".to_string(), overrides)];
    assert!(validate_symbol_order_parameter_overrides(&map).is_ok());
    let invalid_symbol = vec![("btc-usdt".to_string(), OrderParameterOverrides::default())];
    assert!(validate_symbol_order_parameter_overrides(&invalid_symbol).is_err());
    let empty_override = vec![("BTCUSDT".to_string(), OrderParameterOverrides::default())];
    assert!(validate_symbol_order_parameter_overrides(&empty_override).is_err());

    let mut selected = defaults.clone();
    selected.single_order_usdt_bits = 250.0_f64.to_bits();
    selected.max_maker_requotes = 0;
    let derived = OrderParameterOverrides::from_templates(&defaults, &selected);
    assert_eq!(derived.single_order_usdt_bits, Some(250.0_f64.to_bits()));
    assert_eq!(derived.max_maker_requotes, Some(0));
    assert_eq!(derived.orders_per_batch, None);
    let back = derived.apply_to(&defaults);
    assert_eq!(back.single_order_usdt_bits, selected.single_order_usdt_bits);
    assert_eq!(back.max_maker_requotes, selected.max_maker_requotes);
    assert_eq!(back.maker_price_anchor, selected.maker_price_anchor);
    assert_eq!(back.maker_timeout_ms, selected.maker_timeout_ms);
}

#[test]
fn identical_templates_derive_empty_overrides() {
    let d = valid_parameters();
    assert!(OrderParameterOverrides::from_templates(&d, &d).is_empty());
    let mut negative_zero = d.clone();
    negative_zero.target_tolerance_usdt_bits = (-0.0_f64).to_bits();
    let mut zero = d.clone();
    zero.target_tolerance_usdt_bits = 0.0_f64.to_bits();
    assert!(OrderParameterOverrides::from_templates(&zero, &negative_zero).is_empty());
}

#[test]
fn override_errors_carry_the_symbol() {
    let bad = OrderParameterOverrides { orders_per_batch: Some(0), ..Default::default() };
    let err = validate_symbol_order_parameter_overrides(&vec![("ETHUSDT".to_string(), bad)])
        .unwrap_err();
    assert_eq!(err.kind, OverridesErrorKind::Param(ParamError::OrdersPerBatch));
    assert_eq!(err.symbol, "ETHUSDT");
    assert_eq!(
        err.message(),
        "symbol_overrides.ETHUSDT.orders_per_batch must be greater than zero"
    );
}

#[test]
fn parameter_errors_follow_the_check_order() {
    let mut p = valid_parameters();
    p.single_order_usdt_bits = f64::INFINITY.to_bits();
    p.max_batch = 0;
    assert_eq!(p.validate(), Err(ParamError::SingleOrderUsdt));
    let mut p = valid_parameters();
    p.target_tolerance_usdt_bits = (-1.0_f64).to_bits();
    assert_eq!(p.validate(), Err(ParamError::TargetTolerance));
    let mut p = valid_parameters();
    p.target_tolerance_usdt_bits = (-0.0_f64).to_bits();
    assert!(p.validate().is_ok());
    let p = OrderParameters::default();
    assert!(p.validate().is_ok());
    assert_eq!(p.maker_timeout_ms, 1_000);
    assert_eq!(default_max_batch(), 20);
}

#[test]
fn validates_strategy_names() {
    assert!(validate_strategy_name("CTA_SK_01.alpha").is_ok());
    assert!(validate_strategy_name("../strategy").is_err());
    assert!(validate_strategy_name("SYSTEM_POSITION_CLOSE").is_err());
}

#[test]
fn strategy_name_errors() {
    assert_eq!(validate_strategy_name("strategy_names"), Err(StrategyNameError::Reserved));
    assert_eq!(validate_strategy_name(""), Err(StrategyNameError::InvalidFormat));
    assert_eq!(validate_strategy_name("_x"), Err(StrategyNameError::InvalidFormat));
    assert_eq!(validate_strategy_name(&"a".repeat(257)), Err(StrategyNameError::InvalidFormat));
    assert!(validate_strategy_name(&"a".repeat(256)).is_ok());
}

#[test]
fn target_positions_need_finite_qty_and_known_signal() {
    assert_eq!(validate_target_signal(-2), Ok(()));
    assert_eq!(validate_target_signal(3), Err(TargetError::InvalidSignal));
    let t = TargetPosition::new((-0.54_f64).to_bits(), -1).unwrap();
    assert_eq!(f64::from_bits(t.qty_bits), -0.54);
    assert_eq!(t.signal, -1);
    assert_eq!(TargetPosition::new(f64::NAN.to_bits(), 0), Err(TargetError::QtyNotFinite));
    assert_eq!(TargetPosition::new(1.0_f64.to_bits(), 3), Err(TargetError::InvalidSignal));
    assert_eq!(TargetError::InvalidSignal.message(), "signal must be one of -2, -1, 0, 1, 2");
}

#[test]
fn legacy_order_parameters_default_max_batch() {
    assert_eq!(default_max_batch(), 20);
    assert_eq!(OrderParameters::default().max_batch, 20);
}
