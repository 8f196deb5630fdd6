use crypto_cta_manager::bfusd_auto::{
    auto_earn_step, format_amount_cents, validate_settings, AccountSettings, AutoEarnAction, AutoEarnEvent,
    AutoEarnFailure, AutoEarnOutcome, AutoEarnState, SettingsError,
};

fn begin(venue: &str) -> (AutoEarnState, AutoEarnAction) {
    auto_earn_step(
        AutoEarnState::Idle,
        AutoEarnEvent::Begin { venue: venue.to_string(), trigger_bits: 50.0_f64.to_bits(), rotation: 3 },
    )
}

fn account(wallet: f64, withdrawable: f64, headroom: f64) -> AutoEarnEvent {
    AutoEarnEvent::Account {
        multi_assets: Some(true),
        usdt: Some(Ok((wallet.to_bits(), withdrawable.to_bits()))),
        headroom: Ok(headroom.to_bits()),
    }
}

fn to_account_step() -> AutoEarnState {
    let (s, a) = begin("binance-futures");
    assert!(matches!(a, AutoEarnAction::ReadEnv));
    let (s, a) = auto_earn_step(s, AutoEarnEvent::EnvRead { account_mode: Some("STD".to_string()) });
    assert!(matches!(a, AutoEarnAction::LoadIps));
    let (s, a) = auto_earn_step(s, AutoEarnEvent::IpsLoaded { ips: vec!["10.0.0.1".to_string(), "10.0.0.2".to_string()] });
    assert!(matches!(a, AutoEarnAction::GetAccount { ip_index: 1, next_rotation: 4 }));
    s
}

#[test]
fn a_full_round_pauses_before_moving_funds() {
    let s = to_account_step();
    let (s, a) = auto_earn_step(s, account(200.0, 150.0, 500.0));
    assert!(matches!(a, AutoEarnAction::GetQuota));
    let (s, a) = auto_earn_step(s, AutoEarnEvent::Quota { amount_cents: Ok(12_345) });
    assert!(matches!(a, AutoEarnAction::PersistPause));
    let (s, a) = auto_earn_step(s, AutoEarnEvent::Persisted { result: Ok(()) });
    assert!(matches!(a, AutoEarnAction::TransferUsdtToSpot { amount_cents: 12_345 }));
    let (s, a) = auto_earn_step(s, AutoEarnEvent::Posted { result: Ok(()) });
    assert!(matches!(a, AutoEarnAction::Subscribe { amount_cents: 12_345 }));
    let (s, a) = auto_earn_step(
        s,
        AutoEarnEvent::Subscribed {
            success: Some(true),
            bfusd_amount: Some("123.40".to_string()),
            parsed_bits: Some(123.4_f64.to_bits()),
        },
    );
    assert!(matches!(a, AutoEarnAction::TransferBfusdToFutures));
    let (s, a) = auto_earn_step(s, AutoEarnEvent::Posted { result: Ok(()) });
    assert!(matches!(a, AutoEarnAction::PersistResume));
    let (s, a) = auto_earn_step(s, AutoEarnEvent::Persisted { result: Ok(()) });
    assert!(matches!(s, AutoEarnState::Finished));
    match a {
        AutoEarnAction::Finish(AutoEarnOutcome::Subscribed { amount_cents, bfusd, ip }) => {
            assert_eq!(amount_cents, 12_345);
            assert_eq!(bfusd, "123.40");
            assert_eq!(ip, "10.0.0.2");
        }
        other => panic!("unexpected {other:?}"),
    }
    assert_eq!(format_amount_cents(12_345), "123.45");
    assert_eq!(format_amount_cents(100), "1.00");
}

#[test]
fn rounds_stop_on_the_wrong_venue_or_account_mode() {
    let (_, a) = begin("okex-futures");
    assert!(matches!(a, AutoEarnAction::Fail { failure: AutoEarnFailure::NotBinanceFutures, .. }));
    let (s, _) = begin("binance-futures");
    let (_, a) = auto_earn_step(s, AutoEarnEvent::EnvRead { account_mode: None });
    assert!(matches!(a, AutoEarnAction::Fail { failure: AutoEarnFailure::NotStandardAccount, .. }));
}

#[test]
fn rounds_skip_low_balances_and_headroom() {
    let (_, a) = auto_earn_step(to_account_step(), account(40.0, 500.0, 500.0));
    assert!(matches!(a, AutoEarnAction::Finish(AutoEarnOutcome::SkippedBelowTrigger { .. })));
    let (_, a) = auto_earn_step(to_account_step(), account(400.0, 500.0, 0.5));
    assert!(matches!(a, AutoEarnAction::Finish(AutoEarnOutcome::SkippedHeadroom)));
    let s = to_account_step();
    let (s, _) = auto_earn_step(s, account(400.0, 500.0, 10.0));
    let (_, a) = auto_earn_step(s, AutoEarnEvent::Quota { amount_cents: Ok(99) });
    assert!(matches!(a, AutoEarnAction::Finish(AutoEarnOutcome::SkippedSmallAmount)));
}

#[test]
fn a_failed_pause_restores_and_a_bad_subscription_stops() {
    let s = to_account_step();
    let (s, _) = auto_earn_step(s, account(400.0, 500.0, 10.0));
    let (s, _) = auto_earn_step(s, AutoEarnEvent::Quota { amount_cents: Ok(500) });
    let (_, a) = auto_earn_step(s, AutoEarnEvent::Persisted { result: Err("disk full".to_string()) });
    assert!(matches!(a, AutoEarnAction::Fail { restore_settings: true, keep_paused: false, .. }));
    let s = to_account_step();
    let (s, _) = auto_earn_step(s, account(400.0, 500.0, 10.0));
    let (s, _) = auto_earn_step(s, AutoEarnEvent::Quota { amount_cents: Ok(500) });
    let (s, _) = auto_earn_step(s, AutoEarnEvent::Persisted { result: Ok(()) });
    let (s, _) = auto_earn_step(s, AutoEarnEvent::Posted { result: Ok(()) });
    let (_, a) = auto_earn_step(
        s,
        AutoEarnEvent::Subscribed { success: Some(true), bfusd_amount: Some("-1".to_string()), parsed_bits: Some((-1.0_f64).to_bits()) },
    );
    assert!(matches!(a, AutoEarnAction::Fail { failure: AutoEarnFailure::BfusdAmountInvalid, .. }));
}

#[test]
fn settings_are_validated() {
    let ok = AccountSettings {
        enabled: true,
        interval_secs: 180,
        round_cap_usdt_bits: 5000.0_f64.to_bits(),
        trigger_usdt_bits: 50.0_f64.to_bits(),
        paused: false,
    };
    assert_eq!(validate_settings(&ok), Ok(()));
    assert_eq!(validate_settings(&AccountSettings { interval_secs: 59, ..ok }), Err(SettingsError::Interval));
    assert_eq!(
        validate_settings(&AccountSettings { round_cap_usdt_bits: 0.5_f64.to_bits(), ..ok }),
        Err(SettingsError::RoundCap)
    );
    assert_eq!(
        validate_settings(&AccountSettings { trigger_usdt_bits: f64::NAN.to_bits(), ..ok }),
        Err(SettingsError::Trigger)
    );
    assert_eq!(SettingsError::Interval.message(), "interval must be between 60 and 86400 seconds");
}

#[test]
fn negative_usdt_wallet_balance_is_a_valid_skip_condition() {
    let (_, a) = auto_earn_step(to_account_step(), account(-0.25, 0.0, 500.0));
    assert!(matches!(a, AutoEarnAction::Finish(AutoEarnOutcome::SkippedBelowTrigger { .. })));
}
