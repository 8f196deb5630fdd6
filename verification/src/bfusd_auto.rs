//! The decisions of one automatic BFUSD round: which checks stop it, which
//! balances skip it, and the order of its transfers, with the account paused
//! from before the first transfer until the round has finished.

use vstd::prelude::*;

use crate::exchange_leverage::responses::eq_ignore_ascii_case;
use crate::float_bits::{f64_gt_zero, f64_is_finite, f64_is_nan, f64_le, f64_lt, float_le, float_lt, gt_zero, is_finite, is_nan, ONE_BITS};
use crate::text::{ascii_lower, decimal, decimal_string, str_eq, zero_padded, zero_padded_decimal};

verus! {

/// Why a round stops.
#[derive(Debug, Clone)]
pub enum AutoEarnFailure {
    NotBinanceFutures,
    NotStandardAccount,
    NoLocalIps,
    MultiAssetsOff,
    UsdtMissing,
    SubscriptionNotSuccessful,
    BfusdAmountMissing,
    BfusdAmountInvalid,
    /// A failure the caller reports (an exchange call, a file, a field).
    Upstream(String),
}

/// How a round ends without failing.
#[derive(Debug, Clone)]
pub enum AutoEarnOutcome {
    /// The smaller of the USDT wallet and withdrawable amounts (bits) is at
    /// or below the trigger.
    SkippedBelowTrigger { wallet_bits: u64, withdrawable_bits: u64 },
    /// Less than 1 USDT of margin headroom.
    SkippedHeadroom,
    /// Less than 1 USDT can be moved.
    SkippedSmallAmount,
    /// `amount_cents` of USDT became `bfusd` BFUSD through the local address
    /// `ip`.
    Subscribed { amount_cents: i64, bfusd: String, ip: String },
}

/// Where a round stands.
#[derive(Debug, Clone)]
pub enum AutoEarnState {
    Idle,
    AwaitEnv { trigger_bits: u64, rotation: u64 },
    AwaitIps { trigger_bits: u64, rotation: u64 },
    AwaitAccount { trigger_bits: u64, ip: String },
    AwaitQuota { ip: String },
    AwaitPause { ip: String, amount_cents: i64 },
    AwaitUsdtTransfer { ip: String, amount_cents: i64 },
    AwaitSubscribe { ip: String, amount_cents: i64 },
    AwaitBfusdTransfer { ip: String, amount_cents: i64, bfusd: String },
    AwaitResume { ip: String, amount_cents: i64, bfusd: String },
    Finished,
}

/// What the caller reports.
#[derive(Debug)]
pub enum AutoEarnEvent {
    /// A round starts for a source on `venue` with the account's trigger
    /// (bits) and the source's address rotation counter.
    Begin { venue: String, trigger_bits: u64, rotation: u64 },
    /// The Exec env file's `BINANCE_ACCOUNT_MODE`, if set.
    EnvRead { account_mode: Option<String> },
    /// The source's local addresses, as text.
    IpsLoaded { ips: Vec<String> },
    /// The futures account: its multi-assets flag; the USDT wallet and
    /// withdrawable amounts (bits) or why they cannot be read; the margin
    /// headroom (margin less three times maintenance, bits) or why not.
    Account { multi_assets: Option<bool>, usdt: Option<Result<(u64, u64), String>>, headroom: Result<u64, String> },
    /// The amount to move, in cents, or why it cannot be computed.
    Quota { amount_cents: Result<i64, String> },
    /// The settings file was written, or why not.
    Persisted { result: Result<(), String> },
    /// A transfer went through, or why not.
    Posted { result: Result<(), String> },
    /// The subscription reply: its success flag, its `bfusdAmount` text and
    /// that text read as a number (bits).
    Subscribed { success: Option<bool>, bfusd_amount: Option<String>, parsed_bits: Option<u64> },
    /// A call failed.
    Failed { message: String },
}

/// What the caller does next.
#[derive(Debug, Clone)]
pub enum AutoEarnAction {
    ReadEnv,
    LoadIps,
    /// Query the futures account through address `ip_index` of the loaded
    /// list, and store `next_rotation` as the source's counter.
    GetAccount { ip_index: usize, next_rotation: u64 },
    GetQuota,
    /// Persist the account as paused before moving funds.
    PersistPause,
    TransferUsdtToSpot { amount_cents: i64 },
    Subscribe { amount_cents: i64 },
    /// Move the subscribed BFUSD back to the futures wallet.
    TransferBfusdToFutures,
    /// Persist the account as running again.
    PersistResume,
    Finish(AutoEarnOutcome),
    /// Stop: `restore_settings` when the pause could not be persisted (the
    /// old settings stay), `keep_paused` when the resume could not be.
    Fail { failure: AutoEarnFailure, restore_settings: bool, keep_paused: bool },
    /// The event does not belong to this step.
    Ignore,
}

/// A stop with nothing to restore.
pub open spec fn stop(failure: AutoEarnFailure) -> (AutoEarnState, AutoEarnAction) {
    (AutoEarnState::Finished, AutoEarnAction::Fail { failure, restore_settings: false, keep_paused: false })
}

/// `a.min(b) <= t` on `f64` values.
pub open spec fn min_at_most(a: u64, b: u64, t: u64) -> bool {
    if is_nan(a) {
        float_le(b, t)
    } else if is_nan(b) {
        float_le(a, t)
    } else {
        float_le(a, t) || float_le(b, t)
    }
}

/// The next step of a round.
pub open spec fn auto_earn_next(state: AutoEarnState, event: AutoEarnEvent) -> (AutoEarnState, AutoEarnAction) {
    match event {
        AutoEarnEvent::Failed { message } => match state {
            AutoEarnState::Idle => (state, AutoEarnAction::Ignore),
            AutoEarnState::Finished => (state, AutoEarnAction::Ignore),
            _ => stop(AutoEarnFailure::Upstream(message)),
        },
        _ => match state {
            AutoEarnState::Idle => match event {
                AutoEarnEvent::Begin { venue, trigger_bits, rotation } => if venue@ == "binance-futures"@ {
                    (AutoEarnState::AwaitEnv { trigger_bits, rotation }, AutoEarnAction::ReadEnv)
                } else {
                    stop(AutoEarnFailure::NotBinanceFutures)
                },
                _ => (state, AutoEarnAction::Ignore),
            },
            AutoEarnState::AwaitEnv { trigger_bits, rotation } => match event {
                AutoEarnEvent::EnvRead { account_mode } => {
                    let mode = match account_mode {
                        Some(m) => m@,
                        None => Seq::empty(),
                    };
                    if ascii_lower(mode) == ascii_lower("standard"@) || ascii_lower(mode) == ascii_lower("std"@) {
                        (AutoEarnState::AwaitIps { trigger_bits, rotation }, AutoEarnAction::LoadIps)
                    } else {
                        stop(AutoEarnFailure::NotStandardAccount)
                    }
                },
                _ => (state, AutoEarnAction::Ignore),
            },
            AutoEarnState::AwaitIps { trigger_bits, rotation } => match event {
                AutoEarnEvent::IpsLoaded { ips } => if ips@.len() == 0 {
                    stop(AutoEarnFailure::NoLocalIps)
                } else {
                    let i = (rotation as int % ips@.len() as int) as usize;
                    (
                        AutoEarnState::AwaitAccount { trigger_bits, ip: ips@[i as int] },
                        AutoEarnAction::GetAccount {
                            ip_index: i,
                            next_rotation: if rotation == u64::MAX {
                                0
                            } else {
                                (rotation + 1) as u64
                            },
                        },
                    )
                },
                _ => (state, AutoEarnAction::Ignore),
            },
            AutoEarnState::AwaitAccount { trigger_bits, ip } => match event {
                AutoEarnEvent::Account { multi_assets, usdt, headroom } => if multi_assets != Some(true) {
                    stop(AutoEarnFailure::MultiAssetsOff)
                } else {
                    match usdt {
                        None => stop(AutoEarnFailure::UsdtMissing),
                        Some(Err(m)) => stop(AutoEarnFailure::Upstream(m)),
                        Some(Ok((wallet, withdrawable))) => if min_at_most(wallet, withdrawable, trigger_bits) {
                            (
                                AutoEarnState::Finished,
                                AutoEarnAction::Finish(
                                    AutoEarnOutcome::SkippedBelowTrigger { wallet_bits: wallet, withdrawable_bits: withdrawable },
                                ),
                            )
                        } else {
                            match headroom {
                                Err(m) => stop(AutoEarnFailure::Upstream(m)),
                                Ok(h) => if float_lt(h, ONE_BITS) {
                                    (AutoEarnState::Finished, AutoEarnAction::Finish(AutoEarnOutcome::SkippedHeadroom))
                                } else {
                                    (AutoEarnState::AwaitQuota { ip }, AutoEarnAction::GetQuota)
                                },
                            }
                        },
                    }
                },
                _ => (AutoEarnState::AwaitAccount { trigger_bits, ip }, AutoEarnAction::Ignore),
            },
            AutoEarnState::AwaitQuota { ip } => match event {
                AutoEarnEvent::Quota { amount_cents } => match amount_cents {
                    Err(m) => stop(AutoEarnFailure::Upstream(m)),
                    Ok(c) => if c < 100 {
                        (AutoEarnState::Finished, AutoEarnAction::Finish(AutoEarnOutcome::SkippedSmallAmount))
                    } else {
                        (AutoEarnState::AwaitPause { ip, amount_cents: c }, AutoEarnAction::PersistPause)
                    },
                },
                _ => (AutoEarnState::AwaitQuota { ip }, AutoEarnAction::Ignore),
            },
            AutoEarnState::AwaitPause { ip, amount_cents } => match event {
                AutoEarnEvent::Persisted { result } => match result {
                    Err(m) => (
                        AutoEarnState::Finished,
                        AutoEarnAction::Fail { failure: AutoEarnFailure::Upstream(m), restore_settings: true, keep_paused: false },
                    ),
                    Ok(()) => (
                        AutoEarnState::AwaitUsdtTransfer { ip, amount_cents },
                        AutoEarnAction::TransferUsdtToSpot { amount_cents },
                    ),
                },
                _ => (AutoEarnState::AwaitPause { ip, amount_cents }, AutoEarnAction::Ignore),
            },
            AutoEarnState::AwaitUsdtTransfer { ip, amount_cents } => match event {
                AutoEarnEvent::Posted { result } => match result {
                    Err(m) => stop(AutoEarnFailure::Upstream(m)),
                    Ok(()) => (AutoEarnState::AwaitSubscribe { ip, amount_cents }, AutoEarnAction::Subscribe { amount_cents }),
                },
                _ => (AutoEarnState::AwaitUsdtTransfer { ip, amount_cents }, AutoEarnAction::Ignore),
            },
            AutoEarnState::AwaitSubscribe { ip, amount_cents } => match event {
                AutoEarnEvent::Subscribed { success, bfusd_amount, parsed_bits } => if success != Some(true) {
                    stop(AutoEarnFailure::SubscriptionNotSuccessful)
                } else {
                    match bfusd_amount {
                        None => stop(AutoEarnFailure::BfusdAmountMissing),
                        Some(bfusd) => match parsed_bits {
                            Some(b) => if is_finite(b) && gt_zero(b) {
                                (
                                    AutoEarnState::AwaitBfusdTransfer { ip, amount_cents, bfusd },
                                    AutoEarnAction::TransferBfusdToFutures,
                                )
                            } else {
                                stop(AutoEarnFailure::BfusdAmountInvalid)
                            },
                            None => stop(AutoEarnFailure::BfusdAmountInvalid),
                        },
                    }
                },
                _ => (AutoEarnState::AwaitSubscribe { ip, amount_cents }, AutoEarnAction::Ignore),
            },
            AutoEarnState::AwaitBfusdTransfer { ip, amount_cents, bfusd } => match event {
                AutoEarnEvent::Posted { result } => match result {
                    Err(m) => stop(AutoEarnFailure::Upstream(m)),
                    Ok(()) => (AutoEarnState::AwaitResume { ip, amount_cents, bfusd }, AutoEarnAction::PersistResume),
                },
                _ => (AutoEarnState::AwaitBfusdTransfer { ip, amount_cents, bfusd }, AutoEarnAction::Ignore),
            },
            AutoEarnState::AwaitResume { ip, amount_cents, bfusd } => match event {
                AutoEarnEvent::Persisted { result } => match result {
                    Err(m) => (
                        AutoEarnState::Finished,
                        AutoEarnAction::Fail { failure: AutoEarnFailure::Upstream(m), restore_settings: false, keep_paused: true },
                    ),
                    Ok(()) => (
                        AutoEarnState::Finished,
                        AutoEarnAction::Finish(AutoEarnOutcome::Subscribed { amount_cents, bfusd, ip }),
                    ),
                },
                _ => (AutoEarnState::AwaitResume { ip, amount_cents, bfusd }, AutoEarnAction::Ignore),
            },
            AutoEarnState::Finished => (state, AutoEarnAction::Ignore),
        },
    }
}

fn fail(failure: AutoEarnFailure) -> (r: (AutoEarnState, AutoEarnAction))
    ensures
        r == stop(failure),
{
    (AutoEarnState::Finished, AutoEarnAction::Fail { failure, restore_settings: false, keep_paused: false })
}

/// One step of an automatic BFUSD round: the next state and what to do.
pub fn auto_earn_step(state: AutoEarnState, event: AutoEarnEvent) -> (r: (AutoEarnState, AutoEarnAction))
    ensures
        r == auto_earn_next(state, event),
{
    if let AutoEarnEvent::Failed { message } = event {
        return match state {
            AutoEarnState::Idle => (AutoEarnState::Idle, AutoEarnAction::Ignore),
            AutoEarnState::Finished => (AutoEarnState::Finished, AutoEarnAction::Ignore),
            _ => fail(AutoEarnFailure::Upstream(message)),
        };
    }
    match state {
        AutoEarnState::Idle => match event {
            AutoEarnEvent::Begin { venue, trigger_bits, rotation } => {
                proof {
                    reveal_strlit("binance-futures");
                }
                if str_eq(venue.as_str(), "binance-futures") {
                    (AutoEarnState::AwaitEnv { trigger_bits, rotation }, AutoEarnAction::ReadEnv)
                } else {
                    fail(AutoEarnFailure::NotBinanceFutures)
                }
            },
            _ => (AutoEarnState::Idle, AutoEarnAction::Ignore),
        },
        AutoEarnState::AwaitEnv { trigger_bits, rotation } => match event {
            AutoEarnEvent::EnvRead { account_mode } => {
                proof {
                    reveal_strlit("");
                }
                let standard = match &account_mode {
                    Some(m) => eq_ignore_ascii_case(m.as_str(), "standard") || eq_ignore_ascii_case(m.as_str(), "std"),
                    None => eq_ignore_ascii_case("", "standard") || eq_ignore_ascii_case("", "std"),
                };
                assert(account_mode is None ==> ""@ =~= Seq::<char>::empty());
                if standard {
                    (AutoEarnState::AwaitIps { trigger_bits, rotation }, AutoEarnAction::LoadIps)
                } else {
                    fail(AutoEarnFailure::NotStandardAccount)
                }
            },
            _ => (AutoEarnState::AwaitEnv { trigger_bits, rotation }, AutoEarnAction::Ignore),
        },
        AutoEarnState::AwaitIps { trigger_bits, rotation } => match event {
            AutoEarnEvent::IpsLoaded { ips } => {
                if ips.len() == 0 {
                    fail(AutoEarnFailure::NoLocalIps)
                } else {
                    let n = ips.len() as u64;
                    let i = (rotation % n) as usize;
                    let mut ips = ips;
                    let ip = ips.remove(i);
                    let next_rotation = if rotation == u64::MAX {
                        0
                    } else {
                        rotation + 1
                    };
                    (AutoEarnState::AwaitAccount { trigger_bits, ip }, AutoEarnAction::GetAccount { ip_index: i, next_rotation })
                }
            },
            _ => (AutoEarnState::AwaitIps { trigger_bits, rotation }, AutoEarnAction::Ignore),
        },
        AutoEarnState::AwaitAccount { trigger_bits, ip } => match event {
            AutoEarnEvent::Account { multi_assets, usdt, headroom } => {
                if multi_assets != Some(true) {
                    return fail(AutoEarnFailure::MultiAssetsOff);
                }
                match usdt {
                    None => fail(AutoEarnFailure::UsdtMissing),
                    Some(Err(m)) => fail(AutoEarnFailure::Upstream(m)),
                    Some(Ok((wallet, withdrawable))) => {
                        let below = if f64_is_nan(wallet) {
                            f64_le(withdrawable, trigger_bits)
                        } else if f64_is_nan(withdrawable) {
                            f64_le(wallet, trigger_bits)
                        } else {
                            f64_le(wallet, trigger_bits) || f64_le(withdrawable, trigger_bits)
                        };
                        if below {
                            (
                                AutoEarnState::Finished,
                                AutoEarnAction::Finish(
                                    AutoEarnOutcome::SkippedBelowTrigger { wallet_bits: wallet, withdrawable_bits: withdrawable },
                                ),
                            )
                        } else {
                            match headroom {
                                Err(m) => fail(AutoEarnFailure::Upstream(m)),
                                Ok(h) => if f64_lt(h, ONE_BITS) {
                                    (AutoEarnState::Finished, AutoEarnAction::Finish(AutoEarnOutcome::SkippedHeadroom))
                                } else {
                                    (AutoEarnState::AwaitQuota { ip }, AutoEarnAction::GetQuota)
                                },
                            }
                        }
                    },
                }
            },
            _ => (AutoEarnState::AwaitAccount { trigger_bits, ip }, AutoEarnAction::Ignore),
        },
        AutoEarnState::AwaitQuota { ip } => match event {
            AutoEarnEvent::Quota { amount_cents } => match amount_cents {
                Err(m) => fail(AutoEarnFailure::Upstream(m)),
                Ok(c) => if c < 100 {
                    (AutoEarnState::Finished, AutoEarnAction::Finish(AutoEarnOutcome::SkippedSmallAmount))
                } else {
                    (AutoEarnState::AwaitPause { ip, amount_cents: c }, AutoEarnAction::PersistPause)
                },
            },
            _ => (AutoEarnState::AwaitQuota { ip }, AutoEarnAction::Ignore),
        },
        AutoEarnState::AwaitPause { ip, amount_cents } => match event {
            AutoEarnEvent::Persisted { result } => match result {
                Err(m) => (
                    AutoEarnState::Finished,
                    AutoEarnAction::Fail { failure: AutoEarnFailure::Upstream(m), restore_settings: true, keep_paused: false },
                ),
                Ok(()) => (AutoEarnState::AwaitUsdtTransfer { ip, amount_cents }, AutoEarnAction::TransferUsdtToSpot { amount_cents }),
            },
            _ => (AutoEarnState::AwaitPause { ip, amount_cents }, AutoEarnAction::Ignore),
        },
        AutoEarnState::AwaitUsdtTransfer { ip, amount_cents } => match event {
            AutoEarnEvent::Posted { result } => match result {
                Err(m) => fail(AutoEarnFailure::Upstream(m)),
                Ok(()) => (AutoEarnState::AwaitSubscribe { ip, amount_cents }, AutoEarnAction::Subscribe { amount_cents }),
            },
            _ => (AutoEarnState::AwaitUsdtTransfer { ip, amount_cents }, AutoEarnAction::Ignore),
        },
        AutoEarnState::AwaitSubscribe { ip, amount_cents } => match event {
            AutoEarnEvent::Subscribed { success, bfusd_amount, parsed_bits } => {
                if success != Some(true) {
                    return fail(AutoEarnFailure::SubscriptionNotSuccessful);
                }
                match bfusd_amount {
                    None => fail(AutoEarnFailure::BfusdAmountMissing),
                    Some(bfusd) => match parsed_bits {
                        Some(b) => if f64_is_finite(b) && f64_gt_zero(b) {
                            (AutoEarnState::AwaitBfusdTransfer { ip, amount_cents, bfusd }, AutoEarnAction::TransferBfusdToFutures)
                        } else {
                            fail(AutoEarnFailure::BfusdAmountInvalid)
                        },
                        None => fail(AutoEarnFailure::BfusdAmountInvalid),
                    },
                }
            },
            _ => (AutoEarnState::AwaitSubscribe { ip, amount_cents }, AutoEarnAction::Ignore),
        },
        AutoEarnState::AwaitBfusdTransfer { ip, amount_cents, bfusd } => match event {
            AutoEarnEvent::Posted { result } => match result {
                Err(m) => fail(AutoEarnFailure::Upstream(m)),
                Ok(()) => (AutoEarnState::AwaitResume { ip, amount_cents, bfusd }, AutoEarnAction::PersistResume),
            },
            _ => (AutoEarnState::AwaitBfusdTransfer { ip, amount_cents, bfusd }, AutoEarnAction::Ignore),
        },
        AutoEarnState::AwaitResume { ip, amount_cents, bfusd } => match event {
            AutoEarnEvent::Persisted { result } => match result {
                Err(m) => (
                    AutoEarnState::Finished,
                    AutoEarnAction::Fail { failure: AutoEarnFailure::Upstream(m), restore_settings: false, keep_paused: true },
                ),
                Ok(()) => (AutoEarnState::Finished, AutoEarnAction::Finish(AutoEarnOutcome::Subscribed { amount_cents, bfusd, ip })),
            },
            _ => (AutoEarnState::AwaitResume { ip, amount_cents, bfusd }, AutoEarnAction::Ignore),
        },
        AutoEarnState::Finished => (AutoEarnState::Finished, AutoEarnAction::Ignore),
    }
}

/// The transfer amount text of `cents`: whole units, a point, two digits.
pub open spec fn amount_text(cents: int) -> Seq<char> {
    decimal((cents / 100) as nat) + "."@ + zero_padded(decimal((cents % 100) as nat), 2)
}

/// The transfer amount text of a nonnegative number of cents
/// (`{cents / 100}.{cents % 100:02}`).
pub fn format_amount_cents(cents: i64) -> (r: String)
    requires
        cents >= 0,
    ensures
        r@ == amount_text(cents as int),
{
    let mut out = decimal_string((cents / 100) as u64);
    out.append(".");
    out.append(zero_padded_decimal((cents % 100) as u64, 2).as_str());
    out
}

/// Funds move only after the pause has been persisted: the first transfer
/// of a round follows a successful pause write, and no other step starts it.
pub proof fn lemma_transfer_only_after_pause(state: AutoEarnState, event: AutoEarnEvent)
    ensures
        auto_earn_next(state, event).1 is TransferUsdtToSpot ==> state is AwaitPause && (event matches AutoEarnEvent::Persisted {
            result,
        } && result is Ok),
{
}

/// Automatic earn settings of one account; the round cap and trigger are
/// binary64 bit patterns.
#[derive(Debug, Clone, Copy, PartialEq, Eq, Structural)]
pub struct AccountSettings {
    pub enabled: bool,
    pub interval_secs: u64,
    pub round_cap_usdt_bits: u64,
    pub trigger_usdt_bits: u64,
    pub paused: bool,
}

/// Bits of `1_000_000.0`.
pub const ONE_MILLION_BITS: u64 = 0x412E_8480_0000_0000;

/// Why account settings are refused.
#[derive(Debug, Clone, Copy, PartialEq, Eq, Structural)]
pub enum SettingsError {
    Interval,
    RoundCap,
    Trigger,
}

/// Operator-facing text of refused settings.
pub open spec fn settings_error_text(e: SettingsError) -> Seq<char> {
    match e {
        SettingsError::Interval => "interval must be between 60 and 86400 seconds"@,
        SettingsError::RoundCap => "round cap must be between 1 and 1000000 USDT"@,
        SettingsError::Trigger => "trigger must be between 0 and 1000000 USDT"@,
    }
}

impl SettingsError {
    /// Operator-facing text of the error.
    pub fn message(&self) -> (r: &'static str)
        ensures
            r@ == settings_error_text(*self),
    {
        match self {
            SettingsError::Interval => "interval must be between 60 and 86400 seconds",
            SettingsError::RoundCap => "round cap must be between 1 and 1000000 USDT",
            SettingsError::Trigger => "trigger must be between 0 and 1000000 USDT",
        }
    }
}

/// The first rule settings break: an interval of 60 to 86400 seconds, a
/// finite round cap of 1 to 1000000 USDT, a finite trigger of 0 to 1000000
/// USDT.
pub open spec fn settings_error(s: AccountSettings) -> Option<SettingsError> {
    if !(60 <= s.interval_secs <= 86400) {
        Some(SettingsError::Interval)
    } else if !is_finite(s.round_cap_usdt_bits) || !(float_le(ONE_BITS, s.round_cap_usdt_bits) && float_le(
        s.round_cap_usdt_bits,
        ONE_MILLION_BITS,
    )) {
        Some(SettingsError::RoundCap)
    } else if !is_finite(s.trigger_usdt_bits) || !(float_le(0, s.trigger_usdt_bits) && float_le(
        s.trigger_usdt_bits,
        ONE_MILLION_BITS,
    )) {
        Some(SettingsError::Trigger)
    } else {
        None
    }
}

/// Accepts settings that break no rule.
pub fn validate_settings(settings: &AccountSettings) -> (r: Result<(), SettingsError>)
    ensures
        r is Ok <==> settings_error(*settings) is None,
        r matches Err(e) ==> settings_error(*settings) == Some(e),
{
    if !(60 <= settings.interval_secs && settings.interval_secs <= 86400) {
        return Err(SettingsError::Interval);
    }
    let cap = settings.round_cap_usdt_bits;
    if !f64_is_finite(cap) || !(f64_le(ONE_BITS, cap) && f64_le(cap, ONE_MILLION_BITS)) {
        return Err(SettingsError::RoundCap);
    }
    let trigger = settings.trigger_usdt_bits;
    if !f64_is_finite(trigger) || !(f64_le(0, trigger) && f64_le(trigger, ONE_MILLION_BITS)) {
        return Err(SettingsError::Trigger);
    }
    Ok(())
}

} // verus!
