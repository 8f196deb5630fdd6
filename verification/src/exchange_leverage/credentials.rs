//! Exchange API credentials of a source, read from its Exec environment.

use vstd::prelude::*;

use crate::config::SourceConfig;
use crate::exchange_leverage::{optional_env, optional_env_value, required_env};
use crate::market_rules::{backend_choice, backend_error_text, execution_backend, Backend, BackendError};
use crate::text::{ascii_lower, chars_of, concat2, concat3, owned, str_eq, string_of, to_ascii_lower};

verus! {

/// Binance account mode: classic USD-M futures or the unified (portfolio
/// margin) account.
#[derive(Debug, Clone, Copy, PartialEq, Eq, Structural)]
pub enum AccountMode {
    Standard,
    Unified,
}

/// API credentials and endpoints of one exchange account.
#[derive(Debug, Clone)]
pub struct ExchangeCredentials {
    pub api_key: String,
    pub api_secret: String,
    pub account_mode: AccountMode,
    pub fapi_url: String,
    pub papi_url: String,
    pub okx_base_url: String,
    pub okx_passphrase: Option<String>,
}

/// `ExchangeCredentials` with its strings as character sequences.
pub struct CredentialsView {
    pub api_key: Seq<char>,
    pub api_secret: Seq<char>,
    pub account_mode: AccountMode,
    pub fapi_url: Seq<char>,
    pub papi_url: Seq<char>,
    pub okx_base_url: Seq<char>,
    pub okx_passphrase: Option<Seq<char>>,
}

impl ExchangeCredentials {
    pub open spec fn view(&self) -> CredentialsView {
        CredentialsView {
            api_key: self.api_key@,
            api_secret: self.api_secret@,
            account_mode: self.account_mode,
            fapi_url: self.fapi_url@,
            papi_url: self.papi_url@,
            okx_base_url: self.okx_base_url@,
            okx_passphrase: match self.okx_passphrase {
                Some(p) => Some(p@),
                None => None,
            },
        }
    }
}

/// Why a source has no usable exchange credentials.
#[derive(Debug, Clone)]
pub enum CredentialsError {
    /// The execution backend settings are refused.
    Backend(BackendError),
    /// The source trades through RapidX, not the exchange API.
    NotNative,
    /// A required entry of the Exec env file is missing or blank.
    MissingEnv(String),
    /// `BINANCE_ACCOUNT_MODE` names no known mode (lowercased value).
    UnsupportedAccountMode(String),
    /// The venue has no account API here (source id, venue).
    UnsupportedVenue(String, String),
}

/// `CredentialsError` with its strings as character sequences.
pub enum CredentialsErrorView {
    Backend(BackendError),
    NotNative,
    MissingEnv(Seq<char>),
    UnsupportedAccountMode(Seq<char>),
    UnsupportedVenue(Seq<char>, Seq<char>),
}

impl CredentialsError {
    pub open spec fn view(&self) -> CredentialsErrorView {
        match self {
            CredentialsError::Backend(e) => CredentialsErrorView::Backend(*e),
            CredentialsError::NotNative => CredentialsErrorView::NotNative,
            CredentialsError::MissingEnv(k) => CredentialsErrorView::MissingEnv(k@),
            CredentialsError::UnsupportedAccountMode(m) => CredentialsErrorView::UnsupportedAccountMode(m@),
            CredentialsError::UnsupportedVenue(id, v) => CredentialsErrorView::UnsupportedVenue(id@, v@),
        }
    }

    /// Operator-facing text of the error.
    pub fn message(&self) -> (r: String)
        ensures
            r@ == credentials_error_text(self.view()),
    {
        match self {
            CredentialsError::Backend(e) => owned(e.message()),
            CredentialsError::NotNative => owned(
                "native account APIs are disabled for RapidX sources; use the RapidX Exec adapter",
            ),
            CredentialsError::MissingEnv(k) => concat2(k.as_str(), " is missing in the Exec env file"),
            CredentialsError::UnsupportedAccountMode(m) => concat2(
                "unsupported BINANCE_ACCOUNT_MODE: ",
                m.as_str(),
            ),
            CredentialsError::UnsupportedVenue(id, v) => {
                let head = concat3("source ", id.as_str(), " venue does not support set leverage: ");
                concat2(head.as_str(), v.as_str())
            },
        }
    }
}

/// Text of a credentials error.
pub open spec fn credentials_error_text(e: CredentialsErrorView) -> Seq<char> {
    match e {
        CredentialsErrorView::Backend(b) => backend_error_text(b),
        CredentialsErrorView::NotNative => "native account APIs are disabled for RapidX sources; use the RapidX Exec adapter"@,
        CredentialsErrorView::MissingEnv(k) => k + " is missing in the Exec env file"@,
        CredentialsErrorView::UnsupportedAccountMode(m) => "unsupported BINANCE_ACCOUNT_MODE: "@ + m,
        CredentialsErrorView::UnsupportedVenue(id, v) => "source "@ + id
            + " venue does not support set leverage: "@ + v,
    }
}

/// The Binance account mode a `BINANCE_ACCOUNT_MODE` value names, compared
/// in lowercase: `standard` or `std`, `unified` or `pm`.
pub open spec fn account_mode_of(raw: Seq<char>) -> Option<AccountMode> {
    let l = ascii_lower(raw);
    if l == "standard"@ || l == "std"@ {
        Some(AccountMode::Standard)
    } else if l == "unified"@ || l == "pm"@ {
        Some(AccountMode::Unified)
    } else {
        None
    }
}

/// `value`, or `default` when it is unset.
pub open spec fn or_default(value: Option<Seq<char>>, default: Seq<char>) -> Seq<char> {
    match value {
        Some(v) => v,
        None => default,
    }
}

/// The credentials of source `id` on `venue` from its Exec environment
/// `values`: the backend must be native; Binance USD-M futures needs the API
/// key, secret and a known account mode, OKX futures the key, secret and
/// passphrase; endpoints default to the public production hosts.
pub open spec fn credentials_of(id: Seq<char>, venue: Seq<char>, values: Seq<(String, String)>) -> Result<
    CredentialsView,
    CredentialsErrorView,
> {
    match backend_choice(venue, values) {
        Err(e) => Err(CredentialsErrorView::Backend(e)),
        Ok(b) => if b != Backend::Native {
            Err(CredentialsErrorView::NotNative)
        } else if venue == "binance-futures"@ {
            binance_credentials_of(values)
        } else if venue == "okex-futures"@ {
            okx_credentials_of(values)
        } else {
            Err(CredentialsErrorView::UnsupportedVenue(id, venue))
        },
    }
}

/// Binance USD-M futures credentials: API key, secret and a known account
/// mode are required.
pub open spec fn binance_credentials_of(values: Seq<(String, String)>) -> Result<
    CredentialsView,
    CredentialsErrorView,
> {
    match optional_env_value(values, "BINANCE_API_KEY"@) {
        None => Err(CredentialsErrorView::MissingEnv("BINANCE_API_KEY"@)),
        Some(key) => match optional_env_value(values, "BINANCE_API_SECRET"@) {
            None => Err(CredentialsErrorView::MissingEnv("BINANCE_API_SECRET"@)),
            Some(secret) => match optional_env_value(values, "BINANCE_ACCOUNT_MODE"@) {
                None => Err(CredentialsErrorView::MissingEnv("BINANCE_ACCOUNT_MODE"@)),
                Some(mode) => match account_mode_of(mode) {
                    None => Err(CredentialsErrorView::UnsupportedAccountMode(ascii_lower(mode))),
                    Some(account_mode) => Ok(
                        CredentialsView {
                            api_key: key,
                            api_secret: secret,
                            account_mode,
                            fapi_url: or_default(
                                optional_env_value(values, "BINANCE_FAPI_URL"@),
                                "https://fapi.binance.com"@,
                            ),
                            papi_url: or_default(
                                optional_env_value(values, "BINANCE_PAPI_URL"@),
                                "https://papi.binance.com"@,
                            ),
                            okx_base_url: Seq::empty(),
                            okx_passphrase: None,
                        },
                    ),
                },
            },
        },
    }
}

/// OKX futures credentials: API key, secret and passphrase are required.
pub open spec fn okx_credentials_of(values: Seq<(String, String)>) -> Result<
    CredentialsView,
    CredentialsErrorView,
> {
    match optional_env_value(values, "OKX_API_KEY"@) {
        None => Err(CredentialsErrorView::MissingEnv("OKX_API_KEY"@)),
        Some(key) => match optional_env_value(values, "OKX_API_SECRET"@) {
            None => Err(CredentialsErrorView::MissingEnv("OKX_API_SECRET"@)),
            Some(secret) => match optional_env_value(values, "OKX_PASSPHRASE"@) {
                None => Err(CredentialsErrorView::MissingEnv("OKX_PASSPHRASE"@)),
                Some(passphrase) => Ok(
                    CredentialsView {
                        api_key: key,
                        api_secret: secret,
                        account_mode: AccountMode::Standard,
                        fapi_url: Seq::empty(),
                        papi_url: Seq::empty(),
                        okx_base_url: or_default(
                            optional_env_value(values, "OKX_BASE_URL"@),
                            "https://www.okx.com"@,
                        ),
                        okx_passphrase: Some(passphrase),
                    },
                ),
            },
        },
    }
}

fn env_or_missing(values: &Vec<(String, String)>, key: &str) -> (r: Result<String, CredentialsError>)
    ensures
        r matches Ok(v) ==> optional_env_value(values@, key@) == Some(v@),
        r matches Err(e) ==> optional_env_value(values@, key@) is None && e.view()
            == CredentialsErrorView::MissingEnv(key@),
{
    match required_env(values, key) {
        Ok(v) => Ok(v),
        Err(()) => Err(CredentialsError::MissingEnv(owned(key))),
    }
}

fn env_or_default(values: &Vec<(String, String)>, key: &str, default: &str) -> (r: String)
    ensures
        r@ == or_default(optional_env_value(values@, key@), default@),
{
    match optional_env(values, key) {
        Some(v) => v,
        None => owned(default),
    }
}

fn binance_credentials(values: &Vec<(String, String)>) -> (r: Result<ExchangeCredentials, CredentialsError>)
    ensures
        r matches Ok(c) ==> binance_credentials_of(values@) == Ok::<CredentialsView, CredentialsErrorView>(c.view()),
        r matches Err(e) ==> binance_credentials_of(values@) == Err::<CredentialsView, CredentialsErrorView>(e.view()),
{
    let api_key = match env_or_missing(values, "BINANCE_API_KEY") {
        Ok(v) => v,
        Err(e) => return Err(e),
    };
    let api_secret = match env_or_missing(values, "BINANCE_API_SECRET") {
        Ok(v) => v,
        Err(e) => return Err(e),
    };
    let raw_mode = match env_or_missing(values, "BINANCE_ACCOUNT_MODE") {
        Ok(v) => v,
        Err(e) => return Err(e),
    };
    let mode_chars = chars_of(raw_mode.as_str());
    let lowered = string_of(to_ascii_lower(mode_chars.as_slice()).as_slice());
    let account_mode = if str_eq(lowered.as_str(), "standard") || str_eq(lowered.as_str(), "std") {
        AccountMode::Standard
    } else if str_eq(lowered.as_str(), "unified") || str_eq(lowered.as_str(), "pm") {
        AccountMode::Unified
    } else {
        return Err(CredentialsError::UnsupportedAccountMode(lowered));
    };
    let fapi_url = env_or_default(values, "BINANCE_FAPI_URL", "https://fapi.binance.com");
    let papi_url = env_or_default(values, "BINANCE_PAPI_URL", "https://papi.binance.com");
    let okx_base_url = String::new();
    Ok(
        ExchangeCredentials {
            api_key,
            api_secret,
            account_mode,
            fapi_url,
            papi_url,
            okx_base_url,
            okx_passphrase: None,
        },
    )
}

fn okx_credentials(values: &Vec<(String, String)>) -> (r: Result<ExchangeCredentials, CredentialsError>)
    ensures
        r matches Ok(c) ==> okx_credentials_of(values@) == Ok::<CredentialsView, CredentialsErrorView>(c.view()),
        r matches Err(e) ==> okx_credentials_of(values@) == Err::<CredentialsView, CredentialsErrorView>(e.view()),
{
    let api_key = match env_or_missing(values, "OKX_API_KEY") {
        Ok(v) => v,
        Err(e) => return Err(e),
    };
    let api_secret = match env_or_missing(values, "OKX_API_SECRET") {
        Ok(v) => v,
        Err(e) => return Err(e),
    };
    let okx_base_url = env_or_default(values, "OKX_BASE_URL", "https://www.okx.com");
    let passphrase = match env_or_missing(values, "OKX_PASSPHRASE") {
        Ok(v) => v,
        Err(e) => return Err(e),
    };
    Ok(
        ExchangeCredentials {
            api_key,
            api_secret,
            account_mode: AccountMode::Standard,
            fapi_url: String::new(),
            papi_url: String::new(),
            okx_base_url,
            okx_passphrase: Some(passphrase),
        },
    )
}

/// The exchange credentials of `source` from the values of its Exec env file.
pub fn source_credentials(source: &SourceConfig, values: &Vec<(String, String)>) -> (r: Result<
    ExchangeCredentials,
    CredentialsError,
>)
    ensures
        r matches Ok(c) ==> credentials_of(source.id@, source.venue@, values@) == Ok::<
            CredentialsView,
            CredentialsErrorView,
        >(c.view()),
        r matches Err(e) ==> credentials_of(source.id@, source.venue@, values@) == Err::<
            CredentialsView,
            CredentialsErrorView,
        >(e.view()),
{
    let backend = match execution_backend(source.venue.as_str(), values) {
        Ok(b) => b,
        Err(e) => return Err(CredentialsError::Backend(e)),
    };
    if !str_eq(backend, "native") {
        return Err(CredentialsError::NotNative);
    }
    assert("ltp"@ != "native"@) by {
        reveal_strlit("ltp");
        reveal_strlit("native");
        assert("ltp"@.len() == 3);
    }
    assert(backend_choice(source.venue@, values@) == Ok::<Backend, BackendError>(Backend::Native));
    if str_eq(source.venue.as_str(), "binance-futures") {
        binance_credentials(values)
    } else if str_eq(source.venue.as_str(), "okex-futures") {
        okx_credentials(values)
    } else {
        Err(CredentialsError::UnsupportedVenue(source.id.clone(), source.venue.clone()))
    }
}

} // verus!
