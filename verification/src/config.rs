//! Manager configuration: its sections, their defaults, and the rules a
//! loaded configuration must satisfy.

pub mod urls;

use vstd::prelude::*;

use crate::float_bits::{f64_is_finite, f64_lt_zero, f64_gt_zero, gt_zero, is_finite, lt_zero, TEN_THOUSAND_BITS};
use vstd::string::StrSliceExecFns;
use crate::text::{concat2, concat3, is_blank, owned, str_eq, trim, trim_str, is_alnum, chars_of, char_is_alnum, debug_quoted, debug_string};

verus! {

/// The PostgreSQL connection section.
#[derive(Debug, Clone)]
pub struct DatabaseConfig {
    pub url_env: String,
    pub max_connections: u32,
}

/// Polling of the Exec archives.
#[derive(Debug, Clone)]
pub struct IngestionConfig {
    pub poll_interval_secs: u64,
    pub safety_lag_secs: u64,
    pub overlap_secs: u64,
}

impl Default for IngestionConfig {
    fn default() -> (r: Self)
        ensures
            r.poll_interval_secs == 60,
            r.safety_lag_secs == 5,
            r.overlap_secs == 300,
    {
        IngestionConfig { poll_interval_secs: 60, safety_lag_secs: 5, overlap_secs: 300 }
    }
}

/// Requests to the Exec Config services.
#[derive(Debug, Clone)]
pub struct OrderConfigSettings {
    pub request_timeout_secs: u64,
}

impl Default for OrderConfigSettings {
    fn default() -> (r: Self)
        ensures
            r.request_timeout_secs == 5,
    {
        OrderConfigSettings { request_timeout_secs: 5 }
    }
}

/// Loopback Redis used as the Exec runtime store.
#[derive(Debug, Clone)]
pub struct RedisSettings {
    pub url: String,
    pub request_timeout_secs: u64,
    pub reconnect_interval_ms: u64,
}

impl Default for RedisSettings {
    fn default() -> (r: Self)
        ensures
            r.url@ == "redis://127.0.0.1:6379/0"@,
            r.request_timeout_secs == 2,
            r.reconnect_interval_ms == 500,
    {
        RedisSettings {
            url: owned("redis://127.0.0.1:6379/0"),
            request_timeout_secs: 2,
            reconnect_interval_ms: 500,
        }
    }
}

/// TWAP bar collection.
#[derive(Debug, Clone)]
pub struct TwapConfig {
    pub enabled: bool,
    pub rocksdb_path: String,
    pub venue: String,
    pub interval_ms: u32,
    pub retain_days: u32,
    pub catalog_reload_secs: u64,
    pub compact_interval_secs: u64,
}

impl Default for TwapConfig {
    fn default() -> (r: Self)
        ensures
            !r.enabled,
            r.rocksdb_path@ == "/home/el01/crypto_cta_manager/db"@,
            r.venue@ == "binance-futures"@,
            r.interval_ms == 5_000,
            r.retain_days == 30,
            r.catalog_reload_secs == 30,
            r.compact_interval_secs == 3_600,
    {
        TwapConfig {
            enabled: false,
            rocksdb_path: owned("/home/el01/crypto_cta_manager/db"),
            venue: owned("binance-futures"),
            interval_ms: 5_000,
            retain_days: 30,
            catalog_reload_secs: 30,
            compact_interval_secs: 3_600,
        }
    }
}

/// One Exec deployment whose archive the Manager reads. Fee rate and share
/// unit are binary64 bit patterns.
#[derive(Debug, Clone)]
pub struct SourceConfig {
    pub id: String,
    pub account: String,
    pub alias: Option<String>,
    pub venue: String,
    pub rocksdb_path: String,
    pub enabled: bool,
    pub start_ts_us: Option<i64>,
    pub poll_interval_secs: Option<u64>,
    pub estimated_fee_rate_bits: Option<u64>,
    pub gateway_prefix: Option<String>,
    pub exec_config_url: Option<String>,
    pub exec_viz_url: Option<String>,
    pub ipc_namespace: Option<String>,
    pub account_ipc_service: Option<String>,
    pub share_unit_usdt_bits: Option<u64>,
}

/// The whole Manager configuration.
#[derive(Debug, Clone)]
pub struct AppConfig {
    pub database: DatabaseConfig,
    pub ingestion: IngestionConfig,
    pub order_config: OrderConfigSettings,
    pub redis: RedisSettings,
    pub twap: TwapConfig,
    pub sources: Vec<SourceConfig>,
}

/// Environment variable named by default for the database URL.
pub fn default_database_url_env() -> (r: String)
    ensures
        r@ == "CRYPTO_CTA_LOCAL_DATABASE_URL"@,
{
    owned("CRYPTO_CTA_LOCAL_DATABASE_URL")
}

/// Default size of the database pool.
pub fn default_max_connections() -> (r: u32)
    ensures
        r == 8,
{
    8
}

/// Sources are enabled unless configured otherwise.
pub fn default_true() -> (r: bool)
    ensures
        r,
{
    true
}

/// What the loopback check made of one configured URL.
#[derive(Debug, Clone, Copy, PartialEq, Eq, Structural)]
pub enum UrlCheck {
    /// A loopback origin of the expected scheme.
    Loopback,
    /// The text is not a URL.
    Unparsable,
    /// Wrong scheme, or credentials, a path, a query or a fragment.
    NotOrigin,
    /// The URL has no host.
    NoHost,
    /// The host is neither `localhost` nor a loopback address.
    NotLoopback,
}

/// The loopback checks of the URLs of one source.
#[derive(Debug, Clone, Copy, PartialEq, Eq, Structural)]
pub struct SourceUrlChecks {
    pub exec_config: UrlCheck,
    pub exec_viz: UrlCheck,
}

/// The loopback checks of every URL of a configuration.
#[derive(Debug, Clone)]
pub struct ConfigUrlChecks {
    pub redis: UrlCheck,
    pub sources: Vec<SourceUrlChecks>,
}

/// Which rule a configuration breaks.
#[derive(Debug, Clone, Copy, PartialEq, Eq, Structural)]
pub enum ConfigErrorKind {
    EmptyDatabaseUrlEnv,
    ZeroMaxConnections,
    ZeroPollInterval,
    ZeroOrderConfigTimeout,
    ZeroRedisTimeout,
    ZeroRedisReconnect,
    RedisUrl(UrlCheck),
    TwapPathRelative,
    TwapPathReused,
    EmptyTwapVenue,
    ZeroTwapInterval,
    ZeroTwapRetainDays,
    ZeroTwapCatalogReload,
    ZeroTwapCompactInterval,
    NoSources,
    InvalidSourceId,
    EmptyAccount,
    EmptyAlias,
    EmptyVenue,
    SourcePathRelative,
    NegativeStartTs,
    ZeroSourcePollInterval,
    InvalidFeeRate,
    InvalidGatewayPrefix,
    DuplicateGatewayPrefix,
    ExecConfigUrl(UrlCheck),
    ExecVizUrl(UrlCheck),
    InvalidShareUnit,
    DuplicateSourceId,
    SharedRocksdbPath,
    MissingFeeRate,
}

/// A broken configuration rule, with the text it concerns (a source id, a
/// path or a gateway prefix; empty for the global rules) and, for a source
/// whose path is relative, that path (empty otherwise).
#[derive(Debug, Clone)]
pub struct ConfigError {
    pub kind: ConfigErrorKind,
    pub detail: String,
    pub path: String,
}

impl ConfigError {
    /// Operator-facing text of the error.
    pub fn message(&self) -> (r: String)
        ensures
            r@ == config_error_text(self.kind, self.detail@, self.path@),
    {
        let d = self.detail.as_str();
        match self.kind {
            ConfigErrorKind::EmptyDatabaseUrlEnv => owned("database.url_env must not be empty"),
            ConfigErrorKind::ZeroMaxConnections => owned("database.max_connections must be greater than zero"),
            ConfigErrorKind::ZeroPollInterval => owned("ingestion.poll_interval_secs must be greater than zero"),
            ConfigErrorKind::ZeroOrderConfigTimeout => owned(
                "order_config.request_timeout_secs must be greater than zero",
            ),
            ConfigErrorKind::ZeroRedisTimeout => owned("redis.request_timeout_secs must be greater than zero"),
            ConfigErrorKind::ZeroRedisReconnect => owned("redis.reconnect_interval_ms must be greater than zero"),
            ConfigErrorKind::RedisUrl(check) => match check {
                UrlCheck::Unparsable => owned("redis.url is invalid"),
                UrlCheck::NoHost => owned("redis.url has no host"),
                UrlCheck::NotLoopback => owned("redis.url host must be loopback"),
                _ => owned(
                    "redis.url must be a loopback redis:// origin with an optional database index 0-15",
                ),
            },
            ConfigErrorKind::TwapPathRelative => concat2("twap.rocksdb_path must be absolute: ", d),
            ConfigErrorKind::TwapPathReused => concat2(
                "twap.rocksdb_path must not reuse an Exec persist_manager path: ",
                d,
            ),
            ConfigErrorKind::EmptyTwapVenue => owned("twap.venue must not be empty"),
            ConfigErrorKind::ZeroTwapInterval => owned("twap.interval_ms must be greater than zero"),
            ConfigErrorKind::ZeroTwapRetainDays => owned("twap.retain_days must be greater than zero"),
            ConfigErrorKind::ZeroTwapCatalogReload => owned("twap.catalog_reload_secs must be greater than zero"),
            ConfigErrorKind::ZeroTwapCompactInterval => owned(
                "twap.compact_interval_secs must be greater than zero",
            ),
            ConfigErrorKind::NoSources => owned("at least one [[sources]] entry is required"),
            ConfigErrorKind::InvalidSourceId => concat2(
                "source id must contain 1-128 ASCII letters, digits, '_' or '-': ",
                debug_string(d).as_str(),
            ),
            ConfigErrorKind::EmptyAccount => concat3("source ", d, " has an empty account"),
            ConfigErrorKind::EmptyAlias => concat3("source ", d, " alias must not be empty when set"),
            ConfigErrorKind::EmptyVenue => concat3("source ", d, " has an empty venue"),
            ConfigErrorKind::SourcePathRelative => {
                let mut out = concat3("source ", d, " rocksdb_path must be absolute: ");
                out.append(self.path.as_str());
                out
            },
            ConfigErrorKind::NegativeStartTs => concat3("source ", d, " start_ts_us must not be negative"),
            ConfigErrorKind::ZeroSourcePollInterval => concat3(
                "source ",
                d,
                " poll_interval_secs must be greater than zero",
            ),
            ConfigErrorKind::InvalidFeeRate => concat3(
                "source ",
                d,
                " estimated_fee_rate must be finite and nonnegative",
            ),
            ConfigErrorKind::InvalidGatewayPrefix => concat3(
                "source ",
                d,
                " gateway_prefix must be one absolute path segment containing only ASCII letters, digits, '_' or '-'",
            ),
            ConfigErrorKind::DuplicateGatewayPrefix => concat2("duplicate source gateway_prefix: ", d),
            ConfigErrorKind::ExecConfigUrl(check) => origin_error_message(d, "exec_config_url", check),
            ConfigErrorKind::ExecVizUrl(check) => origin_error_message(d, "exec_viz_url", check),
            ConfigErrorKind::InvalidShareUnit => concat3(
                "source ",
                d,
                " share_unit_usdt must be finite and greater than zero",
            ),
            ConfigErrorKind::DuplicateSourceId => concat2("duplicate source id: ", d),
            ConfigErrorKind::SharedRocksdbPath => concat2("enabled sources must not share rocksdb_path: ", d),
            ConfigErrorKind::MissingFeeRate => concat3(
                "source ",
                d,
                " requires estimated_fee_rate for NAV reconstruction",
            ),
        }
    }
}

/// Text of the error a source's Exec service origin `field` gives: the URL
/// does not parse, has no host, has a host off this machine, or is no plain
/// HTTP origin.
pub open spec fn origin_error_text(id: Seq<char>, field: Seq<char>, check: UrlCheck) -> Seq<char> {
    match check {
        UrlCheck::Unparsable => "source "@ + id + " has invalid "@ + field,
        UrlCheck::NoHost => "source "@ + id + " "@ + field + " has no host"@,
        UrlCheck::NotLoopback => "source "@ + id + " "@ + field + " host must be loopback"@,
        _ => "source "@ + id + " "@ + field
            + " must be a loopback HTTP origin without credentials, path, query, or fragment"@,
    }
}

fn origin_error_message(id: &str, field: &str, check: UrlCheck) -> (r: String)
    ensures
        r@ == origin_error_text(id@, field@, check),
{
    let mut out = concat2("source ", id);
    match check {
        UrlCheck::Unparsable => {
            out.append(" has invalid ");
            out.append(field);
        },
        UrlCheck::NoHost => {
            out.append(" ");
            out.append(field);
            out.append(" has no host");
        },
        UrlCheck::NotLoopback => {
            out.append(" ");
            out.append(field);
            out.append(" host must be loopback");
        },
        _ => {
            out.append(" ");
            out.append(field);
            out.append(" must be a loopback HTTP origin without credentials, path, query, or fragment");
        },
    }
    out
}

/// Operator-facing text of a configuration error of kind `kind` about
/// `d` (a source id, a path or a gateway prefix) and, for a relative source
/// path, the path `p`.
pub open spec fn config_error_text(kind: ConfigErrorKind, d: Seq<char>, p: Seq<char>) -> Seq<char> {
    match kind {
        ConfigErrorKind::EmptyDatabaseUrlEnv => "database.url_env must not be empty"@,
        ConfigErrorKind::ZeroMaxConnections => "database.max_connections must be greater than zero"@,
        ConfigErrorKind::ZeroPollInterval => "ingestion.poll_interval_secs must be greater than zero"@,
        ConfigErrorKind::ZeroOrderConfigTimeout => "order_config.request_timeout_secs must be greater than zero"@,
        ConfigErrorKind::ZeroRedisTimeout => "redis.request_timeout_secs must be greater than zero"@,
        ConfigErrorKind::ZeroRedisReconnect => "redis.reconnect_interval_ms must be greater than zero"@,
        ConfigErrorKind::RedisUrl(check) => match check {
            UrlCheck::Unparsable => "redis.url is invalid"@,
            UrlCheck::NoHost => "redis.url has no host"@,
            UrlCheck::NotLoopback => "redis.url host must be loopback"@,
            _ => "redis.url must be a loopback redis:// origin with an optional database index 0-15"@,
        },
        ConfigErrorKind::TwapPathRelative => "twap.rocksdb_path must be absolute: "@ + d,
        ConfigErrorKind::TwapPathReused => "twap.rocksdb_path must not reuse an Exec persist_manager path: "@ + d,
        ConfigErrorKind::EmptyTwapVenue => "twap.venue must not be empty"@,
        ConfigErrorKind::ZeroTwapInterval => "twap.interval_ms must be greater than zero"@,
        ConfigErrorKind::ZeroTwapRetainDays => "twap.retain_days must be greater than zero"@,
        ConfigErrorKind::ZeroTwapCatalogReload => "twap.catalog_reload_secs must be greater than zero"@,
        ConfigErrorKind::ZeroTwapCompactInterval => "twap.compact_interval_secs must be greater than zero"@,
        ConfigErrorKind::NoSources => "at least one [[sources]] entry is required"@,
        ConfigErrorKind::InvalidSourceId => "source id must contain 1-128 ASCII letters, digits, '_' or '-': "@
            + debug_quoted(d),
        ConfigErrorKind::EmptyAccount => "source "@ + d + " has an empty account"@,
        ConfigErrorKind::EmptyAlias => "source "@ + d + " alias must not be empty when set"@,
        ConfigErrorKind::EmptyVenue => "source "@ + d + " has an empty venue"@,
        ConfigErrorKind::SourcePathRelative => "source "@ + d + " rocksdb_path must be absolute: "@ + p,
        ConfigErrorKind::NegativeStartTs => "source "@ + d + " start_ts_us must not be negative"@,
        ConfigErrorKind::ZeroSourcePollInterval => "source "@ + d + " poll_interval_secs must be greater than zero"@,
        ConfigErrorKind::InvalidFeeRate => "source "@ + d + " estimated_fee_rate must be finite and nonnegative"@,
        ConfigErrorKind::InvalidGatewayPrefix => "source "@ + d
            + " gateway_prefix must be one absolute path segment containing only ASCII letters, digits, '_' or '-'"@,
        ConfigErrorKind::DuplicateGatewayPrefix => "duplicate source gateway_prefix: "@ + d,
        ConfigErrorKind::ExecConfigUrl(check) => origin_error_text(d, "exec_config_url"@, check),
        ConfigErrorKind::ExecVizUrl(check) => origin_error_text(d, "exec_viz_url"@, check),
        ConfigErrorKind::InvalidShareUnit => "source "@ + d + " share_unit_usdt must be finite and greater than zero"@,
        ConfigErrorKind::DuplicateSourceId => "duplicate source id: "@ + d,
        ConfigErrorKind::SharedRocksdbPath => "enabled sources must not share rocksdb_path: "@ + d,
        ConfigErrorKind::MissingFeeRate => "source "@ + d + " requires estimated_fee_rate for NAV reconstruction"@,
    }
}

/// `Path::is_absolute` on Unix: the path starts at the root.
pub open spec fn path_is_absolute(p: Seq<char>) -> bool {
    p.len() > 0 && p[0] == '/'
}

/// `Path::new(a) == Path::new(b)`: the two paths have the same components.
pub uninterp spec fn path_eq(a: Seq<char>, b: Seq<char>) -> bool;

/// `Path::new(a) == Path::new(b)` (component-wise comparison). The result is
/// named by `path_eq`; equal texts have equal components, so a path equals
/// itself.
#[verifier::external_body]
fn same_path(a: &str, b: &str) -> (r: bool)
    ensures
        r == path_eq(a@, b@),
        a@ == b@ ==> r,
{
    std::path::Path::new(a) == std::path::Path::new(b)
}

/// Whether `p` names an absolute path, as `Path::is_absolute` decides on
/// Unix: the path starts at the root `/`.
fn is_absolute_path(p: &str) -> (r: bool)
    ensures
        r == path_is_absolute(p@),
{
    let cs = chars_of(p);
    cs.len() > 0 && cs[0] == '/'
}

/// Character allowed in source ids and gateway segments.
pub open spec fn is_id_char(c: char) -> bool {
    is_alnum(c) || c == '_' || c == '-'
}

/// 1 to 128 ASCII letters, digits, `_` or `-`.
pub open spec fn valid_source_id(s: Seq<char>) -> bool {
    1 <= s.len() <= 128 && forall|i: int| 0 <= i < s.len() ==> is_id_char(#[trigger] s[i])
}

/// `/` followed by 1 to 127 ASCII letters, digits, `_` or `-`.
pub open spec fn valid_gateway_prefix(s: Seq<char>) -> bool {
    2 <= s.len() <= 128 && s[0] == '/' && forall|i: int|
        1 <= i < s.len() ==> is_id_char(#[trigger] s[i])
}

fn all_id_chars(cs: &[char], from: usize) -> (r: bool)
    requires
        from <= cs@.len(),
    ensures
        r == forall|i: int| from <= i < cs@.len() ==> is_id_char(#[trigger] cs@[i]),
{
    let mut i = from;
    while i < cs.len()
        invariant
            from <= i <= cs@.len(),
            forall|k: int| from <= k < i ==> is_id_char(#[trigger] cs@[k]),
        decreases cs@.len() - i,
    {
        let c = cs[i];
        if !(char_is_alnum(c) || c == '_' || c == '-') {
            assert(!is_id_char(cs@[i as int]));
            return false;
        }
        i = i + 1;
    }
    true
}

/// A source id is 1-128 ASCII letters, digits, `_` or `-`.
pub fn validate_source_id(value: &str) -> (r: bool)
    ensures
        r == valid_source_id(value@),
{
    let cs = chars_of(value);
    cs.len() >= 1 && cs.len() <= 128 && all_id_chars(cs.as_slice(), 0)
}

/// A gateway prefix is one absolute path segment of ASCII letters, digits,
/// `_` or `-`, at most 128 bytes long.
pub fn validate_gateway_prefix(value: &str) -> (r: bool)
    ensures
        r == valid_gateway_prefix(value@),
{
    let cs = chars_of(value);
    cs.len() >= 2 && cs.len() <= 128 && cs[0] == '/' && all_id_chars(cs.as_slice(), 1)
}

/// The Redis URL path selects database 0-15 or none.
pub open spec fn supported_redis_db_path(p: Seq<char>) -> bool {
    ||| p.len() == 0
    ||| p =~= seq!['/']
    ||| (p.len() == 2 && p[0] == '/' && '0' <= p[1] <= '9')
    ||| (p.len() == 3 && p[0] == '/' && p[1] == '1' && '0' <= p[2] <= '5')
}

/// Whether a Redis URL path names database 0-15 (or none).
pub fn is_supported_redis_db_path(path: &str) -> (r: bool)
    ensures
        r == supported_redis_db_path(path@),
{
    let cs = chars_of(path);
    let n = cs.len();
    if n == 0 {
        return true;
    }
    if cs[0] != '/' {
        return false;
    }
    if n == 1 {
        assert(cs@ =~= seq!['/']);
        return true;
    }
    if n == 2 {
        return '0' <= cs[1] && cs[1] <= '9';
    }
    n == 3 && cs[1] == '1' && '0' <= cs[2] && cs[2] <= '5'
}

/// The first broken rule among those that precede the per-source rules.
pub open spec fn global_error(c: AppConfig, checks: ConfigUrlChecks) -> Option<(ConfigErrorKind, Seq<char>, Seq<char>)> {
    let none = Seq::<char>::empty();
    if trim(c.database.url_env@).len() == 0 {
        Some((ConfigErrorKind::EmptyDatabaseUrlEnv, none, none))
    } else if c.database.max_connections == 0 {
        Some((ConfigErrorKind::ZeroMaxConnections, none, none))
    } else if c.ingestion.poll_interval_secs == 0 {
        Some((ConfigErrorKind::ZeroPollInterval, none, none))
    } else if c.order_config.request_timeout_secs == 0 {
        Some((ConfigErrorKind::ZeroOrderConfigTimeout, none, none))
    } else if c.redis.request_timeout_secs == 0 {
        Some((ConfigErrorKind::ZeroRedisTimeout, none, none))
    } else if c.redis.reconnect_interval_ms == 0 {
        Some((ConfigErrorKind::ZeroRedisReconnect, none, none))
    } else if checks.redis != UrlCheck::Loopback {
        Some((ConfigErrorKind::RedisUrl(checks.redis), none, none))
    } else if !path_is_absolute(c.twap.rocksdb_path@) {
        Some((ConfigErrorKind::TwapPathRelative, c.twap.rocksdb_path@, none))
    } else if exists|i: int|
        0 <= i < c.sources@.len() && #[trigger] c.sources@[i].enabled && path_eq(
            c.sources@[i].rocksdb_path@,
            c.twap.rocksdb_path@,
        ) {
        Some((ConfigErrorKind::TwapPathReused, c.twap.rocksdb_path@, none))
    } else if c.twap.enabled && trim(c.twap.venue@).len() == 0 {
        Some((ConfigErrorKind::EmptyTwapVenue, none, none))
    } else if c.twap.enabled && c.twap.interval_ms == 0 {
        Some((ConfigErrorKind::ZeroTwapInterval, none, none))
    } else if c.twap.enabled && c.twap.retain_days == 0 {
        Some((ConfigErrorKind::ZeroTwapRetainDays, none, none))
    } else if c.twap.enabled && c.twap.catalog_reload_secs == 0 {
        Some((ConfigErrorKind::ZeroTwapCatalogReload, none, none))
    } else if c.twap.enabled && c.twap.compact_interval_secs == 0 {
        Some((ConfigErrorKind::ZeroTwapCompactInterval, none, none))
    } else if c.sources@.len() == 0 {
        Some((ConfigErrorKind::NoSources, none, none))
    } else {
        None
    }
}

/// An earlier source (index below `i`) has gateway prefix `g`.
pub open spec fn earlier_prefix(c: AppConfig, i: int, g: Seq<char>) -> bool {
    exists|j: int|
        0 <= j < i && ((#[trigger] c.sources@[j]).gateway_prefix matches Some(h) && h@ == g)
}

/// An earlier source has id `id`.
pub open spec fn earlier_id(c: AppConfig, i: int, id: Seq<char>) -> bool {
    exists|j: int| 0 <= j < i && (#[trigger] c.sources@[j]).id@ == id
}

/// An earlier enabled source has a path equal to `p`.
pub open spec fn earlier_enabled_path(c: AppConfig, i: int, p: Seq<char>) -> bool {
    exists|j: int|
        0 <= j < i && (#[trigger] c.sources@[j]).enabled && path_eq(c.sources@[j].rocksdb_path@, p)
}

/// The first rule that source `i` breaks, given that every earlier source
/// passed all of them.
pub open spec fn source_error(c: AppConfig, checks: ConfigUrlChecks, i: int) -> Option<
    (ConfigErrorKind, Seq<char>, Seq<char>),
> {
    let s = c.sources@[i];
    let id = s.id@;
    let none = Seq::<char>::empty();
    if !valid_source_id(id) {
        Some((ConfigErrorKind::InvalidSourceId, id, none))
    } else if trim(s.account@).len() == 0 {
        Some((ConfigErrorKind::EmptyAccount, id, none))
    } else if s.alias matches Some(a) && trim(a@).len() == 0 {
        Some((ConfigErrorKind::EmptyAlias, id, none))
    } else if trim(s.venue@).len() == 0 {
        Some((ConfigErrorKind::EmptyVenue, id, none))
    } else if !path_is_absolute(s.rocksdb_path@) {
        Some((ConfigErrorKind::SourcePathRelative, id, s.rocksdb_path@))
    } else if s.start_ts_us matches Some(v) && v < 0 {
        Some((ConfigErrorKind::NegativeStartTs, id, none))
    } else if s.poll_interval_secs == Some(0u64) {
        Some((ConfigErrorKind::ZeroSourcePollInterval, id, none))
    } else if s.estimated_fee_rate_bits matches Some(b) && (!is_finite(b) || lt_zero(b)) {
        Some((ConfigErrorKind::InvalidFeeRate, id, none))
    } else if s.gateway_prefix matches Some(g) && !valid_gateway_prefix(g@) {
        Some((ConfigErrorKind::InvalidGatewayPrefix, id, none))
    } else if s.gateway_prefix matches Some(g) && earlier_prefix(c, i, g@) {
        Some((ConfigErrorKind::DuplicateGatewayPrefix, s.gateway_prefix->0@, none))
    } else if s.exec_config_url is Some && checks.sources@[i].exec_config != UrlCheck::Loopback {
        Some((ConfigErrorKind::ExecConfigUrl(checks.sources@[i].exec_config), id, none))
    } else if s.exec_viz_url is Some && checks.sources@[i].exec_viz != UrlCheck::Loopback {
        Some((ConfigErrorKind::ExecVizUrl(checks.sources@[i].exec_viz), id, none))
    } else if s.share_unit_usdt_bits matches Some(b) && (!is_finite(b) || !gt_zero(b)) {
        Some((ConfigErrorKind::InvalidShareUnit, id, none))
    } else if earlier_id(c, i, id) {
        Some((ConfigErrorKind::DuplicateSourceId, id, none))
    } else if s.enabled && earlier_enabled_path(c, i, s.rocksdb_path@) {
        Some((ConfigErrorKind::SharedRocksdbPath, s.rocksdb_path@, none))
    } else {
        None
    }
}

/// The first rule broken by the sources from index `i` on.
pub open spec fn sources_error_from(c: AppConfig, checks: ConfigUrlChecks, i: int) -> Option<
    (ConfigErrorKind, Seq<char>, Seq<char>),
>
    decreases c.sources@.len() - i,
{
    if i < 0 || i >= c.sources@.len() {
        None
    } else if source_error(c, checks, i) is Some {
        source_error(c, checks, i)
    } else {
        sources_error_from(c, checks, i + 1)
    }
}

/// The first rule the configuration breaks, in the order the rules are
/// checked, with the text it concerns; `None` for a valid configuration.
pub open spec fn config_error(c: AppConfig, checks: ConfigUrlChecks) -> Option<
    (ConfigErrorKind, Seq<char>, Seq<char>),
> {
    if global_error(c, checks) is Some {
        global_error(c, checks)
    } else {
        sources_error_from(c, checks, 0)
    }
}

fn global_err(kind: ConfigErrorKind) -> (r: ConfigError)
    ensures
        r.kind == kind,
        r.detail@ == Seq::<char>::empty(),
        r.path@ == Seq::<char>::empty(),
{
    ConfigError { kind, detail: String::new(), path: String::new() }
}

fn config_error_of(kind: ConfigErrorKind, detail: &str) -> (r: ConfigError)
    ensures
        r.kind == kind,
        r.detail@ == detail@,
        r.path@ == Seq::<char>::empty(),
{
    ConfigError { kind, detail: owned(detail), path: String::new() }
}

impl AppConfig {
    fn check_global(&self, checks: &ConfigUrlChecks) -> (r: Option<ConfigError>)
        ensures
            r is None <==> global_error(*self, *checks) is None,
            r matches Some(e) ==> global_error(*self, *checks) == Some((e.kind, e.detail@, e.path@)),
    {
        if is_blank(self.database.url_env.as_str()) {
            return Some(global_err(ConfigErrorKind::EmptyDatabaseUrlEnv));
        }
        if self.database.max_connections == 0 {
            return Some(global_err(ConfigErrorKind::ZeroMaxConnections));
        }
        if self.ingestion.poll_interval_secs == 0 {
            return Some(global_err(ConfigErrorKind::ZeroPollInterval));
        }
        if self.order_config.request_timeout_secs == 0 {
            return Some(global_err(ConfigErrorKind::ZeroOrderConfigTimeout));
        }
        if self.redis.request_timeout_secs == 0 {
            return Some(global_err(ConfigErrorKind::ZeroRedisTimeout));
        }
        if self.redis.reconnect_interval_ms == 0 {
            return Some(global_err(ConfigErrorKind::ZeroRedisReconnect));
        }
        if checks.redis != UrlCheck::Loopback {
            return Some(global_err(ConfigErrorKind::RedisUrl(checks.redis)));
        }
        let twap_path = self.twap.rocksdb_path.as_str();
        if !is_absolute_path(twap_path) {
            return Some(config_error_of(ConfigErrorKind::TwapPathRelative, twap_path));
        }
        if self.twap_path_reused() {
            return Some(config_error_of(ConfigErrorKind::TwapPathReused, twap_path));
        }
        if self.twap.enabled {
            if is_blank(self.twap.venue.as_str()) {
                return Some(global_err(ConfigErrorKind::EmptyTwapVenue));
            }
            if self.twap.interval_ms == 0 {
                return Some(global_err(ConfigErrorKind::ZeroTwapInterval));
            }
            if self.twap.retain_days == 0 {
                return Some(global_err(ConfigErrorKind::ZeroTwapRetainDays));
            }
            if self.twap.catalog_reload_secs == 0 {
                return Some(global_err(ConfigErrorKind::ZeroTwapCatalogReload));
            }
            if self.twap.compact_interval_secs == 0 {
                return Some(global_err(ConfigErrorKind::ZeroTwapCompactInterval));
            }
        }
        if self.sources.len() == 0 {
            return Some(global_err(ConfigErrorKind::NoSources));
        }
        None
    }

    fn twap_path_reused(&self) -> (r: bool)
        ensures
            r == exists|i: int|
                0 <= i < self.sources@.len() && #[trigger] self.sources@[i].enabled && path_eq(
                    self.sources@[i].rocksdb_path@,
                    self.twap.rocksdb_path@,
                ),
    {
        let twap_path = self.twap.rocksdb_path.as_str();
        let mut i: usize = 0;
        while i < self.sources.len()
            invariant
                i <= self.sources@.len(),
                twap_path@ == self.twap.rocksdb_path@,
                forall|j: int|
                    0 <= j < i ==> !(#[trigger] self.sources@[j].enabled && path_eq(
                        self.sources@[j].rocksdb_path@,
                        self.twap.rocksdb_path@,
                    )),
            decreases self.sources@.len() - i,
        {
            let source = &self.sources[i];
            if source.enabled && same_path(source.rocksdb_path.as_str(), twap_path) {
                return true;
            }
            i = i + 1;
        }
        false
    }

    fn has_earlier_prefix(&self, i: usize, g: &str) -> (r: bool)
        requires
            i <= self.sources@.len(),
        ensures
            r == earlier_prefix(*self, i as int, g@),
    {
        let mut j: usize = 0;
        while j < i
            invariant
                i <= self.sources@.len(),
                j <= i,
                forall|k: int|
                    0 <= k < j ==> !((#[trigger] self.sources@[k]).gateway_prefix matches Some(h)
                        && h@ == g@),
            decreases i - j,
        {
            match &self.sources[j].gateway_prefix {
                Some(h) => {
                    if str_eq(h.as_str(), g) {
                        return true;
                    }
                },
                None => {},
            }
            j = j + 1;
        }
        false
    }

    fn has_earlier_id(&self, i: usize, id: &str) -> (r: bool)
        requires
            i <= self.sources@.len(),
        ensures
            r == earlier_id(*self, i as int, id@),
    {
        let mut j: usize = 0;
        while j < i
            invariant
                i <= self.sources@.len(),
                j <= i,
                forall|k: int| 0 <= k < j ==> (#[trigger] self.sources@[k]).id@ != id@,
            decreases i - j,
        {
            if str_eq(self.sources[j].id.as_str(), id) {
                return true;
            }
            j = j + 1;
        }
        false
    }

    fn has_earlier_enabled_path(&self, i: usize, p: &str) -> (r: bool)
        requires
            i <= self.sources@.len(),
        ensures
            r == earlier_enabled_path(*self, i as int, p@),
    {
        let mut j: usize = 0;
        while j < i
            invariant
                i <= self.sources@.len(),
                j <= i,
                forall|k: int|
                    0 <= k < j ==> !(#[trigger] self.sources@[k].enabled && path_eq(
                        self.sources@[k].rocksdb_path@,
                        p@,
                    )),
            decreases i - j,
        {
            let s = &self.sources[j];
            if s.enabled && same_path(s.rocksdb_path.as_str(), p) {
                return true;
            }
            j = j + 1;
        }
        false
    }

    #[verifier::rlimit(40)]
    fn check_source(&self, checks: &ConfigUrlChecks, i: usize) -> (r: Option<ConfigError>)
        requires
            i < self.sources@.len(),
            checks.sources@.len() == self.sources@.len(),
        ensures
            r is None <==> source_error(*self, *checks, i as int) is None,
            r matches Some(e) ==> source_error(*self, *checks, i as int) == Some(
                (e.kind, e.detail@, e.path@),
            ),
    {
        let s = &self.sources[i];
        let id = s.id.as_str();
        if !validate_source_id(id) {
            return Some(config_error_of(ConfigErrorKind::InvalidSourceId, id));
        }
        if is_blank(s.account.as_str()) {
            return Some(config_error_of(ConfigErrorKind::EmptyAccount, id));
        }
        match &s.alias {
            Some(a) => {
                if is_blank(a.as_str()) {
                    return Some(config_error_of(ConfigErrorKind::EmptyAlias, id));
                }
            },
            None => {},
        }
        if is_blank(s.venue.as_str()) {
            return Some(config_error_of(ConfigErrorKind::EmptyVenue, id));
        }
        if !is_absolute_path(s.rocksdb_path.as_str()) {
            return Some(
                ConfigError {
                    kind: ConfigErrorKind::SourcePathRelative,
                    detail: owned(id),
                    path: owned(s.rocksdb_path.as_str()),
                },
            );
        }
        match s.start_ts_us {
            Some(v) => {
                if v < 0 {
                    return Some(config_error_of(ConfigErrorKind::NegativeStartTs, id));
                }
            },
            None => {},
        }
        match s.poll_interval_secs {
            Some(v) => {
                if v == 0 {
                    return Some(config_error_of(ConfigErrorKind::ZeroSourcePollInterval, id));
                }
            },
            None => {},
        }
        match s.estimated_fee_rate_bits {
            Some(b) => {
                if !f64_is_finite(b) || f64_lt_zero(b) {
                    return Some(config_error_of(ConfigErrorKind::InvalidFeeRate, id));
                }
            },
            None => {},
        }
        match &s.gateway_prefix {
            Some(g) => {
                if !validate_gateway_prefix(g.as_str()) {
                    return Some(config_error_of(ConfigErrorKind::InvalidGatewayPrefix, id));
                }
                if self.has_earlier_prefix(i, g.as_str()) {
                    return Some(
                        config_error_of(ConfigErrorKind::DuplicateGatewayPrefix, g.as_str()),
                    );
                }
            },
            None => {},
        }
        let urls = checks.sources[i];
        if s.exec_config_url.is_some() && urls.exec_config != UrlCheck::Loopback {
            return Some(config_error_of(ConfigErrorKind::ExecConfigUrl(urls.exec_config), id));
        }
        if s.exec_viz_url.is_some() && urls.exec_viz != UrlCheck::Loopback {
            return Some(config_error_of(ConfigErrorKind::ExecVizUrl(urls.exec_viz), id));
        }
        match s.share_unit_usdt_bits {
            Some(b) => {
                if !f64_is_finite(b) || !f64_gt_zero(b) {
                    return Some(config_error_of(ConfigErrorKind::InvalidShareUnit, id));
                }
            },
            None => {},
        }
        if self.has_earlier_id(i, id) {
            return Some(config_error_of(ConfigErrorKind::DuplicateSourceId, id));
        }
        if s.enabled && self.has_earlier_enabled_path(i, s.rocksdb_path.as_str()) {
            return Some(
                config_error_of(ConfigErrorKind::SharedRocksdbPath, s.rocksdb_path.as_str()),
            );
        }
        None
    }

    /// Checks every configuration rule, in order, and reports the first one
    /// broken. `checks` holds what the loopback check made of the Redis URL
    /// and of each source's Exec URLs (one entry per source).
    pub fn validate(&self, checks: &ConfigUrlChecks) -> (r: Result<(), ConfigError>)
        requires
            checks.sources@.len() == self.sources@.len(),
        ensures
            r is Ok <==> config_error(*self, *checks) is None,
            r matches Err(e) ==> config_error(*self, *checks) == Some((e.kind, e.detail@, e.path@)),
    {
        match self.check_global(checks) {
            Some(e) => {
                return Err(e);
            },
            None => {},
        }
        let mut i: usize = 0;
        while i < self.sources.len()
            invariant
                i <= self.sources@.len(),
                checks.sources@.len() == self.sources@.len(),
                global_error(*self, *checks) is None,
                sources_error_from(*self, *checks, 0) == sources_error_from(
                    *self,
                    *checks,
                    i as int,
                ),
            decreases self.sources@.len() - i,
        {
            match self.check_source(checks, i) {
                Some(e) => {
                    return Err(e);
                },
                None => {},
            }
            i = i + 1;
        }
        Ok(())
    }
}

/// `Some(trimmed text)` when `v` holds non-blank text.
pub open spec fn trimmed_nonempty(v: Option<String>) -> Option<Seq<char>> {
    match v {
        Some(t) => if trim(t@).len() > 0 {
            Some(trim(t@))
        } else {
            None
        },
        None => None,
    }
}

fn trimmed_option(v: &Option<String>) -> (r: Option<&str>)
    ensures
        r matches Some(t) ==> trimmed_nonempty(*v) == Some(t@),
        r is None ==> trimmed_nonempty(*v) is None,
{
    match v {
        Some(t) => {
            let x = trim_str(t.as_str());
            if x.unicode_len() > 0 {
                Some(x)
            } else {
                None
            }
        },
        None => None,
    }
}

impl SourceConfig {
    /// The source's poll interval, or the ingestion default.
    pub fn poll_interval_secs(&self, defaults: &IngestionConfig) -> (r: u64)
        ensures
            r == match self.poll_interval_secs {
                Some(v) => v,
                None => defaults.poll_interval_secs,
            },
    {
        match self.poll_interval_secs {
            Some(v) => v,
            None => defaults.poll_interval_secs,
        }
    }

    /// The estimated fee rate (bit pattern) that NAV reconstruction needs.
    pub fn nav_fee_rate(&self) -> (r: Result<u64, ConfigError>)
        ensures
            r is Ok <==> self.estimated_fee_rate_bits is Some,
            r matches Ok(b) ==> self.estimated_fee_rate_bits == Some(b),
            r matches Err(e) ==> e.kind == ConfigErrorKind::MissingFeeRate && e.detail@
                == self.id@,
    {
        match self.estimated_fee_rate_bits {
            Some(b) => Ok(b),
            None => Err(config_error_of(ConfigErrorKind::MissingFeeRate, self.id.as_str())),
        }
    }

    /// USDT per CTA share (bit pattern): the configured value when finite and
    /// positive, else 10 000.
    pub fn share_unit_usdt(&self) -> (r: u64)
        ensures
            r == match self.share_unit_usdt_bits {
                Some(b) => if is_finite(b) && gt_zero(b) {
                    b
                } else {
                    TEN_THOUSAND_BITS
                },
                None => TEN_THOUSAND_BITS,
            },
    {
        match self.share_unit_usdt_bits {
            Some(b) => {
                if f64_is_finite(b) && f64_gt_zero(b) {
                    b
                } else {
                    TEN_THOUSAND_BITS
                }
            },
            None => TEN_THOUSAND_BITS,
        }
    }

    /// The trimmed alias when it is not blank, else the account.
    pub fn display_name(&self) -> (r: &str)
        ensures
            r@ == match trimmed_nonempty(self.alias) {
                Some(a) => a,
                None => self.account@,
            },
    {
        match trimmed_option(&self.alias) {
            Some(a) => a,
            None => self.account.as_str(),
        }
    }

    fn ipc_namespace_or_id(&self) -> (r: &str)
        ensures
            r@ == match trimmed_nonempty(self.ipc_namespace) {
                Some(n) => n,
                None => self.id@,
            },
    {
        match trimmed_option(&self.ipc_namespace) {
            Some(n) => n,
            None => self.id.as_str(),
        }
    }

    /// `<namespace>/<service>` of the account monitor's IPC service: the
    /// namespace defaults to the source id, the service to
    /// `account_pubs/binance_pm`; `None` when the namespace is empty.
    pub fn account_ipc_service_name(&self) -> (r: Option<String>)
        ensures
            ({
                let ns = match trimmed_nonempty(self.ipc_namespace) {
                    Some(n) => n,
                    None => self.id@,
                };
                let svc = match trimmed_nonempty(self.account_ipc_service) {
                    Some(v) => v,
                    None => "account_pubs/binance_pm"@,
                };
                &&& r is None <==> ns.len() == 0
                &&& r matches Some(t) ==> t@ == ns + "/"@ + svc
            }),
    {
        let namespace = self.ipc_namespace_or_id();
        if namespace.unicode_len() == 0 {
            return None;
        }
        let service = match trimmed_option(&self.account_ipc_service) {
            Some(v) => v,
            None => "account_pubs/binance_pm",
        };
        Some(concat3(namespace, "/", service))
    }

    /// `<namespace>/batch_exec_pubs/reload_notify`; `None` when the
    /// namespace is empty.
    pub fn reload_notify_service_name(&self) -> (r: Option<String>)
        ensures
            ({
                let ns = match trimmed_nonempty(self.ipc_namespace) {
                    Some(n) => n,
                    None => self.id@,
                };
                &&& r is None <==> ns.len() == 0
                &&& r matches Some(t) ==> t@ == ns + "/batch_exec_pubs/reload_notify"@
            }),
    {
        let namespace = self.ipc_namespace_or_id();
        if namespace.unicode_len() == 0 {
            return None;
        }
        Some(concat2(namespace, "/batch_exec_pubs/reload_notify"))
    }

    /// The trimmed Exec Viz origin, when set and not blank.
    pub fn exec_viz_origin(&self) -> (r: Option<&str>)
        ensures
            r matches Some(t) ==> trimmed_nonempty(self.exec_viz_url) == Some(t@),
            r is None ==> trimmed_nonempty(self.exec_viz_url) is None,
    {
        trimmed_option(&self.exec_viz_url)
    }
}

} // verus!
