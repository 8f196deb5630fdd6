//! Market-rule snapshots published to the Exec runtime store, and the
//! choice of execution backend a source's environment makes.

use vstd::prelude::*;

use crate::float_bits::{f64_gt_zero, f64_is_finite, gt_zero, is_finite};
use crate::ordered::str_lt;
use crate::text::{
    ascii_lower, ascii_upper, chars_eq, chars_of, is_blank, split_chars, split_on, split_once,
    split_once_chars, str_eq, to_ascii_lower, trim, trim_chars, views,
};

pub mod rapidx;
pub mod symbol_info;

verus! {

/// A decimal field of a market rule: its text, and the binary64 bit
/// pattern that `str::parse::<f64>` gives for it (`None` when the text is not
/// a decimal).
#[derive(Debug, Clone)]
pub struct RuleDecimal {
    pub text: String,
    pub parsed_bits: Option<u64>,
}

/// Trading rules of one symbol.
#[derive(Debug, Clone)]
pub struct MarketRule {
    pub status: String,
    pub base_asset: String,
    pub quote_asset: String,
    pub price_tick: RuleDecimal,
    pub qty_step: RuleDecimal,
    pub min_qty: RuleDecimal,
    pub min_notional: Option<RuleDecimal>,
    pub contract_multiplier: Option<RuleDecimal>,
}

/// The rules of every symbol of one venue, as fetched at one instant.
/// `symbols` is in ascending symbol order, each symbol once (see
/// `symbols_ascending`), as a map keyed by symbol lists them.
#[derive(Debug, Clone)]
pub struct MarketRulesSnapshot {
    pub venue: String,
    pub execution_backend: String,
    pub portfolio_id: Option<String>,
    pub fetched_at_us: i64,
    pub symbols: Vec<(String, MarketRule)>,
}

/// Which decimal field of a rule a check concerns.
#[derive(Debug, Clone, Copy, PartialEq, Eq, Structural)]
pub enum DecimalField {
    PriceTick,
    QtyStep,
    MinQty,
    MinNotional,
    ContractMultiplier,
}

/// The name of a decimal field.
pub open spec fn decimal_field_name(f: DecimalField) -> Seq<char> {
    match f {
        DecimalField::PriceTick => "price_tick"@,
        DecimalField::QtyStep => "qty_step"@,
        DecimalField::MinQty => "min_qty"@,
        DecimalField::MinNotional => "min_notional"@,
        DecimalField::ContractMultiplier => "contract_multiplier"@,
    }
}

impl DecimalField {
    /// The field's name.
    pub fn name(&self) -> (r: &'static str)
        ensures
            r@ == decimal_field_name(*self),
    {
        match self {
            DecimalField::PriceTick => "price_tick",
            DecimalField::QtyStep => "qty_step",
            DecimalField::MinQty => "min_qty",
            DecimalField::MinNotional => "min_notional",
            DecimalField::ContractMultiplier => "contract_multiplier",
        }
    }
}

/// Which rule a snapshot breaks.
#[derive(Debug, Clone, Copy, PartialEq, Eq, Structural)]
pub enum SnapshotErrorKind {
    /// Backend and portfolio do not form `native` without a portfolio, or
    /// `ltp` with a portfolio outside coin futures.
    InvalidScope,
    /// The RapidX portfolio id is not 1-64 ASCII digits.
    InvalidPortfolio,
    UnsupportedVenue,
    NonPositiveFetchedAt,
    EmptySnapshot,
    SymbolNotNormalized,
    IdentityEmpty,
    NotDecimal(DecimalField),
    NotPositive(DecimalField),
}

/// A broken snapshot rule, with the text it concerns: the venue for an
/// unsupported venue or an empty snapshot, the symbol for a symbol's rule,
/// empty otherwise.
#[derive(Debug, Clone)]
pub struct SnapshotError {
    pub kind: SnapshotErrorKind,
    pub symbol: String,
}

impl SnapshotError {
    /// Operator-facing text of the error.
    pub fn message(&self) -> (r: String)
        ensures
            r@ == snapshot_error_text(self.kind, self.symbol@),
    {
        let s = self.symbol.as_str();
        match self.kind {
            SnapshotErrorKind::InvalidScope => crate::text::owned("invalid market-rules backend/account scope"),
            SnapshotErrorKind::InvalidPortfolio => crate::text::owned("invalid RapidX portfolio identity"),
            SnapshotErrorKind::UnsupportedVenue => crate::text::concat2("unsupported market-rules venue: ", s),
            SnapshotErrorKind::NonPositiveFetchedAt => crate::text::owned(
                "market-rules fetched_at_us must be positive",
            ),
            SnapshotErrorKind::EmptySnapshot => crate::text::concat2("market-rules snapshot is empty for venue ", s),
            SnapshotErrorKind::SymbolNotNormalized => crate::text::concat2(
                "market-rules symbol is not normalized: ",
                s,
            ),
            SnapshotErrorKind::IdentityEmpty => crate::text::concat2(
                "market-rules identity fields are empty: ",
                s,
            ),
            SnapshotErrorKind::NotDecimal(f) => {
                let mut out = crate::text::concat3("market-rules ", f.name(), " is not a decimal: ");
                out.append(s);
                out
            },
            SnapshotErrorKind::NotPositive(f) => {
                let mut out = crate::text::concat3("market-rules ", f.name(), " must be positive: ");
                out.append(s);
                out
            },
        }
    }
}

/// Operator-facing text of a broken snapshot rule about `symbol` (the venue
/// for the venue's rules).
pub open spec fn snapshot_error_text(kind: SnapshotErrorKind, symbol: Seq<char>) -> Seq<char> {
    match kind {
        SnapshotErrorKind::InvalidScope => "invalid market-rules backend/account scope"@,
        SnapshotErrorKind::InvalidPortfolio => "invalid RapidX portfolio identity"@,
        SnapshotErrorKind::UnsupportedVenue => "unsupported market-rules venue: "@ + symbol,
        SnapshotErrorKind::NonPositiveFetchedAt => "market-rules fetched_at_us must be positive"@,
        SnapshotErrorKind::EmptySnapshot => "market-rules snapshot is empty for venue "@ + symbol,
        SnapshotErrorKind::SymbolNotNormalized => "market-rules symbol is not normalized: "@ + symbol,
        SnapshotErrorKind::IdentityEmpty => "market-rules identity fields are empty: "@ + symbol,
        SnapshotErrorKind::NotDecimal(f) => "market-rules "@ + decimal_field_name(f) + " is not a decimal: "@ + symbol,
        SnapshotErrorKind::NotPositive(f) => "market-rules "@ + decimal_field_name(f) + " must be positive: "@ + symbol,
    }
}

/// Text that `str::to_uppercase` makes of `s` (full Unicode case mapping).
pub uninterp spec fn unicode_upper(s: Seq<char>) -> Seq<char>;

/// `str::to_uppercase`. The result is named by `unicode_upper`; on ASCII
/// text the Unicode mapping is the ASCII one (`a`-`z` to `A`-`Z`, every
/// other character kept).
#[verifier::external_body]
pub(crate) fn to_uppercase(s: &str) -> (r: String)
    ensures
        r@ == unicode_upper(s@),
        (forall|i: int| 0 <= i < s@.len() ==> (#[trigger] s@[i] as u32) < 128) ==> r@ == ascii_upper(s@),
{
    s.to_uppercase()
}

/// 1 to 64 ASCII digits.
pub open spec fn valid_portfolio(id: Seq<char>) -> bool {
    1 <= id.len() <= 64 && forall|i: int| 0 <= i < id.len() ==> '0' <= #[trigger] id[i] <= '9'
}

/// A RapidX portfolio identity is 1-64 ASCII digits.
pub fn validate_portfolio(id: &str) -> (r: bool)
    ensures
        r == valid_portfolio(id@),
{
    let cs = chars_of(id);
    if cs.len() == 0 || cs.len() > 64 {
        return false;
    }
    let mut i: usize = 0;
    while i < cs.len()
        invariant
            cs@ == id@,
            i <= cs@.len(),
            forall|k: int| 0 <= k < i ==> '0' <= #[trigger] cs@[k] <= '9',
        decreases cs@.len() - i,
    {
        if cs[i] < '0' || cs[i] > '9' {
            assert(!('0' <= cs@[i as int] <= '9'));
            return false;
        }
        i = i + 1;
    }
    true
}

/// A decimal that parses to a finite value above zero.
pub open spec fn decimal_error(d: RuleDecimal, f: DecimalField) -> Option<SnapshotErrorKind> {
    match d.parsed_bits {
        None => Some(SnapshotErrorKind::NotDecimal(f)),
        Some(b) => if !is_finite(b) || !gt_zero(b) {
            Some(SnapshotErrorKind::NotPositive(f))
        } else {
            None
        },
    }
}

/// Checks that a rule decimal is a finite value above zero.
pub fn validate_positive_decimal(d: &RuleDecimal, field: DecimalField) -> (r: Option<
    SnapshotErrorKind,
>)
    ensures
        r == decimal_error(*d, field),
{
    match d.parsed_bits {
        None => Some(SnapshotErrorKind::NotDecimal(field)),
        Some(b) => {
            if !f64_is_finite(b) || !f64_gt_zero(b) {
                Some(SnapshotErrorKind::NotPositive(field))
            } else {
                None
            }
        },
    }
}

/// The first broken rule of one symbol's entry.
pub open spec fn symbol_error(symbol: Seq<char>, rule: MarketRule) -> Option<SnapshotErrorKind> {
    if symbol.len() == 0 || unicode_upper(symbol) != symbol {
        Some(SnapshotErrorKind::SymbolNotNormalized)
    } else if trim(rule.status@).len() == 0 || trim(rule.base_asset@).len() == 0 || trim(
        rule.quote_asset@,
    ).len() == 0 {
        Some(SnapshotErrorKind::IdentityEmpty)
    } else if decimal_error(rule.price_tick, DecimalField::PriceTick) is Some {
        decimal_error(rule.price_tick, DecimalField::PriceTick)
    } else if decimal_error(rule.qty_step, DecimalField::QtyStep) is Some {
        decimal_error(rule.qty_step, DecimalField::QtyStep)
    } else if decimal_error(rule.min_qty, DecimalField::MinQty) is Some {
        decimal_error(rule.min_qty, DecimalField::MinQty)
    } else if rule.min_notional matches Some(d) && decimal_error(d, DecimalField::MinNotional) is Some {
        decimal_error(rule.min_notional->0, DecimalField::MinNotional)
    } else if rule.contract_multiplier matches Some(d) && decimal_error(
        d,
        DecimalField::ContractMultiplier,
    ) is Some {
        decimal_error(rule.contract_multiplier->0, DecimalField::ContractMultiplier)
    } else {
        None
    }
}

/// The first broken symbol rule from entry `i` on, with its symbol.
pub open spec fn symbols_error_from(symbols: Seq<(String, MarketRule)>, i: int) -> Option<
    (SnapshotErrorKind, Seq<char>),
>
    decreases symbols.len() - i,
{
    if i < 0 || i >= symbols.len() {
        None
    } else if symbol_error(symbols[i].0@, symbols[i].1) is Some {
        Some((symbol_error(symbols[i].0@, symbols[i].1)->0, symbols[i].0@))
    } else {
        symbols_error_from(symbols, i + 1)
    }
}

/// The venues that publish market rules.
pub open spec fn rules_venue(v: Seq<char>) -> bool {
    v == "binance-futures"@ || v == "binance-coin-futures"@ || v == "okex-futures"@
}

/// The first rule a snapshot breaks, with the venue or symbol it concerns.
pub open spec fn snapshot_error(s: MarketRulesSnapshot) -> Option<(SnapshotErrorKind, Seq<char>)> {
    let none = Seq::<char>::empty();
    let native_scope = s.execution_backend@ == "native"@ && s.portfolio_id is None;
    let ltp_scope = s.execution_backend@ == "ltp"@ && s.portfolio_id is Some && s.venue@
        != "binance-coin-futures"@;
    if !native_scope && !ltp_scope {
        Some((SnapshotErrorKind::InvalidScope, none))
    } else if ltp_scope && !valid_portfolio(s.portfolio_id->0@) {
        Some((SnapshotErrorKind::InvalidPortfolio, none))
    } else if !rules_venue(s.venue@) {
        Some((SnapshotErrorKind::UnsupportedVenue, s.venue@))
    } else if s.fetched_at_us <= 0 {
        Some((SnapshotErrorKind::NonPositiveFetchedAt, none))
    } else if s.symbols@.len() == 0 {
        Some((SnapshotErrorKind::EmptySnapshot, s.venue@))
    } else {
        symbols_error_from(s.symbols@, 0)
    }
}

fn check_symbol(symbol: &str, rule: &MarketRule) -> (r: Option<SnapshotErrorKind>)
    ensures
        r == symbol_error(symbol@, *rule),
{
    if symbol.unicode_len() == 0 {
        return Some(SnapshotErrorKind::SymbolNotNormalized);
    }
    let upper = to_uppercase(symbol);
    if !str_eq(upper.as_str(), symbol) {
        return Some(SnapshotErrorKind::SymbolNotNormalized);
    }
    if is_blank(rule.status.as_str()) || is_blank(rule.base_asset.as_str()) || is_blank(
        rule.quote_asset.as_str(),
    ) {
        return Some(SnapshotErrorKind::IdentityEmpty);
    }
    let e = validate_positive_decimal(&rule.price_tick, DecimalField::PriceTick);
    if e.is_some() {
        return e;
    }
    let e = validate_positive_decimal(&rule.qty_step, DecimalField::QtyStep);
    if e.is_some() {
        return e;
    }
    let e = validate_positive_decimal(&rule.min_qty, DecimalField::MinQty);
    if e.is_some() {
        return e;
    }
    match &rule.min_notional {
        Some(d) => {
            let e = validate_positive_decimal(d, DecimalField::MinNotional);
            if e.is_some() {
                return e;
            }
        },
        None => {},
    }
    match &rule.contract_multiplier {
        Some(d) => {
            let e = validate_positive_decimal(d, DecimalField::ContractMultiplier);
            if e.is_some() {
                return e;
            }
        },
        None => {},
    }
    None
}

fn snapshot_err(kind: SnapshotErrorKind) -> (r: SnapshotError)
    ensures
        r.kind == kind,
        r.symbol@ == Seq::<char>::empty(),
{
    SnapshotError { kind, symbol: String::new() }
}

/// Symbols in strictly ascending `str` order, each once.
pub open spec fn symbols_ascending(v: Seq<(String, MarketRule)>) -> bool {
    forall|i: int, j: int| 0 <= i < j < v.len() ==> str_lt(#[trigger] v[i].0@, #[trigger] v[j].0@)
}

impl MarketRulesSnapshot {
    /// Checks the snapshot's scope, venue, timestamp and every symbol's
    /// rules, the symbols in ascending order; reports the first rule broken.
    pub fn validate(&self) -> (r: Result<(), SnapshotError>)
        requires
            symbols_ascending(self.symbols@),
        ensures
            r is Ok <==> snapshot_error(*self) is None,
            r matches Err(e) ==> snapshot_error(*self) == Some((e.kind, e.symbol@)),
    {
        let backend = self.execution_backend.as_str();
        let venue = self.venue.as_str();
        let native = str_eq(backend, "native");
        let ltp = str_eq(backend, "ltp");
        let coin = str_eq(venue, "binance-coin-futures");
        match &self.portfolio_id {
            None => {
                if !native {
                    return Err(snapshot_err(SnapshotErrorKind::InvalidScope));
                }
            },
            Some(id) => {
                if !ltp || coin {
                    return Err(snapshot_err(SnapshotErrorKind::InvalidScope));
                }
                if !validate_portfolio(id.as_str()) {
                    return Err(snapshot_err(SnapshotErrorKind::InvalidPortfolio));
                }
            },
        }
        if !(str_eq(venue, "binance-futures") || coin || str_eq(venue, "okex-futures")) {
            return Err(SnapshotError { kind: SnapshotErrorKind::UnsupportedVenue, symbol: crate::text::owned(venue) });
        }
        if self.fetched_at_us <= 0 {
            return Err(snapshot_err(SnapshotErrorKind::NonPositiveFetchedAt));
        }
        if self.symbols.len() == 0 {
            return Err(SnapshotError { kind: SnapshotErrorKind::EmptySnapshot, symbol: crate::text::owned(venue) });
        }
        let mut i: usize = 0;
        while i < self.symbols.len()
            invariant
                i <= self.symbols@.len(),
                snapshot_error(*self) == symbols_error_from(self.symbols@, i as int),
            decreases self.symbols@.len() - i,
        {
            let (symbol, rule) = &self.symbols[i];
            match check_symbol(symbol.as_str(), rule) {
                Some(kind) => {
                    return Err(SnapshotError { kind, symbol: crate::text::owned(symbol.as_str()) });
                },
                None => {},
            }
            i = i + 1;
        }
        Ok(())
    }
}

/// The trimmed, non-empty pieces of a list, in order.
pub open spec fn nonblank_trimmed(parts: Seq<Seq<char>>) -> Seq<Seq<char>>
    decreases parts.len(),
{
    if parts.len() == 0 {
        Seq::empty()
    } else if trim(parts.last()).len() == 0 {
        nonblank_trimmed(parts.drop_last())
    } else {
        nonblank_trimmed(parts.drop_last()).push(trim(parts.last()))
    }
}

/// The trimmed, non-empty pieces of `raw` split at `,`.
pub fn map_entries(raw: &str) -> (r: Vec<Vec<char>>)
    ensures
        views(r@) == nonblank_trimmed(split_on(raw@, ',')),
{
    let cs = chars_of(raw);
    let parts = split_chars(cs.as_slice(), ',');
    let mut out: Vec<Vec<char>> = Vec::new();
    let mut i: usize = 0;
    while i < parts.len()
        invariant
            i <= parts@.len(),
            views(parts@) == split_on(raw@, ','),
            views(out@) == nonblank_trimmed(views(parts@).take(i as int)),
        decreases parts@.len() - i,
    {
        let t = trim_chars(parts[i].as_slice());
        assert(views(parts@).take(i + 1).drop_last() =~= views(parts@).take(i as int));
        if t.len() > 0 {
            out.push(t);
            assert(views(out@) =~= nonblank_trimmed(views(parts@).take(i as int)).push(t@));
        }
        i = i + 1;
    }
    assert(views(parts@).take(parts@.len() as int) =~= views(parts@));
    out
}

/// The execution backend of a source.
#[derive(Debug, Clone, Copy, PartialEq, Eq, Structural)]
pub enum Backend {
    /// Orders go to the exchange directly.
    Native,
    /// Orders go through RapidX (LiquidityTech).
    Ltp,
}

impl Backend {
    /// `native` or `ltp`.
    pub fn as_str(&self) -> (r: &'static str)
        ensures
            r@ == backend_label(*self),
    {
        match self {
            Backend::Native => "native",
            Backend::Ltp => "ltp",
        }
    }
}

/// `native` or `ltp`.
pub open spec fn backend_label(b: Backend) -> Seq<char> {
    match b {
        Backend::Native => "native"@,
        Backend::Ltp => "ltp"@,
    }
}

/// The backend a configured value names: trimmed and lowercased, empty,
/// `native`, `exchange` or `direct` is native; `ltp`, `rapidx`,
/// `liquidity` or `liquiditytech` is RapidX.
pub open spec fn parse_backend(v: Seq<char>) -> Option<Backend> {
    let t = ascii_lower(trim(v));
    if t.len() == 0 || t == "native"@ || t == "exchange"@ || t == "direct"@ {
        Some(Backend::Native)
    } else if t == "ltp"@ || t == "rapidx"@ || t == "liquidity"@ || t == "liquiditytech"@ {
        Some(Backend::Ltp)
    } else {
        None
    }
}

fn eq_lit(t: &[char], lit: &str) -> (r: bool)
    ensures
        r == (t@ == lit@),
{
    let l = chars_of(lit);
    chars_eq(t, l.as_slice())
}

/// Reads a backend value.
pub fn parse_backend_value(v: &[char]) -> (r: Option<Backend>)
    ensures
        r == parse_backend(v@),
{
    let t = to_ascii_lower(trim_chars(v).as_slice());
    let t = t.as_slice();
    if t.len() == 0 || eq_lit(t, "native") || eq_lit(t, "exchange") || eq_lit(t, "direct") {
        Some(Backend::Native)
    } else if eq_lit(t, "ltp") || eq_lit(t, "rapidx") || eq_lit(t, "liquidity") || eq_lit(
        t,
        "liquiditytech",
    ) {
        Some(Backend::Ltp)
    } else {
        None
    }
}

/// Why no execution backend can be chosen.
#[derive(Debug, Clone, Copy, PartialEq, Eq, Structural)]
pub enum BackendError {
    UnsupportedVenue,
    InvalidBackend,
    MissingEquals,
    DuplicateWildcard,
    UnknownExchange,
    DuplicateExchange,
    CoinFuturesUnsupported,
}

/// Operator-facing text of a backend error.
pub open spec fn backend_error_text(e: BackendError) -> Seq<char> {
    match e {
        BackendError::UnsupportedVenue => "unsupported rule venue"@,
        BackendError::InvalidBackend => "invalid execution backend in source env"@,
        BackendError::MissingEquals => "backend map requires exchange=backend"@,
        BackendError::DuplicateWildcard => "duplicate wildcard backend mapping"@,
        BackendError::UnknownExchange => "unknown exchange in backend map"@,
        BackendError::DuplicateExchange => "duplicate exchange backend mapping"@,
        BackendError::CoinFuturesUnsupported => "RapidX coin futures rules are unsupported"@,
    }
}

impl BackendError {
    /// Operator-facing text of the error.
    pub fn message(&self) -> (r: &'static str)
        ensures
            r@ == backend_error_text(*self),
    {
        match self {
            BackendError::UnsupportedVenue => "unsupported rule venue",
            BackendError::InvalidBackend => "invalid execution backend in source env",
            BackendError::MissingEquals => "backend map requires exchange=backend",
            BackendError::DuplicateWildcard => "duplicate wildcard backend mapping",
            BackendError::UnknownExchange => "unknown exchange in backend map",
            BackendError::DuplicateExchange => "duplicate exchange backend mapping",
            BackendError::CoinFuturesUnsupported => "RapidX coin futures rules are unsupported",
        }
    }
}

/// The exchanges a backend map may name.
pub open spec fn known_exchange(k: Seq<char>) -> bool {
    k == "binance"@ || k == "okex"@ || k == "bybit"@ || k == "bitget"@ || k == "gate"@ || k
        == "hyperliquid"@
}

/// Folds the backend map entries from `i` on into the wildcard and
/// exchange-specific backends, or the first error.
pub open spec fn fold_backend_map(
    entries: Seq<Seq<char>>,
    exchange: Seq<char>,
    i: int,
    wildcard: Option<Backend>,
    specific: Option<Backend>,
) -> Result<(Option<Backend>, Option<Backend>), BackendError>
    decreases entries.len() - i,
{
    if i < 0 || i >= entries.len() {
        Ok((wildcard, specific))
    } else {
        match split_once(entries[i], '=') {
            None => Err(BackendError::MissingEquals),
            Some((k, v)) => match parse_backend(v) {
                None => Err(BackendError::InvalidBackend),
                Some(b) => {
                    let key = ascii_lower(trim(k));
                    if key == "*"@ {
                        if wildcard is Some {
                            Err(BackendError::DuplicateWildcard)
                        } else {
                            fold_backend_map(entries, exchange, i + 1, Some(b), specific)
                        }
                    } else if !known_exchange(key) {
                        Err(BackendError::UnknownExchange)
                    } else if key == exchange {
                        if specific is Some {
                            Err(BackendError::DuplicateExchange)
                        } else {
                            fold_backend_map(entries, exchange, i + 1, wildcard, Some(b))
                        }
                    } else {
                        fold_backend_map(entries, exchange, i + 1, wildcard, specific)
                    }
                },
            },
        }
    }
}

/// The value of `key` in an environment listing.
pub open spec fn env_lookup(values: Seq<(String, String)>, key: Seq<char>) -> Option<Seq<char>>
    decreases values.len(),
{
    if values.len() == 0 {
        None
    } else if values[0].0@ == key {
        Some(values[0].1@)
    } else {
        env_lookup(values.drop_first(), key)
    }
}

/// The value of `key` in an environment listing (the first entry for it).
pub fn env_get<'a>(values: &'a Vec<(String, String)>, key: &str) -> (r: Option<&'a str>)
    ensures
        r matches Some(v) ==> env_lookup(values@, key@) == Some(v@),
        r is None ==> env_lookup(values@, key@) is None,
{
    let mut i: usize = 0;
    assert(values@.skip(0) =~= values@);
    while i < values.len()
        invariant
            i <= values@.len(),
            env_lookup(values@, key@) == env_lookup(values@.skip(i as int), key@),
        decreases values@.len() - i,
    {
        assert(values@.skip(i as int).drop_first() =~= values@.skip(i + 1));
        if str_eq(values[i].0.as_str(), key) {
            return Some(values[i].1.as_str());
        }
        i = i + 1;
    }
    None
}

/// The exchange a market-rules venue trades on.
pub open spec fn venue_exchange(venue: Seq<char>) -> Option<Seq<char>> {
    if venue == "binance-futures"@ || venue == "binance-coin-futures"@ {
        Some("binance"@)
    } else if venue == "okex-futures"@ {
        Some("okex"@)
    } else {
        None
    }
}

/// The value of `key`, or empty text when it is not set.
pub open spec fn env_or_empty(values: Seq<(String, String)>, key: Seq<char>) -> Seq<char> {
    match env_lookup(values, key) {
        Some(v) => v,
        None => Seq::empty(),
    }
}

/// The backend a source's environment selects for `venue`: an entry of
/// `TRADE_ENGINE_EXEC_BACKEND_MAP` for the venue's exchange wins over its
/// `*` entry, which wins over `TRADE_ENGINE_EXEC_BACKEND`; RapidX is refused
/// for coin futures.
pub open spec fn backend_choice(venue: Seq<char>, values: Seq<(String, String)>) -> Result<
    Backend,
    BackendError,
> {
    match venue_exchange(venue) {
        None => Err(BackendError::UnsupportedVenue),
        Some(exchange) => match parse_backend(
            env_or_empty(values, "TRADE_ENGINE_EXEC_BACKEND"@),
        ) {
            None => Err(BackendError::InvalidBackend),
            Some(default) => match fold_backend_map(
                nonblank_trimmed(
                    split_on(env_or_empty(values, "TRADE_ENGINE_EXEC_BACKEND_MAP"@), ','),
                ),
                exchange,
                0,
                None,
                None,
            ) {
                Err(e) => Err(e),
                Ok((wildcard, specific)) => {
                    let b = match specific {
                        Some(b) => b,
                        None => match wildcard {
                            Some(b) => b,
                            None => default,
                        },
                    };
                    if b == Backend::Ltp && venue == "binance-coin-futures"@ {
                        Err(BackendError::CoinFuturesUnsupported)
                    } else {
                        Ok(b)
                    }
                },
            },
        },
    }
}

/// The key of a backend map entry: the text before `=`, trimmed and
/// lower-cased (empty for an entry without `=`).
pub open spec fn entry_key(e: Seq<char>) -> Seq<char> {
    match split_once(e, '=') {
        Some((k, _)) => ascii_lower(trim(k)),
        None => Seq::empty(),
    }
}

/// The backend a backend map entry names.
pub open spec fn entry_backend(e: Seq<char>) -> Option<Backend> {
    match split_once(e, '=') {
        Some((_, v)) => parse_backend(v),
        None => None,
    }
}

/// The entries of a source's `TRADE_ENGINE_EXEC_BACKEND_MAP`.
pub open spec fn backend_map_entries(values: Seq<(String, String)>) -> Seq<Seq<char>> {
    nonblank_trimmed(split_on(env_or_empty(values, "TRADE_ENGINE_EXEC_BACKEND_MAP"@), ','))
}

proof fn lemma_fold_keeps_wildcard(
    entries: Seq<Seq<char>>,
    exchange: Seq<char>,
    i: int,
    w: Option<Backend>,
    s: Option<Backend>,
)
    requires
        0 <= i,
        fold_backend_map(entries, exchange, i, w, s) is Ok,
        w is Some || forall|j: int| i <= j < entries.len() ==> entry_key(#[trigger] entries[j]) != "*"@,
    ensures
        fold_backend_map(entries, exchange, i, w, s)->Ok_0.0 == w,
    decreases entries.len() - i,
{
    if i < entries.len() {
        let e = entries[i];
        let (k, v) = split_once(e, '=')->Some_0;
        let b = parse_backend(v)->Some_0;
        let key = ascii_lower(trim(k));
        assert(entry_key(e) == key);
        if key == "*"@ {
            lemma_fold_keeps_wildcard(entries, exchange, i + 1, Some(b), s);
        } else if key == exchange {
            lemma_fold_keeps_wildcard(entries, exchange, i + 1, w, Some(b));
        } else {
            lemma_fold_keeps_wildcard(entries, exchange, i + 1, w, s);
        }
    }
}

proof fn lemma_fold_takes_wildcard(
    entries: Seq<Seq<char>>,
    exchange: Seq<char>,
    i: int,
    w: Option<Backend>,
    s: Option<Backend>,
    j: int,
)
    requires
        0 <= i <= j < entries.len(),
        fold_backend_map(entries, exchange, i, w, s) is Ok,
        entry_key(entries[j]) == "*"@,
    ensures
        w is None,
        entry_backend(entries[j]) is Some,
        fold_backend_map(entries, exchange, i, w, s)->Ok_0.0 == entry_backend(entries[j]),
    decreases entries.len() - i,
{
    let e = entries[i];
    let (k, v) = split_once(e, '=')->Some_0;
    let b = parse_backend(v)->Some_0;
    let key = ascii_lower(trim(k));
    assert(entry_key(e) == key);
    if i == j {
        lemma_fold_keeps_wildcard(entries, exchange, i + 1, Some(b), s);
    } else if key == "*"@ {
        lemma_fold_takes_wildcard(entries, exchange, i + 1, Some(b), s, j);
    } else if key == exchange {
        lemma_fold_takes_wildcard(entries, exchange, i + 1, w, Some(b), j);
    } else {
        lemma_fold_takes_wildcard(entries, exchange, i + 1, w, s, j);
    }
}

proof fn lemma_fold_keeps_specific(
    entries: Seq<Seq<char>>,
    exchange: Seq<char>,
    i: int,
    w: Option<Backend>,
    s: Option<Backend>,
)
    requires
        0 <= i,
        fold_backend_map(entries, exchange, i, w, s) is Ok,
        forall|j: int| i <= j < entries.len() ==> entry_key(#[trigger] entries[j]) != exchange,
    ensures
        fold_backend_map(entries, exchange, i, w, s)->Ok_0.1 == s,
    decreases entries.len() - i,
{
    if i < entries.len() {
        let e = entries[i];
        let (k, v) = split_once(e, '=')->Some_0;
        let b = parse_backend(v)->Some_0;
        let key = ascii_lower(trim(k));
        assert(entry_key(e) == key);
        if key == "*"@ {
            lemma_fold_keeps_specific(entries, exchange, i + 1, Some(b), s);
        } else {
            lemma_fold_keeps_specific(entries, exchange, i + 1, w, s);
        }
    }
}

proof fn lemma_fold_takes_specific(
    entries: Seq<Seq<char>>,
    exchange: Seq<char>,
    i: int,
    w: Option<Backend>,
    s: Option<Backend>,
    j: int,
)
    requires
        0 <= i <= j < entries.len(),
        fold_backend_map(entries, exchange, i, w, s) is Ok,
        entry_key(entries[j]) == exchange,
        exchange != "*"@,
    ensures
        s is None,
        entry_backend(entries[j]) is Some,
        fold_backend_map(entries, exchange, i, w, s)->Ok_0.1 == entry_backend(entries[j]),
    decreases entries.len() - i,
{
    let e = entries[i];
    let (k, v) = split_once(e, '=')->Some_0;
    let b = parse_backend(v)->Some_0;
    let key = ascii_lower(trim(k));
    assert(entry_key(e) == key);
    if i == j {
        lemma_fold_keeps_specific_some(entries, exchange, i + 1, w, Some(b));
    } else if key == "*"@ {
        lemma_fold_takes_specific(entries, exchange, i + 1, Some(b), s, j);
    } else if key == exchange {
        lemma_fold_takes_specific(entries, exchange, i + 1, w, Some(b), j);
    } else {
        lemma_fold_takes_specific(entries, exchange, i + 1, w, s, j);
    }
}

proof fn lemma_fold_keeps_specific_some(
    entries: Seq<Seq<char>>,
    exchange: Seq<char>,
    i: int,
    w: Option<Backend>,
    s: Option<Backend>,
)
    requires
        0 <= i,
        fold_backend_map(entries, exchange, i, w, s) is Ok,
        s is Some,
    ensures
        fold_backend_map(entries, exchange, i, w, s)->Ok_0.1 == s,
    decreases entries.len() - i,
{
    if i < entries.len() {
        let e = entries[i];
        let (k, v) = split_once(e, '=')->Some_0;
        let b = parse_backend(v)->Some_0;
        let key = ascii_lower(trim(k));
        if key == "*"@ {
            lemma_fold_keeps_specific_some(entries, exchange, i + 1, Some(b), s);
        } else {
            lemma_fold_keeps_specific_some(entries, exchange, i + 1, w, s);
        }
    }
}

/// The backend a source's `TRADE_ENGINE_EXEC_BACKEND` names.
pub open spec fn default_backend(values: Seq<(String, String)>) -> Option<Backend> {
    parse_backend(env_or_empty(values, "TRADE_ENGINE_EXEC_BACKEND"@))
}

/// An entry of `TRADE_ENGINE_EXEC_BACKEND_MAP` for the venue's exchange
/// chooses its backend, over a `*` entry and over
/// `TRADE_ENGINE_EXEC_BACKEND`.
pub proof fn lemma_exchange_backend_applies(venue: Seq<char>, values: Seq<(String, String)>, j: int)
    requires
        backend_choice(venue, values) is Ok,
        0 <= j < backend_map_entries(values).len(),
        entry_key(backend_map_entries(values)[j]) == venue_exchange(venue)->Some_0,
    ensures
        entry_backend(backend_map_entries(values)[j]) is Some,
        backend_choice(venue, values) == Ok::<Backend, BackendError>(
            entry_backend(backend_map_entries(values)[j])->Some_0,
        ),
{
    let entries = backend_map_entries(values);
    let exchange = venue_exchange(venue)->Some_0;
    assert(venue_exchange(venue) is Some);
    assert(default_backend(values) is Some);
    assert(fold_backend_map(entries, exchange, 0, None, None) is Ok);
    reveal_strlit("binance");
    reveal_strlit("okex");
    reveal_strlit("*");
    assert(exchange != "*"@) by {
        assert(exchange.len() != "*"@.len());
    }
    lemma_fold_takes_specific(entries, exchange, 0, None, None, j);
}

/// Without an entry for the venue's exchange or a `*` entry, the backend is
/// the one `TRADE_ENGINE_EXEC_BACKEND` names.
pub proof fn lemma_default_backend_applies(venue: Seq<char>, values: Seq<(String, String)>)
    requires
        backend_choice(venue, values) is Ok,
        forall|k: int|
            0 <= k < backend_map_entries(values).len() ==> entry_key(#[trigger] backend_map_entries(values)[k])
                != venue_exchange(venue)->Some_0 && entry_key(backend_map_entries(values)[k]) != "*"@,
    ensures
        default_backend(values) is Some,
        backend_choice(venue, values) == Ok::<Backend, BackendError>(default_backend(values)->Some_0),
{
    let entries = backend_map_entries(values);
    let exchange = venue_exchange(venue)->Some_0;
    assert(venue_exchange(venue) is Some);
    assert(default_backend(values) is Some);
    assert(fold_backend_map(entries, exchange, 0, None, None) is Ok);
    lemma_fold_keeps_wildcard(entries, exchange, 0, None, None);
    lemma_fold_keeps_specific(entries, exchange, 0, None, None);
}

/// A `*` entry of `TRADE_ENGINE_EXEC_BACKEND_MAP` chooses the backend for
/// every exchange that has no entry of its own, whatever
/// `TRADE_ENGINE_EXEC_BACKEND` says.
pub proof fn lemma_wildcard_backend_applies(venue: Seq<char>, values: Seq<(String, String)>, j: int)
    requires
        backend_choice(venue, values) is Ok,
        0 <= j < backend_map_entries(values).len(),
        entry_key(backend_map_entries(values)[j]) == "*"@,
        forall|k: int|
            0 <= k < backend_map_entries(values).len() ==> entry_key(#[trigger] backend_map_entries(values)[k])
                != venue_exchange(venue)->Some_0,
    ensures
        entry_backend(backend_map_entries(values)[j]) is Some,
        backend_choice(venue, values) == Ok::<Backend, BackendError>(
            entry_backend(backend_map_entries(values)[j])->Some_0,
        ),
{
    let entries = backend_map_entries(values);
    let exchange = venue_exchange(venue)->Some_0;
    assert(venue_exchange(venue) is Some);
    assert(parse_backend(env_or_empty(values, "TRADE_ENGINE_EXEC_BACKEND"@)) is Some);
    assert(fold_backend_map(entries, exchange, 0, None, None) is Ok);
    lemma_fold_takes_wildcard(entries, exchange, 0, None, None, j);
    lemma_fold_keeps_specific(entries, exchange, 0, None, None);
}

fn fold_entries(entries: &Vec<Vec<char>>, exchange: &[char]) -> (r: Result<
    (Option<Backend>, Option<Backend>),
    BackendError,
>)
    ensures
        r == fold_backend_map(views(entries@), exchange@, 0, None, None),
{
    let ghost all = views(entries@);
    let mut wildcard: Option<Backend> = None;
    let mut specific: Option<Backend> = None;
    let mut i: usize = 0;
    while i < entries.len()
        invariant
            i <= entries@.len(),
            all == views(entries@),
            fold_backend_map(all, exchange@, 0, None, None) == fold_backend_map(
                all,
                exchange@,
                i as int,
                wildcard,
                specific,
            ),
        decreases entries@.len() - i,
    {
        assert(all[i as int] == entries@[i as int]@);
        let (k, v) = match split_once_chars(entries[i].as_slice(), '=') {
            Some(kv) => kv,
            None => {
                return Err(BackendError::MissingEquals);
            },
        };
        let b = match parse_backend_value(v.as_slice()) {
            Some(b) => b,
            None => {
                return Err(BackendError::InvalidBackend);
            },
        };
        let key = to_ascii_lower(trim_chars(k.as_slice()).as_slice());
        let key = key.as_slice();
        if eq_lit(key, "*") {
            if wildcard.is_some() {
                return Err(BackendError::DuplicateWildcard);
            }
            wildcard = Some(b);
        } else {
            if !(eq_lit(key, "binance") || eq_lit(key, "okex") || eq_lit(key, "bybit") || eq_lit(
                key,
                "bitget",
            ) || eq_lit(key, "gate") || eq_lit(key, "hyperliquid")) {
                return Err(BackendError::UnknownExchange);
            }
            if chars_eq(key, exchange) {
                if specific.is_some() {
                    return Err(BackendError::DuplicateExchange);
                }
                specific = Some(b);
            }
        }
        i = i + 1;
    }
    Ok((wildcard, specific))
}

/// Chooses the execution backend for a market-rules venue from a source's
/// environment values.
pub fn execution_backend(venue: &str, values: &Vec<(String, String)>) -> (r: Result<
    &'static str,
    BackendError,
>)
    ensures
        r is Ok <==> backend_choice(venue@, values@) is Ok,
        r matches Ok(s) ==> backend_choice(venue@, values@) matches Ok(b) && s@ == backend_label(
            b,
        ),
        r matches Err(e) ==> backend_choice(venue@, values@) == Err::<Backend, BackendError>(e),
{
    let coin = str_eq(venue, "binance-coin-futures");
    let exchange: &str = if str_eq(venue, "binance-futures") || coin {
        "binance"
    } else if str_eq(venue, "okex-futures") {
        "okex"
    } else {
        return Err(BackendError::UnsupportedVenue);
    };
    let exchange_chars = chars_of(exchange);
    let default_raw = match env_get(values, "TRADE_ENGINE_EXEC_BACKEND") {
        Some(v) => chars_of(v),
        None => Vec::new(),
    };
    let default = match parse_backend_value(default_raw.as_slice()) {
        Some(b) => b,
        None => {
            return Err(BackendError::InvalidBackend);
        },
    };
    let map_raw: String = match env_get(values, "TRADE_ENGINE_EXEC_BACKEND_MAP") {
        Some(v) => crate::text::owned(v),
        None => String::new(),
    };
    let entries = map_entries(map_raw.as_str());
    let (wildcard, specific) = match fold_entries(&entries, exchange_chars.as_slice()) {
        Ok(ws) => ws,
        Err(e) => {
            return Err(e);
        },
    };
    let backend = match specific {
        Some(b) => b,
        None => match wildcard {
            Some(b) => b,
            None => default,
        },
    };
    if backend == Backend::Ltp && coin {
        return Err(BackendError::CoinFuturesUnsupported);
    }
    Ok(backend.as_str())
}

} // verus!
