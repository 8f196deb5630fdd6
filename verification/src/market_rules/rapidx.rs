//! RapidX (LiquidityTech) symbol names and request signing.

use vstd::prelude::*;

use crate::market_rules::{env_get, env_lookup};
use crate::text::{split_chars, split_on, views};
use crate::text::{chars_eq, chars_of, chars_start_with, concat2, concat3, decimal, decimal_string, is_blank, string_of, trim};

verus! {

/// A RapidX symbol `EXCHANGE_KIND_BASE_QUOTE`, split into its parts.
#[derive(Debug, Clone)]
pub struct ParsedSymbol {
    pub exchange: String,
    pub kind: String,
    pub base: String,
    pub quote: String,
}

/// The exchanges whose perpetuals RapidX rules cover.
pub open spec fn rapidx_exchange(e: Seq<char>) -> bool {
    e == "BINANCE"@ || e == "OKX"@
}

/// `sym` has exactly four `_`-separated parts, a supported exchange and
/// non-empty base and quote assets.
pub open spec fn symbol_parts_ok(sym: Seq<char>) -> bool {
    let p = split_on(sym, '_');
    p.len() == 4 && rapidx_exchange(p[0]) && p[2].len() > 0 && p[3].len() > 0
}

/// Splits a RapidX symbol into exchange, kind, base and quote.
pub fn parse_symbol(sym: &str) -> (r: Option<ParsedSymbol>)
    ensures
        r is Some <==> symbol_parts_ok(sym@),
        r matches Some(p) ==> ({
            let parts = split_on(sym@, '_');
            &&& p.exchange@ == parts[0]
            &&& p.kind@ == parts[1]
            &&& p.base@ == parts[2]
            &&& p.quote@ == parts[3]
        }),
{
    let cs = chars_of(sym);
    let parts = split_chars(cs.as_slice(), '_');
    if parts.len() != 4 {
        return None;
    }
    let ghost v = views(parts@);
    assert(v[0] == parts@[0]@ && v[1] == parts@[1]@ && v[2] == parts@[2]@ && v[3] == parts@[3]@);
    let binance = chars_of("BINANCE");
    let okx = chars_of("OKX");
    let exchange = parts[0].as_slice();
    if !(chars_eq(exchange, binance.as_slice()) || chars_eq(exchange, okx.as_slice())) {
        return None;
    }
    if parts[2].len() == 0 || parts[3].len() == 0 {
        return None;
    }
    Some(
        ParsedSymbol {
            exchange: string_of(exchange),
            kind: string_of(parts[1].as_slice()),
            base: string_of(parts[2].as_slice()),
            quote: string_of(parts[3].as_slice()),
        },
    )
}

/// The RapidX exchange that serves a market-rules venue.
#[derive(Debug, Clone, Copy, PartialEq, Eq, Structural)]
pub enum TargetVenue {
    Binance,
    Okx,
}

/// `BINANCE` or `OKX`.
pub open spec fn target_exchange(t: TargetVenue) -> Seq<char> {
    match t {
        TargetVenue::Binance => "BINANCE"@,
        TargetVenue::Okx => "OKX"@,
    }
}

/// Why a RapidX rule cannot be read.
#[derive(Debug, Clone, Copy, PartialEq, Eq, Structural)]
pub enum RapidxError {
    UnsupportedVenue,
    UnknownState,
    MissingValue,
}

impl TargetVenue {
    /// `BINANCE` or `OKX`.
    pub fn exchange(&self) -> (r: &'static str)
        ensures
            r@ == target_exchange(*self),
    {
        match self {
            TargetVenue::Binance => "BINANCE",
            TargetVenue::Okx => "OKX",
        }
    }

    /// The exchange's own name for a symbol: `BASEQUOTE` on Binance,
    /// `BASE-QUOTE-SWAP` on OKX.
    pub fn native_symbol(&self, symbol: &ParsedSymbol) -> (r: String)
        ensures
            r@ == match *self {
                TargetVenue::Binance => symbol.base@ + symbol.quote@,
                TargetVenue::Okx => symbol.base@ + "-"@ + symbol.quote@ + "-SWAP"@,
            },
    {
        match self {
            TargetVenue::Binance => concat2(symbol.base.as_str(), symbol.quote.as_str()),
            TargetVenue::Okx => {
                let head = concat3(symbol.base.as_str(), "-", symbol.quote.as_str());
                concat2(head.as_str(), "-SWAP")
            },
        }
    }

    /// The rule status of a RapidX state: Binance `live`/`suspend` become
    /// `TRADING`/`SUSPEND`; OKX keeps `live` and `suspend`; other states are
    /// refused.
    pub fn status(&self, state: &str) -> (r: Result<String, RapidxError>)
        ensures
            r is Ok <==> state@ == "live"@ || state@ == "suspend"@,
            r matches Ok(s) ==> s@ == match *self {
                TargetVenue::Binance => if state@ == "live"@ {
                    "TRADING"@
                } else {
                    "SUSPEND"@
                },
                TargetVenue::Okx => state@,
            },
            r matches Err(e) ==> e == RapidxError::UnknownState,
    {
        let live = crate::text::str_eq(state, "live");
        let suspend = crate::text::str_eq(state, "suspend");
        if !live && !suspend {
            return Err(RapidxError::UnknownState);
        }
        match self {
            TargetVenue::Binance => {
                if live {
                    Ok("TRADING".to_string())
                } else {
                    Ok("SUSPEND".to_string())
                }
            },
            TargetVenue::Okx => Ok(state.to_string()),
        }
    }
}

/// The RapidX exchange of a market-rules venue.
pub fn target_venue(venue: &str) -> (r: Result<TargetVenue, RapidxError>)
    ensures
        venue@ == "binance-futures"@ ==> r == Ok::<TargetVenue, RapidxError>(TargetVenue::Binance),
        venue@ == "okex-futures"@ ==> r == Ok::<TargetVenue, RapidxError>(TargetVenue::Okx),
        venue@ != "binance-futures"@ && venue@ != "okex-futures"@ ==> r == Err::<
            TargetVenue,
            RapidxError,
        >(RapidxError::UnsupportedVenue),
{
    proof {
        reveal_strlit("binance-futures");
        reveal_strlit("okex-futures");
        assert("binance-futures"@.len() != "okex-futures"@.len());
    }
    if crate::text::str_eq(venue, "binance-futures") {
        Ok(TargetVenue::Binance)
    } else if crate::text::str_eq(venue, "okex-futures") {
        Ok(TargetVenue::Okx)
    } else {
        Err(RapidxError::UnsupportedVenue)
    }
}

/// `sym` starts with the target exchange followed by `_PERP`.
pub open spec fn claims_perp(sym: Seq<char>, t: TargetVenue) -> bool {
    let e = target_exchange(t);
    sym.len() >= e.len() + 5 && sym.take(e.len() as int) == e && sym.subrange(
        e.len() as int,
        e.len() + 5int,
    ) == "_PERP"@
}

/// Whether `sym` names a perpetual of the target exchange (possibly a
/// malformed one).
pub fn claims_target_perp(sym: &str, target: TargetVenue) -> (r: bool)
    ensures
        r == claims_perp(sym@, target),
{
    let want = concat2(target.exchange(), "_PERP");
    let cs = chars_of(sym);
    let w = chars_of(want.as_str());
    let r = chars_start_with(cs.as_slice(), w.as_slice());
    proof {
        reveal_strlit("BINANCE");
        reveal_strlit("OKX");
        reveal_strlit("_PERP");
        let e = target_exchange(target);
        let p = "_PERP"@;
        assert(w@ =~= e + p);
        if r {
            assert(sym@.take(e.len() as int) =~= w@.take(e.len() as int));
            assert(sym@.subrange(e.len() as int, e.len() + 5int) =~= w@.subrange(
                e.len() as int,
                e.len() + 5int,
            ));
            assert(w@.take(e.len() as int) =~= e);
            assert(w@.subrange(e.len() as int, e.len() + 5int) =~= p);
        }
        if claims_perp(sym@, target) {
            assert(w@.len() == e.len() + 5);
            assert(sym@.take(w@.len() as int) =~= w@);
        }
    }
    r
}

/// A parsed symbol is a USDT perpetual of the target exchange.
pub open spec fn is_target_symbol(p: ParsedSymbol, t: TargetVenue) -> bool {
    p.exchange@ == target_exchange(t) && p.kind@ == "PERP"@ && p.quote@ == "USDT"@
}

/// Whether a parsed symbol is a USDT perpetual of the target exchange.
pub fn is_target(symbol: Option<&ParsedSymbol>, target: TargetVenue) -> (r: bool)
    ensures
        r == (symbol matches Some(p) && is_target_symbol(*p, target)),
{
    match symbol {
        Some(p) => crate::text::str_eq(p.exchange.as_str(), target.exchange())
            && crate::text::str_eq(p.kind.as_str(), "PERP") && crate::text::str_eq(
            p.quote.as_str(),
            "USDT",
        ),
        None => false,
    }
}

/// A source environment value that must be set and not blank.
pub fn required_value<'a>(values: &'a Vec<(String, String)>, name: &str) -> (r: Result<
    &'a str,
    RapidxError,
>)
    ensures
        r is Ok <==> (env_lookup(values@, name@) matches Some(v) && trim(v).len() > 0),
        r matches Ok(v) ==> env_lookup(values@, name@) == Some(v@),
        r matches Err(e) ==> e == RapidxError::MissingValue,
{
    match env_get(values, name) {
        Some(v) => {
            if is_blank(v) {
                Err(RapidxError::MissingValue)
            } else {
                Ok(v)
            }
        },
        None => Err(RapidxError::MissingValue),
    }
}

} // verus!
