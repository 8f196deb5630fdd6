//! RapidX symbol information read into market rules: the rows of the target
//! exchange's USDT perpetuals are picked from the symbol map, checked for
//! coherence, their decimals read, and their rules listed by symbol.
//!
//! Decimal texts are read as `f64` by the caller, which hands in the text of
//! each floating-point JSON number (`numbers`) and the value of each text
//! that parses (`values`).

use vstd::prelude::*;

use crate::float_bits::{f64_gt_zero, f64_is_finite, f64_lt_zero, gt_zero, is_finite, lt_zero};
use crate::json::{get, json_get, members_view, JsonNumber, JsonValue};
use crate::market_rules::rapidx::{
    claims_perp, claims_target_perp, parse_symbol, symbol_parts_ok, target_exchange, target_venue,
    TargetVenue,
};
use crate::market_rules::{symbols_ascending, to_uppercase, unicode_upper, MarketRule, RuleDecimal};
use crate::ordered::{lemma_str_lt_irreflexive, lemma_str_lt_total, lemma_str_lt_transitive, str_less, str_lt};
use crate::text::{
    concat2, concat3, decimal, decimal_string, is_blank, owned, signed_decimal, signed_decimal_string,
    split_on, str_eq, trim,
};

verus! {

/// The bit pattern of `1.0`.
pub const ONE_BITS: u64 = 0x3FF0_0000_0000_0000;

/// A field of a symbol row.
#[derive(Debug, Clone, Copy, PartialEq, Eq, Structural)]
pub enum RapidxField {
    Sym,
    OriginalSymbol,
    State,
    ContractSize,
    MinNotional,
    TickSize,
    LotSize,
    MinSize,
}

/// The JSON name of a row field.
pub open spec fn field_name(f: RapidxField) -> Seq<char> {
    match f {
        RapidxField::Sym => "sym"@,
        RapidxField::OriginalSymbol => "originalSymbol"@,
        RapidxField::State => "state"@,
        RapidxField::ContractSize => "contractSize"@,
        RapidxField::MinNotional => "minNotional"@,
        RapidxField::TickSize => "tickSize"@,
        RapidxField::LotSize => "lotSize"@,
        RapidxField::MinSize => "minSize"@,
    }
}

impl RapidxField {
    /// The JSON name of the field.
    pub fn name(&self) -> (r: &'static str)
        ensures
            r@ == field_name(*self),
    {
        match self {
            RapidxField::Sym => "sym",
            RapidxField::OriginalSymbol => "originalSymbol",
            RapidxField::State => "state",
            RapidxField::ContractSize => "contractSize",
            RapidxField::MinNotional => "minNotional",
            RapidxField::TickSize => "tickSize",
            RapidxField::LotSize => "lotSize",
            RapidxField::MinSize => "minSize",
        }
    }
}

/// Why symbol information cannot be read.
#[derive(Debug, Clone, Copy, PartialEq, Eq, Structural)]
pub enum SymInfoErrorKind {
    UnsupportedVenue,
    NotSymbolMap,
    /// A map key claims a target perpetual but does not parse.
    MalformedTargetKey,
    /// The row of an unrelated key names a target perpetual.
    UnrelatedRowClaimsTarget,
    MissingField(RapidxField),
    /// The row's `sym` is not its map key.
    KeyMismatch,
    /// `originalSymbol` is not the exchange's name for the symbol.
    IncoherentOriginal,
    UnknownState,
    MissingDecimal(RapidxField),
    /// Neither a string nor a number, or blank.
    InvalidDecimal(RapidxField),
    UnparsableDecimal(RapidxField),
    NotPositive(RapidxField),
    /// A Binance perpetual's contract size other than 1.
    ContractSizeNotOne,
    Negative(RapidxField),
    DuplicateSymbol,
    NoTargetRecords,
    /// The response has no `code`.
    MissingCode,
    /// The business code is not `200000`.
    BadBusinessCode,
    /// The response has no `data`.
    MissingData,
}

/// A refusal with the texts it names: the symbol (or map key), a detail
/// (the venue, the row's `sym`, the expected name or the state) and the
/// value read.
#[derive(Debug, Clone)]
pub struct SymInfoError {
    pub kind: SymInfoErrorKind,
    pub symbol: String,
    pub detail: String,
    pub value: String,
}

/// A refusal as texts.
pub type SymInfoErrorView = (SymInfoErrorKind, Seq<char>, Seq<char>, Seq<char>);

impl SymInfoError {
    pub open spec fn view(&self) -> SymInfoErrorView {
        (self.kind, self.symbol@, self.detail@, self.value@)
    }
}

/// Operator-facing text of a refusal.
pub open spec fn sym_info_error_text(e: SymInfoErrorView) -> Seq<char> {
    let (k, s, d, v) = e;
    match k {
        SymInfoErrorKind::UnsupportedVenue => "unsupported RapidX market-rules venue: "@ + d,
        SymInfoErrorKind::NotSymbolMap => "RapidX sym info data is not a symbol map"@,
        SymInfoErrorKind::MalformedTargetKey => "malformed RapidX target symbol map key: "@ + s,
        SymInfoErrorKind::UnrelatedRowClaimsTarget => "RapidX target row sym does not match unrelated map key: "@ + s,
        SymInfoErrorKind::MissingField(f) => "RapidX required field is missing: "@ + field_name(f),
        SymInfoErrorKind::KeyMismatch => "RapidX symbol map key does not match row sym: "@ + s + " != "@ + d,
        SymInfoErrorKind::IncoherentOriginal => "RapidX originalSymbol is incoherent for "@ + s + ": expected "@ + d
            + ", got "@ + v,
        SymInfoErrorKind::UnknownState => "unknown RapidX state for "@ + s + ": "@ + d,
        SymInfoErrorKind::MissingDecimal(f) => "RapidX required field is missing: "@ + s + "."@ + field_name(f),
        SymInfoErrorKind::InvalidDecimal(f) => "RapidX decimal field is invalid: "@ + s + "."@ + field_name(f),
        SymInfoErrorKind::UnparsableDecimal(f) => "RapidX invalid decimal "@ + s + "."@ + field_name(f) + "="@ + v,
        SymInfoErrorKind::NotPositive(f) => "RapidX "@ + s + "."@ + field_name(f) + " must be positive: "@ + v,
        SymInfoErrorKind::ContractSizeNotOne => "RapidX Binance PERP contractSize must be 1 for "@ + s + ", got "@ + v,
        SymInfoErrorKind::Negative(f) => "RapidX "@ + s + "."@ + field_name(f) + " must be non-negative: "@ + v,
        SymInfoErrorKind::DuplicateSymbol => "duplicate RapidX target symbol: "@ + s,
        SymInfoErrorKind::NoTargetRecords => "RapidX sym info contained no target "@ + d + " PERP USDT records"@,
        SymInfoErrorKind::MissingCode => "RapidX sym info omitted code"@,
        SymInfoErrorKind::BadBusinessCode => "RapidX sym info business code was not 200000"@,
        SymInfoErrorKind::MissingData => "RapidX sym info omitted data"@,
    }
}

fn join3(a: String, b: &str, c: &str) -> (r: String)
    ensures
        r@ == a@ + b@ + c@,
{
    let mut out = a;
    out.append(b);
    out.append(c);
    out
}

impl SymInfoError {
    /// Operator-facing text of the refusal.
    pub fn message(&self) -> (r: String)
        ensures
            r@ == sym_info_error_text(self.view()),
    {
        let s = self.symbol.as_str();
        let d = self.detail.as_str();
        let v = self.value.as_str();
        match self.kind {
            SymInfoErrorKind::UnsupportedVenue => concat2("unsupported RapidX market-rules venue: ", d),
            SymInfoErrorKind::NotSymbolMap => owned("RapidX sym info data is not a symbol map"),
            SymInfoErrorKind::MalformedTargetKey => concat2("malformed RapidX target symbol map key: ", s),
            SymInfoErrorKind::UnrelatedRowClaimsTarget => concat2(
                "RapidX target row sym does not match unrelated map key: ",
                s,
            ),
            SymInfoErrorKind::MissingField(f) => concat2("RapidX required field is missing: ", f.name()),
            SymInfoErrorKind::KeyMismatch => join3(
                concat2("RapidX symbol map key does not match row sym: ", s),
                " != ",
                d,
            ),
            SymInfoErrorKind::IncoherentOriginal => {
                let head = join3(concat2("RapidX originalSymbol is incoherent for ", s), ": expected ", d);
                join3(head, ", got ", v)
            },
            SymInfoErrorKind::UnknownState => join3(concat2("unknown RapidX state for ", s), ": ", d),
            SymInfoErrorKind::MissingDecimal(f) => join3(
                concat2("RapidX required field is missing: ", s),
                ".",
                f.name(),
            ),
            SymInfoErrorKind::InvalidDecimal(f) => join3(concat2("RapidX decimal field is invalid: ", s), ".", f.name()),
            SymInfoErrorKind::UnparsableDecimal(f) => {
                let head = join3(concat2("RapidX invalid decimal ", s), ".", f.name());
                join3(head, "=", v)
            },
            SymInfoErrorKind::NotPositive(f) => {
                let head = join3(concat2("RapidX ", s), ".", f.name());
                join3(head, " must be positive: ", v)
            },
            SymInfoErrorKind::ContractSizeNotOne => join3(
                concat2("RapidX Binance PERP contractSize must be 1 for ", s),
                ", got ",
                v,
            ),
            SymInfoErrorKind::Negative(f) => {
                let head = join3(concat2("RapidX ", s), ".", f.name());
                join3(head, " must be non-negative: ", v)
            },
            SymInfoErrorKind::DuplicateSymbol => concat2("duplicate RapidX target symbol: ", s),
            SymInfoErrorKind::NoTargetRecords => concat3(
                "RapidX sym info contained no target ",
                d,
                " PERP USDT records",
            ),
            SymInfoErrorKind::MissingCode => owned("RapidX sym info omitted code"),
            SymInfoErrorKind::BadBusinessCode => owned("RapidX sym info business code was not 200000"),
            SymInfoErrorKind::MissingData => owned("RapidX sym info omitted data"),
        }
    }
}

fn sym_err(kind: SymInfoErrorKind, symbol: &str, detail: &str, value: &str) -> (r: SymInfoError)
    ensures
        r.view() == (kind, symbol@, detail@, value@),
{
    SymInfoError { kind, symbol: owned(symbol), detail: owned(detail), value: owned(value) }
}

/// The text the caller gave for the floating-point number `bits`.
pub open spec fn float_text(numbers: Seq<(u64, String)>, bits: u64) -> Option<Seq<char>>
    decreases numbers.len(),
{
    if numbers.len() == 0 {
        None
    } else if numbers[0].0 == bits {
        Some(numbers[0].1@)
    } else {
        float_text(numbers.drop_first(), bits)
    }
}

/// The value the caller gave for the decimal text `text`.
pub open spec fn parsed_value(values: Seq<(String, u64)>, text: Seq<char>) -> Option<u64>
    decreases values.len(),
{
    if values.len() == 0 {
        None
    } else if values[0].0@ == text {
        Some(values[0].1)
    } else {
        parsed_value(values.drop_first(), text)
    }
}

fn find_float_text(numbers: &Vec<(u64, String)>, bits: u64) -> (r: Option<String>)
    ensures
        r matches Some(t) ==> float_text(numbers@, bits) == Some(t@),
        r is None ==> float_text(numbers@, bits) is None,
{
    let mut i: usize = 0;
    assert(numbers@.skip(0) =~= numbers@);
    while i < numbers.len()
        invariant
            i <= numbers@.len(),
            float_text(numbers@, bits) == float_text(numbers@.skip(i as int), bits),
        decreases numbers@.len() - i,
    {
        assert(numbers@.skip(i as int).drop_first() =~= numbers@.skip(i + 1));
        if numbers[i].0 == bits {
            return Some(owned(numbers[i].1.as_str()));
        }
        i = i + 1;
    }
    None
}

fn find_value(values: &Vec<(String, u64)>, text: &str) -> (r: Option<u64>)
    ensures
        r == parsed_value(values@, text@),
{
    let mut i: usize = 0;
    assert(values@.skip(0) =~= values@);
    while i < values.len()
        invariant
            i <= values@.len(),
            parsed_value(values@, text@) == parsed_value(values@.skip(i as int), text@),
        decreases values@.len() - i,
    {
        assert(values@.skip(i as int).drop_first() =~= values@.skip(i + 1));
        if str_eq(values[i].0.as_str(), text) {
            return Some(values[i].1);
        }
        i = i + 1;
    }
    None
}

/// The text of a JSON number, as `serde_json` writes it.
pub open spec fn number_text(n: JsonNumber, numbers: Seq<(u64, String)>) -> Option<Seq<char>> {
    match n {
        JsonNumber::PosInt(v) => Some(decimal(v as nat)),
        JsonNumber::NegInt(v) => Some(signed_decimal(v as int)),
        JsonNumber::Float(b) => float_text(numbers, b),
    }
}

/// The non-blank string of a row field.
pub open spec fn required_text(row: JsonValue, f: RapidxField) -> Option<Seq<char>> {
    match json_get(row, field_name(f)) {
        Some(JsonValue::String(s)) => if trim(s@).len() > 0 {
            Some(s@)
        } else {
            None
        },
        _ => None,
    }
}

/// The decimal text of a row field: a string or a number, not blank.
pub open spec fn decimal_text(row: JsonValue, f: RapidxField, numbers: Seq<(u64, String)>) -> Result<
    Seq<char>,
    SymInfoErrorKind,
> {
    match json_get(row, field_name(f)) {
        None => Err(SymInfoErrorKind::MissingDecimal(f)),
        Some(v) => {
            let t: Option<Seq<char>> = match v {
                JsonValue::String(s) => Some(s@),
                JsonValue::Number(n) => number_text(n, numbers),
                _ => None,
            };
            match t {
                Some(x) => if trim(x).len() > 0 {
                    Ok(x)
                } else {
                    Err(SymInfoErrorKind::InvalidDecimal(f))
                },
                None => Err(SymInfoErrorKind::InvalidDecimal(f)),
            }
        },
    }
}

/// A positive decimal field: its text and value, or the refusal with the
/// text read.
pub open spec fn positive_decimal_of(
    row: JsonValue,
    f: RapidxField,
    numbers: Seq<(u64, String)>,
    values: Seq<(String, u64)>,
) -> Result<(Seq<char>, u64), (SymInfoErrorKind, Seq<char>)> {
    match decimal_text(row, f, numbers) {
        Err(k) => Err((k, Seq::empty())),
        Ok(raw) => match parsed_value(values, raw) {
            None => Err((SymInfoErrorKind::UnparsableDecimal(f), raw)),
            Some(b) => if is_finite(b) && gt_zero(b) {
                Ok((raw, b))
            } else {
                Err((SymInfoErrorKind::NotPositive(f), raw))
            },
        },
    }
}

/// A non-negative decimal field: kept when positive, dropped at zero.
pub open spec fn nonnegative_decimal_of(
    row: JsonValue,
    f: RapidxField,
    numbers: Seq<(u64, String)>,
    values: Seq<(String, u64)>,
) -> Result<Option<(Seq<char>, u64)>, (SymInfoErrorKind, Seq<char>)> {
    match decimal_text(row, f, numbers) {
        Err(k) => Err((k, Seq::empty())),
        Ok(raw) => match parsed_value(values, raw) {
            None => Err((SymInfoErrorKind::UnparsableDecimal(f), raw)),
            Some(b) => if !is_finite(b) || lt_zero(b) {
                Err((SymInfoErrorKind::Negative(f), raw))
            } else if gt_zero(b) {
                Ok(Some((raw, b)))
            } else {
                Ok(None)
            },
        },
    }
}

fn required_text_of<'a>(row: &'a JsonValue, f: RapidxField) -> (r: Option<&'a str>)
    ensures
        r matches Some(s) ==> required_text(*row, f) == Some(s@),
        r is None ==> required_text(*row, f) is None,
{
    match get(row, f.name()) {
        Some(v) => match v {
            JsonValue::String(s) => {
                if is_blank(s.as_str()) {
                    None
                } else {
                    Some(s.as_str())
                }
            },
            _ => None,
        },
        None => None,
    }
}

fn decimal_text_of(row: &JsonValue, f: RapidxField, numbers: &Vec<(u64, String)>) -> (r: Result<
    String,
    SymInfoErrorKind,
>)
    ensures
        r matches Ok(t) ==> decimal_text(*row, f, numbers@) == Ok::<Seq<char>, SymInfoErrorKind>(t@),
        r matches Err(k) ==> decimal_text(*row, f, numbers@) == Err::<Seq<char>, SymInfoErrorKind>(k),
{
    let v = match get(row, f.name()) {
        Some(v) => v,
        None => {
            return Err(SymInfoErrorKind::MissingDecimal(f));
        },
    };
    let t: Option<String> = match v {
        JsonValue::String(s) => Some(owned(s.as_str())),
        JsonValue::Number(n) => match n {
            JsonNumber::PosInt(x) => Some(decimal_string(*x)),
            JsonNumber::NegInt(x) => Some(signed_decimal_string(*x)),
            JsonNumber::Float(b) => find_float_text(numbers, *b),
        },
        _ => None,
    };
    match t {
        Some(x) => {
            if is_blank(x.as_str()) {
                Err(SymInfoErrorKind::InvalidDecimal(f))
            } else {
                Ok(x)
            }
        },
        None => Err(SymInfoErrorKind::InvalidDecimal(f)),
    }
}

fn positive_decimal(row: &JsonValue, f: RapidxField, numbers: &Vec<(u64, String)>, values: &Vec<(String, u64)>) -> (r:
    Result<(String, u64), (SymInfoErrorKind, String)>)
    ensures
        r matches Ok(x) ==> positive_decimal_of(*row, f, numbers@, values@) == Ok::<
            (Seq<char>, u64),
            (SymInfoErrorKind, Seq<char>),
        >((x.0@, x.1)),
        r matches Err(e) ==> positive_decimal_of(*row, f, numbers@, values@) == Err::<
            (Seq<char>, u64),
            (SymInfoErrorKind, Seq<char>),
        >((e.0, e.1@)),
{
    let raw = match decimal_text_of(row, f, numbers) {
        Ok(t) => t,
        Err(k) => {
            return Err((k, String::new()));
        },
    };
    match find_value(values, raw.as_str()) {
        None => Err((SymInfoErrorKind::UnparsableDecimal(f), raw)),
        Some(b) => {
            if f64_is_finite(b) && f64_gt_zero(b) {
                Ok((raw, b))
            } else {
                Err((SymInfoErrorKind::NotPositive(f), raw))
            }
        },
    }
}

fn nonnegative_decimal(row: &JsonValue, f: RapidxField, numbers: &Vec<(u64, String)>, values: &Vec<(String, u64)>) -> (r:
    Result<Option<(String, u64)>, (SymInfoErrorKind, String)>)
    ensures
        r matches Ok(x) ==> nonnegative_decimal_of(*row, f, numbers@, values@) == Ok::<
            Option<(Seq<char>, u64)>,
            (SymInfoErrorKind, Seq<char>),
        >(
            match x {
                Some(y) => Some((y.0@, y.1)),
                None => None,
            },
        ),
        r matches Err(e) ==> nonnegative_decimal_of(*row, f, numbers@, values@) == Err::<
            Option<(Seq<char>, u64)>,
            (SymInfoErrorKind, Seq<char>),
        >((e.0, e.1@)),
{
    let raw = match decimal_text_of(row, f, numbers) {
        Ok(t) => t,
        Err(k) => {
            return Err((k, String::new()));
        },
    };
    match find_value(values, raw.as_str()) {
        None => Err((SymInfoErrorKind::UnparsableDecimal(f), raw)),
        Some(b) => {
            if !f64_is_finite(b) || f64_lt_zero(b) {
                Err((SymInfoErrorKind::Negative(f), raw))
            } else if f64_gt_zero(b) {
                Ok(Some((raw, b)))
            } else {
                Ok(None)
            }
        },
    }
}

/// A rule decimal as text and value.
pub type DecimalView = (Seq<char>, Option<u64>);

/// A market rule as texts and values.
pub struct RuleView {
    pub status: Seq<char>,
    pub base_asset: Seq<char>,
    pub quote_asset: Seq<char>,
    pub price_tick: DecimalView,
    pub qty_step: DecimalView,
    pub min_qty: DecimalView,
    pub min_notional: Option<DecimalView>,
    pub contract_multiplier: Option<DecimalView>,
}

pub open spec fn decimal_view(d: RuleDecimal) -> DecimalView {
    (d.text@, d.parsed_bits)
}

pub open spec fn optional_decimal_view(d: Option<RuleDecimal>) -> Option<DecimalView> {
    match d {
        Some(x) => Some(decimal_view(x)),
        None => None,
    }
}

/// The view of a market rule.
pub open spec fn rule_view(r: MarketRule) -> RuleView {
    RuleView {
        status: r.status@,
        base_asset: r.base_asset@,
        quote_asset: r.quote_asset@,
        price_tick: decimal_view(r.price_tick),
        qty_step: decimal_view(r.qty_step),
        min_qty: decimal_view(r.min_qty),
        min_notional: optional_decimal_view(r.min_notional),
        contract_multiplier: optional_decimal_view(r.contract_multiplier),
    }
}

/// What one row of the symbol map gives: nothing, a rule, or a refusal.
pub enum RowStep {
    Skip,
    Rule(Seq<char>, RuleView),
    Fail(SymInfoErrorView),
}

/// The map key is a well-formed symbol of a USDT perpetual of the target.
pub open spec fn target_key(k: Seq<char>, t: TargetVenue) -> bool {
    let p = split_on(k, '_');
    symbol_parts_ok(k) && p[0] == target_exchange(t) && p[1] == "PERP"@ && p[3] == "USDT"@
}

/// The exchange's own name for a symbol.
pub open spec fn native_name(t: TargetVenue, base: Seq<char>, quote: Seq<char>) -> Seq<char> {
    match t {
        TargetVenue::Binance => base + quote,
        TargetVenue::Okx => base + "-"@ + quote + "-SWAP"@,
    }
}

/// The rule status of a RapidX state.
pub open spec fn status_name(t: TargetVenue, state: Seq<char>) -> Seq<char> {
    match t {
        TargetVenue::Binance => if state == "live"@ {
            "TRADING"@
        } else {
            "SUSPEND"@
        },
        TargetVenue::Okx => state,
    }
}

pub open spec fn fail_step(k: SymInfoErrorKind, s: Seq<char>, d: Seq<char>, v: Seq<char>) -> RowStep {
    RowStep::Fail((k, s, d, v))
}

#[verifier::opaque]
/// The decimals of a coherent target row, read in order: contract size
/// (1 on Binance), minimum notional, price tick, quantity step, minimum
/// quantity.
pub open spec fn row_decimals(
    sym: Seq<char>,
    base: Seq<char>,
    quote: Seq<char>,
    status: Seq<char>,
    row: JsonValue,
    t: TargetVenue,
    numbers: Seq<(u64, String)>,
    values: Seq<(String, u64)>,
) -> RowStep {
    let e = Seq::<char>::empty();
    match positive_decimal_of(row, RapidxField::ContractSize, numbers, values) {
        Err((k, raw)) => fail_step(k, sym, e, raw),
        Ok(cs) => if t == TargetVenue::Binance && cs.1 != ONE_BITS {
            fail_step(SymInfoErrorKind::ContractSizeNotOne, sym, e, cs.0)
        } else {
            match nonnegative_decimal_of(row, RapidxField::MinNotional, numbers, values) {
                Err((k, raw)) => fail_step(k, sym, e, raw),
                Ok(mn) => match positive_decimal_of(row, RapidxField::TickSize, numbers, values) {
                    Err((k, raw)) => fail_step(k, sym, e, raw),
                    Ok(tick) => match positive_decimal_of(row, RapidxField::LotSize, numbers, values) {
                        Err((k, raw)) => fail_step(k, sym, e, raw),
                        Ok(lot) => match positive_decimal_of(row, RapidxField::MinSize, numbers, values) {
                            Err((k, raw)) => fail_step(k, sym, e, raw),
                            Ok(ms) => RowStep::Rule(
                                unicode_upper(base + quote),
                                RuleView {
                                    status,
                                    base_asset: base,
                                    quote_asset: quote,
                                    price_tick: (tick.0, Some(tick.1)),
                                    qty_step: (lot.0, Some(lot.1)),
                                    min_qty: (ms.0, Some(ms.1)),
                                    min_notional: match mn {
                                        Some(x) => Some((x.0, Some(x.1))),
                                        None => None,
                                    },
                                    contract_multiplier: Some((cs.0, Some(cs.1))),
                                },
                            ),
                        },
                    },
                },
            }
        },
    }
}

#[verifier::opaque]
/// What the row under map key `k` gives. A key that claims a target
/// perpetual must parse; a row under an unrelated key must not name a
/// target perpetual; a target row must repeat its key as `sym`, name the
/// symbol as the exchange does in `originalSymbol`, and have a known state.
pub open spec fn row_step(
    k: Seq<char>,
    row: JsonValue,
    t: TargetVenue,
    numbers: Seq<(u64, String)>,
    values: Seq<(String, u64)>,
) -> RowStep {
    let e = Seq::<char>::empty();
    if !symbol_parts_ok(k) && claims_perp(k, t) {
        fail_step(SymInfoErrorKind::MalformedTargetKey, k, e, e)
    } else if !target_key(k, t) {
        if json_get(row, "sym"@) matches Some(JsonValue::String(s)) && claims_perp(s@, t) {
            fail_step(SymInfoErrorKind::UnrelatedRowClaimsTarget, k, e, e)
        } else {
            RowStep::Skip
        }
    } else {
        let base = split_on(k, '_')[2];
        let quote = split_on(k, '_')[3];
        match required_text(row, RapidxField::Sym) {
            None => fail_step(SymInfoErrorKind::MissingField(RapidxField::Sym), e, e, e),
            Some(sym) => if sym != k {
                fail_step(SymInfoErrorKind::KeyMismatch, k, sym, e)
            } else {
                match required_text(row, RapidxField::OriginalSymbol) {
                    None => fail_step(SymInfoErrorKind::MissingField(RapidxField::OriginalSymbol), e, e, e),
                    Some(orig) => if orig != native_name(t, base, quote) {
                        fail_step(SymInfoErrorKind::IncoherentOriginal, sym, native_name(t, base, quote), orig)
                    } else {
                        match required_text(row, RapidxField::State) {
                            None => fail_step(SymInfoErrorKind::MissingField(RapidxField::State), e, e, e),
                            Some(state) => if state != "live"@ && state != "suspend"@ {
                                fail_step(SymInfoErrorKind::UnknownState, sym, state, e)
                            } else {
                                row_decimals(sym, base, quote, status_name(t, state), row, t, numbers, values)
                            },
                        }
                    },
                }
            },
        }
    }
}

/// What one row gave, in executable form.
pub enum RowResult {
    Skip,
    Rule(String, MarketRule),
    Fail(SymInfoError),
}

pub open spec fn row_result_view(r: RowResult) -> RowStep {
    match r {
        RowResult::Skip => RowStep::Skip,
        RowResult::Rule(s, m) => RowStep::Rule(s@, rule_view(m)),
        RowResult::Fail(e) => RowStep::Fail(e.view()),
    }
}

fn rule_decimal(x: (String, u64)) -> (r: RuleDecimal)
    ensures
        decimal_view(r) == (x.0@, Some(x.1)),
{
    RuleDecimal { text: x.0, parsed_bits: Some(x.1) }
}

fn read_decimals(
    sym: &str,
    base: &str,
    quote: &str,
    status: String,
    row: &JsonValue,
    t: TargetVenue,
    numbers: &Vec<(u64, String)>,
    values: &Vec<(String, u64)>,
) -> (r: RowResult)
    ensures
        row_result_view(r) == row_decimals(sym@, base@, quote@, status@, *row, t, numbers@, values@),
{
    proof {
        reveal(row_decimals);
        reveal_strlit("");
        assert(""@ =~= Seq::<char>::empty());
    }
    let cs = match positive_decimal(row, RapidxField::ContractSize, numbers, values) {
        Ok(x) => x,
        Err((k, raw)) => {
            return RowResult::Fail(sym_err(k, sym, "", raw.as_str()));
        },
    };
    if t == TargetVenue::Binance && cs.1 != ONE_BITS {
        return RowResult::Fail(sym_err(SymInfoErrorKind::ContractSizeNotOne, sym, "", cs.0.as_str()));
    }
    let mn = match nonnegative_decimal(row, RapidxField::MinNotional, numbers, values) {
        Ok(x) => x,
        Err((k, raw)) => {
            return RowResult::Fail(sym_err(k, sym, "", raw.as_str()));
        },
    };
    let tick = match positive_decimal(row, RapidxField::TickSize, numbers, values) {
        Ok(x) => x,
        Err((k, raw)) => {
            return RowResult::Fail(sym_err(k, sym, "", raw.as_str()));
        },
    };
    let lot = match positive_decimal(row, RapidxField::LotSize, numbers, values) {
        Ok(x) => x,
        Err((k, raw)) => {
            return RowResult::Fail(sym_err(k, sym, "", raw.as_str()));
        },
    };
    let ms = match positive_decimal(row, RapidxField::MinSize, numbers, values) {
        Ok(x) => x,
        Err((k, raw)) => {
            return RowResult::Fail(sym_err(k, sym, "", raw.as_str()));
        },
    };
    let symbol = to_uppercase(concat2(base, quote).as_str());
    let min_notional = match mn {
        Some(x) => Some(rule_decimal(x)),
        None => None,
    };
    let rule = MarketRule {
        status,
        base_asset: owned(base),
        quote_asset: owned(quote),
        price_tick: rule_decimal(tick),
        qty_step: rule_decimal(lot),
        min_qty: rule_decimal(ms),
        min_notional,
        contract_multiplier: Some(rule_decimal(cs)),
    };
    RowResult::Rule(symbol, rule)
}

fn read_row(
    k: &str,
    row: &JsonValue,
    t: TargetVenue,
    numbers: &Vec<(u64, String)>,
    values: &Vec<(String, u64)>,
) -> (r: RowResult)
    ensures
        row_result_view(r) == row_step(k@, *row, t, numbers@, values@),
{
    proof {
        reveal(row_step);
        reveal_strlit("");
        assert(""@ =~= Seq::<char>::empty());
    }
    let parsed = parse_symbol(k);
    if parsed.is_none() && claims_target_perp(k, t) {
        return RowResult::Fail(sym_err(SymInfoErrorKind::MalformedTargetKey, k, "", ""));
    }
    let p = match parsed {
        Some(p) => {
            let is_t = crate::text::str_eq(p.exchange.as_str(), t.exchange()) && crate::text::str_eq(
                p.kind.as_str(),
                "PERP",
            ) && crate::text::str_eq(p.quote.as_str(), "USDT");
            if is_t {
                Some(p)
            } else {
                None
            }
        },
        None => None,
    };
    let p = match p {
        Some(p) => p,
        None => {
            let claims = match get(row, "sym") {
                Some(v) => match v {
                    JsonValue::String(s) => claims_target_perp(s.as_str(), t),
                    _ => false,
                },
                None => false,
            };
            if claims {
                return RowResult::Fail(sym_err(SymInfoErrorKind::UnrelatedRowClaimsTarget, k, "", ""));
            }
            return RowResult::Skip;
        },
    };
    let sym = match required_text_of(row, RapidxField::Sym) {
        Some(x) => x,
        None => {
            return RowResult::Fail(sym_err(SymInfoErrorKind::MissingField(RapidxField::Sym), "", "", ""));
        },
    };
    if !str_eq(sym, k) {
        return RowResult::Fail(sym_err(SymInfoErrorKind::KeyMismatch, k, sym, ""));
    }
    let orig = match required_text_of(row, RapidxField::OriginalSymbol) {
        Some(x) => x,
        None => {
            return RowResult::Fail(
                sym_err(SymInfoErrorKind::MissingField(RapidxField::OriginalSymbol), "", "", ""),
            );
        },
    };
    let expected = t.native_symbol(&p);
    if !str_eq(orig, expected.as_str()) {
        return RowResult::Fail(sym_err(SymInfoErrorKind::IncoherentOriginal, sym, expected.as_str(), orig));
    }
    let state = match required_text_of(row, RapidxField::State) {
        Some(x) => x,
        None => {
            return RowResult::Fail(sym_err(SymInfoErrorKind::MissingField(RapidxField::State), "", "", ""));
        },
    };
    let status = match t.status(state) {
        Ok(x) => x,
        Err(_) => {
            return RowResult::Fail(sym_err(SymInfoErrorKind::UnknownState, sym, state, ""));
        },
    };
    read_decimals(sym, p.base.as_str(), p.quote.as_str(), status, row, t, numbers, values)
}

/// Rules listed by symbol, as texts.
pub open spec fn rules_view(v: Seq<(String, MarketRule)>) -> Seq<(Seq<char>, RuleView)> {
    v.map_values(|e: (String, MarketRule)| (e.0@, rule_view(e.1)))
}

/// Symbols strictly ascending in `str` order, each once.
pub open spec fn rules_ascending(m: Seq<(Seq<char>, RuleView)>) -> bool {
    forall|i: int, j: int| 0 <= i < j < m.len() ==> str_lt(#[trigger] m[i].0, #[trigger] m[j].0)
}

/// Some entry is for symbol `k`.
pub open spec fn has_symbol(m: Seq<(Seq<char>, RuleView)>, k: Seq<char>) -> bool {
    exists|i: int| 0 <= i < m.len() && (#[trigger] m[i]).0 == k
}

/// How many entries come before symbol `k`.
pub open spec fn lt_count(m: Seq<(Seq<char>, RuleView)>, k: Seq<char>) -> nat
    decreases m.len(),
{
    if m.len() == 0 {
        0
    } else {
        lt_count(m.drop_last(), k) + if str_lt(m.last().0, k) {
            1nat
        } else {
            0nat
        }
    }
}

/// A rule put where its symbol belongs, as a map keyed by symbol keeps it.
pub open spec fn insert_sorted(m: Seq<(Seq<char>, RuleView)>, k: Seq<char>, v: RuleView) -> Seq<
    (Seq<char>, RuleView),
> {
    m.insert(lt_count(m, k) as int, (k, v))
}

/// One more row read after the rules so far (or their refusal).
pub open spec fn fold_next(
    prev: Result<(Seq<(Seq<char>, RuleView)>, nat), SymInfoErrorView>,
    entry: (Seq<char>, JsonValue),
    t: TargetVenue,
    numbers: Seq<(u64, String)>,
    values: Seq<(String, u64)>,
) -> Result<(Seq<(Seq<char>, RuleView)>, nat), SymInfoErrorView> {
    match prev {
        Err(e) => Err(e),
        Ok((rules, n)) => match row_step(entry.0, entry.1, t, numbers, values) {
            RowStep::Skip => Ok((rules, n)),
            RowStep::Fail(e) => Err(e),
            RowStep::Rule(sym, r) => if has_symbol(rules, sym) {
                Err((SymInfoErrorKind::DuplicateSymbol, sym, Seq::empty(), Seq::empty()))
            } else {
                Ok((insert_sorted(rules, sym, r), n + 1))
            },
        },
    }
}

/// The rules of the rows `members`, in order, with the number of target
/// rows, or the first refusal.
pub open spec fn fold_rows(
    members: Seq<(Seq<char>, JsonValue)>,
    t: TargetVenue,
    numbers: Seq<(u64, String)>,
    values: Seq<(String, u64)>,
) -> Result<(Seq<(Seq<char>, RuleView)>, nat), SymInfoErrorView>
    decreases members.len(),
{
    if members.len() == 0 {
        Ok((Seq::empty(), 0))
    } else {
        fold_next(fold_rows(members.drop_last(), t, numbers, values), members.last(), t, numbers, values)
    }
}

proof fn lemma_fold_step(
    m: Seq<(Seq<char>, JsonValue)>,
    k: int,
    t: TargetVenue,
    numbers: Seq<(u64, String)>,
    values: Seq<(String, u64)>,
)
    requires
        0 <= k < m.len(),
    ensures
        fold_rows(m.take(k + 1), t, numbers, values) == fold_next(
            fold_rows(m.take(k), t, numbers, values),
            m[k],
            t,
            numbers,
            values,
        ),
{
    assert(m.take(k + 1).drop_last() =~= m.take(k));
    assert(m.take(k + 1).last() == m[k]);
}

proof fn lemma_fold_err(
    m: Seq<(Seq<char>, JsonValue)>,
    k: int,
    t: TargetVenue,
    numbers: Seq<(u64, String)>,
    values: Seq<(String, u64)>,
)
    requires
        0 <= k <= m.len(),
        fold_rows(m.take(k), t, numbers, values) is Err,
    ensures
        fold_rows(m, t, numbers, values) == fold_rows(m.take(k), t, numbers, values),
    decreases m.len() - k,
{
    if k == m.len() {
        assert(m.take(k) =~= m);
    } else {
        lemma_fold_step(m, k, t, numbers, values);
        lemma_fold_err(m, k + 1, t, numbers, values);
    }
}

/// The market rules that RapidX symbol information `data` gives for
/// `venue` (`binance-futures` or `okex-futures`), listed by symbol, or the
/// first refusal. `data` must be the symbol map; the rows are read in the
/// map's order; each target row's symbol (base and quote, upper-cased)
/// appears once; at least one target row must be present.
pub open spec fn sym_info_rules(
    data: JsonValue,
    venue: Seq<char>,
    numbers: Seq<(u64, String)>,
    values: Seq<(String, u64)>,
) -> Result<Seq<(Seq<char>, RuleView)>, SymInfoErrorView> {
    let e = Seq::<char>::empty();
    if venue != "binance-futures"@ && venue != "okex-futures"@ {
        Err((SymInfoErrorKind::UnsupportedVenue, e, venue, e))
    } else {
        let t = if venue == "binance-futures"@ {
            TargetVenue::Binance
        } else {
            TargetVenue::Okx
        };
        match data {
            JsonValue::Object(members) => match fold_rows(members_view(members@), t, numbers, values) {
                Err(x) => Err(x),
                Ok((rules, n)) => if n == 0 || rules.len() == 0 {
                    Err((SymInfoErrorKind::NoTargetRecords, e, venue, e))
                } else {
                    Ok(rules)
                },
            },
            _ => Err((SymInfoErrorKind::NotSymbolMap, e, e, e)),
        }
    }
}

proof fn lemma_lt_count(m: Seq<(Seq<char>, RuleView)>, k: Seq<char>, i: int)
    requires
        0 <= i <= m.len(),
        forall|j: int| 0 <= j < i ==> str_lt(#[trigger] m[j].0, k),
        forall|j: int| i <= j < m.len() ==> !str_lt(#[trigger] m[j].0, k),
    ensures
        lt_count(m, k) == i,
    decreases m.len(),
{
    if m.len() > 0 {
        let d = m.drop_last();
        if i == m.len() {
            assert forall|j: int| 0 <= j < i - 1 implies str_lt(#[trigger] d[j].0, k) by {
                assert(d[j] == m[j]);
            }
            lemma_lt_count(d, k, i - 1);
            assert(str_lt(m[m.len() - 1].0, k));
        } else {
            assert forall|j: int| 0 <= j < i implies str_lt(#[trigger] d[j].0, k) by {
                assert(d[j] == m[j]);
            }
            assert forall|j: int| i <= j < d.len() implies !str_lt(#[trigger] d[j].0, k) by {
                assert(d[j] == m[j]);
            }
            lemma_lt_count(d, k, i);
            assert(!str_lt(m[m.len() - 1].0, k));
        }
    }
}

/// Puts a rule where its symbol belongs; `false`, with the list unchanged,
/// when the symbol is already listed.
fn insert_rule(rules: &mut Vec<(String, MarketRule)>, symbol: String, rule: MarketRule) -> (r: bool)
    requires
        rules_ascending(rules_view(old(rules)@)),
    ensures
        r == !has_symbol(rules_view(old(rules)@), symbol@),
        r ==> rules_view(final(rules)@) == insert_sorted(rules_view(old(rules)@), symbol@, rule_view(rule)),
        !r ==> final(rules)@ == old(rules)@,
        rules_ascending(rules_view(final(rules)@)),
{
    let ghost m = rules_view(rules@);
    let ghost k = symbol@;
    let mut i: usize = 0;
    while i < rules.len() && str_less(rules[i].0.as_str(), symbol.as_str())
        invariant
            i <= rules@.len(),
            m == rules_view(rules@),
            k == symbol@,
            forall|j: int| 0 <= j < i ==> str_lt(#[trigger] m[j].0, k),
        decreases rules@.len() - i,
    {
        assert(m[i as int].0 == rules@[i as int].0@);
        i = i + 1;
    }
    if i < rules.len() && str_eq(rules[i].0.as_str(), symbol.as_str()) {
        assert(m[i as int].0 == k);
        return false;
    }
    proof {
        if i < m.len() {
            assert(m[i as int].0 == rules@[i as int].0@);
            lemma_str_lt_total(m[i as int].0, k);
            assert(str_lt(k, m[i as int].0));
        }
        assert forall|j: int| i <= j < m.len() implies str_lt(k, #[trigger] m[j].0) by {
            if j > i {
                assert(str_lt(m[i as int].0, m[j].0));
                lemma_str_lt_transitive(k, m[i as int].0, m[j].0);
            }
        }
        assert forall|j: int| i <= j < m.len() implies !str_lt(#[trigger] m[j].0, k) by {
            assert(str_lt(k, m[j].0));
            if str_lt(m[j].0, k) {
                lemma_str_lt_transitive(k, m[j].0, k);
                lemma_str_lt_irreflexive(k);
            }
        }
        assert(!has_symbol(m, k)) by {
            if has_symbol(m, k) {
                let j = choose|j: int| 0 <= j < m.len() && (#[trigger] m[j]).0 == k;
                if j < i {
                    assert(str_lt(m[j].0, k));
                    lemma_str_lt_irreflexive(k);
                } else {
                    assert(str_lt(k, m[j].0));
                    lemma_str_lt_irreflexive(k);
                }
            }
        }
        lemma_lt_count(m, k, i as int);
    }
    let ghost rv = rule_view(rule);
    rules.insert(i, (symbol, rule));
    proof {
        assert(rules_view(rules@) =~= m.insert(i as int, (k, rv)));
        let n = rules_view(rules@);
        assert forall|a: int, b: int| 0 <= a < b < n.len() implies str_lt(#[trigger] n[a].0, #[trigger] n[b].0) by {
            if b < i {
                assert(n[a] == m[a] && n[b] == m[b]);
            } else if b == i {
                assert(n[a] == m[a]);
            } else if a == i {
                assert(n[b] == m[b - 1]);
            } else if a < i {
                assert(n[a] == m[a] && n[b] == m[b - 1]);
                assert(str_lt(m[a].0, k) && str_lt(k, m[b - 1].0));
                lemma_str_lt_transitive(m[a].0, k, m[b - 1].0);
            } else {
                assert(n[a] == m[a - 1] && n[b] == m[b - 1]);
            }
        }
    }
    true
}

#[verifier::rlimit(40)]
/// Reads RapidX symbol information into the market rules of `venue`,
/// listed by symbol in ascending order. `numbers` holds the text of each
/// floating-point number of `data`; `values` the value of each decimal
/// text that parses.
pub fn parse_sym_info(
    data: &JsonValue,
    venue: &str,
    numbers: &Vec<(u64, String)>,
    values: &Vec<(String, u64)>,
) -> (r: Result<Vec<(String, MarketRule)>, SymInfoError>)
    ensures
        r matches Ok(v) ==> sym_info_rules(*data, venue@, numbers@, values@) == Ok::<
            Seq<(Seq<char>, RuleView)>,
            SymInfoErrorView,
        >(rules_view(v@)),
        r matches Err(e) ==> sym_info_rules(*data, venue@, numbers@, values@) == Err::<
            Seq<(Seq<char>, RuleView)>,
            SymInfoErrorView,
        >(e.view()),
        r matches Ok(v) ==> rules_ascending(rules_view(v@)),
{
    proof {
        reveal_strlit("");
        assert(""@ =~= Seq::<char>::empty());
    }
    let t = match target_venue(venue) {
        Ok(t) => t,
        Err(_) => {
            return Err(sym_err(SymInfoErrorKind::UnsupportedVenue, "", venue, ""));
        },
    };
    proof {
        reveal_strlit("binance-futures");
        reveal_strlit("okex-futures");
        assert("binance-futures"@.len() != "okex-futures"@.len());
    }
    let members = match data {
        JsonValue::Object(m) => m,
        _ => {
            return Err(sym_err(SymInfoErrorKind::NotSymbolMap, "", "", ""));
        },
    };
    let ghost mv = members_view(members@);
    let mut rules: Vec<(String, MarketRule)> = Vec::new();
    let mut n: usize = 0;
    let mut k: usize = 0;
    assert(rules_view(rules@) =~= Seq::<(Seq<char>, RuleView)>::empty());
    assert(mv.take(0) =~= Seq::<(Seq<char>, JsonValue)>::empty());
    while k < members.len()
        invariant
            k <= members@.len(),
            n <= k,
            mv == members_view(members@),
            fold_rows(mv.take(k as int), t, numbers@, values@) == Ok::<
                (Seq<(Seq<char>, RuleView)>, nat),
                SymInfoErrorView,
            >((rules_view(rules@), n as nat)),
            rules_ascending(rules_view(rules@)),
            ""@ == Seq::<char>::empty(),
            *data == JsonValue::Object(*members),
            venue@ == "binance-futures"@ || venue@ == "okex-futures"@,
            t == (if venue@ == "binance-futures"@ {
                TargetVenue::Binance
            } else {
                TargetVenue::Okx
            }),
        decreases members@.len() - k,
    {
        proof {
            lemma_fold_step(mv, k as int, t, numbers@, values@);
            assert(mv[k as int] == (members@[k as int].0@, members@[k as int].1));
        }
        let step = read_row(members[k].0.as_str(), &members[k].1, t, numbers, values);
        match step {
            RowResult::Skip => {},
            RowResult::Fail(e) => {
                proof {
                    lemma_fold_err(mv, k + 1, t, numbers@, values@);
                }
                return Err(e);
            },
            RowResult::Rule(symbol, rule) => {
                let listed = owned(symbol.as_str());
                if !insert_rule(&mut rules, symbol, rule) {
                    let e = sym_err(SymInfoErrorKind::DuplicateSymbol, listed.as_str(), "", "");
                    proof {
                        lemma_fold_err(mv, k + 1, t, numbers@, values@);
                    }
                    return Err(e);
                }
                n = n + 1;
            },
        }
        k = k + 1;
    }
    assert(mv.take(members@.len() as int) =~= mv);
    if n == 0 || rules.len() == 0 {
        return Err(sym_err(SymInfoErrorKind::NoTargetRecords, "", venue, ""));
    }
    Ok(rules)
}

/// The business code of success: the string `200000` or that number.
pub open spec fn success_code(code: JsonValue) -> bool {
    code == JsonValue::Number(JsonNumber::PosInt(200000)) || (code matches JsonValue::String(c) && c@
        == "200000"@)
}

/// Whether a business code is the one of success.
pub fn is_success_code(code: &JsonValue) -> (r: bool)
    ensures
        r == success_code(*code),
{
    match code {
        JsonValue::String(c) => str_eq(c.as_str(), "200000"),
        JsonValue::Number(n) => match n {
            JsonNumber::PosInt(v) => *v == 200000,
            _ => false,
        },
        _ => false,
    }
}

/// The rules that a whole symbol-information response gives: it must
/// carry a `code` of success and a `data` symbol map.
pub open spec fn sym_info_response_rules(
    response: JsonValue,
    venue: Seq<char>,
    numbers: Seq<(u64, String)>,
    values: Seq<(String, u64)>,
) -> Result<Seq<(Seq<char>, RuleView)>, SymInfoErrorView> {
    let e = Seq::<char>::empty();
    match json_get(response, "code"@) {
        None => Err((SymInfoErrorKind::MissingCode, e, e, e)),
        Some(code) => if !success_code(code) {
            Err((SymInfoErrorKind::BadBusinessCode, e, e, e))
        } else {
            match json_get(response, "data"@) {
                None => Err((SymInfoErrorKind::MissingData, e, e, e)),
                Some(data) => sym_info_rules(data, venue, numbers, values),
            }
        },
    }
}

/// Reads a whole RapidX symbol-information response into market rules.
pub fn parse_sym_info_response(
    response: &JsonValue,
    venue: &str,
    numbers: &Vec<(u64, String)>,
    values: &Vec<(String, u64)>,
) -> (r: Result<Vec<(String, MarketRule)>, SymInfoError>)
    ensures
        r matches Ok(v) ==> sym_info_response_rules(*response, venue@, numbers@, values@) == Ok::<
            Seq<(Seq<char>, RuleView)>,
            SymInfoErrorView,
        >(rules_view(v@)),
        r matches Err(e) ==> sym_info_response_rules(*response, venue@, numbers@, values@) == Err::<
            Seq<(Seq<char>, RuleView)>,
            SymInfoErrorView,
        >(e.view()),
        r matches Ok(v) ==> rules_ascending(rules_view(v@)),
{
    proof {
        reveal_strlit("");
        assert(""@ =~= Seq::<char>::empty());
    }
    let code = match get(response, "code") {
        Some(c) => c,
        None => {
            return Err(sym_err(SymInfoErrorKind::MissingCode, "", "", ""));
        },
    };
    if !is_success_code(code) {
        return Err(sym_err(SymInfoErrorKind::BadBusinessCode, "", "", ""));
    }
    match get(response, "data") {
        Some(data) => parse_sym_info(data, venue, numbers, values),
        None => Err(sym_err(SymInfoErrorKind::MissingData, "", "", "")),
    }
}

/// Rules read from symbol information can make a snapshot's symbol list as
/// they come: their symbols ascend, each once.
pub proof fn lemma_rules_fit_snapshot(v: Seq<(String, MarketRule)>)
    requires
        rules_ascending(rules_view(v)),
    ensures
        symbols_ascending(v),
{
    assert forall|i: int, j: int| 0 <= i < j < v.len() implies str_lt(#[trigger] v[i].0@, #[trigger] v[j].0@) by {
        assert(rules_view(v)[i].0 == v[i].0@ && rules_view(v)[j].0 == v[j].0@);
    }
}

} // verus!
