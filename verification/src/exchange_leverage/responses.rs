//! Readers of exchange account responses: leverage, fee tier, account
//! mode and instrument group, and the error codes the exchanges answer
//! with.

use vstd::prelude::*;

use crate::float_bits::{f64_integral_as_i64, f64_is_finite, f64_is_integral, integral_as_i64, is_finite, is_integral};
use crate::json::{as_array, as_bool, as_str, get, json_array, json_get, json_str, JsonNumber, JsonValue};
use crate::text::{
    ascii_lower, chars_eq, chars_of, concat2, concat3, owned, parse_i64, parse_i64_spec,
    signed_decimal, signed_decimal_string, to_ascii_lower, trim, trim_str,
};

verus! {

/// `json_i64`: an integer number that fits an `i64`, a float with an
/// integral value (saturated), or a string that parses as an `i64` once
/// trimmed.
pub open spec fn json_int(v: JsonValue) -> Option<i64> {
    match v {
        JsonValue::Number(JsonNumber::PosInt(u)) => if u <= i64::MAX {
            Some(u as i64)
        } else {
            None
        },
        JsonValue::Number(JsonNumber::NegInt(i)) => Some(i),
        JsonValue::Number(JsonNumber::Float(b)) => if is_finite(b) && is_integral(b) {
            Some(integral_as_i64(b))
        } else {
            None
        },
        JsonValue::String(s) => parse_i64_spec(trim(s@)),
        _ => None,
    }
}

/// Reads an integer out of a JSON value.
pub fn json_i64(v: &JsonValue) -> (r: Option<i64>)
    ensures
        r == json_int(*v),
{
    match v {
        JsonValue::Number(JsonNumber::PosInt(u)) => if *u <= 0x7FFF_FFFF_FFFF_FFFF {
            Some(*u as i64)
        } else {
            None
        },
        JsonValue::Number(JsonNumber::NegInt(i)) => Some(*i),
        JsonValue::Number(JsonNumber::Float(b)) => if f64_is_finite(*b) && f64_is_integral(*b) {
            Some(f64_integral_as_i64(*b))
        } else {
            None
        },
        JsonValue::String(s) => {
            let t = chars_of(trim_str(s.as_str()));
            parse_i64(t.as_slice())
        },
        _ => None,
    }
}

/// `json_i32`: `json_i64` when it fits an `i32`.
pub open spec fn json_int32(v: JsonValue) -> Option<i32> {
    match json_int(v) {
        Some(x) => if i32::MIN <= x <= i32::MAX {
            Some(x as i32)
        } else {
            None
        },
        None => None,
    }
}

/// Reads an `i32` out of a JSON value.
pub fn json_i32(v: &JsonValue) -> (r: Option<i32>)
    ensures
        r == json_int32(*v),
{
    match json_i64(v) {
        Some(x) => if -0x8000_0000 <= x && x <= 0x7FFF_FFFF {
            Some(x as i32)
        } else {
            None
        },
        None => None,
    }
}

/// The member `key`, or `null` when absent.
pub open spec fn member(v: JsonValue, key: Seq<char>) -> JsonValue {
    match json_get(v, key) {
        Some(x) => x,
        None => JsonValue::Null,
    }
}

/// `json_i64` of the member `key` (absent counts as `null`).
fn member_i64(v: &JsonValue, key: &str) -> (r: Option<i64>)
    ensures
        r == json_int(member(*v, key@)),
{
    match get(v, key) {
        Some(x) => json_i64(x),
        None => None,
    }
}

/// `json_i32` of the member `key` (absent counts as `null`).
fn member_i32(v: &JsonValue, key: &str) -> (r: Option<i32>)
    ensures
        r == json_int32(member(*v, key@)),
{
    match get(v, key) {
        Some(x) => json_i32(x),
        None => None,
    }
}

/// The text of the string member `key`, or empty when absent or not a
/// string.
pub open spec fn member_text(v: JsonValue, key: Seq<char>) -> Seq<char> {
    match json_get(v, key) {
        Some(x) => match json_str(x) {
            Some(s) => s,
            None => Seq::empty(),
        },
        None => Seq::empty(),
    }
}

fn member_str<'a>(v: &'a JsonValue, key: &str) -> (r: &'a str)
    ensures
        r@ == member_text(*v, key@),
{
    proof {
        reveal_strlit("");
    }
    match get(v, key) {
        Some(x) => match as_str(x) {
            Some(s) => s,
            None => "",
        },
        None => "",
    }
}

/// `str::eq_ignore_ascii_case`.
pub fn eq_ignore_ascii_case(a: &str, b: &str) -> (r: bool)
    ensures
        r == (ascii_lower(a@) == ascii_lower(b@)),
{
    let la = to_ascii_lower(chars_of(a).as_slice());
    let lb = to_ascii_lower(chars_of(b).as_slice());
    chars_eq(la.as_slice(), lb.as_slice())
}

/// Why an exchange response is refused.
#[derive(Debug, Clone, PartialEq, Eq)]
pub enum ResponseError {
    /// A Binance response carrying an error code (neither 0 nor 200).
    BinanceCode { response: &'static str, code: i64 },
    /// An OKX response whose code is not `"0"`.
    OkxCode { response: &'static str, code: String },
    /// A required field is absent or of the wrong kind.
    Missing { response: &'static str, field: &'static str },
    /// A field holds a value outside its domain.
    Invalid { response: &'static str, field: &'static str },
    /// No row names the symbol or instrument.
    NotFound { response: &'static str, id: String },
}

/// A refusal as plain values.
pub enum ResponseErrorView {
    BinanceCode(Seq<char>, i64),
    OkxCode(Seq<char>, Seq<char>),
    Missing(Seq<char>, Seq<char>),
    Invalid(Seq<char>, Seq<char>),
    NotFound(Seq<char>, Seq<char>),
}

impl ResponseError {
    /// The refusal as plain values.
    pub open spec fn view(self) -> ResponseErrorView {
        match self {
            ResponseError::BinanceCode { response, code } => ResponseErrorView::BinanceCode(
                response@,
                code,
            ),
            ResponseError::OkxCode { response, code } => ResponseErrorView::OkxCode(
                response@,
                code@,
            ),
            ResponseError::Missing { response, field } => ResponseErrorView::Missing(
                response@,
                field@,
            ),
            ResponseError::Invalid { response, field } => ResponseErrorView::Invalid(
                response@,
                field@,
            ),
            ResponseError::NotFound { response, id } => ResponseErrorView::NotFound(
                response@,
                id@,
            ),
        }
    }

    /// The error text.
    pub fn message(&self) -> (r: String)
        ensures
            r@ == (match self.view() {
                ResponseErrorView::BinanceCode(resp, code) => resp + " response error code="@
                    + signed_decimal(code as int),
                ResponseErrorView::OkxCode(resp, code) => resp + " response error code="@ + code,
                ResponseErrorView::Missing(resp, field) => resp + " response is missing "@ + field,
                ResponseErrorView::Invalid(resp, field) => resp + " response has invalid "@
                    + field,
                ResponseErrorView::NotFound(resp, id) => resp + " response has nothing for "@ + id,
            }),
    {
        match self {
            ResponseError::BinanceCode { response, code } => {
                let n = signed_decimal_string(*code);
                concat3(response, " response error code=", n.as_str())
            },
            ResponseError::OkxCode { response, code } => concat3(
                response,
                " response error code=",
                code.as_str(),
            ),
            ResponseError::Missing { response, field } => concat3(
                response,
                " response is missing ",
                field,
            ),
            ResponseError::Invalid { response, field } => concat3(
                response,
                " response has invalid ",
                field,
            ),
            ResponseError::NotFound { response, id } => concat3(
                response,
                " response has nothing for ",
                id.as_str(),
            ),
        }
    }
}

/// A reading, or why the response was refused.
pub type Parsed<T> = Result<T, ResponseError>;

/// A result with its refusal as plain values.
pub open spec fn result_view<T>(r: Result<T, ResponseError>) -> Result<T, ResponseErrorView> {
    match r {
        Ok(x) => Ok(x),
        Err(e) => Err(e.view()),
    }
}

/// The error code of a Binance response, when it is an error: an integer
/// `code` other than 0 and 200.
pub open spec fn binance_failure(v: JsonValue, response: Seq<char>) -> Option<ResponseErrorView> {
    match json_int(member(v, "code"@)) {
        Some(c) => if c != 0 && c != 200 {
            Some(ResponseErrorView::BinanceCode(response, c))
        } else {
            None
        },
        None => None,
    }
}

/// Refuses a Binance response that carries an error code.
pub fn ensure_binance_success(v: &JsonValue, response: &'static str) -> (r: Result<(), ResponseError>)
    ensures
        result_view(r) == (match binance_failure(*v, response@) {
            Some(e) => Err(e),
            None => Ok(()),
        }),
{
    match member_i64(v, "code") {
        Some(code) => if code != 0 && code != 200 {
            Err(ResponseError::BinanceCode { response, code })
        } else {
            Ok(())
        },
        None => Ok(()),
    }
}

/// Two identifiers equal but for ASCII case.
pub open spec fn same_id(a: Seq<char>, b: Seq<char>) -> bool {
    ascii_lower(a) == ascii_lower(b)
}

/// The position rows of a Binance leverage response: the response itself
/// when it is an array, else its `positions` array.
pub open spec fn binance_rows(v: JsonValue) -> Option<Seq<JsonValue>> {
    match json_array(v) {
        Some(rows) => Some(rows),
        None => match json_get(v, "positions"@) {
            Some(p) => json_array(p),
            None => None,
        },
    }
}

/// The leverage of the first of rows `0..n` whose `id_key` names `id`
/// (ASCII case ignored; an empty name matches when `empty_matches`) and
/// whose `leverage_key` holds an `i32`.
pub open spec fn first_leverage(
    rows: Seq<JsonValue>,
    id_key: Seq<char>,
    leverage_key: Seq<char>,
    id: Seq<char>,
    empty_matches: bool,
    n: int,
) -> Option<i32>
    decreases n,
{
    if n <= 0 {
        None
    } else {
        match first_leverage(rows, id_key, leverage_key, id, empty_matches, n - 1) {
            Some(x) => Some(x),
            None => {
                let name = member_text(rows[n - 1], id_key);
                if (empty_matches && name.len() == 0) || same_id(name, id) {
                    json_int32(member(rows[n - 1], leverage_key))
                } else {
                    None
                }
            },
        }
    }
}

/// What a Binance position-risk response says of a symbol's leverage.
pub open spec fn binance_leverage_of(v: JsonValue, symbol: Seq<char>) -> Result<i32, ResponseErrorView> {
    match binance_failure(v, "Binance leverage"@) {
        Some(e) => Err(e),
        None => match binance_rows(v) {
            None => Err(ResponseErrorView::Missing("Binance leverage"@, "positions"@)),
            Some(rows) => match first_leverage(
                rows,
                "symbol"@,
                "leverage"@,
                symbol,
                false,
                rows.len() as int,
            ) {
                Some(l) => Ok(l),
                None => Err(ResponseErrorView::NotFound("Binance leverage"@, symbol)),
            },
        },
    }
}

fn find_leverage(
    rows: &Vec<JsonValue>,
    id_key: &str,
    leverage_key: &str,
    id: &str,
    empty_matches: bool,
) -> (r: Option<i32>)
    ensures
        r == first_leverage(rows@, id_key@, leverage_key@, id@, empty_matches, rows@.len() as int),
{
    let mut i: usize = 0;
    while i < rows.len()
        invariant
            i <= rows@.len(),
            first_leverage(rows@, id_key@, leverage_key@, id@, empty_matches, i as int) is None,
        decreases rows@.len() - i,
    {
        let row = &rows[i];
        let name = member_str(row, id_key);
        if (empty_matches && name.unicode_len() == 0) || eq_ignore_ascii_case(name, id) {
            if let Some(l) = member_i32(row, leverage_key) {
                proof {
                    lemma_first_leverage_stays(
                        rows@,
                        id_key@,
                        leverage_key@,
                        id@,
                        empty_matches,
                        i + 1,
                        rows@.len() as int,
                    );
                }
                return Some(l);
            }
        }
        i = i + 1;
    }
    None
}

proof fn lemma_first_leverage_stays(
    rows: Seq<JsonValue>,
    id_key: Seq<char>,
    leverage_key: Seq<char>,
    id: Seq<char>,
    empty_matches: bool,
    n: int,
    m: int,
)
    requires
        0 <= n <= m,
    ensures
        first_leverage(rows, id_key, leverage_key, id, empty_matches, n) is Some ==> first_leverage(
            rows,
            id_key,
            leverage_key,
            id,
            empty_matches,
            m,
        ) == first_leverage(rows, id_key, leverage_key, id, empty_matches, n),
    decreases m - n,
{
    if n < m {
        lemma_first_leverage_stays(rows, id_key, leverage_key, id, empty_matches, n, m - 1);
    }
}

/// Reads a symbol's leverage from a Binance position-risk response.
pub fn parse_binance_symbol_leverage(value: &JsonValue, symbol: &str) -> (r: Parsed<i32>)
    ensures
        result_view(r) == binance_leverage_of(*value, symbol@),
{
    if let Err(e) = ensure_binance_success(value, "Binance leverage") {
        return Err(e);
    }
    let rows = match as_array(value) {
        Some(rows) => rows,
        None => match get(value, "positions") {
            Some(p) => match as_array(p) {
                Some(rows) => rows,
                None => return Err(
                    ResponseError::Missing { response: "Binance leverage", field: "positions" },
                ),
            },
            None => return Err(
                ResponseError::Missing { response: "Binance leverage", field: "positions" },
            ),
        },
    };
    match find_leverage(rows, "symbol", "leverage", symbol, false) {
        Some(l) => Ok(l),
        None => Err(ResponseError::NotFound { response: "Binance leverage", id: owned(symbol) }),
    }
}

/// What a Binance account response says of the VIP fee tier.
pub open spec fn binance_fee_tier_of(v: JsonValue) -> Result<i32, ResponseErrorView> {
    match binance_failure(v, "Binance account"@) {
        Some(e) => Err(e),
        None => match json_int32(member(v, "feeTier"@)) {
            None => Err(ResponseErrorView::Missing("Binance account"@, "feeTier"@)),
            Some(t) => if t < 0 {
                Err(ResponseErrorView::Invalid("Binance account"@, "feeTier"@))
            } else {
                Ok(t)
            },
        },
    }
}

/// Reads the VIP fee tier from a Binance account response.
pub fn parse_binance_fee_tier(value: &JsonValue) -> (r: Parsed<i32>)
    ensures
        result_view(r) == binance_fee_tier_of(*value),
{
    if let Err(e) = ensure_binance_success(value, "Binance account") {
        return Err(e);
    }
    match member_i32(value, "feeTier") {
        None => Err(ResponseError::Missing { response: "Binance account", field: "feeTier" }),
        Some(t) => if t < 0 {
            Err(ResponseError::Invalid { response: "Binance account", field: "feeTier" })
        } else {
            Ok(t)
        },
    }
}

/// What a Binance account-mode response says of Multi-Assets Mode: a
/// boolean, or the text `true` or `false` in any ASCII case.
pub open spec fn multi_assets_of(v: JsonValue) -> Result<bool, ResponseErrorView> {
    match binance_failure(v, "Binance account-mode"@) {
        Some(e) => Err(e),
        None => match json_get(v, "multiAssetsMargin"@) {
            None => Err(ResponseErrorView::Missing("Binance account-mode"@, "multiAssetsMargin"@)),
            Some(m) => match m {
                JsonValue::Bool(b) => Ok(b),
                JsonValue::String(t) => if same_id(t@, "true"@) {
                    Ok(true)
                } else if same_id(t@, "false"@) {
                    Ok(false)
                } else {
                    Err(ResponseErrorView::Invalid("Binance account-mode"@, "multiAssetsMargin"@))
                },
                _ => Err(ResponseErrorView::Invalid("Binance account-mode"@, "multiAssetsMargin"@)),
            },
        },
    }
}

/// Reads Multi-Assets Mode from a Binance account-mode response.
pub fn parse_binance_multi_assets_mode(value: &JsonValue) -> (r: Parsed<bool>)
    ensures
        result_view(r) == multi_assets_of(*value),
{
    if let Err(e) = ensure_binance_success(value, "Binance account-mode") {
        return Err(e);
    }
    let mode = match get(value, "multiAssetsMargin") {
        Some(m) => m,
        None => {
            return Err(
                ResponseError::Missing {
                    response: "Binance account-mode",
                    field: "multiAssetsMargin",
                },
            )
        },
    };
    if let Some(b) = as_bool(mode) {
        return Ok(b);
    }
    match as_str(mode) {
        Some(t) => if eq_ignore_ascii_case(t, "true") {
            Ok(true)
        } else if eq_ignore_ascii_case(t, "false") {
            Ok(false)
        } else {
            Err(
                ResponseError::Invalid {
                    response: "Binance account-mode",
                    field: "multiAssetsMargin",
                },
            )
        },
        None => Err(
            ResponseError::Invalid { response: "Binance account-mode", field: "multiAssetsMargin" },
        ),
    }
}

/// The code of an OKX response, when it is not `"0"` (an absent or
/// non-text code counts as empty).
pub open spec fn okx_failure(v: JsonValue, response: Seq<char>) -> Option<ResponseErrorView> {
    let code = member_text(v, "code"@);
    if code != "0"@ {
        Some(ResponseErrorView::OkxCode(response, code))
    } else {
        None
    }
}

/// Refuses an OKX response whose code is not `"0"`.
pub fn parse_okx_success(v: &JsonValue, response: &'static str) -> (r: Result<(), ResponseError>)
    ensures
        result_view(r) == (match okx_failure(*v, response@) {
            Some(e) => Err(e),
            None => Ok(()),
        }),
{
    let code = member_str(v, "code");
    let z = chars_of("0");
    if !chars_eq(chars_of(code).as_slice(), z.as_slice()) {
        Err(ResponseError::OkxCode { response, code: owned(code) })
    } else {
        Ok(())
    }
}

/// The `data` array of a response.
pub open spec fn data_rows(v: JsonValue) -> Option<Seq<JsonValue>> {
    match json_get(v, "data"@) {
        Some(d) => json_array(d),
        None => None,
    }
}

fn data_of(v: &JsonValue) -> (r: Option<&Vec<JsonValue>>)
    ensures
        match r {
            Some(rows) => data_rows(*v) == Some(rows@),
            None => data_rows(*v) is None,
        },
{
    match get(v, "data") {
        Some(d) => as_array(d),
        None => None,
    }
}

/// What an OKX leverage-info response says of an instrument's leverage:
/// the first row for the instrument (or without `instId`) with a lever.
pub open spec fn okx_leverage_of(v: JsonValue, inst_id: Seq<char>) -> Result<i32, ResponseErrorView> {
    match okx_failure(v, "OKX leverage"@) {
        Some(e) => Err(e),
        None => match data_rows(v) {
            None => Err(ResponseErrorView::Missing("OKX leverage"@, "data"@)),
            Some(rows) => match first_leverage(
                rows,
                "instId"@,
                "lever"@,
                inst_id,
                true,
                rows.len() as int,
            ) {
                Some(l) => Ok(l),
                None => Err(ResponseErrorView::NotFound("OKX leverage"@, inst_id)),
            },
        },
    }
}

/// Reads an instrument's leverage from an OKX leverage-info response.
pub fn parse_okx_symbol_leverage(value: &JsonValue, inst_id: &str) -> (r: Parsed<i32>)
    ensures
        result_view(r) == okx_leverage_of(*value, inst_id@),
{
    if let Err(e) = parse_okx_success(value, "OKX leverage") {
        return Err(e);
    }
    let rows = match data_of(value) {
        Some(rows) => rows,
        None => return Err(ResponseError::Missing { response: "OKX leverage", field: "data" }),
    };
    match find_leverage(rows, "instId", "lever", inst_id, true) {
        Some(l) => Ok(l),
        None => Err(ResponseError::NotFound { response: "OKX leverage", id: owned(inst_id) }),
    }
}

/// What an OKX account-config response says of the account level: the
/// text `data[0].acctLv` read as an `i64`.
pub open spec fn okx_acct_lv_of(v: JsonValue) -> Result<i64, ResponseErrorView> {
    match okx_failure(v, "OKX account config"@) {
        Some(e) => Err(e),
        None => {
            let level = match data_rows(v) {
                Some(rows) => if rows.len() > 0 {
                    match json_get(rows[0], "acctLv"@) {
                        Some(x) => json_str(x),
                        None => None,
                    }
                } else {
                    None
                },
                None => None,
            };
            match level {
                None => Err(ResponseErrorView::Missing("OKX account config"@, "data[0].acctLv"@)),
                Some(t) => match parse_i64_spec(t) {
                    Some(x) => Ok(x),
                    None => Err(ResponseErrorView::Invalid("OKX account config"@, "acctLv"@)),
                },
            }
        },
    }
}

/// Reads the account level from an OKX account-config response.
pub fn parse_okx_acct_lv(value: &JsonValue) -> (r: Parsed<i64>)
    ensures
        result_view(r) == okx_acct_lv_of(*value),
{
    if let Err(e) = parse_okx_success(value, "OKX account config") {
        return Err(e);
    }
    let missing = ResponseError::Missing { response: "OKX account config", field: "data[0].acctLv" };
    let rows = match data_of(value) {
        Some(rows) => rows,
        None => return Err(missing),
    };
    if rows.len() == 0 {
        return Err(missing);
    }
    let level = match get(&rows[0], "acctLv") {
        Some(x) => match as_str(x) {
            Some(t) => t,
            None => return Err(missing),
        },
        None => return Err(missing),
    };
    match parse_i64(chars_of(level).as_slice()) {
        Some(x) => Ok(x),
        None => Err(ResponseError::Invalid { response: "OKX account config", field: "acctLv" }),
    }
}

/// An instrument's fee group, if it names one.
pub type Group = Option<Seq<char>>;

/// The trimmed, non-empty `groupId` of an instrument row.
pub open spec fn row_group(row: JsonValue) -> Option<Seq<char>> {
    match json_get(row, "groupId"@) {
        Some(g) => match json_str(g) {
            Some(t) => if trim(t).len() > 0 {
                Some(trim(t))
            } else {
                None
            },
            None => None,
        },
        None => None,
    }
}

/// The group of the first of rows `0..n` for the instrument.
pub open spec fn first_group(rows: Seq<JsonValue>, inst_id: Seq<char>, n: int) -> Option<Group>
    decreases n,
{
    if n <= 0 {
        None
    } else {
        match first_group(rows, inst_id, n - 1) {
            Some(g) => Some(g),
            None => if same_id(member_text(rows[n - 1], "instId"@), inst_id) {
                Some(row_group(rows[n - 1]))
            } else {
                None
            },
        }
    }
}

proof fn lemma_first_group_stays(rows: Seq<JsonValue>, inst_id: Seq<char>, n: int, m: int)
    requires
        0 <= n <= m,
    ensures
        first_group(rows, inst_id, n) is Some ==> first_group(rows, inst_id, m) == first_group(
            rows,
            inst_id,
            n,
        ),
    decreases m - n,
{
    if n < m {
        lemma_first_group_stays(rows, inst_id, n, m - 1);
    }
}

/// What an OKX instruments response says of an instrument's fee group.
pub open spec fn okx_group_of(v: JsonValue, inst_id: Seq<char>) -> Result<Group, ResponseErrorView> {
    match okx_failure(v, "OKX instruments"@) {
        Some(e) => Err(e),
        None => match data_rows(v) {
            None => Err(ResponseErrorView::Missing("OKX instruments"@, "data"@)),
            Some(rows) => match first_group(rows, inst_id, rows.len() as int) {
                Some(g) => Ok(g),
                None => Err(ResponseErrorView::NotFound("OKX instruments"@, inst_id)),
            },
        },
    }
}

/// Reads an instrument's fee group from an OKX instruments response.
pub fn parse_okx_instrument_group_id(value: &JsonValue, inst_id: &str) -> (r: Parsed<Option<String>>)
    ensures
        match r {
            Ok(g) => okx_group_of(*value, inst_id@) == Ok::<Option<Seq<char>>, ResponseErrorView>(
                match g {
                    Some(t) => Some(t@),
                    None => None,
                },
            ),
            Err(e) => okx_group_of(*value, inst_id@) == Err::<Option<Seq<char>>, ResponseErrorView>(
                e.view(),
            ),
        },
{
    if let Err(e) = parse_okx_success(value, "OKX instruments") {
        return Err(e);
    }
    let rows = match data_of(value) {
        Some(rows) => rows,
        None => return Err(ResponseError::Missing { response: "OKX instruments", field: "data" }),
    };
    let mut i: usize = 0;
    while i < rows.len()
        invariant
            i <= rows@.len(),
            okx_failure(*value, "OKX instruments"@) is None,
            data_rows(*value) == Some(rows@),
            first_group(rows@, inst_id@, i as int) is None,
        decreases rows@.len() - i,
    {
        let row = &rows[i];
        if eq_ignore_ascii_case(member_str(row, "instId"), inst_id) {
            let group = match get(row, "groupId") {
                Some(g) => match as_str(g) {
                    Some(t) => {
                        let trimmed = trim_str(t);
                        if trimmed.unicode_len() > 0 {
                            Some(owned(trimmed))
                        } else {
                            None
                        }
                    },
                    None => None,
                },
                None => None,
            };
            let ghost gv: Option<Seq<char>> = match &group {
                Some(t) => Some(t@),
                None => None,
            };
            assert(gv == row_group(rows@[i as int]));
            assert(first_group(rows@, inst_id@, i + 1) == Some(gv));
            proof {
                lemma_first_group_stays(rows@, inst_id@, i + 1, rows@.len() as int);
            }
            return Ok(group);
        }
        i = i + 1;
    }
    Err(ResponseError::NotFound { response: "OKX instruments", id: owned(inst_id) })
}

} // verus!
