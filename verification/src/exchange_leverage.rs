//! Exchange account checks: required account modes, instrument ids, Exec
//! environment files, fee tiers and request signatures.

pub mod responses;
pub mod timestamp;
pub mod credentials;
pub mod signing;

use vstd::prelude::*;
use vstd::utf8::encode_utf8;

use base64::Engine;

use crate::auth::{hmac_sha256, hmac_sha256_mac};
use crate::market_rules::{env_get, env_lookup};
use crate::text::{
    push_char,
    all_digits, chars_eq, chars_of, chars_start_with, concat2, digits_value, is_digit, owned, slice_range,
    split_chars, split_on, split_once, split_once_chars, string_of, str_eq, trim, trim_chars,
    trim_str, views,
};

verus! {

/// Result of reading or setting a symbol's contract leverage.
#[derive(Debug, Clone)]
pub struct SymbolContractLeverageResult {
    pub source_id: String,
    pub symbol: String,
    pub contract_leverage: i32,
    pub exchange: String,
    pub endpoint: String,
    pub http_status: u16,
    pub recorded_contract_leverage: Option<i32>,
}

/// Operator-facing name of the account mode a venue requires before a
/// non-zero publish.
pub open spec fn account_mode_label(venue: Seq<char>) -> Seq<char> {
    if venue == "okex-futures"@ {
        "OKX unified account mode (acctLv 3 multi-currency margin or 4 portfolio margin)"@
    } else {
        "Binance USD-M Multi-Assets Mode"@
    }
}

/// Operator-facing name of the account mode required before a non-zero
/// publish.
pub fn required_trading_account_mode(venue: &str) -> (r: &'static str)
    ensures
        r@ == account_mode_label(venue@),
{
    if str_eq(venue, "okex-futures") {
        "OKX unified account mode (acctLv 3 multi-currency margin or 4 portfolio margin)"
    } else {
        "Binance USD-M Multi-Assets Mode"
    }
}

/// The OKX USDT swap instrument of a symbol: the symbol less a `USDT`
/// suffix (kept whole when that would leave nothing), then `-USDT-SWAP`.
pub open spec fn okx_inst_id(symbol: Seq<char>) -> Seq<char> {
    let q = "USDT"@;
    let base = if symbol.len() > q.len() && symbol.skip(symbol.len() - q.len()) == q {
        symbol.take(symbol.len() - q.len())
    } else {
        symbol
    };
    base + "-USDT-SWAP"@
}

/// The OKX USDT swap instrument id of a symbol.
pub fn okx_swap_inst_id(symbol: &str) -> (r: String)
    ensures
        r@ == okx_inst_id(symbol@),
{
    let cs = chars_of(symbol);
    let q = chars_of("USDT");
    let n = cs.len();
    let m = q.len();
    if n > m {
        let tail = slice_range(cs.as_slice(), n - m, n);
        if chars_eq(tail.as_slice(), q.as_slice()) {
            let base = string_of(slice_range(cs.as_slice(), 0, n - m).as_slice());
            assert(tail@ =~= symbol@.skip(symbol@.len() - q@.len()));
            assert(base@ =~= symbol@.take(symbol@.len() - q@.len()));
            return concat2(base.as_str(), "-USDT-SWAP");
        }
        assert(tail@ =~= symbol@.skip(symbol@.len() - q@.len()));
    }
    concat2(symbol, "-USDT-SWAP")
}

/// `value` without one pair of matching surrounding quotes (`"` or `'`).
pub open spec fn unquoted(v: Seq<char>) -> Seq<char> {
    if v.len() >= 2 && ((v[0] == '"' && v.last() == '"') || (v[0] == '\'' && v.last() == '\'')) {
        v.subrange(1, v.len() - 1)
    } else {
        v
    }
}

/// Removes one pair of matching surrounding quotes.
pub fn unquote(value: &str) -> (r: String)
    ensures
        r@ == unquoted(value@),
{
    let cs = chars_of(value);
    let n = cs.len();
    if n >= 2 && ((cs[0] == '"' && cs[n - 1] == '"') || (cs[0] == '\'' && cs[n - 1] == '\'')) {
        string_of(slice_range(cs.as_slice(), 1, n - 1).as_slice())
    } else {
        owned(value)
    }
}

/// The assignment a trimmed line of an env file makes, if any: comments
/// and blank lines make none; `export ` is dropped; the key and value are
/// split at the first `=`, the key trimmed (and required), the value
/// trimmed and unquoted.
pub open spec fn env_assignment(line: Seq<char>) -> Option<(Seq<char>, Seq<char>)> {
    let t = trim(line);
    let e = "export "@;
    let a = if t.len() >= e.len() && t.take(e.len() as int) == e {
        trim(t.skip(e.len() as int))
    } else {
        t
    };
    if t.len() == 0 || t[0] == '#' {
        None
    } else {
        match split_once(a, '=') {
            None => None,
            Some((k, v)) => if trim(k).len() == 0 {
                None
            } else {
                Some((trim(k), unquoted(trim(v))))
            },
        }
    }
}

/// The value the lines up to `n` of an env text last assign to `key`.
pub open spec fn env_value_after(lines: Seq<Seq<char>>, n: int, key: Seq<char>) -> Option<Seq<char>>
    decreases n,
{
    if n <= 0 {
        None
    } else {
        match env_assignment(lines[n - 1]) {
            Some((k, v)) => if k == key {
                Some(v)
            } else {
                env_value_after(lines, n - 1, key)
            },
            None => env_value_after(lines, n - 1, key),
        }
    }
}

fn env_line(line: &[char]) -> (r: Option<(Vec<char>, Vec<char>)>)
    ensures
        r is None <==> env_assignment(line@) is None,
        r matches Some((k, v)) ==> env_assignment(line@) == Some((k@, v@)),
{
    let t = trim_chars(line);
    if t.len() == 0 || t[0] == '#' {
        return None;
    }
    let e = chars_of("export ");
    let a = if chars_start_with(t.as_slice(), e.as_slice()) {
        trim_chars(slice_range(t.as_slice(), e.len(), t.len()).as_slice())
    } else {
        t
    };
    proof {
        if t@.len() >= e@.len() && t@.take(e@.len() as int) == e@ {
            assert(t@.subrange(e@.len() as int, t@.len() as int) =~= t@.skip(e@.len() as int));
        }
    }
    let (k, v) = match split_once_chars(a.as_slice(), '=') {
        Some(kv) => kv,
        None => {
            return None;
        },
    };
    let key = trim_chars(k.as_slice());
    if key.len() == 0 {
        return None;
    }
    let value = trim_chars(v.as_slice());
    let vs = string_of(value.as_slice());
    let uq = unquote(vs.as_str());
    Some((key, chars_of(uq.as_str())))
}

/// Sets `key` to `value` in an environment listing, replacing an earlier
/// value of the key.
fn env_set(values: &mut Vec<(String, String)>, key: String, value: String)
    ensures
        forall|k: Seq<char>|
            env_lookup(final(values)@, k) == (if k == key@ {
                Some(value@)
            } else {
                env_lookup(old(values)@, k)
            }),
{
    let mut i: usize = 0;
    while i < values.len()
        invariant
            i <= values@.len(),
            values@ == old(values)@,
            forall|j: int| 0 <= j < i ==> (#[trigger] values@[j]).0@ != key@,
        decreases values@.len() - i,
    {
        if str_eq(values[i].0.as_str(), key.as_str()) {
            let ghost before = values@;
            values.set(i, (key, value));
            proof {
                assert forall|k: Seq<char>| env_lookup(values@, k) == (if k == key@ {
                    Some(value@)
                } else {
                    env_lookup(before, k)
                }) by {
                    lemma_env_lookup_update(before, i as int, key, value, k);
                }
            }
            return;
        }
        i = i + 1;
    }
    let ghost before = values@;
    values.push((key, value));
    proof {
        assert forall|k: Seq<char>| env_lookup(values@, k) == (if k == key@ {
            Some(value@)
        } else {
            env_lookup(before, k)
        }) by {
            lemma_env_lookup_push(before, key, value, k);
        }
    }
}

proof fn lemma_env_lookup_update(
    v: Seq<(String, String)>,
    i: int,
    key: String,
    value: String,
    k: Seq<char>,
)
    requires
        0 <= i < v.len(),
        v[i].0@ == key@,
        forall|j: int| 0 <= j < i ==> (#[trigger] v[j]).0@ != key@,
    ensures
        env_lookup(v.update(i, (key, value)), k) == (if k == key@ {
            Some(value@)
        } else {
            env_lookup(v, k)
        }),
    decreases i,
{
    let w = v.update(i, (key, value));
    if i == 0 {
        assert(w.drop_first() =~= v.drop_first());
    } else {
        assert(w.drop_first() =~= v.drop_first().update(i - 1, (key, value)));
        assert forall|j: int| 0 <= j < i - 1 implies (#[trigger] v.drop_first()[j]).0@ != key@ by {
            assert(v.drop_first()[j] == v[j + 1]);
        }
        lemma_env_lookup_update(v.drop_first(), i - 1, key, value, k);
    }
}

proof fn lemma_env_lookup_push(v: Seq<(String, String)>, key: String, value: String, k: Seq<char>)
    requires
        forall|j: int| 0 <= j < v.len() ==> (#[trigger] v[j]).0@ != key@,
    ensures
        env_lookup(v.push((key, value)), k) == (if k == key@ {
            Some(value@)
        } else {
            env_lookup(v, k)
        }),
    decreases v.len(),
{
    let w = v.push((key, value));
    assert(w[v.len() as int] == (key, value));
    if v.len() == 0 {
        assert(w.drop_first() =~= Seq::<(String, String)>::empty());
        assert(w[0] == (key, value));
        assert(env_lookup(Seq::<(String, String)>::empty(), k) is None);
        assert(env_lookup(v, k) is None);
    } else {
        assert(w[0] == v[0]);
        assert(v.push((key, value)).drop_first() =~= v.drop_first().push((key, value)));
        assert forall|j: int| 0 <= j < v.drop_first().len() implies (#[trigger] v.drop_first()[j]).0@
            != key@ by {
            assert(v.drop_first()[j] == v[j + 1]);
        }
        lemma_env_lookup_push(v.drop_first(), key, value, k);
    }
}

/// The assignments of an Exec env file's text: for each key, the value its
/// last assignment gives.
pub fn parse_env_text(raw: &str) -> (r: Vec<(String, String)>)
    ensures
        forall|k: Seq<char>|
            env_lookup(r@, k) == env_value_after(
                split_on(raw@, '\n'),
                split_on(raw@, '\n').len() as int,
                k,
            ),
{
    let cs = chars_of(raw);
    let lines = split_chars(cs.as_slice(), '\n');
    let ghost ls = views(lines@);
    let mut values: Vec<(String, String)> = Vec::new();
    let mut i: usize = 0;
    while i < lines.len()
        invariant
            i <= lines@.len(),
            ls == views(lines@),
            forall|k: Seq<char>| env_lookup(values@, k) == env_value_after(ls, i as int, k),
        decreases lines@.len() - i,
    {
        assert(ls[i as int] == lines@[i as int]@);
        match env_line(lines[i].as_slice()) {
            Some((k, v)) => {
                env_set(&mut values, string_of(k.as_slice()), string_of(v.as_slice()));
            },
            None => {},
        }
        i = i + 1;
    }
    values
}

/// The trimmed value of `key`, when set and not blank.
pub open spec fn optional_env_value(values: Seq<(String, String)>, key: Seq<char>) -> Option<Seq<char>> {
    match env_lookup(values, key) {
        Some(v) => if trim(v).len() > 0 {
            Some(trim(v))
        } else {
            None
        },
        None => None,
    }
}

/// The trimmed value of `key`, when set and not blank.
pub fn optional_env(values: &Vec<(String, String)>, key: &str) -> (r: Option<String>)
    ensures
        r matches Some(v) ==> optional_env_value(values@, key@) == Some(v@),
        r is None ==> optional_env_value(values@, key@) is None,
{
    match env_get(values, key) {
        Some(v) => {
            let t = trim_str(v);
            if t.unicode_len() > 0 {
                Some(owned(t))
            } else {
                None
            }
        },
        None => None,
    }
}

/// The trimmed value of `key`; refused when missing or blank.
pub fn required_env(values: &Vec<(String, String)>, key: &str) -> (r: Result<String, ()>)
    ensures
        r is Ok <==> optional_env_value(values@, key@) is Some,
        r matches Ok(v) ==> optional_env_value(values@, key@) == Some(v@),
{
    match optional_env(values, key) {
        Some(v) => Ok(v),
        None => Err(()),
    }
}

/// The ASCII digits of `s`, in order.
pub open spec fn digits_of(s: Seq<char>) -> Seq<char> {
    s.filter(digit_pred())
}

/// `char::is_ascii_digit` as a predicate.
pub open spec fn digit_pred() -> spec_fn(char) -> bool {
    |c: char| is_digit(c)
}

/// The numeric VIP tier in an OKX fee level such as `Lv1`: its digits, read
/// as an `i32`. Refused when there are no digits or they overflow.
pub fn parse_okx_fee_level(level: &str) -> (r: Option<i32>)
    ensures
        r is Some <==> digits_of(level@).len() > 0 && digits_value(digits_of(level@)) <= i32::MAX,
        r matches Some(t) ==> t == digits_value(digits_of(level@)),
{
    let cs = chars_of(level);
    let mut digits: Vec<char> = Vec::new();
    let mut i: usize = 0;
    while i < cs.len()
        invariant
            cs@ == level@,
            i <= cs@.len(),
            digits@ == cs@.take(i as int).filter(digit_pred()),
        decreases cs@.len() - i,
    {
        proof {
            reveal(Seq::filter);
            assert(cs@.take(i + 1).drop_last() =~= cs@.take(i as int));
        }
        if '0' <= cs[i] && cs[i] <= '9' {
            digits.push(cs[i]);
        }
        i = i + 1;
    }
    assert(cs@.take(cs@.len() as int) =~= cs@);
    if digits.len() == 0 {
        return None;
    }
    let parsed = crate::auth::parse_u32(digits.as_slice());
    proof {
        assert(all_digits(digits@)) by {
            assert forall|k: int| 0 <= k < digits@.len() implies is_digit(#[trigger] digits@[k]) by {
                cs@.lemma_filter_pred(digit_pred(), k);
            }
        }
        assert(digits@[0] != '+') by {
            assert(is_digit(digits@[0]));
        }
    }
    match parsed {
        Some(v) => {
            if v > 0x7FFF_FFFF {
                None
            } else {
                Some(v as i32)
            }
        },
        None => None,
    }
}

/// Lowercase hexadecimal digit of `v < 16`.
pub open spec fn hex_digit(v: int) -> char {
    if v < 10 {
        ((v + 48) as u8) as char
    } else {
        ((v + 87) as u8) as char
    }
}

/// Lowercase hexadecimal text of bytes, two digits per byte.
pub open spec fn hex_lower(b: Seq<u8>) -> Seq<char>
    decreases b.len(),
{
    if b.len() == 0 {
        Seq::empty()
    } else {
        hex_lower(b.drop_last()) + seq![hex_digit((b.last() / 16) as int), hex_digit((b.last() % 16) as int)]
    }
}

fn hex_char(v: u8) -> (r: char)
    requires
        v < 16,
    ensures
        r == hex_digit(v as int),
{
    if v < 10 {
        (v + 48) as char
    } else {
        (v + 87) as char
    }
}

/// Two lowercase hexadecimal digits per byte, as `hex::encode` writes them.
fn hex_encode(bytes: &[u8]) -> (r: String)
    ensures
        r@ == hex_lower(bytes@),
{
    let mut out = String::new();
    let mut i: usize = 0;
    while i < bytes.len()
        invariant
            i <= bytes@.len(),
            out@ == hex_lower(bytes@.take(i as int)),
        decreases bytes@.len() - i,
    {
        let b = bytes[i];
        let ghost before = bytes@.take(i as int);
        assert(bytes@.take(i + 1).drop_last() =~= before);
        assert(bytes@.take(i + 1).last() == b);
        push_char(&mut out, hex_char(b / 16));
        push_char(&mut out, hex_char(b % 16));
        i = i + 1;
    }
    assert(bytes@.take(bytes@.len() as int) =~= bytes@);
    out
}

/// Standard base64 text (with padding) of bytes.
pub uninterp spec fn b64_standard(bytes: Seq<u8>) -> Seq<char>;

/// `base64::engine::general_purpose::STANDARD.encode`. The result is named
/// by `b64_standard`.
#[verifier::external_body]
fn b64_standard_encode(bytes: &[u8]) -> (r: String)
    ensures
        r@ == b64_standard(bytes@),
{
    base64::engine::general_purpose::STANDARD.encode(bytes)
}

/// Hex HMAC-SHA256 signature of a payload (Binance requests).
pub fn sign_hmac_hex(secret: &str, payload: &str) -> (r: String)
    ensures
        r@ == hex_lower(hmac_sha256_mac(encode_utf8(secret@), encode_utf8(payload@))),
{
    let tag = hmac_sha256(secret.as_bytes(), payload.as_bytes());
    hex_encode(&tag)
}

/// Base64 HMAC-SHA256 signature of a payload (OKX requests).
pub fn sign_hmac_base64(secret: &str, payload: &str) -> (r: String)
    ensures
        r@ == b64_standard(hmac_sha256_mac(encode_utf8(secret@), encode_utf8(payload@))),
{
    let tag = hmac_sha256(secret.as_bytes(), payload.as_bytes());
    b64_standard_encode(&tag)
}

/// Bytes the `application/x-www-form-urlencoded` serializer keeps as they
/// are.
pub open spec fn form_unchanged(b: u8) -> bool {
    b == 42 || b == 45 || b == 46 || (48 <= b <= 57) || (65 <= b <= 90) || b == 95 || (97 <= b
        <= 122)
}

/// An upper-case hexadecimal digit.
pub open spec fn hex_upper_digit(v: int) -> char {
    if v < 10 {
        ((v + 48) as u8) as char
    } else {
        ((v + 55) as u8) as char
    }
}

/// The form serialization of one byte: kept, `+` for a space, else `%XX`.
pub open spec fn form_byte(b: u8) -> Seq<char> {
    if form_unchanged(b) {
        seq![b as char]
    } else if b == 32 {
        seq!['+']
    } else {
        seq!['%', hex_upper_digit(b as int / 16), hex_upper_digit(b as int % 16)]
    }
}

/// The form serialization of a byte string.
pub open spec fn form_encode(bytes: Seq<u8>) -> Seq<char>
    decreases bytes.len(),
{
    if bytes.len() == 0 {
        Seq::empty()
    } else {
        form_encode(bytes.drop_last()) + form_byte(bytes.last())
    }
}

/// `name=value` pairs, each side form-serialized from its UTF-8 bytes,
/// joined by `&`.
pub open spec fn form_query(pairs: Seq<(Seq<char>, Seq<char>)>) -> Seq<char>
    decreases pairs.len(),
{
    if pairs.len() == 0 {
        Seq::empty()
    } else {
        let last = pairs.last();
        let item = form_encode(encode_utf8(last.0)) + "="@ + form_encode(encode_utf8(last.1));
        if pairs.len() == 1 {
            item
        } else {
            form_query(pairs.drop_last()) + "&"@ + item
        }
    }
}

/// Parameters as text pairs.
pub open spec fn params_view(params: Seq<(String, String)>) -> Seq<(Seq<char>, Seq<char>)> {
    params.map_values(|p: (String, String)| (p.0@, p.1@))
}

/// The query a `url::Url` holds after `query_pairs_mut().extend_pairs`
/// with these pairs: the form serialization of each pair, joined by `&`.
#[verifier::external_body]
fn form_urlencoded_query(params: &Vec<(String, String)>) -> (r: String)
    ensures
        r@ == form_query(params_view(params@)),
{
    let mut url = reqwest::Url::parse("http://localhost/").expect("static query URL must be valid");
    url.query_pairs_mut().extend_pairs(params.iter().map(|p| (p.0.as_str(), p.1.as_str())));
    url.query().unwrap_or_default().to_string()
}

/// The query string of a signed request, parameters in their order.
pub fn encode_query(params: &Vec<(String, String)>) -> (r: String)
    ensures
        r@ == form_query(params_view(params@)),
{
    form_urlencoded_query(params)
}

} // verus!
