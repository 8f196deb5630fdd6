//! Signed requests of the Binance and OKX account APIs: ordered query
//! parameters, the signed payload and the request URL.

use vstd::prelude::*;
use vstd::utf8::encode_utf8;

use crate::auth::hmac_sha256_mac;
use crate::exchange_leverage::credentials::{AccountMode, CredentialsError, CredentialsErrorView, ExchangeCredentials};
use crate::exchange_leverage::{
    b64_standard, encode_query, form_query, hex_lower, params_view, sign_hmac_base64, sign_hmac_hex,
};
use crate::ordered::{
    lemma_str_lt_irreflexive, lemma_str_lt_total, lemma_str_lt_transitive, str_less, str_lt,
};
use crate::text::{chars_of, concat2, concat3, owned, signed_decimal, signed_decimal_string, str_eq, string_of, slice_range};

verus! {

/// Keys in strictly ascending `str` order, as a `BTreeMap` lists them.
pub open spec fn keys_ascending(m: Seq<(Seq<char>, Seq<char>)>) -> bool {
    forall|i: int, j: int| 0 <= i < j < m.len() ==> str_lt(#[trigger] m[i].0, #[trigger] m[j].0)
}

/// `BTreeMap::insert` on a listing in key order: the entry for `k` takes
/// `v`, or a new entry goes where `k` belongs.
pub open spec fn sorted_put(m: Seq<(Seq<char>, Seq<char>)>, k: Seq<char>, v: Seq<char>) -> Seq<
    (Seq<char>, Seq<char>),
>
    decreases m.len(),
{
    if m.len() == 0 {
        seq![(k, v)]
    } else if m[0].0 == k {
        m.update(0, (k, v))
    } else if str_lt(k, m[0].0) {
        seq![(k, v)] + m
    } else {
        seq![m[0]] + sorted_put(m.drop_first(), k, v)
    }
}

proof fn lemma_sorted_put_bounded(m: Seq<(Seq<char>, Seq<char>)>, k: Seq<char>, v: Seq<char>, x: Seq<char>)
    requires
        forall|j: int| 0 <= j < m.len() ==> str_lt(x, #[trigger] m[j].0),
        str_lt(x, k),
    ensures
        forall|i: int| 0 <= i < sorted_put(m, k, v).len() ==> str_lt(x, #[trigger] sorted_put(m, k, v)[i].0),
    decreases m.len(),
{
    if m.len() > 0 && m[0].0 != k && !str_lt(k, m[0].0) {
        lemma_sorted_put_bounded(m.drop_first(), k, v, x);
        let r = sorted_put(m, k, v);
        assert forall|i: int| 0 <= i < r.len() implies str_lt(x, #[trigger] r[i].0) by {
            if i > 0 {
                assert(r[i] == sorted_put(m.drop_first(), k, v)[i - 1]);
            }
        }
    }
}

/// Putting an entry keeps the keys in ascending order.
pub proof fn lemma_sorted_put_ascending(m: Seq<(Seq<char>, Seq<char>)>, k: Seq<char>, v: Seq<char>)
    requires
        keys_ascending(m),
    ensures
        keys_ascending(sorted_put(m, k, v)),
    decreases m.len(),
{
    let r = sorted_put(m, k, v);
    if m.len() == 0 {
    } else if m[0].0 == k {
        assert forall|i: int, j: int| 0 <= i < j < r.len() implies str_lt(#[trigger] r[i].0, #[trigger] r[j].0) by {
            assert(str_lt(m[i].0, m[j].0));
        }
    } else if str_lt(k, m[0].0) {
        assert forall|i: int, j: int| 0 <= i < j < r.len() implies str_lt(#[trigger] r[i].0, #[trigger] r[j].0) by {
            if i == 0 {
                if j > 1 {
                    assert(str_lt(m[0].0, m[j - 1].0));
                    lemma_str_lt_transitive(k, m[0].0, m[j - 1].0);
                }
            } else {
                assert(str_lt(m[i - 1].0, m[j - 1].0));
            }
        }
    } else {
        let rest = m.drop_first();
        assert(keys_ascending(rest)) by {
            assert forall|i: int, j: int| 0 <= i < j < rest.len() implies str_lt(#[trigger] rest[i].0, #[trigger] rest[j].0) by {
                assert(str_lt(m[i + 1].0, m[j + 1].0));
            }
        }
        lemma_sorted_put_ascending(rest, k, v);
        lemma_str_lt_total(k, m[0].0);
        assert forall|j: int| 0 <= j < rest.len() implies str_lt(m[0].0, #[trigger] rest[j].0) by {
            assert(str_lt(m[0].0, m[j + 1].0));
        }
        lemma_sorted_put_bounded(rest, k, v, m[0].0);
        let t = sorted_put(rest, k, v);
        assert forall|i: int, j: int| 0 <= i < j < r.len() implies str_lt(#[trigger] r[i].0, #[trigger] r[j].0) by {
            assert(r[j] == t[j - 1]);
            if i > 0 {
                assert(r[i] == t[i - 1]);
            }
        }
    }
}

/// Where `sorted_put` places `k`: after the `i` smaller keys, over an equal
/// key or before a larger one.
proof fn lemma_sorted_put_at(m: Seq<(Seq<char>, Seq<char>)>, k: Seq<char>, v: Seq<char>, i: int)
    requires
        0 <= i <= m.len(),
        forall|j: int| 0 <= j < i ==> str_lt(#[trigger] m[j].0, k),
        i < m.len() ==> !str_lt(m[i].0, k),
    ensures
        sorted_put(m, k, v) == (if i < m.len() && m[i].0 == k {
            m.update(i, (k, v))
        } else {
            m.insert(i, (k, v))
        }),
    decreases i,
{
    if i == 0 {
        if m.len() > 0 && m[0].0 != k {
            lemma_str_lt_total(k, m[0].0);
            assert(seq![(k, v)] + m =~= m.insert(0, (k, v)));
        } else if m.len() == 0 {
            assert(seq![(k, v)] =~= m.insert(0, (k, v)));
        }
    } else {
        lemma_str_lt_irreflexive(k);
        assert(m[0].0 != k);
        if str_lt(k, m[0].0) {
            lemma_str_lt_transitive(k, m[0].0, k);
        }
        lemma_sorted_put_at(m.drop_first(), k, v, i - 1);
        if i < m.len() && m[i].0 == k {
            assert(seq![m[0]] + m.drop_first().update(i - 1, (k, v)) =~= m.update(i, (k, v)));
        } else {
            assert(seq![m[0]] + m.drop_first().insert(i - 1, (k, v)) =~= m.insert(i, (k, v)));
        }
    }
}

/// `BTreeMap::insert(key, value)` on parameters held in key order.
pub fn put_param(params: &mut Vec<(String, String)>, key: String, value: String)
    requires
        keys_ascending(params_view(old(params)@)),
    ensures
        params_view(final(params)@) == sorted_put(params_view(old(params)@), key@, value@),
        keys_ascending(params_view(final(params)@)),
{
    let ghost m = params_view(params@);
    let mut i: usize = 0;
    while i < params.len() && str_less(params[i].0.as_str(), key.as_str())
        invariant
            m == params_view(params@),
            i <= params@.len(),
            forall|j: int| 0 <= j < i ==> str_lt(#[trigger] m[j].0, key@),
        decreases params@.len() - i,
    {
        i = i + 1;
    }
    proof {
        lemma_sorted_put_at(m, key@, value@, i as int);
        lemma_sorted_put_ascending(m, key@, value@);
    }
    if i < params.len() && str_eq(params[i].0.as_str(), key.as_str()) {
        params.set(i, (key, value));
        assert(params_view(params@) =~= m.update(i as int, (key@, value@)));
    } else {
        params.insert(i, (key, value));
        assert(params_view(params@) =~= m.insert(i as int, (key@, value@)));
    }
}

/// `s` without the copies of `c` at its end (`trim_end_matches(c)`).
pub open spec fn trim_trailing(s: Seq<char>, c: char) -> Seq<char>
    decreases s.len(),
{
    if s.len() > 0 && s.last() == c {
        trim_trailing(s.drop_last(), c)
    } else {
        s
    }
}

/// `s.trim_end_matches(c)`, owned.
pub fn trim_end_char(s: &str, c: char) -> (r: String)
    ensures
        r@ == trim_trailing(s@, c),
{
    let cs = chars_of(s);
    let mut end: usize = cs.len();
    assert(cs@.take(end as int) =~= s@);
    while end > 0 && cs[end - 1] == c
        invariant
            cs@ == s@,
            end <= cs@.len(),
            trim_trailing(s@, c) == trim_trailing(cs@.take(end as int), c),
        decreases end,
    {
        assert(cs@.take(end as int).drop_last() =~= cs@.take(end - 1));
        end = end - 1;
    }
    let kept = slice_range(cs.as_slice(), 0, end);
    string_of(kept.as_slice())
}

/// The query of a signed Binance request: the parameters with `recvWindow`
/// 5000 and the request time in milliseconds, in key order.
pub open spec fn binance_query(params: Seq<(Seq<char>, Seq<char>)>, timestamp_ms: int) -> Seq<char> {
    form_query(
        sorted_put(sorted_put(params, "recvWindow"@, "5000"@), "timestamp"@, signed_decimal(timestamp_ms)),
    )
}

/// URL of a signed Binance request: the base without trailing `/`, the path,
/// the query and its hex HMAC-SHA256 signature under the API secret.
pub open spec fn binance_signed_url_text(base: Seq<char>, path: Seq<char>, query: Seq<char>, secret: Seq<char>) -> Seq<char> {
    trim_trailing(base, '/') + path + "?"@ + query + "&signature="@ + hex_lower(
        hmac_sha256_mac(encode_utf8(secret), encode_utf8(query)),
    )
}

/// The URL of a signed Binance request of `params` (held in key order) at
/// `timestamp_ms`.
pub fn binance_signed_url(
    base: &str,
    path: &str,
    params: Vec<(String, String)>,
    timestamp_ms: i64,
    api_secret: &str,
) -> (r: String)
    requires
        keys_ascending(params_view(params@)),
    ensures
        r@ == binance_signed_url_text(base@, path@, binance_query(params_view(params@), timestamp_ms as int), api_secret@),
{
    let mut params = params;
    put_param(&mut params, owned("recvWindow"), owned("5000"));
    put_param(&mut params, owned("timestamp"), signed_decimal_string(timestamp_ms));
    let query = encode_query(&params);
    let signature = sign_hmac_hex(api_secret, query.as_str());
    let mut url = trim_end_char(base, '/');
    url.append(path);
    url.append("?");
    url.append(query.as_str());
    url.append("&signature=");
    url.append(signature.as_str());
    url
}

/// Base URL and path of the Binance set-leverage endpoint for an account
/// mode.
pub open spec fn binance_leverage_endpoint(c: crate::exchange_leverage::credentials::CredentialsView) -> (Seq<char>, Seq<char>) {
    match c.account_mode {
        AccountMode::Standard => (c.fapi_url, "/fapi/v1/leverage"@),
        AccountMode::Unified => (c.papi_url, "/papi/v1/um/leverage"@),
    }
}

/// The signed Binance request that sets a symbol's contract leverage at
/// `timestamp_ms`: its URL and the endpoint path.
pub fn binance_set_leverage_request(
    credentials: &ExchangeCredentials,
    symbol: &str,
    contract_leverage: i32,
    timestamp_ms: i64,
) -> (r: (String, &'static str))
    ensures
        r.1@ == binance_leverage_endpoint(credentials.view()).1,
        r.0@ == binance_signed_url_text(
            binance_leverage_endpoint(credentials.view()).0,
            r.1@,
            binance_query(
                sorted_put(seq![("leverage"@, signed_decimal(contract_leverage as int))], "symbol"@, symbol@),
                timestamp_ms as int,
            ),
            credentials.api_secret@,
        ),
{
    let (base, path): (&str, &'static str) = match credentials.account_mode {
        AccountMode::Standard => (credentials.fapi_url.as_str(), "/fapi/v1/leverage"),
        AccountMode::Unified => (credentials.papi_url.as_str(), "/papi/v1/um/leverage"),
    };
    let mut params: Vec<(String, String)> = Vec::new();
    proof {
        assert(params_view(params@) =~= Seq::<(Seq<char>, Seq<char>)>::empty());
    }
    put_param(&mut params, owned("leverage"), signed_decimal_string(contract_leverage as i64));
    assert(params_view(params@) =~= seq![("leverage"@, signed_decimal(contract_leverage as int))]);
    put_param(&mut params, owned("symbol"), owned(symbol));
    let url = binance_signed_url(base, path, params, timestamp_ms, credentials.api_secret.as_str());
    (url, path)
}

/// The pieces of a signed OKX request.
#[derive(Debug, Clone)]
pub struct OkxSignedRequest {
    pub url: String,
    pub api_key: String,
    pub signature: String,
    pub timestamp: String,
    pub passphrase: String,
}

/// Base64 HMAC-SHA256, under the API secret, of the OKX prehash: timestamp,
/// method, request path and body.
pub open spec fn okx_signature_text(secret: Seq<char>, timestamp: Seq<char>, method: Seq<char>, request_path: Seq<char>, body: Seq<char>) -> Seq<char> {
    b64_standard(
        hmac_sha256_mac(encode_utf8(secret), encode_utf8(timestamp + method + request_path + body)),
    )
}

/// The signed OKX request of `method` on `request_path` with `body` at
/// `timestamp`; refused when the account has no passphrase.
pub fn okx_signed_request(
    credentials: &ExchangeCredentials,
    method: &str,
    request_path: &str,
    body: &str,
    timestamp: String,
) -> (r: Result<OkxSignedRequest, CredentialsError>)
    ensures
        r is Err <==> (credentials.okx_passphrase is None || credentials.okx_passphrase->Some_0@.len() == 0),
        r matches Err(e) ==> e.view() == CredentialsErrorView::MissingEnv("OKX_PASSPHRASE"@),
        r matches Ok(q) ==> {
            &&& q.url@ == trim_trailing(credentials.okx_base_url@, '/') + request_path@
            &&& q.api_key@ == credentials.api_key@
            &&& q.signature@ == okx_signature_text(credentials.api_secret@, timestamp@, method@, request_path@, body@)
            &&& q.timestamp@ == timestamp@
            &&& Some(q.passphrase@) == (match credentials.okx_passphrase {
                Some(p) => Some(p@),
                None => None::<Seq<char>>,
            })
        },
{
    let passphrase = match &credentials.okx_passphrase {
        Some(p) => {
            if p.as_str().unicode_len() == 0 {
                return Err(CredentialsError::MissingEnv(owned("OKX_PASSPHRASE")));
            }
            p.clone()
        },
        None => return Err(CredentialsError::MissingEnv(owned("OKX_PASSPHRASE"))),
    };
    let mut prehash = timestamp.clone();
    prehash.append(method);
    prehash.append(request_path);
    prehash.append(body);
    let signature = sign_hmac_base64(credentials.api_secret.as_str(), prehash.as_str());
    let mut url = trim_end_char(credentials.okx_base_url.as_str(), '/');
    url.append(request_path);
    Ok(
        OkxSignedRequest {
            url,
            api_key: credentials.api_key.clone(),
            signature,
            timestamp,
            passphrase,
        },
    )
}

} // verus!
