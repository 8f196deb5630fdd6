//! The loopback rules of the URLs a configuration names: Redis and the Exec
//! service origins must stay on this machine.

use vstd::prelude::*;

use crate::config::{is_supported_redis_db_path, supported_redis_db_path, UrlCheck};
use crate::exchange_leverage::responses::eq_ignore_ascii_case;
use crate::text::{ascii_lower, chars_of, slice_range, str_eq, string_of};

verus! {

/// The parts of a parsed URL that the loopback rules read.
#[derive(Debug, Clone)]
pub struct UrlParts {
    pub scheme: String,
    pub username: String,
    pub password: Option<String>,
    pub host: Option<String>,
    pub path: String,
    pub query: Option<String>,
    pub fragment: Option<String>,
}

/// `UrlParts` with its strings as character sequences.
pub struct UrlPartsView {
    pub scheme: Seq<char>,
    pub username: Seq<char>,
    pub password: Option<Seq<char>>,
    pub host: Option<Seq<char>>,
    pub path: Seq<char>,
    pub query: Option<Seq<char>>,
    pub fragment: Option<Seq<char>>,
}

/// The text of an optional string.
pub open spec fn opt_text(o: Option<String>) -> Option<Seq<char>> {
    match o {
        Some(s) => Some(s@),
        None => None,
    }
}

impl UrlParts {
    pub open spec fn view(&self) -> UrlPartsView {
        UrlPartsView {
            scheme: self.scheme@,
            username: self.username@,
            password: opt_text(self.password),
            host: opt_text(self.host),
            path: self.path@,
            query: opt_text(self.query),
            fragment: opt_text(self.fragment),
        }
    }
}

/// What `url::Url::parse` makes of a text: `None` when it refuses it.
pub uninterp spec fn parsed_url(text: Seq<char>) -> Option<UrlPartsView>;

/// `reqwest::Url::parse` (the `url` crate's parser), read through `scheme`,
/// `username`, `password`, `host_str`, `path`, `query` and `fragment`. The
/// result is named by `parsed_url`.
#[verifier::external_body]
fn parse_url(text: &str) -> (r: Option<UrlParts>)
    ensures
        r matches Some(u) ==> parsed_url(text@) == Some(u.view()),
        r is None ==> parsed_url(text@) is None,
{
    match reqwest::Url::parse(text) {
        Ok(url) => Some(
            UrlParts {
                scheme: url.scheme().to_string(),
                username: url.username().to_string(),
                password: url.password().map(str::to_string),
                host: url.host_str().map(str::to_string),
                path: url.path().to_string(),
                query: url.query().map(str::to_string),
                fragment: url.fragment().map(str::to_string),
            },
        ),
        Err(_) => None,
    }
}

/// A bracket character of an IPv6 host.
pub open spec fn is_bracket(c: char) -> bool {
    c == '[' || c == ']'
}

/// `s` without brackets at its start.
pub open spec fn strip_leading_brackets(s: Seq<char>) -> Seq<char>
    decreases s.len(),
{
    if s.len() > 0 && is_bracket(s[0]) {
        strip_leading_brackets(s.drop_first())
    } else {
        s
    }
}

/// `s` without brackets at its end.
pub open spec fn strip_trailing_brackets(s: Seq<char>) -> Seq<char>
    decreases s.len(),
{
    if s.len() > 0 && is_bracket(s.last()) {
        strip_trailing_brackets(s.drop_last())
    } else {
        s
    }
}

/// `host.trim_matches(['[', ']'])`.
pub open spec fn unbracketed(host: Seq<char>) -> Seq<char> {
    strip_trailing_brackets(strip_leading_brackets(host))
}

/// The host of an Exec service origin, without brackets: the URL must parse,
/// be `http` without credentials, path, query or fragment, and have a host.
pub open spec fn http_origin_host_of(text: Seq<char>) -> Result<Seq<char>, UrlCheck> {
    match parsed_url(text) {
        None => Err(UrlCheck::Unparsable),
        Some(u) => if u.scheme != "http"@ || u.username.len() > 0 || u.password is Some || u.query is Some
            || u.fragment is Some || !(u.path.len() == 0 || u.path == "/"@) {
            Err(UrlCheck::NotOrigin)
        } else {
            match u.host {
                None => Err(UrlCheck::NoHost),
                Some(h) => Ok(unbracketed(h)),
            }
        },
    }
}

/// The host of the Redis URL, without brackets: the URL must parse, be
/// `redis` without query or fragment, name database 0-15 or none, and have a
/// host.
pub open spec fn redis_host_of(text: Seq<char>) -> Result<Seq<char>, UrlCheck> {
    match parsed_url(text) {
        None => Err(UrlCheck::Unparsable),
        Some(u) => if u.scheme != "redis"@ || u.query is Some || u.fragment is Some || !supported_redis_db_path(
            u.path,
        ) {
            Err(UrlCheck::NotOrigin)
        } else {
            match u.host {
                None => Err(UrlCheck::NoHost),
                Some(h) => Ok(unbracketed(h)),
            }
        },
    }
}

/// The verdict on an origin's host: loopback when it is `localhost` in any
/// case, or a loopback address (`ip_loopback`, which the caller finds by
/// parsing the host as an IP address).
pub open spec fn host_verdict_of(host: Seq<char>, ip_loopback: bool) -> UrlCheck {
    if ascii_lower(host) == ascii_lower("localhost"@) || ip_loopback {
        UrlCheck::Loopback
    } else {
        UrlCheck::NotLoopback
    }
}

/// `host.trim_matches(['[', ']'])`, owned.
pub fn unbracket_host(host: &str) -> (r: String)
    ensures
        r@ == unbracketed(host@),
{
    let cs = chars_of(host);
    let mut start: usize = 0;
    assert(cs@.skip(0) =~= cs@);
    while start < cs.len() && (cs[start] == '[' || cs[start] == ']')
        invariant
            cs@ == host@,
            start <= cs@.len(),
            strip_leading_brackets(host@) == strip_leading_brackets(cs@.skip(start as int)),
        decreases cs@.len() - start,
    {
        assert(cs@.skip(start as int).drop_first() =~= cs@.skip(start + 1));
        start = start + 1;
    }
    let mut end: usize = cs.len();
    let ghost lead = cs@.skip(start as int);
    assert(cs@.subrange(start as int, end as int) =~= lead);
    while end > start && (cs[end - 1] == '[' || cs[end - 1] == ']')
        invariant
            cs@ == host@,
            start <= end <= cs@.len(),
            lead == cs@.skip(start as int),
            strip_trailing_brackets(lead) == strip_trailing_brackets(cs@.subrange(start as int, end as int)),
        decreases end,
    {
        assert(cs@.subrange(start as int, end as int).drop_last() =~= cs@.subrange(start as int, end - 1));
        end = end - 1;
    }
    let kept = slice_range(cs.as_slice(), start, end);
    string_of(kept.as_slice())
}

/// The host of an Exec service origin, or what the loopback check makes of
/// the URL when it is no origin.
pub fn http_origin_host(value: &str) -> (r: Result<String, UrlCheck>)
    ensures
        r matches Ok(h) ==> http_origin_host_of(value@) == Ok::<Seq<char>, UrlCheck>(h@),
        r matches Err(c) ==> http_origin_host_of(value@) == Err::<Seq<char>, UrlCheck>(c),
{
    let url = match parse_url(value) {
        Some(u) => u,
        None => return Err(UrlCheck::Unparsable),
    };
    let plain_path = url.path.as_str().unicode_len() == 0 || str_eq(url.path.as_str(), "/");
    if !str_eq(url.scheme.as_str(), "http") || url.username.as_str().unicode_len() > 0 || url.password.is_some()
        || url.query.is_some() || url.fragment.is_some() || !plain_path {
        return Err(UrlCheck::NotOrigin);
    }
    match &url.host {
        None => Err(UrlCheck::NoHost),
        Some(h) => Ok(unbracket_host(h.as_str())),
    }
}

/// The host of the Redis URL, or what the loopback check makes of the URL
/// when it is no loopback-able Redis origin.
pub fn redis_url_host(value: &str) -> (r: Result<String, UrlCheck>)
    ensures
        r matches Ok(h) ==> redis_host_of(value@) == Ok::<Seq<char>, UrlCheck>(h@),
        r matches Err(c) ==> redis_host_of(value@) == Err::<Seq<char>, UrlCheck>(c),
{
    let url = match parse_url(value) {
        Some(u) => u,
        None => return Err(UrlCheck::Unparsable),
    };
    if !str_eq(url.scheme.as_str(), "redis") || url.query.is_some() || url.fragment.is_some()
        || !is_supported_redis_db_path(url.path.as_str()) {
        return Err(UrlCheck::NotOrigin);
    }
    match &url.host {
        None => Err(UrlCheck::NoHost),
        Some(h) => Ok(unbracket_host(h.as_str())),
    }
}

/// The loopback verdict on an origin's host; `ip_loopback` says whether the
/// host parses as a loopback IP address.
pub fn host_verdict(host: &str, ip_loopback: bool) -> (r: UrlCheck)
    ensures
        r == host_verdict_of(host@, ip_loopback),
{
    if eq_ignore_ascii_case(host, "localhost") || ip_loopback {
        UrlCheck::Loopback
    } else {
        UrlCheck::NotLoopback
    }
}

} // verus!
