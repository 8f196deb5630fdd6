//! The market feed's latest quote times and the market check made on them:
//! a venue alerts when none of its watched symbols (or, with none watched,
//! no symbol at all) has quoted within the staleness limit.

use vstd::prelude::*;

use crate::auth::{contains_text, has_text};
use crate::config::SourceConfig;
use crate::ingest::{sat_sub_i64, saturating_sub_i64};
use crate::keyed::{find_key, lemma_value_of_put, put_entry, value_of};
use crate::market_rules::unicode_upper;
use crate::monitor::{normalize_symbol, seconds_to_us, without_separators, MonitorIssue};
use crate::text::{concat2, concat3, decimal, decimal_string, owned, str_eq, trim, trim_str};

verus! {

/// Quote entries as text keys: ((venue, symbol), received at).
pub open spec fn quotes_view(v: Seq<((String, String), i64)>) -> Seq<((Seq<char>, Seq<char>), i64)> {
    v.map_values(|e: ((String, String), i64)| ((e.0.0@, e.0.1@), e.1))
}

/// Venue entries as text keys: (venue, received at).
pub open spec fn venue_times_view(v: Seq<(String, i64)>) -> Seq<(Seq<char>, i64)> {
    v.map_values(|e: (String, i64)| (e.0@, e.1))
}

/// The later of two optional times.
pub open spec fn later(a: Option<i64>, b: Option<i64>) -> Option<i64> {
    match (a, b) {
        (Some(x), Some(y)) => Some(if x >= y {
            x
        } else {
            y
        }),
        (Some(x), None) => Some(x),
        (None, y) => y,
    }
}

/// The latest quote time on `venue` among `symbols`.
pub open spec fn freshest(
    quotes: Seq<((Seq<char>, Seq<char>), i64)>,
    venue: Seq<char>,
    symbols: Seq<Seq<char>>,
) -> Option<i64>
    decreases symbols.len(),
{
    if symbols.len() == 0 {
        None
    } else {
        later(
            freshest(quotes, venue, symbols.drop_last()),
            value_of(quotes, (venue, symbols.last())),
        )
    }
}

/// Strings as text.
pub open spec fn texts(v: Seq<String>) -> Seq<Seq<char>> {
    v.map_values(|s: String| s@)
}

/// Local receive times of the latest quotes, per (venue, symbol) and per
/// venue.
pub struct MarketQuotes {
    pub latest: Vec<((String, String), i64)>,
    pub last_any: Vec<(String, i64)>,
}

fn find_quote(entries: &Vec<((String, String), i64)>, venue: &str, symbol: &str) -> (r: Option<usize>)
    ensures
        r matches Some(i) ==> i < entries@.len() && find_key(quotes_view(entries@), (venue@, symbol@))
            == i,
        r is None ==> find_key(quotes_view(entries@), (venue@, symbol@)) == -1,
{
    let ghost v = quotes_view(entries@);
    let ghost key = (venue@, symbol@);
    let mut i: usize = 0;
    while i < entries.len()
        invariant
            i <= entries@.len(),
            v == quotes_view(entries@),
            key == (venue@, symbol@),
            forall|k: int| 0 <= k < i ==> (#[trigger] v[k]).0 != key,
        decreases entries@.len() - i,
    {
        assert(v[i as int].0 == (entries@[i as int].0.0@, entries@[i as int].0.1@));
        if str_eq(entries[i].0.0.as_str(), venue) && str_eq(entries[i].0.1.as_str(), symbol) {
            proof {
                let c = choose|c: int|
                    0 <= c < v.len() && (#[trigger] v[c]).0 == key && forall|k: int|
                        0 <= k < c ==> (#[trigger] v[k]).0 != key;
                assert(v[i as int].0 == key);
                if c < i {
                    assert(v[c].0 != key);
                }
                if c > i {
                    assert(v[i as int].0 != key);
                }
            }
            return Some(i);
        }
        i = i + 1;
    }
    None
}

fn find_venue(entries: &Vec<(String, i64)>, venue: &str) -> (r: Option<usize>)
    ensures
        r matches Some(i) ==> i < entries@.len() && find_key(venue_times_view(entries@), venue@)
            == i,
        r is None ==> find_key(venue_times_view(entries@), venue@) == -1,
{
    let ghost v = venue_times_view(entries@);
    let mut i: usize = 0;
    while i < entries.len()
        invariant
            i <= entries@.len(),
            v == venue_times_view(entries@),
            forall|k: int| 0 <= k < i ==> (#[trigger] v[k]).0 != venue@,
        decreases entries@.len() - i,
    {
        assert(v[i as int].0 == entries@[i as int].0@);
        if str_eq(entries[i].0.as_str(), venue) {
            proof {
                let c = choose|c: int|
                    0 <= c < v.len() && (#[trigger] v[c]).0 == venue@ && forall|k: int|
                        0 <= k < c ==> (#[trigger] v[k]).0 != venue@;
                assert(v[i as int].0 == venue@);
                if c < i {
                    assert(v[c].0 != venue@);
                }
                if c > i {
                    assert(v[i as int].0 != venue@);
                }
            }
            return Some(i);
        }
        i = i + 1;
    }
    None
}

impl MarketQuotes {
    /// No quote received yet.
    pub fn new() -> (r: Self)
        ensures
            r.latest@.len() == 0,
            r.last_any@.len() == 0,
    {
        MarketQuotes { latest: Vec::new(), last_any: Vec::new() }
    }

    /// Records a quote of `symbol` on `venue` received at `received_ts_us`.
    pub fn record(&mut self, venue: &str, symbol: &str, received_ts_us: i64)
        ensures
            quotes_view(final(self).latest@) == put_entry(
                quotes_view(old(self).latest@),
                (venue@, symbol@),
                received_ts_us,
            ),
            venue_times_view(final(self).last_any@) == put_entry(
                venue_times_view(old(self).last_any@),
                venue@,
                received_ts_us,
            ),
    {
        let ghost q0 = quotes_view(self.latest@);
        let ghost v0 = venue_times_view(self.last_any@);
        match find_quote(&self.latest, venue, symbol) {
            Some(i) => {
                self.latest.set(i, ((venue.to_string(), symbol.to_string()), received_ts_us));
                assert(quotes_view(self.latest@) =~= q0.update(
                    i as int,
                    ((venue@, symbol@), received_ts_us),
                ));
            },
            None => {
                self.latest.push(((venue.to_string(), symbol.to_string()), received_ts_us));
                assert(quotes_view(self.latest@) =~= q0.push(((venue@, symbol@), received_ts_us)));
            },
        }
        match find_venue(&self.last_any, venue) {
            Some(i) => {
                self.last_any.set(i, (venue.to_string(), received_ts_us));
                assert(venue_times_view(self.last_any@) =~= v0.update(
                    i as int,
                    (venue@, received_ts_us),
                ));
            },
            None => {
                self.last_any.push((venue.to_string(), received_ts_us));
                assert(venue_times_view(self.last_any@) =~= v0.push((venue@, received_ts_us)));
            },
        }
    }

    /// Receive time of the venue's latest quote of any symbol.
    pub fn last_any(&self, venue: &str) -> (r: Option<i64>)
        ensures
            r == value_of(venue_times_view(self.last_any@), venue@),
    {
        match find_venue(&self.last_any, venue) {
            Some(i) => {
                assert(venue_times_view(self.last_any@)[i as int].1 == self.last_any@[i as int].1);
                Some(self.last_any[i].1)
            },
            None => None,
        }
    }

    /// Receive time of the latest quote on the venue among the watched
    /// symbols.
    pub fn latest_received(&self, venue: &str, symbols: &Vec<String>) -> (r: Option<i64>)
        ensures
            r == freshest(quotes_view(self.latest@), venue@, texts(symbols@)),
    {
        let ghost q = quotes_view(self.latest@);
        let mut best: Option<i64> = None;
        let mut i: usize = 0;
        while i < symbols.len()
            invariant
                i <= symbols@.len(),
                q == quotes_view(self.latest@),
                best == freshest(q, venue@, texts(symbols@).take(i as int)),
            decreases symbols@.len() - i,
        {
            let ghost prev = texts(symbols@).take(i as int);
            assert(texts(symbols@).take(i + 1).drop_last() =~= prev);
            assert(texts(symbols@).take(i + 1).last() == symbols@[i as int]@);
            let found = match find_quote(&self.latest, venue, symbols[i].as_str()) {
                Some(k) => {
                    assert(q[k as int].1 == self.latest@[k as int].1);
                    Some(self.latest[k].1)
                },
                None => None,
            };
            best = match (best, found) {
                (Some(x), Some(y)) => Some(if x >= y {
                    x
                } else {
                    y
                }),
                (Some(x), None) => Some(x),
                (None, y) => y,
            };
            i = i + 1;
        }
        assert(texts(symbols@).take(symbols@.len() as int) =~= texts(symbols@));
        best
    }
}

/// A recorded quote is what the store reads back for its venue and symbol,
/// and it leaves the other venues' and symbols' times as they were.
pub proof fn lemma_recorded_quote_reads_back(
    quotes: Seq<((Seq<char>, Seq<char>), i64)>,
    venues: Seq<(Seq<char>, i64)>,
    venue: Seq<char>,
    symbol: Seq<char>,
    received_ts_us: i64,
)
    ensures
        value_of(put_entry(quotes, (venue, symbol), received_ts_us), (venue, symbol)) == Some(
            received_ts_us,
        ),
        value_of(put_entry(venues, venue, received_ts_us), venue) == Some(received_ts_us),
        forall|k: (Seq<char>, Seq<char>)|
            k != (venue, symbol) ==> #[trigger] value_of(
                put_entry(quotes, (venue, symbol), received_ts_us),
                k,
            ) == value_of(quotes, k),
        forall|k: Seq<char>|
            k != venue ==> #[trigger] value_of(put_entry(venues, venue, received_ts_us), k)
                == value_of(venues, k),
{
    lemma_value_of_put(quotes, (venue, symbol), received_ts_us);
    lemma_value_of_put(venues, venue, received_ts_us);
}

/// Key, source id, category, message and initial delay of an issue.
pub type IssueFields = (Seq<char>, Seq<char>, Seq<char>, Seq<char>, u64);

/// The fields of an issue as text.
pub open spec fn issue_fields(i: MonitorIssue) -> IssueFields {
    (i.key@, i.source_id@, i.category@, i.message@, i.initial_delay_secs)
}

/// The trimmed venues of the enabled sources among the first `n`, each
/// once, in the order they first appear.
pub open spec fn watched_venues(sources: Seq<SourceConfig>, n: int) -> Seq<Seq<char>>
    decreases n,
{
    if n <= 0 {
        Seq::empty()
    } else {
        let vs = watched_venues(sources, n - 1);
        let v = trim(sources[n - 1].venue@);
        if sources[n - 1].enabled && v.len() > 0 && !vs.contains(v) {
            vs.push(v)
        } else {
            vs
        }
    }
}

/// The first `n` configured symbols normalized, blank ones dropped.
pub open spec fn watched_symbols(raw: Seq<Seq<char>>, n: int) -> Seq<Seq<char>>
    decreases n,
{
    if n <= 0 {
        Seq::empty()
    } else {
        let s = watched_symbols(raw, n - 1);
        let x = unicode_upper(without_separators(raw[n - 1]));
        if x.len() > 0 {
            s.push(x)
        } else {
            s
        }
    }
}

/// Whole seconds as microseconds, capped at `i64::MAX`.
pub open spec fn capped_us(seconds: u64) -> int {
    if seconds * 1_000_000 > i64::MAX {
        i64::MAX as int
    } else {
        seconds * 1_000_000
    }
}

/// No quote, or the latest one is older than the limit.
pub open spec fn stale(received: Option<i64>, now_us: i64, stale_us: int) -> bool {
    match received {
        None => true,
        Some(t) => sat_sub_i64(now_us as int, t as int) > stale_us,
    }
}

/// The issue of a venue whose feed went quiet: on any symbol when no
/// symbol is watched, else on the watched symbols' BBO.
pub open spec fn market_issue(venue: Seq<char>, any: bool, stale_secs: u64) -> IssueFields {
    if any {
        (
            "market"@ + ":"@ + (venue + ":any"@) + ":"@ + "global"@,
            "global"@,
            "market"@,
            "行情 BBO 在 "@ + venue + " 已超过 "@ + decimal(stale_secs as nat) + " 秒没有新消息"@,
            0,
        )
    } else {
        (
            "market"@ + ":"@ + (venue + ":bbo"@) + ":"@ + "global"@,
            "global"@,
            "market"@,
            "行情故障: "@ + venue + " 已超过 "@ + decimal(stale_secs as nat) + " 秒没有新 BBO"@,
            0,
        )
    }
}

/// The market issues of the venues, in venue order.
pub open spec fn market_issues(
    venues: Seq<Seq<char>>,
    symbols: Seq<Seq<char>>,
    quotes: Seq<((Seq<char>, Seq<char>), i64)>,
    venue_times: Seq<(Seq<char>, i64)>,
    now_us: i64,
    stale_secs: u64,
) -> Seq<IssueFields>
    decreases venues.len(),
{
    if venues.len() == 0 {
        Seq::empty()
    } else {
        let prev = market_issues(
            venues.drop_last(),
            symbols,
            quotes,
            venue_times,
            now_us,
            stale_secs,
        );
        let v = venues.last();
        let any = symbols.len() == 0;
        let received = if any {
            value_of(venue_times, v)
        } else {
            freshest(quotes, v, symbols)
        };
        if stale(received, now_us, capped_us(stale_secs)) {
            prev.push(market_issue(v, any, stale_secs))
        } else {
            prev
        }
    }
}

proof fn lemma_contains_text(v: Seq<String>, s: Seq<char>)
    ensures
        contains_text(v, s) == texts(v).contains(s),
{
    if contains_text(v, s) {
        let i = choose|i: int| 0 <= i < v.len() && (#[trigger] v[i])@ == s;
        assert(texts(v)[i] == s);
    }
    if texts(v).contains(s) {
        let i = choose|i: int| 0 <= i < texts(v).len() && texts(v)[i] == s;
        assert(v[i]@ == s);
    }
}

/// The market check: for each watched venue (enabled sources, trimmed,
/// each once) an issue when its feed is stale. With watched symbols, the
/// freshest quote among them counts; without, the latest quote of any
/// symbol. Quotes older than `market_stale_secs` (or none) are stale.
pub fn check_market(
    sources: &Vec<SourceConfig>,
    market_symbols: &Vec<String>,
    market_stale_secs: u64,
    quotes: &MarketQuotes,
    now_us: i64,
) -> (r: Vec<MonitorIssue>)
    ensures
        r@.map_values(|i: MonitorIssue| issue_fields(i)) == market_issues(
            watched_venues(sources@, sources@.len() as int),
            watched_symbols(texts(market_symbols@), market_symbols@.len() as int),
            quotes_view(quotes.latest@),
            venue_times_view(quotes.last_any@),
            now_us,
            market_stale_secs,
        ),
{
    let mut venues: Vec<String> = Vec::new();
    let mut i: usize = 0;
    while i < sources.len()
        invariant
            i <= sources@.len(),
            texts(venues@) == watched_venues(sources@, i as int),
        decreases sources@.len() - i,
    {
        let source = &sources[i];
        if source.enabled {
            let v = trim_str(source.venue.as_str());
            let seen = has_text(&venues, v);
            proof {
                lemma_contains_text(venues@, v@);
            }
            if v.unicode_len() > 0 && !seen {
                let ghost before = venues@;
                venues.push(owned(v));
                assert(texts(venues@) =~= texts(before).push(v@));
            }
        }
        i = i + 1;
    }
    let mut symbols: Vec<String> = Vec::new();
    let mut j: usize = 0;
    while j < market_symbols.len()
        invariant
            j <= market_symbols@.len(),
            texts(symbols@) == watched_symbols(texts(market_symbols@), j as int),
        decreases market_symbols@.len() - j,
    {
        let x = normalize_symbol(market_symbols[j].as_str());
        assert(texts(market_symbols@)[j as int] == market_symbols@[j as int]@);
        if x.as_str().unicode_len() > 0 {
            let ghost before = symbols@;
            symbols.push(x);
            assert(texts(symbols@) =~= texts(before).push(x@));
        }
        j = j + 1;
    }
    let stale_us = seconds_to_us(market_stale_secs);
    let ghost all = texts(venues@);
    let mut issues: Vec<MonitorIssue> = Vec::new();
    let mut k: usize = 0;
    while k < venues.len()
        invariant
            k <= venues@.len(),
            all == texts(venues@),
            stale_us == capped_us(market_stale_secs),
            issues@.map_values(|i: MonitorIssue| issue_fields(i)) == market_issues(
                all.take(k as int),
                texts(symbols@),
                quotes_view(quotes.latest@),
                venue_times_view(quotes.last_any@),
                now_us,
                market_stale_secs,
            ),
        decreases venues@.len() - k,
    {
        let v = venues[k].as_str();
        assert(all.take(k + 1).drop_last() =~= all.take(k as int));
        assert(all.take(k + 1).last() == v@);
        let any = symbols.len() == 0;
        let received = if any {
            quotes.last_any(v)
        } else {
            quotes.latest_received(v, &symbols)
        };
        let is_stale = match received {
            None => true,
            Some(t) => saturating_sub_i64(now_us, t) > stale_us,
        };
        if is_stale {
            let n = decimal_string(market_stale_secs);
            let issue = if any {
                let scope = concat2(v, ":any");
                let head = concat3("行情 BBO 在 ", v, " 已超过 ");
                let message = concat3(head.as_str(), n.as_str(), " 秒没有新消息");
                MonitorIssue::new("market", scope.as_str(), "global", message)
            } else {
                let scope = concat2(v, ":bbo");
                let head = concat3("行情故障: ", v, " 已超过 ");
                let message = concat3(head.as_str(), n.as_str(), " 秒没有新 BBO");
                MonitorIssue::new("market", scope.as_str(), "global", message)
            };
            let ghost before = issues@;
            issues.push(issue);
            assert(issues@.map_values(|i: MonitorIssue| issue_fields(i)) =~= before.map_values(
                |i: MonitorIssue| issue_fields(i),
            ).push(issue_fields(issue)));
        }
        k = k + 1;
    }
    assert(all.take(venues@.len() as int) =~= all);
    issues
}

} // verus!
