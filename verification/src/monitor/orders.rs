//! The order check: undecodable records in the recent window, and live
//! orders whose status is unknown or whose activity stopped.

use vstd::prelude::*;

use crate::codec::{le8, signed64};
use crate::config::SourceConfig;
use crate::ingest::{sat_sub_i64, saturating_sub_i64, RawRecord};
use crate::keyed::{find_key, lemma_find_key_same_keys, put_entry, value_of};
use crate::model::{
    decode_order_update, decode_trade_update, decode_uniform_order, digit_bytes_value, key_ok,
    ou_exec_end, ou_flag_at, ou_head_truncated, ou_symbol_end, ou_tail_truncated, status_label,
    tu_end, tu_flag_at, tu_symbol_end, tu_truncated, uo_symbol_end, uo_tail_ok, uo_truncated,
    utf8_lossy, UniformOrderEvent, ORDER_UPDATES_CF, TRADE_UPDATES_CF, UNIFORM_ORDERS_CF,
};
use crate::monitor::market::{capped_us, issue_fields, IssueFields};
use crate::monitor::{
    is_terminal_order_status, issue, seconds_to_us, source_label, terminal_status, MonitorIssue,
};
use crate::text::{
    chars_of, chars_start_with, concat2, concat3, decimal, decimal_string, signed_decimal,
    signed_decimal_string, str_eq,
};

verus! {

/// What the check reads of an order record: client order id, symbol,
/// status, and the event, receive and update times.
pub type OrderFacts = (i64, Seq<char>, Seq<char>, i64, i64, i64);

/// The facts of a decoded order.
pub open spec fn order_facts(e: UniformOrderEvent) -> OrderFacts {
    (e.client_order_id, e.symbol@, e.status@, e.event_ts_us, e.recv_ts_us, e.update_ts_us)
}

/// Latest time per client order id.
pub type ActivityMap = Seq<(i64, i64)>;

/// Records as (key, payload) bytes.
pub open spec fn records_view(v: Seq<RawRecord>) -> Seq<(Seq<u8>, Seq<u8>)> {
    v.map_values(|r: RawRecord| (r.key@, r.value@))
}

/// A uniform order record decodes.
pub open spec fn uo_ok(r: (Seq<u8>, Seq<u8>)) -> bool {
    key_ok(r.0) && !uo_truncated(r.1) && uo_tail_ok(r.1)
}

/// The facts a decodable uniform order record encodes.
pub open spec fn uo_facts(r: (Seq<u8>, Seq<u8>)) -> OrderFacts {
    let p = r.1;
    let s = uo_symbol_end(p);
    (
        signed64(le8(p, s + 48)) as i64,
        utf8_lossy(p.subrange(10, s)),
        status_label(p[s + 91]),
        digit_bytes_value(r.0) as i64,
        signed64(le8(p, 0)) as i64,
        signed64(le8(p, s + 8)) as i64,
    )
}

/// An order update record decodes.
pub open spec fn ou_ok(r: (Seq<u8>, Seq<u8>)) -> bool {
    let p = r.1;
    key_ok(r.0) && !ou_head_truncated(p) && p[ou_flag_at(p)] <= 1 && !ou_tail_truncated(p)
        && p.len() == ou_exec_end(p) + 1
}

/// A trade update record decodes.
pub open spec fn tu_ok(r: (Seq<u8>, Seq<u8>)) -> bool {
    let p = r.1;
    key_ok(r.0) && !tu_truncated(p) && p[tu_flag_at(p)] <= 1 && p.len() == tu_end(p)
}

/// (client order id, event time) of a decodable order update record.
pub open spec fn ou_activity(r: (Seq<u8>, Seq<u8>)) -> (i64, i64) {
    (signed64(le8(r.1, ou_symbol_end(r.1) + 8)) as i64, signed64(le8(r.1, 8)) as i64)
}

/// (client order id, event time) of a decodable trade update record.
pub open spec fn tu_activity(r: (Seq<u8>, Seq<u8>)) -> (i64, i64) {
    (signed64(le8(r.1, tu_symbol_end(r.1) + 8)) as i64, signed64(le8(r.1, 8)) as i64)
}

/// The facts of the decodable uniform order records among the first `n`.
pub open spec fn uo_stream(recs: Seq<(Seq<u8>, Seq<u8>)>, n: int) -> Seq<OrderFacts>
    decreases n,
{
    if n <= 0 {
        Seq::empty()
    } else if uo_ok(recs[n - 1]) {
        uo_stream(recs, n - 1).push(uo_facts(recs[n - 1]))
    } else {
        uo_stream(recs, n - 1)
    }
}

/// The activity of the decodable order (`trades == false`) or trade
/// update records among the first `n`.
pub open spec fn activity_stream(recs: Seq<(Seq<u8>, Seq<u8>)>, trades: bool, n: int) -> ActivityMap
    decreases n,
{
    if n <= 0 {
        Seq::empty()
    } else {
        let prev = activity_stream(recs, trades, n - 1);
        let r = recs[n - 1];
        if trades && tu_ok(r) {
            prev.push(tu_activity(r))
        } else if !trades && ou_ok(r) {
            prev.push(ou_activity(r))
        } else {
            prev
        }
    }
}

/// The records among the first `n` that do not decode as `kind` (0
/// uniform order, 1 order update, 2 trade update).
pub open spec fn failures(recs: Seq<(Seq<u8>, Seq<u8>)>, kind: int, n: int) -> nat
    decreases n,
{
    if n <= 0 {
        0
    } else {
        let r = recs[n - 1];
        let ok = if kind == 0 {
            uo_ok(r)
        } else if kind == 1 {
            ou_ok(r)
        } else {
            tu_ok(r)
        };
        failures(recs, kind, n - 1) + if ok {
            0nat
        } else {
            1nat
        }
    }
}

/// The latest order of each client order id among the first `n` orders,
/// ids in first-seen order; a later order replaces an earlier one only
/// with a greater event time.
pub open spec fn latest_orders(orders: Seq<OrderFacts>, n: int) -> Seq<(i64, OrderFacts)>
    decreases n,
{
    if n <= 0 {
        Seq::empty()
    } else {
        let m = latest_orders(orders, n - 1);
        let e = orders[n - 1];
        match value_of(m, e.0) {
            Some(prev) => if e.3 > prev.3 {
                put_entry(m, e.0, e)
            } else {
                m
            },
            None => put_entry(m, e.0, e),
        }
    }
}

/// The greater of two times.
pub open spec fn max_ts(a: i64, b: i64) -> i64 {
    if a >= b {
        a
    } else {
        b
    }
}

/// The activity map with one more time for `coid`: the greater of the
/// time held and `ts`.
pub open spec fn raise(m: ActivityMap, coid: i64, ts: i64) -> ActivityMap {
    match value_of(m, coid) {
        Some(v) => put_entry(m, coid, max_ts(v, ts)),
        None => put_entry(m, coid, ts),
    }
}

/// The activity of an order: the latest of its event, receive and update
/// times.
pub open spec fn order_activity(e: OrderFacts) -> i64 {
    max_ts(max_ts(e.3, e.4), e.5)
}

/// Latest activity per client order id after the first `n` orders.
pub open spec fn orders_activity(m: ActivityMap, orders: Seq<OrderFacts>, n: int) -> ActivityMap
    decreases n,
{
    if n <= 0 {
        m
    } else {
        let e = orders[n - 1];
        raise(orders_activity(m, orders, n - 1), e.0, order_activity(e))
    }
}

/// Latest activity per client order id after the first `n` update times.
pub open spec fn updates_activity(m: ActivityMap, updates: Seq<(i64, i64)>, n: int) -> ActivityMap
    decreases n,
{
    if n <= 0 {
        m
    } else {
        let u = updates[n - 1];
        raise(updates_activity(m, updates, n - 1), u.0, u.1)
    }
}

/// Position of the first entry of `id`.
fn find_id<V>(entries: &Vec<(i64, V)>, id: i64) -> (r: Option<usize>)
    ensures
        r matches Some(i) ==> i < entries@.len() && find_key(entries@, id) == i,
        r is None ==> find_key(entries@, id) == -1,
{
    let mut i: usize = 0;
    while i < entries.len()
        invariant
            i <= entries@.len(),
            forall|k: int| 0 <= k < i ==> (#[trigger] entries@[k]).0 != id,
        decreases entries@.len() - i,
    {
        if entries[i].0 == id {
            proof {
                let c = choose|c: int|
                    0 <= c < entries@.len() && (#[trigger] entries@[c]).0 == id && forall|k: int|
                        0 <= k < c ==> (#[trigger] entries@[k]).0 != id;
                if c < i {
                    assert(entries@[c].0 != id);
                }
                if c > i {
                    assert(entries@[i as int].0 != id);
                }
            }
            return Some(i);
        }
        i = i + 1;
    }
    None
}

/// Raises the activity of `coid` to `ts`.
fn raise_activity(m: &mut Vec<(i64, i64)>, coid: i64, ts: i64)
    ensures
        final(m)@ == raise(old(m)@, coid, ts),
{
    match find_id(m, coid) {
        Some(i) => {
            let v = m[i].1;
            let x = if v >= ts {
                v
            } else {
                ts
            };
            m.set(i, (coid, x));
        },
        None => {
            m.push((coid, ts));
        },
    }
}

/// Decodes uniform order records: the decoded orders and the number of
/// records that do not decode.
fn decode_orders(recs: &Vec<RawRecord>) -> (r: (Vec<UniformOrderEvent>, usize))
    ensures
        r.0@.map_values(|e: UniformOrderEvent| order_facts(e)) == uo_stream(
            records_view(recs@),
            recs@.len() as int,
        ),
        r.1 == failures(records_view(recs@), 0, recs@.len() as int),
        r.1 <= recs@.len(),
{
    let ghost rv = records_view(recs@);
    let mut orders: Vec<UniformOrderEvent> = Vec::new();
    let mut bad: usize = 0;
    let mut i: usize = 0;
    while i < recs.len()
        invariant
            i <= recs@.len(),
            rv == records_view(recs@),
            orders@.map_values(|e: UniformOrderEvent| order_facts(e)) == uo_stream(rv, i as int),
            bad == failures(rv, 0, i as int),
            bad <= i,
        decreases recs@.len() - i,
    {
        let rec = &recs[i];
        assert(rv[i as int] == (rec.key@, rec.value@));
        match decode_uniform_order(rec.key.as_slice(), rec.value.as_slice()) {
            Ok(event) => {
                let ghost before = orders@;
                orders.push(event);
                assert(orders@.map_values(|e: UniformOrderEvent| order_facts(e)) =~= before.map_values(
                    |e: UniformOrderEvent| order_facts(e),
                ).push(order_facts(event)));
            },
            Err(_) => {
                bad = bad + 1;
            },
        }
        i = i + 1;
    }
    (orders, bad)
}

/// Decodes order (`trades == false`) or trade update records: the
/// (client order id, event time) of each that decodes and the number that
/// do not.
fn decode_activity(recs: &Vec<RawRecord>, trades: bool) -> (r: (Vec<(i64, i64)>, usize))
    ensures
        r.0@ == activity_stream(records_view(recs@), trades, recs@.len() as int),
        r.1 == failures(
            records_view(recs@),
            if trades {
                2
            } else {
                1
            },
            recs@.len() as int,
        ),
        r.1 <= recs@.len(),
{
    let ghost rv = records_view(recs@);
    let ghost kind: int = if trades {
        2
    } else {
        1
    };
    let mut out: Vec<(i64, i64)> = Vec::new();
    let mut bad: usize = 0;
    let mut i: usize = 0;
    while i < recs.len()
        invariant
            i <= recs@.len(),
            rv == records_view(recs@),
            kind == (if trades {
                2int
            } else {
                1int
            }),
            out@ == activity_stream(rv, trades, i as int),
            bad == failures(rv, kind, i as int),
            bad <= i,
        decreases recs@.len() - i,
    {
        let rec = &recs[i];
        assert(rv[i as int] == (rec.key@, rec.value@));
        if trades {
            match decode_trade_update(rec.key.as_slice(), rec.value.as_slice()) {
                Ok(event) => {
                    out.push((event.client_order_id, event.event_ts_us));
                },
                Err(_) => {
                    bad = bad + 1;
                },
            }
        } else {
            match decode_order_update(rec.key.as_slice(), rec.value.as_slice()) {
                Ok(event) => {
                    out.push((event.client_order_id, event.event_ts_us));
                },
                Err(_) => {
                    bad = bad + 1;
                },
            }
        }
        i = i + 1;
    }
    (out, bad)
}

/// The latest-order map with orders as facts.
pub open spec fn latest_view(v: Seq<(i64, usize)>, facts: Seq<OrderFacts>) -> Seq<(i64, OrderFacts)> {
    v.map_values(|e: (i64, usize)| (e.0, facts[e.1 as int]))
}

/// One step of the latest-order map kept as positions: setting the entry
/// of the next order's id (when it is new or later) gives the map of one
/// more order.
#[verifier::spinoff_prover]
#[verifier::rlimit(60)]
proof fn lemma_latest_step(v: Seq<(i64, usize)>, facts: Seq<OrderFacts>, k: int)
    requires
        0 <= k < facts.len(),
        k < usize::MAX,
        latest_view(v, facts) == latest_orders(facts, k),
        forall|j: int| 0 <= j < v.len() ==> (#[trigger] v[j]).1 < k,
    ensures
        ({
            let e = facts[k];
            let i = find_key(v, e.0);
            &&& -1 <= i < v.len()
            &&& i >= 0 ==> v[i].0 == e.0 && (if e.3 > facts[v[i].1 as int].3 {
                latest_view(v.update(i, (e.0, k as usize)), facts) == latest_orders(facts, k + 1)
            } else {
                latest_view(v, facts) == latest_orders(facts, k + 1)
            })
            &&& i < 0 ==> latest_view(v.push((e.0, k as usize)), facts) == latest_orders(
                facts,
                k + 1,
            )
        }),
{
    let e = facts[k];
    let view = latest_view(v, facts);
    crate::keyed::lemma_find_key(v, e.0);
    lemma_find_key_same_keys(v, view, e.0);
    let i = find_key(v, e.0);
    assert(find_key(view, e.0) == i);
    let next = latest_orders(facts, k + 1);
    assert(next == match value_of(view, e.0) {
        Some(p) => if e.3 > p.3 {
            put_entry(view, e.0, e)
        } else {
            view
        },
        None => put_entry(view, e.0, e),
    });
    if i >= 0 {
        assert(view[i] == (e.0, facts[v[i].1 as int]));
        assert(value_of(view, e.0) == Some(facts[v[i].1 as int]));
        assert(latest_view(v.update(i, (e.0, k as usize)), facts) =~= view.update(i, (e.0, e)));
    } else {
        assert(value_of(view, e.0) is None);
        assert(latest_view(v.push((e.0, k as usize)), facts) =~= view.push((e.0, e)));
    }
}

/// The latest order of each client order id, as positions in `orders`.
fn latest_positions(orders: &Vec<UniformOrderEvent>) -> (r: Vec<(i64, usize)>)
    ensures
        latest_view(r@, orders@.map_values(|e: UniformOrderEvent| order_facts(e))) == latest_orders(
            orders@.map_values(|e: UniformOrderEvent| order_facts(e)),
            orders@.len() as int,
        ),
        forall|j: int| 0 <= j < r@.len() ==> (#[trigger] r@[j]).1 < orders@.len(),
{
    let ghost facts = orders@.map_values(|e: UniformOrderEvent| order_facts(e));
    let mut latest: Vec<(i64, usize)> = Vec::new();
    let mut k: usize = 0;
    while k < orders.len()
        invariant
            k <= orders@.len(),
            facts == orders@.map_values(|e: UniformOrderEvent| order_facts(e)),
            latest_view(latest@, facts) == latest_orders(facts, k as int),
            forall|j: int| 0 <= j < latest@.len() ==> (#[trigger] latest@[j]).1 < k,
        decreases orders@.len() - k,
    {
        let coid = orders[k].client_order_id;
        assert(facts[k as int] == order_facts(orders@[k as int]));
        proof {
            lemma_latest_step(latest@, facts, k as int);
        }
        let ghost before = latest@;
        match find_id(&latest, coid) {
            Some(i) => {
                let prev = latest[i].1;
                assert(facts[prev as int] == order_facts(orders@[prev as int]));
                if orders[k].event_ts_us > orders[prev].event_ts_us {
                    latest.set(i, (coid, k));
                    assert(latest@ == before.update(i as int, (coid, k)));
                }
            },
            None => {
                latest.push((coid, k));
            },
        }
        assert(forall|j: int| 0 <= j < latest@.len() ==> (#[trigger] latest@[j]).1 < k + 1);
        k = k + 1;
    }
    latest
}

/// The fields of an issue of `source`: key `category:scope:source_id`,
/// message prefixed with the source's label.
pub open spec fn issue_of(
    source: SourceConfig,
    category: Seq<char>,
    scope: Seq<char>,
    message: Seq<char>,
) -> IssueFields {
    (
        category + ":"@ + scope + ":"@ + source.id@,
        source.id@,
        category,
        "["@ + source_label(source) + "] "@ + message,
        0,
    )
}

/// A status the decoder could not name.
pub open spec fn unknown_status(status: Seq<char>) -> bool {
    let p = "UNKNOWN("@;
    p.len() <= status.len() && status.take(p.len() as int) == p
}

/// The issues of one live order: an unknown status, and activity older
/// than the limit. Final orders raise none.
pub open spec fn order_issues_of(
    source: SourceConfig,
    e: OrderFacts,
    activity: i64,
    now_us: i64,
    stale_us: int,
) -> Seq<IssueFields> {
    if terminal_status(e.2) {
        Seq::empty()
    } else {
        let id = signed_decimal(e.0 as int);
        let unknown = if unknown_status(e.2) {
            seq![
                issue_of(
                    source,
                    "orders"@,
                    "unknown-status:"@ + id,
                    "订单 "@ + id + " "@ + e.1 + " 状态无法识别: "@ + e.2,
                ),
            ]
        } else {
            Seq::empty()
        };
        let age = sat_sub_i64(now_us as int, activity as int);
        let stale = if age > stale_us {
            seq![
                issue_of(
                    source,
                    "orders"@,
                    "stale:"@ + id,
                    "订单 "@ + id + " "@ + e.1 + " 处于 "@ + e.2 + " 状态，最近活动已停止约 "@ + decimal(
                        (age / 1_000_000) as nat,
                    ) + " 秒"@,
                ),
            ]
        } else {
            Seq::empty()
        };
        unknown + stale
    }
}

/// A filled, canceled or expired order is final: however long it has been
/// quiet and whatever its status text, it raises no order issue.
pub proof fn lemma_final_orders_raise_no_issue(
    source: SourceConfig,
    e: OrderFacts,
    activity: i64,
    now_us: i64,
    stale_us: int,
)
    requires
        e.2 == "FILLED"@ || e.2 == "CANCELED"@ || e.2 == "EXPIRED"@ || e.2 == "EXPIRED_IN_MATCH"@,
    ensures
        order_issues_of(source, e, activity, now_us, stale_us).len() == 0,
{
}

/// An order that is not filled, canceled or expired and has been quiet
/// longer than the limit raises a stale-order issue.
pub proof fn lemma_quiet_live_orders_raise_an_issue(
    source: SourceConfig,
    e: OrderFacts,
    activity: i64,
    now_us: i64,
    stale_us: int,
)
    requires
        !(e.2 == "FILLED"@ || e.2 == "CANCELED"@ || e.2 == "EXPIRED"@ || e.2 == "EXPIRED_IN_MATCH"@),
        sat_sub_i64(now_us as int, activity as int) > stale_us,
    ensures
        order_issues_of(source, e, activity, now_us, stale_us).len() >= 1,
        order_issues_of(source, e, activity, now_us, stale_us).last().0 == "orders:stale:"@ + signed_decimal(
            e.0 as int,
        ) + ":"@ + source.id@,
{
    reveal_strlit("orders");
    reveal_strlit("stale:");
    reveal_strlit("orders:stale:");
    reveal_strlit(":");
    assert("orders:stale:"@ =~= "orders"@ + ":"@ + "stale:"@);
}

/// The activity recorded for `coid`, else `fallback`.
pub open spec fn activity_for(act: ActivityMap, coid: i64, fallback: i64) -> i64 {
    match value_of(act, coid) {
        Some(v) => v,
        None => fallback,
    }
}

/// The issues of the first `n` latest orders, in order.
pub open spec fn latest_issues(
    source: SourceConfig,
    latest: Seq<(i64, OrderFacts)>,
    act: ActivityMap,
    now_us: i64,
    stale_us: int,
    n: int,
) -> Seq<IssueFields>
    decreases n,
{
    if n <= 0 {
        Seq::empty()
    } else {
        let e = latest[n - 1].1;
        latest_issues(source, latest, act, now_us, stale_us, n - 1) + order_issues_of(
            source,
            e,
            activity_for(act, e.0, e.3),
            now_us,
            stale_us,
        )
    }
}

/// Column families as (name, records) text and bytes.
pub type Families = Seq<(Seq<char>, Seq<(Seq<u8>, Seq<u8>)>)>;

/// The column families as text and bytes.
pub open spec fn families_view(v: Seq<(String, Vec<RawRecord>)>) -> Families {
    v.map_values(|f: (String, Vec<RawRecord>)| (f.0@, records_view(f.1@)))
}

/// The records of one column family (none when it is absent).
pub open spec fn family(families: Families, name: Seq<char>) -> Seq<(Seq<u8>, Seq<u8>)> {
    match value_of(families, name) {
        Some(r) => r,
        None => Seq::empty(),
    }
}

/// The order check over the recent records of the three order families:
/// one issue for undecodable records, then the issues of each client order
/// id's latest order, ids in first-seen order. An order's activity is the
/// latest time among its orders, order updates and trade updates.
pub open spec fn order_check(
    source: SourceConfig,
    order_stale_secs: u64,
    families: Families,
    now_us: i64,
) -> Seq<IssueFields> {
    let uo = family(families, UNIFORM_ORDERS_CF@);
    let ou = family(families, ORDER_UPDATES_CF@);
    let tu = family(families, TRADE_UPDATES_CF@);
    let orders = uo_stream(uo, uo.len() as int);
    let fails = failures(uo, 0, uo.len() as int) + failures(ou, 1, ou.len() as int) + failures(
        tu,
        2,
        tu.len() as int,
    );
    let ou_acts = activity_stream(ou, false, ou.len() as int);
    let tu_acts = activity_stream(tu, true, tu.len() as int);
    let act = updates_activity(
        updates_activity(
            orders_activity(Seq::empty(), orders, orders.len() as int),
            ou_acts,
            ou_acts.len() as int,
        ),
        tu_acts,
        tu_acts.len() as int,
    );
    let latest = latest_orders(orders, orders.len() as int);
    let head = if fails > 0 {
        seq![
            issue_of(
                source,
                "orders"@,
                "decode"@,
                "订单事件最近窗口有 "@ + decimal(fails) + " 条无法解码记录"@,
            ),
        ]
    } else {
        Seq::empty()
    };
    head + latest_issues(
        source,
        latest,
        act,
        now_us,
        capped_us(order_stale_secs),
        latest.len() as int,
    )
}

fn family_index(records: &Vec<(String, Vec<RawRecord>)>, name: &str) -> (r: Option<usize>)
    ensures
        r matches Some(i) ==> i < records@.len() && find_key(families_view(records@), name@) == i,
        r is None ==> find_key(families_view(records@), name@) == -1,
{
    let ghost v = families_view(records@);
    let mut i: usize = 0;
    while i < records.len()
        invariant
            i <= records@.len(),
            v == families_view(records@),
            forall|k: int| 0 <= k < i ==> (#[trigger] v[k]).0 != name@,
        decreases records@.len() - i,
    {
        assert(v[i as int].0 == records@[i as int].0@);
        if str_eq(records[i].0.as_str(), name) {
            proof {
                let c = choose|c: int|
                    0 <= c < v.len() && (#[trigger] v[c]).0 == name@ && forall|k: int|
                        0 <= k < c ==> (#[trigger] v[k]).0 != name@;
                assert(v[i as int].0 == name@);
                if c < i {
                    assert(v[c].0 != name@);
                }
                if c > i {
                    assert(v[i as int].0 != name@);
                }
            }
            return Some(i);
        }
        i = i + 1;
    }
    None
}

/// The records of one column family.
fn family_records<'a>(
    records: &'a Vec<(String, Vec<RawRecord>)>,
    name: &str,
    empty: &'a Vec<RawRecord>,
) -> (r: &'a Vec<RawRecord>)
    requires
        empty@.len() == 0,
    ensures
        records_view(r@) == family(families_view(records@), name@),
{
    match family_index(records, name) {
        Some(i) => {
            assert(families_view(records@)[i as int].1 == records_view(records@[i as int].1@));
            &records[i].1
        },
        None => {
            assert(records_view(empty@) =~= Seq::<(Seq<u8>, Seq<u8>)>::empty());
            empty
        },
    }
}

/// The issues of one live order.
fn issues_of_order(
    source: &SourceConfig,
    e: &UniformOrderEvent,
    activity: i64,
    now_us: i64,
    stale_us: i64,
    out: &mut Vec<MonitorIssue>,
)
    requires
        stale_us >= 0,
    ensures
        final(out)@.map_values(|i: MonitorIssue| issue_fields(i)) == old(out)@.map_values(
            |i: MonitorIssue| issue_fields(i),
        ) + order_issues_of(*source, order_facts(*e), activity, now_us, stale_us as int),
{
    let ghost start = old(out)@.map_values(|i: MonitorIssue| issue_fields(i));
    if is_terminal_order_status(e.status.as_str()) {
        assert(start + Seq::<IssueFields>::empty() =~= start);
        return;
    }
    let id = signed_decimal_string(e.client_order_id);
    let ghost mut added: Seq<IssueFields> = Seq::empty();
    let status_chars = chars_of(e.status.as_str());
    let prefix = chars_of("UNKNOWN(");
    if chars_start_with(status_chars.as_slice(), prefix.as_slice()) {
        let scope = concat2("unknown-status:", id.as_str());
        let m1 = concat3("订单 ", id.as_str(), " ");
        let m2 = concat3(m1.as_str(), e.symbol.as_str(), " 状态无法识别: ");
        let message = concat2(m2.as_str(), e.status.as_str());
        let x = issue("orders", scope.as_str(), source, message.as_str());
        let ghost before = out@;
        out.push(x);
        assert(out@.map_values(|i: MonitorIssue| issue_fields(i)) =~= before.map_values(
            |i: MonitorIssue| issue_fields(i),
        ).push(issue_fields(x)));
        proof {
            added = added.push(issue_fields(x));
        }
    }
    let age = saturating_sub_i64(now_us, activity);
    if age > stale_us {
        let scope = concat2("stale:", id.as_str());
        let age_us: u64 = age as u64;
        let secs = decimal_string(age_us / 1_000_000);
        let m1 = concat3("订单 ", id.as_str(), " ");
        let m2 = concat3(m1.as_str(), e.symbol.as_str(), " 处于 ");
        let m3 = concat3(m2.as_str(), e.status.as_str(), " 状态，最近活动已停止约 ");
        let message = concat3(m3.as_str(), secs.as_str(), " 秒");
        let x = issue("orders", scope.as_str(), source, message.as_str());
        let ghost before = out@;
        out.push(x);
        assert(out@.map_values(|i: MonitorIssue| issue_fields(i)) =~= before.map_values(
            |i: MonitorIssue| issue_fields(i),
        ).push(issue_fields(x)));
        proof {
            added = added.push(issue_fields(x));
        }
    }
    assert(added =~= order_issues_of(*source, order_facts(*e), activity, now_us, stale_us as int));
    assert(out@.map_values(|i: MonitorIssue| issue_fields(i)) =~= start + added);
}

/// The order check of one source over its recent records, by column
/// family (`uniform_orders`, `order_updates`, `trade_updates`; others are
/// ignored): an issue when records do not decode, then for each client
/// order id's latest live order an issue for an unknown status and one
/// when its latest activity is older than `order_stale_secs`.
#[verifier::spinoff_prover]
#[verifier::rlimit(60)]
pub fn check_orders(
    source: &SourceConfig,
    order_stale_secs: u64,
    records: &Vec<(String, Vec<RawRecord>)>,
    now_us: i64,
) -> (r: Vec<MonitorIssue>)
    requires
        family(families_view(records@), UNIFORM_ORDERS_CF@).len() + family(
            families_view(records@),
            ORDER_UPDATES_CF@,
        ).len() + family(families_view(records@), TRADE_UPDATES_CF@).len() <= usize::MAX,
    ensures
        r@.map_values(|i: MonitorIssue| issue_fields(i)) == order_check(
            *source,
            order_stale_secs,
            families_view(records@),
            now_us,
        ),
{
    let empty: Vec<RawRecord> = Vec::new();
    let uo = family_records(records, UNIFORM_ORDERS_CF, &empty);
    let ou = family_records(records, ORDER_UPDATES_CF, &empty);
    let tu = family_records(records, TRADE_UPDATES_CF, &empty);
    let (orders, f0) = decode_orders(uo);
    let (ou_acts, f1) = decode_activity(ou, false);
    let (tu_acts, f2) = decode_activity(tu, true);
    assert(records_view(uo@).len() == uo@.len());
    assert(records_view(ou@).len() == ou@.len());
    assert(records_view(tu@).len() == tu@.len());
    let failed = f0 + f1 + f2;
    let ghost facts = orders@.map_values(|e: UniformOrderEvent| order_facts(e));
    let mut act: Vec<(i64, i64)> = Vec::new();
    let mut k: usize = 0;
    while k < orders.len()
        invariant
            k <= orders@.len(),
            facts == orders@.map_values(|e: UniformOrderEvent| order_facts(e)),
            act@ == orders_activity(Seq::empty(), facts, k as int),
        decreases orders@.len() - k,
    {
        let e = &orders[k];
        assert(facts[k as int] == order_facts(*e));
        let a = if e.event_ts_us >= e.recv_ts_us {
            e.event_ts_us
        } else {
            e.recv_ts_us
        };
        let b = if a >= e.update_ts_us {
            a
        } else {
            e.update_ts_us
        };
        raise_activity(&mut act, e.client_order_id, b);
        k = k + 1;
    }
    let ghost after_orders = act@;
    let mut k: usize = 0;
    while k < ou_acts.len()
        invariant
            k <= ou_acts@.len(),
            act@ == updates_activity(after_orders, ou_acts@, k as int),
        decreases ou_acts@.len() - k,
    {
        raise_activity(&mut act, ou_acts[k].0, ou_acts[k].1);
        k = k + 1;
    }
    let ghost after_updates = act@;
    let mut k: usize = 0;
    while k < tu_acts.len()
        invariant
            k <= tu_acts@.len(),
            act@ == updates_activity(after_updates, tu_acts@, k as int),
        decreases tu_acts@.len() - k,
    {
        raise_activity(&mut act, tu_acts[k].0, tu_acts[k].1);
        k = k + 1;
    }
    let latest = latest_positions(&orders);
    let mut issues: Vec<MonitorIssue> = Vec::new();
    if failed > 0 {
        let n = decimal_string(failed as u64);
        let message = concat3("订单事件最近窗口有 ", n.as_str(), " 条无法解码记录");
        let x = issue("orders", "decode", source, message.as_str());
        issues.push(x);
        assert(issues@.map_values(|i: MonitorIssue| issue_fields(i)) =~= seq![issue_fields(x)]);
    } else {
        assert(issues@.map_values(|i: MonitorIssue| issue_fields(i)) =~= Seq::<IssueFields>::empty());
    }
    let ghost head = issues@.map_values(|i: MonitorIssue| issue_fields(i));
    let ghost lv = latest_view(latest@, facts);
    let stale_us = seconds_to_us(order_stale_secs);
    let mut j: usize = 0;
    while j < latest.len()
        invariant
            j <= latest@.len(),
            facts == orders@.map_values(|e: UniformOrderEvent| order_facts(e)),
            lv == latest_view(latest@, facts),
            forall|q: int| 0 <= q < latest@.len() ==> (#[trigger] latest@[q]).1 < orders@.len(),
            stale_us == capped_us(order_stale_secs),
            stale_us >= 0,
            issues@.map_values(|i: MonitorIssue| issue_fields(i)) == head + latest_issues(
                *source,
                lv,
                act@,
                now_us,
                stale_us as int,
                j as int,
            ),
        decreases latest@.len() - j,
    {
        let idx = latest[j].1;
        let e = &orders[idx];
        assert(lv[j as int].1 == facts[idx as int]);
        assert(facts[idx as int] == order_facts(*e));
        let activity = match find_id(&act, e.client_order_id) {
            Some(a) => act[a].1,
            None => e.event_ts_us,
        };
        assert(activity == activity_for(act@, e.client_order_id, e.event_ts_us));
        issues_of_order(source, e, activity, now_us, stale_us, &mut issues);
        j = j + 1;
    }
    proof {
        let fv = families_view(records@);
        let uv = family(fv, UNIFORM_ORDERS_CF@);
        let ov = family(fv, ORDER_UPDATES_CF@);
        let tv = family(fv, TRADE_UPDATES_CF@);
        assert(facts == uo_stream(uv, uv.len() as int));
        assert(ou_acts@ == activity_stream(ov, false, ov.len() as int));
        assert(tu_acts@ == activity_stream(tv, true, tv.len() as int));
        assert(failed == failures(uv, 0, uv.len() as int) + failures(ov, 1, ov.len() as int)
            + failures(tv, 2, tv.len() as int));
        assert(facts.len() == orders@.len());
        assert(act@ == updates_activity(
            updates_activity(
                orders_activity(Seq::empty(), facts, facts.len() as int),
                ou_acts@,
                ou_acts@.len() as int,
            ),
            tu_acts@,
            tu_acts@.len() as int,
        ));
        assert(lv == latest_orders(facts, facts.len() as int));
        assert(lv.len() == latest@.len());
    }
    issues
}

} // verus!
