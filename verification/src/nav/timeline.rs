//! The order in which a NAV timeline replays its sources' events: by time,
//! snapshots before fills, then by source id, event time and record key,
//! equal keys in the order they were collected.

use vstd::prelude::*;

use crate::nav::prepare::PreparedFill;
use crate::nav::{
    is_system_position_close, strategy_from_from_key, strategy_of_from_key, system_position_close, UNALLOCATED_STRATEGY,
};
use crate::text::owned;
use crate::ordered::{lemma_str_lt_irreflexive, lemma_str_lt_total, lemma_str_lt_transitive, str_less, str_lt};

verus! {

/// One event of a NAV timeline: a source's snapshot, or one of its fills
/// with the time and record key of the order event it came from.
#[derive(Debug, Clone)]
pub enum TimelineEvent {
    Snapshot { source_index: usize, source_id: String, ts_us: i64 },
    Fill { source_index: usize, source_id: String, fill: PreparedFill, event_ts_us: i64, record_key: String },
}

/// When the event happens: the snapshot time or the fill time.
pub open spec fn event_time(e: TimelineEvent) -> i64 {
    match e {
        TimelineEvent::Snapshot { ts_us, .. } => ts_us,
        TimelineEvent::Fill { fill, .. } => fill.fill_ts_us,
    }
}

/// Snapshots rank before fills at the same time.
pub open spec fn event_rank(e: TimelineEvent) -> int {
    match e {
        TimelineEvent::Snapshot { .. } => 0,
        TimelineEvent::Fill { .. } => 1,
    }
}

/// The source the event belongs to.
pub open spec fn source_of(e: TimelineEvent) -> Seq<char> {
    match e {
        TimelineEvent::Snapshot { source_id, .. } => source_id@,
        TimelineEvent::Fill { source_id, .. } => source_id@,
    }
}

/// The time that breaks ties: the order event's time for a fill, the
/// least `i64` for a snapshot.
pub open spec fn tie_time(e: TimelineEvent) -> i64 {
    match e {
        TimelineEvent::Snapshot { .. } => i64::MIN,
        TimelineEvent::Fill { event_ts_us, .. } => event_ts_us,
    }
}

/// The record key that breaks the last ties (empty for a snapshot).
pub open spec fn tie_key(e: TimelineEvent) -> Seq<char> {
    match e {
        TimelineEvent::Snapshot { .. } => Seq::empty(),
        TimelineEvent::Fill { record_key, .. } => record_key@,
    }
}

/// Strict replay order of two events' keys.
pub open spec fn event_lt(a: TimelineEvent, b: TimelineEvent) -> bool {
    ||| event_time(a) < event_time(b)
    ||| event_time(a) == event_time(b) && event_rank(a) < event_rank(b)
    ||| event_time(a) == event_time(b) && event_rank(a) == event_rank(b) && str_lt(source_of(a), source_of(b))
    ||| event_time(a) == event_time(b) && event_rank(a) == event_rank(b) && source_of(a) == source_of(b)
        && tie_time(a) < tie_time(b)
    ||| event_time(a) == event_time(b) && event_rank(a) == event_rank(b) && source_of(a) == source_of(b)
        && tie_time(a) == tie_time(b) && str_lt(tie_key(a), tie_key(b))
}

/// Two events share their replay key.
pub open spec fn same_event_key(a: TimelineEvent, b: TimelineEvent) -> bool {
    event_time(a) == event_time(b) && event_rank(a) == event_rank(b) && source_of(a) == source_of(b)
        && tie_time(a) == tie_time(b) && tie_key(a) == tie_key(b)
}

/// Event `i` is replayed before event `j`: by key, and by position among
/// equal keys (a stable sort).
pub open spec fn timeline_before(events: Seq<TimelineEvent>, i: int, j: int) -> bool {
    event_lt(events[i], events[j]) || (same_event_key(events[i], events[j]) && i < j)
}

/// `ord` lists each position of `events` once, in replay order.
pub open spec fn is_timeline_order(events: Seq<TimelineEvent>, ord: Seq<int>) -> bool {
    &&& ord.len() == events.len()
    &&& forall|p: int| 0 <= p < ord.len() ==> 0 <= #[trigger] ord[p] < events.len()
    &&& forall|p: int, q: int| 0 <= p < q < ord.len() ==> timeline_before(events, #[trigger] ord[p], #[trigger] ord[q])
}

proof fn lemma_timeline_before_irreflexive(events: Seq<TimelineEvent>, i: int)
    ensures
        !timeline_before(events, i, i),
{
    lemma_str_lt_irreflexive(source_of(events[i]));
    lemma_str_lt_irreflexive(tie_key(events[i]));
}

proof fn lemma_timeline_before_transitive(events: Seq<TimelineEvent>, i: int, j: int, k: int)
    requires
        timeline_before(events, i, j),
        timeline_before(events, j, k),
    ensures
        timeline_before(events, i, k),
{
    let (a, b, c) = (events[i], events[j], events[k]);
    if str_lt(source_of(a), source_of(b)) && str_lt(source_of(b), source_of(c)) {
        lemma_str_lt_transitive(source_of(a), source_of(b), source_of(c));
    }
    if str_lt(tie_key(a), tie_key(b)) && str_lt(tie_key(b), tie_key(c)) {
        lemma_str_lt_transitive(tie_key(a), tie_key(b), tie_key(c));
    }
}

proof fn lemma_timeline_before_total(events: Seq<TimelineEvent>, i: int, j: int)
    requires
        i != j,
    ensures
        timeline_before(events, i, j) || timeline_before(events, j, i),
{
    lemma_str_lt_total(source_of(events[i]), source_of(events[j]));
    lemma_str_lt_total(tie_key(events[i]), tie_key(events[j]));
}

/// The replay order is unique: two orders of the same timeline events that
/// both list every position once, in replay order, are the same order.
pub proof fn lemma_timeline_order_unique(events: Seq<TimelineEvent>, a: Seq<int>, b: Seq<int>)
    requires
        is_timeline_order(events, a),
        is_timeline_order(events, b),
    ensures
        a == b,
{
    lemma_timeline_order_distinct(events, a);
    lemma_timeline_order_distinct(events, b);
    lemma_sorted_same_elements(events, a, b);
}

proof fn lemma_timeline_order_distinct(events: Seq<TimelineEvent>, a: Seq<int>)
    requires
        is_timeline_order(events, a),
    ensures
        forall|p: int, q: int| 0 <= p < q < a.len() ==> a[p] != a[q],
        forall|x: int| 0 <= x < events.len() ==> a.contains(x),
{
    assert forall|p: int, q: int| 0 <= p < q < a.len() implies a[p] != a[q] by {
        assert(timeline_before(events, a[p], a[q]));
        lemma_timeline_before_irreflexive(events, a[p]);
    }
    assert forall|x: int| 0 <= x < events.len() implies a.contains(x) by {
        lemma_positions_all_listed(a, events.len() as int);
    }
}

/// `n` distinct positions below `n` are all of them.
proof fn lemma_positions_all_listed(a: Seq<int>, n: int)
    requires
        a.len() == n,
        forall|p: int| 0 <= p < a.len() ==> 0 <= #[trigger] a[p] < n,
        forall|p: int, q: int| 0 <= p < q < a.len() ==> a[p] != a[q],
    ensures
        forall|x: int| 0 <= x < n ==> a.contains(x),
{
    let s = a.to_set();
    a.unique_seq_to_set();
    assert(s.len() == n);
    let full = Set::new(|x: int| 0 <= x < n);
    assert(s.subset_of(full));
    vstd::set_lib::lemma_int_range(0, n);
    assert(full =~= vstd::set_lib::set_int_range(0, n));
    if exists|x: int| 0 <= x < n && !a.contains(x) {
        let x = choose|x: int| 0 <= x < n && !a.contains(x);
        assert(!s.contains(x));
        vstd::set_lib::lemma_len_subset(s, full.remove(x));
        assert(full.remove(x).len() == n - 1);
    }
}

proof fn lemma_sorted_same_elements(events: Seq<TimelineEvent>, a: Seq<int>, b: Seq<int>)
    requires
        forall|p: int, q: int| 0 <= p < q < a.len() ==> timeline_before(events, #[trigger] a[p], #[trigger] a[q]),
        forall|p: int, q: int| 0 <= p < q < b.len() ==> timeline_before(events, #[trigger] b[p], #[trigger] b[q]),
        forall|x: int| a.contains(x) <==> b.contains(x),
    ensures
        a == b,
    decreases a.len(),
{
    if a.len() == 0 {
        if b.len() > 0 {
            assert(b.contains(b[0]));
        }
        assert(a =~= b);
    } else {
        assert(a.contains(a[0]));
        assert(b.len() > 0);
        assert(b.contains(b[0]));
        if a[0] != b[0] {
            let p = choose|p: int| 0 <= p < a.len() && a[p] == b[0];
            let q = choose|q: int| 0 <= q < b.len() && b[q] == a[0];
            assert(p > 0 && q > 0);
            assert(timeline_before(events, a[0], a[p]));
            assert(timeline_before(events, b[0], b[q]));
            lemma_timeline_before_transitive(events, a[0], b[0], a[0]);
            lemma_timeline_before_irreflexive(events, a[0]);
        }
        let ra = a.drop_first();
        let rb = b.drop_first();
        assert forall|x: int| ra.contains(x) <==> rb.contains(x) by {
            if ra.contains(x) {
                let p = choose|p: int| 0 <= p < ra.len() && ra[p] == x;
                assert(a[p + 1] == x);
                assert(timeline_before(events, a[0], a[p + 1]));
                lemma_timeline_before_irreflexive(events, a[0]);
                assert(b.contains(x));
                let q = choose|q: int| 0 <= q < b.len() && b[q] == x;
                assert(q != 0);
                assert(rb[q - 1] == x);
            }
            if rb.contains(x) {
                let q = choose|q: int| 0 <= q < rb.len() && rb[q] == x;
                assert(b[q + 1] == x);
                assert(timeline_before(events, b[0], b[q + 1]));
                lemma_timeline_before_irreflexive(events, b[0]);
                assert(a.contains(x));
                let p = choose|p: int| 0 <= p < a.len() && a[p] == x;
                assert(p != 0);
                assert(ra[p - 1] == x);
            }
        }
        assert forall|p: int, q: int| 0 <= p < q < ra.len() implies timeline_before(events, #[trigger] ra[p], #[trigger] ra[q]) by {
            assert(ra[p] == a[p + 1] && ra[q] == a[q + 1]);
        }
        assert forall|p: int, q: int| 0 <= p < q < rb.len() implies timeline_before(events, #[trigger] rb[p], #[trigger] rb[q]) by {
            assert(rb[p] == b[p + 1] && rb[q] == b[q + 1]);
        }
        lemma_sorted_same_elements(events, ra, rb);
        assert(a =~= seq![a[0]] + ra);
        assert(b =~= seq![b[0]] + rb);
    }
}

/// The event's time.
pub fn timeline_event_time(e: &TimelineEvent) -> (r: i64)
    ensures
        r == event_time(*e),
{
    match e {
        TimelineEvent::Snapshot { ts_us, .. } => *ts_us,
        TimelineEvent::Fill { fill, .. } => fill.fill_ts_us,
    }
}

/// `a` is replayed before `b` by key.
fn event_before(a: &TimelineEvent, b: &TimelineEvent) -> (r: bool)
    ensures
        r == event_lt(*a, *b),
{
    let (ra, sa, ta, ka): (u8, &str, i64, &str) = match a {
        TimelineEvent::Snapshot { source_id, .. } => (0, source_id.as_str(), i64::MIN, ""),
        TimelineEvent::Fill { source_id, event_ts_us, record_key, .. } => (1, source_id.as_str(), *event_ts_us, record_key.as_str()),
    };
    let (rb, sb, tb, kb): (u8, &str, i64, &str) = match b {
        TimelineEvent::Snapshot { source_id, .. } => (0, source_id.as_str(), i64::MIN, ""),
        TimelineEvent::Fill { source_id, event_ts_us, record_key, .. } => (1, source_id.as_str(), *event_ts_us, record_key.as_str()),
    };
    proof {
        reveal_strlit("");
        assert(""@ =~= Seq::<char>::empty());
        assert(ra as int == event_rank(*a) && sa@ == source_of(*a) && ta == tie_time(*a) && ka@ == tie_key(*a));
        assert(rb as int == event_rank(*b) && sb@ == source_of(*b) && tb == tie_time(*b) && kb@ == tie_key(*b));
        lemma_str_lt_total(sa@, sb@);
        lemma_str_lt_irreflexive(sa@);
    }
    let xa = timeline_event_time(a);
    let xb = timeline_event_time(b);
    if xa != xb {
        xa < xb
    } else if ra != rb {
        ra < rb
    } else if str_less(sa, sb) {
        true
    } else if !str_less(sb, sa) {
        if ta != tb {
            ta < tb
        } else {
            str_less(ka, kb)
        }
    } else {
        false
    }
}

/// The positions of `events` in replay order: by time, snapshots before
/// fills, then by source id, order-event time and record key; equal keys
/// keep the order they were collected in.
pub fn timeline_order(events: &Vec<TimelineEvent>) -> (r: Vec<usize>)
    ensures
        is_timeline_order(events@, r@.map_values(|x: usize| x as int)),
{
    let mut ord: Vec<usize> = Vec::new();
    let mut n: usize = 0;
    while n < events.len()
        invariant
            n <= events@.len(),
            ord@.len() == n,
            forall|p: int| 0 <= p < ord@.len() ==> #[trigger] ord@[p] < n,
            forall|p: int, q: int| 0 <= p < q < ord@.len() ==> timeline_before(events@, #[trigger] ord@[p] as int, #[trigger] ord@[q] as int),
        decreases events@.len() - n,
    {
        let mut p: usize = 0;
        while p < ord.len() && !event_before(&events[n], &events[ord[p]])
            invariant
                n < events@.len(),
                p <= ord@.len(),
                ord@.len() == n,
                forall|x: int| 0 <= x < ord@.len() ==> #[trigger] ord@[x] < n,
                forall|x: int| 0 <= x < p ==> timeline_before(events@, #[trigger] ord@[x] as int, n as int),
            decreases ord@.len() - p,
        {
            proof {
                lemma_timeline_before_total(events@, ord@[p as int] as int, n as int);
            }
            p = p + 1;
        }
        let ghost old_ord = ord@;
        proof {
            if p < old_ord.len() {
                assert(event_lt(events@[n as int], events@[old_ord[p as int] as int]));
            }
        }
        ord.insert(p, n);
        proof {
            assert(ord@ == old_ord.insert(p as int, n));
            assert forall|a: int, b: int| 0 <= a < b < ord@.len() implies timeline_before(events@, #[trigger] ord@[a] as int, #[trigger] ord@[b] as int) by {
                if b < p {
                    assert(ord@[a] == old_ord[a] && ord@[b] == old_ord[b]);
                } else if b == p {
                    assert(ord@[a] == old_ord[a]);
                } else if a == p {
                    assert(ord@[b] == old_ord[b - 1]);
                    if b - 1 > p {
                        assert(timeline_before(events@, old_ord[p as int] as int, old_ord[b - 1] as int));
                        lemma_timeline_before_transitive(events@, n as int, old_ord[p as int] as int, old_ord[b - 1] as int);
                    }
                } else if a < p {
                    assert(ord@[a] == old_ord[a] && ord@[b] == old_ord[b - 1]);
                    if b - 1 >= p {
                        assert(timeline_before(events@, old_ord[a] as int, old_ord[b - 1] as int) || a == b - 1);
                    }
                } else {
                    assert(ord@[a] == old_ord[a - 1] && ord@[b] == old_ord[b - 1]);
                }
            }
        }
        n = n + 1;
    }
    proof {
        let m = ord@.map_values(|x: usize| x as int);
        assert forall|p: int| 0 <= p < m.len() implies 0 <= #[trigger] m[p] < events@.len() by {
            assert(m[p] == ord@[p] as int);
        }
        assert forall|p: int, q: int| 0 <= p < q < m.len() implies timeline_before(events@, #[trigger] m[p], #[trigger] m[q]) by {
            assert(m[p] == ord@[p] as int && m[q] == ord@[q] as int);
        }
    }
    ord
}


/// The number of events, in replay order, before `start_ts_us`: those are
/// applied before the first sample.
pub open spec fn replayed_before(events: Seq<TimelineEvent>, ord: Seq<int>, start_ts_us: i64, n: int) -> bool {
    &&& 0 <= n <= ord.len()
    &&& forall|p: int| 0 <= p < n ==> event_time(events[#[trigger] ord[p]]) < start_ts_us
    &&& forall|p: int| n <= p < ord.len() ==> event_time(events[#[trigger] ord[p]]) >= start_ts_us
}

/// Where the events at or after `start_ts_us` begin in a replay order.
pub fn replay_split(events: &Vec<TimelineEvent>, ord: &Vec<usize>, start_ts_us: i64) -> (r: usize)
    requires
        is_timeline_order(events@, ord@.map_values(|x: usize| x as int)),
    ensures
        replayed_before(events@, ord@.map_values(|x: usize| x as int), start_ts_us, r as int),
{
    let ghost m = ord@.map_values(|x: usize| x as int);
    let mut n: usize = 0;
    while n < ord.len()
        invariant
            m == ord@.map_values(|x: usize| x as int),
            is_timeline_order(events@, m),
            n <= ord@.len(),
            forall|p: int| 0 <= p < n ==> event_time(events@[#[trigger] m[p]]) < start_ts_us,
        ensures
            n <= ord@.len(),
            forall|p: int| 0 <= p < n ==> event_time(events@[#[trigger] m[p]]) < start_ts_us,
            n < ord@.len() ==> event_time(events@[m[n as int]]) >= start_ts_us,
        decreases ord@.len() - n,
    {
        assert(m[n as int] == ord@[n as int] as int);
        let k = ord[n];
        if timeline_event_time(&events[k]) >= start_ts_us {
            break;
        }
        n = n + 1;
    }
    proof {
        assert forall|p: int| n <= p < m.len() implies event_time(events@[#[trigger] m[p]]) >= start_ts_us by {
            if p > n {
                assert(m[n as int] == ord@[n as int] as int);
                assert(timeline_before(events@, m[n as int], m[p]));
            } else {
                assert(m[n as int] == ord@[n as int] as int);
            }
        }
    }
    n
}

/// The strategy a timeline lists for a fill: the one its `from_key` names,
/// except that with strategy allocation active the system's position
/// closes count as unallocated.
pub open spec fn listed_strategy(from_key: Seq<char>, allocation_active: bool) -> Seq<char> {
    if allocation_active && system_position_close(strategy_of_from_key(from_key)) {
        UNALLOCATED_STRATEGY@
    } else {
        strategy_of_from_key(from_key)
    }
}

/// The strategy a timeline lists for a fill with `from_key`.
pub fn timeline_fill_strategy(from_key: &str, allocation_active: bool) -> (r: String)
    ensures
        r@ == listed_strategy(from_key@, allocation_active),
{
    let strategy = strategy_from_from_key(from_key);
    if allocation_active && is_system_position_close(strategy.as_str()) {
        owned(UNALLOCATED_STRATEGY)
    } else {
        strategy
    }
}

} // verus!
