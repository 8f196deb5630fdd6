//! The validated fills of a source in FIFO chronology: the input of the CTA
//! position reconstruction.

use vstd::prelude::*;

use crate::float_bits::{f64_gt_zero, f64_is_finite, f64_is_zero, f64_lt_zero, gt_zero, is_finite, is_zero, lt_zero};
use crate::model::UniformOrderEvent;
use crate::nav::fifo_ts_us;
use crate::ordered::{lemma_str_lt_irreflexive, lemma_str_lt_total, lemma_str_lt_transitive, str_less, str_lt};
use crate::text::{owned, trim, trim_str};

verus! {

/// Direction of a fill.
#[derive(Debug, Clone, Copy, PartialEq, Eq, Structural)]
pub enum Side {
    Buy,
    Sell,
}

/// Why a fill cannot enter the reconstruction.
#[derive(Debug, Clone, Copy, PartialEq, Eq, Structural)]
pub enum FillErrorKind {
    /// `amount_update` (bits) is not finite or is negative.
    InvalidAmount(u64),
    /// The price (bits) is not finite and positive.
    InvalidPrice(u64),
    /// The symbol is blank.
    EmptySymbol,
    /// The side code is neither 1 (buy) nor 2 (sell).
    UnsupportedSide(i16),
}

/// A fill refused, with its source and record.
#[derive(Debug, Clone)]
pub struct FillError {
    pub kind: FillErrorKind,
    pub source_id: String,
    pub record_key: String,
}

/// `FillError` with its strings as character sequences.
pub struct FillErrorView {
    pub kind: FillErrorKind,
    pub source_id: Seq<char>,
    pub record_key: Seq<char>,
}

impl FillError {
    pub open spec fn view(&self) -> FillErrorView {
        FillErrorView { kind: self.kind, source_id: self.source_id@, record_key: self.record_key@ }
    }
}

/// What an order event is as a fill: refused, nothing (no quantity), or a
/// buy or sell.
pub open spec fn fill_side_of(e: UniformOrderEvent) -> Result<Option<Side>, FillErrorKind> {
    if !is_finite(e.amount_update_bits) || lt_zero(e.amount_update_bits) {
        Err(FillErrorKind::InvalidAmount(e.amount_update_bits))
    } else if is_zero(e.amount_update_bits) {
        Ok(None)
    } else if !(is_finite(e.price_bits) && gt_zero(e.price_bits)) {
        Err(FillErrorKind::InvalidPrice(e.price_bits))
    } else if trim(e.symbol@).len() == 0 {
        Err(FillErrorKind::EmptySymbol)
    } else if e.side_code == 1 {
        Ok(Some(Side::Buy))
    } else if e.side_code == 2 {
        Ok(Some(Side::Sell))
    } else {
        Err(FillErrorKind::UnsupportedSide(e.side_code))
    }
}

/// The side of a fill of source `source_id`, or why it is refused; a fill
/// without quantity has none.
pub fn validated_fill_side(source_id: &str, event: &UniformOrderEvent) -> (r: Result<Option<Side>, FillError>)
    ensures
        r matches Ok(s) ==> fill_side_of(*event) == Ok::<Option<Side>, FillErrorKind>(s),
        r matches Err(e) ==> fill_side_of(*event) == Err::<Option<Side>, FillErrorKind>(e.kind) && e.source_id@
            == source_id@ && e.record_key@ == event.record_key@,
{
    let amount = event.amount_update_bits;
    let kind = if !f64_is_finite(amount) || f64_lt_zero(amount) {
        FillErrorKind::InvalidAmount(amount)
    } else if f64_is_zero(amount) {
        return Ok(None);
    } else if !(f64_is_finite(event.price_bits) && f64_gt_zero(event.price_bits)) {
        FillErrorKind::InvalidPrice(event.price_bits)
    } else if trim_str(event.symbol.as_str()).unicode_len() == 0 {
        FillErrorKind::EmptySymbol
    } else if event.side_code == 1 {
        return Ok(Some(Side::Buy));
    } else if event.side_code == 2 {
        return Ok(Some(Side::Sell));
    } else {
        FillErrorKind::UnsupportedSide(event.side_code)
    };
    Err(FillError { kind, source_id: owned(source_id), record_key: event.record_key.clone() })
}

/// A validated fill; `signed_quantity_bits` is the base quantity, positive
/// for buys and negated for sells.
#[derive(Debug, Clone)]
pub struct HistoricalFill {
    pub ts_us: i64,
    pub event_ts_us: i64,
    pub record_key: String,
    pub symbol: String,
    pub venue_code: i16,
    pub venue: String,
    pub price_bits: u64,
    pub signed_quantity_bits: u64,
}

/// `HistoricalFill` with its strings as character sequences.
pub struct HistoricalFillView {
    pub ts_us: i64,
    pub event_ts_us: i64,
    pub record_key: Seq<char>,
    pub symbol: Seq<char>,
    pub venue_code: i16,
    pub venue: Seq<char>,
    pub price_bits: u64,
    pub signed_quantity_bits: u64,
}

impl HistoricalFill {
    pub open spec fn view(&self) -> HistoricalFillView {
        HistoricalFillView {
            ts_us: self.ts_us,
            event_ts_us: self.event_ts_us,
            record_key: self.record_key@,
            symbol: self.symbol@,
            venue_code: self.venue_code,
            venue: self.venue@,
            price_bits: self.price_bits,
            signed_quantity_bits: self.signed_quantity_bits,
        }
    }
}

/// The views of some fills.
pub open spec fn fill_views(v: Seq<HistoricalFill>) -> Seq<HistoricalFillView> {
    v.map_values(|f: HistoricalFill| f.view())
}

/// The time an event takes in FIFO order.
pub open spec fn fifo_time(e: UniformOrderEvent) -> i64 {
    if e.update_ts_us > 0 {
        e.update_ts_us
    } else {
        e.event_ts_us
    }
}

/// `f64` negation: the sign bit flipped.
pub open spec fn negated_bits(bits: u64) -> u64 {
    if bits >= 0x8000_0000_0000_0000 {
        (bits - 0x8000_0000_0000_0000) as u64
    } else {
        (bits + 0x8000_0000_0000_0000) as u64
    }
}

/// The fill an event of the given side makes.
pub open spec fn fill_of(e: UniformOrderEvent, side: Side) -> HistoricalFillView {
    HistoricalFillView {
        ts_us: fifo_time(e),
        event_ts_us: e.event_ts_us,
        record_key: e.record_key@,
        symbol: e.symbol@,
        venue_code: e.venue_code,
        venue: e.venue@,
        price_bits: e.price_bits,
        signed_quantity_bits: match side {
            Side::Buy => e.amount_update_bits,
            Side::Sell => negated_bits(e.amount_update_bits),
        },
    }
}

/// The fills of the events taken in the order `ord` (positions into
/// `events`), or the refusal of the first refused one.
pub open spec fn fills_in_order(source_id: Seq<char>, events: Seq<UniformOrderEvent>, ord: Seq<int>) -> Result<
    Seq<HistoricalFillView>,
    FillErrorView,
>
    decreases ord.len(),
{
    if ord.len() == 0 {
        Ok(Seq::empty())
    } else {
        match fills_in_order(source_id, events, ord.drop_last()) {
            Err(e) => Err(e),
            Ok(fs) => {
                let e = events[ord.last()];
                match fill_side_of(e) {
                    Err(kind) => Err(FillErrorView { kind, source_id, record_key: e.record_key@ }),
                    Ok(None) => Ok(fs),
                    Ok(Some(side)) => Ok(fs.push(fill_of(e, side))),
                }
            },
        }
    }
}

/// Strict order of the chronology keys (FIFO time, event time, record key).
pub open spec fn key_lt(a: UniformOrderEvent, b: UniformOrderEvent) -> bool {
    ||| fifo_time(a) < fifo_time(b)
    ||| fifo_time(a) == fifo_time(b) && a.event_ts_us < b.event_ts_us
    ||| fifo_time(a) == fifo_time(b) && a.event_ts_us == b.event_ts_us && str_lt(a.record_key@, b.record_key@)
}

/// Two events share their chronology key.
pub open spec fn same_key(a: UniformOrderEvent, b: UniformOrderEvent) -> bool {
    fifo_time(a) == fifo_time(b) && a.event_ts_us == b.event_ts_us && a.record_key@ == b.record_key@
}

/// Event `i` comes before event `j` in the chronology: by key, and by
/// position among equal keys (a stable sort).
pub open spec fn comes_before(events: Seq<UniformOrderEvent>, i: int, j: int) -> bool {
    key_lt(events[i], events[j]) || (same_key(events[i], events[j]) && i < j)
}

/// `ord` lists each position of `events` once, in chronological order.
pub open spec fn is_chronology(events: Seq<UniformOrderEvent>, ord: Seq<int>) -> bool {
    &&& ord.len() == events.len()
    &&& forall|p: int| 0 <= p < ord.len() ==> 0 <= #[trigger] ord[p] < events.len()
    &&& forall|p: int, q: int| 0 <= p < q < ord.len() ==> comes_before(events, #[trigger] ord[p], #[trigger] ord[q])
}

/// The chronology of some events.
pub open spec fn chronology(events: Seq<UniformOrderEvent>) -> Seq<int> {
    choose|ord: Seq<int>| is_chronology(events, ord)
}

proof fn lemma_comes_before_irreflexive(events: Seq<UniformOrderEvent>, i: int)
    ensures
        !comes_before(events, i, i),
{
    lemma_str_lt_irreflexive(events[i].record_key@);
}

proof fn lemma_comes_before_transitive(events: Seq<UniformOrderEvent>, i: int, j: int, k: int)
    requires
        comes_before(events, i, j),
        comes_before(events, j, k),
    ensures
        comes_before(events, i, k),
{
    let (a, b, c) = (events[i], events[j], events[k]);
    if str_lt(a.record_key@, b.record_key@) && str_lt(b.record_key@, c.record_key@) {
        lemma_str_lt_transitive(a.record_key@, b.record_key@, c.record_key@);
    }
}

proof fn lemma_comes_before_total(events: Seq<UniformOrderEvent>, i: int, j: int)
    requires
        i != j,
    ensures
        comes_before(events, i, j) || comes_before(events, j, i),
{
    lemma_str_lt_total(events[i].record_key@, events[j].record_key@);
}

/// A chronology is unique: two orders of the same events that both list
/// every position once, chronologically, are the same order.
pub proof fn lemma_chronology_unique(events: Seq<UniformOrderEvent>, a: Seq<int>, b: Seq<int>)
    requires
        is_chronology(events, a),
        is_chronology(events, b),
    ensures
        a == b,
{
    lemma_chronology_distinct(events, a);
    lemma_chronology_distinct(events, b);
    lemma_sorted_same_elements(events, a, b);
}

proof fn lemma_chronology_distinct(events: Seq<UniformOrderEvent>, a: Seq<int>)
    requires
        is_chronology(events, a),
    ensures
        forall|p: int, q: int| 0 <= p < q < a.len() ==> a[p] != a[q],
        forall|x: int| 0 <= x < events.len() ==> a.contains(x),
{
    assert forall|p: int, q: int| 0 <= p < q < a.len() implies a[p] != a[q] by {
        assert(comes_before(events, a[p], a[q]));
        lemma_comes_before_irreflexive(events, a[p]);
    }
    assert forall|x: int| 0 <= x < events.len() implies a.contains(x) by {
        lemma_positions_all_listed(a, events.len() as int);
    }
}

/// `n` distinct positions below `n` are all of them.
proof fn lemma_positions_all_listed(a: Seq<int>, n: int)
    requires
        a.len() == n,
        forall|p: int| 0 <= p < a.len() ==> 0 <= #[trigger] a[p] < n,
        forall|p: int, q: int| 0 <= p < q < a.len() ==> a[p] != a[q],
    ensures
        forall|x: int| 0 <= x < n ==> a.contains(x),
{
    let s = a.to_set();
    a.unique_seq_to_set();
    assert(s.len() == n);
    let full = Set::new(|x: int| 0 <= x < n);
    assert(s.subset_of(full));
    vstd::set_lib::lemma_int_range(0, n);
    assert(full =~= vstd::set_lib::set_int_range(0, n));
    if exists|x: int| 0 <= x < n && !a.contains(x) {
        let x = choose|x: int| 0 <= x < n && !a.contains(x);
        assert(!s.contains(x));
        vstd::set_lib::lemma_len_subset(s, full.remove(x));
        assert(full.remove(x).len() == n - 1);
    }
}

proof fn lemma_sorted_same_elements(events: Seq<UniformOrderEvent>, a: Seq<int>, b: Seq<int>)
    requires
        forall|p: int, q: int| 0 <= p < q < a.len() ==> comes_before(events, #[trigger] a[p], #[trigger] a[q]),
        forall|p: int, q: int| 0 <= p < q < b.len() ==> comes_before(events, #[trigger] b[p], #[trigger] b[q]),
        forall|x: int| a.contains(x) <==> b.contains(x),
    ensures
        a == b,
    decreases a.len(),
{
    if a.len() == 0 {
        if b.len() > 0 {
            assert(b.contains(b[0]));
        }
        assert(a =~= b);
    } else {
        assert(a.contains(a[0]));
        assert(b.len() > 0);
        assert(b.contains(b[0]));
        if a[0] != b[0] {
            let p = choose|p: int| 0 <= p < a.len() && a[p] == b[0];
            let q = choose|q: int| 0 <= q < b.len() && b[q] == a[0];
            assert(p > 0 && q > 0);
            assert(comes_before(events, a[0], a[p]));
            assert(comes_before(events, b[0], b[q]));
            lemma_comes_before_transitive(events, a[0], b[0], a[0]);
            lemma_comes_before_irreflexive(events, a[0]);
        }
        let ra = a.drop_first();
        let rb = b.drop_first();
        assert forall|x: int| ra.contains(x) <==> rb.contains(x) by {
            if ra.contains(x) {
                let p = choose|p: int| 0 <= p < ra.len() && ra[p] == x;
                assert(a[p + 1] == x);
                assert(comes_before(events, a[0], a[p + 1]));
                lemma_comes_before_irreflexive(events, a[0]);
                assert(b.contains(x));
                let q = choose|q: int| 0 <= q < b.len() && b[q] == x;
                assert(q != 0);
                assert(rb[q - 1] == x);
            }
            if rb.contains(x) {
                let q = choose|q: int| 0 <= q < rb.len() && rb[q] == x;
                assert(b[q + 1] == x);
                assert(comes_before(events, b[0], b[q + 1]));
                lemma_comes_before_irreflexive(events, b[0]);
                assert(a.contains(x));
                let p = choose|p: int| 0 <= p < a.len() && a[p] == x;
                assert(p != 0);
                assert(ra[p - 1] == x);
            }
        }
        assert forall|p: int, q: int| 0 <= p < q < ra.len() implies comes_before(events, #[trigger] ra[p], #[trigger] ra[q]) by {
            assert(ra[p] == a[p + 1] && ra[q] == a[q + 1]);
        }
        assert forall|p: int, q: int| 0 <= p < q < rb.len() implies comes_before(events, #[trigger] rb[p], #[trigger] rb[q]) by {
            assert(rb[p] == b[p + 1] && rb[q] == b[q + 1]);
        }
        lemma_sorted_same_elements(events, ra, rb);
        assert(a =~= seq![a[0]] + ra);
        assert(b =~= seq![b[0]] + rb);
    }
}

/// `a` comes before `b` by chronology key.
fn key_before(a: &UniformOrderEvent, b: &UniformOrderEvent) -> (r: bool)
    ensures
        r == key_lt(*a, *b),
{
    let ta = fifo_ts_us(a);
    let tb = fifo_ts_us(b);
    if ta != tb {
        ta < tb
    } else if a.event_ts_us != b.event_ts_us {
        a.event_ts_us < b.event_ts_us
    } else {
        str_less(a.record_key.as_str(), b.record_key.as_str())
    }
}

/// The positions of `events` in chronological order: by FIFO time, event
/// time and record key, equal keys in their given order.
pub fn chronological_order(events: &Vec<UniformOrderEvent>) -> (r: Vec<usize>)
    ensures
        is_chronology(events@, r@.map_values(|x: usize| x as int)),
{
    let mut ord: Vec<usize> = Vec::new();
    let mut n: usize = 0;
    while n < events.len()
        invariant
            n <= events@.len(),
            ord@.len() == n,
            forall|p: int| 0 <= p < ord@.len() ==> #[trigger] ord@[p] < n,
            forall|p: int, q: int| 0 <= p < q < ord@.len() ==> comes_before(events@, #[trigger] ord@[p] as int, #[trigger] ord@[q] as int),
        decreases events@.len() - n,
    {
        let mut p: usize = 0;
        while p < ord.len() && !key_before(&events[n], &events[ord[p]])
            invariant
                n < events@.len(),
                p <= ord@.len(),
                ord@.len() == n,
                forall|x: int| 0 <= x < ord@.len() ==> #[trigger] ord@[x] < n,
                forall|x: int| 0 <= x < p ==> comes_before(events@, #[trigger] ord@[x] as int, n as int),
            decreases ord@.len() - p,
        {
            proof {
                lemma_comes_before_total(events@, ord@[p as int] as int, n as int);
            }
            p = p + 1;
        }
        let ghost old_ord = ord@;
        proof {
            if p < old_ord.len() {
                assert(key_lt(events@[n as int], events@[old_ord[p as int] as int]));
            }
        }
        ord.insert(p, n);
        proof {
            assert(ord@ == old_ord.insert(p as int, n));
            assert forall|a: int, b: int| 0 <= a < b < ord@.len() implies comes_before(events@, #[trigger] ord@[a] as int, #[trigger] ord@[b] as int) by {
                if b < p {
                    assert(ord@[a] == old_ord[a] && ord@[b] == old_ord[b]);
                } else if b == p {
                    assert(ord@[a] == old_ord[a]);
                } else if a == p {
                    assert(ord@[b] == old_ord[b - 1]);
                    if b - 1 > p {
                        assert(comes_before(events@, old_ord[p as int] as int, old_ord[b - 1] as int));
                        lemma_comes_before_transitive(events@, n as int, old_ord[p as int] as int, old_ord[b - 1] as int);
                    }
                } else if a < p {
                    assert(ord@[a] == old_ord[a] && ord@[b] == old_ord[b - 1]);
                    if b - 1 >= p {
                        assert(comes_before(events@, old_ord[a] as int, old_ord[b - 1] as int) || a == b - 1);
                    }
                } else {
                    assert(ord@[a] == old_ord[a - 1] && ord@[b] == old_ord[b - 1]);
                }
            }
        }
        n = n + 1;
    }
    proof {
        let m = ord@.map_values(|x: usize| x as int);
        assert forall|p: int| 0 <= p < m.len() implies 0 <= #[trigger] m[p] < events@.len() by {
            assert(m[p] == ord@[p] as int);
        }
        assert forall|p: int, q: int| 0 <= p < q < m.len() implies comes_before(events@, #[trigger] m[p], #[trigger] m[q]) by {
            assert(m[p] == ord@[p] as int && m[q] == ord@[q] as int);
        }
    }
    ord
}

/// The validated fills of source `source_id` in chronological order (fills
/// without quantity left out), or the refusal of the first refused fill in
/// that order.
pub fn historical_fills(source_id: &str, events: &Vec<UniformOrderEvent>) -> (r: Result<Vec<HistoricalFill>, FillError>)
    ensures
        r matches Ok(v) ==> fills_in_order(source_id@, events@, chronology(events@)) == Ok::<
            Seq<HistoricalFillView>,
            FillErrorView,
        >(fill_views(v@)),
        r matches Err(e) ==> fills_in_order(source_id@, events@, chronology(events@)) == Err::<
            Seq<HistoricalFillView>,
            FillErrorView,
        >(e.view()),
{
    let ord = chronological_order(events);
    let ghost m = ord@.map_values(|x: usize| x as int);
    proof {
        lemma_chronology_unique(events@, m, chronology(events@));
    }
    let mut fills: Vec<HistoricalFill> = Vec::new();
    let mut k: usize = 0;
    proof {
        assert(m.take(0) =~= Seq::<int>::empty());
        assert(fill_views(fills@) =~= Seq::<HistoricalFillView>::empty());
    }
    while k < ord.len()
        invariant
            m == ord@.map_values(|x: usize| x as int),
            m == chronology(events@),
            is_chronology(events@, m),
            k <= ord@.len(),
            fills_in_order(source_id@, events@, m.take(k as int)) == Ok::<Seq<HistoricalFillView>, FillErrorView>(
                fill_views(fills@),
            ),
        decreases ord@.len() - k,
    {
        let i = ord[k];
        proof {
            assert(m.take(k + 1).drop_last() =~= m.take(k as int));
            assert(m.take(k + 1).last() == i as int);
        }
        let event = &events[i];
        match validated_fill_side(source_id, event) {
            Err(e) => {
                proof {
                    assert(fills_in_order(source_id@, events@, m.take(k + 1)) == Err::<Seq<HistoricalFillView>, FillErrorView>(e.view()));
                    lemma_fills_prefix_error(source_id@, events@, m, k as int + 1);
                }
                return Err(e);
            },
            Ok(None) => {},
            Ok(Some(side)) => {
                let amount = event.amount_update_bits;
                let signed_quantity_bits = match side {
                    Side::Buy => amount,
                    Side::Sell => if amount >= 0x8000_0000_0000_0000 {
                        amount - 0x8000_0000_0000_0000
                    } else {
                        amount + 0x8000_0000_0000_0000
                    },
                };
                let fill = HistoricalFill {
                    ts_us: fifo_ts_us(event),
                    event_ts_us: event.event_ts_us,
                    record_key: event.record_key.clone(),
                    symbol: event.symbol.clone(),
                    venue_code: event.venue_code,
                    venue: event.venue.clone(),
                    price_bits: event.price_bits,
                    signed_quantity_bits,
                };
                let ghost before = fills@;
                fills.push(fill);
                proof {
                    assert(fill.view() == fill_of(*event, side));
                    assert(fill_views(fills@) =~= fill_views(before).push(fill_of(*event, side)));
                }
            },
        }
        k = k + 1;
    }
    proof {
        assert(m.take(m.len() as int) =~= m);
    }
    Ok(fills)
}

/// A refusal within a prefix is the refusal of the whole order.
proof fn lemma_fills_prefix_error(source_id: Seq<char>, events: Seq<UniformOrderEvent>, ord: Seq<int>, n: int)
    requires
        0 <= n <= ord.len(),
        fills_in_order(source_id, events, ord.take(n)) is Err,
    ensures
        fills_in_order(source_id, events, ord) == fills_in_order(source_id, events, ord.take(n)),
    decreases ord.len() - n,
{
    if n < ord.len() {
        assert(ord.take(n + 1).drop_last() =~= ord.take(n));
        lemma_fills_prefix_error(source_id, events, ord, n + 1);
    } else {
        assert(ord.take(n) =~= ord);
    }
}

} // verus!
