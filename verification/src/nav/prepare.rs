//! The events of one source prepared for the CTA position rebuild: the
//! effective snapshot, the fills after it in chronology, each market's first
//! fill, and the initial lots that seed the rebuild.

use vstd::prelude::*;

use crate::config::SourceConfig;
use crate::float_bits::{f64_gt_zero, f64_is_finite, gt_zero, is_finite};
use crate::keyed::{find_key, lemma_find_key, lemma_find_key_is, put_entry};
use crate::model::{venue_label, venue_name, UniformOrderEvent};
use crate::nav::fills::{
    chronological_order, chronology, comes_before, fifo_time, fill_side_of, is_chronology, lemma_chronology_unique,
    validated_fill_side, FillError, FillErrorKind, FillErrorView, Side,
};
use crate::nav::liquidity::{liquidity_role_for_event, orders_unique, roles_map, LiquidityKey};
use crate::nav::{fifo_ts_us, order_type_role, InitialReferencePriceSource, LiquidityRole};
use crate::text::{owned, str_eq};

verus! {

/// A position of an account snapshot; prices and quantities are binary64
/// bit patterns.
#[derive(Debug, Clone)]
pub struct SnapshotPosition {
    pub symbol: String,
    pub venue_code: i16,
    pub quantity_bits: u64,
    pub reference_price_bits: Option<u64>,
}

/// The positions of one source at a time.
#[derive(Debug, Clone)]
pub struct PositionSnapshot {
    pub source_id: String,
    pub snapshot_ts_us: i64,
    pub positions: Vec<SnapshotPosition>,
}

/// A position of one strategy in a strategy snapshot.
#[derive(Debug, Clone)]
pub struct StrategySnapshotPosition {
    pub strategy_name: String,
    pub symbol: String,
    pub venue_code: i16,
    pub quantity_bits: u64,
    pub reference_price_bits: u64,
}

/// The positions of each strategy of one source at a time.
#[derive(Debug, Clone)]
pub struct StrategyPositionSnapshot {
    pub source_id: String,
    pub snapshot_ts_us: i64,
    pub positions: Vec<StrategySnapshotPosition>,
}

/// A kept fill: its position among the events, side, FIFO time and role.
#[derive(Debug, Clone, Copy, PartialEq, Eq, Structural)]
pub struct PreparedFill {
    pub event_index: usize,
    pub side: Side,
    pub fill_ts_us: i64,
    pub liquidity: LiquidityRole,
}

/// The lot a snapshot position seeds: no fee and no volume, only the
/// quantity at its reference price at the snapshot time.
#[derive(Debug, Clone)]
pub struct InitialLot {
    pub venue_code: i16,
    pub venue: String,
    pub quantity_bits: u64,
    pub reference_price_bits: u64,
    pub reference_source: InitialReferencePriceSource,
    pub snapshot_ts_us: i64,
}

/// `InitialLot` with its venue as a character sequence.
pub struct InitialLotView {
    pub venue_code: i16,
    pub venue: Seq<char>,
    pub quantity_bits: u64,
    pub reference_price_bits: u64,
    pub reference_source: InitialReferencePriceSource,
    pub snapshot_ts_us: i64,
}

impl InitialLot {
    pub open spec fn view(&self) -> InitialLotView {
        InitialLotView {
            venue_code: self.venue_code,
            venue: self.venue@,
            quantity_bits: self.quantity_bits,
            reference_price_bits: self.reference_price_bits,
            reference_source: self.reference_source,
            snapshot_ts_us: self.snapshot_ts_us,
        }
    }
}

/// A market: symbol and venue code.
pub type MarketKey = (String, i16);

/// A strategy's market: strategy, symbol and venue code.
pub type StrategyMarketKey = (String, String, i16);

/// The prepared events of one source.
#[derive(Debug, Clone)]
pub struct PreparedSourceEvents {
    pub snapshot_ts_us: Option<i64>,
    pub initial_states: Vec<(MarketKey, InitialLot)>,
    pub initial_strategy_states: Vec<(StrategyMarketKey, InitialLot)>,
    pub strategy_allocation_active: bool,
    pub fill_events: Vec<PreparedFill>,
    pub order_event_count: u64,
    pub ignored_at_or_before_snapshot_event_count: u64,
    pub ignored_non_fill_event_count: u64,
}

/// The view of a market's lots.
pub type LotView = ((Seq<char>, i16), InitialLotView);

/// The view of a strategy market's lots.
pub type StrategyLotView = ((Seq<char>, Seq<char>, i16), InitialLotView);

/// `PreparedSourceEvents` with its texts as character sequences.
pub struct PreparedView {
    pub snapshot_ts_us: Option<i64>,
    pub initial_states: Seq<LotView>,
    pub initial_strategy_states: Seq<StrategyLotView>,
    pub strategy_allocation_active: bool,
    pub fill_events: Seq<PreparedFill>,
    pub order_event_count: nat,
    pub ignored_at_or_before_snapshot_event_count: nat,
    pub ignored_non_fill_event_count: nat,
}

pub open spec fn lots_view(v: Seq<(MarketKey, InitialLot)>) -> Seq<LotView> {
    v.map_values(|e: (MarketKey, InitialLot)| ((e.0.0@, e.0.1), e.1.view()))
}

pub open spec fn strategy_lots_view(v: Seq<(StrategyMarketKey, InitialLot)>) -> Seq<StrategyLotView> {
    v.map_values(|e: (StrategyMarketKey, InitialLot)| ((e.0.0@, e.0.1@, e.0.2), e.1.view()))
}

impl PreparedSourceEvents {
    pub open spec fn view(&self) -> PreparedView {
        PreparedView {
            snapshot_ts_us: self.snapshot_ts_us,
            initial_states: lots_view(self.initial_states@),
            initial_strategy_states: strategy_lots_view(self.initial_strategy_states@),
            strategy_allocation_active: self.strategy_allocation_active,
            fill_events: self.fill_events@,
            order_event_count: self.order_event_count as nat,
            ignored_at_or_before_snapshot_event_count: self.ignored_at_or_before_snapshot_event_count as nat,
            ignored_non_fill_event_count: self.ignored_non_fill_event_count as nat,
        }
    }
}

/// Why the events of a source cannot be prepared.
#[derive(Debug, Clone)]
pub enum PrepareError {
    /// The account snapshot belongs to another source (its source, this one).
    SnapshotSource(String, String),
    /// The strategy snapshot belongs to another source (its source, this one).
    StrategySnapshotSource(String, String),
    /// A fill after the snapshot is refused.
    Fill(FillError),
    /// A snapshot position's configured reference price is not finite and
    /// positive (source, symbol, venue code).
    InvalidReference(String, String, i16),
    /// A snapshot position has no reference price and no later fill.
    MissingReference(String, String, i16),
    /// The snapshot lists a market twice.
    DuplicateInitial(String, String, i16),
}

/// `PrepareError` with its texts as character sequences.
pub enum PrepareErrorView {
    SnapshotSource(Seq<char>, Seq<char>),
    StrategySnapshotSource(Seq<char>, Seq<char>),
    Fill(FillErrorView),
    InvalidReference(Seq<char>, Seq<char>, i16),
    MissingReference(Seq<char>, Seq<char>, i16),
    DuplicateInitial(Seq<char>, Seq<char>, i16),
}

impl PrepareError {
    pub open spec fn view(&self) -> PrepareErrorView {
        match self {
            PrepareError::SnapshotSource(a, b) => PrepareErrorView::SnapshotSource(a@, b@),
            PrepareError::StrategySnapshotSource(a, b) => PrepareErrorView::StrategySnapshotSource(a@, b@),
            PrepareError::Fill(f) => PrepareErrorView::Fill(f.view()),
            PrepareError::InvalidReference(s, y, v) => PrepareErrorView::InvalidReference(s@, y@, *v),
            PrepareError::MissingReference(s, y, v) => PrepareErrorView::MissingReference(s@, y@, *v),
            PrepareError::DuplicateInitial(s, y, v) => PrepareErrorView::DuplicateInitial(s@, y@, *v),
        }
    }
}

/// The strategy snapshot counts: there is one, and it is no older than the
/// account snapshot.
pub open spec fn strategy_active(
    snapshot: Option<&PositionSnapshot>,
    strategy: Option<(&StrategyPositionSnapshot, &PositionSnapshot)>,
) -> bool {
    match strategy {
        None => false,
        Some(st) => match snapshot {
            None => true,
            Some(s) => st.0.snapshot_ts_us >= s.snapshot_ts_us,
        },
    }
}

/// The snapshot the rebuild starts from: the account view of the strategy
/// snapshot when it counts, else the account snapshot.
pub open spec fn effective_snapshot(
    snapshot: Option<&PositionSnapshot>,
    strategy: Option<(&StrategyPositionSnapshot, &PositionSnapshot)>,
) -> Option<PositionSnapshot> {
    if strategy_active(snapshot, strategy) {
        Some(*strategy->Some_0.1)
    } else {
        match snapshot {
            Some(s) => Some(*s),
            None => None,
        }
    }
}

/// A market's first fill: its price and venue.
pub type RefView = ((Seq<char>, i16), (u64, Seq<char>));

/// The first fill recorded for market `k`.
pub open spec fn ref_of(refs: Seq<RefView>, k: (Seq<char>, i16)) -> Option<(u64, Seq<char>)>
    decreases refs.len(),
{
    if refs.len() == 0 {
        None
    } else if refs[0].0 == k {
        Some(refs[0].1)
    } else {
        ref_of(refs.drop_first(), k)
    }
}

/// The role of a fill: the trade updates' role for its order, else its
/// order type's.
pub open spec fn role_for(e: UniformOrderEvent, roles: Seq<(LiquidityKey, LiquidityRole)>) -> LiquidityRole {
    match roles_map(roles).get((e.symbol@, e.venue_code, e.client_order_id)) {
        Some(x) => x,
        None => order_type_role(e.order_type_code),
    }
}

/// What a pass over the events gives: the kept fills, each market's first
/// fill, and the counts of events at or before the snapshot and of events
/// without quantity.
pub struct ScanView {
    pub fills: Seq<PreparedFill>,
    pub refs: Seq<RefView>,
    pub before: nat,
    pub non_fill: nat,
}

/// The pass over the events in the order `ord`: an event at or before the
/// snapshot time is skipped, an event without quantity is counted, a refused
/// fill stops the pass, and a fill is kept; the first fill of a market
/// records its price and venue.
pub open spec fn scan(
    source_id: Seq<char>,
    events: Seq<UniformOrderEvent>,
    ord: Seq<int>,
    cutoff: Option<i64>,
    roles: Seq<(LiquidityKey, LiquidityRole)>,
) -> Result<ScanView, FillErrorView>
    decreases ord.len(),
{
    if ord.len() == 0 {
        Ok(ScanView { fills: Seq::empty(), refs: Seq::empty(), before: 0, non_fill: 0 })
    } else {
        match scan(source_id, events, ord.drop_last(), cutoff, roles) {
            Err(f) => Err(f),
            Ok(st) => {
                let i = ord.last();
                let e = events[i];
                let skipped = match cutoff {
                    Some(c) => fifo_time(e) <= c,
                    None => false,
                };
                if skipped {
                    Ok(ScanView { before: st.before + 1, ..st })
                } else {
                    match fill_side_of(e) {
                        Err(kind) => Err(FillErrorView { kind, source_id, record_key: e.record_key@ }),
                        Ok(None) => Ok(ScanView { non_fill: st.non_fill + 1, ..st }),
                        Ok(Some(side)) => {
                            let k = (e.symbol@, e.venue_code);
                            Ok(
                                ScanView {
                                    fills: st.fills.push(
                                        PreparedFill {
                                            event_index: i as usize,
                                            side,
                                            fill_ts_us: fifo_time(e),
                                            liquidity: role_for(e, roles),
                                        },
                                    ),
                                    refs: if ref_of(st.refs, k) is Some {
                                        st.refs
                                    } else {
                                        st.refs.push((k, (e.price_bits, e.venue@)))
                                    },
                                    ..st
                                },
                            )
                        },
                    }
                }
            },
        }
    }
}

/// Every kept fill comes after the snapshot time.
pub proof fn lemma_kept_fills_follow_snapshot(
    source_id: Seq<char>,
    events: Seq<UniformOrderEvent>,
    ord: Seq<int>,
    cutoff: Option<i64>,
    roles: Seq<(LiquidityKey, LiquidityRole)>,
)
    requires
        scan(source_id, events, ord, cutoff, roles) is Ok,
    ensures
        forall|j: int|
            0 <= j < scan(source_id, events, ord, cutoff, roles)->Ok_0.fills.len() ==> (cutoff matches Some(c) ==> (
            #[trigger] scan(source_id, events, ord, cutoff, roles)->Ok_0.fills[j]).fill_ts_us > c),
    decreases ord.len(),
{
    if ord.len() > 0 {
        lemma_kept_fills_follow_snapshot(source_id, events, ord.drop_last(), cutoff, roles);
    }
}

/// The fills' times never decrease along the list.
pub open spec fn fills_in_time_order(fills: Seq<PreparedFill>) -> bool {
    forall|j: int, k: int| 0 <= j < k < fills.len() ==> (#[trigger] fills[j]).fill_ts_us <= (#[trigger] fills[k]).fill_ts_us
}

/// Scanning positions in nondecreasing FIFO time keeps fills in time order,
/// none later than the last position scanned.
proof fn lemma_scan_fills_sorted(
    source_id: Seq<char>,
    events: Seq<UniformOrderEvent>,
    ord: Seq<int>,
    cutoff: Option<i64>,
    roles: Seq<(LiquidityKey, LiquidityRole)>,
)
    requires
        scan(source_id, events, ord, cutoff, roles) is Ok,
        forall|p: int, q: int| 0 <= p < q < ord.len() ==> fifo_time(events[#[trigger] ord[p]])
            <= fifo_time(events[#[trigger] ord[q]]),
    ensures
        fills_in_time_order(scan(source_id, events, ord, cutoff, roles)->Ok_0.fills),
        ord.len() > 0 ==> forall|j: int|
            0 <= j < scan(source_id, events, ord, cutoff, roles)->Ok_0.fills.len() ==> (
            #[trigger] scan(source_id, events, ord, cutoff, roles)->Ok_0.fills[j]).fill_ts_us <= fifo_time(
                events[ord.last()],
            ),
    decreases ord.len(),
{
    if ord.len() > 0 {
        let prev = ord.drop_last();
        assert forall|p: int, q: int| 0 <= p < q < prev.len() implies fifo_time(events[#[trigger] prev[p]])
            <= fifo_time(events[#[trigger] prev[q]]) by {
            assert(prev[p] == ord[p] && prev[q] == ord[q]);
        }
        lemma_scan_fills_sorted(source_id, events, prev, cutoff, roles);
        let old_fills = scan(source_id, events, prev, cutoff, roles)->Ok_0.fills;
        let new_fills = scan(source_id, events, ord, cutoff, roles)->Ok_0.fills;
        if prev.len() > 0 {
            assert(prev.last() == ord[prev.len() - 1]);
            assert(fifo_time(events[prev.last()]) <= fifo_time(events[ord.last()]));
        } else {
            assert(old_fills.len() == 0);
        }
        assert forall|j: int| 0 <= j < new_fills.len() implies (#[trigger] new_fills[j]).fill_ts_us <= fifo_time(
            events[ord.last()],
        ) by {
            if j < old_fills.len() {
                assert(new_fills[j] == old_fills[j]);
            }
        }
        assert forall|j: int, k: int| 0 <= j < k < new_fills.len() implies (#[trigger] new_fills[j]).fill_ts_us
            <= (#[trigger] new_fills[k]).fill_ts_us by {
            if k < old_fills.len() {
                assert(new_fills[j] == old_fills[j] && new_fills[k] == old_fills[k]);
            } else {
                assert(new_fills[j] == old_fills[j]);
            }
        }
    }
}

/// Preparation keeps only fills later than the effective snapshot: a
/// history rebuilt on a snapshot starts after it.
pub proof fn lemma_prepared_fills_follow_snapshot(
    source: SourceConfig,
    events: Seq<UniformOrderEvent>,
    snapshot: Option<&PositionSnapshot>,
    strategy: Option<(&StrategyPositionSnapshot, &PositionSnapshot)>,
    roles: Seq<(LiquidityKey, LiquidityRole)>,
)
    requires
        prepared_of(source, events, snapshot, strategy, roles) is Ok,
    ensures
        forall|j: int|
            0 <= j < prepared_of(source, events, snapshot, strategy, roles)->Ok_0.fill_events.len() ==> (
            prepared_of(source, events, snapshot, strategy, roles)->Ok_0.snapshot_ts_us matches Some(t) ==> (
            #[trigger] prepared_of(source, events, snapshot, strategy, roles)->Ok_0.fill_events[j]).fill_ts_us > t),
{
    let eff = effective_snapshot(snapshot, strategy);
    let cutoff: Option<i64> = match eff {
        Some(s) => Some(s.snapshot_ts_us),
        None => None,
    };
    lemma_kept_fills_follow_snapshot(source.id@, events, chronology(events), cutoff, roles);
}

/// Some lot is for market `k`.
pub open spec fn has_market(lots: Seq<LotView>, k: (Seq<char>, i16)) -> bool {
    exists|j: int| 0 <= j < lots.len() && (#[trigger] lots[j]).0 == k
}

/// The lots the snapshot positions seed, in order (see `seed_of`); refused
/// at the first position that cannot seed one.
pub open spec fn lots_of(
    source_id: Seq<char>,
    positions: Seq<SnapshotPosition>,
    refs: Seq<RefView>,
    ts: i64,
) -> Result<Seq<LotView>, PrepareErrorView>
    decreases positions.len(),
{
    if positions.len() == 0 {
        Ok(Seq::empty())
    } else {
        match lots_of(source_id, positions.drop_last(), refs, ts) {
            Err(e) => Err(e),
            Ok(lots) => seed_of(source_id, positions.last(), refs, lots, ts),
        }
    }
}

/// The lots after seeding position `p` onto `lots`: the configured
/// reference price (finite and positive) or else the market's first fill
/// price; the first fill's venue or else the venue code's name. Refused
/// without a usable price, or for a market already seeded.
pub open spec fn seed_of(
    source_id: Seq<char>,
    p: SnapshotPosition,
    refs: Seq<RefView>,
    lots: Seq<LotView>,
    ts: i64,
) -> Result<Seq<LotView>, PrepareErrorView> {
    let k = (p.symbol@, p.venue_code);
    let first = ref_of(refs, k);
    let price: Result<(u64, InitialReferencePriceSource), PrepareErrorView> = match p.reference_price_bits {
        Some(b) => if is_finite(b) && gt_zero(b) {
            Ok((b, InitialReferencePriceSource::Configured))
        } else {
            Err(PrepareErrorView::InvalidReference(source_id, p.symbol@, p.venue_code))
        },
        None => match first {
            Some(r) => Ok((r.0, InitialReferencePriceSource::FirstFill)),
            None => Err(PrepareErrorView::MissingReference(source_id, p.symbol@, p.venue_code)),
        },
    };
    match price {
        Err(e) => Err(e),
        Ok(pr) => if has_market(lots, k) {
            Err(PrepareErrorView::DuplicateInitial(source_id, p.symbol@, p.venue_code))
        } else {
            Ok(
                lots.push(
                    (
                        k,
                        InitialLotView {
                            venue_code: p.venue_code,
                            venue: match first {
                                Some(r) => r.1,
                                None => venue_label(p.venue_code as u8),
                            },
                            quantity_bits: p.quantity_bits,
                            reference_price_bits: pr.0,
                            reference_source: pr.1,
                            snapshot_ts_us: ts,
                        },
                    ),
                ),
            )
        },
    }
}

/// The lot of a strategy snapshot position.
pub open spec fn strategy_lot(p: StrategySnapshotPosition, refs: Seq<RefView>, ts: i64) -> InitialLotView {
    InitialLotView {
        venue_code: p.venue_code,
        venue: match ref_of(refs, (p.symbol@, p.venue_code)) {
            Some(r) => r.1,
            None => venue_label(p.venue_code as u8),
        },
        quantity_bits: p.quantity_bits,
        reference_price_bits: p.reference_price_bits,
        reference_source: InitialReferencePriceSource::Configured,
        snapshot_ts_us: ts,
    }
}

/// The strategy lots of a strategy snapshot; a later position of the same
/// strategy market replaces the earlier one.
pub open spec fn strategy_lots(positions: Seq<StrategySnapshotPosition>, refs: Seq<RefView>, ts: i64) -> Seq<StrategyLotView>
    decreases positions.len(),
{
    if positions.len() == 0 {
        Seq::empty()
    } else {
        let p = positions.last();
        put_entry(
            strategy_lots(positions.drop_last(), refs, ts),
            (p.strategy_name@, p.symbol@, p.venue_code),
            strategy_lot(p, refs, ts),
        )
    }
}

/// The account lots as lots of the initial-position strategy.
pub open spec fn initial_position_lots(lots: Seq<LotView>) -> Seq<StrategyLotView> {
    lots.map_values(|l: LotView| (("__initial_position__"@, l.0.0, l.0.1), l.1))
}

/// The prepared events of a source: both snapshots must belong to it; the
/// effective snapshot decides the cut-off; the fills after it are kept in
/// chronology; the snapshot positions seed the lots.
pub open spec fn prepared_of(
    source: SourceConfig,
    events: Seq<UniformOrderEvent>,
    snapshot: Option<&PositionSnapshot>,
    strategy: Option<(&StrategyPositionSnapshot, &PositionSnapshot)>,
    roles: Seq<(LiquidityKey, LiquidityRole)>,
) -> Result<PreparedView, PrepareErrorView> {
    if snapshot is Some && snapshot->Some_0.source_id@ != source.id@ {
        Err(PrepareErrorView::SnapshotSource(snapshot->Some_0.source_id@, source.id@))
    } else if strategy is Some && strategy->Some_0.0.source_id@ != source.id@ {
        Err(PrepareErrorView::StrategySnapshotSource(strategy->Some_0.0.source_id@, source.id@))
    } else {
        let active = strategy_active(snapshot, strategy);
        let eff = effective_snapshot(snapshot, strategy);
        let cutoff: Option<i64> = match eff {
            Some(s) => Some(s.snapshot_ts_us),
            None => None,
        };
        match scan(source.id@, events, chronology(events), cutoff, roles) {
            Err(f) => Err(PrepareErrorView::Fill(f)),
            Ok(st) => {
                let positions = match eff {
                    Some(s) => s.positions@,
                    None => Seq::empty(),
                };
                let ts = match cutoff {
                    Some(t) => t,
                    None => 0,
                };
                match lots_of(source.id@, positions, st.refs, ts) {
                    Err(e) => Err(e),
                    Ok(lots) => Ok(
                        PreparedView {
                            snapshot_ts_us: cutoff,
                            initial_states: lots,
                            initial_strategy_states: if active {
                                strategy_lots(
                                    strategy->Some_0.0.positions@,
                                    st.refs,
                                    strategy->Some_0.0.snapshot_ts_us,
                                )
                            } else {
                                initial_position_lots(lots)
                            },
                            strategy_allocation_active: active,
                            fill_events: st.fills,
                            order_event_count: events.len(),
                            ignored_at_or_before_snapshot_event_count: st.before,
                            ignored_non_fill_event_count: st.non_fill,
                        },
                    ),
                }
            },
        }
    }
}

/// Each market's first fill, as the pass records it.
pub type FirstFills = Vec<(MarketKey, (u64, String))>;

pub open spec fn refs_view(v: Seq<(MarketKey, (u64, String))>) -> Seq<RefView> {
    v.map_values(|e: (MarketKey, (u64, String))| ((e.0.0@, e.0.1), (e.1.0, e.1.1@)))
}

fn find_ref(refs: &FirstFills, symbol: &str, venue_code: i16) -> (r: Option<usize>)
    ensures
        r matches Some(j) ==> j < refs@.len() && ref_of(refs_view(refs@), (symbol@, venue_code)) == Some(
            refs_view(refs@)[j as int].1,
        ),
        r is None ==> ref_of(refs_view(refs@), (symbol@, venue_code)) is None,
{
    let ghost v = refs_view(refs@);
    let ghost k = (symbol@, venue_code);
    let mut i: usize = 0;
    assert(v.skip(0) =~= v);
    while i < refs.len()
        invariant
            v == refs_view(refs@),
            k == (symbol@, venue_code),
            i <= refs@.len(),
            ref_of(v, k) == ref_of(v.skip(i as int), k),
        decreases refs@.len() - i,
    {
        assert(v.skip(i as int).drop_first() =~= v.skip(i + 1));
        assert(v.skip(i as int)[0] == v[i as int]);
        if refs[i].0.1 == venue_code && str_eq(refs[i].0.0.as_str(), symbol) {
            return Some(i);
        }
        i = i + 1;
    }
    None
}

fn has_market_exec(lots: &Vec<(MarketKey, InitialLot)>, symbol: &str, venue_code: i16) -> (r: bool)
    ensures
        r == has_market(lots_view(lots@), (symbol@, venue_code)),
{
    let ghost v = lots_view(lots@);
    let mut i: usize = 0;
    while i < lots.len()
        invariant
            v == lots_view(lots@),
            i <= lots@.len(),
            forall|j: int| 0 <= j < i ==> v[j].0 != (symbol@, venue_code),
        decreases lots@.len() - i,
    {
        assert(v[i as int].0 == (lots@[i as int].0.0@, lots@[i as int].0.1));
        if lots[i].0.1 == venue_code && str_eq(lots[i].0.0.as_str(), symbol) {
            assert(v[i as int].0 == (symbol@, venue_code));
            return true;
        }
        i = i + 1;
    }
    false
}

fn find_strategy_lot(lots: &Vec<(StrategyMarketKey, InitialLot)>, strategy: &str, symbol: &str, venue_code: i16) -> (r: Option<usize>)
    ensures
        r matches Some(j) ==> j < lots@.len() && find_key(strategy_lots_view(lots@), (strategy@, symbol@, venue_code)) == j,
        r is None ==> find_key(strategy_lots_view(lots@), (strategy@, symbol@, venue_code)) == -1,
{
    let ghost v = strategy_lots_view(lots@);
    let ghost k = (strategy@, symbol@, venue_code);
    let mut i: usize = 0;
    while i < lots.len()
        invariant
            v == strategy_lots_view(lots@),
            k == (strategy@, symbol@, venue_code),
            i <= lots@.len(),
            forall|j: int| 0 <= j < i ==> (#[trigger] v[j]).0 != k,
        decreases lots@.len() - i,
    {
        assert(v[i as int].0 == (lots@[i as int].0.0@, lots@[i as int].0.1@, lots@[i as int].0.2));
        if lots[i].0.2 == venue_code && str_eq(lots[i].0.0.as_str(), strategy) && str_eq(lots[i].0.1.as_str(), symbol) {
            proof {
                lemma_find_key_is(v, k, i as int);
            }
            return Some(i);
        }
        i = i + 1;
    }
    proof {
        lemma_find_key(v, k);
        if find_key(v, k) >= 0 {
            assert(v[find_key(v, k)].0 == k);
        }
    }
    None
}

/// The lot a snapshot position seeds, or why it cannot.
fn seed_lot(
    source_id: &str,
    p: &SnapshotPosition,
    refs: &FirstFills,
    lots: &Vec<(MarketKey, InitialLot)>,
    ts: i64,
) -> (r: Result<(MarketKey, InitialLot), PrepareError>)
    ensures
        r matches Ok(e) ==> seed_of(source_id@, *p, refs_view(refs@), lots_view(lots@), ts) == Ok::<
            Seq<LotView>,
            PrepareErrorView,
        >(lots_view(lots@).push(((e.0.0@, e.0.1), e.1.view()))),
        r matches Err(e) ==> seed_of(source_id@, *p, refs_view(refs@), lots_view(lots@), ts) == Err::<
            Seq<LotView>,
            PrepareErrorView,
        >(e.view()),
{
    let first = find_ref(refs, p.symbol.as_str(), p.venue_code);
    let (price, source) = match p.reference_price_bits {
        Some(b) => {
            if f64_is_finite(b) && f64_gt_zero(b) {
                (b, InitialReferencePriceSource::Configured)
            } else {
                return Err(PrepareError::InvalidReference(owned(source_id), p.symbol.clone(), p.venue_code));
            }
        },
        None => match first {
            Some(j) => (refs[j].1.0, InitialReferencePriceSource::FirstFill),
            None => return Err(PrepareError::MissingReference(owned(source_id), p.symbol.clone(), p.venue_code)),
        },
    };
    if has_market_exec(lots, p.symbol.as_str(), p.venue_code) {
        return Err(PrepareError::DuplicateInitial(owned(source_id), p.symbol.clone(), p.venue_code));
    }
    let venue = match first {
        Some(j) => refs[j].1.1.clone(),
        None => venue_name(p.venue_code as u8),
    };
    let lot = InitialLot {
        venue_code: p.venue_code,
        venue,
        quantity_bits: p.quantity_bits,
        reference_price_bits: price,
        reference_source: source,
        snapshot_ts_us: ts,
    };
    let symbol = p.symbol.clone();
    Ok(((symbol, p.venue_code), lot))
}

fn copy_lot(l: &InitialLot) -> (r: InitialLot)
    ensures
        r.view() == l.view(),
{
    InitialLot {
        venue_code: l.venue_code,
        venue: l.venue.clone(),
        quantity_bits: l.quantity_bits,
        reference_price_bits: l.reference_price_bits,
        reference_source: l.reference_source,
        snapshot_ts_us: l.snapshot_ts_us,
    }
}

proof fn lemma_scan_prefix_error(
    source_id: Seq<char>,
    events: Seq<UniformOrderEvent>,
    ord: Seq<int>,
    n: int,
    cutoff: Option<i64>,
    roles: Seq<(LiquidityKey, LiquidityRole)>,
)
    requires
        0 <= n <= ord.len(),
        scan(source_id, events, ord.take(n), cutoff, roles) is Err,
    ensures
        scan(source_id, events, ord, cutoff, roles) == scan(source_id, events, ord.take(n), cutoff, roles),
    decreases ord.len() - n,
{
    if n < ord.len() {
        assert(ord.take(n + 1).drop_last() =~= ord.take(n));
        lemma_scan_prefix_error(source_id, events, ord, n + 1, cutoff, roles);
    } else {
        assert(ord.take(n) =~= ord);
    }
}

proof fn lemma_lots_prefix_error(
    source_id: Seq<char>,
    positions: Seq<SnapshotPosition>,
    refs: Seq<RefView>,
    ts: i64,
    n: int,
)
    requires
        0 <= n <= positions.len(),
        lots_of(source_id, positions.take(n), refs, ts) is Err,
    ensures
        lots_of(source_id, positions, refs, ts) == lots_of(source_id, positions.take(n), refs, ts),
    decreases positions.len() - n,
{
    if n < positions.len() {
        assert(positions.take(n + 1).drop_last() =~= positions.take(n));
        lemma_lots_prefix_error(source_id, positions, refs, ts, n + 1);
    } else {
        assert(positions.take(n) =~= positions);
    }
}

fn scan_events(
    source_id: &str,
    events: &Vec<UniformOrderEvent>,
    cutoff: Option<i64>,
    roles: &Vec<(LiquidityKey, LiquidityRole)>,
) -> (r: Result<(Vec<PreparedFill>, FirstFills, u64, u64), FillError>)
    requires
        orders_unique(roles@),
    ensures
        r matches Ok(x) ==> scan(source_id@, events@, chronology(events@), cutoff, roles@) == Ok::<ScanView, FillErrorView>(
            ScanView { fills: x.0@, refs: refs_view(x.1@), before: x.2 as nat, non_fill: x.3 as nat },
        ),
        r matches Err(e) ==> scan(source_id@, events@, chronology(events@), cutoff, roles@) == Err::<ScanView, FillErrorView>(
            e.view(),
        ),
        r matches Ok(x) ==> fills_in_time_order(x.0@),
{
    let ord = chronological_order(events);
    let ghost m = ord@.map_values(|x: usize| x as int);
    proof {
        lemma_chronology_unique(events@, m, chronology(events@));
    }
    let mut fills: Vec<PreparedFill> = Vec::new();
    let mut refs: FirstFills = Vec::new();
    let mut before: u64 = 0;
    let mut non_fill: u64 = 0;
    let mut k: usize = 0;
    proof {
        assert(m.take(0) =~= Seq::<int>::empty());
        assert(refs_view(refs@) =~= Seq::<RefView>::empty());
    }
    while k < ord.len()
        invariant
            m == ord@.map_values(|x: usize| x as int),
            m == chronology(events@),
            is_chronology(events@, m),
            orders_unique(roles@),
            k <= ord@.len(),
            before + non_fill <= k,
            scan(source_id@, events@, m.take(k as int), cutoff, roles@) == Ok::<ScanView, FillErrorView>(
                ScanView { fills: fills@, refs: refs_view(refs@), before: before as nat, non_fill: non_fill as nat },
            ),
        decreases ord@.len() - k,
    {
        let i = ord[k];
        proof {
            assert(m.take(k + 1).drop_last() =~= m.take(k as int));
            assert(m.take(k + 1).last() == i as int);
            assert(0 <= m[k as int] < events@.len());
        }
        let e = &events[i];
        let f = fifo_ts_us(e);
        let skipped = match cutoff {
            Some(c) => f <= c,
            None => false,
        };
        if skipped {
            before = before + 1;
        } else {
            match validated_fill_side(source_id, e) {
                Err(fe) => {
                    proof {
                        lemma_scan_prefix_error(source_id@, events@, m, k + 1, cutoff, roles@);
                    }
                    return Err(fe);
                },
                Ok(None) => {
                    non_fill = non_fill + 1;
                },
                Ok(Some(side)) => {
                    let role = liquidity_role_for_event(e, roles);
                    fills.push(PreparedFill { event_index: i, side, fill_ts_us: f, liquidity: role });
                    let found = find_ref(&refs, e.symbol.as_str(), e.venue_code);
                    if found.is_none() {
                        let ghost old_refs = refs@;
                        refs.push(((e.symbol.clone(), e.venue_code), (e.price_bits, e.venue.clone())));
                        proof {
                            assert(refs_view(refs@) =~= refs_view(old_refs).push(
                                ((e.symbol@, e.venue_code), (e.price_bits, e.venue@)),
                            ));
                        }
                    }
                },
            }
        }
        k = k + 1;
    }
    proof {
        assert(m.take(m.len() as int) =~= m);
        assert forall|p: int, q: int| 0 <= p < q < m.len() implies fifo_time(events@[#[trigger] m[p]])
            <= fifo_time(events@[#[trigger] m[q]]) by {
            assert(comes_before(events@, m[p], m[q]));
        }
        lemma_scan_fills_sorted(source_id@, events@, m, cutoff, roles@);
    }
    Ok((fills, refs, before, non_fill))
}

fn seed_lots(source_id: &str, positions: &Vec<SnapshotPosition>, refs: &FirstFills, ts: i64) -> (r: Result<
    Vec<(MarketKey, InitialLot)>,
    PrepareError,
>)
    ensures
        r matches Ok(v) ==> lots_of(source_id@, positions@, refs_view(refs@), ts) == Ok::<Seq<LotView>, PrepareErrorView>(
            lots_view(v@),
        ),
        r matches Err(e) ==> lots_of(source_id@, positions@, refs_view(refs@), ts) == Err::<Seq<LotView>, PrepareErrorView>(
            e.view(),
        ),
{
    let mut lots: Vec<(MarketKey, InitialLot)> = Vec::new();
    let mut j: usize = 0;
    proof {
        assert(lots_view(lots@) =~= Seq::<LotView>::empty());
        assert(positions@.take(0) =~= Seq::<SnapshotPosition>::empty());
    }
    while j < positions.len()
        invariant
            j <= positions@.len(),
            lots_of(source_id@, positions@.take(j as int), refs_view(refs@), ts) == Ok::<Seq<LotView>, PrepareErrorView>(
                lots_view(lots@),
            ),
        decreases positions@.len() - j,
    {
        proof {
            assert(positions@.take(j + 1).drop_last() =~= positions@.take(j as int));
            assert(positions@.take(j + 1).last() == positions@[j as int]);
        }
        match seed_lot(source_id, &positions[j], refs, &lots, ts) {
            Ok(entry) => {
                let ghost old_lots = lots@;
                lots.push(entry);
                proof {
                    assert(lots_view(lots@) =~= lots_view(old_lots).push(((entry.0.0@, entry.0.1), entry.1.view())));
                }
            },
            Err(x) => {
                proof {
                    lemma_lots_prefix_error(source_id@, positions@, refs_view(refs@), ts, j + 1);
                }
                return Err(x);
            },
        }
        j = j + 1;
    }
    proof {
        assert(positions@.take(positions@.len() as int) =~= positions@);
    }
    Ok(lots)
}

fn seed_strategy_lots(sn: &StrategyPositionSnapshot, refs: &FirstFills) -> (r: Vec<(StrategyMarketKey, InitialLot)>)
    ensures
        strategy_lots_view(r@) == strategy_lots(sn.positions@, refs_view(refs@), sn.snapshot_ts_us),
{
    let mut states: Vec<(StrategyMarketKey, InitialLot)> = Vec::new();
    let mut j: usize = 0;
    proof {
        assert(strategy_lots_view(states@) =~= Seq::<StrategyLotView>::empty());
        assert(sn.positions@.take(0) =~= Seq::<StrategySnapshotPosition>::empty());
    }
    while j < sn.positions.len()
        invariant
            j <= sn.positions@.len(),
            strategy_lots(sn.positions@.take(j as int), refs_view(refs@), sn.snapshot_ts_us) == strategy_lots_view(
                states@,
            ),
        decreases sn.positions@.len() - j,
    {
        let p = &sn.positions[j];
        proof {
            assert(sn.positions@.take(j + 1).drop_last() =~= sn.positions@.take(j as int));
            assert(sn.positions@.take(j + 1).last() == *p);
        }
        let venue = match find_ref(refs, p.symbol.as_str(), p.venue_code) {
            Some(x) => refs[x].1.1.clone(),
            None => venue_name(p.venue_code as u8),
        };
        let lot = InitialLot {
            venue_code: p.venue_code,
            venue,
            quantity_bits: p.quantity_bits,
            reference_price_bits: p.reference_price_bits,
            reference_source: InitialReferencePriceSource::Configured,
            snapshot_ts_us: sn.snapshot_ts_us,
        };
        assert(lot.view() == strategy_lot(*p, refs_view(refs@), sn.snapshot_ts_us));
        let key = (p.strategy_name.clone(), p.symbol.clone(), p.venue_code);
        let ghost old = strategy_lots_view(states@);
        let ghost kv = (p.strategy_name@, p.symbol@, p.venue_code);
        match find_strategy_lot(&states, p.strategy_name.as_str(), p.symbol.as_str(), p.venue_code) {
            Some(x) => {
                states.set(x, (key, lot));
                proof {
                    assert(strategy_lots_view(states@) =~= old.update(x as int, (kv, lot.view())));
                }
            },
            None => {
                states.push((key, lot));
                proof {
                    assert(strategy_lots_view(states@) =~= old.push((kv, lot.view())));
                }
            },
        }
        j = j + 1;
    }
    proof {
        assert(sn.positions@.take(sn.positions@.len() as int) =~= sn.positions@);
    }
    states
}

fn initial_position_states(lots: &Vec<(MarketKey, InitialLot)>) -> (r: Vec<(StrategyMarketKey, InitialLot)>)
    ensures
        strategy_lots_view(r@) == initial_position_lots(lots_view(lots@)),
{
    let mut states: Vec<(StrategyMarketKey, InitialLot)> = Vec::new();
    let mut j: usize = 0;
    proof {
        assert(strategy_lots_view(states@) =~= initial_position_lots(lots_view(lots@)).take(0));
    }
    while j < lots.len()
        invariant
            j <= lots@.len(),
            strategy_lots_view(states@) == initial_position_lots(lots_view(lots@)).take(j as int),
        decreases lots@.len() - j,
    {
        let entry = &lots[j];
        let lot = copy_lot(&entry.1);
        let ghost old = states@;
        let name = owned("__initial_position__");
        states.push(((name, entry.0.0.clone(), entry.0.1), lot));
        proof {
            let all = initial_position_lots(lots_view(lots@));
            assert(all[j as int] == (("__initial_position__"@, entry.0.0@, entry.0.1), entry.1.view()));
            assert(strategy_lots_view(states@) =~= strategy_lots_view(old).push(all[j as int]));
            assert(all.take(j + 1) =~= all.take(j as int).push(all[j as int]));
        }
        j = j + 1;
    }
    proof {
        assert(initial_position_lots(lots_view(lots@)).take(lots@.len() as int) =~= initial_position_lots(lots_view(lots@)));
    }
    states
}

/// The events of `source` prepared for the position rebuild: both snapshots
/// must belong to the source; the strategy snapshot (with its account view)
/// counts when it is no older than the account snapshot; events at or before
/// the effective snapshot are skipped; the remaining fills, validated, are
/// kept in chronology with their liquidity roles; each market's first fill
/// gives the reference price of a snapshot position without one; the
/// snapshot positions seed lots without fee or volume. The kept fills come
/// in nondecreasing time.
pub fn prepare_source_events(
    source: &SourceConfig,
    events: &Vec<UniformOrderEvent>,
    snapshot: Option<&PositionSnapshot>,
    strategy_snapshot: Option<(&StrategyPositionSnapshot, &PositionSnapshot)>,
    roles: &Vec<(LiquidityKey, LiquidityRole)>,
) -> (r: Result<PreparedSourceEvents, PrepareError>)
    requires
        orders_unique(roles@),
    ensures
        r matches Ok(p) ==> prepared_of(*source, events@, snapshot, strategy_snapshot, roles@) == Ok::<
            PreparedView,
            PrepareErrorView,
        >(p.view()),
        r matches Err(e) ==> prepared_of(*source, events@, snapshot, strategy_snapshot, roles@) == Err::<
            PreparedView,
            PrepareErrorView,
        >(e.view()),
        r matches Ok(p) ==> fills_in_time_order(p.fill_events@),
{
    if let Some(s) = snapshot {
        if !str_eq(s.source_id.as_str(), source.id.as_str()) {
            return Err(PrepareError::SnapshotSource(s.source_id.clone(), source.id.clone()));
        }
    }
    if let Some(st) = strategy_snapshot {
        if !str_eq(st.0.source_id.as_str(), source.id.as_str()) {
            return Err(PrepareError::StrategySnapshotSource(st.0.source_id.clone(), source.id.clone()));
        }
    }
    let active = match strategy_snapshot {
        None => false,
        Some(st) => match snapshot {
            None => true,
            Some(s) => st.0.snapshot_ts_us >= s.snapshot_ts_us,
        },
    };
    let eff: Option<&PositionSnapshot> = if active {
        match strategy_snapshot {
            Some(st) => Some(st.1),
            None => None,
        }
    } else {
        snapshot
    };
    let cutoff: Option<i64> = match eff {
        Some(s) => Some(s.snapshot_ts_us),
        None => None,
    };
    let (fills, refs, before, non_fill) = match scan_events(source.id.as_str(), events, cutoff, roles) {
        Ok(x) => x,
        Err(fe) => return Err(PrepareError::Fill(fe)),
    };
    let ts: i64 = match cutoff {
        Some(t) => t,
        None => 0,
    };
    let empty: Vec<SnapshotPosition> = Vec::new();
    let positions: &Vec<SnapshotPosition> = match eff {
        Some(s) => &s.positions,
        None => &empty,
    };
    proof {
        assert(empty@ =~= Seq::<SnapshotPosition>::empty());
    }
    let lots = match seed_lots(source.id.as_str(), positions, &refs, ts) {
        Ok(v) => v,
        Err(x) => return Err(x),
    };
    let strategy_states = match strategy_snapshot {
        Some(pair) => if active {
            seed_strategy_lots(pair.0, &refs)
        } else {
            initial_position_states(&lots)
        },
        None => initial_position_states(&lots),
    };
    assert(usize::MAX <= u64::MAX);
    Ok(
        PreparedSourceEvents {
            snapshot_ts_us: cutoff,
            initial_states: lots,
            initial_strategy_states: strategy_states,
            strategy_allocation_active: active,
            fill_events: fills,
            order_event_count: events.len() as u64,
            ignored_at_or_before_snapshot_event_count: before,
            ignored_non_fill_event_count: non_fill,
        },
    )
}

} // verus!
