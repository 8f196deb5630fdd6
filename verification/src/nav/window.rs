//! The window of a NAV timeline: which snapshots may take part, where each
//! source's history starts, and the start and end the request may ask for.

use vstd::prelude::*;

use crate::nav::prepare::{PreparedFill, PreparedSourceEvents};
use crate::text::{concat2, owned, signed_decimal, signed_decimal_string, str_eq};

verus! {

/// A snapshot handed in for a source that the request did not select.
#[derive(Debug, Clone)]
pub struct SnapshotSourceError {
    /// A strategy snapshot (rather than an account snapshot).
    pub strategy: bool,
    pub source_id: String,
}

/// Operator-facing text of a snapshot of an unselected source.
pub open spec fn snapshot_source_error_text(strategy: bool, source_id: Seq<char>) -> Seq<char> {
    if strategy {
        "strategy position snapshots contain unselected source "@ + source_id
    } else {
        "position snapshots contain unselected source "@ + source_id
    }
}

impl SnapshotSourceError {
    /// Operator-facing text of the error.
    pub fn message(&self) -> (r: String)
        ensures
            r@ == snapshot_source_error_text(self.strategy, self.source_id@),
    {
        if self.strategy {
            concat2("strategy position snapshots contain unselected source ", self.source_id.as_str())
        } else {
            concat2("position snapshots contain unselected source ", self.source_id.as_str())
        }
    }
}

/// `x` is one of the texts of `v`.
pub open spec fn listed(v: Seq<String>, x: Seq<char>) -> bool {
    exists|i: int| 0 <= i < v.len() && (#[trigger] v[i])@ == x
}

/// The first of `ids` that `selected` does not list.
pub open spec fn first_unlisted(selected: Seq<String>, ids: Seq<String>) -> Option<Seq<char>>
    decreases ids.len(),
{
    if ids.len() == 0 {
        None
    } else if !listed(selected, ids[0]@) {
        Some(ids[0]@)
    } else {
        first_unlisted(selected, ids.drop_first())
    }
}

/// The first snapshot of an unselected source: account snapshots first,
/// then strategy snapshots, each in the order given.
pub open spec fn snapshot_source_error(
    selected: Seq<String>,
    snapshot_ids: Seq<String>,
    strategy_snapshot_ids: Seq<String>,
) -> Option<(bool, Seq<char>)> {
    match first_unlisted(selected, snapshot_ids) {
        Some(id) => Some((false, id)),
        None => match first_unlisted(selected, strategy_snapshot_ids) {
            Some(id) => Some((true, id)),
            None => None,
        },
    }
}

fn is_listed(v: &Vec<String>, x: &str) -> (r: bool)
    ensures
        r == listed(v@, x@),
{
    let mut i: usize = 0;
    while i < v.len()
        invariant
            i <= v@.len(),
            forall|k: int| 0 <= k < i ==> (#[trigger] v@[k])@ != x@,
        decreases v@.len() - i,
    {
        if str_eq(v[i].as_str(), x) {
            return true;
        }
        i = i + 1;
    }
    false
}

fn find_unlisted(selected: &Vec<String>, ids: &Vec<String>) -> (r: Option<String>)
    ensures
        r matches Some(s) ==> first_unlisted(selected@, ids@) == Some(s@),
        r is None ==> first_unlisted(selected@, ids@) is None,
{
    let mut i: usize = 0;
    assert(ids@.skip(0) =~= ids@);
    while i < ids.len()
        invariant
            i <= ids@.len(),
            first_unlisted(selected@, ids@) == first_unlisted(selected@, ids@.skip(i as int)),
        decreases ids@.len() - i,
    {
        let ghost rest = ids@.skip(i as int);
        assert(rest[0] == ids@[i as int]);
        assert(rest.drop_first() =~= ids@.skip(i + 1));
        if !is_listed(selected, ids[i].as_str()) {
            return Some(owned(ids[i].as_str()));
        }
        i = i + 1;
    }
    assert(ids@.skip(i as int).len() == 0);
    None
}

/// Refuses snapshots of sources the request did not select; the ids of the
/// account snapshots are checked before those of the strategy snapshots.
pub fn check_snapshot_sources(
    selected_ids: &Vec<String>,
    snapshot_source_ids: &Vec<String>,
    strategy_snapshot_source_ids: &Vec<String>,
) -> (r: Result<(), SnapshotSourceError>)
    ensures
        r is Ok <==> snapshot_source_error(
            selected_ids@,
            snapshot_source_ids@,
            strategy_snapshot_source_ids@,
        ) is None,
        r matches Err(e) ==> snapshot_source_error(
            selected_ids@,
            snapshot_source_ids@,
            strategy_snapshot_source_ids@,
        ) == Some((e.strategy, e.source_id@)),
{
    match find_unlisted(selected_ids, snapshot_source_ids) {
        Some(id) => {
            return Err(SnapshotSourceError { strategy: false, source_id: id });
        },
        None => {},
    }
    match find_unlisted(selected_ids, strategy_snapshot_source_ids) {
        Some(id) => Err(SnapshotSourceError { strategy: true, source_id: id }),
        None => Ok(()),
    }
}

/// The time of the first fill, in order, at or before `end`.
pub open spec fn first_fill_until(fills: Seq<PreparedFill>, end: i64) -> Option<i64>
    decreases fills.len(),
{
    if fills.len() == 0 {
        None
    } else if fills[0].fill_ts_us <= end {
        Some(fills[0].fill_ts_us)
    } else {
        first_fill_until(fills.drop_first(), end)
    }
}

/// Where a source's history starts for a timeline ending at `end`: its
/// snapshot time when the snapshot is not later than `end`, else its first
/// fill up to `end`; none when it has neither.
pub open spec fn anchor_of(snapshot_ts_us: Option<i64>, fills: Seq<PreparedFill>, end: i64) -> Option<i64> {
    match snapshot_ts_us {
        Some(s) if s <= end => Some(s),
        _ => first_fill_until(fills, end),
    }
}

/// The anchor of one prepared source.
pub fn source_anchor(prepared: &PreparedSourceEvents, end_ts_us: i64) -> (r: Option<i64>)
    ensures
        r == anchor_of(prepared.snapshot_ts_us, prepared.fill_events@, end_ts_us),
{
    match prepared.snapshot_ts_us {
        Some(s) => {
            if s <= end_ts_us {
                return Some(s);
            }
        },
        None => {},
    }
    let fills = &prepared.fill_events;
    let mut i: usize = 0;
    assert(fills@.skip(0) =~= fills@);
    while i < fills.len()
        invariant
            i <= fills@.len(),
            fills@ == prepared.fill_events@,
            !(prepared.snapshot_ts_us matches Some(s) && s <= end_ts_us),
            first_fill_until(fills@, end_ts_us) == first_fill_until(fills@.skip(i as int), end_ts_us),
        decreases fills@.len() - i,
    {
        let ghost rest = fills@.skip(i as int);
        assert(rest[0] == fills@[i as int]);
        assert(rest.drop_first() =~= fills@.skip(i + 1));
        if fills[i].fill_ts_us <= end_ts_us {
            return Some(fills[i].fill_ts_us);
        }
        i = i + 1;
    }
    assert(fills@.skip(i as int).len() == 0);
    None
}

/// Why a timeline window is refused.
#[derive(Debug, Clone, Copy, PartialEq, Eq, Structural)]
pub enum WindowError {
    NegativeEnd,
    /// The requested start precedes the earliest source anchor (given).
    StartBeforeEarliest(i64),
    EndBeforeStart,
}

/// Operator-facing text of a refused window.
pub open spec fn window_error_text(e: WindowError) -> Seq<char> {
    match e {
        WindowError::NegativeEnd => "end timestamp must not be negative"@,
        WindowError::StartBeforeEarliest(t) =>
            "start timestamp must be greater than or equal to earliest source timestamp "@
            + signed_decimal(t as int),
        WindowError::EndBeforeStart => "end timestamp must be greater than or equal to start timestamp"@,
    }
}

impl WindowError {
    /// Operator-facing text of the error.
    pub fn message(&self) -> (r: String)
        ensures
            r@ == window_error_text(*self),
    {
        match self {
            WindowError::NegativeEnd => owned("end timestamp must not be negative"),
            WindowError::StartBeforeEarliest(t) => concat2(
                "start timestamp must be greater than or equal to earliest source timestamp ",
                signed_decimal_string(*t).as_str(),
            ),
            WindowError::EndBeforeStart => owned(
                "end timestamp must be greater than or equal to start timestamp",
            ),
        }
    }
}

/// The least of a list of times.
pub open spec fn min_time(v: Seq<i64>) -> Option<i64>
    decreases v.len(),
{
    if v.len() == 0 {
        None
    } else {
        match min_time(v.drop_last()) {
            Some(m) => Some(if v.last() < m {
                v.last()
            } else {
                m
            }),
            None => Some(v.last()),
        }
    }
}

/// The window of a timeline ending at `end`: the start is the requested
/// one, else the earliest anchor, else the end; the earliest time is the
/// earliest anchor, else the start. Refused when the end is negative, when
/// the start precedes the earliest anchor, or when the end precedes the
/// start.
pub open spec fn window_of(end: i64, start: Option<i64>, anchors: Seq<i64>) -> Result<
    (i64, i64),
    WindowError,
> {
    if end < 0 {
        Err(WindowError::NegativeEnd)
    } else {
        let earliest = min_time(anchors);
        let s = match start {
            Some(x) => x,
            None => match earliest {
                Some(e) => e,
                None => end,
            },
        };
        if earliest matches Some(e) && s < e {
            Err(WindowError::StartBeforeEarliest(earliest->0))
        } else if end < s {
            Err(WindowError::EndBeforeStart)
        } else {
            Ok(
                (
                    s,
                    match earliest {
                        Some(e) => e,
                        None => s,
                    },
                ),
            )
        }
    }
}

/// The start and earliest time of a timeline, from the request's end and
/// optional start and the anchors of its sources.
pub fn timeline_window(end_ts_us: i64, start_ts_us: Option<i64>, anchors: &Vec<i64>) -> (r: Result<
    (i64, i64),
    WindowError,
>)
    ensures
        r == window_of(end_ts_us, start_ts_us, anchors@),
{
    if end_ts_us < 0 {
        return Err(WindowError::NegativeEnd);
    }
    let mut earliest: Option<i64> = None;
    let mut i: usize = 0;
    while i < anchors.len()
        invariant
            i <= anchors@.len(),
            earliest == min_time(anchors@.take(i as int)),
        decreases anchors@.len() - i,
    {
        let a = anchors[i];
        assert(anchors@.take(i + 1).drop_last() =~= anchors@.take(i as int));
        earliest = match earliest {
            Some(m) => Some(
                if a < m {
                    a
                } else {
                    m
                },
            ),
            None => Some(a),
        };
        i = i + 1;
    }
    assert(anchors@.take(anchors@.len() as int) =~= anchors@);
    let start = match start_ts_us {
        Some(x) => x,
        None => match earliest {
            Some(e) => e,
            None => end_ts_us,
        },
    };
    match earliest {
        Some(e) => {
            if start < e {
                return Err(WindowError::StartBeforeEarliest(e));
            }
        },
        None => {},
    }
    if end_ts_us < start {
        return Err(WindowError::EndBeforeStart);
    }
    Ok(
        (
            start,
            match earliest {
                Some(e) => e,
                None => start,
            },
        ),
    )
}

/// An accepted window's earliest time is no later than any source's
/// anchor; the window starts at or after that earliest time and ends at or
/// after its start.
pub proof fn lemma_window_bounds(end: i64, start: Option<i64>, anchors: Seq<i64>, k: int)
    requires
        window_of(end, start, anchors) is Ok,
        0 <= k < anchors.len(),
    ensures
        window_of(end, start, anchors)->Ok_0.1 <= anchors[k],
        window_of(end, start, anchors)->Ok_0.1 <= window_of(end, start, anchors)->Ok_0.0,
        window_of(end, start, anchors)->Ok_0.0 <= end,
{
    lemma_min_time_below(anchors, k);
}

proof fn lemma_min_time_below(v: Seq<i64>, k: int)
    requires
        0 <= k < v.len(),
    ensures
        min_time(v) matches Some(m) && m <= v[k],
    decreases v.len(),
{
    if k < v.len() - 1 {
        lemma_min_time_below(v.drop_last(), k);
    } else if v.len() > 1 {
        lemma_min_time_below(v.drop_last(), 0);
    }
}

} // verus!
