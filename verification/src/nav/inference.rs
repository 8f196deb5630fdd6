//! When a strategy snapshot inferred from a source's history is taken: the
//! checks on the Exec allocation it starts from and the snapshot time.

use vstd::prelude::*;

use crate::float_bits::{f64_gt_zero, gt_zero};
use crate::model::UniformOrderEvent;
use crate::nav::fifo_ts_us;
use crate::nav::fills::fifo_time;
use crate::nav::window::min_time;
use crate::text::str_eq;

verus! {

/// What the inference reads of an Exec strategy allocation besides its
/// rows: whose it is, when it was taken and whether it is ready.
pub struct AllocationHeader {
    pub source_id: String,
    pub snapshot_ts_ms: i64,
    pub position_ready: bool,
}

/// Why no snapshot time can be inferred.
#[derive(Debug, Clone, Copy, PartialEq, Eq, Structural)]
pub enum InferenceError {
    /// The allocation is not ready or has no time.
    AllocationNotReady,
    /// The allocation belongs to another source.
    AllocationSource,
    /// The venue code is outside `0..=255`.
    VenueCode,
    /// The allocation time in microseconds overflows an `i64`.
    AllocationTsOverflow,
    /// The requested time is not before the allocation.
    RequestedNotEarlier,
    /// The venue has no fill with a positive filled amount.
    NoFills,
    /// The snapshot time is not positive.
    NonPositiveSnapshot,
}

/// Operator-facing text of the error.
pub open spec fn inference_error_text(e: InferenceError) -> Seq<char> {
    match e {
        InferenceError::AllocationNotReady => "Exec Viz allocation state is not ready"@,
        InferenceError::AllocationSource => "Exec Viz allocation source does not match requested source"@,
        InferenceError::VenueCode => "--venue-code must be between 0 and 255"@,
        InferenceError::AllocationTsOverflow => "Exec Viz allocation timestamp overflowed microseconds"@,
        InferenceError::RequestedNotEarlier => "--snapshot-ts-us must be earlier than the Exec Viz allocation timestamp"@,
        InferenceError::NoFills => "the selected venue has no factual fills to infer from"@,
        InferenceError::NonPositiveSnapshot => "inferred strategy snapshot timestamp must be positive"@,
    }
}

impl InferenceError {
    /// Operator-facing text of the error.
    pub fn message(&self) -> (r: &'static str)
        ensures
            r@ == inference_error_text(*self),
    {
        match self {
            InferenceError::AllocationNotReady => "Exec Viz allocation state is not ready",
            InferenceError::AllocationSource => "Exec Viz allocation source does not match requested source",
            InferenceError::VenueCode => "--venue-code must be between 0 and 255",
            InferenceError::AllocationTsOverflow => "Exec Viz allocation timestamp overflowed microseconds",
            InferenceError::RequestedNotEarlier => "--snapshot-ts-us must be earlier than the Exec Viz allocation timestamp",
            InferenceError::NoFills => "the selected venue has no factual fills to infer from",
            InferenceError::NonPositiveSnapshot => "inferred strategy snapshot timestamp must be positive",
        }
    }
}

/// The FIFO times of the venue's fills with a positive filled amount.
pub open spec fn venue_fill_times(events: Seq<UniformOrderEvent>, venue_code: i16) -> Seq<i64>
    decreases events.len(),
{
    if events.len() == 0 {
        Seq::empty()
    } else {
        let e = events.last();
        let rest = venue_fill_times(events.drop_last(), venue_code);
        if e.venue_code == venue_code && gt_zero(e.amount_update_bits) {
            rest.push(fifo_time(e))
        } else {
            rest
        }
    }
}

/// The inferred snapshot time, or the first check it fails: the allocation
/// must be ready, of the source and the venue code a byte; the requested
/// time must precede the allocation; without one, the snapshot is taken
/// just before the earliest fill of the venue (at it when that is the
/// least `i64`); the time must be positive.
pub open spec fn inferred_snapshot_ts_of(
    source_id: Seq<char>,
    venue_code: i16,
    requested: Option<i64>,
    header: AllocationHeader,
    events: Seq<UniformOrderEvent>,
) -> Result<i64, InferenceError> {
    if !header.position_ready || header.snapshot_ts_ms <= 0 {
        Err(InferenceError::AllocationNotReady)
    } else if header.source_id@ != source_id {
        Err(InferenceError::AllocationSource)
    } else if !(0 <= venue_code <= 255) {
        Err(InferenceError::VenueCode)
    } else if header.snapshot_ts_ms * 1000 > i64::MAX {
        Err(InferenceError::AllocationTsOverflow)
    } else if requested matches Some(t) && t >= header.snapshot_ts_ms * 1000 {
        Err(InferenceError::RequestedNotEarlier)
    } else {
        match min_time(venue_fill_times(events, venue_code)) {
            None => Err(InferenceError::NoFills),
            Some(earliest) => {
                let ts: i64 = match requested {
                    Some(t) => t,
                    None => if earliest > i64::MIN {
                        (earliest - 1) as i64
                    } else {
                        earliest
                    },
                };
                if ts <= 0 {
                    Err(InferenceError::NonPositiveSnapshot)
                } else {
                    Ok(ts)
                }
            },
        }
    }
}

fn earliest_venue_fill(events: &Vec<UniformOrderEvent>, venue_code: i16) -> (r: Option<i64>)
    ensures
        r == min_time(venue_fill_times(events@, venue_code)),
{
    let mut earliest: Option<i64> = None;
    let mut i: usize = 0;
    while i < events.len()
        invariant
            i <= events@.len(),
            earliest == min_time(venue_fill_times(events@.take(i as int), venue_code)),
        decreases events@.len() - i,
    {
        let e = &events[i];
        let ghost before = venue_fill_times(events@.take(i as int), venue_code);
        assert(events@.take(i + 1).drop_last() =~= events@.take(i as int));
        assert(events@.take(i + 1).last() == events@[i as int]);
        if e.venue_code == venue_code && f64_gt_zero(e.amount_update_bits) {
            let t = fifo_ts_us(e);
            assert(before.push(t).drop_last() =~= before);
            earliest = match earliest {
                Some(m) => Some(
                    if t < m {
                        t
                    } else {
                        m
                    },
                ),
                None => Some(t),
            };
        }
        i = i + 1;
    }
    assert(events@.take(events@.len() as int) =~= events@);
    earliest
}

/// The time of a strategy snapshot inferred from the venue's history of
/// source `source_id`, checked against the Exec allocation it is inferred
/// toward.
pub fn inferred_snapshot_ts(
    source_id: &str,
    venue_code: i16,
    requested_snapshot_ts_us: Option<i64>,
    header: &AllocationHeader,
    events: &Vec<UniformOrderEvent>,
) -> (r: Result<i64, InferenceError>)
    ensures
        r == inferred_snapshot_ts_of(source_id@, venue_code, requested_snapshot_ts_us, *header, events@),
{
    if !header.position_ready || header.snapshot_ts_ms <= 0 {
        return Err(InferenceError::AllocationNotReady);
    }
    if !str_eq(header.source_id.as_str(), source_id) {
        return Err(InferenceError::AllocationSource);
    }
    if venue_code < 0 || venue_code > 255 {
        return Err(InferenceError::VenueCode);
    }
    if header.snapshot_ts_ms > i64::MAX / 1000 {
        return Err(InferenceError::AllocationTsOverflow);
    }
    let allocation_ts_us = header.snapshot_ts_ms * 1000;
    match requested_snapshot_ts_us {
        Some(t) => {
            if t >= allocation_ts_us {
                return Err(InferenceError::RequestedNotEarlier);
            }
        },
        None => {},
    }
    let earliest = match earliest_venue_fill(events, venue_code) {
        Some(e) => e,
        None => {
            return Err(InferenceError::NoFills);
        },
    };
    let ts = match requested_snapshot_ts_us {
        Some(t) => t,
        None => if earliest > i64::MIN {
            earliest - 1
        } else {
            earliest
        },
    };
    if ts <= 0 {
        return Err(InferenceError::NonPositiveSnapshot);
    }
    Ok(ts)
}

} // verus!
