//! Poll windows of the uniform-order ingestion and the decoding of one
//! batch of archive records.

use vstd::prelude::*;

use crate::model::{
    decode_uniform_order, key_error, key_ok, uniform_order_fields, uo_tail_ok, uo_truncated,
    DecodeFailure, RecordKind, UniformOrderEvent,
};

verus! {

/// Why a poll cannot be planned.
#[derive(Debug, Clone, Copy, PartialEq, Eq, Structural)]
pub enum IngestError {
    /// The duration in microseconds overflows `u64`.
    MicrosOverflowU64,
    /// The duration in microseconds exceeds `i64`.
    MicrosExceedI64,
}

/// Operator-facing text of an unplannable poll.
pub open spec fn ingest_error_text(e: IngestError) -> Seq<char> {
    match e {
        IngestError::MicrosOverflowU64 => "duration in microseconds overflowed u64"@,
        IngestError::MicrosExceedI64 => "duration in microseconds exceeds i64"@,
    }
}

impl IngestError {
    /// Operator-facing text of the error.
    pub fn message(&self) -> (r: &'static str)
        ensures
            r@ == ingest_error_text(*self),
    {
        match self {
            IngestError::MicrosOverflowU64 => "duration in microseconds overflowed u64",
            IngestError::MicrosExceedI64 => "duration in microseconds exceeds i64",
        }
    }
}

/// A duration in whole seconds as microseconds, refused when it does not
/// fit an `i64`.
pub fn seconds_to_micros(seconds: u64) -> (r: Result<i64, IngestError>)
    ensures
        r is Ok <==> seconds * 1_000_000 <= i64::MAX,
        r matches Ok(v) ==> v == seconds * 1_000_000,
        r matches Err(e) ==> (e == IngestError::MicrosOverflowU64 <==> seconds * 1_000_000
            > u64::MAX),
{
    let micros = match seconds.checked_mul(1_000_000) {
        Some(m) => m,
        None => {
            return Err(IngestError::MicrosOverflowU64);
        },
    };
    if micros > 0x7FFF_FFFF_FFFF_FFFF {
        return Err(IngestError::MicrosExceedI64);
    }
    Ok(micros as i64)
}

/// `a - b` saturated to the `i64` range.
pub open spec fn sat_sub_i64(a: int, b: int) -> int {
    if a - b < i64::MIN {
        i64::MIN as int
    } else if a - b > i64::MAX {
        i64::MAX as int
    } else {
        a - b
    }
}

/// `i64::saturating_sub`.
pub fn saturating_sub_i64(a: i64, b: i64) -> (r: i64)
    ensures
        r == sat_sub_i64(a as int, b as int),
{
    if b >= 0 {
        if a < i64::MIN + b {
            i64::MIN
        } else {
            a - b
        }
    } else {
        if a > i64::MAX + b {
            i64::MAX
        } else {
            a - b
        }
    }
}

/// The range of keys one poll reads.
#[derive(Debug, Clone, Copy, PartialEq, Eq, Structural)]
pub struct ScanWindow {
    /// First key not yet ingested.
    pub next_ts_us: i64,
    /// First key read (the next key less the overlap, not before the start).
    pub scan_start_ts_us: i64,
    /// Keys are read strictly before this one (now less the safety lag).
    pub scan_end_ts_us: i64,
    /// There is nothing to read yet.
    pub idle: bool,
}

/// The window a poll reads: from the checkpoint (or the configured start)
/// less the overlap, up to now less the safety lag; idle when that end
/// does not pass the next key.
pub open spec fn scan_window_of(
    checkpoint: Option<i64>,
    start_ts_us: Option<i64>,
    now_ts_us: i64,
    safety_lag_us: i64,
    overlap_us: i64,
) -> ScanWindow {
    let initial = match start_ts_us {
        Some(v) => v as int,
        None => 0,
    };
    let from = match checkpoint {
        Some(v) => v as int,
        None => initial,
    };
    let next = if from >= initial {
        from
    } else {
        initial
    };
    let end = sat_sub_i64(now_ts_us as int, safety_lag_us as int);
    let back = sat_sub_i64(next, overlap_us as int);
    let start = if back >= initial {
        back
    } else {
        initial
    };
    if end <= next {
        ScanWindow {
            next_ts_us: next as i64,
            scan_start_ts_us: next as i64,
            scan_end_ts_us: end as i64,
            idle: true,
        }
    } else {
        ScanWindow {
            next_ts_us: next as i64,
            scan_start_ts_us: start as i64,
            scan_end_ts_us: end as i64,
            idle: false,
        }
    }
}

/// Plans one poll of a source from its checkpoint, start, the clock and
/// the ingestion lags.
pub fn plan_scan(
    checkpoint: Option<i64>,
    start_ts_us: Option<i64>,
    now_ts_us: i64,
    safety_lag_secs: u64,
    overlap_secs: u64,
) -> (r: Result<ScanWindow, IngestError>)
    ensures
        r is Ok ==> safety_lag_secs * 1_000_000 <= i64::MAX,
        (safety_lag_secs * 1_000_000 <= i64::MAX && overlap_secs * 1_000_000 <= i64::MAX) ==> r is Ok,
        r matches Ok(w) ==> w == scan_window_of(
            checkpoint,
            start_ts_us,
            now_ts_us,
            (safety_lag_secs * 1_000_000) as i64,
            (overlap_secs * 1_000_000) as i64,
        ),
        r matches Ok(w) ==> !w.idle ==> overlap_secs * 1_000_000 <= i64::MAX,
{
    let initial: i64 = match start_ts_us {
        Some(v) => v,
        None => 0,
    };
    let from: i64 = match checkpoint {
        Some(v) => v,
        None => initial,
    };
    let next = if from >= initial {
        from
    } else {
        initial
    };
    let safety_lag_us = seconds_to_micros(safety_lag_secs)?;
    let end = saturating_sub_i64(now_ts_us, safety_lag_us);
    if end <= next {
        return Ok(ScanWindow { next_ts_us: next, scan_start_ts_us: next, scan_end_ts_us: end, idle: true });
    }
    let overlap_us = seconds_to_micros(overlap_secs)?;
    let back = saturating_sub_i64(next, overlap_us);
    let start = if back >= initial {
        back
    } else {
        initial
    };
    Ok(ScanWindow { next_ts_us: next, scan_start_ts_us: start, scan_end_ts_us: end, idle: false })
}

/// One raw archive record: its key and payload.
#[derive(Debug, Clone)]
pub struct RawRecord {
    pub key: Vec<u8>,
    pub value: Vec<u8>,
}

/// The record decodes as a uniform order.
pub open spec fn record_decodes(r: RawRecord) -> bool {
    key_ok(r.key@) && !uo_truncated(r.value@) && uo_tail_ok(r.value@)
}

/// Decodes a batch of uniform order records: the events of the records
/// that decode, in order, and a failure (key, payload, message) for each
/// that does not, in order.
pub fn decode_batch(records: Vec<RawRecord>) -> (r: (Vec<UniformOrderEvent>, Vec<DecodeFailure>))
    ensures
        r.0@.len() + r.1@.len() == records@.len(),
        r.0@.len() == records@.filter(|x: RawRecord| record_decodes(x)).len(),
        forall|i: int| 0 <= i < r.0@.len() ==> uniform_order_fields(
            records@.filter(|x: RawRecord| record_decodes(x))[i].key@,
            records@.filter(|x: RawRecord| record_decodes(x))[i].value@,
            #[trigger] r.0@[i],
        ),
        forall|i: int| 0 <= i < r.1@.len() ==> (#[trigger] r.1@[i]).record_key@ == records@.filter(
            |x: RawRecord| !record_decodes(x),
        )[i].key@ && r.1@[i].wire_payload@ == records@.filter(|x: RawRecord| !record_decodes(x))[i].value@,
{
    let ghost ok = |x: RawRecord| record_decodes(x);
    let ghost bad = |x: RawRecord| !record_decodes(x);
    let mut events: Vec<UniformOrderEvent> = Vec::new();
    let mut failures: Vec<DecodeFailure> = Vec::new();
    let mut i: usize = 0;
    while i < records.len()
        invariant
            i <= records@.len(),
            ok == (|x: RawRecord| record_decodes(x)),
            bad == (|x: RawRecord| !record_decodes(x)),
            events@.len() + failures@.len() == i,
            events@.len() == records@.take(i as int).filter(ok).len(),
            failures@.len() == records@.take(i as int).filter(bad).len(),
            forall|k: int| 0 <= k < events@.len() ==> uniform_order_fields(
                records@.take(i as int).filter(ok)[k].key@,
                records@.take(i as int).filter(ok)[k].value@,
                #[trigger] events@[k],
            ),
            forall|k: int| 0 <= k < failures@.len() ==> (#[trigger] failures@[k]).record_key@
                == records@.take(i as int).filter(bad)[k].key@ && failures@[k].wire_payload@
                == records@.take(i as int).filter(bad)[k].value@,
        decreases records@.len() - i,
    {
        let rec = &records[i];
        let ghost prev = records@.take(i as int);
        assert(records@.take(i + 1) =~= prev.push(records@[i as int]));
        proof {
            reveal(Seq::filter);
            assert(records@.take(i + 1).drop_last() =~= prev);
            assert(records@.take(i + 1).last() == records@[i as int]);
        }
        match decode_uniform_order(rec.key.as_slice(), rec.value.as_slice()) {
            Ok(event) => {
                events.push(event);
            },
            Err(error) => {
                let message = error.message_at(rec.key.as_slice());
                failures.push(
                    DecodeFailure {
                        record_key: rec.key.clone(),
                        wire_payload: rec.value.clone(),
                        error: message,
                    },
                );
            },
        }
        i = i + 1;
    }
    assert(records@.take(records@.len() as int) =~= records@);
    (events, failures)
}

} // verus!
