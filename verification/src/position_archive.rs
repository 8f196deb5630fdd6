//! Sequencing of the position update archive: every update is keyed by its
//! receive time and the next sequence number of that microsecond, so
//! archive keys only grow.

use vstd::prelude::*;

use crate::codec::bytes_lt;
use crate::manager_db::{is_seq_key_of, lemma_seq_key_order};

verus! {

/// Message type of archived position updates.
pub const POSITION_UPDATE_MSG_TYPE: &'static str = "position_update";

/// Schema version of archived position updates.
pub const POSITION_UPDATE_SCHEMA_VERSION: u32 = 4;

/// Why an update cannot be archived.
#[derive(Debug, Clone, Copy, PartialEq, Eq, Structural)]
pub enum AppendError {
    NonPositiveTimestamp,
}

/// Text of an update that cannot be archived.
pub open spec fn append_error_text(e: AppendError) -> Seq<char> {
    match e {
        AppendError::NonPositiveTimestamp => "position update received_at_us must be positive"@,
    }
}

impl AppendError {
    /// The error text.
    pub fn message(&self) -> (r: &'static str)
        ensures
            r@ == append_error_text(*self),
    {
        match self {
            AppendError::NonPositiveTimestamp => "position update received_at_us must be positive",
        }
    }
}

/// The sequence number after `(last_received_at_us, last_seq)` for an
/// update received at `received_at_us`: one more in the same microsecond
/// (saturating), else 0.
pub open spec fn next_seq(last_received_at_us: i64, last_seq: u32, received_at_us: i64) -> u32 {
    if received_at_us == last_received_at_us {
        if last_seq == u32::MAX {
            u32::MAX
        } else {
            (last_seq + 1) as u32
        }
    } else {
        0
    }
}

/// The key of the latest archived update.
#[derive(Debug, Clone, Copy, PartialEq, Eq, Structural)]
pub struct ArchiveSequence {
    pub last_received_at_us: i64,
    pub last_seq: u32,
}

impl ArchiveSequence {
    /// The sequence of an archive whose latest key is `latest`; an empty
    /// archive starts at `(0, 0)`.
    pub fn opened(latest: Option<(i64, u32)>) -> (r: Self)
        ensures
            r.last_received_at_us == (match latest {
                Some(k) => k.0,
                None => 0,
            }),
            r.last_seq == (match latest {
                Some(k) => k.1,
                None => 0,
            }),
    {
        match latest {
            Some((t, s)) => ArchiveSequence { last_received_at_us: t, last_seq: s },
            None => ArchiveSequence { last_received_at_us: 0, last_seq: 0 },
        }
    }

    /// Sequence number of the next update, received at `received_at_us`;
    /// a receive time that is not positive is refused and changes nothing.
    pub fn next(&mut self, received_at_us: i64) -> (r: Result<u32, AppendError>)
        ensures
            received_at_us <= 0 ==> r == Err::<u32, AppendError>(AppendError::NonPositiveTimestamp)
                && *final(self) == *old(self),
            received_at_us > 0 ==> r == Ok::<u32, AppendError>(
                next_seq(old(self).last_received_at_us, old(self).last_seq, received_at_us),
            ) && final(self).last_received_at_us == received_at_us && final(self).last_seq
                == next_seq(old(self).last_received_at_us, old(self).last_seq, received_at_us),
    {
        if received_at_us <= 0 {
            return Err(AppendError::NonPositiveTimestamp);
        }
        let seq = if received_at_us == self.last_received_at_us {
            self.last_seq.saturating_add(1)
        } else {
            0
        };
        self.last_received_at_us = received_at_us;
        self.last_seq = seq;
        Ok(seq)
    }
}

/// Updates archived in receive-time order get strictly growing keys: after
/// an update at `t1`, the next at `t2 >= t1` sorts after it, unless the
/// microsecond's sequence numbers are used up.
pub proof fn lemma_appended_keys_increase(
    last_received_at_us: i64,
    last_seq: u32,
    t1: i64,
    k1: Seq<u8>,
    t2: i64,
    k2: Seq<u8>,
)
    requires
        0 < t1 <= t2,
        next_seq(last_received_at_us, last_seq, t1) < u32::MAX,
        is_seq_key_of(k1, t1 as int, next_seq(last_received_at_us, last_seq, t1) as int),
        is_seq_key_of(
            k2,
            t2 as int,
            next_seq(t1, next_seq(last_received_at_us, last_seq, t1), t2) as int,
        ),
    ensures
        bytes_lt(k1, k2),
{
    let s1 = next_seq(last_received_at_us, last_seq, t1);
    let s2 = next_seq(t1, s1, t2);
    lemma_seq_key_order(k1, t1, s1, k2, t2, s2);
}

} // verus!
