//! The position check's rules on an execution-state snapshot as a whole:
//! it must belong to the source, be recent and report its positions ready.

use vstd::prelude::*;

use crate::config::SourceConfig;
use crate::ingest::{sat_sub_i64, saturating_sub_i64};
use crate::monitor::market::{issue_fields, IssueFields};
use crate::monitor::orders::issue_of;
use crate::monitor::{issue, MonitorIssue};
use crate::text::{concat2, decimal, decimal_string, str_eq};

verus! {

/// What the position check reads of an execution-state snapshot besides
/// its rows: whose it is, when it was taken and whether it is ready.
pub struct ExecSnapshotState {
    pub source_id: String,
    pub snapshot_ts_ms: i64,
    pub position_ready: bool,
}

/// Microseconds as whole milliseconds, rounded toward zero.
pub open spec fn millis_of(us: int) -> int {
    if us >= 0 {
        us / 1000
    } else {
        -((-us) / 1000)
    }
}

/// `i64` division by 1000, which rounds toward zero.
pub fn micros_to_millis(us: i64) -> (r: i64)
    ensures
        r == millis_of(us as int),
{
    if us >= 0 {
        us / 1000
    } else {
        let y: u64 = (-(us + 1)) as u64 + 1;
        assert(y == -(us as int));
        let q: u64 = y / 1000;
        -(q as i64)
    }
}

/// A snapshot is stale without a time, or when it is older than the limit.
pub open spec fn position_stale(snapshot_ts_ms: i64, now_us: i64, stale_secs: u64) -> bool {
    snapshot_ts_ms <= 0 || sat_sub_i64(millis_of(now_us as int), snapshot_ts_ms as int)
        > stale_secs * 1000
}

/// The issues on a snapshot as a whole, in this order: another source's
/// snapshot, a stale snapshot, positions not ready.
pub open spec fn position_state_issues(
    source: SourceConfig,
    stale_secs: u64,
    snapshot_source_id: Seq<char>,
    snapshot_ts_ms: i64,
    position_ready: bool,
    now_us: i64,
) -> Seq<IssueFields> {
    let a: Seq<IssueFields> = if snapshot_source_id != source.id@ {
        seq![
            issue_of(
                source,
                "position"@,
                "source-id"@,
                "Exec Viz snapshot source_id 不匹配: "@ + snapshot_source_id,
            ),
        ]
    } else {
        seq![]
    };
    let b: Seq<IssueFields> = if position_stale(snapshot_ts_ms, now_us, stale_secs) {
        seq![
            issue_of(
                source,
                "position"@,
                "stale"@,
                "Exec pre-trade 仓位快照已超过 "@ + decimal(stale_secs as nat) + " 秒没有更新"@,
            ),
        ]
    } else {
        seq![]
    };
    let c: Seq<IssueFields> = if !position_ready {
        seq![
            issue_of(
                source,
                "position"@,
                "not-ready"@,
                "Exec pre-trade position_ready=false，仓位尚未准备好"@,
            ),
        ]
    } else {
        seq![]
    };
    a + b + c
}

/// The snapshot-wide part of the position check of one source. The
/// staleness limit in milliseconds must fit in an `i64`.
pub fn check_position_state(
    source: &SourceConfig,
    position_stale_secs: u64,
    snapshot: &ExecSnapshotState,
    now_us: i64,
) -> (r: Vec<MonitorIssue>)
    requires
        position_stale_secs * 1000 <= i64::MAX,
    ensures
        r@.map_values(|i: MonitorIssue| issue_fields(i)) == position_state_issues(
            *source,
            position_stale_secs,
            snapshot.source_id@,
            snapshot.snapshot_ts_ms,
            snapshot.position_ready,
            now_us,
        ),
{
    let ghost spec_a: Seq<IssueFields> = if snapshot.source_id@ != source.id@ {
        seq![
            issue_of(
                *source,
                "position"@,
                "source-id"@,
                "Exec Viz snapshot source_id 不匹配: "@ + snapshot.source_id@,
            ),
        ]
    } else {
        seq![]
    };
    let mut issues: Vec<MonitorIssue> = Vec::new();
    if !str_eq(snapshot.source_id.as_str(), source.id.as_str()) {
        let message = concat2("Exec Viz snapshot source_id 不匹配: ", snapshot.source_id.as_str());
        proof {
            reveal_strlit("Exec Viz snapshot source_id 不匹配: ");
        }
        issues.push(issue("position", "source-id", source, message.as_str()));
        proof {
            reveal_strlit("position");
            reveal_strlit("source-id");
        }
    }
    assert(issues@.map_values(|i: MonitorIssue| issue_fields(i)) =~= spec_a);
    let ghost before_b = issues@.map_values(|i: MonitorIssue| issue_fields(i));
    let now_ms = micros_to_millis(now_us);
    let age_ms = saturating_sub_i64(now_ms, snapshot.snapshot_ts_ms);
    let limit_ms: i64 = (position_stale_secs * 1000) as i64;
    if snapshot.snapshot_ts_ms <= 0 || age_ms > limit_ms {
        let head = concat2("Exec pre-trade 仓位快照已超过 ", decimal_string(position_stale_secs).as_str());
        let message = concat2(head.as_str(), " 秒没有更新");
        proof {
            reveal_strlit("Exec pre-trade 仓位快照已超过 ");
            reveal_strlit(" 秒没有更新");
            reveal_strlit("position");
            reveal_strlit("stale");
        }
        issues.push(issue("position", "stale", source, message.as_str()));
    }
    let ghost after_b = issues@.map_values(|i: MonitorIssue| issue_fields(i));
    if !snapshot.position_ready {
        proof {
            reveal_strlit("Exec pre-trade position_ready=false，仓位尚未准备好");
            reveal_strlit("position");
            reveal_strlit("not-ready");
        }
        issues.push(
            issue("position", "not-ready", source, "Exec pre-trade position_ready=false，仓位尚未准备好"),
        );
    }
    assert(issues@.map_values(|i: MonitorIssue| issue_fields(i)) =~= position_state_issues(
        *source,
        position_stale_secs,
        snapshot.source_id@,
        snapshot.snapshot_ts_ms,
        snapshot.position_ready,
        now_us,
    ));
    issues
}

} // verus!
