//! Monitor issues, notice channels, the Shanghai-time quiet window and
//! heartbeat schedule, and the alert tracker that turns issues into
//! notices.

pub mod alert_laws;
pub mod dingtalk;
pub mod market;
pub mod orders;
pub mod position;

use vstd::prelude::*;

use crate::config::{trimmed_nonempty, SourceConfig};
use crate::keyed::{find_key, put_entry};
use crate::market_rules::unicode_upper;
use crate::text::{
    chars_of, chars_start_with, concat2, concat3, decimal, decimal_string, is_alnum, owned,
    push_char, str_eq, string_of, trim, trim_str, char_is_alnum,
};

verus! {

/// Column families the order check reads.
pub const RECENT_COLUMN_FAMILIES: [&'static str; 3] = [
    "uniform_orders",
    "order_updates",
    "trade_updates",
];

/// Minimum gap between repeated alerts for one unresolved issue, seconds.
pub const MIN_REPEAT_ALERT_SECS: u64 = 30;

/// Fixed UTC+8 offset of Shanghai wall-clock time (no daylight saving).
pub const SHANGHAI_OFFSET_SECS: i64 = 28_800;

/// A problem the monitor found.
#[derive(Debug, Clone)]
pub struct MonitorIssue {
    pub key: String,
    pub source_id: String,
    pub category: String,
    pub message: String,
    /// Delay of the first notification while a transient condition settles.
    pub initial_delay_secs: u64,
}

impl MonitorIssue {
    /// An issue keyed `category:scope:source_id`, notified at once.
    pub fn new(category: &str, scope: &str, source_id: &str, message: String) -> (r: Self)
        ensures
            r.key@ == category@ + ":"@ + scope@ + ":"@ + source_id@,
            r.source_id@ == source_id@,
            r.category@ == category@,
            r.message@ == message@,
            r.initial_delay_secs == 0,
    {
        let head = concat3(category, ":", scope);
        let key = concat3(head.as_str(), ":", source_id);
        MonitorIssue {
            key,
            source_id: owned(source_id),
            category: owned(category),
            message,
            initial_delay_secs: 0,
        }
    }

    /// The same issue, first notified after `seconds`.
    pub fn with_initial_delay(self, seconds: u64) -> (r: Self)
        ensures
            r.key == self.key,
            r.source_id == self.source_id,
            r.category == self.category,
            r.message == self.message,
            r.initial_delay_secs == seconds,
    {
        let mut s = self;
        s.initial_delay_secs = seconds;
        s
    }
}

/// How a source is named in its issues: the trimmed alias, else the trimmed
/// account, else the id.
pub open spec fn source_label(s: SourceConfig) -> Seq<char> {
    match trimmed_nonempty(s.alias) {
        Some(a) => a,
        None => if trim(s.account@).len() > 0 {
            trim(s.account@)
        } else {
            s.id@
        },
    }
}

/// An issue of one source; the message starts with `[label] `.
pub fn issue(category: &str, scope: &str, source: &SourceConfig, message: &str) -> (r: MonitorIssue)
    ensures
        r.key@ == category@ + ":"@ + scope@ + ":"@ + source.id@,
        r.source_id@ == source.id@,
        r.category@ == category@,
        r.message@ == "["@ + source_label(*source) + "] "@ + message@,
        r.initial_delay_secs == 0,
{
    let alias = match &source.alias {
        Some(a) => {
            let t = trim_str(a.as_str());
            if t.unicode_len() > 0 {
                Some(t)
            } else {
                None
            }
        },
        None => None,
    };
    let label: &str = match alias {
        Some(a) => a,
        None => {
            let account = trim_str(source.account.as_str());
            if account.unicode_len() > 0 {
                account
            } else {
                source.id.as_str()
            }
        },
    };
    let head = concat3("[", label, "] ");
    MonitorIssue::new(category, scope, source.id.as_str(), concat2(head.as_str(), message))
}

/// Statuses after which an order cannot change.
pub open spec fn terminal_status(s: Seq<char>) -> bool {
    s == "FILLED"@ || s == "CANCELED"@ || s == "EXPIRED"@ || s == "EXPIRED_IN_MATCH"@
}

/// Whether an order status is final.
pub fn is_terminal_order_status(status: &str) -> (r: bool)
    ensures
        r == terminal_status(status@),
        r <==> (status@ == "FILLED"@ || status@ == "CANCELED"@ || status@ == "EXPIRED"@ || status@
            == "EXPIRED_IN_MATCH"@),
{
    str_eq(status, "FILLED") || str_eq(status, "CANCELED") || str_eq(status, "EXPIRED")
        || str_eq(status, "EXPIRED_IN_MATCH")
}

/// `raw` without `-` and `_`.
pub open spec fn without_separators(raw: Seq<char>) -> Seq<char> {
    raw.filter(|c: char| c != '-' && c != '_')
}

/// A market symbol without `-` and `_`, uppercased (Unicode case mapping).
pub fn normalize_symbol(raw: &str) -> (r: String)
    ensures
        r@ == unicode_upper(without_separators(raw@)),
{
    let cs = chars_of(raw);
    let mut kept: Vec<char> = Vec::new();
    let mut i: usize = 0;
    while i < cs.len()
        invariant
            cs@ == raw@,
            i <= cs@.len(),
            kept@ == without_separators(cs@.take(i as int)),
        decreases cs@.len() - i,
    {
        proof {
            reveal(Seq::filter);
            assert(cs@.take(i + 1).drop_last() =~= cs@.take(i as int));
        }
        if cs[i] != '-' && cs[i] != '_' {
            kept.push(cs[i]);
        }
        i = i + 1;
    }
    assert(cs@.take(cs@.len() as int) =~= cs@);
    let s = string_of(kept.as_slice());
    crate::market_rules::to_uppercase(s.as_str())
}

/// Each character kept when an ASCII letter or digit, else `_`.
pub open spec fn sanitized(v: Seq<char>) -> Seq<char> {
    v.map_values(|c: char| if is_alnum(c) { c } else { '_' })
}

/// A thread name built from arbitrary text.
pub fn sanitize_thread_name(value: &str) -> (r: String)
    ensures
        r@ == sanitized(value@),
{
    let cs = chars_of(value);
    let mut out = String::new();
    let mut i: usize = 0;
    while i < cs.len()
        invariant
            cs@ == value@,
            i <= cs@.len(),
            out@ == sanitized(cs@.take(i as int)),
        decreases cs@.len() - i,
    {
        let c = if char_is_alnum(cs[i]) {
            cs[i]
        } else {
            '_'
        };
        push_char(&mut out, c);
        i = i + 1;
        assert(sanitized(cs@.take(i as int)) =~= sanitized(cs@.take(i - 1)).push(c));
    }
    assert(cs@.take(cs@.len() as int) =~= cs@);
    out
}

/// Whole seconds as microseconds, capped at `i64::MAX`.
pub fn seconds_to_us(seconds: u64) -> (r: i64)
    ensures
        r == if seconds * 1_000_000 > i64::MAX {
            i64::MAX as int
        } else {
            seconds * 1_000_000
        },
{
    if seconds > 9_223_372_036_854 {
        i64::MAX
    } else {
        (seconds * 1_000_000) as i64
    }
}

/// Unix seconds as Shanghai wall-clock seconds.
pub fn shanghai_secs(unix_secs: i64) -> (r: i64)
    requires
        unix_secs <= i64::MAX - SHANGHAI_OFFSET_SECS,
    ensures
        r == unix_secs + SHANGHAI_OFFSET_SECS,
{
    unix_secs + SHANGHAI_OFFSET_SECS
}

/// `s` modulo `d` (Euclidean: never negative).
pub fn rem_euclid_i64(s: i64, d: i64) -> (r: i64)
    requires
        d > 0,
    ensures
        r == s as int % d as int,
        0 <= r < d,
{
    if s >= 0 {
        s % d
    } else {
        let a: i64 = -(s + 1);
        let ra: i64 = a % d;
        proof {
            let di = d as int;
            vstd::arithmetic::div_mod::lemma_fundamental_div_mod(a as int, di);
            let qa = a as int / di;
            assert(0 <= ra < di);
            assert(s as int == (-qa - 1) * di + (di - 1 - ra)) by (nonlinear_arith)
                requires
                    a as int == di * qa + ra,
                    s as int == -(a as int) - 1,
            ;
            vstd::arithmetic::div_mod::lemma_fundamental_div_mod_converse(
                s as int,
                di,
                -qa - 1,
                di - 1 - ra,
            );
        }
        d - 1 - ra
    }
}

/// The hour of the day of a Shanghai wall-clock time.
pub fn shanghai_hour_of_day(shanghai_secs: i64) -> (r: u32)
    ensures
        r == (shanghai_secs as int % 86_400) / 3_600,
        r < 24,
{
    let day_secs = rem_euclid_i64(shanghai_secs, 86_400);
    (day_secs / 3_600) as u32
}

/// The hour lies in the quiet window `[start, end)`; a window with
/// `start > end` wraps over midnight, and `start == end` disables it.
pub open spec fn quiet(hour: u32, start: u32, end: u32) -> bool {
    if start == end {
        false
    } else if start < end {
        start <= hour < end
    } else {
        hour >= start || hour < end
    }
}

/// Whether notices are held back at this Shanghai hour.
pub fn in_quiet_window(hour: u32, start: u32, end: u32) -> (r: bool)
    ensures
        r == quiet(hour, start, end),
{
    if start == end {
        return false;
    }
    if start < end {
        hour >= start && hour < end
    } else {
        hour >= start || hour < end
    }
}

/// The heartbeat slot of a Shanghai time: whole hours since the epoch
/// (none before it) divided by the interval; 0 when the interval is 0.
pub open spec fn slot_of(shanghai_secs: int, interval_hours: int) -> int {
    if interval_hours == 0 {
        0
    } else {
        let hours = shanghai_secs / 3_600;
        (if hours < 0 {
            0
        } else {
            hours
        }) / interval_hours
    }
}

/// The heartbeat slot of a Shanghai time.
pub fn heartbeat_slot(shanghai_secs: i64, interval_hours: u64) -> (r: u64)
    ensures
        r == slot_of(shanghai_secs as int, interval_hours as int),
{
    if interval_hours == 0 {
        return 0;
    }
    let hours: u64 = if shanghai_secs < 0 {
        proof {
            assert(shanghai_secs as int / 3_600 < 0) by (nonlinear_arith)
                requires
                    shanghai_secs < 0,
            ;
        }
        0
    } else {
        (shanghai_secs / 3_600) as u64
    };
    hours / interval_hours
}

/// A channel's heartbeat cadence on Shanghai wall-clock slots.
#[derive(Debug, Clone, Copy, PartialEq, Eq, Structural)]
pub struct HeartbeatSchedule {
    pub interval_hours: u64,
    /// The slot already handled.
    pub last_slot: u64,
}

impl HeartbeatSchedule {
    /// A schedule whose current slot counts as handled, so a start never
    /// beats mid-slot.
    pub fn new(interval_hours: u64, shanghai_secs: i64) -> (r: Self)
        ensures
            r.interval_hours == interval_hours,
            r.last_slot == slot_of(shanghai_secs as int, interval_hours as int),
    {
        HeartbeatSchedule { interval_hours, last_slot: heartbeat_slot(shanghai_secs, interval_hours) }
    }

    /// True once when a new slot opens outside the quiet window. A new slot
    /// is consumed even when quiet.
    pub fn due(&mut self, shanghai_secs: i64, quiet: bool) -> (r: bool)
        ensures
            (*final(self), r) == heartbeat_step(*old(self), shanghai_secs as int, quiet),
    {
        if self.interval_hours == 0 {
            return false;
        }
        let slot = heartbeat_slot(shanghai_secs, self.interval_hours);
        if slot == self.last_slot {
            return false;
        }
        self.last_slot = slot;
        !quiet
    }
}

/// One heartbeat check at Shanghai time `t`: the schedule after it and
/// whether a beat is sent.
pub open spec fn heartbeat_step(s: HeartbeatSchedule, t: int, quiet: bool) -> (HeartbeatSchedule, bool) {
    if s.interval_hours == 0 {
        (s, false)
    } else {
        let slot = slot_of(t, s.interval_hours as int);
        if slot == s.last_slot {
            (s, false)
        } else {
            (HeartbeatSchedule { interval_hours: s.interval_hours, last_slot: slot as u64 }, !quiet)
        }
    }
}

/// A heartbeat fires at most once per slot, and a slot opened during the
/// quiet window is consumed without a beat: after any check at `t1`, a
/// check at `t2` in the same slot sends nothing, and a quiet check sends
/// nothing.
pub proof fn lemma_heartbeat_once_per_slot(s: HeartbeatSchedule, t1: i64, q1: bool, t2: i64, q2: bool)
    requires
        slot_of(t2 as int, s.interval_hours as int) == slot_of(t1 as int, s.interval_hours as int),
    ensures
        !heartbeat_step(heartbeat_step(s, t1 as int, q1).0, t2 as int, q2).1,
        !heartbeat_step(s, t1 as int, true).1,
{
    if s.interval_hours > 0 {
        let h = t1 as int / 3_600;
        let hh = if h < 0 {
            0
        } else {
            h
        };
        assert(hh <= i64::MAX) by (nonlinear_arith)
            requires
                h == t1 as int / 3_600,
                hh == (if h < 0 {
                    0
                } else {
                    h
                }),
        ;
        assert(0 <= hh / (s.interval_hours as int) <= hh) by (nonlinear_arith)
            requires
                hh >= 0,
                s.interval_hours >= 1,
        ;
    }
}

/// The DingTalk channel a notice goes to.
#[derive(Debug, Clone, Copy, PartialEq, Eq, Structural)]
pub enum NoticeChannel {
    Market,
    Order,
}

impl NoticeChannel {
    /// `market` or `order`.
    pub fn as_str(self) -> (r: &'static str)
        ensures
            r@ == (match self {
                NoticeChannel::Market => "market"@,
                NoticeChannel::Order => "order"@,
            }),
    {
        match self {
            NoticeChannel::Market => "market",
            NoticeChannel::Order => "order",
        }
    }
}

/// Market issues (keys starting `market:`) go to the market channel, all
/// others to the order channel.
pub open spec fn key_channel(key: Seq<char>) -> NoticeChannel {
    let p = "market:"@;
    if key.len() >= p.len() && key.take(p.len() as int) == p {
        NoticeChannel::Market
    } else {
        NoticeChannel::Order
    }
}

/// The channel of an issue key.
pub fn channel_for_key(key: &str) -> (r: NoticeChannel)
    ensures
        r == key_channel(key@),
{
    let k = chars_of(key);
    let p = chars_of("market:");
    if chars_start_with(k.as_slice(), p.as_slice()) {
        NoticeChannel::Market
    } else {
        NoticeChannel::Order
    }
}

/// Heartbeat text of a channel: all clear, or the number of open alerts.
pub open spec fn heartbeat_text(channel: NoticeChannel, active: nat) -> Seq<char> {
    let label = match channel {
        NoticeChannel::Market => "行情监控"@,
        NoticeChannel::Order => "交易监控"@,
    };
    if active == 0 {
        label + "运行正常，无未恢复告警"@
    } else {
        label + "运行中，"@ + decimal(active) + " 条告警未恢复"@
    }
}

/// The heartbeat text of a channel.
pub fn heartbeat_message(channel: NoticeChannel, active_issues: usize) -> (r: String)
    ensures
        r@ == heartbeat_text(channel, active_issues as nat),
{
    let label: &str = match channel {
        NoticeChannel::Market => "行情监控",
        NoticeChannel::Order => "交易监控",
    };
    if active_issues == 0 {
        concat2(label, "运行正常，无未恢复告警")
    } else {
        let n = decimal_string(active_issues as u64);
        let head = concat3(label, "运行中，", n.as_str());
        concat2(head.as_str(), " 条告警未恢复")
    }
}

/// An issue's notification state.
#[derive(Debug, Clone)]
pub struct AlertState {
    pub active: bool,
    pub visible: bool,
    /// When the issue was first seen (nanoseconds on the monitor's clock).
    pub first_seen_ns: Option<u64>,
    /// When its last alert was sent.
    pub last_sent_ns: Option<u64>,
    pub recovery_pending: bool,
    /// The last alert's message, reused by the recovery notice.
    pub message: String,
}

/// An `AlertState` with its message as text.
pub struct AlertView {
    pub active: bool,
    pub visible: bool,
    pub first_seen: Option<u64>,
    pub last_sent: Option<u64>,
    pub recovery_pending: bool,
    pub message: Seq<char>,
}

impl AlertState {
    /// The state with its message as text.
    pub open spec fn view(self) -> AlertView {
        AlertView {
            active: self.active,
            visible: self.visible,
            first_seen: self.first_seen_ns,
            last_sent: self.last_sent_ns,
            recovery_pending: self.recovery_pending,
            message: self.message@,
        }
    }

    /// A state that has never alerted.
    pub fn fresh() -> (r: Self)
        ensures
            r.view() == fresh_view(),
    {
        AlertState {
            active: false,
            visible: false,
            first_seen_ns: None,
            last_sent_ns: None,
            recovery_pending: false,
            message: String::new(),
        }
    }
}

/// A state that has never alerted.
pub open spec fn fresh_view() -> AlertView {
    AlertView {
        active: false,
        visible: false,
        first_seen: None,
        last_sent: None,
        recovery_pending: false,
        message: Seq::empty(),
    }
}

/// A notice to send: an alert, or the recovery of an earlier alert.
#[derive(Debug, Clone)]
pub struct PendingNotice {
    pub key: String,
    pub message: String,
    pub recovery: bool,
}

impl PendingNotice {
    /// The channel of the notice.
    pub fn channel(&self) -> (r: NoticeChannel)
        ensures
            r == key_channel(self.key@),
    {
        channel_for_key(self.key.as_str())
    }
}

/// The states of all issues seen, each key once.
#[derive(Debug, Clone)]
pub struct AlertTracker {
    pub states: Vec<(String, AlertState)>,
}

/// The tracker's states as keyed text.
pub open spec fn states_view(v: Seq<(String, AlertState)>) -> Seq<(Seq<char>, AlertView)> {
    v.map_values(|p: (String, AlertState)| (p.0@, p.1.view()))
}

/// The notices as (key, message, recovery) text.
pub open spec fn notices_view(v: Seq<PendingNotice>) -> Seq<(Seq<char>, Seq<char>, bool)> {
    v.map_values(|n: PendingNotice| (n.key@, n.message@, n.recovery))
}

/// At least `secs` seconds have passed from `since` to `now` (a clock read
/// earlier counts as no time passed).
pub open spec fn elapsed_at_least(now: u64, since: u64, secs: u64) -> bool {
    (if now >= since {
        now - since
    } else {
        0
    }) >= secs * 1_000_000_000
}

/// The repeat interval: the configured one, at least thirty seconds.
pub open spec fn repeat_secs(repeat_alert_secs: u64) -> u64 {
    if repeat_alert_secs > MIN_REPEAT_ALERT_SECS {
        repeat_alert_secs
    } else {
        MIN_REPEAT_ALERT_SECS
    }
}

/// The state of `key` before an issue is applied.
pub open spec fn state_of(states: Seq<(Seq<char>, AlertView)>, key: Seq<char>) -> AlertView {
    if find_key(states, key) >= 0 {
        states[find_key(states, key)].1
    } else {
        fresh_view()
    }
}

/// The state of an issue after it is seen at `now`: active, first seen now
/// unless already active, visible once its initial delay has passed.
pub open spec fn seen_state(st: AlertView, delay_secs: u64, now: u64) -> AlertView {
    let first_seen = if !st.active {
        Some(now)
    } else {
        st.first_seen
    };
    AlertView {
        active: true,
        visible: match first_seen {
            None => true,
            Some(f) => elapsed_at_least(now, f, delay_secs),
        },
        first_seen,
        last_sent: st.last_sent,
        recovery_pending: false,
        message: st.message,
    }
}

/// An alert for a seen issue is due: it is visible and has not been sent
/// within the repeat interval.
pub open spec fn alert_due(before: AlertView, after: AlertView, now: u64, repeat_alert_secs: u64) -> bool {
    after.visible && match before.last_sent {
        None => true,
        Some(t) => elapsed_at_least(now, t, repeat_secs(repeat_alert_secs)),
    }
}

/// The states after one issue is seen.
pub open spec fn states_after_issue(
    states: Seq<(Seq<char>, AlertView)>,
    key: Seq<char>,
    delay_secs: u64,
    now: u64,
) -> Seq<(Seq<char>, AlertView)> {
    put_entry(states, key, seen_state(state_of(states, key), delay_secs, now))
}

/// The text of an issue: key, message, initial delay.
pub open spec fn issue_view(i: MonitorIssue) -> (Seq<char>, Seq<char>, u64) {
    (i.key@, i.message@, i.initial_delay_secs)
}

/// Issues `0..n` applied in order: the states after them and the alerts
/// due.
pub open spec fn apply_issues(
    states: Seq<(Seq<char>, AlertView)>,
    issues: Seq<(Seq<char>, Seq<char>, u64)>,
    n: int,
    now: u64,
    repeat_alert_secs: u64,
) -> (Seq<(Seq<char>, AlertView)>, Seq<(Seq<char>, Seq<char>, bool)>)
    decreases n,
{
    if n <= 0 {
        (states, Seq::empty())
    } else {
        let (s0, out) = apply_issues(states, issues, n - 1, now, repeat_alert_secs);
        let (key, message, delay) = issues[n - 1];
        let before = state_of(s0, key);
        let after = seen_state(before, delay, now);
        (
            states_after_issue(s0, key, delay, now),
            if alert_due(before, after, now, repeat_alert_secs) {
                out.push((key, message, false))
            } else {
                out
            },
        )
    }
}

/// Some issue has the key.
pub open spec fn current_key(issues: Seq<(Seq<char>, Seq<char>, u64)>, key: Seq<char>) -> bool {
    exists|i: int| 0 <= i < issues.len() && (#[trigger] issues[i]).0 == key
}

/// Text of the recovery notice of an issue.
pub open spec fn recovery_text(key: Seq<char>, message: Seq<char>) -> Seq<char> {
    "问题已恢复: "@ + if message.len() == 0 {
        key
    } else {
        message
    }
}

/// States `0..n` examined for issues that went away: unsent ones are
/// forgotten, sent ones get a recovery notice.
pub open spec fn recover(
    states: Seq<(Seq<char>, AlertView)>,
    issues: Seq<(Seq<char>, Seq<char>, u64)>,
    n: int,
) -> (Seq<(Seq<char>, AlertView)>, Seq<(Seq<char>, Seq<char>, bool)>)
    decreases n,
{
    if n <= 0 {
        (states, Seq::empty())
    } else {
        let (s0, out) = recover(states, issues, n - 1);
        let (key, st) = s0[n - 1];
        if !st.active || current_key(issues, key) {
            (s0, out)
        } else if st.last_sent is None {
            (s0.update(n - 1, (key, fresh_view())), out)
        } else if !st.recovery_pending {
            (s0, out.push((key, recovery_text(key, st.message), true)))
        } else {
            (s0, out)
        }
    }
}

/// One monitoring round: the states after the current issues are applied
/// and the states of vanished issues examined, and the notices due (alerts
/// in issue order, then recoveries in state order).
pub open spec fn pending_round(
    states: Seq<(Seq<char>, AlertView)>,
    issues: Seq<(Seq<char>, Seq<char>, u64)>,
    now: u64,
    repeat_alert_secs: u64,
) -> (Seq<(Seq<char>, AlertView)>, Seq<(Seq<char>, Seq<char>, bool)>) {
    let (s1, alerts) = apply_issues(states, issues, issues.len() as int, now, repeat_alert_secs);
    let (s2, recoveries) = recover(s1, issues, s1.len() as int);
    (s2, alerts + recoveries)
}

/// The states after one sent notice is recorded: a recovery forgets the
/// issue, an alert records its time and message.
pub open spec fn states_after_sent(
    states: Seq<(Seq<char>, AlertView)>,
    notice: (Seq<char>, Seq<char>, bool),
    now: u64,
) -> Seq<(Seq<char>, AlertView)> {
    let (key, message, recovery) = notice;
    let st = state_of(states, key);
    let after = if recovery {
        fresh_view()
    } else {
        AlertView {
            active: true,
            visible: st.visible,
            first_seen: st.first_seen,
            last_sent: Some(now),
            recovery_pending: false,
            message,
        }
    };
    put_entry(states, key, after)
}

/// Notices `0..n` recorded in order.
pub open spec fn mark_all(
    states: Seq<(Seq<char>, AlertView)>,
    notices: Seq<(Seq<char>, Seq<char>, bool)>,
    n: int,
    now: u64,
) -> Seq<(Seq<char>, AlertView)>
    decreases n,
{
    if n <= 0 {
        states
    } else {
        states_after_sent(mark_all(states, notices, n - 1, now), notices[n - 1], now)
    }
}

/// States `0..n` that are active, visible and on `channel`.
pub open spec fn count_active(states: Seq<(Seq<char>, AlertView)>, channel: NoticeChannel, n: int) -> nat
    decreases n,
{
    if n <= 0 {
        0
    } else {
        count_active(states, channel, n - 1) + if states[n - 1].1.active && states[n - 1].1.visible
            && key_channel(states[n - 1].0) == channel {
            1nat
        } else {
            0nat
        }
    }
}

fn elapsed_ge(now: u64, since: u64, secs: u64) -> (r: bool)
    ensures
        r == elapsed_at_least(now, since, secs),
{
    let passed: u64 = if now >= since {
        now - since
    } else {
        0
    };
    (passed as u128) >= (secs as u128) * 1_000_000_000
}

fn copy_state(st: &AlertState) -> (r: AlertState)
    ensures
        r.view() == st.view(),
{
    AlertState {
        active: st.active,
        visible: st.visible,
        first_seen_ns: st.first_seen_ns,
        last_sent_ns: st.last_sent_ns,
        recovery_pending: st.recovery_pending,
        message: owned(st.message.as_str()),
    }
}

fn has_issue_key(issues: &Vec<MonitorIssue>, key: &str) -> (r: bool)
    ensures
        r == current_key(issues@.map_values(|i: MonitorIssue| issue_view(i)), key@),
{
    let ghost iv = issues@.map_values(|i: MonitorIssue| issue_view(i));
    let mut i: usize = 0;
    while i < issues.len()
        invariant
            i <= issues@.len(),
            iv == issues@.map_values(|i: MonitorIssue| issue_view(i)),
            forall|k: int| 0 <= k < i ==> (#[trigger] iv[k]).0 != key@,
        decreases issues@.len() - i,
    {
        assert(iv[i as int].0 == issues@[i as int].key@);
        if str_eq(issues[i].key.as_str(), key) {
            return true;
        }
        i = i + 1;
    }
    false
}

impl AlertTracker {
    /// A tracker that has seen nothing.
    pub fn new() -> (r: Self)
        ensures
            r.states@.len() == 0,
    {
        AlertTracker { states: Vec::new() }
    }

    fn find(&self, key: &str) -> (r: Option<usize>)
        ensures
            r matches Some(i) ==> i < self.states@.len() && find_key(states_view(self.states@), key@)
                == i,
            r is None ==> find_key(states_view(self.states@), key@) == -1,
    {
        let ghost v = states_view(self.states@);
        let mut i: usize = 0;
        while i < self.states.len()
            invariant
                i <= self.states@.len(),
                v == states_view(self.states@),
                forall|k: int| 0 <= k < i ==> (#[trigger] v[k]).0 != key@,
            decreases self.states@.len() - i,
        {
            assert(v[i as int].0 == self.states@[i as int].0@);
            if str_eq(self.states[i].0.as_str(), key) {
                proof {
                    let c = choose|c: int|
                        0 <= c < v.len() && (#[trigger] v[c]).0 == key@ && forall|k: int|
                            0 <= k < c ==> (#[trigger] v[k]).0 != key@;
                    assert(v[i as int].0 == key@);
                    if c < i {
                        assert(v[c].0 != key@);
                    }
                    if c > i {
                        assert(v[i as int].0 != key@);
                    }
                }
                return Some(i);
            }
            i = i + 1;
        }
        None
    }

    fn put(&mut self, found: Option<usize>, key: &str, st: AlertState)
        requires
            found matches Some(i) ==> i < old(self).states@.len(),
        ensures
            states_view(final(self).states@) == match found {
                Some(i) => states_view(old(self).states@).update(i as int, (key@, st.view())),
                None => states_view(old(self).states@).push((key@, st.view())),
            },
    {
        match found {
            Some(i) => {
                self.states.set(i, (owned(key), st));
                proof {
                    assert(states_view(self.states@) =~= states_view(old(self).states@).update(
                        i as int,
                        (key@, st.view()),
                    ));
                }
            },
            None => {
                self.states.push((owned(key), st));
                proof {
                    assert(states_view(self.states@) =~= states_view(old(self).states@).push(
                        (key@, st.view()),
                    ));
                }
            },
        }
    }

    /// The notices one monitoring round owes: an alert for every current
    /// issue that is visible and not alerted within the repeat interval
    /// (at least thirty seconds), then a recovery for every alerted issue
    /// that went away. Issues that went away unalerted are forgotten.
    #[verifier::rlimit(60)]
    pub fn pending(&mut self, issues: &Vec<MonitorIssue>, now_ns: u64, repeat_alert_secs: u64) -> (r:
        Vec<PendingNotice>)
        ensures
            (states_view(final(self).states@), notices_view(r@)) == pending_round(
                states_view(old(self).states@),
                issues@.map_values(|i: MonitorIssue| issue_view(i)),
                now_ns,
                repeat_alert_secs,
            ),
    {
        let ghost iv = issues@.map_values(|i: MonitorIssue| issue_view(i));
        let ghost start = states_view(self.states@);
        let mut out: Vec<PendingNotice> = Vec::new();
        let mut i: usize = 0;
        while i < issues.len()
            invariant
                i <= issues@.len(),
                iv == issues@.map_values(|i: MonitorIssue| issue_view(i)),
                (states_view(self.states@), notices_view(out@)) == apply_issues(
                    start,
                    iv,
                    i as int,
                    now_ns,
                    repeat_alert_secs,
                ),
            decreases issues@.len() - i,
        {
            let issue = &issues[i];
            assert(iv[i as int] == issue_view(*issue));
            let key = issue.key.as_str();
            let found = self.find(key);
            let before = match found {
                Some(k) => copy_state(&self.states[k].1),
                None => AlertState::fresh(),
            };
            proof {
                if found is Some {
                    let v = states_view(self.states@);
                    assert(v[found->0 as int].1 == self.states@[found->0 as int].1.view());
                }
            }
            let first_seen = if !before.active {
                Some(now_ns)
            } else {
                before.first_seen_ns
            };
            let visible = match first_seen {
                None => true,
                Some(f) => elapsed_ge(now_ns, f, issue.initial_delay_secs),
            };
            let repeat = if repeat_alert_secs > MIN_REPEAT_ALERT_SECS {
                repeat_alert_secs
            } else {
                MIN_REPEAT_ALERT_SECS
            };
            let due = visible && match before.last_sent_ns {
                None => true,
                Some(t) => elapsed_ge(now_ns, t, repeat),
            };
            let after = AlertState {
                active: true,
                visible,
                first_seen_ns: first_seen,
                last_sent_ns: before.last_sent_ns,
                recovery_pending: false,
                message: before.message,
            };
            self.put(found, key, after);
            if due {
                let ghost before_out = out@;
                out.push(
                    PendingNotice { key: owned(key), message: owned(issue.message.as_str()), recovery: false },
                );
                proof {
                    assert(notices_view(out@) =~= notices_view(before_out).push(
                        (issue.key@, issue.message@, false),
                    ));
                }
            }
            i = i + 1;
        }
        let ghost mid = states_view(self.states@);
        let ghost alerts = notices_view(out@);
        let mut j: usize = 0;
        while j < self.states.len()
            invariant
                j <= self.states@.len(),
                iv == issues@.map_values(|i: MonitorIssue| issue_view(i)),
                mid.len() == self.states@.len(),
                (states_view(self.states@), notices_view(out@)) == ({
                    let (s2, rec) = recover(mid, iv, j as int);
                    (s2, alerts + rec)
                }),
                forall|k: int| j <= k < mid.len() ==> states_view(self.states@)[k] == #[trigger] mid[k],
            decreases self.states@.len() - j,
        {
            let ghost v = states_view(self.states@);
            assert(v[j as int] == mid[j as int]);
            assert(v[j as int] == (self.states@[j as int].0@, self.states@[j as int].1.view()));
            let active = self.states[j].1.active;
            let sent = self.states[j].1.last_sent_ns.is_some();
            let rp = self.states[j].1.recovery_pending;
            let current = has_issue_key(issues, self.states[j].0.as_str());
            if !active || current {
            } else if !sent {
                let k = owned(self.states[j].0.as_str());
                self.states.set(j, (k, AlertState::fresh()));
                proof {
                    assert(states_view(self.states@) =~= v.update(j as int, (v[j as int].0, fresh_view())));
                }
            } else if !rp {
                let key = owned(self.states[j].0.as_str());
                let text = if self.states[j].1.message.as_str().unicode_len() == 0 {
                    concat2("问题已恢复: ", key.as_str())
                } else {
                    concat2("问题已恢复: ", self.states[j].1.message.as_str())
                };
                let ghost before_out = out@;
                out.push(PendingNotice { key, message: text, recovery: true });
                proof {
                    assert(notices_view(out@) =~= notices_view(before_out).push(
                        (v[j as int].0, recovery_text(v[j as int].0, v[j as int].1.message), true),
                    ));
                }
            }
            j = j + 1;
        }
        out
    }

    /// Records sent notices: an alert's time and message, or a recovery's
    /// reset of the issue.
    pub fn mark_sent(&mut self, notices: &Vec<PendingNotice>, now_ns: u64)
        ensures
            states_view(final(self).states@) == mark_all(
                states_view(old(self).states@),
                notices_view(notices@),
                notices@.len() as int,
                now_ns,
            ),
    {
        let ghost start = states_view(self.states@);
        let ghost nv = notices_view(notices@);
        let mut i: usize = 0;
        while i < notices.len()
            invariant
                i <= notices@.len(),
                nv == notices_view(notices@),
                states_view(self.states@) == mark_all(start, nv, i as int, now_ns),
            decreases notices@.len() - i,
        {
            let notice = &notices[i];
            assert(nv[i as int] == (notice.key@, notice.message@, notice.recovery));
            let key = notice.key.as_str();
            let found = self.find(key);
            let after = if notice.recovery {
                AlertState::fresh()
            } else {
                let (visible, first_seen) = match found {
                    Some(k) => (self.states[k].1.visible, self.states[k].1.first_seen_ns),
                    None => (false, None),
                };
                proof {
                    if found is Some {
                        let v = states_view(self.states@);
                        assert(v[found->0 as int].1 == self.states@[found->0 as int].1.view());
                    }
                }
                AlertState {
                    active: true,
                    visible,
                    first_seen_ns: first_seen,
                    last_sent_ns: Some(now_ns),
                    recovery_pending: false,
                    message: owned(notice.message.as_str()),
                }
            };
            self.put(found, key, after);
            i = i + 1;
        }
    }

    /// Unresolved, visible issues on one channel.
    pub fn active_count(&self, channel: NoticeChannel) -> (r: usize)
        ensures
            r == count_active(states_view(self.states@), channel, self.states@.len() as int),
    {
        let ghost v = states_view(self.states@);
        let mut n: usize = 0;
        let mut i: usize = 0;
        while i < self.states.len()
            invariant
                i <= self.states@.len(),
                v == states_view(self.states@),
                n == count_active(v, channel, i as int),
                n <= i,
            decreases self.states@.len() - i,
        {
            assert(v[i as int] == (self.states@[i as int].0@, self.states@[i as int].1.view()));
            let st = &self.states[i].1;
            if st.active && st.visible && channel_for_key(self.states[i].0.as_str()) == channel {
                n = n + 1;
            }
            i = i + 1;
        }
        n
    }
}

} // verus!
