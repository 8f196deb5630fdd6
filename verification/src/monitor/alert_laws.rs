//! What the alert tracker promises across rounds: a due alert is sent, an
//! alert is not repeated within the repeat interval, an alerted issue that
//! goes away is announced as recovered, and an issue that goes away before
//! any alert is forgotten without a notice.

use vstd::prelude::*;

use crate::keyed::{
    find_key, keys_unique, lemma_find_key, lemma_find_key_is, lemma_find_key_same_keys,
    lemma_put_entry, put_entry,
};
use crate::monitor::{
    alert_due, apply_issues, current_key, elapsed_at_least, fresh_view, mark_all, pending_round,
    recover, recovery_text, repeat_secs, seen_state, state_of, states_after_issue,
    states_after_sent, AlertView,
};

verus! {

/// A vanished issue whose alert went out and whose recovery is owed.
pub open spec fn recovery_due(e: (Seq<char>, AlertView), issues: Seq<(Seq<char>, Seq<char>, u64)>) -> bool {
    e.1.active && !current_key(issues, e.0) && e.1.last_sent is Some && !e.1.recovery_pending
}

/// A tracked state after the recovery pass: a vanished issue that was
/// never alerted is reset.
pub open spec fn recover_entry(
    e: (Seq<char>, AlertView),
    issues: Seq<(Seq<char>, Seq<char>, u64)>,
) -> (Seq<char>, AlertView) {
    if e.1.active && !current_key(issues, e.0) && e.1.last_sent is None {
        (e.0, fresh_view())
    } else {
        e
    }
}

/// What setting one key does, in terms of tracked states: that key holds
/// the new state and every other key keeps its state.
proof fn lemma_put_state(states: Seq<(Seq<char>, AlertView)>, key: Seq<char>, st: AlertView)
    ensures
        put_entry(states, key, st).len() >= states.len(),
        state_of(put_entry(states, key, st), key) == st,
        forall|j: int|
            0 <= j < states.len() ==> (#[trigger] put_entry(states, key, st)[j]).0 == states[j].0,
        forall|j: int|
            0 <= j < states.len() && states[j].0 != key ==> #[trigger] put_entry(states, key, st)[j]
                == states[j],
        forall|j: int|
            states.len() <= j < put_entry(states, key, st).len() ==> (#[trigger] put_entry(
                states,
                key,
                st,
            )[j]).0 == key,
        forall|k2: Seq<char>|
            k2 != key ==> #[trigger] state_of(put_entry(states, key, st), k2) == state_of(states, k2),
        keys_unique(states) ==> keys_unique(put_entry(states, key, st)),
{
    let r = put_entry(states, key, st);
    lemma_put_entry(states, key, st);
    assert forall|k2: Seq<char>| k2 != key implies #[trigger] state_of(r, k2) == state_of(
        states,
        k2,
    ) by {
        lemma_find_key(states, k2);
        let f = find_key(states, k2);
        if f >= 0 {
            assert(states[f].0 == k2);
            assert(r[f] == states[f]);
        }
    }
}

/// The issue pass keeps every tracked key at its position, appends only
/// keys of the issues, leaves the states of keys that no issue names
/// untouched, and tracks no key twice if none was.
proof fn lemma_apply_frame(
    states: Seq<(Seq<char>, AlertView)>,
    issues: Seq<(Seq<char>, Seq<char>, u64)>,
    n: int,
    now: u64,
    repeat_alert_secs: u64,
)
    requires
        n <= issues.len(),
    ensures
        ({
            let s1 = apply_issues(states, issues, n, now, repeat_alert_secs).0;
            &&& s1.len() >= states.len()
            &&& forall|j: int| 0 <= j < states.len() ==> (#[trigger] s1[j]).0 == states[j].0
            &&& forall|j: int|
                states.len() <= j < s1.len() ==> exists|m: int|
                    0 <= m < n && (#[trigger] issues[m]).0 == (#[trigger] s1[j]).0
            &&& forall|k: Seq<char>|
                (forall|m: int| 0 <= m < n ==> (#[trigger] issues[m]).0 != k) ==> #[trigger] state_of(
                    s1,
                    k,
                ) == state_of(states, k)
            &&& keys_unique(states) ==> keys_unique(s1)
        }),
        forall|q: int|
            0 <= q < apply_issues(states, issues, n, now, repeat_alert_secs).1.len() ==> exists|m: int|
                0 <= m < n && (#[trigger] issues[m]).0 == (#[trigger] apply_issues(
                    states,
                    issues,
                    n,
                    now,
                    repeat_alert_secs,
                ).1[q]).0,
    decreases n,
{
    if n > 0 {
        lemma_apply_frame(states, issues, n - 1, now, repeat_alert_secs);
        let (s0, out0) = apply_issues(states, issues, n - 1, now, repeat_alert_secs);
        let (key, message, delay) = issues[n - 1];
        let st = seen_state(state_of(s0, key), delay, now);
        lemma_put_state(s0, key, st);
        let s1 = apply_issues(states, issues, n, now, repeat_alert_secs).0;
        let out1 = apply_issues(states, issues, n, now, repeat_alert_secs).1;
        assert(s1 == put_entry(s0, key, st));
        assert forall|j: int| states.len() <= j < s1.len() implies exists|m: int|
            0 <= m < n && (#[trigger] issues[m]).0 == (#[trigger] s1[j]).0 by {
            if j < s0.len() {
                let m = choose|m: int| 0 <= m < n - 1 && (#[trigger] issues[m]).0 == (#[trigger] s0[j]).0;
                assert(issues[m].0 == s1[j].0);
            } else {
                assert(issues[n - 1].0 == s1[j].0);
            }
        }
        assert forall|k: Seq<char>|
            (forall|m: int| 0 <= m < n ==> (#[trigger] issues[m]).0 != k) implies #[trigger] state_of(
            s1,
            k,
        ) == state_of(states, k) by {
            assert(issues[n - 1].0 != k);
            assert(forall|m: int| 0 <= m < n - 1 ==> (#[trigger] issues[m]).0 != k);
        }
        assert forall|q: int| 0 <= q < out1.len() implies exists|m: int|
            0 <= m < n && (#[trigger] issues[m]).0 == (#[trigger] out1[q]).0 by {
            if q < out0.len() {
                assert(out1[q] == out0[q]);
                let m = choose|m: int| 0 <= m < n - 1 && (#[trigger] issues[m]).0 == (#[trigger] out0[q]).0;
                assert(issues[m].0 == out1[q].0);
            } else {
                assert(issues[n - 1].0 == out1[q].0);
            }
        }
    }
}

/// The recovery pass over positions `0..n` leaves later positions as they
/// were and resets earlier ones that were never alerted.
proof fn lemma_recover_states(
    states: Seq<(Seq<char>, AlertView)>,
    issues: Seq<(Seq<char>, Seq<char>, u64)>,
    n: int,
)
    requires
        0 <= n <= states.len(),
    ensures
        recover(states, issues, n).0.len() == states.len(),
        forall|j: int|
            n <= j < states.len() ==> #[trigger] recover(states, issues, n).0[j] == states[j],
        forall|j: int|
            0 <= j < n ==> #[trigger] recover(states, issues, n).0[j] == recover_entry(
                states[j],
                issues,
            ),
    decreases n,
{
    if n > 0 {
        lemma_recover_states(states, issues, n - 1);
    }
}

/// Every notice in `out` is a recovery owed by one of the positions `0..n`.
pub open spec fn owed_recoveries(
    states: Seq<(Seq<char>, AlertView)>,
    issues: Seq<(Seq<char>, Seq<char>, u64)>,
    n: int,
    out: Seq<(Seq<char>, Seq<char>, bool)>,
) -> bool {
    forall|q: int|
        0 <= q < out.len() ==> exists|j: int|
            0 <= j < n && recovery_due(#[trigger] states[j], issues) && states[j].0 == (
            #[trigger] out[q]).0
}

/// Every recovery notice of the pass over `0..n` is owed by one of those
/// positions.
proof fn lemma_recover_sources(
    states: Seq<(Seq<char>, AlertView)>,
    issues: Seq<(Seq<char>, Seq<char>, u64)>,
    n: int,
)
    requires
        0 <= n <= states.len(),
    ensures
        owed_recoveries(states, issues, n, recover(states, issues, n).1),
    decreases n,
{
    if n > 0 {
        lemma_recover_sources(states, issues, n - 1);
        lemma_recover_states(states, issues, n - 1);
        let out0 = recover(states, issues, n - 1).1;
        let out1 = recover(states, issues, n).1;
        let e = states[n - 1];
        assert(recover(states, issues, n - 1).0[n - 1] == e);
        let x = (e.0, recovery_text(e.0, e.1.message), true);
        if recovery_due(e, issues) {
            assert(out1 == out0.push(x));
        } else {
            assert(out1 == out0);
        }
        assert forall|q: int| 0 <= q < out1.len() implies exists|j: int|
            0 <= j < n && recovery_due(#[trigger] states[j], issues) && states[j].0 == (
            #[trigger] out1[q]).0 by {
            if q < out0.len() {
                assert(out1[q] == out0[q]);
                let j = choose|j: int|
                    0 <= j < n - 1 && recovery_due(#[trigger] states[j], issues) && states[j].0 == (
                    #[trigger] out0[q]).0;
                assert(states[j].0 == out1[q].0);
            } else {
                assert(out1[q] == x);
                assert(states[n - 1].0 == out1[q].0);
            }
        }
        assert(owed_recoveries(states, issues, n, out1));
    } else {
        assert(recover(states, issues, n).1.len() == 0);
    }
}

/// The pass over `0..n` announces every recovery owed by those positions.
proof fn lemma_recover_complete(
    states: Seq<(Seq<char>, AlertView)>,
    issues: Seq<(Seq<char>, Seq<char>, u64)>,
    n: int,
)
    requires
        0 <= n <= states.len(),
    ensures
        forall|j: int|
            0 <= j < n && recovery_due(#[trigger] states[j], issues) ==> recover(
                states,
                issues,
                n,
            ).1.contains((states[j].0, recovery_text(states[j].0, states[j].1.message), true)),
    decreases n,
{
    if n > 0 {
        lemma_recover_complete(states, issues, n - 1);
        lemma_recover_states(states, issues, n - 1);
        let out0 = recover(states, issues, n - 1).1;
        let out1 = recover(states, issues, n).1;
        let e = states[n - 1];
        assert(recover(states, issues, n - 1).0[n - 1] == e);
        let x = (e.0, recovery_text(e.0, e.1.message), true);
        if recovery_due(e, issues) {
            assert(out1 == out0.push(x));
        } else {
            assert(out1 == out0);
        }
        assert forall|j: int|
            0 <= j < n && recovery_due(#[trigger] states[j], issues) implies out1.contains(
            (states[j].0, recovery_text(states[j].0, states[j].1.message), true),
        ) by {
            if j < n - 1 {
                let y = (states[j].0, recovery_text(states[j].0, states[j].1.message), true);
                let w = choose|w: int| 0 <= w < out0.len() && out0[w] == y;
                assert(out1[w] == y);
            } else {
                assert(out1[out0.len() as int] == x);
            }
        }
    }
}

proof fn lemma_contains_concat(
    a: Seq<(Seq<char>, Seq<char>, bool)>,
    b: Seq<(Seq<char>, Seq<char>, bool)>,
    x: (Seq<char>, Seq<char>, bool),
)
    ensures
        a.contains(x) ==> (a + b).contains(x),
        b.contains(x) ==> (a + b).contains(x),
{
    if a.contains(x) {
        let w = choose|w: int| 0 <= w < a.len() && a[w] == x;
        assert((a + b)[w] == x);
    }
    if b.contains(x) {
        let w = choose|w: int| 0 <= w < b.len() && b[w] == x;
        assert((a + b)[a.len() + w] == x);
    }
}

/// The issue pass alerts an issue whose alert is due at its first
/// occurrence.
proof fn lemma_apply_alerts_due(
    states: Seq<(Seq<char>, AlertView)>,
    issues: Seq<(Seq<char>, Seq<char>, u64)>,
    n: int,
    m0: int,
    now: u64,
    repeat_alert_secs: u64,
)
    requires
        0 <= m0 < n <= issues.len(),
        forall|m: int| 0 <= m < m0 ==> (#[trigger] issues[m]).0 != issues[m0].0,
        ({
            let before = state_of(states, issues[m0].0);
            alert_due(before, seen_state(before, issues[m0].2, now), now, repeat_alert_secs)
        }),
    ensures
        apply_issues(states, issues, n, now, repeat_alert_secs).1.contains(
            (issues[m0].0, issues[m0].1, false),
        ),
    decreases n,
{
    let x = (issues[m0].0, issues[m0].1, false);
    let out0 = apply_issues(states, issues, n - 1, now, repeat_alert_secs).1;
    let out1 = apply_issues(states, issues, n, now, repeat_alert_secs).1;
    if n - 1 == m0 {
        lemma_apply_frame(states, issues, m0, now, repeat_alert_secs);
        assert(out1 == out0.push(x));
        assert(out1[out0.len() as int] == x);
    } else {
        lemma_apply_alerts_due(states, issues, n - 1, m0, now, repeat_alert_secs);
        let w = choose|w: int| 0 <= w < out0.len() && out0[w] == x;
        assert(out1[w] == x);
    }
}

/// Through the issue pass an issue last alerted less than the repeat
/// interval ago keeps that time and gets no alert.
proof fn lemma_apply_no_repeat(
    states: Seq<(Seq<char>, AlertView)>,
    issues: Seq<(Seq<char>, Seq<char>, u64)>,
    n: int,
    now: u64,
    repeat_alert_secs: u64,
    key: Seq<char>,
    t: u64,
)
    requires
        n <= issues.len(),
        state_of(states, key).last_sent == Some(t),
        !elapsed_at_least(now, t, repeat_secs(repeat_alert_secs)),
    ensures
        state_of(apply_issues(states, issues, n, now, repeat_alert_secs).0, key).last_sent == Some(
            t,
        ),
        forall|q: int|
            0 <= q < apply_issues(states, issues, n, now, repeat_alert_secs).1.len() ==> (
            #[trigger] apply_issues(states, issues, n, now, repeat_alert_secs).1[q]).0 != key,
    decreases n,
{
    if n > 0 {
        lemma_apply_no_repeat(states, issues, n - 1, now, repeat_alert_secs, key, t);
        let s0 = apply_issues(states, issues, n - 1, now, repeat_alert_secs).0;
        let out0 = apply_issues(states, issues, n - 1, now, repeat_alert_secs).1;
        let out1 = apply_issues(states, issues, n, now, repeat_alert_secs).1;
        let (k, message, delay) = issues[n - 1];
        let before = state_of(s0, k);
        let st = seen_state(before, delay, now);
        lemma_put_state(s0, k, st);
        if k == key {
            assert(!alert_due(before, st, now, repeat_alert_secs));
            assert(out1 == out0);
        } else {
            assert forall|q: int| 0 <= q < out1.len() implies (#[trigger] out1[q]).0 != key by {
                if q < out0.len() {
                    assert(out1[q] == out0[q]);
                }
            }
        }
    }
}

/// Each notice of a round is an alert for a current issue or a recovery
/// owed by a tracked state after the issue pass.
proof fn lemma_round_notice_keys(
    states: Seq<(Seq<char>, AlertView)>,
    issues: Seq<(Seq<char>, Seq<char>, u64)>,
    now: u64,
    repeat_alert_secs: u64,
    q: int,
) -> (j: int)
    requires
        0 <= q < pending_round(states, issues, now, repeat_alert_secs).1.len(),
    ensures
        ({
            let (s1, alerts) = apply_issues(
                states,
                issues,
                issues.len() as int,
                now,
                repeat_alert_secs,
            );
            let x = pending_round(states, issues, now, repeat_alert_secs).1[q];
            ||| (q < alerts.len() && x == alerts[q] && current_key(issues, x.0))
            ||| (q >= alerts.len() && 0 <= j < s1.len() && recovery_due(s1[j], issues) && s1[j].0
                == x.0)
        }),
{
    let (s1, alerts) = apply_issues(states, issues, issues.len() as int, now, repeat_alert_secs);
    let (s2, recoveries) = recover(s1, issues, s1.len() as int);
    let out = pending_round(states, issues, now, repeat_alert_secs).1;
    assert(out == alerts + recoveries);
    lemma_apply_frame(states, issues, issues.len() as int, now, repeat_alert_secs);
    lemma_recover_sources(s1, issues, s1.len() as int);
    if q < alerts.len() {
        assert(out[q] == alerts[q]);
        let m = choose|m: int|
            0 <= m < issues.len() && (#[trigger] issues[m]).0 == (#[trigger] alerts[q]).0;
        assert(current_key(issues, out[q].0));
        0
    } else {
        assert(out[q] == recoveries[q - alerts.len()]);
        let r = q - alerts.len();
        choose|j: int|
            0 <= j < s1.len() && recovery_due(#[trigger] s1[j], issues) && s1[j].0 == (
            #[trigger] recoveries[r]).0
    }
}

/// An issue whose alert is due when it is seen (visible after its initial
/// delay, and not alerted within the repeat interval) is alerted in that
/// round with its message, at its first occurrence among the issues.
pub proof fn lemma_due_issue_is_alerted(
    states: Seq<(Seq<char>, AlertView)>,
    issues: Seq<(Seq<char>, Seq<char>, u64)>,
    m0: int,
    now: u64,
    repeat_alert_secs: u64,
)
    requires
        0 <= m0 < issues.len(),
        forall|m: int| 0 <= m < m0 ==> (#[trigger] issues[m]).0 != issues[m0].0,
        ({
            let before = state_of(states, issues[m0].0);
            alert_due(before, seen_state(before, issues[m0].2, now), now, repeat_alert_secs)
        }),
    ensures
        pending_round(states, issues, now, repeat_alert_secs).1.contains(
            (issues[m0].0, issues[m0].1, false),
        ),
{
    let (s1, alerts) = apply_issues(states, issues, issues.len() as int, now, repeat_alert_secs);
    let (s2, recoveries) = recover(s1, issues, s1.len() as int);
    lemma_apply_alerts_due(states, issues, issues.len() as int, m0, now, repeat_alert_secs);
    lemma_contains_concat(alerts, recoveries, (issues[m0].0, issues[m0].1, false));
}

/// A new issue (not active, never alerted) with no initial delay is
/// alerted in the first round that reports it.
pub proof fn lemma_new_issue_alerts_at_once(
    states: Seq<(Seq<char>, AlertView)>,
    key: Seq<char>,
    message: Seq<char>,
    now: u64,
    repeat_alert_secs: u64,
)
    requires
        !state_of(states, key).active,
        state_of(states, key).last_sent is None,
    ensures
        pending_round(states, seq![(key, message, 0u64)], now, repeat_alert_secs).1.contains(
            (key, message, false),
        ),
{
    let issues = seq![(key, message, 0u64)];
    assert(issues[0] == (key, message, 0u64));
    lemma_due_issue_is_alerted(states, issues, 0, now, repeat_alert_secs);
}

/// An alert is not repeated within the repeat interval (the configured
/// one, at least thirty seconds): while its issue is still reported and its
/// last alert went out less than the interval ago, a round owes no notice
/// for it.
pub proof fn lemma_no_repeat_within_interval(
    states: Seq<(Seq<char>, AlertView)>,
    issues: Seq<(Seq<char>, Seq<char>, u64)>,
    now: u64,
    repeat_alert_secs: u64,
    key: Seq<char>,
    t: u64,
)
    requires
        state_of(states, key).last_sent == Some(t),
        !elapsed_at_least(now, t, repeat_secs(repeat_alert_secs)),
        current_key(issues, key),
    ensures
        forall|q: int|
            0 <= q < pending_round(states, issues, now, repeat_alert_secs).1.len() ==> (
            #[trigger] pending_round(states, issues, now, repeat_alert_secs).1[q]).0 != key,
{
    let (s1, alerts) = apply_issues(states, issues, issues.len() as int, now, repeat_alert_secs);
    let (s2, recoveries) = recover(s1, issues, s1.len() as int);
    let out = pending_round(states, issues, now, repeat_alert_secs).1;
    assert(out == alerts + recoveries);
    lemma_apply_no_repeat(states, issues, issues.len() as int, now, repeat_alert_secs, key, t);
    assert forall|q: int| 0 <= q < out.len() implies (#[trigger] out[q]).0 != key by {
        let j = lemma_round_notice_keys(states, issues, now, repeat_alert_secs, q);
        if q < alerts.len() {
            assert(out[q] == alerts[q]);
        }
    }
}

/// The alert just recorded is not repeated within the repeat interval.
pub proof fn lemma_sent_alert_not_repeated(
    states: Seq<(Seq<char>, AlertView)>,
    key: Seq<char>,
    message: Seq<char>,
    sent_at: u64,
    issues: Seq<(Seq<char>, Seq<char>, u64)>,
    now: u64,
    repeat_alert_secs: u64,
)
    requires
        current_key(issues, key),
        !elapsed_at_least(now, sent_at, repeat_secs(repeat_alert_secs)),
    ensures
        ({
            let after = states_after_sent(states, (key, message, false), sent_at);
            forall|q: int|
                0 <= q < pending_round(after, issues, now, repeat_alert_secs).1.len() ==> (
                #[trigger] pending_round(after, issues, now, repeat_alert_secs).1[q]).0 != key
        }),
{
    let st = state_of(states, key);
    let v = AlertView {
        active: true,
        visible: st.visible,
        first_seen: st.first_seen,
        last_sent: Some(sent_at),
        recovery_pending: false,
        message,
    };
    lemma_put_state(states, key, v);
    let after = states_after_sent(states, (key, message, false), sent_at);
    assert(after == put_entry(states, key, v));
    lemma_no_repeat_within_interval(after, issues, now, repeat_alert_secs, key, sent_at);
}

/// An alerted issue that is no longer reported is announced as recovered,
/// with its last alert's message (or its key when that was empty).
pub proof fn lemma_vanished_alert_recovers(
    states: Seq<(Seq<char>, AlertView)>,
    issues: Seq<(Seq<char>, Seq<char>, u64)>,
    now: u64,
    repeat_alert_secs: u64,
    key: Seq<char>,
)
    requires
        !current_key(issues, key),
        state_of(states, key).active,
        state_of(states, key).last_sent is Some,
        !state_of(states, key).recovery_pending,
    ensures
        pending_round(states, issues, now, repeat_alert_secs).1.contains(
            (key, recovery_text(key, state_of(states, key).message), true),
        ),
{
    let (s1, alerts) = apply_issues(states, issues, issues.len() as int, now, repeat_alert_secs);
    let (s2, recoveries) = recover(s1, issues, s1.len() as int);
    lemma_apply_frame(states, issues, issues.len() as int, now, repeat_alert_secs);
    assert(forall|m: int| 0 <= m < issues.len() ==> (#[trigger] issues[m]).0 != key);
    assert(state_of(s1, key) == state_of(states, key));
    lemma_find_key(s1, key);
    let i = find_key(s1, key);
    assert(i >= 0);
    assert(recovery_due(s1[i], issues));
    lemma_recover_complete(s1, issues, s1.len() as int);
    lemma_contains_concat(
        alerts,
        recoveries,
        (key, recovery_text(key, state_of(states, key).message), true),
    );
}

/// The recovery of an alert reuses the alert's message: after an alert is
/// recorded, a round without its issue announces `问题已恢复: ` and that
/// message.
pub proof fn lemma_recovery_reuses_alert_message(
    states: Seq<(Seq<char>, AlertView)>,
    key: Seq<char>,
    message: Seq<char>,
    sent_at: u64,
    issues: Seq<(Seq<char>, Seq<char>, u64)>,
    now: u64,
    repeat_alert_secs: u64,
)
    requires
        !current_key(issues, key),
    ensures
        pending_round(
            states_after_sent(states, (key, message, false), sent_at),
            issues,
            now,
            repeat_alert_secs,
        ).1.contains((key, recovery_text(key, message), true)),
{
    let st = state_of(states, key);
    let v = AlertView {
        active: true,
        visible: st.visible,
        first_seen: st.first_seen,
        last_sent: Some(sent_at),
        recovery_pending: false,
        message,
    };
    lemma_put_state(states, key, v);
    let after = states_after_sent(states, (key, message, false), sent_at);
    assert(after == put_entry(states, key, v));
    lemma_vanished_alert_recovers(after, issues, now, repeat_alert_secs, key);
}

/// The recovery pass keeps every key at its position.
proof fn lemma_recover_keys(
    states: Seq<(Seq<char>, AlertView)>,
    issues: Seq<(Seq<char>, Seq<char>, u64)>,
)
    ensures
        recover(states, issues, states.len() as int).0.len() == states.len(),
        forall|j: int|
            0 <= j < states.len() ==> (#[trigger] recover(states, issues, states.len() as int).0[j]).0
                == states[j].0,
        keys_unique(states) ==> keys_unique(recover(states, issues, states.len() as int).0),
{
    lemma_recover_states(states, issues, states.len() as int);
    let r = recover(states, issues, states.len() as int).0;
    assert forall|j: int| 0 <= j < states.len() implies (#[trigger] r[j]).0 == states[j].0 by {
        assert(r[j] == recover_entry(states[j], issues));
    }
    if keys_unique(states) {
        assert forall|i: int, j: int| 0 <= i < j < r.len() implies (#[trigger] r[i]).0 != (
        #[trigger] r[j]).0 by {
            assert(r[i].0 == states[i].0);
            assert(r[j].0 == states[j].0);
        }
    }
}

/// With no key tracked twice, a key no issue reports gets a notice in a
/// round only when its own state owes a recovery.
proof fn lemma_absent_key_notices(
    states: Seq<(Seq<char>, AlertView)>,
    issues: Seq<(Seq<char>, Seq<char>, u64)>,
    now: u64,
    repeat_alert_secs: u64,
    key: Seq<char>,
)
    requires
        keys_unique(states),
        !current_key(issues, key),
        !recovery_due((key, state_of(states, key)), issues),
    ensures
        forall|q: int|
            0 <= q < pending_round(states, issues, now, repeat_alert_secs).1.len() ==> (
            #[trigger] pending_round(states, issues, now, repeat_alert_secs).1[q]).0 != key,
        ({
            let s1 = apply_issues(states, issues, issues.len() as int, now, repeat_alert_secs).0;
            &&& find_key(s1, key) == find_key(states, key)
            &&& state_of(s1, key) == state_of(states, key)
            &&& keys_unique(s1)
        }),
{
    let (s1, alerts) = apply_issues(states, issues, issues.len() as int, now, repeat_alert_secs);
    let out = pending_round(states, issues, now, repeat_alert_secs).1;
    lemma_apply_frame(states, issues, issues.len() as int, now, repeat_alert_secs);
    assert(forall|m: int| 0 <= m < issues.len() ==> (#[trigger] issues[m]).0 != key);
    assert forall|j: int| states.len() <= j < s1.len() implies (#[trigger] s1[j]).0 != key by {
        let m = choose|m: int| 0 <= m < issues.len() && (#[trigger] issues[m]).0 == (
        #[trigger] s1[j]).0;
        assert(issues[m].0 != key);
    }
    lemma_find_key_same_keys(states, s1, key);
    lemma_find_key(s1, key);
    assert forall|q: int| 0 <= q < out.len() implies (#[trigger] out[q]).0 != key by {
        let j = lemma_round_notice_keys(states, issues, now, repeat_alert_secs, q);
        if q >= alerts.len() && out[q].0 == key {
            let i = find_key(s1, key);
            if i < 0 {
                assert(s1[j].0 != key);
            } else if i != j {
                if i < j {
                    assert(s1[i].0 != s1[j].0);
                } else {
                    assert(s1[j].0 != s1[i].0);
                }
            } else {
                assert(s1[i].1 == state_of(s1, key));
            }
        }
    }
}

/// An issue that goes away before any alert went out is forgotten: the
/// round owes no notice for it and leaves it inactive and unalerted.
pub proof fn lemma_unalerted_issue_is_forgotten(
    states: Seq<(Seq<char>, AlertView)>,
    issues: Seq<(Seq<char>, Seq<char>, u64)>,
    now: u64,
    repeat_alert_secs: u64,
    key: Seq<char>,
)
    requires
        keys_unique(states),
        !current_key(issues, key),
        state_of(states, key).last_sent is None,
    ensures
        forall|q: int|
            0 <= q < pending_round(states, issues, now, repeat_alert_secs).1.len() ==> (
            #[trigger] pending_round(states, issues, now, repeat_alert_secs).1[q]).0 != key,
        !state_of(pending_round(states, issues, now, repeat_alert_secs).0, key).active,
        state_of(pending_round(states, issues, now, repeat_alert_secs).0, key).last_sent is None,
{
    lemma_absent_key_notices(states, issues, now, repeat_alert_secs, key);
    let s1 = apply_issues(states, issues, issues.len() as int, now, repeat_alert_secs).0;
    let s2 = recover(s1, issues, s1.len() as int).0;
    assert(s2 == pending_round(states, issues, now, repeat_alert_secs).0);
    lemma_recover_states(s1, issues, s1.len() as int);
    lemma_recover_keys(s1, issues);
    lemma_find_key_same_keys(s1, s2, key);
    lemma_find_key(s1, key);
    let i = find_key(s1, key);
    if i >= 0 {
        assert(s2[i] == recover_entry(s1[i], issues));
        assert(s1[i].1 == state_of(s1, key));
    }
}

/// After an issue's recovery is recorded it is reset, and while it is not
/// reported again no round owes a notice for it.
pub proof fn lemma_recovered_issue_stays_quiet(
    states: Seq<(Seq<char>, AlertView)>,
    key: Seq<char>,
    message: Seq<char>,
    sent_at: u64,
    issues: Seq<(Seq<char>, Seq<char>, u64)>,
    now: u64,
    repeat_alert_secs: u64,
)
    requires
        keys_unique(states),
        !current_key(issues, key),
    ensures
        state_of(states_after_sent(states, (key, message, true), sent_at), key) == fresh_view(),
        ({
            let after = states_after_sent(states, (key, message, true), sent_at);
            forall|q: int|
                0 <= q < pending_round(after, issues, now, repeat_alert_secs).1.len() ==> (
                #[trigger] pending_round(after, issues, now, repeat_alert_secs).1[q]).0 != key
        }),
{
    lemma_put_state(states, key, fresh_view());
    let after = states_after_sent(states, (key, message, true), sent_at);
    assert(after == put_entry(states, key, fresh_view()));
    lemma_absent_key_notices(after, issues, now, repeat_alert_secs, key);
}

/// Tracking each issue once is kept by every round and by recording sent
/// notices.
pub proof fn lemma_rounds_keep_keys_unique(
    states: Seq<(Seq<char>, AlertView)>,
    issues: Seq<(Seq<char>, Seq<char>, u64)>,
    now: u64,
    repeat_alert_secs: u64,
    notices: Seq<(Seq<char>, Seq<char>, bool)>,
    n: int,
    sent_at: u64,
)
    requires
        keys_unique(states),
    ensures
        keys_unique(pending_round(states, issues, now, repeat_alert_secs).0),
        keys_unique(mark_all(states, notices, n, sent_at)),
    decreases n,
{
    lemma_apply_frame(states, issues, issues.len() as int, now, repeat_alert_secs);
    let s1 = apply_issues(states, issues, issues.len() as int, now, repeat_alert_secs).0;
    lemma_recover_keys(s1, issues);
    if n > 0 {
        lemma_rounds_keep_keys_unique(states, issues, now, repeat_alert_secs, notices, n - 1, sent_at);
        let m0 = mark_all(states, notices, n - 1, sent_at);
        let (key, message, recovery) = notices[n - 1];
        let st = state_of(m0, key);
        let v = if recovery {
            fresh_view()
        } else {
            AlertView {
                active: true,
                visible: st.visible,
                first_seen: st.first_seen,
                last_sent: Some(sent_at),
                recovery_pending: false,
                message,
            }
        };
        lemma_put_state(m0, key, v);
        assert(mark_all(states, notices, n, sent_at) == put_entry(m0, key, v));
    }
}

} // verus!
