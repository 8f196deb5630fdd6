//! Request rules, execution windows, minute buckets and point sampling of
//! the execution-cost report.

use vstd::prelude::*;

use crate::auth::{contains_text, has_text};
use crate::text::{str_eq, trim, trim_str};

verus! {

/// Execution window when the request names none, in seconds.
pub const DEFAULT_WINDOW_SECS: u64 = 300;

/// Longest execution window, in seconds.
pub const MAX_WINDOW_SECS: u64 = 86_400;

/// Updates per page when the request names no size.
pub const DEFAULT_PAGE_SIZE: usize = 25;

/// Largest page.
pub const MAX_PAGE_SIZE: usize = 100;

/// Length of one TWAP averaging bucket, in seconds.
pub const MINUTE_TWAP_SECS: u64 = 60;

/// Length of one TWAP averaging bucket, in microseconds.
pub const MINUTE_US: i64 = 60_000_000;

/// Most points drawn in the cost chart.
pub const MAX_COST_POINTS: usize = 2_000;

/// Why an execution-cost request is refused.
#[derive(Debug, Clone, Copy, PartialEq, Eq, Structural)]
pub enum CostRequestError {
    NegativeStart,
    EndBeforeStart,
    ZeroWindow,
    WindowTooLong,
    ZeroPage,
    PageSize,
    DuplicateSources,
    UnknownSource,
}

/// Operator-facing text of a refused execution-cost request.
pub open spec fn cost_request_error_text(e: CostRequestError) -> Seq<char> {
    match e {
        CostRequestError::NegativeStart => "start timestamp must not be negative"@,
        CostRequestError::EndBeforeStart => "end timestamp must not be before start timestamp"@,
        CostRequestError::ZeroWindow => "windowSecs must be greater than zero"@,
        CostRequestError::WindowTooLong => "windowSecs must not exceed 86400"@,
        CostRequestError::ZeroPage => "page must be greater than zero"@,
        CostRequestError::PageSize => "pageSize must be between 1 and 100"@,
        CostRequestError::DuplicateSources => "sourceIds must not contain duplicates"@,
        CostRequestError::UnknownSource => "sourceIds contains an unknown source"@,
    }
}

impl CostRequestError {
    /// Operator-facing text of the error.
    pub fn message(&self) -> (r: &'static str)
        ensures
            r@ == cost_request_error_text(*self),
    {
        match self {
            CostRequestError::NegativeStart => "start timestamp must not be negative",
            CostRequestError::EndBeforeStart => "end timestamp must not be before start timestamp",
            CostRequestError::ZeroWindow => "windowSecs must be greater than zero",
            CostRequestError::WindowTooLong => "windowSecs must not exceed 86400",
            CostRequestError::ZeroPage => "page must be greater than zero",
            CostRequestError::PageSize => "pageSize must be between 1 and 100",
            CostRequestError::DuplicateSources => "sourceIds must not contain duplicates",
            CostRequestError::UnknownSource => "sourceIds contains an unknown source",
        }
    }
}

/// Two entries of `v` have the same text.
pub open spec fn has_duplicate(v: Seq<String>) -> bool {
    exists|a: int, b: int| 0 <= a < b < v.len() && (#[trigger] v[a])@ == (#[trigger] v[b])@
}

/// The first rule an execution-cost request breaks.
pub open spec fn cost_request_error(
    start: i64,
    end: Option<i64>,
    window_secs: u64,
    page: usize,
    page_size: usize,
    source_ids: Seq<String>,
    configured: Seq<String>,
) -> Option<CostRequestError> {
    if start < 0 {
        Some(CostRequestError::NegativeStart)
    } else if end matches Some(e) && e < start {
        Some(CostRequestError::EndBeforeStart)
    } else if window_secs == 0 {
        Some(CostRequestError::ZeroWindow)
    } else if window_secs > MAX_WINDOW_SECS {
        Some(CostRequestError::WindowTooLong)
    } else if page == 0 {
        Some(CostRequestError::ZeroPage)
    } else if page_size == 0 || page_size > MAX_PAGE_SIZE {
        Some(CostRequestError::PageSize)
    } else if has_duplicate(source_ids) {
        Some(CostRequestError::DuplicateSources)
    } else if exists|i: int|
        0 <= i < source_ids.len() && !contains_text(configured, (#[trigger] source_ids[i])@) {
        Some(CostRequestError::UnknownSource)
    } else {
        None
    }
}

fn has_duplicate_exec(v: &Vec<String>) -> (r: bool)
    ensures
        r == has_duplicate(v@),
{
    let mut b: usize = 0;
    while b < v.len()
        invariant
            b <= v@.len(),
            forall|x: int, y: int| 0 <= x < y < b ==> (#[trigger] v@[x])@ != (#[trigger] v@[y])@,
        decreases v@.len() - b,
    {
        let mut a: usize = 0;
        while a < b
            invariant
                a <= b < v@.len(),
                forall|x: int, y: int| 0 <= x < y < b ==> (#[trigger] v@[x])@ != (#[trigger] v@[y])@,
                forall|x: int| 0 <= x < a ==> (#[trigger] v@[x])@ != v@[b as int]@,
            decreases b - a,
        {
            if str_eq(v[a].as_str(), v[b].as_str()) {
                return true;
            }
            a = a + 1;
        }
        b = b + 1;
    }
    false
}

fn all_configured(ids: &Vec<String>, configured: &Vec<String>) -> (r: bool)
    ensures
        r == forall|i: int| 0 <= i < ids@.len() ==> contains_text(configured@, (#[trigger] ids@[i])@),
{
    let mut i: usize = 0;
    while i < ids.len()
        invariant
            i <= ids@.len(),
            forall|k: int| 0 <= k < i ==> contains_text(configured@, (#[trigger] ids@[k])@),
        decreases ids@.len() - i,
    {
        if !has_text(configured, ids[i].as_str()) {
            return false;
        }
        i = i + 1;
    }
    true
}

/// Checks an execution-cost request and gives its window in microseconds.
pub fn validate_cost_request(
    start_received_at_us: i64,
    end_received_at_us: Option<i64>,
    window_secs: u64,
    page: usize,
    page_size: usize,
    source_ids: &Vec<String>,
    configured_ids: &Vec<String>,
) -> (r: Result<i64, CostRequestError>)
    ensures
        r is Ok <==> cost_request_error(
            start_received_at_us,
            end_received_at_us,
            window_secs,
            page,
            page_size,
            source_ids@,
            configured_ids@,
        ) is None,
        r matches Ok(w) ==> w == window_secs * 1_000_000,
        r matches Err(e) ==> cost_request_error(
            start_received_at_us,
            end_received_at_us,
            window_secs,
            page,
            page_size,
            source_ids@,
            configured_ids@,
        ) == Some(e),
{
    if start_received_at_us < 0 {
        return Err(CostRequestError::NegativeStart);
    }
    match end_received_at_us {
        Some(end) => {
            if end < start_received_at_us {
                return Err(CostRequestError::EndBeforeStart);
            }
        },
        None => {},
    }
    if window_secs == 0 {
        return Err(CostRequestError::ZeroWindow);
    }
    if window_secs > MAX_WINDOW_SECS {
        return Err(CostRequestError::WindowTooLong);
    }
    if page == 0 {
        return Err(CostRequestError::ZeroPage);
    }
    if page_size == 0 || page_size > MAX_PAGE_SIZE {
        return Err(CostRequestError::PageSize);
    }
    if has_duplicate_exec(source_ids) {
        return Err(CostRequestError::DuplicateSources);
    }
    if !all_configured(source_ids, configured_ids) {
        return Err(CostRequestError::UnknownSource);
    }
    Ok((window_secs * 1_000_000) as i64)
}

/// The strategy filter of a request: its trimmed name, unless blank.
pub fn strategy_filter(name: Option<&str>) -> (r: Option<&str>)
    ensures
        name is None ==> r is None,
        name matches Some(n) ==> (r is None <==> trim(n@).len() == 0),
        name matches Some(n) ==> (r matches Some(t) ==> t@ == trim(n@)),
{
    match name {
        Some(n) => {
            let t = trim_str(n);
            if t.unicode_len() == 0 {
                None
            } else {
                Some(t)
            }
        },
        None => None,
    }
}

/// For each update, the receive time of the next update of the same
/// strategy, if any.
pub open spec fn next_same(names: Seq<String>, received: Seq<i64>, i: int) -> Option<i64> {
    if exists|j: int| i < j < names.len() && (#[trigger] names[j])@ == names[i]@ {
        let j = choose|j: int|
            i < j < names.len() && (#[trigger] names[j])@ == names[i]@ && forall|k: int|
                i < k < j ==> (#[trigger] names[k])@ != names[i]@;
        Some(received[j])
    } else {
        None
    }
}

fn find_next_same(names: &Vec<String>, i: usize) -> (r: Option<usize>)
    requires
        i < names@.len(),
    ensures
        r matches Some(j) ==> i < j < names@.len() && names@[j as int]@ == names@[i as int]@
            && forall|k: int| i < k < j ==> (#[trigger] names@[k])@ != names@[i as int]@,
        r is None ==> forall|k: int| i < k < names@.len() ==> (#[trigger] names@[k])@ != names@[i as int]@,
{
    assert(names@.len() == names.len());
    let mut j: usize = i + 1;
    while j < names.len()
        invariant
            i < names@.len(),
            i + 1 <= j <= names@.len(),
            forall|k: int| i < k < j ==> (#[trigger] names@[k])@ != names@[i as int]@,
        decreases names@.len() - j,
    {
        if str_eq(names[j].as_str(), names[i].as_str()) {
            return Some(j);
        }
        j = j + 1;
    }
    None
}

/// The next update of the same strategy, for every update (by position).
pub fn next_same_strategy_starts(names: &Vec<String>, received: &Vec<i64>) -> (r: Vec<Option<i64>>)
    requires
        names@.len() == received@.len(),
    ensures
        r@.len() == names@.len(),
        forall|i: int| 0 <= i < r@.len() ==> #[trigger] r@[i] == next_same(names@, received@, i),
{
    let n = names.len();
    let mut out: Vec<Option<i64>> = Vec::new();
    let mut i: usize = 0;
    while i < n
        invariant
            n == names@.len(),
            names@.len() == received@.len(),
            i <= n,
            out@.len() == i,
            forall|k: int| 0 <= k < i ==> #[trigger] out@[k] == next_same(names@, received@, k),
        decreases n - i,
    {
        let next = match find_next_same(names, i) {
            Some(j) => {
                proof {
                    let c = choose|c: int|
                        i < c < names@.len() && (#[trigger] names@[c])@ == names@[i as int]@
                            && forall|k: int| i < k < c ==> (#[trigger] names@[k])@ != names@[i as int]@;
                    assert(names@[j as int]@ == names@[i as int]@);
                    if c < j {
                        assert(names@[c]@ != names@[i as int]@);
                    }
                    if c > j {
                        assert(names@[j as int]@ != names@[i as int]@);
                    }
                }
                Some(received[j])
            },
            None => None,
        };
        assert(next == next_same(names@, received@, i as int));
        out.push(next);
        i = i + 1;
    }
    out
}

/// `a + b` saturated to the `i64` range.
pub open spec fn sat_add_i64(a: int, b: int) -> int {
    if a + b > i64::MAX {
        i64::MAX as int
    } else if a + b < i64::MIN {
        i64::MIN as int
    } else {
        a + b
    }
}

/// End of an update's execution window: the window length after it, cut
/// at the next update of the same strategy and at the report time (but not
/// before the update itself).
pub open spec fn window_end(received: i64, next: Option<i64>, window_us: i64, generated: i64) -> int {
    let end = sat_add_i64(received as int, window_us as int);
    let end2 = match next {
        Some(n) => if n < end {
            n as int
        } else {
            end
        },
        None => end,
    };
    let cap = if generated >= received {
        generated as int
    } else {
        received as int
    };
    if end2 < cap {
        end2
    } else {
        cap
    }
}

/// `received + window_us`, saturated at the bounds of `i64`.
pub open spec fn capped_window_end(received: i64, window_us: i64) -> int {
    if received + window_us > i64::MAX {
        i64::MAX as int
    } else if received + window_us < i64::MIN {
        i64::MIN as int
    } else {
        received + window_us
    }
}

/// An update's execution window ends no later than the window length after
/// it (saturating), nor after the strategy's next update, nor after the
/// report time (or the update, if later); it is the earliest of the three.
/// With no later update and a report after the full window, it ends the
/// window length after the update.
pub proof fn lemma_window_end_bounds(received: i64, next: Option<i64>, window_us: i64, generated: i64)
    ensures
        window_end(received, next, window_us, generated) <= capped_window_end(received, window_us),
        next matches Some(n) ==> window_end(received, next, window_us, generated) <= n,
        window_end(received, next, window_us, generated) <= received || window_end(
            received,
            next,
            window_us,
            generated,
        ) <= generated,
        window_end(received, next, window_us, generated) == capped_window_end(received, window_us)
            || (next matches Some(n) && window_end(received, next, window_us, generated) == n)
            || window_end(received, next, window_us, generated) == received
            || window_end(received, next, window_us, generated) == generated,
        next is None && 0 <= window_us && received + window_us <= generated ==> window_end(
            received,
            next,
            window_us,
            generated,
        ) == received + window_us,
{
}

/// The end of an update's execution window.
pub fn execution_window_end(
    received_at_us: i64,
    next_same_strategy: Option<i64>,
    window_us: i64,
    generated_at_us: i64,
) -> (r: i64)
    ensures
        r == window_end(received_at_us, next_same_strategy, window_us, generated_at_us),
        r <= capped_window_end(received_at_us, window_us),
        next_same_strategy matches Some(n) ==> r <= n,
        r <= received_at_us || r <= generated_at_us,
        next_same_strategy is None && 0 <= window_us && received_at_us + window_us <= generated_at_us ==> r
            == received_at_us + window_us,
{
    proof {
        lemma_window_end_bounds(received_at_us, next_same_strategy, window_us, generated_at_us);
    }
    let mut end: i64 = if window_us >= 0 {
        if received_at_us > i64::MAX - window_us {
            i64::MAX
        } else {
            received_at_us + window_us
        }
    } else {
        if received_at_us < i64::MIN - window_us {
            i64::MIN
        } else {
            received_at_us + window_us
        }
    };
    match next_same_strategy {
        Some(next) => {
            if next < end {
                end = next;
            }
        },
        None => {},
    }
    let cap = if generated_at_us >= received_at_us {
        generated_at_us
    } else {
        received_at_us
    };
    if end < cap {
        end
    } else {
        cap
    }
}

/// One averaging bucket: its bounds and the bars that close inside it.
#[derive(Debug, Clone)]
pub struct MinuteBucket {
    pub start_us: i64,
    pub end_us: i64,
    pub bar_indices: Vec<usize>,
}

/// The bars (by index) whose end time lies in `(start, end]`.
pub open spec fn bars_in(bar_ends: Seq<i64>, start: i64, end: i64, idx: Seq<usize>) -> bool {
    &&& forall|k: int|
        0 <= k < idx.len() ==> (#[trigger] idx[k]) < bar_ends.len() && start < bar_ends[idx[k] as int] <= end
    &&& forall|b: int|
        0 <= b < bar_ends.len() && start < #[trigger] bar_ends[b] <= end ==> idx.contains(b as usize)
    &&& forall|a: int, b: int| 0 <= a < b < idx.len() ==> idx[a] < idx[b]
}

fn bars_closing_in(bar_ends: &Vec<i64>, start: i64, end: i64) -> (r: Vec<usize>)
    ensures
        bars_in(bar_ends@, start, end, r@),
{
    let mut out: Vec<usize> = Vec::new();
    let mut b: usize = 0;
    while b < bar_ends.len()
        invariant
            b <= bar_ends@.len(),
            forall|k: int|
                0 <= k < out@.len() ==> (#[trigger] out@[k]) < b && start < bar_ends@[out@[k] as int] <= end,
            forall|x: int|
                0 <= x < b && start < #[trigger] bar_ends@[x] <= end ==> out@.contains(x as usize),
            forall|x: int, y: int| 0 <= x < y < out@.len() ==> out@[x] < out@[y],
        decreases bar_ends@.len() - b,
    {
        let e = bar_ends[b];
        if start < e && e <= end {
            let ghost before = out@;
            out.push(b);
            proof {
                assert forall|x: int|
                    0 <= x < b + 1 && start < #[trigger] bar_ends@[x] <= end implies out@.contains(
                    x as usize,
                ) by {
                    if x < b {
                        let k = choose|k: int| 0 <= k < before.len() && before[k] == x as usize;
                        assert(out@[k] == before[k]);
                    } else {
                        assert(out@[before.len() as int] == b);
                    }
                }
            }
        }
        b = b + 1;
    }
    out
}

/// A bucket that starts at `start`, ends after it but not after `end_us`,
/// lasts one minute unless it is the last, and lists the bars that close in
/// it.
#[verifier::opaque]
pub open spec fn bucket_ok(b: MinuteBucket, start: int, end_us: i64, bar_ends: Seq<i64>) -> bool {
    &&& b.start_us == start
    &&& b.start_us < b.end_us <= end_us
    &&& (b.end_us - b.start_us == MINUTE_US || b.end_us == end_us)
    &&& bars_in(bar_ends, b.start_us, b.end_us, b.bar_indices@)
}

/// Where bucket `k` of a list must start.
pub open spec fn bucket_start_at(v: Seq<MinuteBucket>, k: int, start_us: i64) -> int {
    if k == 0 {
        start_us as int
    } else {
        v[k - 1].end_us as int
    }
}

fn make_bucket(bar_ends: &Vec<i64>, bucket_start: i64, end_us: i64) -> (r: MinuteBucket)
    requires
        bucket_start < end_us,
    ensures
        bucket_ok(r, bucket_start as int, end_us, bar_ends@),
        r.end_us == end_us || r.end_us - r.start_us == MINUTE_US,
{
    let bucket_end = if bucket_start <= i64::MAX - MINUTE_US && bucket_start + MINUTE_US < end_us {
        bucket_start + MINUTE_US
    } else {
        end_us
    };
    let bars = bars_closing_in(bar_ends, bucket_start, bucket_end);
    let b = MinuteBucket { start_us: bucket_start, end_us: bucket_end, bar_indices: bars };
    proof {
        reveal(bucket_ok);
    }
    b
}

/// Splits `(start, end]` into one-minute buckets (the last one shorter)
/// with the bars that close in each.
pub fn minute_buckets(bar_ends: &Vec<i64>, start_us: i64, end_us: i64) -> (r: Vec<MinuteBucket>)
    ensures
        end_us <= start_us ==> r@.len() == 0,
        forall|k: int|
            0 <= k < r@.len() ==> bucket_ok(#[trigger] r@[k], bucket_start_at(r@, k, start_us), end_us, bar_ends@),
        start_us < end_us ==> r@.len() > 0 && r@[r@.len() - 1].end_us == end_us,
{
    let mut out: Vec<MinuteBucket> = Vec::new();
    if end_us <= start_us {
        return out;
    }
    let mut bucket_start = start_us;
    while bucket_start < end_us
        invariant
            start_us < end_us,
            start_us <= bucket_start <= end_us,
            out@.len() == 0 ==> bucket_start == start_us,
            out@.len() > 0 ==> out@[out@.len() - 1].end_us == bucket_start,
            forall|k: int|
                0 <= k < out@.len() ==> bucket_ok(#[trigger] out@[k], bucket_start_at(out@, k, start_us), end_us, bar_ends@),
        decreases end_us - bucket_start,
    {
        let b = make_bucket(bar_ends, bucket_start, end_us);
        let next = b.end_us;
        proof {
            reveal(bucket_ok);
        }
        let ghost before = out@;
        out.push(b);
        proof {
            assert forall|k: int| 0 <= k < out@.len() implies bucket_ok(#[trigger] out@[k], bucket_start_at(out@, k, start_us), end_us, bar_ends@) by {
                if k < before.len() {
                    assert(out@[k] == before[k]);
                    assert(bucket_start_at(out@, k, start_us) == bucket_start_at(before, k, start_us));
                }
            }
        }
        bucket_start = next;
    }
    out
}

/// Index of the `k`-th of `m` evenly spaced samples of `n > m` points
/// (the first and the last included).
pub open spec fn sample_index(n: int, m: int, k: int) -> int {
    k * (n - 1) / (m - 1)
}

/// Thins a series to at most `max_points`, keeping both ends and evenly
/// spaced points between them; short series and limits under two are kept
/// whole.
pub fn downsample_cost_points<T: Copy>(points: Vec<T>, max_points: usize) -> (r: Vec<T>)
    requires
        (max_points as int - 1) * (points@.len() as int - 1) <= usize::MAX,
    ensures
        points@.len() <= max_points || max_points < 2 ==> r@ == points@,
        !(points@.len() <= max_points || max_points < 2) ==> r@.len() == max_points && forall|
            k: int,
        |
            0 <= k < max_points ==> #[trigger] r@[k] == points@[sample_index(
                points@.len() as int,
                max_points as int,
                k,
            )],
{
    if points.len() <= max_points || max_points < 2 {
        return points;
    }
    let last = points.len() - 1;
    let mut out: Vec<T> = Vec::new();
    let mut index: usize = 0;
    while index < max_points
        invariant
            max_points >= 2,
            points@.len() > max_points,
            last == points@.len() - 1,
            (max_points as int - 1) * (last as int) <= usize::MAX,
            index <= max_points,
            out@.len() == index,
            forall|k: int|
                0 <= k < index ==> #[trigger] out@[k] == points@[sample_index(
                    points@.len() as int,
                    max_points as int,
                    k,
                )],
        decreases max_points - index,
    {
        assert(index * last <= (max_points - 1) * last) by (nonlinear_arith)
            requires
                index <= max_points - 1,
        ;
        let pos = index * last / (max_points - 1);
        assert(pos <= last) by (nonlinear_arith)
            requires
                pos == index * last / (max_points - 1),
                index <= max_points - 1,
                max_points >= 2,
        ;
        out.push(points[pos]);
        index = index + 1;
    }
    out
}

} // verus!
