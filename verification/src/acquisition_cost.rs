//! Request rules, paging and delay classes of the acquisition-cost report.

use vstd::prelude::*;

verus! {

/// The most rows one page of the report holds.
pub const MAX_PAGE_SIZE: usize = 100;

/// Why an acquisition-cost request is refused.
#[derive(Debug, Clone, Copy, PartialEq, Eq, Structural)]
pub enum AcquisitionRequestError {
    /// The start is negative, or the end comes before it.
    InvalidRange,
    /// The page is zero, or the page size is zero or above the limit.
    InvalidPagination,
}

/// Operator-facing text of a refused request.
pub open spec fn acquisition_request_error_text(e: AcquisitionRequestError) -> Seq<char> {
    match e {
        AcquisitionRequestError::InvalidRange => "invalid acquisition-cost timestamp range"@,
        AcquisitionRequestError::InvalidPagination => "invalid acquisition-cost pagination"@,
    }
}

impl AcquisitionRequestError {
    /// Operator-facing text of the error.
    pub fn message(&self) -> (r: &'static str)
        ensures
            r@ == acquisition_request_error_text(*self),
    {
        match self {
            AcquisitionRequestError::InvalidRange => "invalid acquisition-cost timestamp range",
            AcquisitionRequestError::InvalidPagination => "invalid acquisition-cost pagination",
        }
    }
}

/// The first rule a report request breaks: the received-at range first,
/// then the paging.
pub open spec fn acquisition_request_error(
    start_received_at_us: i64,
    end_received_at_us: i64,
    page: usize,
    page_size: usize,
) -> Option<AcquisitionRequestError> {
    if start_received_at_us < 0 || end_received_at_us < start_received_at_us {
        Some(AcquisitionRequestError::InvalidRange)
    } else if page == 0 || page_size == 0 || page_size > MAX_PAGE_SIZE {
        Some(AcquisitionRequestError::InvalidPagination)
    } else {
        None
    }
}

/// Checks the range and paging of a report request before any row is read.
pub fn validate_acquisition_request(
    start_received_at_us: i64,
    end_received_at_us: i64,
    page: usize,
    page_size: usize,
) -> (r: Result<(), AcquisitionRequestError>)
    ensures
        r is Ok <==> acquisition_request_error(
            start_received_at_us,
            end_received_at_us,
            page,
            page_size,
        ) is None,
        r matches Err(e) ==> acquisition_request_error(
            start_received_at_us,
            end_received_at_us,
            page,
            page_size,
        ) == Some(e),
{
    if start_received_at_us < 0 || end_received_at_us < start_received_at_us {
        return Err(AcquisitionRequestError::InvalidRange);
    }
    if page == 0 || page_size == 0 || page_size > MAX_PAGE_SIZE {
        return Err(AcquisitionRequestError::InvalidPagination);
    }
    Ok(())
}

/// `a - b`, or 0 when `b` exceeds `a`.
pub open spec fn sat_sub(a: int, b: int) -> int {
    if a >= b {
        a - b
    } else {
        0
    }
}

/// `a * b`, capped at `usize::MAX`.
pub open spec fn sat_mul_usize(a: int, b: int) -> int {
    if a * b <= usize::MAX {
        a * b
    } else {
        usize::MAX as int
    }
}

/// Rows `[start, end)` of page `page` (1-based; page 0 counts as page 1)
/// when `count` rows are listed newest first, `page_size` per page: the
/// rows are taken from the end.
pub open spec fn page_range(count: int, page: int, page_size: int) -> (int, int) {
    let offset = sat_mul_usize(sat_sub(page, 1), page_size);
    let end = sat_sub(count, offset);
    (sat_sub(end, page_size), end)
}

/// The bounds of one page of rows, newest page first.
pub fn page_bounds(count: usize, page: usize, page_size: usize) -> (r: (usize, usize))
    ensures
        (r.0 as int, r.1 as int) == page_range(count as int, page as int, page_size as int),
{
    let p = page.saturating_sub(1);
    let offset: usize = if page_size == 0 || p <= usize::MAX / page_size {
        proof {
            if page_size > 0 {
                assert(p * page_size <= usize::MAX) by (nonlinear_arith)
                    requires
                        page_size > 0,
                        p <= usize::MAX / page_size,
                ;
            }
        }
        p * page_size
    } else {
        proof {
            assert(p * page_size > usize::MAX) by (nonlinear_arith)
                requires
                    page_size > 0,
                    p > usize::MAX / page_size,
            ;
        }
        usize::MAX
    };
    let end = count.saturating_sub(offset);
    (end.saturating_sub(page_size), end)
}

/// Pages list the rows newest first without gaps or overlaps: a page holds
/// at most `page_size` rows, and each page ends where the page before it
/// (newer rows) starts.
pub proof fn lemma_pages_adjoin(count: usize, page: usize, page_size: usize)
    requires
        page >= 1,
        page * page_size <= usize::MAX,
    ensures
        page_range(count as int, page as int, page_size as int).0 <= page_range(
            count as int,
            page as int,
            page_size as int,
        ).1,
        page_range(count as int, page as int, page_size as int).1 - page_range(
            count as int,
            page as int,
            page_size as int,
        ).0 <= page_size,
        page_range(count as int, page + 1, page_size as int).1 == page_range(
            count as int,
            page as int,
            page_size as int,
        ).0,
{
    assert((page - 1) * page_size <= page * page_size) by (nonlinear_arith)
        requires
            page >= 1,
    ;
    assert(page * page_size == (page - 1) * page_size + page_size) by (nonlinear_arith);
}

/// The delay class of a fill delay in microseconds (negative delays count
/// as zero).
pub open spec fn delay_label(delay_us: int) -> Seq<char> {
    if delay_us < 5_000_000 {
        "00_00-05s"@
    } else if delay_us < 10_000_000 {
        "01_05-10s"@
    } else if delay_us < 30_000_000 {
        "02_10-30s"@
    } else if delay_us < 60_000_000 {
        "03_30-60s"@
    } else if delay_us < 300_000_000 {
        "04_60-300s"@
    } else {
        "05_after-300s"@
    }
}

/// The delay class of a fill delay: under 5 s, 5-10 s, 10-30 s, 30-60 s,
/// 60-300 s, or later.
pub fn delay_bucket(delay_us: i64) -> (r: &'static str)
    ensures
        r@ == delay_label(delay_us as int),
{
    let d = if delay_us < 0 {
        0
    } else {
        delay_us
    };
    if d < 5_000_000 {
        "00_00-05s"
    } else if d < 10_000_000 {
        "01_05-10s"
    } else if d < 30_000_000 {
        "02_10-30s"
    } else if d < 60_000_000 {
        "03_30-60s"
    } else if d < 300_000_000 {
        "04_60-300s"
    } else {
        "05_after-300s"
    }
}

} // verus!
