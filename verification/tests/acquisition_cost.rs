use crypto_cta_manager::acquisition_cost::{
    delay_bucket, page_bounds, validate_acquisition_request, AcquisitionRequestError,
};

#[test]
fn acquisition_shortfall_is_side_aware() {
    for (quantity, actual, virtual_price, expected) in
        [(2.0, 101.0, 100.0, 2.0), (-2.0, 99.0, 100.0, 2.0)]
    {
        let shortfall: f64 = quantity * (actual - virtual_price);
        assert_eq!(shortfall, expected);
    }
}

#[test]
fn acquisition_pages_are_latest_first() {
    assert_eq!(page_bounds(55, 1, 25), (30, 55));
    assert_eq!(page_bounds(55, 2, 25), (5, 30));
    assert_eq!(page_bounds(55, 3, 25), (0, 5));
}

#[test]
fn acquisition_delay_buckets_have_stable_boundaries() {
    assert_eq!(delay_bucket(4_999_999), "00_00-05s");
    assert_eq!(delay_bucket(5_000_000), "01_05-10s");
    assert_eq!(delay_bucket(10_000_000), "02_10-30s");
    assert_eq!(delay_bucket(300_000_000), "05_after-300s");
}

#[test]
fn pages_past_the_end_and_page_zero() {
    assert_eq!(page_bounds(55, 4, 25), (0, 0));
    assert_eq!(page_bounds(55, 0, 25), (30, 55));
    assert_eq!(page_bounds(10, usize::MAX, usize::MAX), (0, 0));
    assert_eq!(page_bounds(0, 1, 25), (0, 0));
}

#[test]
fn negative_and_middle_delays() {
    assert_eq!(delay_bucket(-7), "00_00-05s");
    assert_eq!(delay_bucket(29_999_999), "02_10-30s");
    assert_eq!(delay_bucket(30_000_000), "03_30-60s");
    assert_eq!(delay_bucket(60_000_000), "04_60-300s");
}

#[test]
fn acquisition_request_rules() {
    assert_eq!(validate_acquisition_request(0, 10, 1, 100), Ok(()));
    assert_eq!(validate_acquisition_request(-1, 10, 1, 10), Err(AcquisitionRequestError::InvalidRange));
    assert_eq!(validate_acquisition_request(5, 4, 0, 10), Err(AcquisitionRequestError::InvalidRange));
    assert_eq!(validate_acquisition_request(5, 5, 0, 10), Err(AcquisitionRequestError::InvalidPagination));
    assert_eq!(validate_acquisition_request(5, 5, 1, 0), Err(AcquisitionRequestError::InvalidPagination));
    assert_eq!(validate_acquisition_request(5, 5, 1, 101), Err(AcquisitionRequestError::InvalidPagination));
    assert_eq!(AcquisitionRequestError::InvalidRange.message(), "invalid acquisition-cost timestamp range");
    assert_eq!(AcquisitionRequestError::InvalidPagination.message(), "invalid acquisition-cost pagination");
}
