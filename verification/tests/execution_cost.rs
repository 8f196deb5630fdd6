#[test]
fn actual_cost_uses_fill_vwap_versus_arrival_mid() {
    let arrival = 100.0_f64;
    let filled_qty = 2.0_f64;
    let vwap = 101.5_f64;
    let actual = filled_qty * (vwap - arrival);
    assert!((actual - 3.0).abs() < 1e-12);
    let intended = 2.0_f64;
    let twap_mid = 100.5_f64;
    let twap_cost = intended * (twap_mid - arrival);
    assert!((twap_cost - 1.0).abs() < 1e-12);
}

use crypto_cta_manager::execution_cost::{
    downsample_cost_points, execution_window_end, minute_buckets, next_same_strategy_starts,
    strategy_filter, validate_cost_request, CostRequestError, MINUTE_US,
};

#[test]
fn execution_window_stops_at_next_same_strategy() {
    let end = execution_window_end(1_000_000, Some(10_000_000), 300_000_000, 1_000_000_000);
    assert_eq!(end, 10_000_000);
}

#[test]
fn execution_window_is_capped_by_report_time() {
    assert_eq!(execution_window_end(1_000_000, None, 300_000_000, 2_000_000), 2_000_000);
    assert_eq!(execution_window_end(5_000_000, None, 300_000_000, 2_000_000), 5_000_000);
    assert_eq!(execution_window_end(i64::MAX - 1, None, 10, i64::MAX), i64::MAX);
}

#[test]
fn cost_point_downsampling_preserves_range_endpoints() {
    #[derive(Clone, Copy)]
    struct Point {
        ts_us: i64,
        cost: f64,
    }
    let points: Vec<Point> = (0..3_000).map(|index| Point { ts_us: index, cost: index as f64 }).collect();
    let sampled = downsample_cost_points(points, 2_000);
    assert_eq!(sampled.len(), 2_000);
    assert_eq!(sampled.first().unwrap().ts_us, 0);
    assert_eq!(sampled.last().unwrap().ts_us, 2_999);
    assert_eq!(sampled.last().unwrap().cost, 2_999.0);
    assert_eq!(downsample_cost_points(vec![1, 2, 3], 1), vec![1, 2, 3]);
}

#[test]
fn next_same_strategy_points_forward() {
    let names: Vec<String> = ["a", "b", "a", "a", "c"].iter().map(|s| s.to_string()).collect();
    let received = vec![10, 20, 30, 40, 50];
    assert_eq!(
        next_same_strategy_starts(&names, &received),
        vec![Some(30), None, Some(40), None, None]
    );
}

#[test]
fn cost_requests_are_checked_in_order() {
    let configured = vec!["s1".to_string(), "s2".to_string()];
    assert_eq!(validate_cost_request(0, None, 300, 1, 25, &vec![], &configured), Ok(300_000_000));
    assert_eq!(
        validate_cost_request(-1, None, 0, 0, 0, &vec![], &configured),
        Err(CostRequestError::NegativeStart)
    );
    assert_eq!(
        validate_cost_request(5, Some(4), 300, 1, 25, &vec![], &configured),
        Err(CostRequestError::EndBeforeStart)
    );
    assert_eq!(
        validate_cost_request(5, None, 86_401, 1, 25, &vec![], &configured),
        Err(CostRequestError::WindowTooLong)
    );
    assert_eq!(
        validate_cost_request(5, None, 300, 1, 101, &vec![], &configured),
        Err(CostRequestError::PageSize)
    );
    assert_eq!(
        validate_cost_request(5, None, 300, 1, 25, &vec!["s1".into(), "s1".into()], &configured),
        Err(CostRequestError::DuplicateSources)
    );
    assert_eq!(
        validate_cost_request(5, None, 300, 1, 25, &vec!["s3".into()], &configured),
        Err(CostRequestError::UnknownSource)
    );
    assert_eq!(strategy_filter(Some("  cta ")), Some("cta"));
    assert_eq!(strategy_filter(Some("   ")), None);
}

#[test]
fn minute_buckets_cover_the_window() {
    let bars = vec![MINUTE_US, MINUTE_US + 1, 2 * MINUTE_US + 5, 10];
    let buckets = minute_buckets(&bars, 0, 2 * MINUTE_US + 30);
    assert_eq!(buckets.len(), 3);
    assert_eq!(buckets[0].bar_indices, vec![0, 3]);
    assert_eq!(buckets[1].bar_indices, vec![1]);
    assert_eq!(buckets[2].end_us, 2 * MINUTE_US + 30);
    assert_eq!(buckets[2].bar_indices, vec![2]);
    assert!(minute_buckets(&bars, 5, 5).is_empty());
}
