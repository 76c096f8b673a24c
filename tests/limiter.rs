use orderflow::limiter::{BybitLimiter, FixedWindowBucket};

#[test]
fn effective_limit_keeps_five_percent_margin() {
    assert_eq!(BybitLimiter::new(600, 5_000, 0).bucket.max_tokens, 570);
    assert_eq!(BybitLimiter::new(1_199, 1_000, 0).bucket.max_tokens, 1_139);
    assert_eq!(BybitLimiter::new(0, 1_000, 0).bucket.max_tokens, 0);
    assert_eq!(BybitLimiter::new(usize::MAX, 1_000, 0).bucket.max_tokens, usize::MAX / 100 * 95 + 14);
}

#[test]
fn spent_budget_waits_until_window_ends() {
    let mut limiter = BybitLimiter::new(600, 5_000, 1_000);
    assert_eq!(limiter.prepare_request(1, 1_000), None);
    limiter.consume(570, 1_200);
    assert_eq!(limiter.prepare_request(1, 2_000), Some(4_000));
    assert_eq!(limiter.prepare_request(1, 5_999), Some(1));
    assert_eq!(limiter.prepare_request(570, 6_000), None);
    assert_eq!(limiter.bucket.available_tokens, 570);
    assert_eq!(limiter.bucket.last_refill_ms, 6_000);
}

#[test]
fn consume_spends_down_to_empty() {
    let mut bucket = FixedWindowBucket::new(10, 100, 0);
    bucket.consume_tokens(4, 10);
    assert_eq!(bucket.available_tokens, 6);
    assert_eq!(bucket.calculate_wait_time(6, 20), None);
    assert_eq!(bucket.calculate_wait_time(7, 20), Some(80));
    bucket.consume_tokens(50, 30);
    assert_eq!(bucket.available_tokens, 0);
}

#[test]
fn forbidden_status_stops_requests() {
    let limiter = BybitLimiter::new(600, 5_000, 0);
    assert!(limiter.should_exit_on_response(403));
    assert!(!limiter.should_exit_on_response(200));
}
