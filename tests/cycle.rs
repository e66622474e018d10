use polymarket_scraper::fetch::{
    accepts_response, after_failed_attempt, data_url, rate_limit_wait_nanos, RetryDecision, MAX_RETRIES,
};

#[test]
fn endpoint_url() {
    assert_eq!(data_url("abc"), "https://polymarket.com/_next/data/abc/index.json");
}

#[test]
fn response_acceptance() {
    assert!(accepts_response(200, Some("application/json; charset=utf-8")));
    assert!(accepts_response(204, Some("application/json")));
    assert!(!accepts_response(200, Some("text/html")));
    assert!(!accepts_response(200, None));
    assert!(!accepts_response(404, Some("application/json")));
    assert!(!accepts_response(199, Some("application/json")));
    assert!(!accepts_response(300, Some("application/json")));
}

#[test]
fn always_failing_fetch_exhausts_retries() {
    let mut attempts: u32 = 0;
    let mut delays = Vec::new();
    loop {
        attempts += 1;
        match after_failed_attempt(attempts - 1) {
            RetryDecision::Retry { delay_secs } => delays.push(delay_secs),
            RetryDecision::GiveUp => break,
        }
    }
    assert_eq!(attempts, MAX_RETRIES);
    assert_eq!(delays, vec![1, 2]);
    assert_eq!(after_failed_attempt(7), RetryDecision::GiveUp);
}

#[test]
fn rate_limit_waits_the_remainder() {
    assert_eq!(rate_limit_wait_nanos(0), 1_000_000_000);
    assert_eq!(rate_limit_wait_nanos(250_000_000), 750_000_000);
    assert_eq!(rate_limit_wait_nanos(1_000_000_000), 0);
    assert_eq!(rate_limit_wait_nanos(u128::MAX), 0);
}
