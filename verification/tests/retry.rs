//! Retries, their delays and their limits.
use pocker::error::DockerPullError;
use pocker::http::{
    connect_timeout_from_seconds, default_connect_timeout, parse_connect_timeout_seconds,
};
use pocker::retry::{
    backoff_delay, countdown_sleep, countdown_tick, format_retry_delay, jittered_backoff_delay,
    record_retry_attempt, retry_budget, retry_limit, retry_limit_exhausted, Countdown, Delay,
    MAX_RETRY_DELAY_MS, MIN_RETRY_DELAY_MS, RETRY_JITTER_MS,
};

fn millis(delay: Delay) -> u64 {
    delay.seconds * 1_000 + u64::from(delay.nanos / 1_000_000)
}

#[test]
fn jittered_backoff_stays_within_bounds() {
    for attempt in 0..16 {
        for _ in 0..128 {
            let delay = jittered_backoff_delay(attempt);
            assert!(millis(delay) >= MIN_RETRY_DELAY_MS);
            assert!(millis(delay) <= MAX_RETRY_DELAY_MS);
        }
    }
}

#[test]
fn jittered_backoff_uses_small_additive_jitter() {
    let cases = [
        (0, 1_000, 1_250),
        (1, 1_750, 2_250),
        (2, 3_750, 4_250),
        (5, MAX_RETRY_DELAY_MS - RETRY_JITTER_MS, MAX_RETRY_DELAY_MS),
        (6, MAX_RETRY_DELAY_MS - RETRY_JITTER_MS, MAX_RETRY_DELAY_MS),
    ];

    for (attempt, min, max) in cases {
        for _ in 0..128 {
            let delay = millis(jittered_backoff_delay(attempt));
            assert!(
                (min..=max).contains(&delay),
                "attempt {attempt} delay {delay:?} outside {min:?}..={max:?}"
            );
        }
    }
}

#[test]
fn backoff_follows_the_draw() {
    assert_eq!(millis(backoff_delay(1, 50)), 1_800);
    assert_eq!(millis(backoff_delay(2, 500)), 4_250);
    assert_eq!(millis(backoff_delay(0, 0)), 1_000);
    assert_eq!(millis(backoff_delay(6, 500)), 30_000);
}

#[test]
fn retry_delay_format_uses_whole_seconds() {
    assert_eq!(format_retry_delay(Delay::from_millis(0)), "0s");
    assert_eq!(format_retry_delay(Delay::from_millis(750)), "0s");
    assert_eq!(format_retry_delay(Delay::from_secs(3)), "3s");
    assert_eq!(format_retry_delay(Delay::from_millis(3200)), "3s");
}

#[test]
fn record_retry_attempt_formats_budget_and_enforces_limit() {
    let mut retries = 0;
    let budget = record_retry_attempt(&mut retries, Some(1), "operation", "detail")
        .expect("first retry should be allowed");
    assert_eq!(budget, "1/1");
    assert_eq!(retries, 1);

    let error = record_retry_attempt(&mut retries, Some(1), "operation", "detail")
        .expect_err("second retry should be rejected");
    assert!(matches!(
        error,
        DockerPullError::RetryLimitExceeded {
            operation,
            retries: 1,
            detail,
        } if operation == "operation" && detail == "detail"
    ));
}

#[test]
fn retries_without_a_limit_never_run_out() {
    let mut retries = 41;
    let budget =
        record_retry_attempt(&mut retries, None, "operation", "detail").expect("no limit");
    assert_eq!(retries, 42);
    assert_eq!(budget, retry_budget(42, None));
    assert!(!retry_limit_exhausted(1_000_000, None));
    assert!(retry_limit_exhausted(3, Some(3)));
    assert!(!retry_limit_exhausted(2, Some(3)));
}

#[test]
fn zero_retries_mean_no_limit() {
    assert_eq!(retry_limit(Some(0), false, 8), None);
    assert_eq!(retry_limit(Some(3), false, 8), Some(3));
    assert_eq!(retry_limit(None, false, 8), Some(8));
    assert_eq!(retry_limit(Some(3), true, 8), Some(3));
    assert_eq!(retry_limit(None, true, 8), None);
}

#[test]
fn a_countdown_shows_each_second_once_and_not_its_end() {
    let delay = Delay::from_millis(2_500);
    let mut elapsed = 0;
    let mut shown = Vec::new();
    let mut last = None;
    loop {
        match countdown_sleep(delay, Delay::from_millis(elapsed)) {
            Countdown::Done => break,
            Countdown::Sleep(nap) => {
                assert!(millis(nap) > 0);
                elapsed += millis(nap);
            }
            _ => panic!("a sleep or the end was expected"),
        }
        match countdown_tick(delay, Delay::from_millis(elapsed), last) {
            Countdown::Show(left) => {
                assert_ne!(left, Delay::from_millis(0));
                last = Some(left.seconds);
                shown.push(format_retry_delay(left));
            }
            Countdown::Continue => {}
            Countdown::Done => break,
            Countdown::Sleep(_) => panic!("a tick does not sleep"),
        }
    }
    assert_eq!(elapsed, 2_500);
    assert_eq!(shown, vec!["1s", "0s"]);
    assert_eq!(
        countdown_tick(Delay::from_millis(1), Delay::from_millis(1), None),
        Countdown::Done
    );
}

#[test]
fn delays_compare_and_subtract() {
    let short = Delay::from_millis(999);
    let long = Delay::from_secs(1);
    assert!(short.less(long));
    assert!(!long.less(short));
    assert_eq!(long.saturating_sub(short), Delay::from_millis(1));
    assert_eq!(short.saturating_sub(long), Delay::from_millis(0));
}

#[test]
fn connect_timeouts_are_seconds_or_off() {
    assert_eq!(default_connect_timeout(), Some(20));
    assert_eq!(connect_timeout_from_seconds(5).expect("valid"), Some(5));
    assert_eq!(connect_timeout_from_seconds(-1).expect("valid"), None);
    assert_eq!(connect_timeout_from_seconds(0).expect("valid"), Some(0));
    assert!(connect_timeout_from_seconds(-2).is_err());
    assert_eq!(parse_connect_timeout_seconds("12"), Ok(12));
    assert_eq!(
        parse_connect_timeout_seconds("soon"),
        Err("invalid connect timeout: invalid digit found in string".to_string())
    );
    assert!(parse_connect_timeout_seconds("-2").is_err());
}
