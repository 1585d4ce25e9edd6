use love_api::reconnect::{RetrySchedule, MAX_RETRY_DELAY_NS, RECOVERED_BYTES, RETRY_DELAY_NS};

const MS: u64 = 1_000_000;

#[test]
fn repeated_spawn_failure_uses_capped_backoff() {
    let mut schedule = RetrySchedule::new(0);
    let mut now = 0;
    for _ in 0..5 {
        now = schedule.retry_at;
        assert!(schedule.should_reconnect(false, now));
        schedule.disconnected(now);
    }
    assert_eq!(schedule.retry_delay, 5_000 * MS);
    assert_eq!(schedule.retry_at, now + 5_000 * MS);
}

#[test]
fn no_retry_during_backoff_or_while_connected() {
    let mut schedule = RetrySchedule::new(1_000 * MS);
    schedule.disconnected(2_000 * MS);
    assert_eq!(schedule.retry_at, 2_500 * MS);
    assert_eq!(schedule.retry_delay, 1_000 * MS);
    assert!(!schedule.should_reconnect(false, 2_499 * MS));
    assert!(schedule.should_reconnect(false, 2_500 * MS));
    assert!(!schedule.should_reconnect(true, 3_000 * MS));
}

#[test]
fn a_second_of_audio_resets_the_backoff() {
    let mut schedule = RetrySchedule::new(0);
    schedule.disconnected(0);
    schedule.disconnected(0);
    assert!(!schedule.wrote(RECOVERED_BYTES - 1));
    assert_eq!(schedule.retry_delay, 2_000 * MS);
    assert!(schedule.wrote(RECOVERED_BYTES));
    assert_eq!(schedule.retry_delay, RETRY_DELAY_NS);
    assert!(!schedule.wrote(RECOVERED_BYTES));
    assert!(MAX_RETRY_DELAY_NS == 10 * RETRY_DELAY_NS);
}
