use did_reputation::anchoring::{NextStep, RetryPolicy};
use did_reputation::did::SubmitError;

#[test]
fn delays_double() {
    let policy = RetryPolicy { max_retries: 5, base_delay_ms: 100 };
    assert_eq!(policy.delay_before(0), 100);
    assert_eq!(policy.delay_before(1), 200);
    assert_eq!(policy.delay_before(2), 400);
    assert_eq!(policy.delay_before(3), 800);
    assert_eq!(policy.delay_before(10), 102_400);
}

#[test]
fn delays_stop_at_the_largest_value() {
    let policy = RetryPolicy { max_retries: 100, base_delay_ms: 1 };
    assert_eq!(policy.delay_before(62), 1u64 << 62);
    assert_eq!(policy.delay_before(63), 1u64 << 63);
    assert_eq!(policy.delay_before(64), u64::MAX);
    assert_eq!(policy.delay_before(65), u64::MAX);
    assert_eq!(policy.delay_before(u32::MAX), u64::MAX);
    let policy = RetryPolicy { max_retries: 100, base_delay_ms: 3 };
    assert_eq!(policy.delay_before(62), 3u64 << 62);
    assert_eq!(policy.delay_before(63), u64::MAX);
    let policy = RetryPolicy { max_retries: 100, base_delay_ms: u64::MAX };
    assert_eq!(policy.delay_before(0), u64::MAX);
    assert_eq!(policy.delay_before(1), u64::MAX);
}

#[test]
fn zero_delay_stays_zero() {
    let policy = RetryPolicy { max_retries: 3, base_delay_ms: 0 };
    assert_eq!(policy.delay_before(0), 0);
    assert_eq!(policy.delay_before(7), 0);
    assert_eq!(policy.delay_before(u32::MAX), 0);
}

#[test]
fn transient_failures_are_retried_a_bounded_number_of_times() {
    let policy = RetryPolicy { max_retries: 3, base_delay_ms: 50 };
    assert_eq!(policy.next_step(1, SubmitError::Transient), NextStep::RetryAfter(50));
    assert_eq!(policy.next_step(2, SubmitError::Transient), NextStep::RetryAfter(100));
    assert_eq!(policy.next_step(3, SubmitError::Transient), NextStep::RetryAfter(200));
    assert_eq!(policy.next_step(4, SubmitError::Transient), NextStep::GiveUp);
    assert_eq!(policy.next_step(5, SubmitError::Transient), NextStep::GiveUp);
    assert_eq!(policy.next_step(u32::MAX, SubmitError::Transient), NextStep::GiveUp);
    assert_eq!(policy.next_step(0, SubmitError::Transient), NextStep::GiveUp);
}

#[test]
fn permanent_failures_are_never_retried() {
    let policy = RetryPolicy { max_retries: 3, base_delay_ms: 50 };
    for failures in [0u32, 1, 2, 3, 4, 100] {
        assert_eq!(policy.next_step(failures, SubmitError::Permanent), NextStep::GiveUp);
    }
}

#[test]
fn no_retries_means_giving_up_at_once() {
    let policy = RetryPolicy { max_retries: 0, base_delay_ms: 50 };
    assert_eq!(policy.next_step(1, SubmitError::Transient), NextStep::GiveUp);
}
