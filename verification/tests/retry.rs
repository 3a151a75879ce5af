use map_rs::provider::ProviderReply;
use map_rs::retry::RetryPolicy;

fn policy() -> RetryPolicy {
    RetryPolicy { max_attempts: 4, base_delay: 500, timeout: 10_000 }
}

fn unreachable() -> ProviderReply<u8> {
    ProviderReply::Unreachable
}

#[test]
fn waits_double_after_each_transport_failure() {
    assert_eq!(policy().next_delay(1, &unreachable()), Some(500));
    assert_eq!(policy().next_delay(2, &unreachable()), Some(1_000));
    assert_eq!(policy().next_delay(3, &unreachable()), Some(2_000));
}

#[test]
fn attempts_are_bounded() {
    assert_eq!(policy().next_delay(4, &unreachable()), None);
    assert_eq!(policy().next_delay(5, &unreachable()), None);
    assert_eq!(policy().next_delay(u32::MAX, &unreachable()), None);
    let never = RetryPolicy { max_attempts: 0, base_delay: 500, timeout: 10_000 };
    assert_eq!(never.next_delay(0, &unreachable()), None);
    let once = RetryPolicy { max_attempts: 1, base_delay: 500, timeout: 10_000 };
    assert_eq!(once.next_delay(1, &unreachable()), None);
}

#[test]
fn an_answer_is_never_retried() {
    for status in [200, 301, 400, 404, 429, 500, 503] {
        let unread: ProviderReply<u8> = ProviderReply::Answered { status, body: None };
        assert_eq!(policy().next_delay(1, &unread), None);
        let read = ProviderReply::Answered { status, body: Some(1u8) };
        assert_eq!(policy().next_delay(1, &read), None);
    }
}

#[test]
fn waits_stop_growing_at_the_longest_wait() {
    let patient = RetryPolicy { max_attempts: 100, base_delay: 1 << 62, timeout: 1 };
    assert_eq!(patient.next_delay(1, &unreachable()), Some(1 << 62));
    assert_eq!(patient.next_delay(2, &unreachable()), Some(1 << 63));
    assert_eq!(patient.next_delay(3, &unreachable()), Some(u64::MAX));
    assert_eq!(patient.next_delay(99, &unreachable()), Some(u64::MAX));
    let odd = RetryPolicy { max_attempts: 100, base_delay: 3, timeout: 1 };
    assert_eq!(odd.next_delay(63, &unreachable()), Some(3 << 62));
    assert_eq!(odd.next_delay(64, &unreachable()), Some(u64::MAX));
}

#[test]
fn a_zero_base_delay_stays_zero() {
    let eager = RetryPolicy { max_attempts: 10, base_delay: 0, timeout: 1 };
    assert_eq!(eager.next_delay(1, &unreachable()), Some(0));
    assert_eq!(eager.next_delay(9, &unreachable()), Some(0));
}

#[test]
fn before_any_attempt_the_wait_is_the_base_delay() {
    assert_eq!(policy().next_delay(0, &unreachable()), Some(500));
}
