use matrix_user_swap::rate_limit::{
    LimitState, Limits, Moment, RetryAfter, Verdict, DEFAULT_REQUEST_PERIOD, DEFAULT_RETRY_AFTER,
};

const NOW: Moment = Moment { secs: 1_000_000, nanos: 500 };

#[test]
fn the_first_request_does_not_wait() {
    assert_eq!(LimitState::new().wait(77), 0);
}

#[test]
fn requests_are_spaced() {
    let mut state = LimitState::new();
    assert!(!state.record(1_000, NOW, Verdict::Accepted));
    assert_eq!(state.next_request, Some(200_001_000));
    assert_eq!(state.wait(1_000), 200_000_000);
    assert_eq!(state.wait(200_000_999), 1);
    assert_eq!(state.wait(200_001_000), 0);
    assert_eq!(state.wait(300_000_000), 0);
    assert_eq!(DEFAULT_REQUEST_PERIOD, 200_000_000);
}

#[test]
fn limited_requests_are_made_again() {
    let mut state = LimitState::new();
    assert!(state.record(10, NOW, Verdict::Limited(None)));
    assert_eq!(state.next_request, Some(5_000_000_010));
    assert_eq!(DEFAULT_RETRY_AFTER, 5_000_000_000);
    let delay = RetryAfter::Delay { secs: 2, nanos: 7 };
    assert!(state.record(10, NOW, Verdict::Limited(Some(delay))));
    assert_eq!(state.next_request, Some(2_000_000_017));
}

#[test]
fn moments_are_in_the_future_or_in_the_past() {
    let mut state = LimitState::new();
    let later = RetryAfter::DateTime(Moment { secs: 1_000_003, nanos: 0 });
    assert!(state.record(1_000, NOW, Verdict::Limited(Some(later))));
    assert_eq!(state.next_request, Some(3_000_000_500));
    assert_eq!(state.wait(1_000), 2_999_999_500);
    let earlier = RetryAfter::DateTime(Moment { secs: 999_999, nanos: 500 });
    assert!(state.record(1_000, NOW, Verdict::Limited(Some(earlier))));
    assert_eq!(state.next_request, Some(1_000 - 1_000_000_000));
    assert_eq!(state.wait(1_000), 0);
    // Even the largest values are no problem.
    let extreme = RetryAfter::DateTime(Moment { secs: i64::MAX, nanos: u32::MAX });
    let past = Moment { secs: i64::MIN, nanos: 0 };
    assert!(state.record(u64::MAX, past, Verdict::Limited(Some(extreme))));
    assert!(state.wait(0) > 0);
}

#[test]
fn calls_to_an_endpoint_do_not_overlap() {
    let mut limits = Limits::new();
    let endpoint = limits.add_endpoint();
    assert_eq!(limits.begin(endpoint, 1_000), Some(0));
    assert_eq!(limits.begin(endpoint, 1_001), None);
    // A call that has to try again goes on using the endpoint.
    let delay = RetryAfter::Delay { secs: 2, nanos: 0 };
    assert_eq!(
        limits.reply(endpoint, 2_000, NOW, Verdict::Limited(Some(delay))),
        Some(2_000_000_000)
    );
    assert_eq!(limits.begin(endpoint, 9_000_000_000), None);
    assert_eq!(limits.reply(endpoint, 3_000, NOW, Verdict::Accepted), None);
    // The next one waits for what is left of the period.
    assert_eq!(limits.begin(endpoint, 100_003_000), Some(100_000_000));
}

#[test]
fn endpoints_do_not_delay_each_other() {
    let mut limits = Limits::new();
    let first = limits.add_endpoint();
    let second = limits.add_endpoint();
    assert_ne!(first, second);
    assert_eq!(limits.begin(first, 0), Some(0));
    assert_eq!(limits.begin(second, 0), Some(0));
    assert_eq!(limits.reply(first, 10, NOW, Verdict::Limited(None)), Some(5_000_000_000));
    assert_eq!(limits.reply(second, 10, NOW, Verdict::Accepted), None);
    let third = limits.add_endpoint();
    assert_eq!(limits.begin(third, 10), Some(0));
    assert_eq!(limits.begin(second, 200_000_010), Some(0));
    assert_eq!(limits.begin(first, 200_000_010), None);
}

#[test]
fn a_call_that_is_given_up_frees_its_endpoint() {
    let mut limits = Limits::new();
    let endpoint = limits.add_endpoint();
    assert_eq!(limits.begin(endpoint, 0), Some(0));
    assert_eq!(
        limits.reply(endpoint, 10, NOW, Verdict::Limited(None)),
        Some(5_000_000_000)
    );
    assert_eq!(limits.begin(endpoint, 20), None);
    limits.abandon(endpoint);
    // The limit still holds.
    assert_eq!(limits.begin(endpoint, 20), Some(4_999_999_990));
}
