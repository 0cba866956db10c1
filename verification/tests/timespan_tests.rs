use rperf::pacer::{expected_packet_count, interval_elapsed, message_interval};
use rperf::timespan::{TimeSpan, MAX_NANOS};

#[test]
fn spans_are_built_from_seconds_and_nanoseconds() {
    let t = TimeSpan::new(3, 500).unwrap();
    assert_eq!(t.as_nanos(), 3_000_000_500);
    assert_eq!(t.as_secs(), 3);
    assert_eq!(t.subsec_nanos(), 500);
    let carried = TimeSpan::new(1, 1_500_000_000).unwrap();
    assert_eq!((carried.as_secs(), carried.subsec_nanos()), (2, 500_000_000));
    assert_eq!(TimeSpan::from_secs(2).as_nanos(), 2_000_000_000);
    assert_eq!(TimeSpan::from_millis(1000), TimeSpan::from_secs(1));
    assert_eq!(TimeSpan::zero().as_nanos(), 0);
}

#[test]
fn spans_end_at_the_longest() {
    assert_eq!(TimeSpan::from_nanos(MAX_NANOS).unwrap().as_secs(), u64::MAX);
    assert_eq!(TimeSpan::from_nanos(MAX_NANOS).unwrap().subsec_nanos(), 999_999_999);
    assert_eq!(TimeSpan::from_nanos(MAX_NANOS + 1), None);
    assert!(TimeSpan::new(u64::MAX, 999_999_999).is_some());
    assert_eq!(TimeSpan::new(u64::MAX, 1_000_000_000), None);
    assert_eq!(TimeSpan::from_secs(u64::MAX).as_secs(), u64::MAX);
}

#[test]
fn spans_subtract_and_add_with_a_check() {
    let a = TimeSpan::from_millis(1500);
    let b = TimeSpan::from_secs(1);
    assert_eq!(a.checked_sub(&b), Some(TimeSpan::from_millis(500)));
    assert_eq!(b.checked_sub(&a), None);
    assert_eq!(a.checked_sub(&a), Some(TimeSpan::zero()));
    assert_eq!(a.checked_add(&b), Some(TimeSpan::from_millis(2500)));
    let longest = TimeSpan::from_nanos(MAX_NANOS).unwrap();
    assert_eq!(longest.checked_add(&TimeSpan::zero()), Some(longest));
    assert_eq!(longest.checked_add(&TimeSpan::from_nanos(1).unwrap()), None);
    assert!(b.is_less_than(&a));
    assert!(!a.is_less_than(&b));
    assert!(!a.is_less_than(&a));
}

#[test]
fn packet_count_is_duration_times_rate_rounded_down() {
    assert_eq!(expected_packet_count(&TimeSpan::from_secs(1), 1000), Some(1000));
    assert_eq!(expected_packet_count(&TimeSpan::from_secs(10), 3), Some(30));
    assert_eq!(expected_packet_count(&TimeSpan::from_millis(1500), 3), Some(4));
    assert_eq!(expected_packet_count(&TimeSpan::from_millis(999), 1), Some(0));
    assert_eq!(expected_packet_count(&TimeSpan::from_secs(5), 0), Some(0));
    assert_eq!(expected_packet_count(&TimeSpan::zero(), 1000), Some(0));
    assert_eq!(expected_packet_count(&TimeSpan::from_secs(u64::MAX), 1), Some(u64::MAX));
    assert_eq!(expected_packet_count(&TimeSpan::from_secs(u64::MAX), 2), None);
    assert_eq!(
        expected_packet_count(&TimeSpan::from_nanos(MAX_NANOS).unwrap(), u32::MAX),
        None
    );
}

#[test]
fn next_packet_is_due_after_one_interval() {
    assert!(!interval_elapsed(&TimeSpan::from_nanos(999_999).unwrap(), 1000));
    assert!(interval_elapsed(&TimeSpan::from_nanos(1_000_000).unwrap(), 1000));
    assert!(!interval_elapsed(&TimeSpan::from_nanos(333_333_333).unwrap(), 3));
    assert!(interval_elapsed(&TimeSpan::from_nanos(333_333_334).unwrap(), 3));
    assert!(!interval_elapsed(&TimeSpan::from_nanos(MAX_NANOS).unwrap(), 0));
    assert!(interval_elapsed(&TimeSpan::from_secs(1), 1));
    assert!(interval_elapsed(&TimeSpan::from_nanos(1).unwrap(), u32::MAX));
    assert!(!interval_elapsed(&TimeSpan::zero(), u32::MAX));
}

#[test]
fn interval_is_one_second_over_the_rate_rounded_up() {
    assert_eq!(message_interval(1000), TimeSpan::from_nanos(1_000_000));
    assert_eq!(message_interval(3), TimeSpan::from_nanos(333_333_334));
    assert_eq!(message_interval(1), Some(TimeSpan::from_secs(1)));
    assert_eq!(message_interval(u32::MAX), TimeSpan::from_nanos(1));
    assert_eq!(message_interval(0), None);
    for rate in [1u32, 2, 3, 7, 1000, 48_000, 1_000_000_007] {
        let interval = message_interval(rate).unwrap();
        assert!(interval_elapsed(&interval, rate));
        let short = interval.checked_sub(&TimeSpan::from_nanos(1).unwrap()).unwrap();
        assert!(!interval_elapsed(&short, rate));
    }
}
