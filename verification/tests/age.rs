use delete_old_files::age::{
    is_old_enough, minutes_between, AgeReading, Timestamp, NANOS_PER_MINUTE, NANOS_PER_SECOND,
};

fn reading(modified: Timestamp, now: Timestamp) -> AgeReading {
    AgeReading { modified: Some(modified), now: Some(now) }
}

#[test]
fn timestamp_counts_nanoseconds_since_the_epoch() {
    let t = Timestamp::new(3, 250);
    assert_eq!(t.secs, 3);
    assert_eq!(t.nanos, 250);
    assert_eq!(t.total_nanos(), 3_000_000_250);
    assert_eq!(Timestamp::new(0, 0).total_nanos(), 0);
    assert_eq!(NANOS_PER_SECOND, 1_000_000_000);
    assert_eq!(NANOS_PER_MINUTE, 60 * NANOS_PER_SECOND);
}

#[test]
fn timestamp_of_the_largest_span_does_not_overflow() {
    let t = Timestamp::new(u64::MAX, u32::MAX);
    assert_eq!(
        t.total_nanos(),
        (u64::MAX as u128) * 1_000_000_000 + (u32::MAX as u128)
    );
}

#[test]
fn minutes_between_counts_whole_minutes() {
    let now = Timestamp::new(10_000, 0);
    assert_eq!(minutes_between(Timestamp::new(10_000 - 5_400, 0), now), Some(90));
    assert_eq!(minutes_between(Timestamp::new(10_000 - 600, 0), now), Some(10));
    assert_eq!(minutes_between(now, now), Some(0));
}

#[test]
fn minutes_between_rounds_down() {
    let modified = Timestamp::new(1_000, 1);
    // One nanosecond short of an hour.
    assert_eq!(minutes_between(modified, Timestamp::new(4_600, 0)), Some(59));
    // An hour to the nanosecond.
    assert_eq!(minutes_between(modified, Timestamp::new(4_600, 1)), Some(60));
    // Just under two minutes.
    assert_eq!(
        minutes_between(Timestamp::new(0, 0), Timestamp::new(119, 999_999_999)),
        Some(1)
    );
}

#[test]
fn minutes_between_has_no_answer_for_a_future_modification() {
    let now = Timestamp::new(5_000, 0);
    assert_eq!(minutes_between(Timestamp::new(5_000, 1), now), None);
    assert_eq!(minutes_between(Timestamp::new(9_000, 0), now), None);
}

#[test]
fn old_enough_at_the_threshold_and_beyond() {
    let now = Timestamp::new(100_000, 0);
    assert!(is_old_enough(reading(Timestamp::new(100_000 - 3_600, 0), now), 60));
    assert!(is_old_enough(reading(Timestamp::new(100_000 - 5_400, 0), now), 60));
    assert!(!is_old_enough(reading(Timestamp::new(100_000 - 3_599, 0), now), 60));
    assert!(!is_old_enough(reading(Timestamp::new(100_000 - 600, 0), now), 60));
}

#[test]
fn old_enough_truncates_instead_of_rounding() {
    let now = Timestamp::new(100_000, 0);
    // 59 minutes and 59.999999999 seconds.
    assert!(!is_old_enough(reading(Timestamp::new(100_000 - 3_600, 1), now), 60));
    assert!(is_old_enough(reading(Timestamp::new(100_000 - 3_600, 1), now), 59));
}

#[test]
fn threshold_of_zero_accepts_any_past_modification() {
    let now = Timestamp::new(100_000, 0);
    assert!(is_old_enough(reading(now, now), 0));
    assert!(is_old_enough(reading(Timestamp::new(99_999, 0), now), 0));
}

#[test]
fn future_modification_is_never_old_enough() {
    let now = Timestamp::new(100_000, 0);
    assert!(!is_old_enough(reading(Timestamp::new(100_000, 1), now), 0));
    assert!(!is_old_enough(reading(Timestamp::new(u64::MAX, 0), now), 0));
    assert!(!is_old_enough(reading(Timestamp::new(200_000, 0), now), 60));
}

#[test]
fn failed_readings_are_never_old_enough() {
    let t = Timestamp::new(100_000, 0);
    assert!(!is_old_enough(AgeReading { modified: None, now: Some(t) }, 0));
    assert!(!is_old_enough(AgeReading { modified: Some(Timestamp::new(0, 0)), now: None }, 0));
    assert!(!is_old_enough(AgeReading { modified: None, now: None }, 0));
}

#[test]
fn largest_threshold_is_compared_exactly() {
    let now = Timestamp::new(u64::MAX, 0);
    let epoch = Timestamp::new(0, 0);
    let minutes = (u64::MAX as u128) / 60;
    assert_eq!(minutes_between(epoch, now), Some(minutes));
    assert!(is_old_enough(reading(epoch, now), u32::MAX));
    let short = Timestamp::new((u32::MAX as u64) * 60 - 1, 0);
    assert!(!is_old_enough(reading(epoch, short), u32::MAX));
    assert!(is_old_enough(reading(epoch, short), u32::MAX - 1));
}
