use rs_lockfree::util::{get_cur_microseconds_time, timespec_microseconds};

#[test]
fn microseconds_of_a_timespec() {
    assert_eq!(timespec_microseconds(0, 0), 0);
    assert_eq!(timespec_microseconds(1, 500_000), 1_000_500);
    assert_eq!(timespec_microseconds(1, 999), 1_000_000);
    assert_eq!(timespec_microseconds(1, 999_999_999), 1_999_999);
    assert_eq!(timespec_microseconds(1_700_000_000, 123_456_789), 1_700_000_000_123_456);
}

#[test]
fn microseconds_before_the_epoch() {
    assert_eq!(timespec_microseconds(-2, 800_000_000), -1_200_000);
    assert_eq!(timespec_microseconds(-1, 0), -1_000_000);
}

#[test]
fn microseconds_of_negative_nanoseconds_round_towards_zero() {
    assert_eq!(timespec_microseconds(0, -1_500), -1);
    assert_eq!(timespec_microseconds(0, -999), 0);
    assert_eq!(timespec_microseconds(3, -2_000), 2_999_998);
}

#[test]
fn microseconds_stay_in_range() {
    assert_eq!(timespec_microseconds(i64::MAX, 0), i64::MAX);
    assert_eq!(timespec_microseconds(i64::MIN, 0), i64::MIN);
    assert_eq!(timespec_microseconds(9_223_372_036_854, 775_807_000), i64::MAX);
    assert_eq!(timespec_microseconds(9_223_372_036_854, 775_806_000), i64::MAX - 1);
    assert_eq!(timespec_microseconds(9_223_372_036_855, 0), i64::MAX);
    assert_eq!(timespec_microseconds(-9_223_372_036_855, 224_192_000), i64::MIN);
    assert_eq!(timespec_microseconds(-9_223_372_036_855, 224_193_000), i64::MIN + 1);
}

#[test]
fn wall_clock_is_read() {
    // 2017-07-14 in microseconds since the epoch: any clock that is set shows more.
    let now = get_cur_microseconds_time();
    assert!(now > 1_500_000_000_000_000);
    assert!(now < i64::MAX);
    let later = get_cur_microseconds_time();
    assert!(later > 1_500_000_000_000_000);
}
