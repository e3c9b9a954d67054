use std::time::{Duration, SystemTime};
use twitterapi_cli::output::format_cached_at;
use twitterapi_cli::text::{decimal_string, format_number};
use twitterapi_cli::timestamp::format_epoch_seconds;

#[test]
fn format_number_small_values_have_no_separator() {
    assert_eq!(format_number(0), "0");
    assert_eq!(format_number(7), "7");
    assert_eq!(format_number(999), "999");
}

#[test]
fn format_number_groups_thousands() {
    assert_eq!(format_number(1000), "1,000");
    assert_eq!(format_number(12345), "12,345");
    assert_eq!(format_number(891), "891");
    assert_eq!(format_number(1234567), "1,234,567");
    assert_eq!(format_number(215432100), "215,432,100");
    assert_eq!(format_number(100000), "100,000");
}

#[test]
fn format_number_largest_value() {
    assert_eq!(format_number(u64::MAX), "18,446,744,073,709,551,615");
}

#[test]
fn grouping_keeps_digits_example() {
    let n = 98765432101u64;
    assert_eq!(format_number(n).replace(',', ""), n.to_string());
}

#[test]
fn decimal_string_matches_to_string() {
    for n in [0u64, 9, 10, 99, 100, 4096, 1234567890, u64::MAX] {
        assert_eq!(decimal_string(n), n.to_string());
    }
}

#[test]
fn epoch_start() {
    assert_eq!(format_epoch_seconds(0), "1970-01-01 00:00 UTC");
}

#[test]
fn epoch_last_minute_of_first_day() {
    assert_eq!(format_epoch_seconds(86399), "1970-01-01 23:59 UTC");
}

#[test]
fn epoch_known_dates() {
    assert_eq!(format_epoch_seconds(1_700_000_000), "2023-11-14 22:13 UTC");
    assert_eq!(format_epoch_seconds(1_234_567_890), "2009-02-13 23:31 UTC");
}

#[test]
fn epoch_leap_day() {
    assert_eq!(format_epoch_seconds(951_782_400), "2000-02-29 00:00 UTC");
}

#[test]
fn epoch_end_of_year_9999_and_beyond() {
    assert_eq!(format_epoch_seconds(253_402_300_799), "9999-12-31 23:59 UTC");
    assert_eq!(format_epoch_seconds(253_402_300_800), "10000-01-01 00:00 UTC");
}

#[test]
fn epoch_seconds_beyond_i64_read_as_negative() {
    // u64::MAX is -1 as an i64: still the first day of 1970.
    assert_eq!(format_epoch_seconds(u64::MAX), "1970-01-01 00:00 UTC");
    // -(3 days, 5 hours, 7 minutes) as an i64.
    let back: u64 = 3 * 86400 + 5 * 3600 + 7 * 60;
    let secs = u64::MAX - back + 1;
    assert_eq!(format_epoch_seconds(secs), "1970-01--2 -5:-7 UTC");
    // -(1 day) as an i64.
    assert_eq!(format_epoch_seconds(u64::MAX - 86400 + 1), "1970-01-00 00:00 UTC");
}

#[test]
fn cached_at_of_system_times() {
    assert_eq!(format_cached_at(SystemTime::UNIX_EPOCH), "1970-01-01 00:00 UTC");
    let t = SystemTime::UNIX_EPOCH + Duration::from_secs(1_700_000_000);
    assert_eq!(format_cached_at(t), "2023-11-14 22:13 UTC");
}

#[test]
fn cached_at_before_epoch_counts_as_epoch() {
    let t = SystemTime::UNIX_EPOCH - Duration::from_secs(3600);
    assert_eq!(format_cached_at(t), "1970-01-01 00:00 UTC");
}

#[test]
fn format_number_group_shape() {
    for n in [0u64, 5, 42, 999, 1000, 99999, 100000, 1234567, 1_000_000_000, u64::MAX] {
        let g = format_number(n);
        let d = n.to_string().len();
        assert_eq!(g.len(), d + (d - 1) / 3);
        let groups: Vec<&str> = g.split(',').collect();
        assert!((1..=3).contains(&groups[0].len()));
        assert!(groups[1..].iter().all(|x| x.len() == 3));
    }
}

#[test]
fn epoch_text_same_minute_same_text() {
    let base = 1_700_000_040u64;
    assert_eq!(base % 60, 0);
    assert_eq!(format_epoch_seconds(base), format_epoch_seconds(base + 59));
    assert_ne!(format_epoch_seconds(base), format_epoch_seconds(base + 60));
}

#[test]
fn epoch_text_follows_time_order() {
    let times = [0u64, 59, 60, 3599, 3600, 86399, 86400, 951_782_399, 951_782_400, 1_700_000_000, 253_402_300_799];
    for w in times.windows(2) {
        assert!(format_epoch_seconds(w[0]) <= format_epoch_seconds(w[1]));
    }
}
