use claude_tmux::clock::{civil_to_unix, Timestamp};

#[test]
fn civil_to_unix_epoch() {
    assert_eq!(civil_to_unix(1970, 1, 1, 0, 0, 0), Some(0));
    assert_eq!(civil_to_unix(1970, 1, 2, 0, 0, 0), Some(86400));
    // 2024 is a leap year; 2024-03-01 should include the leap day
    let leap = civil_to_unix(2024, 3, 1, 0, 0, 0).unwrap();
    let non_leap = civil_to_unix(2023, 3, 1, 0, 0, 0).unwrap();
    assert_eq!(leap - non_leap, 366 * 86400);
}

#[test]
fn civil_datetimes_have_their_exact_seconds() {
    assert_eq!(civil_to_unix(1971, 1, 1, 0, 0, 0), Some(31_536_000));
    assert_eq!(civil_to_unix(1972, 12, 31, 23, 59, 59), Some(94_694_399));
    assert_eq!(civil_to_unix(2000, 2, 29, 12, 0, 0), Some(951_825_600));
    assert_eq!(civil_to_unix(2023, 3, 1, 0, 0, 0), Some(1_677_628_800));
    assert_eq!(civil_to_unix(2024, 3, 1, 0, 0, 0), Some(1_709_251_200));
    assert_eq!(civil_to_unix(2026, 6, 21, 3, 27, 38), Some(1_782_012_458));
    assert_eq!(civil_to_unix(2027, 1, 1, 0, 0, 0), Some(1_798_761_600));
    assert_eq!(civil_to_unix(2099, 12, 31, 23, 59, 59), Some(4_102_444_799));
}

#[test]
fn no_date_before_the_epoch_or_past_december() {
    assert_eq!(civil_to_unix(1969, 12, 31, 23, 59, 59), None);
    assert_eq!(civil_to_unix(2026, 13, 1, 0, 0, 0), None);
}

#[test]
fn parts_past_their_end_run_on() {
    assert_eq!(civil_to_unix(2026, 0, 1, 0, 0, 0), civil_to_unix(2026, 1, 1, 0, 0, 0));
    assert_eq!(civil_to_unix(2026, 2, 29, 0, 0, 0), civil_to_unix(2026, 3, 1, 0, 0, 0));
    assert_eq!(civil_to_unix(2026, 1, 1, 24, 0, 0), civil_to_unix(2026, 1, 2, 0, 0, 0));
}

#[test]
fn days_follow_each_other() {
    let months = [31u64, 28, 31, 30, 31, 30, 31, 31, 30, 31, 30, 31];
    let mut expected: u64 = 0;
    for year in 1970u64..=2099 {
        let leap = year % 4 == 0 && (year % 100 != 0 || year % 400 == 0);
        for month in 1u64..=12 {
            let extra = if leap && month == 2 { 1 } else { 0 };
            for day in 1..=months[(month - 1) as usize] + extra {
                assert_eq!(civil_to_unix(year, month, day, 0, 0, 0), Some(expected));
                expected += 86400;
            }
        }
    }
}

#[test]
fn adding_carries_nanoseconds() {
    let t = Timestamp { secs: 5, nanos: 999_999_999 };
    assert_eq!(t.checked_add(2, 1), Some(Timestamp { secs: 8, nanos: 0 }));
    assert_eq!(t.checked_add(2, 0), Some(Timestamp { secs: 7, nanos: 999_999_999 }));
    let early = Timestamp { secs: -3, nanos: 500_000_000 };
    assert_eq!(early.checked_add(1, 500_000_000), Some(Timestamp { secs: -1, nanos: 0 }));
}

#[test]
fn adding_stops_at_the_end_of_time() {
    let last = Timestamp { secs: i64::MAX, nanos: 0 };
    assert_eq!(last.checked_add(0, 1), Some(Timestamp { secs: i64::MAX, nanos: 1 }));
    assert_eq!(last.checked_add(1, 0), None);
    assert_eq!(Timestamp { secs: i64::MAX, nanos: 999_999_999 }.checked_add(0, 1), None);
    assert_eq!(Timestamp::from_unix(u64::MAX), None);
    assert_eq!(Timestamp::from_unix(7), Some(Timestamp { secs: 7, nanos: 0 }));
}

#[test]
fn moments_before_the_epoch() {
    assert_eq!(Timestamp::before_epoch(2, 0), Some(Timestamp { secs: -2, nanos: 0 }));
    assert_eq!(
        Timestamp::before_epoch(2, 250_000_000),
        Some(Timestamp { secs: -3, nanos: 750_000_000 })
    );
    assert_eq!(Timestamp::before_epoch(u64::MAX, 0), None);
    assert_eq!(
        Timestamp::before_epoch(1 << 63, 0),
        Some(Timestamp { secs: i64::MIN, nanos: 0 })
    );
    assert_eq!(Timestamp::before_epoch(1 << 63, 1), None);
}

#[test]
fn moments_compare_by_seconds_and_then_nanoseconds() {
    let a = Timestamp { secs: 1, nanos: 5 };
    let b = Timestamp { secs: 1, nanos: 6 };
    let c = Timestamp { secs: 2, nanos: 0 };
    assert!(b.is_at_or_after(a));
    assert!(c.is_at_or_after(b));
    assert!(a.is_at_or_after(a));
    assert!(!a.is_at_or_after(b));
    assert!(!b.is_at_or_after(c));
}
