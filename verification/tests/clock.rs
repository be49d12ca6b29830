use std::time::Duration;

use lib::clock::{
    date_pattern, nanos_until_next_second, next_second_delay, period_pattern, time_pattern,
    ClockSnapshot,
};
use lib::{HourFormat, Options};

fn options(hour_format: HourFormat, show_seconds: bool) -> Options {
    Options { hour_format, show_seconds, color: None, gradient: false }
}

#[test]
fn utc_fallback_formats_seconds() {
    let snapshot = ClockSnapshot::utc_fallback(
        3_661,
        Options { hour_format: HourFormat::H24, show_seconds: true, color: None, gradient: false },
    );
    assert_eq!(snapshot.face_text, "01:01:01");
}

#[test]
fn next_delay_is_one_second_or_less() {
    assert!(Duration::from_nanos(next_second_delay()) <= Duration::from_secs(1));
}

#[test]
fn next_delay_is_never_zero() {
    assert!(Duration::from_nanos(next_second_delay()) > Duration::ZERO);
}

#[test]
fn nanos_until_next_second_counts_the_rest_of_the_second() {
    assert_eq!(nanos_until_next_second(0), 1_000_000_000);
    assert_eq!(nanos_until_next_second(250_000_000), 750_000_000);
    assert_eq!(nanos_until_next_second(999_999_999), 1);
    assert_eq!(nanos_until_next_second(1_000_000_000), 0);
    assert_eq!(nanos_until_next_second(u32::MAX), 0);
}

#[test]
fn utc_fallback_without_seconds_on_a_twelve_hour_clock() {
    // 13:05:09 UTC.
    let snapshot = ClockSnapshot::utc_fallback(13 * 3_600 + 5 * 60 + 9, options(HourFormat::H12, false));
    assert_eq!(snapshot.face_text, "01:05");
    assert_eq!(snapshot.compact_text, "01:05 PM");
    assert_eq!(snapshot.meridiem, Some("PM"));
    assert_eq!(snapshot.date_text, "UTC (local time unavailable)");
}

#[test]
fn utc_fallback_midnight_and_noon_are_twelve() {
    let midnight = ClockSnapshot::utc_fallback(86_400 * 3, options(HourFormat::H12, true));
    assert_eq!(midnight.face_text, "12:00:00");
    assert_eq!(midnight.compact_text, "12:00:00 AM");
    let noon = ClockSnapshot::utc_fallback(12 * 3_600, options(HourFormat::H12, true));
    assert_eq!(noon.compact_text, "12:00:00 PM");
    let noon_24 = ClockSnapshot::utc_fallback(12 * 3_600, options(HourFormat::H24, true));
    assert_eq!(noon_24.compact_text, "12:00:00");
    assert_eq!(noon_24.meridiem, None);
}

#[test]
fn utc_fallback_before_the_epoch_wraps_to_the_previous_day() {
    let snapshot = ClockSnapshot::utc_fallback(-1, options(HourFormat::H24, true));
    assert_eq!(snapshot.face_text, "23:59:59");
    let snapshot = ClockSnapshot::utc_fallback(i64::MIN, options(HourFormat::H24, true));
    assert_eq!(snapshot.face_text.len(), 8);
}

#[test]
fn utc_compact_text_is_plain() {
    for timestamp in [0_i64, 59, 3_599, 43_200, 86_399, 1_725_029_869] {
        for hour_format in [HourFormat::H12, HourFormat::H24] {
            let snapshot = ClockSnapshot::utc_fallback(timestamp, options(hour_format, true));
            assert!(snapshot.compact_text.contains(':'));
            assert!(!snapshot.compact_text.contains('\x1b'));
        }
    }
}

#[test]
fn time_patterns_follow_the_options() {
    assert_eq!(time_pattern(options(HourFormat::H12, true)), "%I:%M:%S");
    assert_eq!(time_pattern(options(HourFormat::H12, false)), "%I:%M");
    assert_eq!(time_pattern(options(HourFormat::H24, true)), "%H:%M:%S");
    assert_eq!(time_pattern(options(HourFormat::H24, false)), "%H:%M");
}

#[test]
fn date_and_period_patterns() {
    assert_eq!(date_pattern(), "%d/%m/%Y");
    assert_eq!(period_pattern(options(HourFormat::H12, true)), Some("%p"));
    assert_eq!(period_pattern(options(HourFormat::H24, true)), None);
}

fn buffer<const N: usize>(text: &[u8]) -> [i8; N] {
    let mut buffer = [0_i8; N];
    for (slot, byte) in buffer.iter_mut().zip(text) {
        *slot = *byte as i8;
    }
    buffer
}

#[test]
fn local_time_uses_what_strftime_wrote() {
    let time = buffer::<32>(b"09:41:07");
    let date = buffer::<64>(b"27/08/2026");
    let period = buffer::<4>(b"PM");
    let snapshot =
        ClockSnapshot::from_local_time(options(HourFormat::H12, true), &time, 8, &date, 10, &period, 2);
    assert_eq!(snapshot.face_text, "09:41:07");
    assert_eq!(snapshot.compact_text, "09:41:07 PM");
    assert_eq!(snapshot.date_text, "27/08/2026");
    assert_eq!(snapshot.meridiem, Some("PM"));
}

#[test]
fn local_time_falls_back_when_nothing_was_written() {
    let time = buffer::<32>(b"");
    let date = buffer::<64>(b"");
    let period = buffer::<4>(b"am");
    let snapshot =
        ClockSnapshot::from_local_time(options(HourFormat::H12, false), &time, 0, &date, 65, &period, 2);
    assert_eq!(snapshot.face_text, "--:--");
    assert_eq!(snapshot.date_text, "Local time");
    assert_eq!(snapshot.meridiem, Some("AM"));
    assert_eq!(snapshot.compact_text, "--:-- AM");
}

#[test]
fn local_time_ignores_the_period_on_a_twenty_four_hour_clock() {
    let time = buffer::<32>(b"21:41");
    let date = buffer::<64>(b"27/08/2026");
    let period = buffer::<4>(b"PM");
    let snapshot =
        ClockSnapshot::from_local_time(options(HourFormat::H24, false), &time, 5, &date, 10, &period, 2);
    assert_eq!(snapshot.meridiem, None);
    assert_eq!(snapshot.compact_text, "21:41");
}

#[test]
fn local_time_replaces_invalid_utf8() {
    let time = buffer::<32>(&[b'1', 0xff, b'2']);
    let date = buffer::<64>("27 août".as_bytes());
    let period = buffer::<4>(b"");
    let snapshot = ClockSnapshot::from_local_time(
        options(HourFormat::H24, true),
        &time,
        3,
        &date,
        "27 août".len(),
        &period,
        0,
    );
    assert_eq!(snapshot.face_text, "1\u{fffd}2");
    assert_eq!(snapshot.date_text, "27 août");
}
