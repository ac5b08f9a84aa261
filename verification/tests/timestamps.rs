use quotaglass::calendar::{civil_from_days, days_from_civil};
use quotaglass::timestamps::{date_from_secs, iso_reading_panics, iso_to_epoch_ms, timestamp_to_iso};

#[test]
fn parses_the_timestamp_forms_the_usage_endpoint_emits() {
    assert_eq!(iso_to_epoch_ms("1970-01-01T00:00:00+00:00"), Some(0),);
    assert_eq!(
        iso_to_epoch_ms("2026-08-11T16:19:59.718872+00:00"),
        Some(1_786_465_199_000),
    );
    // Z and an explicit offset must resolve to the same instant.
    assert_eq!(
        iso_to_epoch_ms("2026-08-11T16:19:59Z"),
        iso_to_epoch_ms("2026-08-12T01:19:59+09:00"),
    );
    assert_eq!(iso_to_epoch_ms("not a timestamp"), None);
}

#[test]
fn timestamp_is_serialized_for_frontend_reset_display() {
    assert_eq!(timestamp_to_iso(0), "1970-01-01T00:00:00Z");
}

#[test]
fn timestamps_before_1970_and_broken_offsets_do_not_read() {
    assert_eq!(iso_to_epoch_ms("1969-12-31T23:59:59Z"), None);
    assert_eq!(iso_to_epoch_ms("2026-08-11T16:19:59+09"), None);
    assert_eq!(iso_to_epoch_ms("2026-08-11T16:19:59-0x:00"), None);
    assert_eq!(iso_to_epoch_ms("2026-08-11 16:19:59"), Some(1_786_465_199_000));
    assert_eq!(iso_to_epoch_ms("1970-01-01T00:00:00-01:30"), Some(5_400_000));
}

#[test]
fn slicing_inside_a_character_is_detected() {
    assert!(!iso_reading_panics("2026-08-11T16:19:59+09:00"));
    assert!(!iso_reading_panics("not a timestamp"));
    assert!(iso_reading_panics("2026-08-11T16:19:59+0é00"));
    // A character that fills the hour field exactly is cut cleanly and simply does not read.
    assert!(!iso_reading_panics("2026-08-11T16:19:59+é:00"));
    assert_eq!(iso_to_epoch_ms("2026-08-11T16:19:59+é:00"), None);
    assert!(iso_reading_panics("2026-08-11T16:19:59+09é00"));
}

#[test]
fn dates_and_times_of_unix_seconds() {
    assert_eq!(date_from_secs(0), "1970-01-01");
    assert_eq!(date_from_secs(-1), "1969-12-31");
    assert_eq!(date_from_secs(1_786_465_199), "2026-08-11");
    assert_eq!(timestamp_to_iso(1_753_356_000), "2025-07-24T11:20:00Z");
    assert_eq!(timestamp_to_iso(-1), "1969-12-31T23:59:59Z");
    assert_eq!(date_from_secs(951_782_400), "2000-02-29");
}

#[test]
fn civil_dates_and_day_numbers_round_trip() {
    assert_eq!(civil_from_days(0), (1970, 1, 1));
    assert_eq!(days_from_civil(1970, 1, 1), 0);
    assert_eq!(civil_from_days(-1), (1969, 12, 31));
    assert_eq!(days_from_civil(2000, 3, 1), 11_017);
    assert_eq!(civil_from_days(11_016), (2000, 2, 29));
    for z in [-800_000_i64, -1, 0, 59, 365, 10_000, 2_932_896] {
        let (y, m, d) = civil_from_days(z);
        assert_eq!(days_from_civil(y, m, d), z);
    }
}

#[test]
fn written_timestamps_read_back_as_their_milliseconds() {
    for t in [0_i64, 1, 59, 86_399, 951_782_400, 1_786_465_199, 253_402_300_799] {
        let text = timestamp_to_iso(t);
        assert!(!iso_reading_panics(&text));
        assert_eq!(iso_to_epoch_ms(&text), Some(t as u64 * 1000));
    }
    assert_eq!(timestamp_to_iso(253_402_300_799), "9999-12-31T23:59:59Z");
}

#[test]
fn the_next_day_count_is_the_next_calendar_day() {
    assert_eq!(civil_from_days(11_015), (2000, 2, 28));
    assert_eq!(civil_from_days(11_016), (2000, 2, 29));
    assert_eq!(civil_from_days(11_017), (2000, 3, 1));
    assert_eq!(civil_from_days(-1), (1969, 12, 31));
    assert_eq!(civil_from_days(0), (1970, 1, 1));
    let feb_28_2023 = days_from_civil(2023, 2, 28);
    assert_eq!(civil_from_days(feb_28_2023 + 1), (2023, 3, 1));
    assert_eq!(civil_from_days(days_from_civil(2024, 4, 30) + 1), (2024, 5, 1));
    assert_eq!(civil_from_days(2_932_896), (9999, 12, 31));
}
