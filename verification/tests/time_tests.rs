use haven_core::time::{civil_from_days, days_from_civil, iso_week, leap_year, month_days, parse_due_date, utc_stamp, ymd_string};

#[test]
fn civil_roundtrip_anchors() {
    assert_eq!(civil_from_days(0), (1970, 1, 1));
    assert_eq!(civil_from_days(31), (1970, 2, 1));
    assert_eq!(civil_from_days(20_574), (2026, 5, 1));
    for &(y, m, d) in &[(1970, 1, 1), (2000, 2, 29), (2026, 6, 19), (2027, 1, 1)] {
        assert_eq!(civil_from_days(days_from_civil(y, m, d)), (y, m, d));
    }
}

#[test]
fn utc_stamp_is_sortable_and_safe() {
    let z = days_from_civil(2026, 6, 19);
    let s = utc_stamp(z * 86_400 + 13 * 3600 + 5 * 60 + 9);
    assert_eq!(s, "20260619T130509Z");
    assert!(!s.contains(':'));
}

#[test]
fn iso_week_known_values() {
    assert_eq!(iso_week(2026, 1, 1), (2026, 1));
    assert_eq!(iso_week(2027, 1, 1), (2026, 53));
    assert_eq!(iso_week(2026, 12, 31), (2026, 53));
    assert_eq!(iso_week(2026, 6, 19), (2026, 25));
}

#[test]
fn days_from_civil_counts_from_the_epoch() {
    assert_eq!(days_from_civil(1970, 1, 1), 0);
    assert_eq!(days_from_civil(2026, 6, 19), 20623);
    assert_eq!(days_from_civil(1969, 12, 31), -1);
    assert_eq!(civil_from_days(-1), (1969, 12, 31));
}

#[test]
fn utc_stamp_before_the_epoch_and_at_midnight() {
    assert_eq!(utc_stamp(0), "19700101T000000Z");
    assert_eq!(utc_stamp(-1), "19691231T235959Z");
}

#[test]
fn stamps_sort_chronologically() {
    let a = utc_stamp(days_from_civil(2026, 1, 31) * 86_400);
    let b = utc_stamp(days_from_civil(2026, 2, 1) * 86_400);
    assert!(a < b);
}

#[test]
fn ymd_string_pads_fields() {
    assert_eq!(ymd_string((2026, 3, 7)), "2026-03-07");
}

#[test]
fn leap_years_and_month_lengths() {
    assert!(leap_year(2000));
    assert!(!leap_year(1900));
    assert!(leap_year(2024));
    assert_eq!(month_days(2024, 2), 29);
    assert_eq!(month_days(2026, 2), 28);
    assert_eq!(month_days(2026, 4), 30);
    assert_eq!(month_days(2026, 12), 31);
}

#[test]
fn due_dates_must_be_real_calendar_days() {
    assert!(parse_due_date("2026-02-28").is_some());
    assert!(parse_due_date("2024-02-29").is_some());
    assert!(parse_due_date("2026-02-29").is_none());
    assert!(parse_due_date("2026-13-01").is_none());
    assert!(parse_due_date("2026-1-01").is_none());
    assert!(parse_due_date("not a date").is_none());
}
