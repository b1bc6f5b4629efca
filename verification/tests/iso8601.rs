use cc_limit::iso8601::iso8601_evaluate;
use cc_limit::iso8601_to_epoch;

#[test]
fn utc_timestamp() {
    assert_eq!(iso8601_to_epoch("2025-01-02T03:04:05Z"), Ok(1735787045));
    assert_eq!(iso8601_to_epoch("1970-01-01T00:00:00Z"), Ok(0));
}

#[test]
fn positive_offset_is_subtracted() {
    assert_eq!(iso8601_to_epoch("2025-06-15T12:30:00+02:00"), Ok(1749990600 - 7200));
}

#[test]
fn negative_offset_is_added() {
    assert_eq!(iso8601_to_epoch("2025-06-15T12:30:00-02:30"), Ok(1749990600 + 9000));
}

#[test]
fn offset_without_minutes() {
    assert_eq!(iso8601_to_epoch("2025-06-15T12:30+02"), Ok(1749990600 - 7200));
    assert_eq!(iso8601_to_epoch("2025-06-15T12:30:00+5:30"), Ok(1749990600 - 19800));
}

#[test]
fn zone_less_time_reads_as_utc() {
    assert_eq!(iso8601_to_epoch("2025-06-15T12:30"), Ok(1749990600));
    assert_eq!(iso8601_to_epoch("2025-06-15T12:30:00"), Ok(1749990600));
}

#[test]
fn fraction_is_dropped_and_space_is_trimmed() {
    assert_eq!(iso8601_to_epoch(" 2025-06-15T12:30:00.123456Z\n"), Ok(1749990600));
    assert_eq!(iso8601_to_epoch("\u{3000}2025-06-15T12:30:00.9Z\t"), Ok(1749990600));
}

#[test]
fn sign_at_start_of_clock_is_part_of_the_hour() {
    assert_eq!(iso8601_to_epoch("2025-06-15T+12:30"), Ok(1749990600));
}

#[test]
fn signed_and_unpadded_fields() {
    assert_eq!(iso8601_to_epoch("+2025-06-15T12:30Z"), Ok(1749990600));
    assert_eq!(iso8601_to_epoch("1970-1-1T0:0:1"), Ok(1));
}

#[test]
fn month_thirteen_counts_into_next_year() {
    assert_eq!(iso8601_to_epoch("2024-13-01T00:00Z"), iso8601_to_epoch("2025-01-01T00:00Z"));
}

#[test]
fn malformed_timestamps_are_rejected() {
    assert_eq!(iso8601_to_epoch(""), Err(()));
    assert_eq!(iso8601_to_epoch("2025-06-15"), Err(()));
    assert_eq!(iso8601_to_epoch("2025-06-15T12"), Err(()));
    assert_eq!(iso8601_to_epoch("2025-06T12:30"), Err(()));
    assert_eq!(iso8601_to_epoch("abcd-06-15T12:30"), Err(()));
    assert_eq!(iso8601_to_epoch("2025-06-15T12:30:xxZ"), Err(()));
    assert_eq!(iso8601_to_epoch("-2025-06-15T12:30Z"), Err(()));
    assert_eq!(iso8601_to_epoch("2025-06-15T12:30+ab"), Err(()));
    assert_eq!(iso8601_to_epoch("2025-06-15T12:-30"), Err(()));
    assert_eq!(iso8601_to_epoch("2025-06-15T99999999999:00Z"), Err(()));
}

#[test]
fn evaluate_reports_offset_overflow() {
    assert_eq!(iso8601_evaluate("2025-06-15T12:30+9000000000000000"), None);
    assert_eq!(iso8601_evaluate("2025-06-15T12:30+00:9000000000000000000"), None);
}

#[test]
fn evaluate_reports_final_overflow() {
    assert_eq!(iso8601_evaluate("2025-06-15T12:30-2562047788015215"), None);
}

#[test]
fn evaluate_without_overflow() {
    assert_eq!(iso8601_evaluate("2025-06-15T12:30+99999999999999999999"), Some(Err(())));
    assert_eq!(iso8601_evaluate("2025-06-15T12:30Z"), Some(Ok(1749990600)));
    assert_eq!(iso8601_evaluate("nothing"), Some(Err(())));
}
