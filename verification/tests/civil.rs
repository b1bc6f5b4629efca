use cc_limit::days_from_civil;

#[test]
fn epoch_day_is_zero() {
    assert_eq!(days_from_civil(1970, 1, 1), 0);
}

#[test]
fn day_before_epoch_is_minus_one() {
    assert_eq!(days_from_civil(1969, 12, 31), -1);
}

#[test]
fn known_dates() {
    assert_eq!(days_from_civil(2000, 3, 1), 11017);
    assert_eq!(days_from_civil(2024, 2, 29), 19782);
    assert_eq!(days_from_civil(2025, 1, 1), 20089);
    assert_eq!(days_from_civil(2024, 12, 1), 20058);
    assert_eq!(days_from_civil(1, 1, 1), -719162);
    assert_eq!(days_from_civil(2400, 2, 29), 157113);
    assert_eq!(days_from_civil(1900, 3, 1), -25508);
}

#[test]
fn year_zero_is_a_leap_year() {
    assert_eq!(days_from_civil(0, 3, 1), -719468);
    assert_eq!(days_from_civil(0, 2, 29), -719469);
}

#[test]
fn consecutive_days_across_boundaries() {
    assert_eq!(days_from_civil(2023, 12, 31) + 1, days_from_civil(2024, 1, 1));
    assert_eq!(days_from_civil(2024, 2, 29) + 1, days_from_civil(2024, 3, 1));
    assert_eq!(days_from_civil(2023, 2, 28) + 1, days_from_civil(2023, 3, 1));
    assert_eq!(days_from_civil(1900, 2, 28) + 1, days_from_civil(1900, 3, 1));
    assert_eq!(days_from_civil(2000, 2, 28) + 2, days_from_civil(2000, 3, 1));
}

#[test]
fn out_of_range_fields_count_on() {
    assert_eq!(days_from_civil(2024, 13, 1), days_from_civil(2025, 1, 1));
    assert_eq!(days_from_civil(2025, 0, 1), days_from_civil(2024, 12, 1));
    assert_eq!(days_from_civil(2024, 2, 30), days_from_civil(2024, 3, 1));
    assert_eq!(days_from_civil(2024, 3, 0), days_from_civil(2024, 2, 29));
}

#[test]
fn extreme_arguments_do_not_overflow() {
    let a = days_from_civil(i32::MAX, u32::MAX, u32::MAX);
    let b = days_from_civil(i32::MIN, 0, 0);
    assert!(a > 0);
    assert!(b < 0);
}
