use status_report::period::{days_to_months, days_to_time_period, days_to_weeks, days_to_years};

#[test]
fn six_days_stay_days() {
    assert_eq!(days_to_time_period(6), "6D");
}

#[test]
fn seven_days_are_one_week() {
    assert_eq!(days_to_time_period(7), "1W+");
}

#[test]
fn twenty_nine_days_are_four_weeks() {
    assert_eq!(days_to_time_period(29), "4W+");
}

#[test]
fn thirty_days_are_one_month() {
    assert_eq!(days_to_time_period(30), "1M+");
}

#[test]
fn three_sixty_four_days_are_twelve_months() {
    assert_eq!(days_to_time_period(364), "12M+");
}

#[test]
fn three_sixty_five_days_are_one_year() {
    assert_eq!(days_to_time_period(365), "1Y+");
}

#[test]
fn long_silence_counts_whole_years() {
    assert_eq!(days_to_time_period(1000), "2Y+");
}

#[test]
fn zero_and_negative_days() {
    assert_eq!(days_to_time_period(0), "0D");
    assert_eq!(days_to_time_period(-4), "-4D");
}

#[test]
fn unit_helpers_divide_down() {
    assert_eq!(days_to_weeks(20), "2W+");
    assert_eq!(days_to_months(95), "3M+");
    assert_eq!(days_to_years(800), "2Y+");
    assert_eq!(days_to_weeks(-15), "-2W+");
}

#[test]
fn extreme_day_counts() {
    assert_eq!(days_to_time_period(i64::MAX), "25269512429739111Y+");
    assert_eq!(days_to_time_period(i64::MIN), "-9223372036854775808D");
}
