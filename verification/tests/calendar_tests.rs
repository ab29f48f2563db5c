use platform_revenue::calendar::{date_of_day, month_start_day, week_start_day, Date, MAX_DAY};

#[test]
fn epoch_day_zero_is_new_year_1970() {
    assert_eq!(date_of_day(0), Date { year: 1970, month: 1, day: 1 });
}

#[test]
fn epoch_1700000000_falls_on_2023_11_14() {
    // 1700000000 seconds = day 19675
    assert_eq!(date_of_day(19675), Date { year: 2023, month: 11, day: 14 });
}

#[test]
fn leap_day_2024() {
    // 2024-01-01 is day 19723; February 29th exists in 2024
    assert_eq!(date_of_day(19723), Date { year: 2024, month: 1, day: 1 });
    assert_eq!(date_of_day(19723 + 31 + 28), Date { year: 2024, month: 2, day: 29 });
}

#[test]
fn last_supported_day_is_end_of_9999() {
    assert_eq!(date_of_day(MAX_DAY - 1), Date { year: 9999, month: 12, day: 31 });
}

#[test]
fn month_start_of_mid_november() {
    let b = month_start_day(19675);
    assert_eq!(b, 19662);
    assert_eq!(date_of_day(b), Date { year: 2023, month: 11, day: 1 });
}

#[test]
fn month_start_of_a_first_is_itself() {
    assert_eq!(month_start_day(19662), 19662);
    assert_eq!(month_start_day(0), 0);
}

#[test]
fn week_start_is_the_monday() {
    // 2023-11-14 was a Tuesday; its week began Monday 2023-11-13
    let b = week_start_day(19675);
    assert_eq!(b, 19674);
    assert_eq!(date_of_day(b), Date { year: 2023, month: 11, day: 13 });
    // a Monday is its own week start
    assert_eq!(week_start_day(19674), 19674);
    assert_eq!(week_start_day(4), 4);
}

#[test]
fn week_of_the_epoch_begins_before_it() {
    // 1970-01-01 was a Thursday: its Monday lies three days earlier
    assert_eq!(week_start_day(0), -3);
}
