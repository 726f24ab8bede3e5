use chrono::{Datelike, NaiveDate, Timelike};
use kashan786_cli_app::{date, Timestamp};

fn at(year: i32, month: u32, day: u32, hour: u32, minute: u32, second: u32) -> Timestamp {
    Timestamp { year, month, day, hour, minute, second, nanosecond: 0 }
}

fn text(s: &str) -> Option<String> {
    Some(s.to_string())
}

#[test]
fn a_timestamp_is_written_with_leading_zeros() {
    assert_eq!(date(&at(2024, 3, 7, 9, 5, 1)), text("2024-03-07 09:05:01"));
    assert_eq!(date(&at(1999, 12, 31, 23, 59, 59)), text("1999-12-31 23:59:59"));
    assert_eq!(date(&at(2000, 1, 1, 0, 0, 0)), text("2000-01-01 00:00:00"));
    assert_eq!(date(&at(2026, 10, 28, 10, 20, 30)), text("2026-10-28 10:20:30"));
}

#[test]
fn early_years_have_four_digits() {
    assert_eq!(date(&at(0, 1, 1, 0, 0, 0)), text("0000-01-01 00:00:00"));
    assert_eq!(date(&at(7, 1, 1, 0, 0, 0)), text("0007-01-01 00:00:00"));
    assert_eq!(date(&at(42, 1, 1, 0, 0, 0)), text("0042-01-01 00:00:00"));
    assert_eq!(date(&at(987, 1, 1, 0, 0, 0)), text("0987-01-01 00:00:00"));
    assert_eq!(date(&at(9999, 1, 1, 0, 0, 0)), text("9999-01-01 00:00:00"));
}

#[test]
fn years_out_of_four_digits_carry_a_sign() {
    assert_eq!(date(&at(10000, 1, 1, 0, 0, 0)), text("+10000-01-01 00:00:00"));
    assert_eq!(date(&at(262142, 6, 15, 12, 0, 0)), text("+262142-06-15 12:00:00"));
    assert_eq!(date(&at(-1, 1, 1, 0, 0, 0)), text("-0001-01-01 00:00:00"));
    assert_eq!(date(&at(-12345, 1, 1, 0, 0, 0)), text("-12345-01-01 00:00:00"));
    assert_eq!(date(&at(-262143, 12, 31, 23, 59, 59)), text("-262143-12-31 23:59:59"));
}

#[test]
fn years_the_calendar_does_not_know_have_no_date() {
    assert_eq!(date(&at(262143, 1, 1, 0, 0, 0)), None);
    assert_eq!(date(&at(-262144, 12, 31, 0, 0, 0)), None);
    assert_eq!(date(&at(i32::MAX, 1, 1, 0, 0, 0)), None);
    assert_eq!(date(&at(i32::MIN, 1, 1, 0, 0, 0)), None);
}

#[test]
fn a_leap_second_is_written_as_sixty() {
    let leap = Timestamp {
        year: 2016,
        month: 12,
        day: 31,
        hour: 23,
        minute: 59,
        second: 59,
        nanosecond: 1_500_000_000,
    };
    assert_eq!(date(&leap), text("2016-12-31 23:59:60"));
    let last = Timestamp { nanosecond: 999_999_999, ..leap };
    assert_eq!(date(&last), text("2016-12-31 23:59:59"));
    let too_far = Timestamp { nanosecond: 2_000_000_000, ..leap };
    assert_eq!(date(&too_far), None);
    let not_at_the_end = Timestamp { second: 58, ..leap };
    assert_eq!(date(&not_at_the_end), None);
}

#[test]
fn only_a_day_of_the_calendar_has_a_date() {
    assert_eq!(date(&at(2024, 2, 29, 0, 0, 0)), text("2024-02-29 00:00:00"));
    assert_eq!(date(&at(2023, 2, 29, 0, 0, 0)), None);
    assert_eq!(date(&at(2000, 2, 29, 0, 0, 0)), text("2000-02-29 00:00:00"));
    assert_eq!(date(&at(1900, 2, 29, 0, 0, 0)), None);
    assert_eq!(date(&at(-4, 2, 29, 0, 0, 0)), text("-0004-02-29 00:00:00"));
    assert_eq!(date(&at(-100, 2, 29, 0, 0, 0)), None);
    assert_eq!(date(&at(-400, 2, 29, 0, 0, 0)), text("-0400-02-29 00:00:00"));
    assert_eq!(date(&at(2024, 4, 30, 0, 0, 0)), text("2024-04-30 00:00:00"));
    assert_eq!(date(&at(2024, 4, 31, 0, 0, 0)), None);
    assert_eq!(date(&at(2024, 6, 31, 0, 0, 0)), None);
    assert_eq!(date(&at(2024, 9, 31, 0, 0, 0)), None);
    assert_eq!(date(&at(2024, 11, 31, 0, 0, 0)), None);
    for month in [1, 3, 5, 7, 8, 10, 12] {
        assert!(date(&at(2023, month, 31, 0, 0, 0)).is_some());
        assert_eq!(date(&at(2023, month, 32, 0, 0, 0)), None);
    }
}

#[test]
fn only_a_valid_moment_has_a_date() {
    assert_eq!(date(&at(2024, 13, 7, 9, 5, 1)), None);
    assert_eq!(date(&at(2024, 0, 7, 9, 5, 1)), None);
    assert_eq!(date(&at(2024, 3, 0, 9, 5, 1)), None);
    assert_eq!(date(&at(2024, 3, 7, 24, 5, 1)), None);
    assert_eq!(date(&at(2024, 3, 7, 9, 60, 1)), None);
    assert_eq!(date(&at(2024, 3, 7, 9, 5, 60)), None);
    assert_eq!(date(&at(2024, 3, 7, 23, 59, 59)), text("2024-03-07 23:59:59"));
}

#[test]
fn date_writes_the_present_moment() {
    let now = chrono::Local::now();
    let stamp = Timestamp {
        year: now.year(),
        month: now.month(),
        day: now.day(),
        hour: now.hour(),
        minute: now.minute(),
        second: now.second(),
        nanosecond: now.nanosecond(),
    };
    assert_eq!(date(&stamp), Some(now.format("%Y-%m-%d %H:%M:%S").to_string()));
}

#[test]
fn the_text_has_the_fields_in_their_places() {
    let moment = NaiveDate::from_ymd_opt(1987, 6, 5).expect("a date").and_hms_opt(4, 3, 2).expect("a time");
    let stamp = at(moment.year(), moment.month(), moment.day(), moment.hour(), moment.minute(), moment.second());
    let written = date(&stamp).expect("a text");
    let shape: Vec<char> = written.chars().collect();
    assert_eq!(shape.len(), 19);
    assert_eq!(&written[0..4], "1987");
    assert_eq!(&written[5..7], "06");
    assert_eq!(&written[8..10], "05");
    assert_eq!(&written[11..13], "04");
    assert_eq!(&written[14..16], "03");
    assert_eq!(&written[17..19], "02");
    assert_eq!((shape[4], shape[7], shape[10], shape[13], shape[16]), ('-', '-', ' ', ':', ':'));
}
