//! Written times and the day of the week.

use cpldicy_plugin::rtc_time::{days_in_month, is_leap_year, parse, shape_error, WallClock};

#[test]
fn parses_a_well_formed_timestamp() {
    assert_eq!(
        parse("2026-08-16 14:30:05"),
        Ok(WallClock { year: 2026, month: 8, date: 16, hour: 14, minute: 30, second: 5 })
    );
}

#[test]
fn rejects_the_wrong_shape() {
    assert!(parse("2026/08/16 14:30:05").is_err());
    assert!(parse("2026-08-16T14:30:05").is_err());
    assert!(parse("16-08-2026 14:30:05").is_err());
    assert!(parse("").is_err());
    assert!(parse("2026-08-16 14:30").is_err());
}

#[test]
fn rejects_out_of_range_fields() {
    assert!(parse("2026-13-01 00:00:00").is_err(), "month 13");
    assert!(parse("2026-02-30 00:00:00").is_err(), "Feb 30 in a non-leap year");
    assert!(parse("2026-04-31 00:00:00").is_err(), "April 31st doesn't exist");
    assert!(parse("2026-08-16 24:00:00").is_err(), "hour 24");
    assert!(parse("2026-08-16 14:60:00").is_err(), "minute 60");
}

#[test]
fn accepts_february_29th_in_a_leap_year() {
    assert!(parse("2024-02-29 00:00:00").is_ok());
    assert!(
        parse("2100-02-29 00:00:00").is_err(),
        "2100 is not a leap year (divisible by 100, not 400)"
    );
    assert!(parse("2000-02-29 00:00:00").is_ok(), "2000 is a leap year (divisible by 400)");
}

#[test]
fn weekday_matches_known_dates() {
    // 2026-08-16 is a Sunday.
    assert_eq!(parse("2026-08-16 00:00:00").unwrap().weekday_sun0(), 0);
    // 2000-01-01 is a Saturday.
    assert_eq!(parse("2000-01-01 00:00:00").unwrap().weekday_sun0(), 6);
    // 1970-01-01 is a Thursday.
    assert_eq!(parse("1970-01-01 00:00:00").unwrap().weekday_sun0(), 4);
}

#[test]
fn every_refusal_says_what_is_wrong() {
    let message = |text: &str| parse(text).unwrap_err();
    assert_eq!(message("yesterday"), "expected \"YYYY-MM-DD HH:MM:SS\", got \"yesterday\"");
    assert_eq!(
        message("2026-08-16\t14:30:0\""),
        "expected \"YYYY-MM-DD HH:MM:SS\", got \"2026-08-16\\t14:30:0\\\"\""
    );
    assert_eq!(message("2026-13-40 99:99:99"), "month 13 out of range 1-12");
    assert_eq!(message("2026-00-40 99:99:99"), "month 0 out of range 1-12");
    assert_eq!(message("2026-01-40 99:99:99"), "hour 99 out of range 0-23");
    assert_eq!(message("2026-01-40 23:99:99"), "minute 99 out of range 0-59");
    assert_eq!(message("2026-01-40 23:59:60"), "second 60 out of range 0-59");
    assert_eq!(message("2026-01-40 23:59:59"), "date 40 out of range 1-31 for 2026-01");
    assert_eq!(message("0026-02-00 23:59:59"), "date 0 out of range 1-28 for 0026-02");
}

#[test]
fn the_shape_message_carries_the_quoted_text() {
    assert_eq!(shape_error("\"x\""), "expected \"YYYY-MM-DD HH:MM:SS\", got \"x\"");
}

#[test]
fn digits_of_other_scripts_are_no_digits() {
    assert!(parse("２026-08-16 14:30:05").is_err());
    assert!(parse("2026-08-16 14:30:0５").is_err());
}

#[test]
fn months_have_their_lengths() {
    let lengths: Vec<u32> = (0..=13).map(|month| days_in_month(2023, month)).collect();
    assert_eq!(lengths, [0, 31, 28, 31, 30, 31, 30, 31, 31, 30, 31, 30, 31, 0]);
    assert_eq!(days_in_month(2024, 2), 29);
    assert!(is_leap_year(0) && is_leap_year(2000) && !is_leap_year(1900) && !is_leap_year(2025));
}

#[test]
fn the_weekday_goes_on_by_one_every_day() {
    let mut day = WallClock { year: 1999, month: 12, date: 1, hour: 0, minute: 0, second: 0 };
    for _ in 0..1000 {
        let today = day.weekday_sun0();
        let (year, month) = (u32::from(day.year), u32::from(day.month));
        if u32::from(day.date) < days_in_month(year, month) {
            day.date += 1;
        } else if day.month < 12 {
            day.month += 1;
            day.date = 1;
        } else {
            day.year += 1;
            day.month = 1;
            day.date = 1;
        }
        assert_eq!(day.weekday_sun0(), (today + 1) % 7);
    }
}

#[test]
fn the_weekday_count_begins_in_march_of_year_zero() {
    let at = |year: u16, month: u8, date: u8| WallClock {
        year,
        month,
        date,
        hour: 0,
        minute: 0,
        second: 0,
    };
    assert_eq!(at(0, 3, 1).weekday_sun0(), 3);
    assert_eq!(at(0, 2, 29).weekday_sun0(), 3);
    assert_eq!(at(0, 1, 0).weekday_sun0(), 255);
    assert_eq!(at(65535, 12, 31).weekday_sun0(), 2);
}
