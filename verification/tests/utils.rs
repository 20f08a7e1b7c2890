use qaid::datetime::DateTime;
use qaid::utils::{date_text_readable, get_duplicates, parse_date_text, parse_date_with, serial_date, serial_days_ok};

#[test]
fn has_duplicates_test() {
    let vec = vec![1, 2, 3];
    assert_eq!(get_duplicates(&vec), []);

    let vec = vec![1, 2, 3, 3];
    assert_eq!(get_duplicates(&vec), [3]);

    let vec = vec![1, 2, 3, 3, 3, 4, 4];
    assert!(get_duplicates(&vec).contains(&3));
    assert!(get_duplicates(&vec).contains(&4));

    let vec = vec!["one", "two", "three", "three", "three", "four"];
    assert_eq!(get_duplicates(&vec), ["three"]);
}

#[test]
fn duplicates_listed_once_in_order_of_repetition() {
    let vec = vec!["b".to_owned(), "a".to_owned(), "a".to_owned(), "b".to_owned(), "a".to_owned()];
    assert_eq!(get_duplicates(&vec), vec!["a".to_owned(), "b".to_owned()]);
    let empty: Vec<u64> = vec![];
    assert_eq!(get_duplicates(&empty), Vec::<u64>::new());
}

fn dt(year: i32, month: u32, day: u32, hour: u32, minute: u32, second: u32) -> DateTime {
    DateTime::new(year, month, day, hour, minute, second, 0)
}

#[test]
fn date_parse_text_test() {
    assert_eq!(parse_date_text("12/05/25").unwrap(), dt(2025, 12, 5, 0, 0, 0));
    assert_eq!(parse_date_text("June 15, 2023").unwrap(), dt(2023, 6, 15, 0, 0, 0));
    assert_eq!(parse_date_text("June 15, 2023 3:45pm").unwrap(), dt(2023, 6, 15, 15, 45, 0));
    assert_eq!(parse_date_text("2023-06-15T14:30:00Z").unwrap(), dt(2023, 6, 15, 14, 30, 0));
    assert_eq!(parse_date_text("2023-06-15T14:30:00").unwrap(), dt(2023, 6, 15, 14, 30, 0));
    assert_eq!(parse_date_text("May 26, 2021, 12:49 AM PDT").unwrap(), dt(2021, 5, 26, 7, 49, 0));
    assert_eq!(parse_date_text("  2023-06-15 14:30:00.5  ").unwrap(), DateTime::new(2023, 6, 15, 14, 30, 0, 500_000_000));
    assert_eq!(parse_date_text("not a date"), None);
}

#[test]
fn date_fallback_formats_are_tried_in_order() {
    let found = dt(2000, 1, 1, 0, 0, 0);
    assert_eq!(parse_date_with("whatever", Some(found)), Some(found));
    assert_eq!(parse_date_with("2023-06-15T14:30:00", None), Some(dt(2023, 6, 15, 14, 30, 0)));
    assert_eq!(parse_date_with("2023-06-15 14:30:00", None), Some(dt(2023, 6, 15, 14, 30, 0)));
    assert_eq!(parse_date_with("2023-06-15", None), None);
}

#[test]
fn numbers_are_taken_as_serial_dates() {
    assert_eq!(qaid::utils::parse_date("44680.7042939815", Some((44680, 60851))), Some(dt(2022, 4, 29, 16, 54, 11)));
    assert_eq!(qaid::utils::parse_date("2023-06-15T14:30:00", None), Some(dt(2023, 6, 15, 14, 30, 0)));
}

#[test]
fn serial_dates_skip_the_missing_leap_day() {
    assert_eq!(serial_date(1, 0), Some(dt(1900, 1, 1, 0, 0, 0)));
    assert_eq!(serial_date(59, 0), Some(dt(1900, 2, 28, 0, 0, 0)));
    assert_eq!(serial_date(60, 0), Some(dt(1900, 2, 28, 0, 0, 0)));
    assert_eq!(serial_date(61, 0), Some(dt(1900, 3, 1, 0, 0, 0)));
    assert_eq!(serial_date(44680, 3_600 * 16 + 60 * 54 + 11), Some(dt(2022, 4, 29, 16, 54, 11)));
    assert_eq!(serial_date(44680, 86_400), None);
    assert_eq!(serial_date(106_751_991_169, 0), None);
    assert!(serial_days_ok(106_751_991_169));
    assert!(!serial_days_ok(106_751_991_170));
    assert!(serial_days_ok(-106_751_991_166));
    assert!(!serial_days_ok(-106_751_991_167));
}

// Splits a serial number into whole days and rounded seconds, with floating point as the
// program does; the conversion itself is the library's.
fn serial_reading(input: &str) -> Option<(i64, u32)> {
    let serial = input.trim().parse::<f64>().ok()?;
    Some((serial.floor() as i64, (serial.fract() * 86_400.0).round() as u32))
}

fn parse_date(input: &str) -> Option<DateTime> {
    qaid::utils::parse_date(input, serial_reading(input))
}

#[test]
fn date_parse_test() {
    assert_eq!(parse_date("12/05/25").unwrap(), DateTime::new(2025, 12, 5, 0, 0, 0, 0));
    assert_eq!(parse_date("June 15, 2023").unwrap(), DateTime::new(2023, 6, 15, 0, 0, 0, 0));
    assert_eq!(parse_date("June 15, 2023 3:45pm").unwrap(), DateTime::new(2023, 6, 15, 15, 45, 0, 0));
    assert_eq!(parse_date("2023-06-15T14:30:00Z").unwrap(), DateTime::new(2023, 6, 15, 14, 30, 0, 0));
    assert_eq!(parse_date("2023-06-15T14:30:00").unwrap(), DateTime::new(2023, 6, 15, 14, 30, 0, 0));
    assert_eq!(parse_date("May 26, 2021, 12:49 AM PDT").unwrap(), DateTime::new(2021, 5, 26, 7, 49, 0, 0));
    assert_eq!(parse_date("44680.7042939815").unwrap(), DateTime::new(2022, 4, 29, 16, 54, 11, 0));
}

#[test]
fn zone_offsets_of_a_day_or_more_are_not_readable() {
    assert!(!date_text_readable("2023-06-15 14:30:00+9900"));
    assert!(!date_text_readable(" 2023-06-15 14:30:00 -24:00 "));
    assert!(!date_text_readable("14:30 +2400x"));
    assert!(date_text_readable("2023-06-15 14:30:00+2359"));
    assert!(date_text_readable("2023-06-15 14:30:00+9960"));
    assert!(date_text_readable("June 15, 2023"));
    assert!(date_text_readable("+99"));
    assert_eq!(parse_date_text("2014-04-26 13:13:43 +0800"), Some(dt(2014, 4, 26, 5, 13, 43)));
}
