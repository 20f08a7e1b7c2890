//! Calendar date-times as plain values, and the date parsers used on cell text.

use chrono::{Datelike, FixedOffset, NaiveDate, NaiveDateTime, NaiveTime, TimeDelta, Timelike};
use vstd::prelude::*;

use crate::text::is_digit;

verus! {

/// A date and time of day without a time zone, as its calendar fields.
#[derive(Debug, Clone, Copy, PartialEq, Eq, Structural)]
pub struct DateTime {
    pub year: i32,
    pub month: u32,
    pub day: u32,
    pub hour: u32,
    pub minute: u32,
    pub second: u32,
    pub nanosecond: u32,
}

impl DateTime {
    pub fn new(
        year: i32,
        month: u32,
        day: u32,
        hour: u32,
        minute: u32,
        second: u32,
        nanosecond: u32,
    ) -> (r: Self)
        ensures
            r == (DateTime { year, month, day, hour, minute, second, nanosecond }),
    {
        DateTime { year, month, day, hour, minute, second, nanosecond }
    }
}

/// The date-time that chrono's `NaiveDateTime::parse_from_str` reads from `text` with the
/// strftime-style `format`, or `None` when it rejects the text.
pub uninterp spec fn naive_datetime_from_str(text: Seq<char>, format: Seq<char>) -> Option<DateTime>;

/// The text that chrono's `Display` of `NaiveDateTime` writes for the date-time with these
/// fields, or `None` when chrono has no date-time with these fields.
pub uninterp spec fn naive_datetime_display(dt: DateTime) -> Option<Seq<char>>;

/// Calls chrono's `NaiveDateTime::parse_from_str(text, format)` and hands back the calendar
/// fields of what it read. The contract claims that the result depends on the two texts alone;
/// chrono's format grammar is not restated.
#[verifier::external_body]
pub(crate) fn parse_naive_datetime(text: &str, format: &str) -> (r: Option<DateTime>)
    ensures
        r == naive_datetime_from_str(text@, format@),
{
    let d = NaiveDateTime::parse_from_str(text, format).ok()?;
    let (year, month, day) = (d.year(), d.month(), d.day());
    let (hour, minute, second, nanosecond) = (d.hour(), d.minute(), d.second(), d.nanosecond());
    Some(DateTime { year, month, day, hour, minute, second, nanosecond })
}

/// Builds chrono's `NaiveDateTime` from the fields (`NaiveDate::from_ymd_opt`, then
/// `and_hms_nano_opt`) and renders it with its `Display`. The contract claims that the result
/// depends on the fields alone; chrono's rendering rules are not restated.
#[verifier::external_body]
pub(crate) fn display_naive_datetime(dt: &DateTime) -> (r: Option<String>)
    ensures
        match r {
            Some(t) => naive_datetime_display(*dt) == Some(t@),
            None => naive_datetime_display(*dt) is None,
        },
{
    let date = NaiveDate::from_ymd_opt(dt.year, dt.month, dt.day)?;
    let full = date.and_hms_nano_opt(dt.hour, dt.minute, dt.second, dt.nanosecond)?;
    Some(full.to_string())
}

/// The calendar date (year, month, day) that chrono reaches by adding `days` days to the date
/// `year`-`month`-`day`, or `None` when that date does not exist or the result is outside
/// chrono's range of dates.
pub uninterp spec fn naive_date_add_days(year: i32, month: u32, day: u32, days: i64) -> Option<
    (i32, u32, u32),
>;

/// The largest number of days that chrono's `TimeDelta::days` accepts without panicking.
pub open spec fn max_delta_days() -> int {
    106_751_991_167
}

/// Calls chrono's `NaiveDate::from_ymd_opt(year, month, day)` and then
/// `checked_add_signed(TimeDelta::days(days))`, and hands back the fields of the date reached.
/// The contract claims that the result depends on the four arguments alone; chrono's calendar
/// is not restated. `TimeDelta::days` panics beyond `max_delta_days()` days, which
/// `requires` rules out.
#[verifier::external_body]
pub(crate) fn add_days_to_date(year: i32, month: u32, day: u32, days: i64) -> (r: Option<
    (i32, u32, u32),
>)
    requires
        -max_delta_days() <= days <= max_delta_days(),
    ensures
        r == naive_date_add_days(year, month, day, days),
{
    let date = NaiveDate::from_ymd_opt(year, month, day)?;
    let d = date.checked_add_signed(TimeDelta::days(days))?;
    Some((d.year(), d.month(), d.day()))
}

/// A sign character of a zone offset.
pub open spec fn is_sign(c: char) -> bool {
    c == '+' || c == '-'
}

/// The value of a decimal digit character.
pub open spec fn digit_value(c: char) -> int {
    (c as u32) - 48
}

/// Two characters that read as minutes `00` to `59`.
pub open spec fn is_minutes(a: char, b: char) -> bool {
    48 <= (a as u32) <= 53 && is_digit(b)
}

/// A zone offset field starting at `k` and running to the end of `t` whose hour is 24 or
/// more: a sign, two hour digits, then two minute digits (with at most one character after
/// them) or a colon and two minute digits.
pub open spec fn large_zone_at(t: Seq<char>, k: int) -> bool {
    &&& 0 <= k
    &&& k + 5 <= t.len()
    &&& is_sign(t[k])
    &&& is_digit(t[k + 1])
    &&& is_digit(t[k + 2])
    &&& 10 * digit_value(t[k + 1]) + digit_value(t[k + 2]) >= 24
    &&& {
        ||| is_minutes(t[k + 3], t[k + 4]) && (k + 5 == t.len() || k + 6 == t.len())
        ||| k + 6 == t.len() && t[k + 3] == ':' && is_minutes(t[k + 4], t[k + 5])
    }
}

/// The text ends in a zone offset field whose hour is 24 or more. Dateparser reads such a
/// field into an offset of a day or more and hands it to chrono's `FixedOffset::east`, which
/// panics.
pub open spec fn ends_in_large_zone(t: Seq<char>) -> bool {
    large_zone_at(t, t.len() - 5) || large_zone_at(t, t.len() - 6)
}

fn is_digit_char(c: char) -> (r: bool)
    ensures
        r == is_digit(c),
{
    let u = c as u32;
    48 <= u && u <= 57
}

fn large_zone_at_exec(t: &str, n: usize, k: usize) -> (r: bool)
    requires
        n == t@.len(),
    ensures
        r == large_zone_at(t@, k as int),
{
    if k > n || n - k < 5 {
        return false;
    }
    let s = t.get_char(k);
    let h1 = t.get_char(k + 1);
    let h2 = t.get_char(k + 2);
    if !(s == '+' || s == '-') || !is_digit_char(h1) || !is_digit_char(h2) {
        return false;
    }
    let hours = (h1 as u32 - 48) * 10 + (h2 as u32 - 48);
    if hours < 24 {
        return false;
    }
    let a = t.get_char(k + 3);
    let b = t.get_char(k + 4);
    let plain = (48 <= a as u32 && a as u32 <= 53 && is_digit_char(b)) && (n - k == 5 || n - k
        == 6);
    if plain {
        return true;
    }
    if n - k == 6 && a == ':' {
        let c = t.get_char(k + 5);
        return 48 <= b as u32 && b as u32 <= 53 && is_digit_char(c);
    }
    false
}

/// True when the text does not end in a zone offset field whose hour is 24 or more, so that
/// dateparser can be asked to read it.
pub fn zone_in_range(t: &str) -> (r: bool)
    ensures
        r == !ends_in_large_zone(t@),
{
    let n = t.unicode_len();
    let five = if n >= 5 {
        large_zone_at_exec(t, n, n - 5)
    } else {
        false
    };
    let six = if n >= 6 {
        large_zone_at_exec(t, n, n - 6)
    } else {
        false
    };
    !(five || six)
}

/// What dateparser may have read from `text` with the fixed offset `offset_seconds` and the
/// default time `hour:minute:second`: `r` is one possible outcome of that call. Nothing more is
/// claimed of it, so two calls on the same arguments may differ.
pub uninterp spec fn dateparser_reading(
    text: Seq<char>,
    offset_seconds: i32,
    hour: u32,
    minute: u32,
    second: u32,
    r: Option<DateTime>,
) -> bool;

/// Calls `dateparser::parse_with(text, tz, default_time)`, where `tz` is the fixed offset of
/// `offset_seconds` seconds east of UTC (used for text that names no offset) and `default_time`
/// is `hour:minute:second` (used for text that names no time), and hands back the UTC calendar
/// fields of what it read. The contract claims only that the result is an outcome of that call
/// on these arguments (`dateparser_reading`): for some inputs (a time without a date, a month
/// and day without a year) dateparser fills in parts from the current clock. Text ending in a
/// zone offset field of 24 hours or more makes dateparser panic, which `requires` rules out.
#[verifier::external_body]
pub(crate) fn parse_with_dateparser(
    text: &str,
    offset_seconds: i32,
    hour: u32,
    minute: u32,
    second: u32,
) -> (r: Option<DateTime>)
    requires
        -86_400 < offset_seconds < 86_400,
        hour < 24,
        minute < 60,
        second < 60,
        !ends_in_large_zone(text@),
    ensures
        dateparser_reading(text@, offset_seconds, hour, minute, second, r),
{
    let tz = FixedOffset::east_opt(offset_seconds)?;
    let default_time = NaiveTime::from_hms_opt(hour, minute, second)?;
    let d = dateparser::parse_with(text, &tz, default_time).ok()?.naive_utc();
    let (year, month, day) = (d.year(), d.month(), d.day());
    let (hour, minute, second, nanosecond) = (d.hour(), d.minute(), d.second(), d.nanosecond());
    Some(DateTime { year, month, day, hour, minute, second, nanosecond })
}

} // verus!
