//! Duplicate detection and date-text parsing.

use vstd::prelude::*;

use crate::datetime::{
    add_days_to_date, dateparser_reading, ends_in_large_zone, max_delta_days,
    naive_date_add_days, naive_datetime_from_str, parse_naive_datetime, parse_with_dateparser,
    zone_in_range, DateTime,
};
use crate::text::{trim, trim_spec};

verus! {

/// Values that can be compared and copied by their view, so that duplicates can be found.
pub trait Comparable: View + Sized {
    fn same_as(&self, other: &Self) -> (r: bool)
        ensures
            r == (self@ == other@),
    ;

    fn copy_value(&self) -> (r: Self)
        ensures
            r@ == self@,
    ;
}

impl Comparable for String {
    fn same_as(&self, other: &Self) -> (r: bool) {
        *self == *other
    }

    fn copy_value(&self) -> (r: Self) {
        self.clone()
    }
}

impl<'a> Comparable for &'a str {
    fn same_as(&self, other: &Self) -> (r: bool) {
        let a = (*self).to_owned();
        let b = (*other).to_owned();
        a == b
    }

    fn copy_value(&self) -> (r: Self) {
        *self
    }
}

impl Comparable for i32 {
    fn same_as(&self, other: &Self) -> (r: bool) {
        *self == *other
    }

    fn copy_value(&self) -> (r: Self) {
        *self
    }
}

impl Comparable for u64 {
    fn same_as(&self, other: &Self) -> (r: bool) {
        *self == *other
    }

    fn copy_value(&self) -> (r: Self) {
        *self
    }
}

/// The views of a sequence of values.
pub open spec fn views<T: View>(s: Seq<T>) -> Seq<T::V> {
    s.map_values(|x: T| x@)
}

/// The values that occur more than once in `s`, each listed once, in the order in which their
/// second occurrence appears.
pub open spec fn duplicates_spec<V>(s: Seq<V>) -> Seq<V>
    decreases s.len(),
{
    if s.len() == 0 {
        seq![]
    } else {
        let prev = s.drop_last();
        let d = duplicates_spec(prev);
        if prev.contains(s.last()) && !d.contains(s.last()) {
            d.push(s.last())
        } else {
            d
        }
    }
}

/// `v` occurs at two different positions of `s`.
pub open spec fn occurs_twice<V>(s: Seq<V>, v: V) -> bool {
    exists|i: int, j: int| 0 <= i < j < s.len() && s[i] == v && s[j] == v
}

/// A value is reported as a duplicate exactly when it occurs at two positions.
pub proof fn lemma_duplicates_are_repeated<V>(s: Seq<V>, v: V)
    ensures
        duplicates_spec(s).contains(v) <==> occurs_twice(s, v),
    decreases s.len(),
{
    if s.len() > 0 {
        let prev = s.drop_last();
        let x = s.last();
        let d = duplicates_spec(prev);
        lemma_duplicates_are_repeated(prev, v);
        if occurs_twice(prev, v) {
            let (i, j) = choose|i: int, j: int|
                0 <= i < j < prev.len() && prev[i] == v && prev[j] == v;
            assert(s[i] == v && s[j] == v);
        }
        if occurs_twice(s, v) {
            let (i, j) = choose|i: int, j: int| 0 <= i < j < s.len() && s[i] == v && s[j] == v;
            if j < s.len() - 1 {
                assert(prev[i] == v && prev[j] == v);
            } else {
                assert(prev[i] == v);
                assert(prev.contains(v));
            }
        }
        if v == x && prev.contains(v) {
            let i = choose|i: int| 0 <= i < prev.len() && prev[i] == v;
            assert(s[i] == v && s[s.len() - 1] == v);
        }
        assert(occurs_twice(s, v) <==> (occurs_twice(prev, v) || (v == x && prev.contains(x))));
        if prev.contains(x) && !d.contains(x) {
            if d.push(x).contains(v) {
                let k = choose|k: int| 0 <= k < d.push(x).len() && d.push(x)[k] == v;
                if k < d.len() {
                    assert(d[k] == v);
                }
            }
            if d.contains(v) {
                let k = choose|k: int| 0 <= k < d.len() && d[k] == v;
                assert(d.push(x)[k] == v);
            }
            if v == x {
                assert(d.push(x)[d.len() as int] == x);
            }
        }
    }
}

/// No value is reported twice.
pub proof fn lemma_duplicates_listed_once<V>(s: Seq<V>)
    ensures
        duplicates_spec(s).no_duplicates(),
    decreases s.len(),
{
    if s.len() > 0 {
        lemma_duplicates_listed_once(s.drop_last());
        let d = duplicates_spec(s.drop_last());
        if s.drop_last().contains(s.last()) && !d.contains(s.last()) {
            assert forall|i: int, j: int|
                0 <= i < d.push(s.last()).len() && 0 <= j < d.push(s.last()).len() && i != j
                implies d.push(s.last())[i] != d.push(s.last())[j] by {
                if i < d.len() && j < d.len() {
                } else if i == d.len() {
                    assert(d[j] == d.push(s.last())[j]);
                } else {
                    assert(d[i] == d.push(s.last())[i]);
                }
            }
        }
    }
}

/// True when `x` equals one of the first `upto` values of `v`.
fn contains_before<T: Comparable>(v: &[T], upto: usize, x: &T) -> (r: bool)
    requires
        upto <= v@.len(),
    ensures
        r == views(v@).take(upto as int).contains(x@),
{
    let mut k: usize = 0;
    while k < upto
        invariant
            upto <= v@.len(),
            k <= upto,
            forall|m: int| 0 <= m < k ==> v@[m]@ != x@,
        decreases upto - k,
    {
        if v[k].same_as(x) {
            proof {
                assert(views(v@).take(upto as int)[k as int] == x@);
            }
            return true;
        }
        k = k + 1;
    }
    proof {
        if views(v@).take(upto as int).contains(x@) {
            let m = choose|m: int| 0 <= m < upto && views(v@).take(upto as int)[m] == x@;
            assert(v@[m]@ == x@);
        }
    }
    false
}

/// True when `x` equals one of the values of `v`.
pub fn contains_value<T: Comparable>(v: &[T], x: &T) -> (r: bool)
    ensures
        r == views(v@).contains(x@),
{
    let r = contains_before(v, v.len(), x);
    proof {
        assert(views(v@).take(v@.len() as int) =~= views(v@));
    }
    r
}

/// The values that occur more than once in `data`, each listed once (in the order in which
/// their second occurrence appears).
pub fn get_duplicates<T: Comparable>(data: &[T]) -> (r: Vec<T>)
    ensures
        views(r@) == duplicates_spec(views(data@)),
{
    let mut result: Vec<T> = Vec::new();
    let n = data.len();
    for i in 0..n
        invariant
            n == data@.len(),
            views(result@) == duplicates_spec(views(data@).take(i as int)),
    {
        let ghost before = views(data@).take(i as int);
        let ghost after = views(data@).take(i + 1);
        proof {
            assert(after.drop_last() =~= before);
            assert(after.last() == data@[i as int]@);
        }
        let seen = contains_before(data, i, &data[i]);
        let listed = contains_before(result.as_slice(), result.len(), &data[i]);
        proof {
            assert(views(result@).take(result@.len() as int) =~= views(result@));
        }
        if seen && !listed {
            let c = data[i].copy_value();
            result.push(c);
            proof {
                assert(views(result@) =~= duplicates_spec(before).push(data@[i as int]@));
            }
        }
    }
    proof {
        assert(views(data@).take(n as int) =~= views(data@));
    }
    result
}


/// The chrono formats tried, in order, for date text that dateparser does not read.
pub open spec fn fallback_formats() -> Seq<Seq<char>> {
    seq![
        "%Y-%m-%dT%H:%M:%S"@,
        "%Y-%m-%dT%H:%M:%S%.f"@,
        "%Y-%m-%d %H:%M:%S"@,
        "%Y-%m-%d %H:%M:%S%.f"@,
    ]
}

/// What the first of `formats` that chrono accepts reads from `t`.
pub open spec fn first_format_match(t: Seq<char>, formats: Seq<Seq<char>>) -> Option<DateTime>
    decreases formats.len(),
{
    if formats.len() == 0 {
        None
    } else {
        match naive_datetime_from_str(t, formats[0]) {
            Some(d) => Some(d),
            None => first_format_match(t, formats.drop_first()),
        }
    }
}

/// The date read from trimmed text `t`: what dateparser read (`words`), else what the first
/// fallback format reads.
pub open spec fn date_from_parts(t: Seq<char>, words: Option<DateTime>) -> Option<DateTime> {
    match words {
        Some(d) => Some(d),
        None => first_format_match(t, fallback_formats()),
    }
}

/// The date read from text `t`: what dateparser read when it read something; otherwise chrono
/// tries `%Y-%m-%dT%H:%M:%S`, `%Y-%m-%dT%H:%M:%S%.f`, `%Y-%m-%d %H:%M:%S` and
/// `%Y-%m-%d %H:%M:%S%.f` in that order and the first reading wins; nothing when none reads.
pub proof fn lemma_date_from_parts_formats(t: Seq<char>, words: Option<DateTime>)
    ensures
        words matches Some(d) ==> date_from_parts(t, words) == Some(d),
        words is None ==> date_from_parts(t, words) == (
        match naive_datetime_from_str(t, "%Y-%m-%dT%H:%M:%S"@) {
            Some(d) => Some(d),
            None => match naive_datetime_from_str(t, "%Y-%m-%dT%H:%M:%S%.f"@) {
                Some(d) => Some(d),
                None => match naive_datetime_from_str(t, "%Y-%m-%d %H:%M:%S"@) {
                    Some(d) => Some(d),
                    None => match naive_datetime_from_str(t, "%Y-%m-%d %H:%M:%S%.f"@) {
                        Some(d) => Some(d),
                        None => None,
                    },
                },
            },
        }),
{
    let f = fallback_formats();
    reveal_with_fuel(first_format_match, 5);
    assert(f.drop_first()[0] == "%Y-%m-%dT%H:%M:%S%.f"@);
    assert(f.drop_first().drop_first()[0] == "%Y-%m-%d %H:%M:%S"@);
    assert(f.drop_first().drop_first().drop_first()[0] == "%Y-%m-%d %H:%M:%S%.f"@);
    assert(f.drop_first().drop_first().drop_first().drop_first().len() == 0);
}

/// The date in `input` (trimmed), given what dateparser read from it: that, or else the first
/// of the naive ISO 8601 formats (with `T` or a space, with or without fractional seconds)
/// that reads it.
pub fn parse_date_with(input: &str, words: Option<DateTime>) -> (r: Option<DateTime>)
    ensures
        r == date_from_parts(trim_spec(input@), words),
{
    if let Some(d) = words {
        return Some(d);
    }
    let t = trim(input);
    let ghost f = fallback_formats();
    proof {
        reveal_with_fuel(first_format_match, 5);
        assert(f.drop_first()[0] == "%Y-%m-%dT%H:%M:%S%.f"@);
        assert(f.drop_first().drop_first()[0] == "%Y-%m-%d %H:%M:%S"@);
        assert(f.drop_first().drop_first().drop_first()[0] == "%Y-%m-%d %H:%M:%S%.f"@);
        assert(f.drop_first().drop_first().drop_first().drop_first().len() == 0);
    }
    if let Some(d) = parse_naive_datetime(t.as_str(), "%Y-%m-%dT%H:%M:%S") {
        return Some(d);
    }
    if let Some(d) = parse_naive_datetime(t.as_str(), "%Y-%m-%dT%H:%M:%S%.f") {
        return Some(d);
    }
    if let Some(d) = parse_naive_datetime(t.as_str(), "%Y-%m-%d %H:%M:%S") {
        return Some(d);
    }
    if let Some(d) = parse_naive_datetime(t.as_str(), "%Y-%m-%d %H:%M:%S%.f") {
        return Some(d);
    }
    None
}

/// The date in `input` (trimmed) read by dateparser, else by the first naive ISO 8601 format
/// that reads it. Dateparser is asked to read the trimmed text with text that names no offset
/// read at UTC (offset 0) and a date without a time read at midnight (0:00:00). What
/// dateparser reads can depend on the current date, so the result is only known to follow
/// from one of its possible readings.
pub fn parse_date_text(input: &str) -> (r: Option<DateTime>)
    requires
        !ends_in_large_zone(trim_spec(input@)),
    ensures
        exists|words: Option<DateTime>|
            dateparser_reading(trim_spec(input@), 0, 0, 0, 0, words) && r == date_from_parts(
                trim_spec(input@),
                words,
            ),
{
    let t = trim(input);
    let words = parse_with_dateparser(t.as_str(), 0, 0, 0, 0);
    let r = parse_date_with(input, words);
    proof {
        assert(dateparser_reading(trim_spec(input@), 0, 0, 0, 0, words));
        assert(r == date_from_parts(trim_spec(input@), words));
    }
    r
}

/// True when `parse_date_text` can read `input`: its trimmed text does not end in a zone
/// offset field of 24 hours or more.
pub fn date_text_readable(input: &str) -> (r: bool)
    ensures
        r == !ends_in_large_zone(trim_spec(input@)),
{
    let t = trim(input);
    zone_in_range(t.as_str())
}

/// The day offset from 1900-01-01 of spreadsheet serial day `days`: serial day 1 is
/// 1900-01-01, and from day 60 on one more day is skipped for the 1900-02-29 that the
/// spreadsheet counts but the calendar lacks.
pub open spec fn serial_day_offset(days: int) -> int {
    if days >= 60 {
        days - 2
    } else {
        days - 1
    }
}

/// The date-time of spreadsheet serial day `days` at `total_seconds` seconds after midnight:
/// `None` when chrono has no such date or the seconds reach a full day.
pub open spec fn serial_date_spec(days: i64, total_seconds: u32) -> Option<DateTime> {
    match naive_date_add_days(1900, 1, 1, serial_day_offset(days as int) as i64) {
        None => None,
        Some((year, month, day)) => if total_seconds / 3600 < 24 {
            Some(
                DateTime {
                    year,
                    month,
                    day,
                    hour: total_seconds / 3600,
                    minute: (total_seconds % 3600) / 60,
                    second: total_seconds % 60,
                    nanosecond: 0,
                },
            )
        } else {
            None
        },
    }
}

/// The serial day numbers that the date arithmetic can take without panicking.
pub open spec fn serial_days_in_range(days: i64) -> bool {
    -max_delta_days() <= serial_day_offset(days as int) <= max_delta_days()
}

/// True when the date arithmetic can take serial day `days` without panicking.
pub fn serial_days_ok(days: i64) -> (r: bool)
    ensures
        r == serial_days_in_range(days),
{
    if days >= 60 {
        days <= 106_751_991_169
    } else {
        days >= -106_751_991_166
    }
}

/// The date-time of a spreadsheet serial number, given as its whole days and the seconds of
/// its fraction of a day (rounded).
pub fn serial_date(days: i64, total_seconds: u32) -> (r: Option<DateTime>)
    requires
        serial_days_in_range(days),
    ensures
        r == serial_date_spec(days, total_seconds),
{
    let adjusted = if days >= 60 {
        days - 2
    } else {
        days - 1
    };
    let (year, month, day) = add_days_to_date(1900, 1, 1, adjusted)?;
    let hour = total_seconds / 3600;
    let minute = (total_seconds % 3600) / 60;
    let second = total_seconds % 60;
    if hour >= 24 {
        return None;
    }
    Some(DateTime { year, month, day, hour, minute, second, nanosecond: 0 })
}

/// The date in `input`. `serial` says whether the trimmed input reads as a number and, if so,
/// its whole days and the seconds of its fraction of a day (rounded); a number is always taken
/// as a spreadsheet serial date. Other text is read as by `parse_date_text`.
pub fn parse_date(input: &str, serial: Option<(i64, u32)>) -> (r: Option<DateTime>)
    requires
        serial matches Some((days, _)) ==> serial_days_in_range(days),
        serial is None ==> !ends_in_large_zone(trim_spec(input@)),
    ensures
        serial matches Some((days, seconds)) ==> r == serial_date_spec(days, seconds),
        serial is None ==> exists|words: Option<DateTime>|
            dateparser_reading(trim_spec(input@), 0, 0, 0, 0, words) && r == date_from_parts(
                trim_spec(input@),
                words,
            ),
{
    match serial {
        Some((days, seconds)) => serial_date(days, seconds),
        None => parse_date_text(input),
    }
}

} // verus!
