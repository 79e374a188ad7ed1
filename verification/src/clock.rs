//! Calendar and clock, from `chrono`.
//!
//! Times are "wall-clock seconds": Korean local time counted as if it were UTC, so that a chart that
//! renders UTC shows Korean time. Korea has no daylight saving, so the two differ by nine hours.

use chrono::Timelike;
use vstd::prelude::*;

use crate::util::second_of_day;

verus! {

/// First second of the calendar: midnight of the first day of the year -262143.
pub const MIN_TIMESTAMP: i64 = -8_334_601_228_800;

/// Last second of the calendar: the end of the year 262142.
pub const MAX_TIMESTAMP: i64 = 8_210_266_876_799;

pub open spec fn on_calendar(at: int) -> bool {
    MIN_TIMESTAMP <= at <= MAX_TIMESTAMP
}

/// Midnight of the day on which a time lies.
pub open spec fn midnight(at: int) -> int {
    at - second_of_day(at)
}

/// `chrono::DateTime::from_timestamp` with no nanoseconds, then `num_seconds_from_midnight`.
///
/// Claimed: a time is on the calendar from the first second of the year -262143 to the last of the
/// year 262142, and its second of the day is its remainder by the length of a day, which is the same
/// for every day.
#[verifier::external_body]
fn timestamp_second(at: i64) -> (second: Option<u32>)
    ensures
        match second {
            Some(s) => on_calendar(at as int) && s == second_of_day(at as int),
            None => !on_calendar(at as int),
        },
{
    chrono::DateTime::from_timestamp(at, 0).map(|t| t.naive_utc().num_seconds_from_midnight())
}

/// Midnight and second of the day of a time on the calendar.
pub fn split_day(at: i64) -> (parts: Option<(i64, i64)>)
    ensures
        match parts {
            Some((day, second)) => {
                &&& on_calendar(at as int)
                &&& day == midnight(at as int)
                &&& second == second_of_day(at as int)
                &&& at == day + second
                &&& 0 <= second < 86_400
                &&& on_calendar(day as int)
                &&& on_calendar(day + 86_399)
            },
            None => !on_calendar(at as int),
        },
{
    match timestamp_second(at) {
        Some(second) => {
            let second: i64 = second as i64;
            Some((at - second, second))
        },
        None => None,
    }
}

/// The midnight that `chrono::NaiveDate::parse_from_str` with `%Y%m%d` reads from a text, in
/// seconds of the calendar.
pub uninterp spec fn parsed_date(text: Seq<char>) -> Option<i64>;

/// `chrono::NaiveDate::parse_from_str` with `%Y%m%d`, then the timestamp of that day's midnight.
///
/// Claimed: the result depends on the text alone, and is a midnight on the calendar.
#[verifier::external_body]
fn parse_date(text: &str) -> (day: Option<i64>)
    ensures
        day == parsed_date(text@),
        day is Some ==> on_calendar(day->0 as int) && second_of_day(day->0 as int) == 0,
{
    let date = chrono::NaiveDate::parse_from_str(text, "%Y%m%d").ok()?;
    Some(date.and_time(chrono::NaiveTime::MIN).and_utc().timestamp())
}

/// Whether a text is a date written `YYYYMMDD`.
pub fn is_date(text: &str) -> (yes: bool)
    ensures
        yes == (parsed_date(text@) is Some),
{
    parse_date(text).is_some()
}

/// The second of the day, and the nanoseconds into it, that `chrono::NaiveTime::parse_from_str` with
/// `%H%M%S` reads from a text. A second written `60` is the one before with a whole second into it.
pub uninterp spec fn parsed_time(text: Seq<char>) -> Option<(u32, u32)>;

/// `chrono::NaiveTime::parse_from_str` with `%H%M%S`, then `num_seconds_from_midnight` and
/// `nanosecond`.
///
/// Claimed: the result depends on the text alone, and is of a second of a day.
#[verifier::external_body]
fn parse_time(text: &str) -> (time: Option<(u32, u32)>)
    ensures
        time == parsed_time(text@),
        time is Some ==> (time->0).0 < 86_400,
{
    let time = chrono::NaiveTime::parse_from_str(text, "%H%M%S").ok()?;
    Some((time.num_seconds_from_midnight(), time.nanosecond()))
}

/// Reads a time written `HHMMSS`: the second of the day, and the nanoseconds into it.
pub fn parse_clock(text: &str) -> (time: Option<(u32, u32)>)
    ensures
        time == parsed_time(text@),
        time is Some ==> (time->0).0 < 86_400,
{
    parse_time(text)
}

/// Seconds of the given day and time, where both were readable.
pub open spec fn joined(day: Option<i64>, time: Option<(u32, u32)>) -> Option<i64> {
    match (day, time) {
        (Some(d), Some((second, _))) => Some((d + second) as i64),
        _ => None,
    }
}

/// Joins a midnight and a time of the day.
pub fn join_day(day: Option<i64>, time: Option<(u32, u32)>) -> (at: Option<i64>)
    requires
        day is Some && time is Some ==> day->0 + (time->0).0 <= i64::MAX,
    ensures
        at == joined(day, time),
{
    match (day, time) {
        (Some(day), Some((second, _))) => Some(day + second as i64),
        _ => None,
    }
}

/// Wall-clock seconds of a date written `YYYYMMDD` and a time written `HHMMSS`.
pub fn kst_str_to_fake_epoch(date: &str, time: &str) -> (at: Option<i64>)
    ensures
        at == joined(parsed_date(date@), parsed_time(time@)),
        at is Some ==> on_calendar(at->0 as int),
{
    let day = match parse_date(date) {
        Some(day) => day,
        None => return None,
    };
    let time = parse_time(time);
    let ghost end = day as int;
    assert(second_of_day(end) == 0 ==> on_calendar(end) ==> end + 86_399 <= MAX_TIMESTAMP);
    join_day(Some(day), time)
}

/// The `YYYYMMDD` that `chrono` writes for a time, by `%Y%m%d`.
pub uninterp spec fn written_date(at: int) -> Seq<char>;

/// `chrono::DateTime::from_timestamp`, then `format` with `%Y%m%d`.
///
/// Claimed: a time on the calendar has a text that depends on the time alone.
#[verifier::external_body]
fn write_date(at: i64) -> (text: Option<String>)
    ensures
        match text {
            Some(t) => on_calendar(at as int) && t@ == written_date(at as int),
            None => !on_calendar(at as int),
        },
{
    chrono::DateTime::from_timestamp(at, 0).map(|t| t.naive_utc().format("%Y%m%d").to_string())
}

/// The trading date of a wall-clock time, written `YYYYMMDD`.
pub fn date_text(at: i64) -> (text: Option<String>)
    ensures
        match text {
            Some(t) => on_calendar(at as int) && t@ == written_date(at as int),
            None => !on_calendar(at as int),
        },
{
    write_date(at)
}

/// `chrono::Utc::now`, as a timestamp.
///
/// Claimed: the time is on the calendar. Which time it is depends on the clock.
#[verifier::external_body]
fn utc_now() -> (at: i64)
    ensures
        on_calendar(at as int),
{
    chrono::Utc::now().timestamp()
}

/// Wall-clock seconds of a time in UTC.
pub fn to_kst(utc: i64) -> (at: i64)
    requires
        on_calendar(utc as int),
    ensures
        at == utc + 32_400,
{
    utc + 32_400
}

/// The present wall-clock time. It depends on the machine's clock, and lies nine hours after a time
/// on the calendar.
pub fn now_kst_fake_epoch() -> (at: i64)
    ensures
        on_calendar(at - 32_400),
{
    to_kst(utc_now())
}

/// A time is its midnight and the second of its day, and a day and a time of it are joined by adding
/// them; a leap second counts as the second before it.
pub proof fn time_is_of_its_day(day: i64, second: u32, nanos: u32, at: int)
    requires
        0 <= day <= MAX_TIMESTAMP,
        second < 86_400,
    ensures
        joined(Some(day), Some((second, nanos))) == Some((day + second) as i64),
        day + second <= i64::MAX,
        joined(None, Some((second, nanos))) is None,
        joined(Some(day), None) is None,
        midnight(at) <= at < midnight(at) + 86_400,
        midnight(at) % 86_400 == 0,
        day % 86_400 == 0 ==> midnight(day + second) == day,
{
}

} // verus!
