//! Dates, times and durations in the shapes ISO 8601 gives them, read with
//! the `iso8601` crate, and the calendar arithmetic done on them.
use crate::text::str_chars;
use chrono::{Datelike, Timelike};
use std::cmp::Ordering;
use vstd::prelude::*;

verus! {

/// A calendar date: year, month and day; year, week and weekday; or year
/// and day of the year.
#[derive(Clone, Copy, PartialEq, Eq, Debug, Structural)]
pub enum Date {
    YMD { year: i32, month: u32, day: u32 },
    Week { year: i32, ww: u32, d: u32 },
    Ordinal { year: i32, ddd: u32 },
}

/// A time of day with its offset from UTC.
#[derive(Clone, Copy, PartialEq, Eq, Debug, Structural)]
pub struct Time {
    pub hour: u32,
    pub minute: u32,
    pub second: u32,
    pub millisecond: u32,
    pub tz_offset_hours: i32,
    pub tz_offset_minutes: i32,
}

#[derive(Clone, Copy, PartialEq, Eq, Debug, Structural)]
pub struct DateTime {
    pub date: Date,
    pub time: Time,
}

/// A duration in calendar and clock units, or in weeks.
#[derive(Clone, Copy, PartialEq, Eq, Debug, Structural)]
pub enum Duration {
    YMDHMS {
        year: u32,
        month: u32,
        day: u32,
        hour: u32,
        minute: u32,
        second: u32,
        millisecond: u32,
    },
    Weeks(u32),
}

/// A temporal literal: a date and time, a date, a time or a duration.
#[derive(Clone, Copy, PartialEq, Eq, Debug, Structural)]
pub enum Temporal {
    DateTime(DateTime),
    Date(Date),
    Time(Time),
    Duration(Duration),
}

/// What `iso8601::datetime` reads from a text, where it reads one.
pub uninterp spec fn iso_datetime(s: Seq<char>) -> Option<DateTime>;

/// What `iso8601::date` reads from a text, where it reads one.
pub uninterp spec fn iso_date(s: Seq<char>) -> Option<Date>;

/// What `iso8601::time` reads from a text, where it reads one.
pub uninterp spec fn iso_time(s: Seq<char>) -> Option<Time>;

/// What `iso8601::duration` reads from a text, where it reads one.
pub uninterp spec fn iso_duration(s: Seq<char>) -> Option<Duration>;

/// Calls `iso8601::datetime`; its result, field for field, is named
/// `iso_datetime` of the text, and `None` stands for its error.
#[verifier::external_body]
fn read_iso_datetime(s: &str) -> (r: Option<DateTime>)
    ensures
        r == iso_datetime(s@),
{
    match iso8601::datetime(s) {
        Ok(iso8601::DateTime { date, time: t }) => Some(DateTime {
            date: match date {
                iso8601::Date::YMD { year, month, day } => Date::YMD { year, month, day },
                iso8601::Date::Week { year, ww, d } => Date::Week { year, ww, d },
                iso8601::Date::Ordinal { year, ddd } => Date::Ordinal { year, ddd },
            },
            time: Time { hour: t.hour, minute: t.minute, second: t.second,
                millisecond: t.millisecond, tz_offset_hours: t.tz_offset_hours,
                tz_offset_minutes: t.tz_offset_minutes },
        }),
        Err(_) => None,
    }
}

/// Calls `iso8601::date`; its result is named `iso_date` of the text.
#[verifier::external_body]
fn read_iso_date(s: &str) -> (r: Option<Date>)
    ensures
        r == iso_date(s@),
{
    match iso8601::date(s) {
        Ok(iso8601::Date::YMD { year, month, day }) => Some(Date::YMD { year, month, day }),
        Ok(iso8601::Date::Week { year, ww, d }) => Some(Date::Week { year, ww, d }),
        Ok(iso8601::Date::Ordinal { year, ddd }) => Some(Date::Ordinal { year, ddd }),
        Err(_) => None,
    }
}

/// Calls `iso8601::time`; its result is named `iso_time` of the text.
#[verifier::external_body]
fn read_iso_time(s: &str) -> (r: Option<Time>)
    ensures
        r == iso_time(s@),
{
    match iso8601::time(s) {
        Ok(t) => Some(Time { hour: t.hour, minute: t.minute, second: t.second,
            millisecond: t.millisecond, tz_offset_hours: t.tz_offset_hours,
            tz_offset_minutes: t.tz_offset_minutes }),
        Err(_) => None,
    }
}

/// Calls `iso8601::duration`; its result is named `iso_duration` of the
/// text.
#[verifier::external_body]
fn read_iso_duration(s: &str) -> (r: Option<Duration>)
    ensures
        r == iso_duration(s@),
{
    match iso8601::duration(s) {
        Ok(iso8601::Duration::YMDHMS { year, month, day, hour, minute, second, millisecond }) =>
            Some(Duration::YMDHMS { year, month, day, hour, minute, second, millisecond }),
        Ok(iso8601::Duration::Weeks(w)) => Some(Duration::Weeks(w)),
        Err(_) => None,
    }
}

/// The text of a temporal literal: `s` itself, or what stands between
/// `@"` and the last character where `s` starts with `@`.
pub open spec fn temporal_body(s: Seq<char>) -> Seq<char> {
    if s.len() > 0 && s[0] == '@' {
        s.subrange(2, s.len() - 1)
    } else {
        s
    }
}

/// Reads a temporal from its text, trying in turn a date and time, a date, a
/// time and a duration.
pub open spec fn temporal_of(t: Seq<char>) -> Result<Temporal, Seq<char>> {
    match iso_datetime(t) {
        Some(dt) => Ok(Temporal::DateTime(dt)),
        None => match iso_date(t) {
            Some(d) => Ok(Temporal::Date(d)),
            None => match iso_time(t) {
                Some(tm) => Ok(Temporal::Time(tm)),
                None => match iso_duration(t) {
                    Some(du) => Ok(Temporal::Duration(du)),
                    None => Err("fail to parse temporal value"@),
                },
            },
        },
    }
}

/// Reads a temporal text already stripped of its `@"` and `"`.
pub fn temporal_from_text(t: &str) -> (r: Result<Temporal, String>)
    ensures
        match temporal_of(t@) {
            Ok(v) => r == Ok::<Temporal, String>(v),
            Err(m) => r matches Err(e) && e@ == m,
        },
{
    if let Some(dt) = read_iso_datetime(t) {
        Ok(Temporal::DateTime(dt))
    } else if let Some(d) = read_iso_date(t) {
        Ok(Temporal::Date(d))
    } else if let Some(tm) = read_iso_time(t) {
        Ok(Temporal::Time(tm))
    } else if let Some(du) = read_iso_duration(t) {
        Ok(Temporal::Duration(du))
    } else {
        Err("fail to parse temporal value".to_owned())
    }
}

/// Reads a temporal literal, written `@"..."` or bare.
pub fn parse_temporal(temp_str: &str) -> (r: Result<Temporal, String>)
    requires
        temp_str@.len() > 0 && temp_str@[0] == '@' ==> temp_str@.len() >= 3,
    ensures
        match temporal_of(temporal_body(temp_str@)) {
            Ok(v) => r == Ok::<Temporal, String>(v),
            Err(m) => r matches Err(e) && e@ == m,
        },
{
    let v = str_chars(temp_str);
    if v.len() > 0 && v[0] == '@' {
        let inner = crate::text::string_from_chars(&v, 2, v.len() - 1);
        temporal_from_text(inner.as_str())
    } else {
        temporal_from_text(temp_str)
    }
}

/// The remainder and the quotient of `v` by `max_value`.
pub fn mod_div(v: u32, max_value: u32) -> (r: (u32, u32))
    requires
        max_value > 0,
    ensures
        r == ((v % max_value) as u32, (v / max_value) as u32),
{
    (v % max_value, v / max_value)
}

/// Whether each carry step of `datetime_add` fits in a `u32`.
pub open spec fn add_fits(dt: DateTime, dur: Duration) -> bool {
    match (dt.date, dur) {
        (
            Date::YMD { year: y, month: mo, day: d },
            Duration::YMDHMS { year, month, day, hour, minute, second, millisecond },
        ) => {
            let t = dt.time;
            let ms = t.millisecond + millisecond;
            let s = t.second + second + ms / 1000;
            let mi = t.minute + minute + s / 60;
            let h = t.hour + hour + mi / 60;
            let dd = d + day + h / 24;
            let mm = mo + month + dd / 30;
            &&& ms <= u32::MAX
            &&& s <= u32::MAX
            &&& mi <= u32::MAX
            &&& h <= u32::MAX
            &&& dd <= u32::MAX
            &&& mm <= u32::MAX
            &&& (y as u32) + year + mm / 12 <= u32::MAX
        },
        _ => true,
    }
}

/// Adds a duration to a date and time by carrying each unit into the next:
/// 1000 milliseconds a second, 60 seconds a minute, 60 minutes an hour, 24
/// hours a day, 30 days a month, 12 months a year.
pub open spec fn datetime_add_spec(dt: DateTime, dur: Duration) -> Result<DateTime, Seq<char>> {
    match (dt.date, dur) {
        (
            Date::YMD { year: y, month: mo, day: d },
            Duration::YMDHMS { year, month, day, hour, minute, second, millisecond },
        ) => {
            let t = dt.time;
            let ms = t.millisecond + millisecond;
            let s = t.second + second + ms / 1000;
            let mi = t.minute + minute + s / 60;
            let h = t.hour + hour + mi / 60;
            let dd = d + day + h / 24;
            let mm = mo + month + dd / 30;
            let ry = (y as u32) + year + mm / 12;
            Ok(
                DateTime {
                    time: Time {
                        millisecond: (ms % 1000) as u32,
                        second: (s % 60) as u32,
                        minute: (mi % 60) as u32,
                        hour: (h % 24) as u32,
                        tz_offset_hours: t.tz_offset_hours,
                        tz_offset_minutes: t.tz_offset_minutes,
                    },
                    date: Date::YMD { year: ry as i32, month: (mm % 12) as u32, day: (dd % 30) as u32 },
                },
            )
        },
        _ => Err("fail to add temporal value"@),
    }
}

/// The milliseconds of a clock reading.
pub open spec fn clock_ms(h: int, mi: int, s: int, ms: int) -> int {
    ((h * 60 + mi) * 60 + s) * 1000 + ms
}

/// The milliseconds a year-month-day date and time counts from year 0, in
/// the calendar `datetime_add` carries by: 12 months of 30 days.
pub open spec fn elapsed_ms(dt: DateTime) -> int {
    match dt.date {
        Date::YMD { year, month, day } => ((year * 12 + month) * 30 + day) * 86400000 + clock_ms(
            dt.time.hour as int,
            dt.time.minute as int,
            dt.time.second as int,
            dt.time.millisecond as int,
        ),
        _ => 0,
    }
}

/// The milliseconds a duration counts, in the same calendar.
pub open spec fn duration_ms(d: Duration) -> int {
    match d {
        Duration::YMDHMS { year, month, day, hour, minute, second, millisecond } => ((year * 12
            + month) * 30 + day) * 86400000 + clock_ms(
            hour as int,
            minute as int,
            second as int,
            millisecond as int,
        ),
        Duration::Weeks(w) => w * 604800000,
    }
}

/// Adding a duration to a date and time adds its length: the result counts
/// the start's milliseconds plus the duration's, with every field within
/// its range (milliseconds below 1000, seconds and minutes below 60, hours
/// below 24, days below 30, months below 12) and the offset kept.  So each
/// unit that overflows carries into the next.
pub proof fn law_add_keeps_elapsed_time(dt: DateTime, dur: Duration)
    requires
        dt.date is YMD,
        dur is YMDHMS,
        add_fits(dt, dur),
        dt.date->YMD_year >= 0,
        elapsed_ms(dt) + duration_ms(dur) < 2147483648 * 31104000000,
    ensures
        datetime_add_spec(dt, dur) matches Ok(r) && elapsed_ms(r) == elapsed_ms(dt) + duration_ms(dur)
            && r.time.millisecond < 1000 && r.time.second < 60 && r.time.minute < 60 && r.time.hour
            < 24 && (r.date matches Date::YMD { month, day, .. } && month < 12 && day < 30)
            && r.time.tz_offset_hours == dt.time.tz_offset_hours && r.time.tz_offset_minutes
            == dt.time.tz_offset_minutes,
{
    match (dt.date, dur) {
        (
            Date::YMD { year: y, month: mo, day: d },
            Duration::YMDHMS { year, month, day, hour, minute, second, millisecond },
        ) => {
            let t = dt.time;
            let ms: int = t.millisecond + millisecond;
            let s: int = t.second + second + ms / 1000;
            let mi: int = t.minute + minute + s / 60;
            let h: int = t.hour + hour + mi / 60;
            let dd: int = d + day + h / 24;
            let mm: int = mo + month + dd / 30;
            let yu: int = y as int;
            let ry: int = yu + year + mm / 12;
            vstd::arithmetic::div_mod::lemma_fundamental_div_mod(ms, 1000);
            vstd::arithmetic::div_mod::lemma_fundamental_div_mod(s, 60);
            vstd::arithmetic::div_mod::lemma_fundamental_div_mod(mi, 60);
            vstd::arithmetic::div_mod::lemma_fundamental_div_mod(h, 24);
            vstd::arithmetic::div_mod::lemma_fundamental_div_mod(dd, 30);
            vstd::arithmetic::div_mod::lemma_fundamental_div_mod(mm, 12);
            let total = elapsed_ms(dt) + duration_ms(dur);
            let rest = (((mm % 12) * 30 + dd % 30) * 86400000) + clock_ms(
                h % 24,
                mi % 60,
                s % 60,
                ms % 1000,
            );
            assert(total == ry * 31104000000 + rest);
            assert(0 <= rest < 31104000000);
            assert(0 <= ry < 2147483648);
        },
        _ => {},
    }
}

pub fn datetime_add(dt: DateTime, dur: Duration) -> (r: Result<DateTime, String>)
    requires
        add_fits(dt, dur),
    ensures
        match datetime_add_spec(dt, dur) {
            Ok(v) => r == Ok::<DateTime, String>(v),
            Err(m) => r matches Err(e) && e@ == m,
        },
{
    if let Date::YMD { year: dt_year, month: dt_month, day: dt_day } = dt.date {
        if let Duration::YMDHMS { year, month, day, hour, minute, second, millisecond } = dur {
            let (r_millisecond, rem) = mod_div(dt.time.millisecond + millisecond, 1000);
            let (r_second, rem) = mod_div(dt.time.second + second + rem, 60);
            let (r_minute, rem) = mod_div(dt.time.minute + minute + rem, 60);
            let (r_hour, rem) = mod_div(dt.time.hour + hour + rem, 24);
            let (r_day, rem) = mod_div(dt_day + day + rem, 30);
            let (r_month, rem) = mod_div(dt_month + month + rem, 12);
            let r_year = (dt_year as u32) + year + rem;
            return Ok(
                DateTime {
                    time: Time {
                        millisecond: r_millisecond,
                        second: r_second,
                        minute: r_minute,
                        hour: r_hour,
                        tz_offset_hours: dt.time.tz_offset_hours,
                        tz_offset_minutes: dt.time.tz_offset_minutes,
                    },
                    date: Date::YMD { year: r_year as i32, month: r_month, day: r_day },
                },
            );
        }
    }
    Err("fail to add temporal value".to_owned())
}

/// The offset of a time from UTC in seconds, where it fits an `i32`.
pub open spec fn offset_secs(t: Time) -> Option<i32> {
    let o = t.tz_offset_hours * 3600 + t.tz_offset_minutes * 60;
    if i32::MIN <= o <= i32::MAX {
        Some(o as i32)
    } else {
        None
    }
}

pub fn offset_secs_exec(t: Time) -> (r: Option<i32>)
    ensures
        r == offset_secs(t),
{
    let o: i64 = t.tz_offset_hours as i64 * 3600 + t.tz_offset_minutes as i64 * 60;
    if i32::MIN as i64 <= o && o <= i32::MAX as i64 {
        Some(o as i32)
    } else {
        None
    }
}

/// The fields of a date and time written as year, month and day: year,
/// month, day, hour, minute, second and millisecond.
pub open spec fn ymd_fields(x: DateTime) -> Option<(i32, u32, u32, u32, u32, u32, u32)> {
    match x.date {
        Date::YMD { year, month, day } => Some(
            (year, month, day, x.time.hour, x.time.minute, x.time.second, x.time.millisecond),
        ),
        _ => None,
    }
}

pub fn ymd_fields_exec(x: DateTime) -> (r: Option<(i32, u32, u32, u32, u32, u32, u32)>)
    ensures
        r == ymd_fields(x),
{
    match x.date {
        Date::YMD { year, month, day } => Some(
            (year, month, day, x.time.hour, x.time.minute, x.time.second, x.time.millisecond),
        ),
        _ => None,
    }
}

/// What `chrono` gives for `a - b`, each instant given by the fields of
/// `ymd_fields` at a UTC offset in seconds: whole seconds, and nanoseconds
/// where they fit an `i64`; `None` where chrono holds no such instant.
pub uninterp spec fn chrono_delta(
    a: (i32, u32, u32, u32, u32, u32, u32),
    a_off: i32,
    b: (i32, u32, u32, u32, u32, u32, u32),
    b_off: i32,
) -> Option<(i64, Option<i64>)>;

/// What `chrono` prints for an instant, given by the fields of `ymd_fields`
/// at a UTC offset in seconds, with the format `%Y-%m-%dT%H:%M:%S%:z`;
/// `None` where chrono holds no such instant.
pub uninterp spec fn chrono_text(x: (i32, u32, u32, u32, u32, u32, u32), off: i32) -> Option<
    Seq<char>,
>;

/// Builds both instants with `chrono` (`NaiveDate::from_ymd_opt`,
/// `and_hms_milli_opt`, `and_local_timezone` with `FixedOffset::east_opt`)
/// and subtracts them (`DateTime - DateTime`, `num_seconds`,
/// `num_nanoseconds`). The contract only names the result.
#[verifier::external_body]
pub(crate) fn chrono_delta_of(
    a: (i32, u32, u32, u32, u32, u32, u32),
    a_off: i32,
    b: (i32, u32, u32, u32, u32, u32, u32),
    b_off: i32,
) -> (r: Option<(i64, Option<i64>)>)
    ensures
        r == chrono_delta(a, a_off, b, b_off),
{
    let x = chrono::NaiveDate::from_ymd_opt(a.0, a.1, a.2)?.and_hms_milli_opt(a.3, a.4, a.5, a.6)?
        .and_local_timezone(chrono::FixedOffset::east_opt(a_off)?).single()?;
    let y = chrono::NaiveDate::from_ymd_opt(b.0, b.1, b.2)?.and_hms_milli_opt(b.3, b.4, b.5, b.6)?
        .and_local_timezone(chrono::FixedOffset::east_opt(b_off)?).single()?;
    let d = x - y;
    Some((d.num_seconds(), d.num_nanoseconds()))
}

/// Builds the instant with `chrono` as `chrono_delta_of` does and formats it
/// with `%Y-%m-%dT%H:%M:%S%:z`. The contract only names the result.
#[verifier::external_body]
pub(crate) fn chrono_format(x: (i32, u32, u32, u32, u32, u32, u32), off: i32) -> (r: Option<String>)
    ensures
        match r {
            Some(t) => chrono_text(x, off) == Some(t@),
            None => chrono_text(x, off) is None,
        },
{
    let v = chrono::NaiveDate::from_ymd_opt(x.0, x.1, x.2)?.and_hms_milli_opt(x.3, x.4, x.5, x.6)?
        .and_local_timezone(chrono::FixedOffset::east_opt(off)?).single()?;
    Some(v.format("%Y-%m-%dT%H:%M:%S%:z").to_string())
}

/// What `chrono` gives for an instant, given by the fields of `ymd_fields`
/// at a UTC offset in seconds, less `months` months (`checked_sub_months`),
/// less `days` days (`checked_sub_days`), less `secs` seconds and `nanos`
/// nanoseconds (`TimeDelta::new`, `checked_sub_signed`): the fields of the
/// result, the last one in nanoseconds; `None` where chrono holds no such
/// instant or a step fails.
pub uninterp spec fn chrono_sub(
    x: (i32, u32, u32, u32, u32, u32, u32),
    off: i32,
    months: u32,
    days: u64,
    secs: i64,
    nanos: u32,
) -> Option<(i32, u32, u32, u32, u32, u32, u32)>;

/// Builds the instant with `chrono` as `chrono_delta_of` does and steps it
/// back with chrono's calendar operations.  The contract only names the
/// result.
#[verifier::external_body]
fn chrono_sub_of(
    x: (i32, u32, u32, u32, u32, u32, u32),
    off: i32,
    months: u32,
    days: u64,
    secs: i64,
    nanos: u32,
) -> (r: Option<(i32, u32, u32, u32, u32, u32, u32)>)
    ensures
        r == chrono_sub(x, off, months, days, secs, nanos),
{
    let v = chrono::NaiveDate::from_ymd_opt(x.0, x.1, x.2)?.and_hms_milli_opt(x.3, x.4, x.5, x.6)?
        .and_local_timezone(chrono::FixedOffset::east_opt(off)?).single()?;
    let w = v.checked_sub_months(chrono::Months::new(months))?.checked_sub_days(chrono::Days::new(
        days))?.checked_sub_signed(chrono::TimeDelta::new(secs, nanos)?)?;
    Some((w.year(), w.month(), w.day(), w.hour(), w.minute(), w.second(), w.nanosecond()))
}

/// Subtracts a duration from a date and time with chrono's calendar: the
/// months (twelve to a year), then the days, then the hours, minutes,
/// seconds and days again as seconds, with the milliseconds.  The offset is
/// kept.  A date chrono holds no instant for, and a step that fails or
/// overflows, give an error.
pub open spec fn datetime_sub_spec(dt: DateTime, dur: Duration) -> Result<DateTime, Seq<char>> {
    match dur {
        Duration::YMDHMS { year, month, day, hour, minute, second, millisecond } => {
            let months = month + year * 12;
            let secs = second + 60 * minute + 3600 * hour + 86400 * day;
            let nanos = millisecond * 1000000;
            match (ymd_fields(dt), offset_secs(dt.time)) {
                (Some(f), Some(o)) => if months > u32::MAX || secs > u32::MAX || nanos > u32::MAX {
                    Err("temporal value out of range"@)
                } else {
                    match chrono_sub(f, o, months as u32, day as u64, secs as i64, nanos as u32) {
                        Some(g) => Ok(
                            DateTime {
                                date: Date::YMD { year: g.0, month: g.1, day: g.2 },
                                time: Time {
                                    hour: g.3,
                                    minute: g.4,
                                    second: g.5,
                                    millisecond: g.6 / 1000000,
                                    tz_offset_hours: dt.time.tz_offset_hours,
                                    tz_offset_minutes: dt.time.tz_offset_minutes,
                                },
                            },
                        ),
                        None => Err("temporal value out of range"@),
                    }
                },
                _ => Err("temporal value out of range"@),
            }
        },
        Duration::Weeks(_) => Err("fail to add datetime and duration"@),
    }
}

pub fn datetime_sub(dt: DateTime, dur: Duration) -> (r: Result<DateTime, String>)
    ensures
        match datetime_sub_spec(dt, dur) {
            Ok(v) => r == Ok::<DateTime, String>(v),
            Err(m) => r matches Err(e) && e@ == m,
        },
{
    match dur {
        Duration::YMDHMS { year, month, day, hour, minute, second, millisecond } => {
            let months: u64 = month as u64 + year as u64 * 12;
            let secs: u64 = second as u64 + 60 * minute as u64 + 3600 * hour as u64 + 86400
                * day as u64;
            let nanos: u64 = millisecond as u64 * 1000000;
            match (ymd_fields_exec(dt), offset_secs_exec(dt.time)) {
                (Some(f), Some(o)) => {
                    if months > u32::MAX as u64 || secs > u32::MAX as u64 || nanos > u32::MAX as u64 {
                        return Err("temporal value out of range".to_owned());
                    }
                    match chrono_sub_of(f, o, months as u32, day as u64, secs as i64, nanos as u32) {
                        Some(g) => Ok(
                            DateTime {
                                date: Date::YMD { year: g.0, month: g.1, day: g.2 },
                                time: Time {
                                    hour: g.3,
                                    minute: g.4,
                                    second: g.5,
                                    millisecond: g.6 / 1000000,
                                    tz_offset_hours: dt.time.tz_offset_hours,
                                    tz_offset_minutes: dt.time.tz_offset_minutes,
                                },
                            },
                        ),
                        None => Err("temporal value out of range".to_owned()),
                    }
                },
                _ => Err("temporal value out of range".to_owned()),
            }
        },
        Duration::Weeks(_) => Err("fail to add datetime and duration".to_owned()),
    }
}

/// A duration of `seconds` (and of `nanoseconds` in all, where that fits),
/// split into days, hours, minutes, seconds and milliseconds, and whether it
/// is negative.
pub open spec fn delta_duration(seconds: i64, nanoseconds: Option<i64>) -> (Duration, bool) {
    let negative = seconds < 0;
    let n = if negative {
        -seconds
    } else {
        seconds as int
    };
    let nano = match nanoseconds {
        Some(x) => if x < 0 {
            -x
        } else {
            x as int
        },
        None => 0,
    };
    let day = n / 86400;
    let hour = (n - day * 86400) / 3600;
    let min = (n - day * 86400 - hour * 3600) / 60;
    let sec = n - day * 86400 - hour * 3600 - 60 * min;
    (
        Duration::YMDHMS {
            year: 0,
            month: 0,
            day: day as u32,
            hour: hour as u32,
            minute: min as u32,
            second: sec as u32,
            millisecond: (nano / 1000000) as u32,
        },
        negative,
    )
}

/// Splits a time delta, given as whole seconds and as nanoseconds (`None`
/// where they do not fit an `i64`), into a duration and its sign.
pub fn timedelta_to_duration(seconds: i64, nanoseconds: Option<i64>) -> (r: (Duration, bool))
    requires
        seconds > i64::MIN,
        nanoseconds != Some(i64::MIN),
    ensures
        r == delta_duration(seconds, nanoseconds),
{
    let mut nsecs = seconds;
    let negative = nsecs < 0;
    if negative {
        nsecs = -nsecs;
    }
    let nano: i64 = match nanoseconds {
        Some(x) => if x < 0 {
            -x
        } else {
            x
        },
        None => 0,
    };
    let day = nsecs / 86400;
    let hour = (nsecs - day * 86400) / 3600;
    let min = (nsecs - day * 86400 - hour * 3600) / 60;
    let sec = nsecs - day * 86400 - hour * 3600 - 60 * min;
    (
        Duration::YMDHMS {
            year: 0,
            month: 0,
            day: day as u32,
            hour: hour as u32,
            minute: min as u32,
            second: sec as u32,
            millisecond: (nano / 1000000) as u32,
        },
        negative,
    )
}

/// The order of two integers.
pub open spec fn int_order(a: int, b: int) -> Ordering {
    if a < b {
        Ordering::Less
    } else if a == b {
        Ordering::Equal
    } else {
        Ordering::Greater
    }
}

/// The order of two sequences of integers of one length, first element
/// first.
pub open spec fn lex_order(a: Seq<int>, b: Seq<int>) -> Ordering
    decreases a.len(),
{
    if a.len() == 0 || b.len() == 0 {
        Ordering::Equal
    } else if a[0] != b[0] {
        int_order(a[0], b[0])
    } else {
        lex_order(a.drop_first(), b.drop_first())
    }
}

/// The fields of a date, largest unit first.
pub open spec fn date_key(d: Date) -> Seq<int> {
    match d {
        Date::YMD { year, month, day } => seq![year as int, month as int, day as int],
        Date::Week { year, ww, d } => seq![year as int, ww as int, d as int],
        Date::Ordinal { year, ddd } => seq![year as int, ddd as int],
    }
}

/// Whether two dates are written the same way.
pub open spec fn same_form(a: Date, b: Date) -> bool {
    ||| (a is YMD && b is YMD)
    ||| (a is Week && b is Week)
    ||| (a is Ordinal && b is Ordinal)
}

/// The order of two dates written the same way, `None` for two written
/// differently.
pub open spec fn date_order(a: Date, b: Date) -> Option<Ordering> {
    if same_form(a, b) {
        Some(lex_order(date_key(a), date_key(b)))
    } else {
        None
    }
}

pub fn compare_date(a: &Date, b: &Date) -> (r: Option<Ordering>)
    ensures
        r == date_order(*a, *b),
{
    proof {
        reveal_with_fuel(lex_order, 4);
    }
    match (*a, *b) {
        (Date::YMD { year, month, day }, Date::YMD { year: y2, month: m2, day: d2 }) => {
            if year != y2 {
                Some(if year < y2 { Ordering::Less } else { Ordering::Greater })
            } else if month != m2 {
                Some(if month < m2 { Ordering::Less } else { Ordering::Greater })
            } else if day != d2 {
                Some(if day < d2 { Ordering::Less } else { Ordering::Greater })
            } else {
                Some(Ordering::Equal)
            }
        },
        (Date::Week { year, ww, d }, Date::Week { year: y2, ww: w2, d: d2 }) => {
            if year != y2 {
                Some(if year < y2 { Ordering::Less } else { Ordering::Greater })
            } else if ww != w2 {
                Some(if ww < w2 { Ordering::Less } else { Ordering::Greater })
            } else if d != d2 {
                Some(if d < d2 { Ordering::Less } else { Ordering::Greater })
            } else {
                Some(Ordering::Equal)
            }
        },
        (Date::Ordinal { year, ddd }, Date::Ordinal { year: y2, ddd: d2 }) => {
            if year != y2 {
                Some(if year < y2 { Ordering::Less } else { Ordering::Greater })
            } else if ddd != d2 {
                Some(if ddd < d2 { Ordering::Less } else { Ordering::Greater })
            } else {
                Some(Ordering::Equal)
            }
        },
        _ => None,
    }
}

} // verus!
