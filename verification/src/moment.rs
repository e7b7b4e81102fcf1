//! Instants and calendar dates.

use vstd::prelude::*;

use crate::text;

verus! {

/// An instant, counted in nanoseconds from the start of 1970 in UTC, with the
/// offset from UTC in which it was written.
#[derive(Clone, Copy, Debug, PartialEq, Eq, Structural)]
pub struct Timestamp {
    pub nanos: i128,
    pub offset_seconds: i32,
}

impl Timestamp {
    /// The instant `nanos` after the epoch, written in UTC.
    pub fn utc(nanos: i128) -> (r: Timestamp)
        ensures
            r.nanos == nanos,
            r.offset_seconds == 0,
    {
        Timestamp { nanos, offset_seconds: 0 }
    }
}

/// Nanoseconds in a second.
pub const NANOS_PER_SECOND: i128 = 1_000_000_000;

/// The instant that an RFC 3339 text writes: nanoseconds since the epoch and
/// the offset in seconds.
pub uninterp spec fn rfc3339_value(s: Seq<char>) -> Option<(i128, i32)>;

/// The RFC 3339 text of an instant in an offset, where it has one.
pub uninterp spec fn rfc3339_text(nanos: i128, offset_seconds: i32) -> Option<Seq<char>>;

/// The seconds since the epoch that a text of the form
/// `YYYY-MM-DDThh-mm-ss` writes.
pub uninterp spec fn dashed_value(s: Seq<char>) -> Option<i64>;

/// Whether the instant lies in the years 0 to 9999 in UTC.
pub open spec fn in_written_years(nanos: int) -> bool {
    -62_167_219_200 * NANOS_PER_SECOND <= nanos < 253_402_300_800 * NANOS_PER_SECOND
}

/// `time::OffsetDateTime::parse` with the RFC 3339 format: what it reads is a
/// function of the characters of `s`, named `rfc3339_value`.
#[verifier::external_body]
fn rfc3339_parse(s: &str) -> (r: Option<(i128, i32)>)
    ensures
        r == rfc3339_value(s@),
{
    time::OffsetDateTime::parse(s, &time::format_description::well_known::Rfc3339)
        .ok()
        .map(|dt| (dt.unix_timestamp_nanos(), dt.offset().whole_seconds()))
}

/// `time::OffsetDateTime::format` with the RFC 3339 format, of the instant in
/// the given offset: the result is a function of the two numbers, named
/// `rfc3339_text`, and a text that it gives is read back as the same instant
/// in the same offset. In UTC there is a text for the years 0 to 9999.
#[verifier::external_body]
fn rfc3339_format(nanos: i128, offset_seconds: i32) -> (r: Option<String>)
    ensures
        text::opt_view(r) == rfc3339_text(nanos, offset_seconds),
        r matches Some(s) ==> rfc3339_value(s@) == Some((nanos, offset_seconds)),
        offset_seconds == 0 && in_written_years(nanos as int) ==> r is Some,
{
    let offset = time::UtcOffset::from_whole_seconds(offset_seconds).ok()?;
    let at = time::OffsetDateTime::from_unix_timestamp_nanos(nanos).ok()?;
    at.checked_to_offset(offset)?.format(&time::format_description::well_known::Rfc3339).ok()
}

/// `time::PrimitiveDateTime::parse` with the components year, month, day,
/// hour, minute and second in the form `YYYY-MM-DDThh-mm-ss`, taken as UTC:
/// what it reads is a function of the characters of `s`, named `dashed_value`.
#[verifier::external_body]
fn dashed_parse(s: &str) -> (r: Option<i64>)
    ensures
        r == dashed_value(s@),
{
    let format = time::format_description::parse_borrowed::<1>(
        "[year]-[month]-[day]T[hour]-[minute]-[second]",
    ).ok()?;
    time::PrimitiveDateTime::parse(s, &format).ok().map(|at| at.assume_utc().unix_timestamp())
}

/// Reads an RFC 3339 timestamp.
pub fn parse_rfc3339(s: &str) -> (r: Option<Timestamp>)
    ensures
        match r {
            Some(t) => rfc3339_value(s@) == Some((t.nanos, t.offset_seconds)),
            None => rfc3339_value(s@) is None,
        },
{
    match rfc3339_parse(s) {
        Some((nanos, offset_seconds)) => Some(Timestamp { nanos, offset_seconds }),
        None => None,
    }
}

/// Writes an instant as an RFC 3339 timestamp.
pub fn format_rfc3339(at: Timestamp) -> (r: Option<String>)
    ensures
        text::opt_view(r) == rfc3339_text(at.nanos, at.offset_seconds),
        r matches Some(s) ==> rfc3339_value(s@) == Some((at.nanos, at.offset_seconds)),
        at.offset_seconds == 0 && in_written_years(at.nanos as int) ==> r is Some,
{
    rfc3339_format(at.nanos, at.offset_seconds)
}

/// Reads a timestamp of the form `YYYY-MM-DDThh-mm-ss`, in UTC.
pub fn parse_dashed(s: &str) -> (r: Option<Timestamp>)
    ensures
        match r {
            Some(t) => dashed_value(s@) is Some && t.nanos == dashed_value(s@)->0 * NANOS_PER_SECOND && t.offset_seconds == 0,
            None => dashed_value(s@) is None,
        },
{
    match dashed_parse(s) {
        Some(seconds) => Some(Timestamp { nanos: seconds as i128 * NANOS_PER_SECOND, offset_seconds: 0 }),
        None => None,
    }
}

/// The instant with everything below a millisecond dropped.
pub open spec fn millis_floor(nanos: int) -> int {
    nanos - nanos % 1_000_000
}

/// Drops everything below a millisecond.
pub fn truncate_to_millis(at: Timestamp) -> (r: Timestamp)
    requires
        at.nanos >= i128::MIN + 1_000_000,
    ensures
        r.nanos == millis_floor(at.nanos as int),
        r.offset_seconds == at.offset_seconds,
{
    let below: i128 = at.nanos % 1_000_000;
    let down: i128 = if below < 0 {
        below + 1_000_000
    } else {
        below
    };
    Timestamp { nanos: at.nanos - down, offset_seconds: at.offset_seconds }
}

// ---------------------------------------------------------------------
// The calendar
// ---------------------------------------------------------------------

/// Whether the year has a 29 February.
pub open spec fn is_leap(year: int) -> bool {
    year % 4 == 0 && (year % 100 != 0 || year % 400 == 0)
}

/// The number of days of a month.
pub open spec fn days_in_month(year: int, month: int) -> int {
    if month == 2 {
        if is_leap(year) {
            29
        } else {
            28
        }
    } else if month == 4 || month == 6 || month == 9 || month == 11 {
        30
    } else {
        31
    }
}

/// Whether the three numbers are a date of the proleptic Gregorian calendar
/// with a year of at most four digits.
pub open spec fn is_date(year: int, month: int, day: int) -> bool {
    -9999 <= year <= 9999 && 1 <= month <= 12 && 1 <= day <= days_in_month(year, month)
}

/// Whether the three numbers are a time of day.
pub open spec fn is_time(hour: int, minute: int, second: int) -> bool {
    0 <= hour < 24 && 0 <= minute < 60 && 0 <= second < 60
}

/// The day number of a date, where 1 January 1970 has number zero. Years are
/// counted from March, so that the leap day is the last of its year.
#[verifier::opaque]
pub open spec fn day_number(year: int, month: int, day: int) -> int {
    let y = if month <= 2 {
        year - 1
    } else {
        year
    };
    let month_from_march = (month + 9) % 12;
    let day_of_year = (153 * month_from_march + 2) / 5 + day - 1;
    365 * y + y / 4 - y / 100 + y / 400 + day_of_year - 719468
}

/// The seconds from the epoch to a date and time of day in UTC.
pub open spec fn civil_seconds(year: int, month: int, day: int, hour: int, minute: int, second: int) -> int {
    day_number(year, month, day) * 86400 + hour * 3600 + minute * 60 + second
}

/// Dates of the years 0 to 9999 lie in the years that RFC 3339 can write.
pub proof fn lemma_written_years(year: int, month: int, day: int, hour: int, minute: int, second: int)
    requires
        0 <= year,
        is_date(year, month, day),
        is_time(hour, minute, second),
    ensures
        in_written_years(civil_seconds(year, month, day, hour, minute, second) * NANOS_PER_SECOND),
{
    reveal(day_number);
    let n = day_number(year, month, day);
    let y = if month <= 2 {
        year - 1
    } else {
        year
    };
    assert(-719528 <= n <= 2932896) by {
        if month <= 2 {
            assert(month + 9 == 10 || month + 9 == 11);
        }
        assert(1 <= month <= 12);
        assert(month == 1 || month == 2 || month == 3 || month == 4 || month == 5 || month == 6 || month == 7 || month
            == 8 || month == 9 || month == 10 || month == 11 || month == 12);
    }
}

/// `time::Date::from_calendar_date`, `time::Time::from_hms` and
/// `unix_timestamp`: a date and a time of day are accepted exactly where they
/// exist, and the result counts the seconds from the epoch.
#[verifier::external_body]
pub(crate) fn utc_seconds(year: i32, month: u8, day: u8, hour: u8, minute: u8, second: u8) -> (r: Option<i64>)
    ensures
        r == (if is_date(year as int, month as int, day as int) && is_time(hour as int, minute as int, second as int) {
            Some(civil_seconds(year as int, month as int, day as int, hour as int, minute as int, second as int) as i64)
        } else {
            None
        }),
        r is Some ==> r->0 == civil_seconds(year as int, month as int, day as int, hour as int, minute as int, second as int),
{
    let date = time::Date::from_calendar_date(year, time::Month::try_from(month).ok()?, day).ok()?;
    let at = time::Time::from_hms(hour, minute, second).ok()?;
    Some(time::PrimitiveDateTime::new(date, at).assume_utc().unix_timestamp())
}

/// Whether the year has a 29th of February.
pub open spec fn has_leap_day(year: int) -> bool {
    year % 4 == 0 && (year % 100 != 0 || year % 400 == 0)
}

/// The days are counted one by one: the day after a day has the next number, at
/// the end of a month and of a year too, and the first day of 1970 has none
/// before it.
pub proof fn law_days_are_counted_one_by_one(year: int, month: int, day: int)
    requires
        1 <= month <= 12,
    ensures
        day_number(1970, 1, 1) == 0,
        day_number(year, month, day + 1) == day_number(year, month, day) + 1,
        month < 12 ==> day_number(year, month + 1, 1) == day_number(year, month, 1) + (if month == 2 {
            if has_leap_day(year) {
                29int
            } else {
                28int
            }
        } else if month == 4 || month == 6 || month == 9 || month == 11 {
            30int
        } else {
            31int
        }),
        month == 12 ==> day_number(year + 1, 1, 1) == day_number(year, 12, 1) + 31,
{
    reveal(day_number);
    assert(month == 1 || month == 2 || month == 3 || month == 4 || month == 5 || month == 6 || month == 7 || month == 8
        || month == 9 || month == 10 || month == 11 || month == 12);
    if month == 2 {
        lemma_leap_step(year);
    }
}

proof fn lemma_leap_step(year: int)
    ensures
        year / 4 - (year - 1) / 4 == (if year % 4 == 0 {
            1int
        } else {
            0int
        }),
        year / 100 - (year - 1) / 100 == (if year % 100 == 0 {
            1int
        } else {
            0int
        }),
        year / 400 - (year - 1) / 400 == (if year % 400 == 0 {
            1int
        } else {
            0int
        }),
        year % 400 == 0 ==> year % 100 == 0,
        year % 100 == 0 ==> year % 4 == 0,
{
}

/// An instant has so many seconds more than the start of its day as the hours,
/// minutes and seconds of its time come to, and a day has 86400 of them.
pub proof fn law_seconds_are_counted_one_by_one(year: int, month: int, day: int, hour: int, minute: int, second: int)
    requires
        1 <= month <= 12,
    ensures
        civil_seconds(1970, 1, 1, 0, 0, 0) == 0,
        civil_seconds(year, month, day, hour, minute, second + 1) == civil_seconds(
            year,
            month,
            day,
            hour,
            minute,
            second,
        ) + 1,
        civil_seconds(year, month, day, hour, minute + 1, second) == civil_seconds(
            year,
            month,
            day,
            hour,
            minute,
            second + 60,
        ),
        civil_seconds(year, month, day, hour + 1, minute, second) == civil_seconds(
            year,
            month,
            day,
            hour,
            minute + 60,
            second,
        ),
        civil_seconds(year, month, day + 1, hour, minute, second) == civil_seconds(
            year,
            month,
            day,
            hour + 24,
            minute,
            second,
        ),
{
    law_days_are_counted_one_by_one(year, month, day);
}

/// Dropping what lies below a millisecond gives the last whole millisecond that
/// is not later.
pub proof fn law_millis_are_whole_and_not_later(nanos: int, whole: int)
    ensures
        millis_floor(nanos) % 1_000_000 == 0,
        millis_floor(nanos) <= nanos < millis_floor(nanos) + 1_000_000,
        whole % 1_000_000 == 0 && whole <= nanos ==> whole <= millis_floor(nanos),
{
}

} // verus!
