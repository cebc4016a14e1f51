//! Points in time as calendar text.
use crate::moment::{point_nanos, Moment, EARLIEST, LATEST};
use vstd::prelude::*;

verus! {

/// The RFC 3339 text, in UTC, of the point `nanos` nanoseconds after the epoch.
pub uninterp spec fn rfc3339(nanos: int) -> Seq<char>;

/// `chrono::DateTime::to_rfc3339` on a point in UTC, given to `chrono::DateTime::from_timestamp` as
/// seconds and nanoseconds: the text depends on the point alone.
#[verifier::external_body]
fn write_rfc3339(seconds: i64, nanos: u32) -> (r: String)
    requires
        EARLIEST <= seconds * 1_000_000_000 + nanos <= LATEST,
        nanos < 1_000_000_000,
    ensures
        r@ == rfc3339(seconds * 1_000_000_000 + nanos),
{
    chrono::DateTime::from_timestamp(seconds, nanos).unwrap_or_default().to_rfc3339()
}

/// Writes a point in time in UTC.
pub fn to_rfc3339(at: Moment) -> (r: String)
    requires
        at.valid(),
    ensures
        r@ == rfc3339(at.nanos as int),
{
    let seconds = at.seconds();
    let rest: i128 = at.nanos - seconds as i128 * 1_000_000_000;
    assert(0 <= rest < 1_000_000_000);
    write_rfc3339(seconds, rest as u32)
}

/// The text of a point in time, where there is one.
pub open spec fn time_text(at: Option<Moment>) -> Option<Seq<char>> {
    match at {
        Some(t) => Some(rfc3339(t.nanos as int)),
        None => None,
    }
}

pub fn optional_rfc3339(at: Option<Moment>) -> (r: Option<String>)
    requires
        at matches Some(t) ==> t.valid(),
    ensures
        crate::report::text_option(r) == time_text(at),
{
    match at {
        Some(t) => Some(to_rfc3339(t)),
        None => None,
    }
}

/// The seconds since the epoch, and the nanoseconds after them, that an RFC 3339 text names. The
/// nanoseconds of a leap second go on from 1 000 000 000.
pub uninterp spec fn rfc3339_parts(text: Seq<char>) -> Option<(int, int)>;

/// The point in time, in nanoseconds since the epoch, that an RFC 3339 text names.
pub open spec fn rfc3339_nanos(text: Seq<char>) -> Option<int> {
    joined_parts(rfc3339_parts(text))
}

/// The seconds and the nanoseconds that a text names in a `strftime` format with a time zone.
pub uninterp spec fn formatted_parts(text: Seq<char>, format: Seq<char>) -> Option<(int, int)>;

/// The point in time that a text names in a `strftime` format with a time zone.
pub open spec fn formatted_nanos(text: Seq<char>, format: Seq<char>) -> Option<int> {
    joined_parts(formatted_parts(text, format))
}

pub open spec fn nanos_option(at: Option<Moment>) -> Option<int> {
    match at {
        Some(t) => Some(t.nanos as int),
        None => None,
    }
}

pub open spec fn parts_option(at: Option<(i64, u32)>) -> Option<(int, int)> {
    match at {
        Some((seconds, nanos)) => Some((seconds as int, nanos as int)),
        None => None,
    }
}

/// The nanoseconds of some seconds and nanoseconds.
pub open spec fn joined_parts(at: Option<(int, int)>) -> Option<int> {
    match at {
        Some((seconds, nanos)) => Some(point_nanos(seconds, nanos)),
        None => None,
    }
}

fn moment_of(at: Option<(i64, u32)>) -> (r: Option<Moment>)
    ensures
        nanos_option(r) == joined_parts(parts_option(at)),
{
    match at {
        Some((seconds, nanos)) => {
            let rest: u32 = within_second(nanos);
            Some(Moment { nanos: seconds as i128 * 1_000_000_000 + rest as i128 })
        },
        None => None,
    }
}

/// The nanoseconds of a second, or the last one of a leap second.
fn within_second(nanos: u32) -> (r: u32)
    ensures
        forall|seconds: int| #[trigger]
            point_nanos(seconds, nanos as int) == seconds * 1_000_000_000 + r,
        r < 1_000_000_000,
{
    if nanos < 1_000_000_000 {
        nanos
    } else {
        999_999_999
    }
}

/// `chrono::DateTime::parse_from_rfc3339`: the seconds and the nanoseconds of the point, or that
/// there is none, depend on the text alone, and the point lies in the calendar.
#[verifier::external_body]
fn read_rfc3339(text: &str) -> (r: Option<(i64, u32)>)
    ensures
        parts_option(r) == rfc3339_parts(text@),
        r matches Some(at) ==> EARLIEST <= point_nanos(at.0 as int, at.1 as int) <= LATEST,
{
    let at = chrono::DateTime::parse_from_rfc3339(text).ok()?;
    Some((at.timestamp(), at.timestamp_subsec_nanos()))
}

pub(crate) fn parse_rfc3339(text: &str) -> (r: Option<Moment>)
    ensures
        nanos_option(r) == rfc3339_nanos(text@),
        r matches Some(at) ==> at.valid(),
{
    moment_of(read_rfc3339(text))
}

/// `chrono::DateTime::parse_from_str`: the seconds and the nanoseconds of the point, or that there is
/// none, depend on the text and the format alone, and the point lies in the calendar.
#[verifier::external_body]
fn read_formatted(text: &str, format: &str) -> (r: Option<(i64, u32)>)
    ensures
        parts_option(r) == formatted_parts(text@, format@),
        r matches Some(at) ==> EARLIEST <= point_nanos(at.0 as int, at.1 as int) <= LATEST,
{
    let at = chrono::DateTime::parse_from_str(text, format).ok()?;
    Some((at.timestamp(), at.timestamp_subsec_nanos()))
}

pub(crate) fn parse_formatted(text: &str, format: &str) -> (r: Option<Moment>)
    ensures
        nanos_option(r) == formatted_nanos(text@, format@),
        r matches Some(at) ==> at.valid(),
{
    moment_of(read_formatted(text, format))
}

/// The day that a text names in a `strftime` format, counted from the first day of the first year.
pub uninterp spec fn formatted_date(text: Seq<char>, format: Seq<char>) -> Option<int>;

/// The same count of the day of the epoch.
pub const EPOCH_DAY: i64 = 719_163;

/// The day, counted from the epoch, that a text names in a `strftime` format.
pub open spec fn formatted_day(text: Seq<char>, format: Seq<char>) -> Option<int> {
    match formatted_date(text, format) {
        Some(day) => Some(day - EPOCH_DAY),
        None => None,
    }
}

/// The seconds since midnight, and the nanoseconds after them, that a text names in a `strftime`
/// format.
pub uninterp spec fn clock_parts(text: Seq<char>, format: Seq<char>) -> Option<(int, int)>;

/// The nanoseconds since midnight that a text names in a `strftime` format.
pub open spec fn formatted_clock(text: Seq<char>, format: Seq<char>) -> Option<int> {
    joined_parts(clock_parts(text, format))
}

pub open spec fn wide(n: Option<i64>) -> Option<int> {
    match n {
        Some(v) => Some(v as int),
        None => None,
    }
}

pub open spec fn date_option(n: Option<i32>) -> Option<int> {
    match n {
        Some(v) => Some(v as int),
        None => None,
    }
}

/// `chrono::NaiveDate::parse_from_str`: the day, or that there is none, depends on the text and the
/// format alone. The calendar has less than ninety-nine million days on each side of its first year.
#[verifier::external_body]
fn read_date(text: &str, format: &str) -> (r: Option<i32>)
    ensures
        date_option(r) == formatted_date(text@, format@),
        r matches Some(day) ==> -99_000_000 < day < 99_000_000,
{
    let date = chrono::NaiveDate::parse_from_str(text, format).ok()?;
    Some(chrono::Datelike::num_days_from_ce(&date))
}

pub(crate) fn parse_day(text: &str, format: &str) -> (r: Option<i64>)
    ensures
        wide(r) == formatted_day(text@, format@),
        r matches Some(day) ==> -100_000_000 < day < 100_000_000,
{
    match read_date(text, format) {
        Some(day) => Some(day as i64 - EPOCH_DAY),
        None => None,
    }
}

/// `chrono::NaiveTime::parse_from_str`: the seconds since midnight and the nanoseconds of the time of
/// day, or that there is none, depend on the text and the format alone.
#[verifier::external_body]
fn read_clock(text: &str, format: &str) -> (r: Option<(u32, u32)>)
    ensures
        day_parts(r) == clock_parts(text@, format@),
        r matches Some(time) ==> time.0 < 86_400 && time.1 < 2_000_000_000,
{
    let time = chrono::NaiveTime::parse_from_str(text, format).ok()?;
    Some((chrono::Timelike::num_seconds_from_midnight(&time), chrono::Timelike::nanosecond(&time)))
}

pub open spec fn day_parts(time: Option<(u32, u32)>) -> Option<(int, int)> {
    match time {
        Some((seconds, nanos)) => Some((seconds as int, nanos as int)),
        None => None,
    }
}

pub(crate) fn parse_clock(text: &str, format: &str) -> (r: Option<i64>)
    ensures
        wide(r) == formatted_clock(text@, format@),
        r matches Some(nanos) ==> 0 <= nanos < 86_400_000_000_000,
{
    match read_clock(text, format) {
        Some((seconds, nanos)) => {
            let rest: u32 = within_second(nanos);
            Some(seconds as i64 * 1_000_000_000 + rest as i64)
        },
        None => None,
    }
}

} // verus!
