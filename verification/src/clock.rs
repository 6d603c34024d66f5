//! Wall-clock instants as plain numbers, their order, and the delay between two
//! of them.

use vstd::prelude::*;
use vstd::string::StringExecFns;
use chrono::{Datelike, NaiveDateTime, NaiveTime, Timelike};
use crate::text::{outcome, trim, trimmed};

verus! {

/// Seconds in a day without a leap second.
pub const SECONDS_PER_DAY: i64 = 86_400;

/// Nanoseconds in a second. A `nano` field at or above this value marks a leap
/// second.
pub const NANOS_PER_SECOND: i64 = 1_000_000_000;

/// A time of day without a date.
#[derive(Debug, Clone, Copy, PartialEq, Eq, Structural)]
pub struct TimeOfDay {
    /// Seconds since midnight, leap seconds not counted.
    pub second: u32,
    /// Nanoseconds since `second`; `1_000_000_000` or more during a leap second.
    pub nano: u32,
}

/// A date and time of day without a time zone.
#[derive(Debug, Clone, Copy, PartialEq, Eq, Structural)]
pub struct Timestamp {
    /// Days in the proleptic Gregorian calendar, 0001-01-01 being day 1.
    pub day: i32,
    /// Seconds since midnight, leap seconds not counted.
    pub second: u32,
    /// Nanoseconds since `second`; `1_000_000_000` or more during a leap second.
    pub nano: u32,
}

impl TimeOfDay {
    /// `self` comes strictly before `other`.
    pub open spec fn before(self, other: TimeOfDay) -> bool {
        self.second < other.second || (self.second == other.second && self.nano < other.nano)
    }

    pub fn is_before(&self, other: &TimeOfDay) -> (b: bool)
        ensures
            b == self.before(*other),
    {
        self.second < other.second || (self.second == other.second && self.nano < other.nano)
    }

    /// This time of day on the day of `date`.
    pub open spec fn on_day_of(self, date: Timestamp) -> Timestamp {
        Timestamp { day: date.day, second: self.second, nano: self.nano }
    }

    pub fn on(&self, date: &Timestamp) -> (instant: Timestamp)
        ensures
            instant == self.on_day_of(*date),
    {
        Timestamp { day: date.day, second: self.second, nano: self.nano }
    }
}

impl Timestamp {
    /// `self` comes strictly before `other`: an earlier day, or the same day
    /// and an earlier time.
    pub open spec fn before(self, other: Timestamp) -> bool {
        self.day < other.day || (self.day == other.day && (self.second < other.second || (
        self.second == other.second && self.nano < other.nano)))
    }

    pub fn is_before(&self, other: &Timestamp) -> (b: bool)
        ensures
            b == self.before(*other),
    {
        self.day < other.day || (self.day == other.day && (self.second < other.second || (
        self.second == other.second && self.nano < other.nano)))
    }

    /// Whole seconds from `start` to `self`, rounded down, negative when
    /// `self` is the earlier. A leap second counts where one of the two
    /// instants lies in it, and nowhere else.
    pub open spec fn seconds_since(self, start: Timestamp) -> int {
        let leap: int = if self.second > start.second && start.nano >= NANOS_PER_SECOND {
            1
        } else if self.second < start.second && self.nano >= NANOS_PER_SECOND {
            -1
        } else {
            0
        };
        (self.day - start.day) * SECONDS_PER_DAY + (self.second - start.second) + leap + (self.nano
            - start.nano) / (NANOS_PER_SECOND as int)
    }

    /// Whole minutes by which `self` follows `start`; zero when it does not
    /// follow it by a full minute.
    pub open spec fn minutes_after(self, start: Timestamp) -> int {
        if self.seconds_since(start) > 0 {
            self.seconds_since(start) / 60
        } else {
            0
        }
    }

    /// The delay of `self` behind `start` in whole minutes, floored at zero: an
    /// instant before `start` is on time, not early.
    pub fn delay_minutes(&self, start: &Timestamp) -> (minutes: i64)
        ensures
            minutes == self.minutes_after(*start),
            0 <= minutes,
    {
        let leap: i64 = if self.second > start.second && start.nano >= 1_000_000_000 {
            1
        } else if self.second < start.second && self.nano >= 1_000_000_000 {
            -1
        } else {
            0
        };
        // Both nano fields are below 2^32, so five seconds' worth lifts the
        // difference above zero, where `/` rounds down.
        let lifted: i64 = self.nano as i64 - start.nano as i64 + 5 * NANOS_PER_SECOND;
        let carried: i64 = lifted / NANOS_PER_SECOND - 5;
        assert(carried == (self.nano - start.nano) / (NANOS_PER_SECOND as int)) by {
            let d = self.nano - start.nano;
            assert((d + 5 * 1_000_000_000) / 1_000_000_000 == d / 1_000_000_000 + 5) by (nonlinear_arith);
        }
        let days: i64 = self.day as i64 - start.day as i64;
        let seconds: i64 = days * SECONDS_PER_DAY + (self.second as i64 - start.second as i64)
            + leap + carried;
        if seconds > 0 {
            seconds / 60
        } else {
            0
        }
    }
}

/// What `chrono::NaiveTime::parse_from_str` makes of `input` under `format`:
/// seconds since midnight and nanoseconds, or `None` where it reports an
/// error.
pub uninterp spec fn parsed_time(input: Seq<char>, format: Seq<char>) -> Option<(u32, u32)>;

/// What `chrono::NaiveDateTime::parse_from_str` makes of `input` under
/// `format`: day number, seconds since midnight and nanoseconds, or `None`
/// where it reports an error.
pub uninterp spec fn parsed_datetime(input: Seq<char>, format: Seq<char>) -> Option<
    (i32, u32, u32),
>;

/// `chrono::NaiveTime::parse_from_str`. The result depends on the two texts
/// alone and is named, not spelled out; the fields are read off with
/// `num_seconds_from_midnight` and `nanosecond`.
#[verifier::external_body]
fn parse_naive_time(input: &str, format: &str) -> (time: Option<(u32, u32)>)
    ensures
        time == parsed_time(input@, format@),
{
    match NaiveTime::parse_from_str(input, format) {
        Ok(time) => Some((time.num_seconds_from_midnight(), time.nanosecond())),
        Err(_) => None,
    }
}

/// `chrono::NaiveDateTime::parse_from_str`. The result depends on the two
/// texts alone and is named, not spelled out; the fields are read off with
/// `num_days_from_ce`, `num_seconds_from_midnight` and `nanosecond`.
#[verifier::external_body]
fn parse_naive_datetime(input: &str, format: &str) -> (instant: Option<(i32, u32, u32)>)
    ensures
        instant == parsed_datetime(input@, format@),
{
    match NaiveDateTime::parse_from_str(input, format) {
        Ok(instant) => Some(
            (instant.num_days_from_ce(), instant.num_seconds_from_midnight(), instant.nanosecond()),
        ),
        Err(_) => None,
    }
}

/// The pattern of a class time: hours and minutes on the 24-hour clock.
pub open spec fn time_format() -> Seq<char> {
    "%H:%M"@
}

/// The first pattern of a join time: two-digit year, 12-hour clock.
pub open spec fn short_year_format() -> Seq<char> {
    "%m/%d/%y, %I:%M:%S %p"@
}

/// The second pattern of a join time: four-digit year, 12-hour clock.
pub open spec fn long_year_format() -> Seq<char> {
    "%m/%d/%Y, %I:%M:%S %p"@
}

/// Which of the two class times a text was entered as.
#[derive(Debug, Clone, Copy, PartialEq, Eq, Structural)]
pub enum TimeField {
    ClassStart,
    ClassEnd,
}

impl TimeField {
    /// How the message for a refused time begins: it names the field.
    pub open spec fn complaint(self) -> Seq<char> {
        match self {
            TimeField::ClassStart => "Invalid class start time: "@,
            TimeField::ClassEnd => "Invalid class end time: "@,
        }
    }
}

/// The class time read from `input`, given what the parser made of it. The
/// message for a refused text names the field and quotes the text.
pub open spec fn time_outcome(
    field: TimeField,
    input: Seq<char>,
    parsed: Option<(u32, u32)>,
) -> Result<TimeOfDay, Seq<char>> {
    match parsed {
        Some(fields) => Ok(TimeOfDay { second: fields.0, nano: fields.1 }),
        None => Err(field.complaint() + input + ". Use HH:MM."@),
    }
}

/// The join time read from `input`, given what the parser made of it under
/// the first pattern and under the second. The first pattern wins.
pub open spec fn datetime_outcome(
    input: Seq<char>,
    short_year: Option<(i32, u32, u32)>,
    long_year: Option<(i32, u32, u32)>,
) -> Result<Timestamp, Seq<char>> {
    match short_year {
        Some(fields) => Ok(Timestamp { day: fields.0, second: fields.1, nano: fields.2 }),
        None => match long_year {
            Some(fields) => Ok(Timestamp { day: fields.0, second: fields.1, nano: fields.2 }),
            None => Err("Invalid datetime: "@ + input),
        },
    }
}

/// Turns the parser's answer for a class time into the time, or into the
/// message that names the field and the rejected text.
pub fn time_or_error(field: TimeField, input: &str, parsed: Option<(u32, u32)>) -> (result:
    Result<TimeOfDay, String>)
    ensures
        outcome(result) == time_outcome(field, input@, parsed),
{
    match parsed {
        Some(fields) => Ok(TimeOfDay { second: fields.0, nano: fields.1 }),
        None => {
            let start = match field {
                TimeField::ClassStart => String::from_str("Invalid class start time: "),
                TimeField::ClassEnd => String::from_str("Invalid class end time: "),
            };
            Err(start.concat(input).concat(". Use HH:MM."))
        },
    }
}

/// What the time parser makes of `input` once white space around it is cut
/// off.
pub fn parse_time_fields(input: &str) -> (parsed: Option<(u32, u32)>)
    ensures
        parsed == parsed_time(trimmed(input@), time_format()),
{
    let cut = trim(input);
    parse_naive_time(cut.as_str(), "%H:%M")
}

/// Reads a class time written as hours and minutes on the 24-hour clock.
/// White space around it is ignored; the message of a failure quotes the text
/// as it was given.
pub fn parse_time(field: TimeField, input: &str) -> (result: Result<TimeOfDay, String>)
    ensures
        outcome(result) == time_outcome(
            field,
            input@,
            parsed_time(trimmed(input@), time_format()),
        ),
{
    let parsed = parse_time_fields(input);
    time_or_error(field, input, parsed)
}

/// Turns the parser's answers for a join time into the instant, or into the
/// message that names the rejected text.
pub fn datetime_or_error(
    input: &str,
    short_year: Option<(i32, u32, u32)>,
    long_year: Option<(i32, u32, u32)>,
) -> (result: Result<Timestamp, String>)
    ensures
        outcome(result) == datetime_outcome(input@, short_year, long_year),
{
    match short_year {
        Some(fields) => Ok(Timestamp { day: fields.0, second: fields.1, nano: fields.2 }),
        None => match long_year {
            Some(fields) => Ok(Timestamp { day: fields.0, second: fields.1, nano: fields.2 }),
            None => Err(String::from_str("Invalid datetime: ").concat(input)),
        },
    }
}

/// Reads a join time in one of the two accepted patterns: month, day and
/// year with a two-digit or a four-digit year, a comma, then the time on the
/// 12-hour clock with seconds and AM or PM.
pub fn parse_datetime(input: &str) -> (result: Result<Timestamp, String>)
    ensures
        outcome(result) == datetime_outcome(
            input@,
            parsed_datetime(input@, short_year_format()),
            parsed_datetime(input@, long_year_format()),
        ),
{
    let short_year = parse_naive_datetime(input, "%m/%d/%y, %I:%M:%S %p");
    let long_year = parse_naive_datetime(input, "%m/%d/%Y, %I:%M:%S %p");
    datetime_or_error(input, short_year, long_year)
}

} // verus!
