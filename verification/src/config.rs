//! The class-time window: raw text as entered, and its validated form.

use vstd::prelude::*;
use vstd::string::StringExecFns;
use crate::clock::{
    parsed_time, time_format, time_or_error, time_outcome, TimeField, TimeOfDay,
};
use crate::number::{parse_integer, parsed_integer};
use crate::text::{outcome, trim, trimmed};

verus! {

/// The configuration as free text, one field per input box.
#[derive(Debug, Clone)]
pub struct AttendanceConfig {
    pub class_start: String,
    pub class_end: String,
    pub late_minutes: String,
    pub absent_minutes: String,
    pub total_points: String,
    pub late_penalty: String,
    pub absent_penalty: String,
}

/// What an [`AttendanceConfig`] holds, as characters.
pub struct AttendanceConfigView {
    pub class_start: Seq<char>,
    pub class_end: Seq<char>,
    pub late_minutes: Seq<char>,
    pub absent_minutes: Seq<char>,
    pub total_points: Seq<char>,
    pub late_penalty: Seq<char>,
    pub absent_penalty: Seq<char>,
}

impl View for AttendanceConfig {
    type V = AttendanceConfigView;

    open spec fn view(&self) -> AttendanceConfigView {
        AttendanceConfigView {
            class_start: self.class_start@,
            class_end: self.class_end@,
            late_minutes: self.late_minutes@,
            absent_minutes: self.absent_minutes@,
            total_points: self.total_points@,
            late_penalty: self.late_penalty@,
            absent_penalty: self.absent_penalty@,
        }
    }
}

/// The validated class-time window.
#[derive(Debug, Clone, Copy, PartialEq, Eq, Structural)]
pub struct ConfigValues {
    /// When class starts.
    pub class_start: TimeOfDay,
    /// The longest delay, in whole minutes, that still counts as on time.
    pub late_minutes: i64,
    /// The longest delay, in whole minutes, that still counts as late.
    pub absent_minutes: i64,
}

/// The validated window, or the message for the first field that is not
/// valid, given what the time parser made of the two class times. Every
/// message names its field. The fields
/// are taken in this order: class start, class end, the end being after the
/// start, late minutes, absent minutes. Nothing ties the two thresholds to
/// each other. The three fields on points are not read.
pub open spec fn config_outcome(
    config: AttendanceConfigView,
    start: Option<(u32, u32)>,
    end: Option<(u32, u32)>,
) -> Result<ConfigValues, Seq<char>> {
    match time_outcome(TimeField::ClassStart, config.class_start, start) {
        Err(message) => Err(message),
        Ok(class_start) => match time_outcome(TimeField::ClassEnd, config.class_end, end) {
            Err(message) => Err(message),
            Ok(class_end) => if !class_start.before(class_end) {
                Err("Class end time must be after the start time."@)
            } else {
                match parsed_integer(trimmed(config.late_minutes)) {
                    None => Err("Late minutes must be a number."@),
                    Some(late_minutes) => match parsed_integer(trimmed(config.absent_minutes)) {
                        None => Err("Absent minutes must be a number."@),
                        Some(absent_minutes) => Ok(
                            ConfigValues { class_start, late_minutes, absent_minutes },
                        ),
                    },
                }
            },
        },
    }
}

/// Validates the class-time window, given what the time parser made of the
/// two class times.
pub fn resolve_config(
    config: &AttendanceConfig,
    start: Option<(u32, u32)>,
    end: Option<(u32, u32)>,
) -> (result: Result<ConfigValues, String>)
    ensures
        outcome(result) == config_outcome(config@, start, end),
{
    let class_start = match time_or_error(TimeField::ClassStart, config.class_start.as_str(), start) {
        Ok(time) => time,
        Err(message) => {
            return Err(message);
        },
    };
    let class_end = match time_or_error(TimeField::ClassEnd, config.class_end.as_str(), end) {
        Ok(time) => time,
        Err(message) => {
            return Err(message);
        },
    };
    if !class_start.is_before(&class_end) {
        return Err(String::from_str("Class end time must be after the start time."));
    }
    let late_text = trim(config.late_minutes.as_str());
    let late_minutes = match parse_integer(late_text.as_str()) {
        Some(number) => number,
        None => {
            return Err(String::from_str("Late minutes must be a number."));
        },
    };
    let absent_text = trim(config.absent_minutes.as_str());
    let absent_minutes = match parse_integer(absent_text.as_str()) {
        Some(number) => number,
        None => {
            return Err(String::from_str("Absent minutes must be a number."));
        },
    };
    Ok(ConfigValues { class_start, late_minutes, absent_minutes })
}

/// Validates the class-time window of `config`: both class times in hours
/// and minutes on the 24-hour clock, the end after the start, and both
/// thresholds whole numbers. The first field that is not valid gives the
/// message; no partial result is returned.
pub fn parse_config(config: AttendanceConfig) -> (result: Result<ConfigValues, String>)
    ensures
        outcome(result) == config_outcome(
            config@,
            parsed_time(trimmed(config@.class_start), time_format()),
            parsed_time(trimmed(config@.class_end), time_format()),
        ),
{
    let start = crate::clock::parse_time_fields(config.class_start.as_str());
    let end = crate::clock::parse_time_fields(config.class_end.as_str());
    resolve_config(&config, start, end)
}

} // verus!
