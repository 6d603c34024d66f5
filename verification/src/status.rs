//! Punctuality classes and the rule that assigns them.

use vstd::prelude::*;
use crate::clock::Timestamp;
use crate::config::ConfigValues;
use crate::participant::{Participant, ParticipantView};

verus! {

/// How a participant's first join compares with the start of class.
#[derive(Debug, Clone, Copy, PartialEq, Eq, Structural)]
pub enum AttendanceStatus {
    Normal,
    Late,
    Absent,
}

/// The class of a participant who joined `minutes` whole minutes after the
/// start of class. The two thresholds are compared independently: when
/// `absent_minutes` is below `late_minutes` no delay is `Late`.
pub open spec fn status_of_delay(minutes: int, late_minutes: int, absent_minutes: int) -> AttendanceStatus {
    if minutes <= late_minutes {
        AttendanceStatus::Normal
    } else if minutes <= absent_minutes {
        AttendanceStatus::Late
    } else {
        AttendanceStatus::Absent
    }
}

/// The class of `participant` in a session whose class starts at
/// `class_start`: the delay is counted in whole minutes and floored at zero,
/// then held against the two thresholds of `config`.
pub open spec fn status_of(
    participant: ParticipantView,
    class_start: Timestamp,
    config: ConfigValues,
) -> AttendanceStatus {
    status_of_delay(
        participant.first_join.minutes_after(class_start),
        config.late_minutes as int,
        config.absent_minutes as int,
    )
}

/// Classifies one participant against the start of class.
pub fn classify_attendance(
    participant: &Participant,
    class_start: &Timestamp,
    config: &ConfigValues,
) -> (status: AttendanceStatus)
    ensures
        status == status_of(participant@, *class_start, *config),
{
    let minutes = participant.first_join.delay_minutes(class_start);
    classify_delay(minutes, config.late_minutes, config.absent_minutes)
}

/// Where the classes change: a delay of exactly the late threshold is on
/// time, and where the absent threshold lies above the late one, one minute
/// more is late; one minute beyond the absent threshold is absent whenever
/// that is beyond the late threshold too.
pub proof fn lemma_class_boundaries(late_minutes: int, absent_minutes: int)
    ensures
        status_of_delay(late_minutes, late_minutes, absent_minutes) == AttendanceStatus::Normal,
        absent_minutes > late_minutes ==> status_of_delay(
            late_minutes + 1,
            late_minutes,
            absent_minutes,
        ) == AttendanceStatus::Late,
        absent_minutes >= late_minutes ==> status_of_delay(
            absent_minutes + 1,
            late_minutes,
            absent_minutes,
        ) == AttendanceStatus::Absent,
        absent_minutes < late_minutes ==> forall|minutes: int|
            status_of_delay(minutes, late_minutes, absent_minutes) != AttendanceStatus::Late,
{
}

/// Classifies a delay given in whole minutes.
pub fn classify_delay(minutes: i64, late_minutes: i64, absent_minutes: i64) -> (status: AttendanceStatus)
    ensures
        status == status_of_delay(minutes as int, late_minutes as int, absent_minutes as int),
{
    if minutes <= late_minutes {
        AttendanceStatus::Normal
    } else if minutes <= absent_minutes {
        AttendanceStatus::Late
    } else {
        AttendanceStatus::Absent
    }
}

} // verus!
