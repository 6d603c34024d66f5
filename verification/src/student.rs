//! The running tally kept for one student.

use vstd::prelude::*;
use crate::participant::{identity_key, ParticipantView};
use crate::status::AttendanceStatus;

verus! {

/// One student's identity and counters over the sessions folded so far.
#[derive(Debug, Clone)]
pub struct StudentRecord {
    pub name: String,
    pub surname: String,
    pub id: String,
    pub email: String,
    /// Sessions joined on time.
    pub normal: u32,
    /// Sessions joined late.
    pub late: u32,
    /// Sessions missed, or joined too late to count.
    pub absent: u32,
}

/// What a [`StudentRecord`] holds, as mathematical values.
pub struct StudentView {
    pub name: Seq<char>,
    pub surname: Seq<char>,
    pub id: Seq<char>,
    pub email: Seq<char>,
    pub normal: nat,
    pub late: nat,
    pub absent: nat,
}

impl View for StudentRecord {
    type V = StudentView;

    open spec fn view(&self) -> StudentView {
        StudentView {
            name: self.name@,
            surname: self.surname@,
            id: self.id@,
            email: self.email@,
            normal: self.normal as nat,
            late: self.late as nat,
            absent: self.absent as nat,
        }
    }
}

impl DeepView for StudentRecord {
    type V = StudentView;

    open spec fn deep_view(&self) -> StudentView {
        self@
    }
}

impl StudentView {
    /// The identity key of this student.
    pub open spec fn key(self) -> Seq<char> {
        identity_key(self.name, self.surname, self.id, self.email)
    }

    /// The number of sessions this record accounts for.
    pub open spec fn total(self) -> nat {
        self.normal + self.late + self.absent
    }

    /// The record with one more session of class `status`.
    pub open spec fn credited(self, status: AttendanceStatus) -> StudentView {
        match status {
            AttendanceStatus::Normal => StudentView { normal: self.normal + 1, ..self },
            AttendanceStatus::Late => StudentView { late: self.late + 1, ..self },
            AttendanceStatus::Absent => StudentView { absent: self.absent + 1, ..self },
        }
    }

    /// The record of a student first seen as `participant` after `sessions`
    /// sessions: absent in each of them, and nothing else yet.
    pub open spec fn enrolled(participant: ParticipantView, sessions: nat) -> StudentView {
        StudentView {
            name: participant.name,
            surname: participant.surname,
            id: participant.id,
            email: participant.email,
            normal: 0,
            late: 0,
            absent: sessions,
        }
    }
}

/// Counts one more session of class `status` on `record`.
pub fn apply_status(record: &mut StudentRecord, status: AttendanceStatus)
    requires
        match status {
            AttendanceStatus::Normal => old(record).normal < u32::MAX,
            AttendanceStatus::Late => old(record).late < u32::MAX,
            AttendanceStatus::Absent => old(record).absent < u32::MAX,
        },
    ensures
        final(record)@ == old(record)@.credited(status),
{
    match status {
        AttendanceStatus::Normal => record.normal += 1,
        AttendanceStatus::Late => record.late += 1,
        AttendanceStatus::Absent => record.absent += 1,
    }
}

} // verus!
