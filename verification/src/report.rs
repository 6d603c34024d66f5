//! The finished report: every student's tally, in list order, with the number
//! of sessions counted.

use vstd::prelude::*;
use vstd::string::StringExecFns;
use crate::clock::{parsed_time, time_format};
use crate::config::{config_outcome, parse_config, AttendanceConfig, ConfigValues};
use crate::listing::{in_list_order, is_listed, lemma_list_order, lemma_list_order_keeps, sort_students};
use crate::participant::{distinct_keys, Participant, ParticipantView};
use crate::rows::{header_row, lacks_join_column, lemma_no_join_column, participants_of_rows};
use crate::student::{StudentRecord, StudentView};
use crate::tally::{lemma_counters_add_up, SessionAggregator, TallyView};
use crate::text::trimmed;

verus! {

/// The file format of an exported report.
#[derive(Debug, Clone, Copy, PartialEq, Eq, Structural)]
pub enum ReportFormat {
    Csv,
    Txt,
    Pdf,
}

impl ReportFormat {
    /// The label of the format as the user reads it.
    pub open spec fn label_text(self) -> Seq<char> {
        match self {
            ReportFormat::Csv => "CSV"@,
            ReportFormat::Txt => "Text"@,
            ReportFormat::Pdf => "PDF"@,
        }
    }

    /// The label of the format as the user reads it.
    pub fn label(&self) -> (label: String)
        ensures
            label@ == self.label_text(),
    {
        match self {
            ReportFormat::Csv => String::from_str("CSV"),
            ReportFormat::Txt => String::from_str("Text"),
            ReportFormat::Pdf => String::from_str("PDF"),
        }
    }

    /// The three formats, in the order in which they are offered.
    pub fn all() -> (formats: [ReportFormat; 3])
        ensures
            formats@ == seq![ReportFormat::Csv, ReportFormat::Txt, ReportFormat::Pdf],
    {
        let formats = [ReportFormat::Csv, ReportFormat::Txt, ReportFormat::Pdf];
        assert(formats@ =~= seq![ReportFormat::Csv, ReportFormat::Txt, ReportFormat::Pdf]);
        formats
    }
}

/// The report of a run.
#[derive(Debug, Clone)]
pub struct AttendanceReport {
    /// One record per student, by surname and then by given name.
    pub students: Vec<StudentRecord>,
    /// The number of sessions counted: those with at least one participant.
    pub sessions: usize,
}

/// What an [`AttendanceReport`] holds, as mathematical values.
pub struct ReportView {
    pub students: Seq<StudentView>,
    pub sessions: nat,
}

impl View for AttendanceReport {
    type V = ReportView;

    open spec fn view(&self) -> ReportView {
        ReportView { students: self.students.deep_view(), sessions: self.sessions as nat }
    }
}

/// The report of a tally: its records in list order, and its session count.
pub open spec fn report_of(tally: TallyView) -> ReportView {
    ReportView { students: in_list_order(tally.students), sessions: tally.sessions }
}

/// The number of participants in all `sessions` together.
pub open spec fn total_events(sessions: Seq<Seq<ParticipantView>>) -> nat
    decreases sessions.len(),
{
    if sessions.len() == 0 {
        0
    } else {
        total_events(sessions.drop_last()) + sessions.last().len()
    }
}

/// The report of `sessions` under the validated window, or the message with
/// which the configuration was refused.
pub open spec fn report_outcome(
    sessions: Seq<Seq<ParticipantView>>,
    config: Result<ConfigValues, Seq<char>>,
) -> Result<ReportView, Seq<char>> {
    match config {
        Err(message) => Err(message),
        Ok(values) => Ok(report_of(TallyView::empty().after_sessions(sessions, values))),
    }
}

/// A report or a message, as mathematical values.
pub open spec fn report_view(result: Result<AttendanceReport, String>) -> Result<
    ReportView,
    Seq<char>,
> {
    match result {
        Ok(report) => Ok(report@),
        Err(message) => Err(message@),
    }
}

/// In every report of sessions in which nobody appears twice, each student's
/// three counters add up to the number of sessions counted.
pub proof fn lemma_report_counters_add_up(
    sessions: Seq<Seq<ParticipantView>>,
    config: ConfigValues,
)
    requires
        forall|s: int| 0 <= s < sessions.len() ==> distinct_keys(#[trigger] sessions[s]),
    ensures
        forall|i: int|
            0 <= i < report_of(TallyView::empty().after_sessions(sessions, config)).students.len()
                ==> (#[trigger] report_of(
                TallyView::empty().after_sessions(sessions, config),
            ).students[i]).total() == report_of(
                TallyView::empty().after_sessions(sessions, config),
            ).sessions,
{
    let tally = TallyView::empty().after_sessions(sessions, config);
    let report = report_of(tally);
    lemma_counters_add_up(sessions, config);
    lemma_list_order(tally.students);
    assert forall|i: int| 0 <= i < report.students.len() implies (
    #[trigger] report.students[i]).total() == report.sessions by {
        lemma_list_order_keeps(tally.students, i);
        let j = choose|j: int| 0 <= j < tally.students.len() && tally.students[j]
            == report.students[i];
        assert(tally.students[j].total() == tally.sessions);
    }
}

impl SessionAggregator {
    /// The report of the sessions folded in.
    pub fn into_report(self) -> (report: AttendanceReport)
        requires
            self.wf(),
        ensures
            report@ == report_of(self@),
            is_listed(report@.students),
            report@.students.to_multiset() == self@.students.to_multiset(),
    {
        let sessions = self.sessions();
        let students = sort_students(self.into_students());
        AttendanceReport { students, sessions }
    }
}

/// Builds the report of `sessions`, taken in the order given, under a
/// validated window.
pub fn report_for(sessions: &Vec<Vec<Participant>>, config: &ConfigValues) -> (report:
    AttendanceReport)
    requires
        total_events(sessions.deep_view()) <= u32::MAX,
    ensures
        report@ == report_of(TallyView::empty().after_sessions(sessions.deep_view(), *config)),
        is_listed(report@.students),
        (forall|s: int|
            0 <= s < sessions.len() ==> distinct_keys(#[trigger] sessions.deep_view()[s]))
            ==> forall|i: int|
            0 <= i < report@.students.len() ==> (#[trigger] report@.students[i]).total()
                == report@.sessions,
{
    let ghost all = sessions.deep_view();
    let mut aggregator = SessionAggregator::new();
    let mut at: usize = 0;
    assert(all.take(0) =~= Seq::<Seq<ParticipantView>>::empty());
    while at < sessions.len()
        invariant
            at <= sessions.len(),
            all == sessions.deep_view(),
            aggregator.wf(),
            aggregator@ == TallyView::empty().after_sessions(all.take(at as int), *config),
            aggregator@.events == total_events(all.take(at as int)),
            total_events(all) <= u32::MAX,
        decreases sessions.len() - at,
    {
        proof {
            let next = all.take(at + 1);
            assert(next.drop_last() =~= all.take(at as int));
            assert(next.last() == sessions[at as int].deep_view());
            lemma_total_events_grows(all, at + 1);
        }
        aggregator.add_session(&sessions[at], config);
        at += 1;
    }
    proof {
        assert(all.take(at as int) =~= all);
        if forall|s: int| 0 <= s < all.len() ==> distinct_keys(#[trigger] all[s]) {
            lemma_report_counters_add_up(all, *config);
        }
    }
    aggregator.into_report()
}

/// The participants of the first sessions are no more than those of all.
pub proof fn lemma_total_events_grows(sessions: Seq<Seq<ParticipantView>>, upto: int)
    requires
        0 <= upto <= sessions.len(),
    ensures
        total_events(sessions.take(upto)) <= total_events(sessions),
    decreases sessions.len() - upto,
{
    if upto == sessions.len() {
        assert(sessions.take(upto) =~= sessions);
    } else {
        let next = sessions.take(upto + 1);
        assert(next.drop_last() =~= sessions.take(upto));
        lemma_total_events_grows(sessions, upto + 1);
    }
}

/// Counts the participants of all sessions together; `None` where they are
/// more than the 32-bit counters of a tally can take.
pub fn count_events(sessions: &Vec<Vec<Participant>>) -> (count: Option<u32>)
    ensures
        match count {
            Some(number) => number == total_events(sessions.deep_view()),
            None => total_events(sessions.deep_view()) > u32::MAX,
        },
{
    let ghost all = sessions.deep_view();
    let mut count: u32 = 0;
    let mut at: usize = 0;
    assert(all.take(0) =~= Seq::<Seq<ParticipantView>>::empty());
    while at < sessions.len()
        invariant
            at <= sessions.len(),
            all == sessions.deep_view(),
            count == total_events(all.take(at as int)),
        decreases sessions.len() - at,
    {
        proof {
            let next = all.take(at + 1);
            assert(next.drop_last() =~= all.take(at as int));
            assert(next.last().len() == sessions[at as int].len());
            lemma_total_events_grows(all, at + 1);
        }
        let more = sessions[at].len();
        if more > (u32::MAX - count) as usize {
            return None;
        }
        count = count + more as u32;
        at += 1;
    }
    assert(all.take(at as int) =~= all);
    Some(count)
}

/// Validates the configuration and builds the report of `sessions` as
/// [`generate_report`] does, for any number of participants: `None` where a
/// valid configuration meets more participants than the 32-bit counters can
/// take.
pub fn try_generate_report(sessions: Vec<Vec<Participant>>, config: AttendanceConfig) -> (result:
    Option<Result<AttendanceReport, String>>)
    ensures
        match result {
            Some(outcome) => report_view(outcome) == report_outcome(
                sessions.deep_view(),
                config_outcome(
                    config@,
                    parsed_time(trimmed(config@.class_start), time_format()),
                    parsed_time(trimmed(config@.class_end), time_format()),
                ),
            ),
            None => total_events(sessions.deep_view()) > u32::MAX,
        },
        (result matches Some(Ok(report)) && forall|s: int|
            0 <= s < sessions.len() ==> distinct_keys(#[trigger] sessions.deep_view()[s]))
            ==> forall|i: int|
            0 <= i < result->0->Ok_0@.students.len() ==> (
            #[trigger] result->0->Ok_0@.students[i]).total() == result->0->Ok_0@.sessions,
{
    match parse_config(config) {
        Err(message) => Some(Err(message)),
        Ok(values) => match count_events(&sessions) {
            None => None,
            Some(_) => Some(Ok(report_for(&sessions, &values))),
        },
    }
}

/// A session file whose header has no column `First Join`, or that has no
/// header at all, gives no participants and no error, and leaves the tally as
/// it was: the session is not counted and nobody is marked absent for it.
pub proof fn lemma_session_without_join_column(
    tally: TallyView,
    rows: Seq<Seq<Seq<char>>>,
    config: ConfigValues,
)
    requires
        header_row(rows) matches Some(header) ==> lacks_join_column(header),
    ensures
        participants_of_rows(rows) is Ok,
        tally.after_session(participants_of_rows(rows)->Ok_0, config) == tally,
{
    lemma_no_join_column(rows);
}

/// Validates the configuration and builds the report of `sessions`, taken in
/// the order given. An invalid configuration is refused before any session is
/// looked at. The counters are 32 bits wide, which bounds the number of
/// participants.
pub fn generate_report(sessions: Vec<Vec<Participant>>, config: AttendanceConfig) -> (result:
    Result<AttendanceReport, String>)
    requires
        total_events(sessions.deep_view()) <= u32::MAX,
    ensures
        report_view(result) == report_outcome(
            sessions.deep_view(),
            config_outcome(
                config@,
                parsed_time(trimmed(config@.class_start), time_format()),
                parsed_time(trimmed(config@.class_end), time_format()),
            ),
        ),
        (result is Ok && forall|s: int|
            0 <= s < sessions.len() ==> distinct_keys(#[trigger] sessions.deep_view()[s]))
            ==> forall|i: int|
            0 <= i < result->Ok_0@.students.len() ==> (
            #[trigger] result->Ok_0@.students[i]).total() == result->Ok_0@.sessions,
{
    match parse_config(config) {
        Err(message) => Err(message),
        Ok(values) => Ok(report_for(&sessions, &values)),
    }
}

} // verus!
