//! The running tally over sessions: who was seen, in which class, and who was
//! missing from a session held after they were first seen.

use vstd::prelude::*;
use crate::clock::Timestamp;
use crate::config::ConfigValues;
use crate::participant::{build_key, distinct_keys, Participant, ParticipantView};
use crate::status::{classify_attendance, status_of, AttendanceStatus};
use crate::student::{apply_status, StudentRecord, StudentView};
use crate::text::{find_text, first_index, lemma_first_index};

verus! {

/// The tally as mathematical values.
pub struct TallyView {
    /// One record per student, in the order in which they were first seen.
    pub students: Seq<StudentView>,
    /// Sessions counted so far: those with at least one participant.
    pub sessions: nat,
    /// Participants folded in so far, over all sessions.
    pub events: nat,
}

/// The keys of the records, in their order.
pub open spec fn student_keys(students: Seq<StudentView>) -> Seq<Seq<char>> {
    Seq::new(students.len(), |i: int| students[i].key())
}

/// The index of the first record whose key is `key`, or the length of
/// `students` when there is none.
pub open spec fn position(students: Seq<StudentView>, key: Seq<char>) -> int {
    first_index(student_keys(students), key)
}

/// The records after one participant of class `status` is counted: on the
/// record with the participant's key where there is one, else on a new record
/// that starts out absent from each of the `sessions` sessions already held.
pub open spec fn record_event(
    students: Seq<StudentView>,
    participant: ParticipantView,
    status: AttendanceStatus,
    sessions: nat,
) -> Seq<StudentView> {
    let at = position(students, participant.key());
    if at < students.len() {
        students.update(at, students[at].credited(status))
    } else {
        students.push(StudentView::enrolled(participant, sessions).credited(status))
    }
}

/// The earliest first join among `events`, which should not be empty.
pub open spec fn earliest_join(events: Seq<ParticipantView>) -> Timestamp
    decreases events.len(),
{
    if events.len() <= 1 {
        events[0].first_join
    } else {
        let rest = earliest_join(events.drop_last());
        if events.last().first_join.before(rest) {
            events.last().first_join
        } else {
            rest
        }
    }
}

/// The records after every participant in `events` is classified against
/// `class_start` and counted, in order.
pub open spec fn after_events(
    students: Seq<StudentView>,
    events: Seq<ParticipantView>,
    class_start: Timestamp,
    config: ConfigValues,
    sessions: nat,
) -> Seq<StudentView>
    decreases events.len(),
{
    if events.len() == 0 {
        students
    } else {
        record_event(
            after_events(students, events.drop_last(), class_start, config, sessions),
            events.last(),
            status_of(events.last(), class_start, config),
            sessions,
        )
    }
}

/// Some participant in `events` has the key `key`.
pub open spec fn attended(events: Seq<ParticipantView>, key: Seq<char>) -> bool {
    exists|i: int| 0 <= i < events.len() && #[trigger] events[i].key() == key
}

/// The records with one more absence on each student who has no participant
/// in `events`.
pub open spec fn absences_marked(
    students: Seq<StudentView>,
    events: Seq<ParticipantView>,
) -> Seq<StudentView> {
    Seq::new(
        students.len(),
        |j: int|
            if attended(events, students[j].key()) {
                students[j]
            } else {
                students[j].credited(AttendanceStatus::Absent)
            },
    )
}

impl TallyView {
    /// The tally before any session.
    pub open spec fn empty() -> TallyView {
        TallyView { students: Seq::empty(), sessions: 0, events: 0 }
    }

    /// The tally after one more session. A session without participants
    /// changes nothing and is not counted. Otherwise class starts at the
    /// configured time on the day of the session's earliest join.
    pub open spec fn after_session(
        self,
        events: Seq<ParticipantView>,
        config: ConfigValues,
    ) -> TallyView {
        if events.len() == 0 {
            self
        } else {
            let class_start = config.class_start.on_day_of(earliest_join(events));
            TallyView {
                students: absences_marked(
                    after_events(self.students, events, class_start, config, self.sessions),
                    events,
                ),
                sessions: self.sessions + 1,
                events: self.events + events.len(),
            }
        }
    }

    /// The tally after `sessions`, folded in order.
    pub open spec fn after_sessions(
        self,
        sessions: Seq<Seq<ParticipantView>>,
        config: ConfigValues,
    ) -> TallyView
        decreases sessions.len(),
    {
        if sessions.len() == 0 {
            self
        } else {
            self.after_sessions(sessions.drop_last(), config).after_session(
                sessions.last(),
                config,
            )
        }
    }
}

/// A session without participants changes nothing: it is not counted, and
/// nobody is marked absent for it.
pub proof fn lemma_empty_session_is_skipped(tally: TallyView, config: ConfigValues)
    ensures
        tally.after_session(Seq::empty(), config) == tally,
{
}

/// What `position` returns: an index within bounds or the length; the key
/// stands at that index and at none before it.
pub proof fn lemma_position(students: Seq<StudentView>, key: Seq<char>)
    ensures
        0 <= position(students, key) <= students.len(),
        position(students, key) < students.len() ==> students[position(students, key)].key()
            == key,
        forall|k: int| 0 <= k < position(students, key) ==> #[trigger] students[k].key() != key,
{
    let keys = student_keys(students);
    lemma_first_index(keys, key);
    assert forall|k: int| 0 <= k < position(students, key) implies #[trigger] students[k].key()
        != key by {
        assert(keys[k] == students[k].key());
    }
}

/// No two records in `students` share a key.
pub open spec fn distinct_students(students: Seq<StudentView>) -> bool {
    forall|i: int, j: int|
        0 <= i < j < students.len() ==> #[trigger] students[i].key() != #[trigger] students[j].key()
}

/// Every record accounts for exactly `sessions` sessions, but those of
/// students with a participant in `events`, which account for one more.
pub open spec fn settled(
    students: Seq<StudentView>,
    events: Seq<ParticipantView>,
    sessions: nat,
) -> bool {
    forall|j: int|
        0 <= j < students.len() ==> (#[trigger] students[j]).total() == if attended(
            events,
            students[j].key(),
        ) {
            sessions + 1
        } else {
            sessions
        }
}

/// Counting the participants of one session, none of them twice, leaves the
/// keys distinct and adds one session to exactly the students who took part.
pub proof fn lemma_events_settle(
    students: Seq<StudentView>,
    events: Seq<ParticipantView>,
    class_start: Timestamp,
    config: ConfigValues,
    sessions: nat,
)
    requires
        distinct_students(students),
        distinct_keys(events),
        forall|j: int| 0 <= j < students.len() ==> (#[trigger] students[j]).total() == sessions,
    ensures
        distinct_students(after_events(students, events, class_start, config, sessions)),
        settled(after_events(students, events, class_start, config, sessions), events, sessions),
    decreases events.len(),
{
    let after = after_events(students, events, class_start, config, sessions);
    if events.len() == 0 {
        assert forall|j: int| 0 <= j < after.len() implies !attended(events, after[j].key()) by {}
    } else {
        let prefix = events.drop_last();
        let last = events.last();
        let status = status_of(last, class_start, config);
        let earlier = after_events(students, prefix, class_start, config, sessions);
        assert forall|i: int, j: int| 0 <= i < j < prefix.len() implies #[trigger] prefix[i].key()
            != #[trigger] prefix[j].key() by {
            assert(prefix[i] == events[i] && prefix[j] == events[j]);
        }
        lemma_events_settle(students, prefix, class_start, config, sessions);
        lemma_position(earlier, last.key());
        let at = position(earlier, last.key());
        assert(!attended(prefix, last.key())) by {
            if attended(prefix, last.key()) {
                let w = choose|w: int| 0 <= w < prefix.len() && #[trigger] prefix[w].key()
                    == last.key();
                assert(events[w].key() != events[events.len() - 1].key());
            }
        }
        assert(after == record_event(earlier, last, status, sessions));
        assert forall|j: int| 0 <= j < after.len() implies (#[trigger] after[j]).total()
            == if attended(events, after[j].key()) {
            sessions + 1
        } else {
            sessions
        } by {
            let k = after[j].key();
            if j == at {
                assert(k == last.key());
                assert(events[events.len() - 1].key() == k);
            } else {
                assert(after[j] == earlier[j]);
                assert(k != last.key()) by {
                    if at < earlier.len() {
                        if j < at {
                            assert(earlier[j].key() != earlier[at].key());
                        } else {
                            assert(earlier[at].key() != earlier[j].key());
                        }
                    }
                }
                if attended(events, k) {
                    let w = choose|w: int| 0 <= w < events.len() && #[trigger] events[w].key() == k;
                    assert(w < events.len() - 1);
                    assert(prefix[w].key() == k);
                }
                if attended(prefix, k) {
                    let w = choose|w: int| 0 <= w < prefix.len() && #[trigger] prefix[w].key() == k;
                    assert(events[w].key() == k);
                }
            }
        }
        assert forall|i: int, j: int| 0 <= i < j < after.len() implies #[trigger] after[i].key()
            != #[trigger] after[j].key() by {
            if at < earlier.len() {
                assert(after[i].key() == earlier[i].key());
                assert(after[j].key() == earlier[j].key());
            } else {
                if j == at {
                    assert(after[i] == earlier[i]);
                    assert(earlier[i].key() != last.key());
                } else {
                    assert(after[i] == earlier[i] && after[j] == earlier[j]);
                }
            }
        }
    }
}

/// After a session in which nobody appears twice, every record accounts for
/// one session more than before, and the keys stay distinct.
pub proof fn lemma_session_counts_once(
    tally: TallyView,
    events: Seq<ParticipantView>,
    config: ConfigValues,
)
    requires
        distinct_students(tally.students),
        distinct_keys(events),
        forall|j: int|
            0 <= j < tally.students.len() ==> (#[trigger] tally.students[j]).total()
                == tally.sessions,
    ensures
        distinct_students(tally.after_session(events, config).students),
        forall|j: int|
            0 <= j < tally.after_session(events, config).students.len() ==> (
            #[trigger] tally.after_session(events, config).students[j]).total()
                == tally.after_session(events, config).sessions,
{
    if events.len() > 0 {
        let class_start = config.class_start.on_day_of(earliest_join(events));
        let counted = after_events(tally.students, events, class_start, config, tally.sessions);
        lemma_events_settle(tally.students, events, class_start, config, tally.sessions);
        let marked = absences_marked(counted, events);
        assert(tally.after_session(events, config).students == marked);
        assert forall|j: int| 0 <= j < marked.len() implies (#[trigger] marked[j]).total()
            == tally.sessions + 1 by {
            assert(counted[j].total() == if attended(events, counted[j].key()) {
                tally.sessions + 1
            } else {
                tally.sessions
            });
        }
        assert forall|i: int, j: int| 0 <= i < j < marked.len() implies #[trigger] marked[i].key()
            != #[trigger] marked[j].key() by {
            assert(marked[i].key() == counted[i].key());
            assert(marked[j].key() == counted[j].key());
        }
    }
}

/// Every student's three counters add up to the number of sessions counted,
/// whatever the sessions, as long as nobody appears twice in one session.
pub proof fn lemma_counters_add_up(sessions: Seq<Seq<ParticipantView>>, config: ConfigValues)
    requires
        forall|s: int| 0 <= s < sessions.len() ==> distinct_keys(#[trigger] sessions[s]),
    ensures
        distinct_students(TallyView::empty().after_sessions(sessions, config).students),
        forall|j: int|
            0 <= j < TallyView::empty().after_sessions(sessions, config).students.len() ==> (
            #[trigger] TallyView::empty().after_sessions(sessions, config).students[j]).total()
                == TallyView::empty().after_sessions(sessions, config).sessions,
    decreases sessions.len(),
{
    if sessions.len() > 0 {
        let earlier = sessions.drop_last();
        assert forall|s: int| 0 <= s < earlier.len() implies distinct_keys(
            #[trigger] earlier[s],
        ) by {
            assert(earlier[s] == sessions[s]);
        }
        lemma_counters_add_up(earlier, config);
        lemma_session_counts_once(
            TallyView::empty().after_sessions(earlier, config),
            sessions.last(),
            config,
        );
    }
}

/// The earliest first join among `participants`.
fn earliest(participants: &Vec<Participant>) -> (first: Timestamp)
    requires
        participants.len() > 0,
    ensures
        first == earliest_join(participants.deep_view()),
{
    let ghost events = participants.deep_view();
    let mut first = participants[0].first_join;
    assert(events.take(1).len() == 1 && events.take(1)[0] == events[0]);
    let mut i: usize = 1;
    while i < participants.len()
        invariant
            1 <= i <= participants.len(),
            events == participants.deep_view(),
            first == earliest_join(events.take(i as int)),
        decreases participants.len() - i,
    {
        let join = participants[i].first_join;
        proof {
            let upto = events.take(i + 1);
            assert(upto.drop_last() =~= events.take(i as int));
            assert(upto.last() == events[i as int]);
        }
        if join.is_before(&first) {
            first = join;
        }
        i += 1;
    }
    assert(events.take(i as int) =~= events);
    first
}

/// The state machine that folds sessions into per-student tallies.
pub struct SessionAggregator {
    keys: Vec<String>,
    students: Vec<StudentRecord>,
    sessions: usize,
    events: usize,
}

impl View for SessionAggregator {
    type V = TallyView;

    closed spec fn view(&self) -> TallyView {
        TallyView {
            students: self.students.deep_view(),
            sessions: self.sessions as nat,
            events: self.events as nat,
        }
    }
}

impl SessionAggregator {
    /// The aggregator's internal bookkeeping is consistent.
    pub closed spec fn wf(&self) -> bool {
        &&& self.keys.len() == self.students.len()
        &&& forall|i: int|
            0 <= i < self.keys.len() ==> (#[trigger] self.keys[i])@ == self.students[i]@.key()
        &&& forall|i: int, j: int|
            0 <= i < j < self.keys.len() ==> (#[trigger] self.keys[i])@ != (
            #[trigger] self.keys[j])@
        &&& self.sessions <= self.events <= u32::MAX
        &&& forall|i: int|
            0 <= i < self.students.len() ==> (#[trigger] self.students[i])@.total() <= self.events
    }

    /// An aggregator that has seen no session.
    pub fn new() -> (aggregator: SessionAggregator)
        ensures
            aggregator.wf(),
            aggregator@ == TallyView::empty(),
    {
        let aggregator = SessionAggregator {
            keys: Vec::new(),
            students: Vec::new(),
            sessions: 0,
            events: 0,
        };
        assert(aggregator.students.deep_view() =~= Seq::<StudentView>::empty());
        aggregator
    }

    /// The number of sessions counted so far.
    pub fn sessions(&self) -> (count: usize)
        ensures
            count == self@.sessions,
    {
        self.sessions
    }

    /// The number of participants folded in so far.
    pub fn events(&self) -> (count: usize)
        ensures
            count == self@.events,
    {
        self.events
    }

    /// The records, in the order in which the students were first seen.
    pub fn into_students(self) -> (students: Vec<StudentRecord>)
        ensures
            students.deep_view() == self@.students,
    {
        self.students
    }

    /// Folds one session in. Each participant is classified against the start
    /// of class on the day of the session's earliest join and counted on the
    /// record with the same key; a student not seen before gets a record that
    /// is absent from every session already counted. Students known before and
    /// missing from this session are marked absent once. A session without
    /// participants is skipped.
    ///
    /// The counters are 32 bits wide, which bounds the number of participants
    /// that one aggregator can take.
    pub fn add_session(&mut self, participants: &Vec<Participant>, config: &ConfigValues)
        requires
            old(self).wf(),
            old(self)@.events + participants.len() <= u32::MAX,
        ensures
            final(self).wf(),
            final(self)@ == old(self)@.after_session(participants.deep_view(), *config),
    {
        let n = participants.len();
        if n == 0 {
            return ;
        }
        let first = earliest(participants);
        let class_start = config.class_start.on(&first);
        let ghost events = participants.deep_view();
        let ghost before = self@;
        let mut present: Vec<bool> = vec![false; self.students.len()];
        assert forall|j: int| 0 <= j < present.len() implies present[j] == attended(
            events.take(0),
            self.students[j]@.key(),
        ) by {}
        let mut i: usize = 0;
        while i < n
            invariant
                i <= n,
                n == participants.len(),
                events == participants.deep_view(),
                self.keys.len() == self.students.len(),
                present.len() == self.students.len(),
                forall|j: int|
                    0 <= j < self.keys.len() ==> (#[trigger] self.keys[j])@
                        == self.students[j]@.key(),
                forall|a: int, b: int|
                    0 <= a < b < self.keys.len() ==> (#[trigger] self.keys[a])@ != (
                    #[trigger] self.keys[b])@,
                self.students.deep_view() == after_events(
                    before.students,
                    events.take(i as int),
                    class_start,
                    *config,
                    before.sessions,
                ),
                forall|j: int|
                    0 <= j < present.len() ==> #[trigger] present[j] == attended(
                        events.take(i as int),
                        self.students[j]@.key(),
                    ),
                forall|j: int|
                    0 <= j < self.students.len() ==> (#[trigger] self.students[j])@.total()
                        <= before.events + i,
                forall|j: int|
                    0 <= j < self.students.len() && !present[j] ==> (
                    #[trigger] self.students[j])@.total() <= before.events,
                self.sessions == before.sessions,
                self.events == before.events,
                before.sessions <= before.events,
                before.events + n <= u32::MAX,
            decreases n - i,
        {
            let participant = &participants[i];
            let key = build_key(participant);
            let status = classify_attendance(participant, &class_start, config);
            let at = find_text(&self.keys, &key);
            let ghost earlier = self.students.deep_view();
            let ghost upto = events.take(i + 1);
            proof {
                assert(upto.drop_last() =~= events.take(i as int));
                assert(upto.last() == participant@);
                assert(self.keys.deep_view() =~= student_keys(earlier));
            }
            if at < self.keys.len() {
                apply_status(&mut self.students[at], status);
                present.set(at, true);
                assert(self.students.deep_view() =~= record_event(
                    earlier,
                    participant@,
                    status,
                    before.sessions,
                ));
            } else {
                let mut record = StudentRecord {
                    name: participant.name.clone(),
                    surname: participant.surname.clone(),
                    id: participant.id.clone(),
                    email: participant.email.clone(),
                    normal: 0,
                    late: 0,
                    absent: self.sessions as u32,
                };
                apply_status(&mut record, status);
                self.students.push(record);
                self.keys.push(key);
                present.push(true);
                assert(self.students.deep_view() =~= record_event(
                    earlier,
                    participant@,
                    status,
                    before.sessions,
                ));
            }
            proof {
                assert forall|j: int| 0 <= j < present.len() implies #[trigger] present[j]
                    == attended(upto, self.students[j]@.key()) by {
                    let k = self.students[j]@.key();
                    if j == at {
                        assert(upto[i as int].key() == k);
                    } else {
                        assert(self.keys[j]@ == k);
                        if at < earlier.len() {
                            assert(self.keys[at as int]@ == key@);
                            if j < at {
                                assert(self.keys[j]@ != self.keys[at as int]@);
                            } else {
                                assert(self.keys[at as int]@ != self.keys[j]@);
                            }
                        }
                        assert(k != key@);
                        if attended(upto, k) {
                            let w = choose|w: int| 0 <= w < upto.len() && #[trigger] upto[w].key() == k;
                            assert(w < i);
                            assert(events.take(i as int)[w].key() == k);
                        }
                        if attended(events.take(i as int), k) {
                            let w = choose|w: int|
                                0 <= w < events.take(i as int).len() && #[trigger] events.take(
                                    i as int,
                                )[w].key() == k;
                            assert(upto[w].key() == k);
                        }
                    }
                }
            }
            i += 1;
        }
        assert(events.take(n as int) =~= events);
        let ghost counted = self.students.deep_view();
        let mut j: usize = 0;
        while j < self.students.len()
            invariant
                j <= self.students.len(),
                self.students.len() == counted.len(),
                present.len() == self.students.len(),
                self.keys.len() == self.students.len(),
                forall|k: int|
                    0 <= k < self.keys.len() ==> (#[trigger] self.keys[k])@
                        == self.students[k]@.key(),
                forall|a: int, b: int|
                    0 <= a < b < self.keys.len() ==> (#[trigger] self.keys[a])@ != (
                    #[trigger] self.keys[b])@,
                forall|k: int|
                    0 <= k < present.len() ==> #[trigger] present[k] == attended(
                        events,
                        counted[k].key(),
                    ),
                forall|k: int|
                    0 <= k < j ==> (#[trigger] self.students[k])@ == absences_marked(
                        counted,
                        events,
                    )[k],
                forall|k: int|
                    j <= k < self.students.len() ==> (#[trigger] self.students[k])@ == counted[k],
                forall|k: int|
                    0 <= k < counted.len() ==> (#[trigger] counted[k]).total() <= before.events + n,
                forall|k: int|
                    0 <= k < counted.len() && !present[k] ==> (#[trigger] counted[k]).total()
                        <= before.events,
                n >= 1,
                self.sessions == before.sessions,
                self.events == before.events,
                before.sessions <= before.events,
                before.events + n <= u32::MAX,
            decreases self.students.len() - j,
        {
            if !present[j] {
                apply_status(&mut self.students[j], AttendanceStatus::Absent);
            }
            j += 1;
        }
        self.sessions += 1;
        self.events += n;
        assert(self.students.deep_view() =~= absences_marked(counted, events));
        assert forall|k: int| 0 <= k < self.students.len() implies (
        #[trigger] self.students[k])@.total() <= self.events by {
            assert(self.students[k]@ == absences_marked(counted, events)[k]);
            assert(counted[k].total() <= before.events + n);
        }
    }
}

} // verus!
