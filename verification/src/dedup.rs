//! One record per person within a session: of the rows that share an identity
//! key, the one with the earliest join.

use vstd::prelude::*;
use crate::participant::{build_key, distinct_keys, Participant, ParticipantView};
use crate::text::{find_text, first_index, lemma_first_index};

verus! {

/// The keys of the records, in their order.
pub open spec fn participant_keys(kept: Seq<ParticipantView>) -> Seq<Seq<char>> {
    Seq::new(kept.len(), |i: int| kept[i].key())
}

/// The index of the first record whose key is `key`, or the length of `kept`
/// where there is none.
pub open spec fn key_position(kept: Seq<ParticipantView>, key: Seq<char>) -> int {
    first_index(participant_keys(kept), key)
}

/// The records kept once `participant` is taken in: in the place of the
/// record with the same key where it joined earlier than that one, dropped
/// where it did not, and at the end where its key is new.
pub open spec fn retained(
    kept: Seq<ParticipantView>,
    participant: ParticipantView,
) -> Seq<ParticipantView> {
    let at = key_position(kept, participant.key());
    if at < kept.len() {
        if participant.first_join.before(kept[at].first_join) {
            kept.update(at, participant)
        } else {
            kept
        }
    } else {
        kept.push(participant)
    }
}

/// The records kept of `events`, taken in order.
pub open spec fn deduplicated(events: Seq<ParticipantView>) -> Seq<ParticipantView>
    decreases events.len(),
{
    if events.len() == 0 {
        events
    } else {
        retained(deduplicated(events.drop_last()), events.last())
    }
}

/// What `key_position` returns: an index within bounds or the length; the key
/// stands at that index and at none before it.
pub proof fn lemma_key_position(kept: Seq<ParticipantView>, key: Seq<char>)
    ensures
        0 <= key_position(kept, key) <= kept.len(),
        key_position(kept, key) < kept.len() ==> kept[key_position(kept, key)].key() == key,
        forall|k: int| 0 <= k < key_position(kept, key) ==> #[trigger] kept[k].key() != key,
{
    let keys = participant_keys(kept);
    lemma_first_index(keys, key);
    assert forall|k: int| 0 <= k < key_position(kept, key) implies #[trigger] kept[k].key()
        != key by {
        assert(keys[k] == kept[k].key());
    }
}

/// Taking a participant in leaves the keys of the records distinct.
pub proof fn lemma_retained_distinct(kept: Seq<ParticipantView>, participant: ParticipantView)
    requires
        distinct_keys(kept),
    ensures
        distinct_keys(retained(kept, participant)),
{
    lemma_key_position(kept, participant.key());
    let at = key_position(kept, participant.key());
    let after = retained(kept, participant);
    assert forall|a: int, b: int| 0 <= a < b < after.len() implies #[trigger] after[a].key()
        != #[trigger] after[b].key() by {
        if at < kept.len() {
            assert(after[a].key() == kept[a].key());
            assert(after[b].key() == kept[b].key());
        } else if b == at {
            assert(after[a] == kept[a]);
        } else {
            assert(after[a] == kept[a] && after[b] == kept[b]);
        }
    }
}

/// A record with the key of `event` is kept that joined no later than it.
pub open spec fn keeps_no_later(kept: Seq<ParticipantView>, event: ParticipantView) -> bool {
    exists|j: int|
        0 <= j < kept.len() && #[trigger] kept[j].key() == event.key()
            && !event.first_join.before(kept[j].first_join)
}

/// Every record kept is one of the events; no two records kept share a key;
/// and for every event a record with its key is kept that joined no later.
pub proof fn lemma_deduplicated(events: Seq<ParticipantView>)
    ensures
        distinct_keys(deduplicated(events)),
        forall|j: int|
            0 <= j < deduplicated(events).len() ==> events.contains(
                #[trigger] deduplicated(events)[j],
            ),
        forall|i: int|
            0 <= i < events.len() ==> keeps_no_later(deduplicated(events), #[trigger] events[i]),
    decreases events.len(),
{
    let kept = deduplicated(events);
    if events.len() > 0 {
        let earlier = events.drop_last();
        let last = events.last();
        let before = deduplicated(earlier);
        lemma_deduplicated(earlier);
        lemma_key_position(before, last.key());
        let at = key_position(before, last.key());
        assert(kept == retained(before, last));
        lemma_retained_distinct(before, last);
        assert forall|j: int| 0 <= j < kept.len() implies events.contains(#[trigger] kept[j]) by {
            if j < before.len() && kept[j] == before[j] {
                assert(earlier.contains(before[j]));
                let i = choose|i: int| 0 <= i < earlier.len() && earlier[i] == before[j];
                assert(events[i] == kept[j]);
            } else {
                assert(kept[j] == last);
                assert(events[events.len() - 1] == last);
            }
        }
        assert forall|i: int| 0 <= i < events.len() implies keeps_no_later(
            kept,
            #[trigger] events[i],
        ) by {
            if i == events.len() - 1 {
                if at < before.len() {
                    assert(kept[at].key() == events[i].key());
                } else {
                    assert(kept[kept.len() - 1].key() == events[i].key());
                }
            } else {
                assert(earlier[i] == events[i]);
                assert(keeps_no_later(before, earlier[i]));
                let j = choose|j: int|
                    0 <= j < before.len() && #[trigger] before[j].key() == earlier[i].key()
                        && !earlier[i].first_join.before(before[j].first_join);
                assert(kept[j].key() == events[i].key());
            }
        }
    }
}

/// The order of the rows does not decide which join time is kept for a
/// person: two lists of the same events keep, for every key, records with the
/// same join time.
pub proof fn lemma_dedup_order_free(
    first: Seq<ParticipantView>,
    second: Seq<ParticipantView>,
    j: int,
)
    requires
        first.to_multiset() == second.to_multiset(),
        0 <= j < deduplicated(first).len(),
    ensures
        exists|k: int|
            0 <= k < deduplicated(second).len() && #[trigger] deduplicated(second)[k].key()
                == deduplicated(first)[j].key() && deduplicated(second)[k].first_join
                == deduplicated(first)[j].first_join,
{
    let kept_first = deduplicated(first);
    let kept_second = deduplicated(second);
    lemma_deduplicated(first);
    lemma_deduplicated(second);
    let mine = kept_first[j];
    assert(first.contains(mine));
    vstd::seq_lib::to_multiset_contains(first, mine);
    vstd::seq_lib::to_multiset_contains(second, mine);
    let i = choose|i: int| 0 <= i < second.len() && second[i] == mine;
    assert(keeps_no_later(kept_second, second[i]));
    let k = choose|k: int|
        0 <= k < kept_second.len() && #[trigger] kept_second[k].key() == second[i].key()
            && !second[i].first_join.before(kept_second[k].first_join);
    let theirs = kept_second[k];
    assert(second.contains(theirs));
    vstd::seq_lib::to_multiset_contains(second, theirs);
    vstd::seq_lib::to_multiset_contains(first, theirs);
    let h = choose|h: int| 0 <= h < first.len() && first[h] == theirs;
    assert(keeps_no_later(kept_first, first[h]));
    let back = choose|back: int|
        0 <= back < kept_first.len() && #[trigger] kept_first[back].key() == first[h].key()
            && !first[h].first_join.before(kept_first[back].first_join);
    if back < j {
        assert(kept_first[back].key() != kept_first[j].key());
    } else if j < back {
        assert(kept_first[j].key() != kept_first[back].key());
    }
    assert(back == j);
}

/// Where events with the same key and the same join time are the same event,
/// the order of the rows does not decide which records are kept: two lists of
/// the same events keep the same records.
pub proof fn lemma_dedup_same_records(
    first: Seq<ParticipantView>,
    second: Seq<ParticipantView>,
    j: int,
)
    requires
        first.to_multiset() == second.to_multiset(),
        forall|a: int, b: int|
            0 <= a < first.len() && 0 <= b < first.len() && #[trigger] first[a].key()
                == #[trigger] first[b].key() && first[a].first_join == first[b].first_join
                ==> first[a] == first[b],
        0 <= j < deduplicated(first).len(),
    ensures
        deduplicated(second).contains(deduplicated(first)[j]),
{
    let kept_first = deduplicated(first);
    let kept_second = deduplicated(second);
    lemma_dedup_order_free(first, second, j);
    lemma_deduplicated(first);
    lemma_deduplicated(second);
    let k = choose|k: int|
        0 <= k < kept_second.len() && #[trigger] kept_second[k].key() == kept_first[j].key()
            && kept_second[k].first_join == kept_first[j].first_join;
    let mine = kept_first[j];
    let theirs = kept_second[k];
    assert(first.contains(mine));
    assert(second.contains(theirs));
    vstd::seq_lib::to_multiset_contains(second, theirs);
    vstd::seq_lib::to_multiset_contains(first, theirs);
    let a = choose|a: int| 0 <= a < first.len() && first[a] == mine;
    let b = choose|b: int| 0 <= b < first.len() && first[b] == theirs;
    assert(first[a].key() == first[b].key());
    assert(theirs == mine);
}

/// The records kept of the rows taken in so far, one per identity key.
pub struct Roster {
    keys: Vec<String>,
    participants: Vec<Participant>,
}

impl View for Roster {
    type V = Seq<ParticipantView>;

    closed spec fn view(&self) -> Seq<ParticipantView> {
        self.participants.deep_view()
    }
}

impl Roster {
    /// The roster's internal bookkeeping is consistent.
    pub closed spec fn wf(&self) -> bool {
        &&& self.keys.len() == self.participants.len()
        &&& forall|i: int|
            0 <= i < self.keys.len() ==> (#[trigger] self.keys[i])@ == self.participants[i]@.key()
    }

    /// A roster that holds nobody.
    pub fn new() -> (roster: Roster)
        ensures
            roster.wf(),
            roster@ == Seq::<ParticipantView>::empty(),
    {
        let roster = Roster { keys: Vec::new(), participants: Vec::new() };
        assert(roster.participants.deep_view() =~= Seq::<ParticipantView>::empty());
        roster
    }

    /// Takes one participant in. Where the roster holds a record with the
    /// same key, the one with the earlier join stays, and the one held stays
    /// where both joined at the same time.
    pub fn retain(&mut self, participant: Participant)
        requires
            old(self).wf(),
        ensures
            final(self).wf(),
            final(self)@ == retained(old(self)@, participant@),
    {
        let key = build_key(&participant);
        let at = find_text(&self.keys, &key);
        let ghost kept = self.participants.deep_view();
        proof {
            assert(self.keys.deep_view() =~= participant_keys(kept));
        }
        if at < self.keys.len() {
            if participant.first_join.is_before(&self.participants[at].first_join) {
                self.participants.set(at, participant);
                assert(self.participants.deep_view() =~= kept.update(at as int, participant@));
            }
        } else {
            self.participants.push(participant);
            self.keys.push(key);
            assert(self.participants.deep_view() =~= kept.push(participant@));
        }
    }

    /// The records held, in the order in which their keys were first seen.
    pub fn into_participants(self) -> (participants: Vec<Participant>)
        ensures
            participants.deep_view() == self@,
    {
        self.participants
    }
}

/// Keeps one record per identity key: the earliest join, and among rows that
/// joined at the same time the first.
pub fn deduplicate(events: Vec<Participant>) -> (kept: Vec<Participant>)
    ensures
        kept.deep_view() == deduplicated(events.deep_view()),
        distinct_keys(kept.deep_view()),
{
    let ghost all = events.deep_view();
    let mut roster = Roster::new();
    let mut waiting = events;
    let mut taken: usize = 0;
    assert(all.len() == waiting.len());
    assert(all.take(0) =~= Seq::<ParticipantView>::empty());
    assert(waiting.deep_view() =~= all.skip(0));
    while waiting.len() > 0
        invariant
            roster.wf(),
            all.len() <= usize::MAX,
            taken + waiting.len() == all.len(),
            waiting.deep_view() == all.skip(taken as int),
            roster@ == deduplicated(all.take(taken as int)),
        decreases waiting.len(),
    {
        let ghost left = waiting.deep_view();
        let participant = waiting.remove(0);
        proof {
            assert(left[0] == all[taken as int]);
            assert forall|k: int| 0 <= k < waiting.len() implies waiting.deep_view()[k] == all[taken
                + 1 + k] by {
                assert(left[k + 1] == all.skip(taken as int)[k + 1]);
            }
            assert(waiting.deep_view() =~= all.skip(taken + 1));
            let next = all.take(taken + 1);
            assert(next.drop_last() =~= all.take(taken as int));
            assert(next.last() == participant@);
        }
        roster.retain(participant);
        taken += 1;
    }
    proof {
        assert(all.take(taken as int) =~= all);
        lemma_deduplicated(all);
    }
    roster.into_participants()
}

} // verus!
