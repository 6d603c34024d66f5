//! The order of the student list: by surname, then by given name.

use vstd::prelude::*;
use vstd::utf8::encode_utf8;
use crate::order::{bytes_before, lemma_bytes_transitive, lemma_bytes_trichotomy, rank_bytes, Rank};
use crate::student::{StudentRecord, StudentView};

verus! {

/// `a` is listed strictly before `b`: its surname sorts first, or the
/// surnames are the same and its given name sorts first.
pub open spec fn listed_before(a: StudentView, b: StudentView) -> bool {
    bytes_before(encode_utf8(a.surname), encode_utf8(b.surname)) || (encode_utf8(a.surname)
        == encode_utf8(b.surname) && bytes_before(encode_utf8(a.name), encode_utf8(b.name)))
}

/// No record is listed before one that stands ahead of it.
pub open spec fn is_listed(students: Seq<StudentView>) -> bool {
    forall|i: int, j: int|
        0 <= i < j < students.len() ==> !listed_before(#[trigger] students[j], #[trigger] students[i])
}

/// Where `student` goes into a list already in order: behind the last record
/// that is not listed after it.
pub open spec fn slot_for(listed: Seq<StudentView>, student: StudentView) -> int
    decreases listed.len(),
{
    if listed.len() > 0 && listed_before(student, listed.last()) {
        slot_for(listed.drop_last(), student)
    } else {
        listed.len() as int
    }
}

/// The records in list order: taken one by one in the order of `students`,
/// each goes into the slot that `slot_for` gives it among those already
/// listed.
pub open spec fn in_list_order(students: Seq<StudentView>) -> Seq<StudentView>
    decreases students.len(),
{
    if students.len() == 0 {
        students
    } else {
        let listed = in_list_order(students.drop_last());
        listed.insert(slot_for(listed, students.last()), students.last())
    }
}

/// A record listed before a second one is listed before every record that
/// the second is not listed after.
pub proof fn lemma_listed_chain(a: StudentView, b: StudentView, c: StudentView)
    requires
        listed_before(a, b),
        !listed_before(c, b),
    ensures
        listed_before(a, c),
{
    let (sa, sb, sc) = (encode_utf8(a.surname), encode_utf8(b.surname), encode_utf8(c.surname));
    let (na, nb, nc) = (encode_utf8(a.name), encode_utf8(b.name), encode_utf8(c.name));
    lemma_bytes_trichotomy(sc, sb);
    lemma_bytes_trichotomy(nc, nb);
    if bytes_before(sa, sb) {
        if bytes_before(sb, sc) {
            lemma_bytes_transitive(sa, sb, sc);
        }
    } else {
        if sb == sc {
            if bytes_before(nb, nc) {
                lemma_bytes_transitive(na, nb, nc);
            }
        }
    }
}

/// No record is listed before itself, nor two records each before the other.
pub proof fn lemma_listed_one_way(a: StudentView, b: StudentView)
    ensures
        !(listed_before(a, b) && listed_before(b, a)),
{
    lemma_bytes_trichotomy(encode_utf8(a.surname), encode_utf8(b.surname));
    lemma_bytes_trichotomy(encode_utf8(a.name), encode_utf8(b.name));
}

/// What `slot_for` returns: every record from the slot on is listed after
/// `student`, and the record just ahead of the slot is not.
pub proof fn lemma_slot(listed: Seq<StudentView>, student: StudentView)
    ensures
        0 <= slot_for(listed, student) <= listed.len(),
        forall|k: int|
            slot_for(listed, student) <= k < listed.len() ==> listed_before(
                student,
                #[trigger] listed[k],
            ),
        slot_for(listed, student) > 0 ==> !listed_before(
            student,
            listed[slot_for(listed, student) - 1],
        ),
    decreases listed.len(),
{
    if listed.len() > 0 && listed_before(student, listed.last()) {
        let ahead = listed.drop_last();
        lemma_slot(ahead, student);
        assert forall|k: int| slot_for(listed, student) <= k < listed.len() implies listed_before(
            student,
            #[trigger] listed[k],
        ) by {
            if k < ahead.len() {
                assert(ahead[k] == listed[k]);
            }
        }
    }
}

/// The list order holds the same records as often as the input, and is in
/// order.
pub proof fn lemma_list_order(students: Seq<StudentView>)
    ensures
        in_list_order(students).len() == students.len(),
        in_list_order(students).to_multiset() == students.to_multiset(),
        is_listed(in_list_order(students)),
    decreases students.len(),
{
    broadcast use vstd::seq_lib::to_multiset_build, vstd::seq_lib::to_multiset_insert;

    if students.len() > 0 {
        let ahead = students.drop_last();
        let student = students.last();
        let listed = in_list_order(ahead);
        lemma_list_order(ahead);
        lemma_slot(listed, student);
        let at = slot_for(listed, student);
        let result = listed.insert(at, student);
        assert(students =~= ahead.push(student));
        assert(result.to_multiset() == students.to_multiset());
        assert forall|i: int, j: int| 0 <= i < j < result.len() implies !listed_before(
            #[trigger] result[j],
            #[trigger] result[i],
        ) by {
            if j == at {
                assert(result[i] == listed[i]);
                if listed_before(student, listed[i]) {
                    if i < at - 1 {
                        assert(!listed_before(listed[at - 1], listed[i]));
                    }
                    lemma_listed_chain(student, listed[i], listed[at - 1]);
                }
            } else if i == at {
                assert(result[j] == listed[j - 1]);
                assert(listed_before(student, listed[j - 1]));
                lemma_listed_one_way(student, listed[j - 1]);
            } else {
                let a = if i < at {
                    i
                } else {
                    i - 1
                };
                let b = if j < at {
                    j
                } else {
                    j - 1
                };
                assert(result[i] == listed[a] && result[j] == listed[b]);
            }
        }
    }
}

/// Every record of the list order is one of the input's records.
pub proof fn lemma_list_order_keeps(students: Seq<StudentView>, i: int)
    requires
        0 <= i < students.len(),
    ensures
        students.contains(in_list_order(students)[i]),
{
    lemma_list_order(students);
    let listed = in_list_order(students);
    assert(listed.contains(listed[i]));
    vstd::seq_lib::to_multiset_contains(listed, listed[i]);
    vstd::seq_lib::to_multiset_contains(students, listed[i]);
}

/// `a` is listed strictly before `b`.
pub fn goes_before(a: &StudentRecord, b: &StudentRecord) -> (before: bool)
    ensures
        before == listed_before(a@, b@),
{
    match rank_bytes(a.surname.as_str().as_bytes(), b.surname.as_str().as_bytes()) {
        Rank::Before => true,
        Rank::After => false,
        Rank::Same => match rank_bytes(a.name.as_str().as_bytes(), b.name.as_str().as_bytes()) {
            Rank::Before => true,
            _ => false,
        },
    }
}

/// Puts `students` in list order.
pub fn sort_students(students: Vec<StudentRecord>) -> (listed: Vec<StudentRecord>)
    ensures
        listed.deep_view() == in_list_order(students.deep_view()),
        is_listed(listed.deep_view()),
        listed.deep_view().to_multiset() == students.deep_view().to_multiset(),
{
    let ghost all = students.deep_view();
    assert(all.len() == students.len());
    let mut waiting = students;
    let mut listed: Vec<StudentRecord> = Vec::new();
    let mut taken: usize = 0;
    assert(all.take(0) =~= Seq::<StudentView>::empty());
    assert(listed.deep_view() =~= Seq::<StudentView>::empty());
    assert(waiting.deep_view() =~= all.skip(0));
    while waiting.len() > 0
        invariant
            all.len() <= usize::MAX,
            taken + waiting.len() == all.len(),
            waiting.deep_view() == all.skip(taken as int),
            listed.deep_view() == in_list_order(all.take(taken as int)),
        decreases waiting.len(),
    {
        let ghost ahead = listed.deep_view();
        let ghost left = waiting.deep_view();
        let student = waiting.remove(0);
        assert(student@ == all[taken as int]) by {
            assert(left[0] == all[taken as int]);
        }
        assert(waiting.deep_view() =~= all.skip(taken + 1)) by {
            assert forall|k: int| 0 <= k < waiting.len() implies waiting.deep_view()[k] == all[taken
                + 1 + k] by {
                assert(left[k + 1] == all.skip(taken as int)[k + 1]);
            }
        }
        let mut at: usize = listed.len();
        let mut settled = false;
        assert(ahead.take(at as int) =~= ahead);
        while at > 0 && !settled
            invariant
                at <= listed.len(),
                ahead == listed.deep_view(),
                slot_for(ahead, student@) == slot_for(ahead.take(at as int), student@),
                settled ==> at > 0 && !listed_before(student@, ahead[at - 1]),
            decreases at + if settled { 0int } else { 1int },
        {
            if goes_before(&student, &listed[at - 1]) {
                proof {
                    let upto = ahead.take(at as int);
                    assert(upto.last() == ahead[at - 1]);
                    assert(upto.drop_last() =~= ahead.take(at - 1));
                }
                at -= 1;
            } else {
                settled = true;
            }
        }
        proof {
            let upto = ahead.take(at as int);
            if at > 0 {
                assert(upto.last() == ahead[at - 1]);
            }
            assert(slot_for(ahead, student@) == at);
            let next = all.take(taken + 1);
            assert(next.drop_last() =~= all.take(taken as int));
            assert(next.last() == student@);
        }
        listed.insert(at, student);
        taken += 1;
        assert(listed.deep_view() =~= ahead.insert(at as int, all[taken - 1]));
    }
    proof {
        assert(all.take(taken as int) =~= all);
        lemma_list_order(all);
    }
    listed
}

} // verus!
