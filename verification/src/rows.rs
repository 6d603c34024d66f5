//! From rows of cells to participants: the header row is found, the cells of
//! each later row are picked by their column names, and rows without a name or
//! a join time are passed over.

use vstd::prelude::*;
use vstd::multiset::Multiset;
use vstd::string::StringExecFns;
use crate::clock::{
    datetime_outcome, long_year_format, parse_datetime, parsed_datetime, short_year_format,
    Timestamp,
};
use crate::dedup::{
    deduplicated, keeps_no_later, lemma_dedup_order_free, lemma_dedup_same_records,
    lemma_deduplicated, lemma_retained_distinct, retained, Roster,
};
use crate::names::{extract_id, family_name, given_name, id_of_email, split_name};
use crate::participant::{distinct_keys, Participant, ParticipantView};
use crate::text::{find_text, first_index, trim, trimmed};

verus! {

/// The cell of `record` in the column `index`, trimmed; empty where the row is
/// too short to have one.
pub open spec fn cell_of(record: Seq<Seq<char>>, index: int) -> Seq<char> {
    if 0 <= index < record.len() {
        trimmed(record[index])
    } else {
        Seq::empty()
    }
}

/// The name, join time and email cells of `record` under `header`, in this
/// order. `None` where the header has no column `Name` or no column
/// `First Join`, where the name cell is empty or repeats the column name, and
/// where the join cell is empty. The email is empty where the header has no
/// column `Email`.
pub open spec fn located_cells(header: Seq<Seq<char>>, record: Seq<Seq<char>>) -> Option<
    (Seq<char>, Seq<char>, Seq<char>),
> {
    let name_column = first_index(header, "Name"@);
    let join_column = first_index(header, "First Join"@);
    let email_column = first_index(header, "Email"@);
    let name = cell_of(record, name_column);
    let join = cell_of(record, join_column);
    if name_column >= header.len() || join_column >= header.len() {
        None
    } else if name.len() == 0 || name == "Name"@ {
        None
    } else if join.len() == 0 {
        None
    } else {
        Some(
            (
                name,
                join,
                if email_column < header.len() {
                    cell_of(record, email_column)
                } else {
                    Seq::empty()
                },
            ),
        )
    }
}

/// The participant with the name cell `name`, the email cell `email` and the
/// join time `first_join`.
pub open spec fn participant_of(
    name: Seq<char>,
    email: Seq<char>,
    first_join: Timestamp,
) -> ParticipantView {
    ParticipantView {
        name: given_name(name),
        surname: family_name(name),
        id: id_of_email(email),
        email,
        first_join,
    }
}

/// What a row gives under `header`: a participant, nothing where the row is
/// passed over, or the message for a join time in neither pattern.
pub open spec fn row_outcome(header: Seq<Seq<char>>, record: Seq<Seq<char>>) -> Result<
    Option<ParticipantView>,
    Seq<char>,
> {
    match located_cells(header, record) {
        None => Ok(None),
        Some(cells) => match datetime_outcome(
            cells.1,
            parsed_datetime(cells.1, short_year_format()),
            parsed_datetime(cells.1, long_year_format()),
        ) {
            Err(message) => Err(message),
            Ok(first_join) => Ok(Some(participant_of(cells.0, cells.2, first_join))),
        },
    }
}

/// The result of reading one row, as mathematical values.
pub open spec fn row_view(result: Result<Option<Participant>, String>) -> Result<
    Option<ParticipantView>,
    Seq<char>,
> {
    match result {
        Ok(Some(participant)) => Ok(Some(participant@)),
        Ok(None) => Ok(None),
        Err(message) => Err(message@),
    }
}

/// The cell of `record` in the column `index`, trimmed.
pub fn cell_at(record: &Vec<String>, index: usize) -> (cell: String)
    ensures
        cell@ == cell_of(record.deep_view(), index as int),
{
    if index < record.len() {
        trim(record[index].as_str())
    } else {
        String::new()
    }
}

/// Picks the name, join time and email cells of `record` by the column names
/// in `header`.
pub fn row_cells(header: &Vec<String>, record: &Vec<String>) -> (cells: Option<
    (String, String, String),
>)
    ensures
        match cells {
            Some(found) => located_cells(header.deep_view(), record.deep_view()) == Some(
                (found.0@, found.1@, found.2@),
            ),
            None => located_cells(header.deep_view(), record.deep_view()) is None,
        },
{
    let name_label = String::from_str("Name");
    let name_column = find_text(header, &name_label);
    let join_column = find_text(header, &String::from_str("First Join"));
    let email_column = find_text(header, &String::from_str("Email"));
    if name_column >= header.len() || join_column >= header.len() {
        return None;
    }
    let name = cell_at(record, name_column);
    if name.as_str().is_empty() || name == name_label {
        return None;
    }
    let join = cell_at(record, join_column);
    if join.as_str().is_empty() {
        return None;
    }
    let email = if email_column < header.len() {
        cell_at(record, email_column)
    } else {
        String::new()
    };
    Some((name, join, email))
}

/// Makes the participant of a row from its name cell, its email cell and its
/// join time: the name is split into given name and surname, and the id is
/// taken from the email.
pub fn make_participant(name: &str, email: String, first_join: Timestamp) -> (participant:
    Participant)
    ensures
        participant@ == participant_of(name@, email@, first_join),
{
    let (given, surname) = split_name(name);
    let id = extract_id(email.as_str());
    Participant { name: given, surname, id, email, first_join }
}

/// Reads one row under `header`. A row without a name or a join time is
/// passed over; a join time in neither of the two patterns is an error.
pub fn parse_participant_row(header: &Vec<String>, record: &Vec<String>) -> (result: Result<
    Option<Participant>,
    String,
>)
    ensures
        row_view(result) == row_outcome(header.deep_view(), record.deep_view()),
{
    match row_cells(header, record) {
        None => Ok(None),
        Some(cells) => {
            let (name, join, email) = cells;
            match parse_datetime(join.as_str()) {
                Err(message) => Err(message),
                Ok(first_join) => Ok(Some(make_participant(name.as_str(), email, first_join))),
            }
        },
    }
}

/// The row is a header row: one of its cells is `Name`, letter for letter.
pub open spec fn is_header(row: Seq<Seq<char>>) -> bool {
    first_index(row, "Name"@) < row.len()
}

/// The cells of `row`, each trimmed.
pub open spec fn trimmed_row(row: Seq<Seq<char>>) -> Seq<Seq<char>> {
    Seq::new(row.len(), |i: int| trimmed(row[i]))
}

/// What has been gathered from the rows read so far.
pub struct Gathered {
    /// The trimmed cells of the header row, once it has been found.
    pub header: Option<Seq<Seq<char>>>,
    /// The participants kept, one per identity key.
    pub kept: Seq<ParticipantView>,
}

/// What is gathered once `row` is read. Before the header is found a row
/// either is the header or is discarded; after it each row is read under the
/// header.
pub open spec fn after_row(state: Gathered, row: Seq<Seq<char>>) -> Result<Gathered, Seq<char>> {
    match state.header {
        None => if is_header(row) {
            Ok(Gathered { header: Some(trimmed_row(row)), kept: state.kept })
        } else {
            Ok(state)
        },
        Some(header) => match row_outcome(header, row) {
            Err(message) => Err(message),
            Ok(None) => Ok(state),
            Ok(Some(participant)) => Ok(
                Gathered { header: state.header, kept: retained(state.kept, participant) },
            ),
        },
    }
}

/// What is gathered from `rows`, read in order; the message of the first row
/// that cannot be read where there is one.
pub open spec fn after_rows(rows: Seq<Seq<Seq<char>>>) -> Result<Gathered, Seq<char>>
    decreases rows.len(),
{
    if rows.len() == 0 {
        Ok(Gathered { header: None, kept: Seq::empty() })
    } else {
        match after_rows(rows.drop_last()) {
            Err(message) => Err(message),
            Ok(state) => after_row(state, rows.last()),
        }
    }
}

/// The participants of a session given as rows, one per identity key.
pub open spec fn participants_of_rows(rows: Seq<Seq<Seq<char>>>) -> Result<
    Seq<ParticipantView>,
    Seq<char>,
> {
    match after_rows(rows) {
        Err(message) => Err(message),
        Ok(state) => Ok(state.kept),
    }
}

/// The result of reading a session, as mathematical values.
pub open spec fn participants_view(result: Result<Vec<Participant>, String>) -> Result<
    Seq<ParticipantView>,
    Seq<char>,
> {
    match result {
        Ok(participants) => Ok(participants.deep_view()),
        Err(message) => Err(message@),
    }
}

/// A copy of `row` with every cell trimmed.
pub fn trim_row(row: &Vec<String>) -> (cells: Vec<String>)
    ensures
        cells.deep_view() == trimmed_row(row.deep_view()),
{
    let mut cells: Vec<String> = Vec::new();
    let mut at: usize = 0;
    while at < row.len()
        invariant
            at <= row.len(),
            cells.len() == at,
            forall|k: int| 0 <= k < at ==> (#[trigger] cells[k])@ == trimmed(row[k]@),
        decreases row.len() - at,
    {
        cells.push(trim(row[at].as_str()));
        at += 1;
    }
    assert(cells.deep_view() =~= trimmed_row(row.deep_view()));
    cells
}

/// Reads the participants of one session from its rows. The header row is the
/// first row with a cell equal to `Name`; rows before it are discarded. Of
/// the rows that share an identity key the one with the earliest join is kept.
/// A header without the column `Name` or `First Join` gives no participants.
pub fn participants_from_rows(rows: &Vec<Vec<String>>) -> (result: Result<Vec<Participant>, String>)
    ensures
        participants_view(result) == participants_of_rows(rows.deep_view()),
        result matches Ok(participants) ==> distinct_keys(participants.deep_view()),
{
    let ghost all = rows.deep_view();
    proof {
        lemma_rows_keep_keys_distinct(all);
    }
    let name_label = String::from_str("Name");
    let mut header: Option<Vec<String>> = None;
    let mut roster = Roster::new();
    let mut at: usize = 0;
    assert(all.take(0) =~= Seq::<Seq<Seq<char>>>::empty());
    while at < rows.len()
        invariant
            at <= rows.len(),
            all == rows.deep_view(),
            roster.wf(),
            name_label@ == "Name"@,
            after_rows(all.take(at as int)) == Ok::<Gathered, Seq<char>>(
                Gathered {
                    header: match header {
                        Some(cells) => Some(cells.deep_view()),
                        None => None,
                    },
                    kept: roster@,
                },
            ),
        decreases rows.len() - at,
    {
        let row = &rows[at];
        proof {
            let next = all.take(at + 1);
            assert(next.drop_last() =~= all.take(at as int));
            assert(next.last() == row.deep_view());
        }
        match &header {
            None => {
                if find_text(row, &name_label) < row.len() {
                    header = Some(trim_row(row));
                }
            },
            Some(cells) => {
                match parse_participant_row(cells, row) {
                    Err(message) => {
                        proof {
                            assert(after_rows(all.take(at + 1)) == Err::<Gathered, Seq<char>>(
                                message@,
                            ));
                            lemma_error_stays(all, at + 1);
                        }
                        return Err(message);
                    },
                    Ok(None) => {},
                    Ok(Some(participant)) => {
                        roster.retain(participant);
                    },
                }
            },
        }
        at += 1;
    }
    assert(all.take(at as int) =~= all);
    Ok(roster.into_participants())
}

/// The participants gathered from rows never share a key.
pub proof fn lemma_rows_keep_keys_distinct(rows: Seq<Seq<Seq<char>>>)
    ensures
        after_rows(rows) matches Ok(state) ==> distinct_keys(state.kept),
    decreases rows.len(),
{
    if rows.len() > 0 {
        lemma_rows_keep_keys_distinct(rows.drop_last());
        if let Ok(state) = after_rows(rows.drop_last()) {
            if let Some(header) = state.header {
                if let Ok(Some(participant)) = row_outcome(header, rows.last()) {
                    lemma_retained_distinct(state.kept, participant);
                }
            }
        }
    }
}

/// The participants that the rows give one by one, before any is dropped for
/// sharing a key: those of the rows after the header that are not passed over.
pub open spec fn row_events(rows: Seq<Seq<Seq<char>>>) -> Seq<ParticipantView>
    decreases rows.len(),
{
    if rows.len() == 0 {
        Seq::empty()
    } else {
        let earlier = row_events(rows.drop_last());
        match after_rows(rows.drop_last()) {
            Ok(Gathered { header: Some(header), kept: _ }) => match row_outcome(
                header,
                rows.last(),
            ) {
                Ok(Some(participant)) => earlier.push(participant),
                _ => earlier,
            },
            _ => earlier,
        }
    }
}

/// The participants gathered from rows are those that the rows give, with one
/// record kept per key as `deduplicated` keeps them.
pub proof fn lemma_rows_deduplicate(rows: Seq<Seq<Seq<char>>>)
    ensures
        after_rows(rows) matches Ok(state) ==> state.kept == deduplicated(row_events(rows)),
    decreases rows.len(),
{
    if rows.len() > 0 {
        lemma_rows_deduplicate(rows.drop_last());
        if let Ok(state) = after_rows(rows.drop_last()) {
            if let Some(header) = state.header {
                if let Ok(Some(participant)) = row_outcome(header, rows.last()) {
                    let events = row_events(rows);
                    assert(events.drop_last() =~= row_events(rows.drop_last()));
                    assert(events.last() == participant);
                }
            }
        }
    }
}

/// Of the rows of a session that share an identity key, the one with the
/// earliest join is kept: every participant returned is one that a row gave,
/// no two of them share a key, and for every participant that a row gave one
/// with the same key is returned that joined no later.
pub proof fn lemma_rows_keep_earliest(rows: Seq<Seq<Seq<char>>>)
    requires
        participants_of_rows(rows) is Ok,
    ensures
        distinct_keys(participants_of_rows(rows)->Ok_0),
        forall|j: int|
            0 <= j < participants_of_rows(rows)->Ok_0.len() ==> row_events(rows).contains(
                #[trigger] participants_of_rows(rows)->Ok_0[j],
            ),
        forall|i: int|
            0 <= i < row_events(rows).len() ==> keeps_no_later(
                participants_of_rows(rows)->Ok_0,
                #[trigger] row_events(rows)[i],
            ),
{
    lemma_rows_deduplicate(rows);
    lemma_deduplicated(row_events(rows));
}

/// The join time returned for a person is the earliest among the rows of that
/// person: no row with the key of a participant returned joined before it.
pub proof fn lemma_rows_keep_minimum(rows: Seq<Seq<Seq<char>>>, j: int, i: int)
    requires
        participants_of_rows(rows) is Ok,
        0 <= j < participants_of_rows(rows)->Ok_0.len(),
        0 <= i < row_events(rows).len(),
        row_events(rows)[i].key() == participants_of_rows(rows)->Ok_0[j].key(),
    ensures
        row_events(rows).contains(participants_of_rows(rows)->Ok_0[j]),
        !row_events(rows)[i].first_join.before(participants_of_rows(rows)->Ok_0[j].first_join),
{
    let kept = participants_of_rows(rows)->Ok_0;
    lemma_rows_keep_earliest(rows);
    assert(keeps_no_later(kept, row_events(rows)[i]));
    let found = choose|found: int|
        0 <= found < kept.len() && #[trigger] kept[found].key() == row_events(rows)[i].key()
            && !row_events(rows)[i].first_join.before(kept[found].first_join);
    if found < j {
        assert(kept[found].key() != kept[j].key());
    } else if j < found {
        assert(kept[j].key() != kept[found].key());
    }
}

/// The order of the rows does not decide what is kept. Two sessions whose rows
/// give the same participants, in whatever order, return for every key the
/// same join time; and the same records where participants with the same key
/// and the same join time are the same participant.
pub proof fn lemma_rows_order_free(
    first: Seq<Seq<Seq<char>>>,
    second: Seq<Seq<Seq<char>>>,
    j: int,
)
    requires
        participants_of_rows(first) is Ok,
        participants_of_rows(second) is Ok,
        row_events(first).to_multiset() == row_events(second).to_multiset(),
        0 <= j < participants_of_rows(first)->Ok_0.len(),
    ensures
        exists|k: int|
            0 <= k < participants_of_rows(second)->Ok_0.len() && #[trigger] participants_of_rows(
                second,
            )->Ok_0[k].key() == participants_of_rows(first)->Ok_0[j].key() && participants_of_rows(
                second,
            )->Ok_0[k].first_join == participants_of_rows(first)->Ok_0[j].first_join,
        (forall|a: int, b: int|
            0 <= a < row_events(first).len() && 0 <= b < row_events(first).len()
                && #[trigger] row_events(first)[a].key() == #[trigger] row_events(first)[b].key()
                && row_events(first)[a].first_join == row_events(first)[b].first_join
                ==> row_events(first)[a] == row_events(first)[b])
            ==> participants_of_rows(second)->Ok_0.contains(participants_of_rows(first)->Ok_0[j]),
{
    lemma_rows_deduplicate(first);
    lemma_rows_deduplicate(second);
    let kept_first = participants_of_rows(first)->Ok_0;
    let kept_second = participants_of_rows(second)->Ok_0;
    assert(kept_first == deduplicated(row_events(first)));
    assert(kept_second == deduplicated(row_events(second)));
    lemma_dedup_order_free(row_events(first), row_events(second), j);
    let k = choose|k: int|
        0 <= k < deduplicated(row_events(second)).len() && #[trigger] deduplicated(
            row_events(second),
        )[k].key() == deduplicated(row_events(first))[j].key() && deduplicated(
            row_events(second),
        )[k].first_join == deduplicated(row_events(first))[j].first_join;
    assert(kept_second[k].key() == kept_first[j].key() && kept_second[k].first_join
        == kept_first[j].first_join);
    if forall|a: int, b: int|
        0 <= a < row_events(first).len() && 0 <= b < row_events(first).len()
            && #[trigger] row_events(first)[a].key() == #[trigger] row_events(first)[b].key()
            && row_events(first)[a].first_join == row_events(first)[b].first_join ==> row_events(
            first,
        )[a] == row_events(first)[b] {
        lemma_dedup_same_records(row_events(first), row_events(second), j);
    }
}

/// The participants that `rows` give when each is read under `header`.
pub open spec fn events_under(
    header: Seq<Seq<char>>,
    rows: Seq<Seq<Seq<char>>>,
) -> Seq<ParticipantView>
    decreases rows.len(),
{
    if rows.len() == 0 {
        Seq::empty()
    } else {
        match row_outcome(header, rows.last()) {
            Ok(Some(participant)) => events_under(header, rows.drop_last()).push(participant),
            _ => events_under(header, rows.drop_last()),
        }
    }
}

/// Puts the participant of one more row, read under `header`, into a bag.
pub open spec fn gathering(header: Seq<Seq<char>>) -> spec_fn(
    Multiset<ParticipantView>,
    Seq<Seq<char>>,
) -> Multiset<ParticipantView> {
    |bag: Multiset<ParticipantView>, row: Seq<Seq<char>>|
        match row_outcome(header, row) {
            Ok(Some(participant)) => bag.insert(participant),
            _ => bag,
        }
}

/// The participants read under a header, as a bag, are the rows folded into
/// a bag one by one.
pub proof fn lemma_events_under_bag(header: Seq<Seq<char>>, rows: Seq<Seq<Seq<char>>>)
    ensures
        events_under(header, rows).to_multiset() == rows.fold_left(
            Multiset::<ParticipantView>::empty(),
            gathering(header),
        ),
    decreases rows.len(),
{
    broadcast use vstd::seq_lib::to_multiset_build;

    if rows.len() == 0 {
        events_under(header, rows).to_multiset_ensures();
        assert(events_under(header, rows).to_multiset() =~= Multiset::<ParticipantView>::empty());
    } else {
        lemma_events_under_bag(header, rows.drop_last());
    }
}

/// The rows under a header give the same participants, as a bag, in whatever
/// order they stand.
pub proof fn lemma_events_under_permuted(
    header: Seq<Seq<char>>,
    first: Seq<Seq<Seq<char>>>,
    second: Seq<Seq<Seq<char>>>,
)
    requires
        first.to_multiset() == second.to_multiset(),
    ensures
        events_under(header, first).to_multiset() == events_under(header, second).to_multiset(),
{
    let f = gathering(header);
    assert forall|x: Seq<Seq<char>>, y: Seq<Seq<char>>, v: Multiset<ParticipantView>|
        #[trigger] f(f(v, x), y) == f(f(v, y), x) by {
        assert(f(f(v, x), y) =~= f(f(v, y), x));
    }
    vstd::seq_lib::lemma_fold_left_permutation(
        first,
        second,
        f,
        Multiset::<ParticipantView>::empty(),
    );
    lemma_events_under_bag(header, first);
    lemma_events_under_bag(header, second);
}

/// The header gathered is the header of the rows.
pub proof fn lemma_header_found(rows: Seq<Seq<Seq<char>>>)
    ensures
        after_rows(rows) matches Ok(state) ==> state.header == header_row(rows),
    decreases rows.len(),
{
    if rows.len() > 0 {
        lemma_header_found(rows.drop_last());
    }
}

/// Once the header is found, later rows do not change it.
pub proof fn lemma_header_stays(head: Seq<Seq<Seq<char>>>, tail: Seq<Seq<Seq<char>>>)
    requires
        header_row(head) is Some,
    ensures
        header_row(head + tail) == header_row(head),
    decreases tail.len(),
{
    if tail.len() == 0 {
        assert(head + tail =~= head);
    } else {
        lemma_header_stays(head, tail.drop_last());
        assert((head + tail).drop_last() =~= head + tail.drop_last());
    }
}

/// After the header, each row gives its participant under that header.
pub proof fn lemma_events_split(head: Seq<Seq<Seq<char>>>, tail: Seq<Seq<Seq<char>>>)
    requires
        header_row(head) is Some,
        after_rows(head + tail) is Ok,
    ensures
        row_events(head + tail) == row_events(head) + events_under(header_row(head)->0, tail),
    decreases tail.len(),
{
    let header = header_row(head)->0;
    if tail.len() == 0 {
        assert(head + tail =~= head);
        assert(row_events(head) + events_under(header, tail) =~= row_events(head));
    } else {
        let earlier = head + tail.drop_last();
        assert((head + tail).drop_last() =~= earlier);
        assert((head + tail).last() == tail.last());
        lemma_events_split(head, tail.drop_last());
        lemma_header_found(earlier);
        lemma_header_stays(head, tail.drop_last());
        match row_outcome(header, tail.last()) {
            Ok(Some(participant)) => {
                assert(row_events(head + tail) =~= row_events(head) + events_under(header, tail));
            },
            _ => {},
        }
    }
}

/// Two sessions that are the same up to and including the header row, and
/// whose rows after it are the same rows in another order, give the same
/// participants, as a bag.
pub proof fn lemma_rows_permuted(
    head: Seq<Seq<Seq<char>>>,
    first: Seq<Seq<Seq<char>>>,
    second: Seq<Seq<Seq<char>>>,
)
    requires
        header_row(head) is Some,
        first.to_multiset() == second.to_multiset(),
        participants_of_rows(head + first) is Ok,
        participants_of_rows(head + second) is Ok,
    ensures
        row_events(head + first).to_multiset() == row_events(head + second).to_multiset(),
{
    let header = header_row(head)->0;
    lemma_events_split(head, first);
    lemma_events_split(head, second);
    lemma_events_under_permuted(header, first, second);
    vstd::seq_lib::lemma_multiset_commutative(row_events(head), events_under(header, first));
    vstd::seq_lib::lemma_multiset_commutative(row_events(head), events_under(header, second));
}

/// The order of the rows after the header does not decide what a session
/// gives: with the same rows in another order, every key comes back with the
/// same join time; and with the same record, where rows with the same key and
/// the same join time give the same participant.
pub proof fn lemma_session_order_free(
    head: Seq<Seq<Seq<char>>>,
    first: Seq<Seq<Seq<char>>>,
    second: Seq<Seq<Seq<char>>>,
    j: int,
)
    requires
        header_row(head) is Some,
        first.to_multiset() == second.to_multiset(),
        participants_of_rows(head + first) is Ok,
        participants_of_rows(head + second) is Ok,
        0 <= j < participants_of_rows(head + first)->Ok_0.len(),
    ensures
        exists|k: int|
            0 <= k < participants_of_rows(head + second)->Ok_0.len()
                && #[trigger] participants_of_rows(head + second)->Ok_0[k].key()
                == participants_of_rows(head + first)->Ok_0[j].key() && participants_of_rows(
                head + second,
            )->Ok_0[k].first_join == participants_of_rows(head + first)->Ok_0[j].first_join,
        (forall|a: int, b: int|
            0 <= a < row_events(head + first).len() && 0 <= b < row_events(head + first).len()
                && #[trigger] row_events(head + first)[a].key() == #[trigger] row_events(
                head + first,
            )[b].key() && row_events(head + first)[a].first_join == row_events(
                head + first,
            )[b].first_join ==> row_events(head + first)[a] == row_events(head + first)[b])
            ==> participants_of_rows(head + second)->Ok_0.contains(
            participants_of_rows(head + first)->Ok_0[j],
        ),
{
    lemma_rows_permuted(head, first, second);
    lemma_rows_order_free(head + first, head + second, j);
}

/// The header has no column `First Join`.
pub open spec fn lacks_join_column(header: Seq<Seq<char>>) -> bool {
    first_index(header, "First Join"@) >= header.len()
}

/// The header of the rows: the trimmed cells of the first row with a cell
/// equal to `Name`, if there is such a row.
pub open spec fn header_row(rows: Seq<Seq<Seq<char>>>) -> Option<Seq<Seq<char>>>
    decreases rows.len(),
{
    if rows.len() == 0 {
        None
    } else {
        match header_row(rows.drop_last()) {
            Some(header) => Some(header),
            None => if is_header(rows.last()) {
                Some(trimmed_row(rows.last()))
            } else {
                None
            },
        }
    }
}

/// Rows whose header has no column `First Join`, and rows without a header,
/// give no participants and no error, whatever the rows after the header
/// hold.
pub proof fn lemma_no_join_column(rows: Seq<Seq<Seq<char>>>)
    requires
        header_row(rows) matches Some(header) ==> lacks_join_column(header),
    ensures
        participants_of_rows(rows) == Ok::<Seq<ParticipantView>, Seq<char>>(Seq::empty()),
        after_rows(rows) == Ok::<Gathered, Seq<char>>(
            Gathered { header: header_row(rows), kept: Seq::empty() },
        ),
    decreases rows.len(),
{
    if rows.len() > 0 {
        lemma_no_join_column(rows.drop_last());
    }
}

/// Once a row cannot be read, reading on does not change the message.
pub proof fn lemma_error_stays(rows: Seq<Seq<Seq<char>>>, upto: int)
    requires
        0 <= upto <= rows.len(),
        after_rows(rows.take(upto)) is Err,
    ensures
        after_rows(rows) == after_rows(rows.take(upto)),
    decreases rows.len() - upto,
{
    if upto == rows.len() {
        assert(rows.take(upto) =~= rows);
    } else {
        let next = rows.take(upto + 1);
        assert(next.drop_last() =~= rows.take(upto));
        lemma_error_stays(rows, upto + 1);
    }
}

} // verus!
