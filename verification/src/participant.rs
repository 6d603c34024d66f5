//! One person's join record in one session, and the key that identifies the
//! person across rows and sessions.

use vstd::prelude::*;
use vstd::string::StringExecFns;
use crate::clock::Timestamp;

verus! {

/// One parsed join record.
#[derive(Debug, Clone)]
pub struct Participant {
    /// Given name: the first word of the name cell.
    pub name: String,
    /// Everything after the given name, words joined by single spaces.
    pub surname: String,
    /// The part of the email before its first `@`.
    pub id: String,
    /// The email cell, trimmed; empty when the export has none.
    pub email: String,
    /// When the person first joined the session.
    pub first_join: Timestamp,
}

/// What a [`Participant`] holds, as mathematical values.
pub struct ParticipantView {
    pub name: Seq<char>,
    pub surname: Seq<char>,
    pub id: Seq<char>,
    pub email: Seq<char>,
    pub first_join: Timestamp,
}

impl View for Participant {
    type V = ParticipantView;

    open spec fn view(&self) -> ParticipantView {
        ParticipantView {
            name: self.name@,
            surname: self.surname@,
            id: self.id@,
            email: self.email@,
            first_join: self.first_join,
        }
    }
}

impl DeepView for Participant {
    type V = ParticipantView;

    open spec fn deep_view(&self) -> ParticipantView {
        self@
    }
}

/// The identity key of a person: the id where there is one, else the email,
/// else given name and surname with one space between them.
pub open spec fn identity_key(
    name: Seq<char>,
    surname: Seq<char>,
    id: Seq<char>,
    email: Seq<char>,
) -> Seq<char> {
    if id.len() > 0 {
        id
    } else if email.len() > 0 {
        email
    } else {
        name + seq![' '] + surname
    }
}

impl ParticipantView {
    /// The identity key of this record.
    pub open spec fn key(self) -> Seq<char> {
        identity_key(self.name, self.surname, self.id, self.email)
    }
}

/// No two participants in `events` share a key.
pub open spec fn distinct_keys(events: Seq<ParticipantView>) -> bool {
    forall|i: int, j: int|
        0 <= i < j < events.len() ==> #[trigger] events[i].key() != #[trigger] events[j].key()
}

/// The key under which `participant` is deduplicated within a session and
/// tallied across sessions.
pub fn build_key(participant: &Participant) -> (key: String)
    ensures
        key@ == participant@.key(),
{
    if !participant.id.as_str().is_empty() {
        participant.id.clone()
    } else if !participant.email.as_str().is_empty() {
        participant.email.clone()
    } else {
        proof {
            reveal_strlit(" ");
        }
        let key = participant.name.clone().concat(" ").concat(participant.surname.as_str());
        assert(key@ =~= participant@.name + seq![' '] + participant@.surname);
        key
    }
}

} // verus!
