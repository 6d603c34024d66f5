//! How a name cell is split into given name and surname, and how an id is
//! taken from an email.

use vstd::prelude::*;
use vstd::string::{StrSliceExecFns, StringExecFns};
use crate::text::{chars_of, first_word, joined, lemma_first_word_len, skip_whitespace, skip_word, words};

verus! {

/// The given name in `name`: its first word, empty where it has none.
pub open spec fn given_name(name: Seq<char>) -> Seq<char> {
    if words(name).len() == 0 {
        Seq::empty()
    } else {
        words(name)[0]
    }
}

/// The surname in `name`: its words after the first, with one space between
/// neighbours; empty where `name` has one word or none.
pub open spec fn family_name(name: Seq<char>) -> Seq<char> {
    joined(after_first(words(name)))
}

/// The words but the first.
pub open spec fn after_first(words: Seq<Seq<char>>) -> Seq<Seq<char>> {
    if words.len() == 0 {
        words
    } else {
        words.skip(1)
    }
}

/// The part of `email` before its first `@`; all of it where it has none.
pub open spec fn id_of_email(email: Seq<char>) -> Seq<char>
    decreases email.len(),
{
    if email.len() == 0 || email[0] == '@' {
        Seq::empty()
    } else {
        seq![email[0]] + id_of_email(email.drop_first())
    }
}

/// What `id_of_email` returns: the longest prefix of the email that holds no
/// `@`.
pub proof fn lemma_id_of_email(email: Seq<char>)
    ensures
        id_of_email(email).len() <= email.len(),
        id_of_email(email) == email.take(id_of_email(email).len() as int),
        !id_of_email(email).contains('@'),
        id_of_email(email).len() < email.len() ==> email[id_of_email(email).len() as int] == '@',
    decreases email.len(),
{
    if email.len() == 0 || email[0] == '@' {
        assert(id_of_email(email) =~= email.take(0));
    } else {
        let rest = email.drop_first();
        lemma_id_of_email(rest);
        let id = id_of_email(email);
        assert(id =~= email.take(id.len() as int));
        assert forall|i: int| 0 <= i < id.len() implies id[i] != '@' by {
            if i > 0 {
                assert(id_of_email(rest).contains(id[i]));
            }
        }
    }
}

/// Splits a name into given name and surname. The given name is the first
/// word; the surname is what follows, its words joined by single spaces.
pub fn split_name(input: &str) -> (parts: (String, String))
    ensures
        parts.0@ == given_name(input@),
        parts.1@ == family_name(input@),
{
    let chars = chars_of(input);
    let n = chars.len();
    let mut name = String::new();
    let mut surname = String::new();
    let mut have_name = false;
    let mut have_surname = false;
    let mut at: usize = 0;
    let ghost mut done: Seq<Seq<char>> = Seq::empty();
    proof {
        assert(chars@.skip(0) =~= chars@);
        assert(done + words(chars@.skip(0)) =~= words(chars@));
        reveal_strlit(" ");
        assert(" "@ =~= seq![' ']);
    }
    while at < n
        invariant
            at <= n,
            n == chars.len(),
            chars@ == input@,
            words(chars@) == done + words(chars@.skip(at as int)),
            have_name == (done.len() >= 1),
            have_surname == (done.len() >= 2),
            have_name ==> name@ == done[0],
            !have_name ==> name@ == Seq::<char>::empty(),
            surname@ == joined(after_first(done)),
            " "@ == seq![' '],
        decreases n - at,
    {
        let from = skip_whitespace(&chars, at);
        if from == n {
            at = n;
        } else {
            let to = skip_word(&chars, from);
            let piece = input.substring_char(from, to);
            proof {
                let rest = chars@.skip(from as int);
                lemma_first_word_len(rest);
                assert(rest[0] == chars@[from as int]);
                assert(rest.skip(first_word(rest).len() as int) =~= chars@.skip(to as int));
                assert(words(rest) == seq![piece@] + words(chars@.skip(to as int)));
                assert(done + (seq![piece@] + words(chars@.skip(to as int))) =~= done.push(piece@)
                    + words(chars@.skip(to as int)));
                let more = done.push(piece@);
                if done.len() >= 1 {
                    assert(after_first(more) =~= after_first(done).push(piece@));
                    assert(after_first(more).drop_last() =~= after_first(done));
                    assert(after_first(more).last() == piece@);
                    if done.len() == 1 {
                        assert(after_first(done) =~= Seq::<Seq<char>>::empty());
                        assert(joined(after_first(more)) == piece@);
                        assert(Seq::<char>::empty() + piece@ =~= piece@);
                    } else {
                        assert(joined(after_first(more)) == joined(after_first(done)) + seq![' ']
                            + piece@);
                    }
                } else {
                    assert(after_first(more) =~= Seq::<Seq<char>>::empty());
                }
            }
            if !have_name {
                name = piece.to_owned();
                have_name = true;
            } else {
                if have_surname {
                    surname.append(" ");
                }
                surname.append(piece);
                have_surname = true;
            }
            proof {
                done = done.push(piece@);
            }
            at = to;
        }
    }
    proof {
        assert(words(chars@.skip(n as int)) =~= Seq::<Seq<char>>::empty());
        assert(done + Seq::<Seq<char>>::empty() =~= done);
    }
    (name, surname)
}

/// The id of a person with the email `email`: what stands before the first
/// `@`.
pub fn extract_id(email: &str) -> (id: String)
    ensures
        id@ == id_of_email(email@),
{
    let chars = chars_of(email);
    let n = chars.len();
    let mut to: usize = 0;
    assert(chars@.skip(0) =~= chars@);
    assert(chars@.take(0) + id_of_email(chars@.skip(0)) =~= id_of_email(chars@));
    while to < n && chars[to] != '@'
        invariant
            to <= n,
            n == chars.len(),
            id_of_email(chars@) == chars@.take(to as int) + id_of_email(chars@.skip(to as int)),
        decreases n - to,
    {
        assert(chars@.skip(to as int).drop_first() =~= chars@.skip(to + 1));
        assert(chars@.take(to as int) + (seq![chars@[to as int]] + id_of_email(
            chars@.skip(to + 1),
        )) =~= chars@.take(to + 1) + id_of_email(chars@.skip(to + 1)));
        to += 1;
    }
    assert(id_of_email(chars@.skip(to as int)) =~= Seq::<char>::empty());
    assert(chars@.take(to as int) + Seq::<char>::empty() =~= chars@.subrange(0, to as int));
    email.substring_char(0, to).to_owned()
}

} // verus!
