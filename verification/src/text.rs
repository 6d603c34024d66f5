//! Text as sequences of characters: whitespace, trimming, and the pieces that
//! cells and names are cut into.

use vstd::prelude::*;
use vstd::string::StrSliceExecFns;

verus! {

/// A result whose failure is a message, with the message as characters.
pub open spec fn outcome<T>(result: Result<T, String>) -> Result<T, Seq<char>> {
    match result {
        Ok(value) => Ok(value),
        Err(message) => Err(message@),
    }
}

/// The index of the first text equal to `wanted`, or the length of `texts`
/// where there is none.
pub open spec fn first_index(texts: Seq<Seq<char>>, wanted: Seq<char>) -> int
    decreases texts.len(),
{
    if texts.len() == 0 {
        0
    } else if texts[0] == wanted {
        0
    } else {
        1 + first_index(texts.drop_first(), wanted)
    }
}

/// What `first_index` returns: an index within bounds or the length; the
/// text stands at that index and at none before it.
pub proof fn lemma_first_index(texts: Seq<Seq<char>>, wanted: Seq<char>)
    ensures
        0 <= first_index(texts, wanted) <= texts.len(),
        first_index(texts, wanted) < texts.len() ==> texts[first_index(texts, wanted)] == wanted,
        forall|k: int| 0 <= k < first_index(texts, wanted) ==> #[trigger] texts[k] != wanted,
    decreases texts.len(),
{
    if texts.len() > 0 && texts[0] != wanted {
        let rest = texts.drop_first();
        lemma_first_index(rest, wanted);
        assert forall|k: int| 0 <= k < first_index(texts, wanted) implies #[trigger] texts[k]
            != wanted by {
            if k > 0 {
                assert(rest[k - 1] == texts[k]);
            }
        }
    }
}

/// The index of the first text equal to `wanted`, or the length of `texts`
/// where there is none.
pub fn find_text(texts: &Vec<String>, wanted: &String) -> (at: usize)
    ensures
        at == first_index(texts.deep_view(), wanted@),
        at <= texts.len(),
        at < texts.len() ==> texts[at as int]@ == wanted@,
        forall|k: int| 0 <= k < at ==> (#[trigger] texts[k])@ != wanted@,
{
    let ghost all = texts.deep_view();
    let mut at: usize = 0;
    while at < texts.len()
        invariant
            at <= texts.len(),
            all == texts.deep_view(),
            forall|k: int| 0 <= k < at ==> (#[trigger] texts[k])@ != wanted@,
        decreases texts.len() - at,
    {
        if texts[at] == *wanted {
            proof {
                lemma_first_index(all, wanted@);
                let found = first_index(all, wanted@);
                assert(all[at as int] == wanted@);
                if found < at {
                    assert(texts[found]@ != wanted@);
                    assert(all[found] == texts[found]@);
                }
                if found > at {
                    assert(all[at as int] != wanted@);
                }
            }
            return at;
        }
        at += 1;
    }
    proof {
        lemma_first_index(all, wanted@);
        let found = first_index(all, wanted@);
        if found < all.len() {
            assert(texts[found]@ != wanted@);
            assert(all[found] == texts[found]@);
        }
    }
    at
}

/// The characters of `text`, one element each.
pub fn chars_of(text: &str) -> (chars: Vec<char>)
    ensures
        chars@ == text@,
{
    let mut chars: Vec<char> = Vec::new();
    for c in it: text.chars()
        invariant
            it.seq() == text@,
            chars@ == it.seq().take(it.index()),
    {
        assert(it.seq().take(it.index() + 1) =~= it.seq().take(it.index()).push(c));
        chars.push(c);
    }
    assert(chars@ =~= text@);
    chars
}

/// Whether `c` is white space: one of the characters with the Unicode
/// property `White_Space`, which are the controls from the tab to the carriage
/// return, the space, the next-line control, the no-break space, and the
/// spaces and line and paragraph separators between U+1680 and U+3000.
pub open spec fn is_whitespace(c: char) -> bool {
    let code = c as u32;
    ||| 0x09 <= code <= 0x0D
    ||| code == 0x20
    ||| code == 0x85
    ||| code == 0xA0
    ||| code == 0x1680
    ||| 0x2000 <= code <= 0x200A
    ||| code == 0x2028
    ||| code == 0x2029
    ||| code == 0x202F
    ||| code == 0x205F
    ||| code == 0x3000
}

/// Whether `c` is white space.
pub fn is_white(c: char) -> (white: bool)
    ensures
        white == is_whitespace(c),
{
    let code = c as u32;
    (0x09 <= code && code <= 0x0D) || code == 0x20 || code == 0x85 || code == 0xA0 || code
        == 0x1680 || (0x2000 <= code && code <= 0x200A) || code == 0x2028 || code == 0x2029 || code
        == 0x202F || code == 0x205F || code == 0x3000
}

/// Whether the character at `at` is white space.
pub fn is_whitespace_at(chars: &Vec<char>, at: usize) -> (white: bool)
    requires
        at < chars.len(),
    ensures
        white == is_whitespace(chars[at as int]),
{
    is_white(chars[at])
}

/// `text` without its leading white space.
pub open spec fn trim_start(text: Seq<char>) -> Seq<char>
    decreases text.len(),
{
    if text.len() > 0 && is_whitespace(text[0]) {
        trim_start(text.drop_first())
    } else {
        text
    }
}

/// `text` without its trailing white space.
pub open spec fn trim_end(text: Seq<char>) -> Seq<char>
    decreases text.len(),
{
    if text.len() > 0 && is_whitespace(text.last()) {
        trim_end(text.drop_last())
    } else {
        text
    }
}

/// `text` without its leading and trailing white space.
pub open spec fn trimmed(text: Seq<char>) -> Seq<char> {
    trim_end(trim_start(text))
}

/// The run of characters at the start of `text` up to the first white space.
pub open spec fn first_word(text: Seq<char>) -> Seq<char>
    decreases text.len(),
{
    if text.len() == 0 || is_whitespace(text[0]) {
        Seq::empty()
    } else {
        seq![text[0]] + first_word(text.drop_first())
    }
}

/// A first word is no longer than the text, and not empty where the text
/// starts with something other than white space.
pub proof fn lemma_first_word_len(text: Seq<char>)
    ensures
        first_word(text).len() <= text.len(),
        text.len() > 0 && !is_whitespace(text[0]) ==> first_word(text).len() >= 1,
    decreases text.len(),
{
    if text.len() > 0 && !is_whitespace(text[0]) {
        lemma_first_word_len(text.drop_first());
    }
}

/// The words of `text`: its maximal runs of characters that are not white
/// space, in order.
pub open spec fn words(text: Seq<char>) -> Seq<Seq<char>>
    decreases text.len(),
    via words_terminates
{
    if text.len() == 0 {
        Seq::empty()
    } else if is_whitespace(text[0]) {
        words(text.drop_first())
    } else {
        seq![first_word(text)] + words(text.skip(first_word(text).len() as int))
    }
}

#[via_fn]
proof fn words_terminates(text: Seq<char>) {
    lemma_first_word_len(text);
}

/// The words put together again with one space between neighbours.
pub open spec fn joined(words: Seq<Seq<char>>) -> Seq<char>
    decreases words.len(),
{
    if words.len() == 0 {
        Seq::empty()
    } else if words.len() == 1 {
        words[0]
    } else {
        joined(words.drop_last()) + seq![' '] + words.last()
    }
}

/// The end of the white space that starts at `from`.
pub fn skip_whitespace(chars: &Vec<char>, from: usize) -> (to: usize)
    requires
        from <= chars.len(),
    ensures
        from <= to <= chars.len(),
        words(chars@.skip(from as int)) == words(chars@.skip(to as int)),
        trim_start(chars@.skip(from as int)) == chars@.skip(to as int),
        to < chars.len() ==> !is_whitespace(chars[to as int]),
{
    let n = chars.len();
    let mut to: usize = from;
    while to < n && is_white(chars[to])
        invariant
            from <= to <= n,
            n == chars.len(),
            words(chars@.skip(from as int)) == words(chars@.skip(to as int)),
            trim_start(chars@.skip(from as int)) == trim_start(chars@.skip(to as int)),
        decreases n - to,
    {
        assert(chars@.skip(to as int).drop_first() =~= chars@.skip(to + 1));
        to += 1;
    }
    to
}

/// The end of the word that starts at `from`.
pub fn skip_word(chars: &Vec<char>, from: usize) -> (to: usize)
    requires
        from <= chars.len(),
    ensures
        from <= to <= chars.len(),
        first_word(chars@.skip(from as int)) == chars@.subrange(from as int, to as int),
        to < chars.len() ==> is_whitespace(chars[to as int]),
{
    let n = chars.len();
    let mut to: usize = from;
    assert(chars@.subrange(from as int, from as int) =~= Seq::<char>::empty());
    while to < n && !is_white(chars[to])
        invariant
            from <= to <= n,
            n == chars.len(),
            first_word(chars@.skip(from as int)) == chars@.subrange(from as int, to as int)
                + first_word(chars@.skip(to as int)),
        decreases n - to,
    {
        assert(chars@.skip(to as int).drop_first() =~= chars@.skip(to + 1));
        assert(chars@.subrange(from as int, to + 1) =~= chars@.subrange(from as int, to as int)
            + seq![chars@[to as int]]);
        assert(chars@.subrange(from as int, to as int) + (seq![chars@[to as int]] + first_word(
            chars@.skip(to + 1),
        )) =~= chars@.subrange(from as int, to + 1) + first_word(chars@.skip(to + 1)));
        to += 1;
    }
    assert(first_word(chars@.skip(to as int)) =~= Seq::<char>::empty());
    assert(chars@.subrange(from as int, to as int) + Seq::<char>::empty() =~= chars@.subrange(
        from as int,
        to as int,
    ));
    to
}

/// Where the trimmed part of `chars` begins and ends.
fn trim_bounds(chars: &Vec<char>) -> (bounds: (usize, usize))
    ensures
        bounds.0 <= bounds.1 <= chars.len(),
        trimmed(chars@) == chars@.subrange(bounds.0 as int, bounds.1 as int),
{
    let n = chars.len();
    assert(chars@.skip(0) =~= chars@);
    let from = skip_whitespace(chars, 0);
    let mut to: usize = n;
    assert(chars@.skip(from as int) =~= chars@.subrange(from as int, to as int));
    while to > from && is_white(chars[to - 1])
        invariant
            from <= to <= n,
            n == chars.len(),
            trimmed(chars@) == trim_end(chars@.subrange(from as int, to as int)),
        decreases to,
    {
        assert(chars@.subrange(from as int, to as int).drop_last() =~= chars@.subrange(
            from as int,
            to - 1,
        ));
        to -= 1;
    }
    (from, to)
}

/// A copy of `text` without its leading and trailing white space.
pub fn trim(text: &str) -> (cut: String)
    ensures
        cut@ == trimmed(text@),
{
    let chars = chars_of(text);
    let (from, to) = trim_bounds(&chars);
    text.substring_char(from, to).to_owned()
}

} // verus!
