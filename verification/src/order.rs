//! The order in which text is sorted: byte by byte over its UTF-8 encoding,
//! which is the order of its code points.

use vstd::prelude::*;
use vstd::utf8::encode_utf8;

verus! {

/// `a` comes strictly before `b`: at the first place where they differ `a`
/// has the smaller byte, or `a` ends there and `b` goes on.
pub open spec fn bytes_before(a: Seq<u8>, b: Seq<u8>) -> bool
    decreases a.len(),
{
    if b.len() == 0 {
        false
    } else if a.len() == 0 {
        true
    } else if a[0] != b[0] {
        a[0] < b[0]
    } else {
        bytes_before(a.drop_first(), b.drop_first())
    }
}

/// How one text stands to another in sorted order.
#[derive(Debug, Clone, Copy, PartialEq, Eq, Structural)]
pub enum Rank {
    Before,
    Same,
    After,
}

/// The rank of `a` against `b`.
pub open spec fn rank_of(a: Seq<u8>, b: Seq<u8>) -> Rank {
    if bytes_before(a, b) {
        Rank::Before
    } else if a == b {
        Rank::Same
    } else {
        Rank::After
    }
}

/// Of two byte strings exactly one holds: the first comes before the second,
/// they are equal, or the second comes before the first.
pub proof fn lemma_bytes_trichotomy(a: Seq<u8>, b: Seq<u8>)
    ensures
        bytes_before(a, b) || a == b || bytes_before(b, a),
        !(bytes_before(a, b) && a == b),
        !(bytes_before(a, b) && bytes_before(b, a)),
        !(a == b && bytes_before(b, a)),
    decreases a.len(),
{
    if a.len() == 0 || b.len() == 0 {
        if a.len() == 0 && b.len() == 0 {
            assert(a =~= b);
        }
    } else if a[0] == b[0] {
        lemma_bytes_trichotomy(a.drop_first(), b.drop_first());
        if a.drop_first() == b.drop_first() {
            assert(a =~= seq![a[0]] + a.drop_first());
            assert(b =~= seq![b[0]] + b.drop_first());
        }
    }
}

/// The order is transitive.
pub proof fn lemma_bytes_transitive(a: Seq<u8>, b: Seq<u8>, c: Seq<u8>)
    requires
        bytes_before(a, b),
        bytes_before(b, c),
    ensures
        bytes_before(a, c),
    decreases a.len(),
{
    if a.len() > 0 && a[0] == b[0] && b[0] == c[0] {
        lemma_bytes_transitive(a.drop_first(), b.drop_first(), c.drop_first());
    }
}

/// Compares two byte strings.
pub fn rank_bytes(a: &[u8], b: &[u8]) -> (rank: Rank)
    ensures
        rank == rank_of(a@, b@),
{
    let mut i: usize = 0;
    assert(a@.skip(0) =~= a@ && b@.skip(0) =~= b@);
    while i < a.len() && i < b.len()
        invariant
            i <= a.len(),
            i <= b.len(),
            a@.take(i as int) == b@.take(i as int),
            bytes_before(a@, b@) == bytes_before(a@.skip(i as int), b@.skip(i as int)),
        decreases a.len() - i,
    {
        proof {
            assert(a@.skip(i as int).drop_first() =~= a@.skip(i + 1));
            assert(b@.skip(i as int).drop_first() =~= b@.skip(i + 1));
        }
        if a[i] < b[i] {
            proof {
                lemma_bytes_trichotomy(a@, b@);
            }
            return Rank::Before;
        }
        if a[i] > b[i] {
            proof {
                assert(a@ != b@);
            }
            return Rank::After;
        }
        proof {
            assert(a@.take(i + 1) =~= a@.take(i as int).push(a@[i as int]));
            assert(b@.take(i + 1) =~= b@.take(i as int).push(b@[i as int]));
        }
        i += 1;
    }
    if i < b.len() {
        proof {
            lemma_bytes_trichotomy(a@, b@);
        }
        Rank::Before
    } else if i < a.len() {
        proof {
            assert(a@.len() != b@.len());
        }
        Rank::After
    } else {
        proof {
            assert(a@ =~= a@.take(i as int));
            assert(b@ =~= b@.take(i as int));
            lemma_bytes_trichotomy(a@, b@);
        }
        Rank::Same
    }
}

/// The text `a` comes strictly before the text `b` in byte order.
pub open spec fn text_before(a: Seq<char>, b: Seq<char>) -> bool {
    bytes_before(encode_utf8(a), encode_utf8(b))
}

/// `places` is an order in which to read `paths`: it holds every index of
/// `paths` once, and no path comes before one that stands ahead of it.
pub open spec fn is_reading_order(paths: Seq<Seq<char>>, places: Seq<usize>) -> bool {
    &&& places.len() == paths.len()
    &&& forall|k: int| 0 <= k < places.len() ==> (#[trigger] places[k]) < paths.len()
    &&& forall|p: int| 0 <= p < paths.len() ==> #[trigger] places.contains(p as usize)
    &&& forall|i: int, j: int|
        0 <= i < j < places.len() ==> #[trigger] places[i] != #[trigger] places[j]
    &&& forall|i: int, j: int|
        0 <= i < j < places.len() ==> !text_before(
            paths[(#[trigger] places[j]) as int],
            paths[(#[trigger] places[i]) as int],
        )
}

/// The order in which to read files with the given paths: by path, in byte
/// order. Paths that are the same text keep the order in which they were
/// given.
pub fn reading_order(paths: &Vec<String>) -> (places: Vec<usize>)
    ensures
        is_reading_order(paths.deep_view(), places@),
{
    let ghost texts = paths.deep_view();
    let mut places: Vec<usize> = Vec::new();
    let mut k: usize = 0;
    while k < paths.len()
        invariant
            k <= paths.len(),
            texts == paths.deep_view(),
            places.len() == k,
            forall|x: int| 0 <= x < places.len() ==> (#[trigger] places[x]) < k,
            forall|p: int| 0 <= p < k ==> #[trigger] places@.contains(p as usize),
            forall|i: int, j: int|
                0 <= i < j < places.len() ==> #[trigger] places[i] != #[trigger] places[j],
            forall|i: int, j: int|
                0 <= i < j < places.len() ==> !text_before(
                    texts[(#[trigger] places[j]) as int],
                    texts[(#[trigger] places[i]) as int],
                ),
        decreases paths.len() - k,
    {
        let ghost before = places@;
        let mut at: usize = places.len();
        let mut settled = false;
        while at > 0 && !settled
            invariant
                at <= places.len(),
                before == places@,
                k < paths.len(),
                texts == paths.deep_view(),
                forall|x: int| 0 <= x < places.len() ==> (#[trigger] places[x]) < k,
                forall|x: int|
                    at <= x < places.len() ==> text_before(
                        texts[k as int],
                        texts[(#[trigger] places[x]) as int],
                    ),
                settled ==> at > 0 && !text_before(texts[k as int], texts[places[at - 1] as int]),
            decreases at + if settled { 0int } else { 1int },
        {
            let ahead = places[at - 1];
            match rank_bytes(paths[k].as_str().as_bytes(), paths[ahead].as_str().as_bytes()) {
                Rank::Before => {
                    at -= 1;
                },
                _ => {
                    settled = true;
                },
            }
        }
        places.insert(at, k);
        proof {
            let after = places@;
            assert(after == before.insert(at as int, k));
            assert forall|p: int| 0 <= p < k + 1 implies #[trigger] after.contains(p as usize) by {
                if p == k {
                    assert(after[at as int] == k);
                } else {
                    assert(before.contains(p as usize));
                    let w = choose|w: int| 0 <= w < before.len() && before[w] == p as usize;
                    if w < at {
                        assert(after[w] == p as usize);
                    } else {
                        assert(after[w + 1] == p as usize);
                    }
                }
            }
            assert forall|i: int, j: int| 0 <= i < j < after.len() implies #[trigger] after[i]
                != #[trigger] after[j] && !text_before(
                texts[after[j] as int],
                texts[after[i] as int],
            ) by {
                let a = if i < at {
                    i
                } else {
                    i - 1
                };
                let b = if j < at {
                    j
                } else {
                    j - 1
                };
                if j == at {
                    assert(after[i] == before[i]);
                    let last = texts[before[at - 1] as int];
                    let mine = texts[k as int];
                    let other = texts[before[i] as int];
                    lemma_bytes_trichotomy(encode_utf8(last), encode_utf8(other));
                    if text_before(mine, other) {
                        if i < at - 1 {
                            assert(!text_before(texts[before[at - 1] as int], texts[before[i] as int]));
                        }
                        if encode_utf8(other) != encode_utf8(last) {
                            lemma_bytes_transitive(
                                encode_utf8(mine),
                                encode_utf8(other),
                                encode_utf8(last),
                            );
                        }
                    }
                } else if i == at {
                    assert(after[j] == before[j - 1]);
                    lemma_bytes_trichotomy(
                        encode_utf8(texts[k as int]),
                        encode_utf8(texts[before[j - 1] as int]),
                    );
                } else {
                    assert(after[i] == before[a] && after[j] == before[b]);
                }
            }
        }
        k += 1;
    }
    places
}

} // verus!
