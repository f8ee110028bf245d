//! The order of keys and the listings of a store.
//!
//! Keys are byte strings ordered lexicographically. A listing is the content
//! of a store written out in ascending key order.

use vstd::prelude::*;

verus! {

/// One key with its value.
pub type Pair = (Seq<u8>, Seq<u8>);

/// Lexicographic order on byte strings, strict.
pub open spec fn bytes_lt(a: Seq<u8>, b: Seq<u8>) -> bool
    decreases a.len(),
{
    if b.len() == 0 {
        false
    } else if a.len() == 0 {
        true
    } else if a[0] != b[0] {
        a[0] < b[0]
    } else {
        bytes_lt(a.drop_first(), b.drop_first())
    }
}

/// Lexicographic order on byte strings.
pub open spec fn bytes_le(a: Seq<u8>, b: Seq<u8>) -> bool {
    a == b || bytes_lt(a, b)
}

/// The pairs as plain values.
pub open spec fn pairs_view(v: Seq<(Vec<u8>, Vec<u8>)>) -> Seq<Pair> {
    Seq::new(v.len(), |i: int| (v[i].0@, v[i].1@))
}

/// Whether the keys of `s` strictly ascend.
pub open spec fn is_ascending(s: Seq<Pair>) -> bool {
    forall|i: int, j: int| #![trigger s[i], s[j]] 0 <= i < j < s.len() ==> bytes_lt(s[i].0, s[j].0)
}

/// Whether some pair of `s` has the key `k`.
pub open spec fn has_key(s: Seq<Pair>, k: Seq<u8>) -> bool {
    exists|i: int| 0 <= i < s.len() && (#[trigger] s[i]).0 == k
}

/// Whether no key occurs twice in `s`.
pub open spec fn has_distinct_keys(s: Seq<Pair>) -> bool {
    forall|i: int, j: int| #![trigger s[i], s[j]] 0 <= i < j < s.len() ==> s[i].0 != s[j].0
}

/// Whether `s` lists `m`: every entry of `m` once, and nothing else, by
/// strictly ascending key.
pub open spec fn is_listing(s: Seq<Pair>, m: Map<Seq<u8>, Seq<u8>>) -> bool {
    &&& is_ascending(s)
    &&& forall|i: int|
        #![trigger s[i]]
        0 <= i < s.len() ==> m.contains_key(s[i].0) && m[s[i].0] == s[i].1
    &&& forall|k: Seq<u8>| #[trigger] m.contains_key(k) ==> has_key(s, k)
}

/// The entries of `m` whose key is `lower` or comes after it.
pub open spec fn from_bound(m: Map<Seq<u8>, Seq<u8>>, lower: Seq<u8>) -> Map<Seq<u8>, Seq<u8>> {
    Map::new(|k: Seq<u8>| m.contains_key(k) && bytes_le(lower, k), |k: Seq<u8>| m[k])
}

/// `m` after the pairs of `s` were inserted one by one, first to last.
pub open spec fn insert_all(m: Map<Seq<u8>, Seq<u8>>, s: Seq<Pair>) -> Map<Seq<u8>, Seq<u8>>
    decreases s.len(),
{
    if s.len() == 0 {
        m
    } else {
        insert_all(m.insert(s[0].0, s[0].1), s.drop_first())
    }
}

/// No byte string comes before itself.
pub proof fn lemma_bytes_lt_irreflexive(a: Seq<u8>)
    ensures
        !bytes_lt(a, a),
    decreases a.len(),
{
    if a.len() > 0 {
        lemma_bytes_lt_irreflexive(a.drop_first());
    }
}

/// Of two byte strings at most one comes before the other.
pub proof fn lemma_bytes_lt_asymmetric(a: Seq<u8>, b: Seq<u8>)
    ensures
        !(bytes_lt(a, b) && bytes_lt(b, a)),
    decreases a.len(),
{
    if a.len() > 0 && b.len() > 0 && a[0] == b[0] {
        lemma_bytes_lt_asymmetric(a.drop_first(), b.drop_first());
    }
}

/// Strictly ascending keys are distinct.
pub proof fn lemma_ascending_is_distinct(s: Seq<Pair>)
    requires
        is_ascending(s),
    ensures
        has_distinct_keys(s),
{
    assert forall|i: int, j: int| #![trigger s[i], s[j]] 0 <= i < j < s.len() implies s[i].0
        != s[j].0 by {
        lemma_bytes_lt_irreflexive(s[i].0);
    }
}

/// A key occurs in a sequence of pairs at its head or in its tail.
pub proof fn lemma_has_key_split(s: Seq<Pair>, k: Seq<u8>)
    requires
        s.len() > 0,
    ensures
        has_key(s, k) <==> (s[0].0 == k || has_key(s.drop_first(), k)),
{
    let rest = s.drop_first();
    if has_key(s, k) {
        let i = choose|i: int| 0 <= i < s.len() && (#[trigger] s[i]).0 == k;
        if i > 0 {
            assert(rest[i - 1] == s[i]);
        }
    }
    if has_key(rest, k) {
        let i = choose|i: int| 0 <= i < rest.len() && (#[trigger] rest[i]).0 == k;
        assert(s[i + 1] == rest[i]);
    }
}

/// What inserting pairs with distinct keys gives: the keys of both, the
/// values of the pairs where they have the key, those of `m` elsewhere.
pub proof fn lemma_insert_all(m: Map<Seq<u8>, Seq<u8>>, s: Seq<Pair>)
    requires
        has_distinct_keys(s),
    ensures
        forall|k: Seq<u8>| #[trigger]
            insert_all(m, s).contains_key(k) <==> (m.contains_key(k) || has_key(s, k)),
        forall|i: int|
            #![trigger s[i]]
            0 <= i < s.len() ==> insert_all(m, s).contains_key(s[i].0) && insert_all(
                m,
                s,
            )[s[i].0] == s[i].1,
        forall|k: Seq<u8>|
            !has_key(s, k) && m.contains_key(k) ==> #[trigger] insert_all(m, s)[k] == m[k],
    decreases s.len(),
{
    if s.len() > 0 {
        let first = s[0];
        let rest = s.drop_first();
        let grown = m.insert(first.0, first.1);
        let built = insert_all(m, s);
        assert(built == insert_all(grown, rest));
        assert forall|i: int, j: int|
            #![trigger rest[i], rest[j]]
            0 <= i < j < rest.len() implies rest[i].0 != rest[j].0 by {
            assert(rest[i] == s[i + 1] && rest[j] == s[j + 1]);
        }
        lemma_insert_all(grown, rest);
        assert(!has_key(rest, first.0)) by {
            if has_key(rest, first.0) {
                let i = choose|i: int| 0 <= i < rest.len() && (#[trigger] rest[i]).0 == first.0;
                assert(s[i + 1] == rest[i]);
                assert(s[0].0 != s[i + 1].0);
            }
        }
        assert(grown.contains_key(first.0));
        assert(built[first.0] == grown[first.0]);
        assert forall|k: Seq<u8>| #[trigger]
            built.contains_key(k) <==> (m.contains_key(k) || has_key(s, k)) by {
            lemma_has_key_split(s, k);
        }
        assert forall|i: int| #![trigger s[i]] 0 <= i < s.len() implies built.contains_key(s[i].0)
            && built[s[i].0] == s[i].1 by {
            lemma_has_key_split(s, s[i].0);
            if i > 0 {
                assert(rest[i - 1] == s[i]);
            }
        }
        assert forall|k: Seq<u8>| !has_key(s, k) && m.contains_key(k) implies #[trigger] built[k]
            == m[k] by {
            lemma_has_key_split(s, k);
            assert(grown.contains_key(k));
            assert(built[k] == grown[k]);
        }
    }
}

/// Inserting a listing of `m` into an empty store rebuilds `m`.
pub proof fn lemma_listing_rebuilds(s: Seq<Pair>, m: Map<Seq<u8>, Seq<u8>>)
    requires
        is_listing(s, m),
    ensures
        insert_all(Map::empty(), s) == m,
{
    lemma_ascending_is_distinct(s);
    lemma_insert_all(Map::empty(), s);
    let built = insert_all(Map::empty(), s);
    assert forall|k: Seq<u8>| built.contains_key(k) <==> m.contains_key(k) by {
        if has_key(s, k) {
            let i = choose|i: int| 0 <= i < s.len() && (#[trigger] s[i]).0 == k;
        }
    }
    assert forall|k: Seq<u8>| built.contains_key(k) implies built[k] == m[k] by {
        let i = choose|i: int| 0 <= i < s.len() && (#[trigger] s[i]).0 == k;
    }
    assert(built =~= m);
}

/// A store that holds nothing has the empty listing only.
pub proof fn lemma_empty_store_lists_nothing(s: Seq<Pair>)
    requires
        is_listing(s, Map::empty()),
    ensures
        s.len() == 0,
{
    if s.len() > 0 {
        assert(Map::<Seq<u8>, Seq<u8>>::empty().contains_key(s[0].0));
    }
}

/// The listing of a store that holds nothing is empty.
pub proof fn lemma_nothing_is_listed()
    ensures
        is_listing(Seq::empty(), Map::empty()),
        listing_of(Map::empty()) == Seq::<Pair>::empty(),
{
    let none = Seq::<Pair>::empty();
    let nothing = Map::<Seq<u8>, Seq<u8>>::empty();
    assert(is_listing(none, nothing));
    lemma_listing_is_listing_of(none, nothing);
}

/// Behind its first entry, a listing lists the store without that entry.
pub proof fn lemma_listing_tail(s: Seq<Pair>, m: Map<Seq<u8>, Seq<u8>>)
    requires
        is_listing(s, m),
        s.len() > 0,
    ensures
        is_listing(s.drop_first(), m.remove(s[0].0)),
{
    let rest = s.drop_first();
    let less = m.remove(s[0].0);
    lemma_ascending_is_distinct(s);
    assert forall|i: int, j: int| #![trigger rest[i], rest[j]] 0 <= i < j < rest.len() implies bytes_lt(
        rest[i].0,
        rest[j].0,
    ) by {
        assert(rest[i] == s[i + 1] && rest[j] == s[j + 1]);
    }
    assert forall|i: int| #![trigger rest[i]] 0 <= i < rest.len() implies less.contains_key(
        rest[i].0,
    ) && less[rest[i].0] == rest[i].1 by {
        assert(rest[i] == s[i + 1]);
        assert(s[0].0 != s[i + 1].0);
    }
    assert forall|k: Seq<u8>| #[trigger] less.contains_key(k) implies has_key(rest, k) by {
        assert(m.contains_key(k));
        lemma_has_key_split(s, k);
    }
}

/// A store has one listing only.
pub proof fn lemma_listing_is_unique(a: Seq<Pair>, b: Seq<Pair>, m: Map<Seq<u8>, Seq<u8>>)
    requires
        is_listing(a, m),
        is_listing(b, m),
    ensures
        a == b,
    decreases a.len(),
{
    if a.len() == 0 {
        if b.len() > 0 {
            assert(m.contains_key(b[0].0));
            assert(has_key(a, b[0].0));
        }
        assert(a =~= b);
    } else {
        assert(m.contains_key(a[0].0));
        assert(has_key(b, a[0].0));
        let j = choose|j: int| 0 <= j < b.len() && (#[trigger] b[j]).0 == a[0].0;
        assert(m.contains_key(b[0].0));
        assert(has_key(a, b[0].0));
        let i = choose|i: int| 0 <= i < a.len() && (#[trigger] a[i]).0 == b[0].0;
        if j > 0 {
            assert(bytes_lt(b[0].0, b[j].0));
            if i > 0 {
                assert(bytes_lt(a[0].0, a[i].0));
                lemma_bytes_lt_asymmetric(a[0].0, b[0].0);
            } else {
                lemma_bytes_lt_irreflexive(a[0].0);
            }
        }
        assert(a[0] == b[0]);
        lemma_listing_tail(a, m);
        lemma_listing_tail(b, m);
        lemma_listing_is_unique(a.drop_first(), b.drop_first(), m.remove(a[0].0));
        assert(a =~= seq![a[0]] + a.drop_first());
        assert(b =~= seq![b[0]] + b.drop_first());
    }
}

/// The listing of a store: its entries by strictly ascending key.
pub open spec fn listing_of(m: Map<Seq<u8>, Seq<u8>>) -> Seq<Pair> {
    choose|s: Seq<Pair>| is_listing(s, m)
}

/// Whatever lists a store is its listing.
pub proof fn lemma_listing_is_listing_of(s: Seq<Pair>, m: Map<Seq<u8>, Seq<u8>>)
    requires
        is_listing(s, m),
    ensures
        s == listing_of(m),
{
    lemma_listing_is_unique(s, listing_of(m), m);
}

/// A search from `lower` on finds the keys of the store that are `lower` or
/// come after it, whatever comes after them, and no key that comes before.
pub proof fn lemma_search_bounds(s: Seq<Pair>, m: Map<Seq<u8>, Seq<u8>>, lower: Seq<u8>)
    requires
        is_listing(s, from_bound(m, lower)),
    ensures
        forall|k: Seq<u8>| #[trigger] has_key(s, k) <==> (m.contains_key(k) && bytes_le(lower, k)),
{
    let found = from_bound(m, lower);
    assert forall|k: Seq<u8>| #[trigger] has_key(s, k) implies m.contains_key(k) && bytes_le(
        lower,
        k,
    ) by {
        let i = choose|i: int| 0 <= i < s.len() && (#[trigger] s[i]).0 == k;
        assert(found.contains_key(s[i].0));
    }
    assert forall|k: Seq<u8>| m.contains_key(k) && bytes_le(lower, k) implies #[trigger] has_key(
        s,
        k,
    ) by {
        assert(found.contains_key(k));
    }
}

} // verus!
