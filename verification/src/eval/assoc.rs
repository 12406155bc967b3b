//! Lists of pairs read as maps: a later pair with the same key replaces an
//! earlier one.

use vstd::prelude::*;

verus! {

/// The map that a list of pairs stands for.
pub open spec fn assoc_map<K, V>(s: Seq<(K, V)>) -> Map<K, V>
    decreases s.len(),
{
    if s.len() == 0 {
        Map::empty()
    } else {
        assoc_map(s.drop_last()).insert(s.last().0, s.last().1)
    }
}

/// `i` is the last place in the list where the key `k` stands.
pub open spec fn last_at<K, V>(s: Seq<(K, V)>, k: K, i: int) -> bool {
    &&& 0 <= i < s.len()
    &&& s[i].0 == k
    &&& forall|j: int| i < j < s.len() ==> (#[trigger] s[j]).0 != k
}

/// The key `k` stands nowhere at or after the place `from`.
pub open spec fn absent_from<K, V>(s: Seq<(K, V)>, k: K, from: int) -> bool {
    forall|j: int| from <= j < s.len() ==> (#[trigger] s[j]).0 != k
}

/// The map holds for a key the value that stands with it last in the list.
pub proof fn lemma_assoc_found<K, V>(s: Seq<(K, V)>, k: K, i: int)
    requires
        last_at(s, k, i),
    ensures
        assoc_map(s).contains_key(k),
        assoc_map(s)[k] == s[i].1,
    decreases s.len(),
{
    if i < s.len() - 1 {
        assert(s.last().0 != k);
        lemma_assoc_found(s.drop_last(), k, i);
    }
}

/// The map has no key that stands nowhere in the list.
pub proof fn lemma_assoc_absent<K, V>(s: Seq<(K, V)>, k: K)
    requires
        absent_from(s, k, 0),
    ensures
        !assoc_map(s).contains_key(k),
    decreases s.len(),
{
    if s.len() > 0 {
        assert(s.last().0 != k);
        lemma_assoc_absent(s.drop_last(), k);
    }
}

/// Replacing the value at the last place of a key is an insertion in the map.
pub proof fn lemma_assoc_update<K, V>(s: Seq<(K, V)>, k: K, i: int, v: V)
    requires
        last_at(s, k, i),
    ensures
        assoc_map(s.update(i, (k, v))) == assoc_map(s).insert(k, v),
    decreases s.len(),
{
    let t = s.update(i, (k, v));
    if i == s.len() - 1 {
        assert(t.drop_last() =~= s.drop_last());
        assert(assoc_map(t) =~= assoc_map(s).insert(k, v));
    } else {
        assert(s.last().0 != k);
        lemma_assoc_update(s.drop_last(), k, i, v);
        assert(t.drop_last() =~= s.drop_last().update(i, (k, v)));
        assert(t.last() == s.last());
        assert(assoc_map(t) =~= assoc_map(s).insert(k, v));
    }
}

/// Adding a pair at the end of the list is an insertion in the map.
pub proof fn lemma_assoc_push<K, V>(s: Seq<(K, V)>, k: K, v: V)
    ensures
        assoc_map(s.push((k, v))) == assoc_map(s).insert(k, v),
{
    assert(s.push((k, v)).drop_last() =~= s);
}

} // verus!
