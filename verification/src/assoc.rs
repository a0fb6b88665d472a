//! Association lists with unique keys, at the specification level.
//!
//! The keyed stores of this library (run log, running jobs, next-run
//! cache, job configuration) hold their entries in vectors of pairs.
//! These spec functions and lemmas give such a vector its map reading
//! and relate the vector operations to map operations.

use vstd::prelude::*;

verus! {

/// The map read off an entry list; a later entry for a key overrides an
/// earlier one.
pub open spec fn alist_map<V>(s: Seq<(Seq<char>, V)>) -> Map<Seq<char>, V>
    decreases s.len(),
{
    if s.len() == 0 {
        Map::empty()
    } else {
        alist_map(s.drop_last()).insert(s.last().0, s.last().1)
    }
}

/// No two entries share a key.
pub open spec fn alist_unique<V>(s: Seq<(Seq<char>, V)>) -> bool {
    forall|i: int, j: int| 0 <= i < j < s.len() ==> (#[trigger] s[i]).0 != (#[trigger] s[j]).0
}

/// A key is in the map reading exactly when some entry holds it.
pub proof fn lemma_alist_map_domain<V>(s: Seq<(Seq<char>, V)>, k: Seq<char>)
    ensures
        alist_map(s).contains_key(k) <==> exists|i: int| 0 <= i < s.len() && (#[trigger] s[i]).0
            == k,
    decreases s.len(),
{
    if s.len() > 0 {
        lemma_alist_map_domain(s.drop_last(), k);
        if s.last().0 == k {
            assert(s[s.len() - 1].0 == k);
        } else {
            assert(forall|i: int|
                0 <= i < s.len() - 1 ==> (#[trigger] s[i]) == s.drop_last()[i]);
        }
    }
}

/// With unique keys, each entry is the map value of its key.
pub proof fn lemma_alist_map_index<V>(s: Seq<(Seq<char>, V)>, i: int)
    requires
        alist_unique(s),
        0 <= i < s.len(),
    ensures
        alist_map(s).contains_key(s[i].0),
        alist_map(s)[s[i].0] == s[i].1,
    decreases s.len(),
{
    if i == s.len() - 1 {
        assert(alist_map(s) == alist_map(s.drop_last()).insert(s.last().0, s.last().1));
    } else {
        assert(alist_unique(s.drop_last())) by {
            assert(forall|a: int, b: int|
                0 <= a < b < s.len() - 1 ==> (#[trigger] s.drop_last()[a]).0 != (
                #[trigger] s.drop_last()[b]).0);
        }
        lemma_alist_map_index(s.drop_last(), i);
        assert(s.drop_last()[i] == s[i]);
        assert(s[i].0 != s[s.len() - 1].0);
    }
}

/// Appending an entry inserts its pair into the map reading.
pub proof fn lemma_alist_map_push<V>(s: Seq<(Seq<char>, V)>, k: Seq<char>, v: V)
    ensures
        alist_map(s.push((k, v))) == alist_map(s).insert(k, v),
{
    assert(s.push((k, v)).drop_last() =~= s);
    assert(s.push((k, v)).last() == (k, v));
}

/// Overwriting the entry of a key updates the map reading at that key.
pub proof fn lemma_alist_map_update<V>(s: Seq<(Seq<char>, V)>, i: int, v: V)
    requires
        alist_unique(s),
        0 <= i < s.len(),
    ensures
        alist_map(s.update(i, (s[i].0, v))) =~= alist_map(s).insert(s[i].0, v),
    decreases s.len(),
{
    let s2 = s.update(i, (s[i].0, v));
    if i == s.len() - 1 {
        assert(s2.drop_last() =~= s.drop_last());
        assert(s2.last() == (s[i].0, v));
    } else {
        assert(alist_unique(s.drop_last())) by {
            assert(forall|a: int, b: int|
                0 <= a < b < s.len() - 1 ==> (#[trigger] s.drop_last()[a]).0 != (
                #[trigger] s.drop_last()[b]).0);
        }
        lemma_alist_map_update(s.drop_last(), i, v);
        assert(s2.drop_last() =~= s.drop_last().update(i, (s[i].0, v)));
        assert(s2.last() == s.last());
        assert(s[i].0 != s[s.len() - 1].0);
        assert(alist_map(s2) == alist_map(s2.drop_last()).insert(s2.last().0, s2.last().1));
    }
}

/// Removing the entry of a key removes the key from the map reading.
pub proof fn lemma_alist_map_remove<V>(s: Seq<(Seq<char>, V)>, i: int)
    requires
        alist_unique(s),
        0 <= i < s.len(),
    ensures
        alist_map(s.remove(i)) =~= alist_map(s).remove(s[i].0),
    decreases s.len(),
{
    let s2 = s.remove(i);
    if i == s.len() - 1 {
        assert(s2 =~= s.drop_last());
        lemma_alist_map_domain(s.drop_last(), s[i].0);
        assert(forall|a: int|
            0 <= a < s.len() - 1 ==> (#[trigger] s.drop_last()[a]).0 != s[s.len() - 1].0);
        assert(!alist_map(s.drop_last()).contains_key(s[i].0));
        assert(alist_map(s) == alist_map(s.drop_last()).insert(s.last().0, s.last().1));
    } else {
        assert(alist_unique(s.drop_last())) by {
            assert(forall|a: int, b: int|
                0 <= a < b < s.len() - 1 ==> (#[trigger] s.drop_last()[a]).0 != (
                #[trigger] s.drop_last()[b]).0);
        }
        lemma_alist_map_remove(s.drop_last(), i);
        assert(s2.drop_last() =~= s.drop_last().remove(i));
        assert(s2.last() == s.last());
        assert(s[i].0 != s[s.len() - 1].0);
        assert(alist_map(s2) == alist_map(s2.drop_last()).insert(s2.last().0, s2.last().1));
    }
}

/// The last entry of a key gives the map value of that key, whether or
/// not earlier entries repeat it.
pub proof fn lemma_alist_map_last<V>(s: Seq<(Seq<char>, V)>, i: int)
    requires
        0 <= i < s.len(),
        forall|j: int| i < j < s.len() ==> (#[trigger] s[j]).0 != s[i].0,
    ensures
        alist_map(s).contains_key(s[i].0),
        alist_map(s)[s[i].0] == s[i].1,
    decreases s.len(),
{
    if i == s.len() - 1 {
        assert(alist_map(s) == alist_map(s.drop_last()).insert(s.last().0, s.last().1));
    } else {
        assert(forall|j: int|
            i < j < s.len() - 1 ==> (#[trigger] s.drop_last()[j]).0 != s.drop_last()[i].0);
        lemma_alist_map_last(s.drop_last(), i);
        assert(s.drop_last()[i] == s[i]);
        assert(s[s.len() - 1].0 != s[i].0);
    }
}

/// Uniqueness survives appending a fresh key.
pub proof fn lemma_alist_unique_push<V>(s: Seq<(Seq<char>, V)>, k: Seq<char>, v: V)
    requires
        alist_unique(s),
        forall|i: int| 0 <= i < s.len() ==> (#[trigger] s[i]).0 != k,
    ensures
        alist_unique(s.push((k, v))),
{
    assert(forall|i: int| 0 <= i < s.len() ==> (#[trigger] s.push((k, v))[i]) == s[i]);
}

} // verus!
