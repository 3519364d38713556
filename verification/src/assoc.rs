//! A sequence of key/value entries as a model for a string-keyed map.
//!
//! Both the attribute map of an element and the property map of a styled node
//! store their entries in a vector; their views are the map that the entry
//! sequence denotes. A later entry for a key supersedes an earlier one, and
//! the concrete types maintain the invariant that keys are distinct.

use vstd::prelude::*;

verus! {

/// The map denoted by a sequence of key/value entries, later entries winning.
pub open spec fn assoc_map<V>(s: Seq<(Seq<char>, V)>) -> Map<Seq<char>, V>
    decreases s.len(),
{
    if s.len() == 0 {
        Map::empty()
    } else {
        assoc_map(s.drop_last()).insert(s.last().0, s.last().1)
    }
}

/// No two entries share a key.
pub open spec fn distinct_keys<V>(s: Seq<(Seq<char>, V)>) -> bool {
    forall|i: int, j: int| #![trigger s[i], s[j]] 0 <= i < j < s.len() ==> s[i].0 != s[j].0
}

/// The denoted map has a key exactly when some entry carries it.
pub proof fn lemma_assoc_map_contains<V>(s: Seq<(Seq<char>, V)>, k: Seq<char>)
    ensures
        assoc_map(s).contains_key(k) <==> exists|i: int| 0 <= i < s.len() && (#[trigger] s[i]).0
            == k,
    decreases s.len(),
{
    if s.len() > 0 {
        let d = s.drop_last();
        lemma_assoc_map_contains(d, k);
        if assoc_map(s).contains_key(k) {
            if s.last().0 == k {
                assert(s[s.len() - 1].0 == k);
            } else {
                let i = choose|i: int| 0 <= i < d.len() && (#[trigger] d[i]).0 == k;
                assert(s[i].0 == k);
            }
        }
        if exists|i: int| 0 <= i < s.len() && (#[trigger] s[i]).0 == k {
            let i = choose|i: int| 0 <= i < s.len() && (#[trigger] s[i]).0 == k;
            if i < s.len() - 1 {
                assert(d[i].0 == k);
            }
        }
    }
}

/// With distinct keys, each entry is what the denoted map holds for its key.
pub proof fn lemma_assoc_map_index<V>(s: Seq<(Seq<char>, V)>, i: int)
    requires
        distinct_keys(s),
        0 <= i < s.len(),
    ensures
        assoc_map(s).contains_key(s[i].0),
        assoc_map(s)[s[i].0] == s[i].1,
    decreases s.len(),
{
    if i < s.len() - 1 {
        let d = s.drop_last();
        assert(distinct_keys(d));
        lemma_assoc_map_index(d, i);
        assert(s.last().0 != s[i].0);
        assert(d[i] == s[i]);
    }
}

/// Replacing the value of the entry at `i` updates the denoted map at its key.
pub proof fn lemma_assoc_map_update<V>(s: Seq<(Seq<char>, V)>, i: int, v: V)
    requires
        distinct_keys(s),
        0 <= i < s.len(),
    ensures
        distinct_keys(s.update(i, (s[i].0, v))),
        assoc_map(s.update(i, (s[i].0, v))) == assoc_map(s).insert(s[i].0, v),
    decreases s.len(),
{
    let t = s.update(i, (s[i].0, v));
    let k = s[i].0;
    if i == s.len() - 1 {
        assert(t.drop_last() =~= s.drop_last());
        assert(t.last() == (k, v));
        assert(assoc_map(s.drop_last()).insert(k, v) =~= assoc_map(s.drop_last()).insert(
            k,
            s[i].1,
        ).insert(k, v));
    } else {
        let d = s.drop_last();
        assert(distinct_keys(d));
        assert(d[i] == s[i]);
        lemma_assoc_map_update(d, i, v);
        assert(t.drop_last() =~= d.update(i, (k, v)));
        assert(t.last() == s.last());
        assert(s.last().0 != k);
        assert(assoc_map(d).insert(k, v).insert(s.last().0, s.last().1) =~= assoc_map(d).insert(
            s.last().0,
            s.last().1,
        ).insert(k, v));
    }
}

/// Appending an entry inserts its key into the denoted map; a fresh key keeps
/// the keys distinct.
pub proof fn lemma_assoc_map_push<V>(s: Seq<(Seq<char>, V)>, k: Seq<char>, v: V)
    ensures
        assoc_map(s.push((k, v))) == assoc_map(s).insert(k, v),
        distinct_keys(s) && !(exists|i: int| 0 <= i < s.len() && (#[trigger] s[i]).0 == k)
            ==> distinct_keys(s.push((k, v))),
{
    assert(s.push((k, v)).drop_last() =~= s);
    assert(s.push((k, v)).last() == (k, v));
}

/// With distinct keys, the denoted map is finite and has one key per entry.
pub proof fn lemma_assoc_map_len<V>(s: Seq<(Seq<char>, V)>)
    requires
        distinct_keys(s),
    ensures
        assoc_map(s).dom().finite(),
        assoc_map(s).len() == s.len(),
    decreases s.len(),
{
    if s.len() > 0 {
        let d = s.drop_last();
        assert(distinct_keys(d));
        lemma_assoc_map_len(d);
        lemma_assoc_map_contains(d, s.last().0);
        assert forall|i: int| 0 <= i < d.len() implies (#[trigger] d[i]).0 != s.last().0 by {
            assert(d[i] == s[i]);
        }
        assert(!assoc_map(d).contains_key(s.last().0));
    }
}

} // verus!
