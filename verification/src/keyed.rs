//! Name-keyed state tables held as vectors of pairs with unique keys,
//! viewed as maps. These model the per-service breaker states, per-key
//! rate-limit states, per-upstream statistics, and the execution store.

use vstd::prelude::*;

use crate::text::str_eq;

verus! {

/// The map a keyed table denotes.
pub open spec fn keyed_view<V>(s: Seq<(String, V)>) -> Map<Seq<char>, V>
    decreases s.len(),
{
    if s.len() == 0 {
        Map::empty()
    } else {
        keyed_view(s.drop_last()).insert(s.last().0@, s.last().1)
    }
}

/// No two entries share a key.
pub open spec fn keys_unique<V>(s: Seq<(String, V)>) -> bool {
    forall|i: int, j: int|
        0 <= i < j < s.len() ==> (#[trigger] s[i]).0@ != (#[trigger] s[j]).0@
}

pub proof fn lemma_unique_drop_last<V>(s: Seq<(String, V)>)
    requires
        keys_unique(s),
        s.len() > 0,
    ensures
        keys_unique(s.drop_last()),
{
    assert(forall|i: int, j: int|
        0 <= i < j < s.drop_last().len() ==> (#[trigger] s.drop_last()[i]).0@ != (
        #[trigger] s.drop_last()[j]).0@) by {
        assert(forall|i: int| 0 <= i < s.drop_last().len() ==> s.drop_last()[i] == s[i]);
    }
}

/// An entry's value is what the map view gives for its key.
pub proof fn lemma_view_find<V>(s: Seq<(String, V)>, j: int)
    requires
        keys_unique(s),
        0 <= j < s.len(),
    ensures
        keyed_view(s).contains_key(s[j].0@),
        keyed_view(s)[s[j].0@] == s[j].1,
    decreases s.len(),
{
    if j == s.len() - 1 {
    } else {
        lemma_unique_drop_last(s);
        lemma_view_find(s.drop_last(), j);
        assert(s.drop_last()[j] == s[j]);
        assert(s.last().0@ != s[j].0@);
    }
}

/// A key held by no entry is outside the map view.
pub proof fn lemma_view_missing<V>(s: Seq<(String, V)>, k: Seq<char>)
    requires
        forall|i: int| 0 <= i < s.len() ==> (#[trigger] s[i]).0@ != k,
    ensures
        !keyed_view(s).contains_key(k),
    decreases s.len(),
{
    if s.len() > 0 {
        assert(forall|i: int| 0 <= i < s.drop_last().len() ==> (#[trigger] s.drop_last()[i]).0@
            != k) by {
            assert(forall|i: int| 0 <= i < s.drop_last().len() ==> s.drop_last()[i] == s[i]);
        }
        lemma_view_missing(s.drop_last(), k);
        assert(s.last().0@ != k);
    }
}

/// Replacing the value at an index is an insert on the map view.
pub proof fn lemma_view_update<V>(s: Seq<(String, V)>, j: int, v: V)
    requires
        keys_unique(s),
        0 <= j < s.len(),
    ensures
        keyed_view(s.update(j, (s[j].0, v))) == keyed_view(s).insert(s[j].0@, v),
        keys_unique(s.update(j, (s[j].0, v))),
    decreases s.len(),
{
    let s2 = s.update(j, (s[j].0, v));
    assert(forall|i: int| 0 <= i < s.len() && i != j ==> s2[i] == s[i]);
    assert(keys_unique(s2));
    if j == s.len() - 1 {
        assert(s2.drop_last() =~= s.drop_last());
        assert(s2.last() == (s[j].0, v));
        assert(keyed_view(s2) =~= keyed_view(s).insert(s[j].0@, v));
    } else {
        assert(s2.drop_last() =~= s.drop_last().update(j, (s[j].0, v)));
        lemma_unique_drop_last(s);
        assert(s.drop_last()[j] == s[j]);
        lemma_view_update(s.drop_last(), j, v);
        assert(s2.last() == s.last());
        assert(s.last().0@ != s[j].0@);
        assert(keyed_view(s2) =~= keyed_view(s).insert(s[j].0@, v));
    }
}

/// Appending an entry under a fresh key is an insert on the map view.
pub proof fn lemma_view_push<V>(s: Seq<(String, V)>, key: String, v: V)
    requires
        keys_unique(s),
        forall|i: int| 0 <= i < s.len() ==> (#[trigger] s[i]).0@ != key@,
    ensures
        keyed_view(s.push((key, v))) == keyed_view(s).insert(key@, v),
        keys_unique(s.push((key, v))),
{
    assert(s.push((key, v)).drop_last() =~= s);
    assert(s.push((key, v)).last() == (key, v));
    assert(forall|i: int| 0 <= i < s.len() ==> s.push((key, v))[i] == s[i]);
}

/// Removing an entry removes its key from the map view.
pub proof fn lemma_view_remove<V>(s: Seq<(String, V)>, j: int)
    requires
        keys_unique(s),
        0 <= j < s.len(),
    ensures
        keyed_view(s.remove(j)) == keyed_view(s).remove(s[j].0@),
        keys_unique(s.remove(j)),
    decreases s.len(),
{
    let s2 = s.remove(j);
    assert(forall|a: int| 0 <= a < j ==> s2[a] == s[a]);
    assert(forall|a: int| j <= a < s2.len() ==> s2[a] == s[a + 1]);
    assert(keys_unique(s2));
    if j == s.len() - 1 {
        assert(s2 =~= s.drop_last());
        lemma_unique_drop_last(s);
        lemma_view_missing_unique(s.drop_last(), s[j].0@, s, j);
        assert(keyed_view(s) == keyed_view(s.drop_last()).insert(s.last().0@, s.last().1));
        assert(keyed_view(s).remove(s[j].0@) =~= keyed_view(s.drop_last()));
    } else {
        assert(s2.drop_last() =~= s.drop_last().remove(j));
        assert(s2.last() == s.last());
        lemma_unique_drop_last(s);
        lemma_view_remove(s.drop_last(), j);
        assert(s.drop_last()[j] == s[j]);
        assert(s.last().0@ != s[j].0@);
        assert(keyed_view(s2) =~= keyed_view(s).remove(s[j].0@));
    }
}

proof fn lemma_view_missing_unique<V>(s: Seq<(String, V)>, k: Seq<char>, full: Seq<(String, V)>, j: int)
    requires
        keys_unique(full),
        0 <= j < full.len(),
        full[j].0@ == k,
        s == full.drop_last(),
        j == full.len() - 1,
    ensures
        !keyed_view(s).contains_key(k),
{
    assert(forall|i: int| 0 <= i < s.len() ==> (#[trigger] s[i]).0@ != k) by {
        assert(forall|i: int| 0 <= i < s.len() ==> s[i] == full[i]);
    }
    lemma_view_missing(s, k);
}

/// The index of the entry for `name`, when the table holds one.
pub fn find_index<V>(table: &Vec<(String, V)>, name: &str) -> (r: Option<usize>)
    requires
        keys_unique(table@),
    ensures
        match r {
            Some(j) => {
                &&& j < table@.len()
                &&& table@[j as int].0@ == name@
                &&& keyed_view(table@).contains_key(name@)
                &&& keyed_view(table@)[name@] == table@[j as int].1
            },
            None => {
                &&& !keyed_view(table@).contains_key(name@)
                &&& forall|i: int| 0 <= i < table@.len() ==> (#[trigger] table@[i]).0@ != name@
            },
        },
{
    let mut j: usize = 0;
    while j < table.len()
        invariant
            keys_unique(table@),
            j <= table@.len(),
            forall|i: int| 0 <= i < j ==> (#[trigger] table@[i]).0@ != name@,
        decreases table@.len() - j,
    {
        if str_eq(table[j].0.as_str(), name) {
            proof {
                lemma_view_find(table@, j as int);
            }
            return Some(j);
        }
        j = j + 1;
    }
    proof {
        lemma_view_missing(table@, name@);
    }
    None
}

} // verus!
