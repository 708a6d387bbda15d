//! Ordered string-keyed tables held as vectors of pairs: first-match
//! lookup, insert-or-replace, and removal, with exact specifications. These
//! back header maps, request metadata, and the api-key table.

use vstd::prelude::*;

use crate::text::str_eq;

verus! {

/// The views of a sequence of owned string pairs.
pub open spec fn pair_views(v: Seq<(String, String)>) -> Seq<(Seq<char>, Seq<char>)> {
    v.map_values(|p: (String, String)| (p.0@, p.1@))
}

/// The value of the first entry for `k`, if any.
pub open spec fn table_first(m: Seq<(Seq<char>, Seq<char>)>, k: Seq<char>) -> Option<Seq<char>>
    decreases m.len(),
{
    if m.len() == 0 {
        None
    } else if m[0].0 == k {
        Some(m[0].1)
    } else {
        table_first(m.drop_first(), k)
    }
}

/// The table with the first entry for `k` replaced by `(k, v)`, or with
/// `(k, v)` appended when no entry has that key.
pub open spec fn upsert(m: Seq<(Seq<char>, Seq<char>)>, k: Seq<char>, v: Seq<char>) -> Seq<
    (Seq<char>, Seq<char>),
>
    decreases m.len(),
{
    if m.len() == 0 {
        seq![(k, v)]
    } else if m[0].0 == k {
        seq![(k, v)] + m.drop_first()
    } else {
        seq![m[0]] + upsert(m.drop_first(), k, v)
    }
}

/// The table without any entry for `k`.
pub open spec fn remove_key(m: Seq<(Seq<char>, Seq<char>)>, k: Seq<char>) -> Seq<
    (Seq<char>, Seq<char>),
>
    decreases m.len(),
{
    if m.len() == 0 {
        Seq::empty()
    } else if m[0].0 == k {
        remove_key(m.drop_first(), k)
    } else {
        seq![m[0]] + remove_key(m.drop_first(), k)
    }
}

/// No entry of the cleaned table has the removed key.
pub proof fn lemma_remove_no_k(m: Seq<(Seq<char>, Seq<char>)>, k: Seq<char>)
    ensures
        forall|i: int| 0 <= i < remove_key(m, k).len() ==> (#[trigger] remove_key(m, k)[i]).0
            != k,
    decreases m.len(),
{
    if m.len() > 0 {
        lemma_remove_no_k(m.drop_first(), k);
        if m[0].0 != k {
            assert(remove_key(m, k) == seq![m[0]] + remove_key(m.drop_first(), k));
            assert(forall|i: int|
                0 <= i < remove_key(m, k).len() ==> (#[trigger] remove_key(m, k)[i]).0 != k) by {
                assert(remove_key(m, k)[0] == m[0]);
                assert(forall|i: int|
                    1 <= i < remove_key(m, k).len() ==> remove_key(m, k)[i] == remove_key(
                        m.drop_first(),
                        k,
                    )[i - 1]);
            }
        }
    }
}

pub proof fn lemma_upsert_found(m: Seq<(Seq<char>, Seq<char>)>, k: Seq<char>, v: Seq<char>, j: int)
    requires
        0 <= j < m.len(),
        m[j].0 == k,
        forall|l: int| 0 <= l < j ==> (#[trigger] m[l]).0 != k,
    ensures
        upsert(m, k, v) == m.update(j, (k, v)),
    decreases m.len(),
{
    if j == 0 {
        assert(seq![(k, v)] + m.drop_first() =~= m.update(0, (k, v)));
    } else {
        assert(m.drop_first()[j - 1].0 == k);
        assert(forall|l: int| 0 <= l < j - 1 ==> (#[trigger] m.drop_first()[l]).0 != k) by {
            assert(forall|l: int| 0 <= l < j - 1 ==> m.drop_first()[l] == m[l + 1]);
        }
        lemma_upsert_found(m.drop_first(), k, v, j - 1);
        assert(seq![m[0]] + m.drop_first().update(j - 1, (k, v)) =~= m.update(j, (k, v)));
    }
}

pub proof fn lemma_upsert_missing(m: Seq<(Seq<char>, Seq<char>)>, k: Seq<char>, v: Seq<char>)
    requires
        forall|l: int| 0 <= l < m.len() ==> (#[trigger] m[l]).0 != k,
    ensures
        upsert(m, k, v) == m.push((k, v)),
    decreases m.len(),
{
    if m.len() == 0 {
        assert(seq![(k, v)] =~= m.push((k, v)));
    } else {
        assert(forall|l: int|
            0 <= l < m.drop_first().len() ==> (#[trigger] m.drop_first()[l]).0 != k) by {
            assert(forall|l: int|
                0 <= l < m.drop_first().len() ==> m.drop_first()[l] == m[l + 1]);
        }
        lemma_upsert_missing(m.drop_first(), k, v);
        assert(seq![m[0]] + m.drop_first().push((k, v)) =~= m.push((k, v)));
    }
}

/// Appending an entry for another key leaves a lookup unchanged.
pub proof fn lemma_first_push_other(
    m: Seq<(Seq<char>, Seq<char>)>,
    p: (Seq<char>, Seq<char>),
    k: Seq<char>,
)
    requires
        p.0 != k || table_first(m, k) is Some,
    ensures
        table_first(m.push(p), k) == table_first(m, k),
    decreases m.len(),
{
    if m.len() == 0 {
        assert(m.push(p)[0] == p);
        assert(m.push(p).drop_first() =~= Seq::<(Seq<char>, Seq<char>)>::empty());
        assert(table_first(m.push(p), k) == table_first(
            Seq::<(Seq<char>, Seq<char>)>::empty(),
            k,
        ));
        assert(table_first(Seq::<(Seq<char>, Seq<char>)>::empty(), k) is None);
    } else {
        assert(m.push(p)[0] == m[0]);
        assert(m.push(p).drop_first() =~= m.drop_first().push(p));
        if m[0].0 != k {
            lemma_first_push_other(m.drop_first(), p, k);
        }
    }
}

/// After removing every entry for `key` and appending `(key, v)`, a lookup
/// of `key` finds exactly `v`.
pub proof fn lemma_first_after_set(m: Seq<(Seq<char>, Seq<char>)>, k: Seq<char>, v: Seq<char>)
    ensures
        table_first(remove_key(m, k).push((k, v)), k) == Some(v),
{
    lemma_remove_no_k(m, k);
    lemma_first_no_key_push(remove_key(m, k), k, v);
}

proof fn lemma_first_no_key_push(m: Seq<(Seq<char>, Seq<char>)>, k: Seq<char>, v: Seq<char>)
    requires
        forall|i: int| 0 <= i < m.len() ==> (#[trigger] m[i]).0 != k,
    ensures
        table_first(m.push((k, v)), k) == Some(v),
    decreases m.len(),
{
    if m.len() == 0 {
        assert(m.push((k, v))[0] == (k, v));
    } else {
        assert(m.push((k, v))[0] == m[0]);
        assert(m.push((k, v)).drop_first() =~= m.drop_first().push((k, v)));
        assert(forall|i: int|
            0 <= i < m.drop_first().len() ==> (#[trigger] m.drop_first()[i]).0 != k) by {
            assert(forall|i: int|
                0 <= i < m.drop_first().len() ==> m.drop_first()[i] == m[i + 1]);
        }
        lemma_first_no_key_push(m.drop_first(), k, v);
    }
}

/// Removing every entry for one key leaves lookups of another unchanged.
pub proof fn lemma_first_remove_other(m: Seq<(Seq<char>, Seq<char>)>, k: Seq<char>, k2: Seq<char>)
    requires
        k != k2,
    ensures
        table_first(remove_key(m, k2), k) == table_first(m, k),
    decreases m.len(),
{
    if m.len() > 0 {
        lemma_first_remove_other(m.drop_first(), k, k2);
        if m[0].0 != k2 {
            assert((seq![m[0]] + remove_key(m.drop_first(), k2))[0] == m[0]);
            assert((seq![m[0]] + remove_key(m.drop_first(), k2)).drop_first() =~= remove_key(
                m.drop_first(),
                k2,
            ));
        }
    }
}

/// Replaces the first entry for `key`, or appends one.
pub fn upsert_pair(table: &mut Vec<(String, String)>, key: String, value: String)
    ensures
        pair_views(final(table)@) == upsert(pair_views(old(table)@), key@, value@),
{
    let n = table.len();
    let mut j: usize = 0;
    while j < n
        invariant
            n == table@.len(),
            j <= n,
            table@ == old(table)@,
            forall|l: int| 0 <= l < j ==> (#[trigger] pair_views(table@)[l]).0 != key@,
        decreases n - j,
    {
        if str_eq(table[j].0.as_str(), key.as_str()) {
            proof {
                assert(pair_views(table@)[j as int].0 == key@);
            }
            let ghost pre = pair_views(table@);
            table.set(j, (key, value));
            proof {
                lemma_upsert_found(pre, pre[j as int].0, table@[j as int].1@, j as int);
                assert(pair_views(table@) =~= pre.update(
                    j as int,
                    (table@[j as int].0@, table@[j as int].1@),
                ));
            }
            return ;
        }
        proof {
            assert(pair_views(table@)[j as int].0 == table@[j as int].0@);
        }
        j = j + 1;
    }
    let ghost pre = pair_views(table@);
    proof {
        lemma_upsert_missing(pre, key@, value@);
    }
    table.push((key, value));
    proof {
        assert(pair_views(table@) =~= pre.push((key@, value@)));
    }
}

/// The value of the first entry for `key`, cloned, if any.
pub fn table_get(table: &Vec<(String, String)>, key: &str) -> (r: Option<String>)
    ensures
        match r {
            Some(v) => table_first(pair_views(table@), key@) == Some(v@),
            None => table_first(pair_views(table@), key@) is None,
        },
{
    let ghost m = pair_views(table@);
    let mut j: usize = 0;
    proof {
        assert(m.skip(0) =~= m);
    }
    while j < table.len()
        invariant
            m == pair_views(table@),
            j <= m.len(),
            table@.len() == m.len(),
            table_first(m.skip(j as int), key@) == table_first(m, key@),
        decreases m.len() - j,
    {
        proof {
            assert(m.skip(j as int).len() > 0 && m.skip(j as int)[0] == m[j as int]);
            assert(m.skip(j as int).drop_first() =~= m.skip(j + 1));
            assert(m[j as int] == (table@[j as int].0@, table@[j as int].1@));
        }
        if str_eq(table[j].0.as_str(), key) {
            let v = table[j].1.clone();
            return Some(v);
        }
        j = j + 1;
    }
    proof {
        assert(m.skip(m.len() as int).len() == 0);
    }
    None
}

/// Removes every entry for `key` and appends `(key, value)` at the end, the
/// replacement semantics of a single-valued header map.
pub fn set_unique_pair(table: &mut Vec<(String, String)>, key: String, value: String)
    ensures
        pair_views(final(table)@) == remove_key(pair_views(old(table)@), key@).push(
            (key@, value@),
        ),
{
    let ghost m = pair_views(table@);
    let mut out: Vec<(String, String)> = Vec::new();
    let mut j: usize = 0;
    proof {
        assert(m.skip(0) =~= m);
        assert(pair_views(out@) =~= Seq::<(Seq<char>, Seq<char>)>::empty());
        assert(Seq::<(Seq<char>, Seq<char>)>::empty() + remove_key(m, key@) =~= remove_key(
            m,
            key@,
        ));
    }
    while j < table.len()
        invariant
            m == pair_views(table@),
            table@.len() == m.len(),
            j <= m.len(),
            pair_views(out@) + remove_key(m.skip(j as int), key@) == remove_key(m, key@),
        decreases m.len() - j,
    {
        proof {
            assert(m.skip(j as int).len() > 0 && m.skip(j as int)[0] == m[j as int]);
            assert(m.skip(j as int).drop_first() =~= m.skip(j + 1));
            assert(m[j as int] == (table@[j as int].0@, table@[j as int].1@));
        }
        if !str_eq(table[j].0.as_str(), key.as_str()) {
            let ghost old_out = out@;
            let pair = (table[j].0.clone(), table[j].1.clone());
            out.push(pair);
            proof {
                assert(pair_views(out@) =~= pair_views(old_out).push(m[j as int]));
                assert(pair_views(old_out).push(m[j as int]) + remove_key(m.skip(j + 1), key@)
                    =~= pair_views(old_out) + (seq![m[j as int]] + remove_key(
                    m.skip(j + 1),
                    key@,
                )));
            }
        }
        j = j + 1;
    }
    proof {
        assert(m.skip(m.len() as int).len() == 0);
        assert(pair_views(out@) + Seq::<(Seq<char>, Seq<char>)>::empty() =~= pair_views(out@));
    }
    let ghost before_push = pair_views(out@);
    out.push((key, value));
    proof {
        assert(pair_views(out@) =~= before_push.push(
            (out@[out@.len() - 1].0@, out@[out@.len() - 1].1@),
        ));
    }
    *table = out;
}

} // verus!
