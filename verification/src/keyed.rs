//! Sequences of `(path, value)` pairs used as maps keyed by path text: at most
//! one pair per path, found by a linear search.
use vstd::prelude::*;

use crate::text::str_to_string;

verus! {

/// Position of the first pair with key `k`.
pub open spec fn key_index<V>(es: Seq<(String, V)>, k: Seq<char>) -> Option<int>
    decreases es.len(),
{
    if es.len() == 0 {
        None
    } else {
        match key_index(es.drop_last(), k) {
            Some(i) => Some(i),
            None => if es.last().0@ == k {
                Some(es.len() - 1)
            } else {
                None
            },
        }
    }
}

/// The value stored under `k`.
pub open spec fn lookup<V>(es: Seq<(String, V)>, k: Seq<char>) -> Option<V> {
    match key_index(es, k) {
        Some(i) => Some(es[i].1),
        None => None,
    }
}

/// No key occurs twice.
pub open spec fn distinct_keys<V>(es: Seq<(String, V)>) -> bool {
    forall|i: int, j: int| 0 <= i < j < es.len() ==> (#[trigger] es[i]).0@ != (#[trigger] es[j]).0@
}

/// The pairs after storing `v` under `key`: the old value is replaced in
/// place, or the pair is appended.
pub open spec fn stored<V>(es: Seq<(String, V)>, key: String, v: V) -> Seq<(String, V)> {
    match key_index(es, key@) {
        Some(i) => es.update(i, (es[i].0, v)),
        None => es.push((key, v)),
    }
}

/// The pairs without the one under `k`.
pub open spec fn removed<V>(es: Seq<(String, V)>, k: Seq<char>) -> Seq<(String, V)> {
    match key_index(es, k) {
        Some(i) => es.remove(i),
        None => es,
    }
}

/// The pairs whose key is in `keep`, in order.
pub open spec fn kept<V>(es: Seq<(String, V)>, keep: Set<Seq<char>>) -> Seq<(String, V)>
    decreases es.len(),
{
    if es.len() == 0 {
        seq![]
    } else if keep.contains(es.last().0@) {
        kept(es.drop_last(), keep).push(es.last())
    } else {
        kept(es.drop_last(), keep)
    }
}

pub proof fn lemma_key_index_found<V>(es: Seq<(String, V)>, k: Seq<char>, j: int)
    requires
        0 <= j < es.len(),
        es[j].0@ == k,
        forall|m: int| 0 <= m < j ==> es[m].0@ != k,
    ensures
        key_index(es, k) == Some(j),
    decreases es.len(),
{
    if j < es.len() - 1 {
        lemma_key_index_found(es.drop_last(), k, j);
    } else {
        lemma_key_index_absent(es.drop_last(), k);
    }
}

pub proof fn lemma_key_index_absent<V>(es: Seq<(String, V)>, k: Seq<char>)
    requires
        forall|m: int| 0 <= m < es.len() ==> es[m].0@ != k,
    ensures
        key_index(es, k) is None,
    decreases es.len(),
{
    if es.len() > 0 {
        lemma_key_index_absent(es.drop_last(), k);
    }
}

pub proof fn lemma_key_index_bounds<V>(es: Seq<(String, V)>, k: Seq<char>)
    ensures
        match key_index(es, k) {
            Some(i) => 0 <= i < es.len() && es[i].0@ == k,
            None => forall|m: int| 0 <= m < es.len() ==> es[m].0@ != k,
        },
    decreases es.len(),
{
    if es.len() > 0 {
        let d = es.drop_last();
        lemma_key_index_bounds(d, k);
        assert forall|m: int| 0 <= m < d.len() implies d[m] == es[m] by {}
    }
}

/// In a sequence without repeated keys, the pair at `i` is the one found
/// under its key.
pub proof fn lemma_key_index_distinct<V>(es: Seq<(String, V)>, i: int)
    requires
        distinct_keys(es),
        0 <= i < es.len(),
    ensures
        key_index(es, es[i].0@) == Some(i),
{
    lemma_key_index_found(es, es[i].0@, i);
}

proof fn lemma_key_index_same_keys<V>(a: Seq<(String, V)>, b: Seq<(String, V)>, k: Seq<char>)
    requires
        a.len() == b.len(),
        forall|m: int| 0 <= m < a.len() ==> (#[trigger] a[m]).0@ == b[m].0@,
    ensures
        key_index(a, k) == key_index(b, k),
    decreases a.len(),
{
    if a.len() > 0 {
        let (da, db) = (a.drop_last(), b.drop_last());
        assert forall|m: int| 0 <= m < da.len() implies (#[trigger] da[m]).0@ == db[m].0@ by {
            assert(da[m] == a[m] && db[m] == b[m]);
        }
        lemma_key_index_same_keys(da, db, k);
        assert(a.last() == a[a.len() - 1]);
    }
}

/// Reading a key back after storing a value under it gives that value; the
/// values of every other key are unchanged.
pub proof fn lemma_lookup_after_store<V>(es: Seq<(String, V)>, key: String, v: V, q: Seq<char>)
    ensures
        lookup(stored(es, key, v), q) == if q == key@ {
            Some(v)
        } else {
            lookup(es, q)
        },
{
    lemma_key_index_bounds(es, key@);
    lemma_key_index_bounds(es, q);
    match key_index(es, key@) {
        Some(i) => {
            let t = es.update(i, (es[i].0, v));
            lemma_key_index_same_keys(t, es, q);
        },
        None => {
            let t = es.push((key, v));
            assert(t.drop_last() =~= es);
            if q == key@ {
                assert(t.last() == (key, v));
            }
        },
    }
}

/// Storing keeps the keys distinct.
pub proof fn lemma_stored_distinct<V>(es: Seq<(String, V)>, key: String, v: V)
    requires
        distinct_keys(es),
    ensures
        distinct_keys(stored(es, key, v)),
{
    lemma_key_index_bounds(es, key@);
    let t = stored(es, key, v);
    match key_index(es, key@) {
        Some(i) => {
            assert forall|a: int, b: int| 0 <= a < b < t.len() implies (#[trigger] t[a]).0@ != (#[trigger] t[b]).0@ by {
                assert(t[a].0 == es[a].0 && t[b].0 == es[b].0);
            }
        },
        None => {
            assert forall|a: int, b: int| 0 <= a < b < t.len() implies (#[trigger] t[a]).0@ != (#[trigger] t[b]).0@ by {
                if b == es.len() {
                    assert(t[a] == es[a]);
                } else {
                    assert(t[a] == es[a] && t[b] == es[b]);
                }
            }
        },
    }
}

/// Removing a key leaves no value under it and the other keys' values as
/// they were; the keys stay distinct.
pub proof fn lemma_lookup_after_remove<V>(es: Seq<(String, V)>, k: Seq<char>, q: Seq<char>)
    requires
        distinct_keys(es),
    ensures
        distinct_keys(removed(es, k)),
        lookup(removed(es, k), q) == if q == k {
            None
        } else {
            lookup(es, q)
        },
{
    lemma_key_index_bounds(es, k);
    match key_index(es, k) {
        Some(i) => {
            let t = es.remove(i);
            assert forall|a: int, b: int| 0 <= a < b < t.len() implies (#[trigger] t[a]).0@ != (#[trigger] t[b]).0@ by {
                let a0 = if a < i { a } else { a + 1 };
                let b0 = if b < i { b } else { b + 1 };
                assert(t[a] == es[a0] && t[b] == es[b0]);
            }
            if q == k {
                assert forall|m: int| 0 <= m < t.len() implies t[m].0@ != q by {
                    let m0 = if m < i { m } else { m + 1 };
                    assert(t[m] == es[m0]);
                }
                lemma_key_index_absent(t, q);
            } else {
                lemma_key_index_bounds(es, q);
                match key_index(es, q) {
                    Some(j) => {
                        let j2 = if j < i { j } else { j - 1 };
                        assert(t[j2] == es[j]);
                        lemma_key_index_distinct(t, j2);
                    },
                    None => {
                        assert forall|m: int| 0 <= m < t.len() implies t[m].0@ != q by {
                            let m0 = if m < i { m } else { m + 1 };
                            assert(t[m] == es[m0]);
                        }
                        lemma_key_index_absent(t, q);
                    },
                }
            }
        },
        None => {
            if q == k {
                lemma_key_index_absent(es, q);
            }
        },
    }
}

pub proof fn lemma_kept_distinct<V>(es: Seq<(String, V)>, keep: Set<Seq<char>>)
    requires
        distinct_keys(es),
    ensures
        distinct_keys(kept(es, keep)),
        forall|k: int| 0 <= k < kept(es, keep).len() ==> es.contains(#[trigger] kept(es, keep)[k]),
    decreases es.len(),
{
    if es.len() > 0 {
        let d = es.drop_last();
        assert(distinct_keys(d));
        lemma_kept_distinct(d, keep);
        let kd = kept(d, keep);
        assert forall|k: int| 0 <= k < kd.len() implies (#[trigger] kd[k]).0@ != es.last().0@ by {
            assert(d.contains(kd[k]));
            let m = choose|m: int| 0 <= m < d.len() && d[m] == kd[k];
            assert(es[m] == d[m]);
        }
        assert forall|k: int| 0 <= k < kd.len() implies es.contains(#[trigger] kd[k]) by {
            assert(d.contains(kd[k]));
            let m = choose|m: int| 0 <= m < d.len() && d[m] == kd[k];
            assert(es[m] == kd[k]);
        }
        if keep.contains(es.last().0@) {
            assert(es[es.len() - 1] == es.last());
        }
    }
}

proof fn lemma_kept_absent<V>(es: Seq<(String, V)>, keep: Set<Seq<char>>, q: Seq<char>)
    requires
        !keep.contains(q),
    ensures
        forall|m: int| 0 <= m < kept(es, keep).len() ==> (#[trigger] kept(es, keep)[m]).0@ != q,
    decreases es.len(),
{
    if es.len() > 0 {
        lemma_kept_absent(es.drop_last(), keep, q);
        let kd = kept(es.drop_last(), keep);
        assert forall|m: int| 0 <= m < kd.len() implies (#[trigger] kd[m]).0@ != q by {}
    }
}

proof fn lemma_kept_lookup<V>(es: Seq<(String, V)>, keep: Set<Seq<char>>, q: Seq<char>)
    requires
        distinct_keys(es),
        keep.contains(q),
    ensures
        lookup(kept(es, keep), q) == lookup(es, q),
    decreases es.len(),
{
    if es.len() > 0 {
        let d = es.drop_last();
        assert(distinct_keys(d));
        lemma_kept_lookup(d, keep, q);
        lemma_kept_distinct(d, keep);
        lemma_key_index_bounds(d, q);
        lemma_key_index_bounds(kept(d, keep), q);
        let kd = kept(d, keep);
        if keep.contains(es.last().0@) {
            let k = kd.push(es.last());
            assert(k.drop_last() =~= kd);
            if es.last().0@ == q {
                assert forall|m: int| 0 <= m < d.len() implies d[m].0@ != q by {
                    assert(es[m] == d[m]);
                    assert(es[es.len() - 1] == es.last());
                }
                lemma_key_index_absent(d, q);
                assert forall|m: int| 0 <= m < kd.len() implies kd[m].0@ != q by {
                    assert(d.contains(kd[m]));
                }
                lemma_key_index_absent(kd, q);
            }
        }
    }
}

/// Keeping the keys of a set leaves a key's value exactly when the key is in
/// the set; every other key has none.
pub proof fn lemma_lookup_after_keep<V>(es: Seq<(String, V)>, keep: Set<Seq<char>>, q: Seq<char>)
    requires
        distinct_keys(es),
    ensures
        lookup(kept(es, keep), q) == if keep.contains(q) {
            lookup(es, q)
        } else {
            None
        },
{
    if keep.contains(q) {
        lemma_kept_lookup(es, keep, q);
    } else {
        lemma_kept_absent(es, keep, q);
        lemma_key_index_absent(kept(es, keep), q);
    }
}

/// Position of the pair with key `k`.
pub fn find_key<V>(es: &Vec<(String, V)>, k: &str) -> (res: Option<usize>)
    ensures
        match res {
            Some(i) => i < es@.len() && key_index(es@, k@) == Some(i as int),
            None => key_index(es@, k@) is None,
        },
{
    let key = str_to_string(k);
    let mut j: usize = 0;
    while j < es.len()
        invariant
            j <= es@.len(),
            key@ == k@,
            forall|m: int| 0 <= m < j ==> es@[m].0@ != k@,
        decreases es@.len() - j,
    {
        if es[j].0 == key {
            proof {
                lemma_key_index_found(es@, k@, j as int);
            }
            return Some(j);
        }
        j += 1;
    }
    proof {
        lemma_key_index_absent(es@, k@);
    }
    None
}

/// Store `v` under `key`, replacing the old value in place or appending.
pub fn store<V>(es: &mut Vec<(String, V)>, key: String, v: V)
    requires
        distinct_keys(old(es)@),
    ensures
        distinct_keys(final(es)@),
        final(es)@ == stored(old(es)@, key, v),
{
    let ghost old_es = es@;
    proof {
        lemma_key_index_bounds(old_es, key@);
        lemma_stored_distinct(old_es, key, v);
    }
    match find_key(es, key.as_str()) {
        Some(i) => {
            let (k, _) = es.remove(i);
            es.insert(i, (k, v));
            assert(es@ =~= old_es.update(i as int, (old_es[i as int].0, v)));
        },
        None => {
            es.push((key, v));
        },
    }
}

/// Take out the pair with key `k`, returning its value.
pub fn take_key<V>(es: &mut Vec<(String, V)>, k: &str) -> (res: Option<V>)
    requires
        distinct_keys(old(es)@),
    ensures
        distinct_keys(final(es)@),
        final(es)@ == removed(old(es)@, k@),
        res == lookup(old(es)@, k@),
{
    let ghost old_es = es@;
    proof {
        lemma_key_index_bounds(old_es, k@);
        lemma_lookup_after_remove(old_es, k@, k@);
    }
    match find_key(es, k) {
        Some(i) => {
            let (_, v) = es.remove(i);
            Some(v)
        },
        None => None,
    }
}

} // verus!
