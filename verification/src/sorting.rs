//! Ordering of results: lexicographic order on text and a stable insertion
//! sort over any type with a total preorder.
use vstd::multiset::Multiset;
use vstd::prelude::*;

verus! {

broadcast use vstd::seq_lib::group_to_multiset_ensures;

/// Lexicographic order on character sequences, by code point (the order of
/// `str`'s `Ord`, which compares UTF-8 bytes).
pub open spec fn lex_le(a: Seq<char>, b: Seq<char>) -> bool
    decreases a.len(),
{
    if a.len() == 0 {
        true
    } else if b.len() == 0 {
        false
    } else if a[0] != b[0] {
        a[0] < b[0]
    } else {
        lex_le(a.drop_first(), b.drop_first())
    }
}

pub proof fn lemma_lex_total(a: Seq<char>, b: Seq<char>)
    ensures
        lex_le(a, b) || lex_le(b, a),
    decreases a.len(),
{
    if a.len() > 0 && b.len() > 0 {
        if a[0] == b[0] {
            lemma_lex_total(a.drop_first(), b.drop_first());
        } else {
            assert(a[0] < b[0] || b[0] < a[0]);
        }
    }
}

pub proof fn lemma_lex_antisym(a: Seq<char>, b: Seq<char>)
    requires
        lex_le(a, b),
        lex_le(b, a),
    ensures
        a == b,
    decreases a.len(),
{
    if a.len() > 0 && b.len() > 0 {
        lemma_lex_antisym(a.drop_first(), b.drop_first());
        assert(a =~= seq![a[0]] + a.drop_first());
        assert(b =~= seq![b[0]] + b.drop_first());
    }
}

pub proof fn lemma_lex_trans(a: Seq<char>, b: Seq<char>, c: Seq<char>)
    requires
        lex_le(a, b),
        lex_le(b, c),
    ensures
        lex_le(a, c),
    decreases a.len(),
{
    if a.len() > 0 && b.len() > 0 && c.len() > 0 {
        if a[0] == b[0] && b[0] == c[0] {
            lemma_lex_trans(a.drop_first(), b.drop_first(), c.drop_first());
        }
    }
}

/// Whether `a <= b` lexicographically.
pub fn lex_le_exec(a: &[char], b: &[char]) -> (res: bool)
    ensures
        res == lex_le(a@, b@),
{
    let mut i: usize = 0;
    assert(a@.skip(0) =~= a@);
    assert(b@.skip(0) =~= b@);
    while i < a.len() && i < b.len()
        invariant
            i <= a@.len(),
            i <= b@.len(),
            lex_le(a@, b@) == lex_le(a@.skip(i as int), b@.skip(i as int)),
        decreases a@.len() - i,
    {
        if a[i] != b[i] {
            return a[i] < b[i];
        }
        assert(a@.skip(i as int).drop_first() =~= a@.skip(i + 1));
        assert(b@.skip(i as int).drop_first() =~= b@.skip(i + 1));
        i += 1;
    }
    i == a.len()
}

/// A total preorder on the values of a type, used to sort them.
pub trait Order<T> {
    spec fn le(a: &T, b: &T) -> bool;

    fn le_exec(a: &T, b: &T) -> (res: bool)
        ensures
            res == Self::le(a, b),
    ;

    proof fn lemma_total(a: &T, b: &T)
        ensures
            Self::le(a, b) || Self::le(b, a),
    ;

    proof fn lemma_trans(a: &T, b: &T, c: &T)
        requires
            Self::le(a, b),
            Self::le(b, c),
        ensures
            Self::le(a, c),
    ;
}

/// Every element is ordered before every later one.
pub open spec fn sorted_by<T, O: Order<T>>(s: Seq<T>) -> bool {
    forall|i: int, j: int| #![trigger s[i], s[j]] 0 <= i < j < s.len() ==> O::le(&s[i], &s[j])
}

proof fn lemma_insert_multiset<T>(s: Seq<T>, p: int, x: T)
    requires
        0 <= p <= s.len(),
    ensures
        s.insert(p, x).to_multiset() =~= s.to_multiset().insert(x),
{
    let t = s.insert(p, x);
    assert(t.remove(p) =~= s);
    assert(t[p] == x);
    assert(t.remove(p).to_multiset() =~= t.to_multiset().remove(t[p]));
    assert(t.to_multiset().count(x) > 0) by {
        assert(t.contains(x));
    }
}

/// `x` placed before the first element `y` of `s` with `le(x, y)`, or at
/// the end when there is none.
pub open spec fn insert_sorted<T>(x: T, s: Seq<T>, le: spec_fn(T, T) -> bool) -> Seq<T>
    decreases s.len(),
{
    if s.len() == 0 {
        seq![x]
    } else if le(x, s[0]) {
        seq![x] + s
    } else {
        seq![s[0]] + insert_sorted(x, s.drop_first(), le)
    }
}

/// The stable sort of `s` by the total preorder `le`: each element, from
/// the last to the first, is placed before the first already placed element
/// it is ordered before, so that elements equal in the order keep their
/// relative positions.
pub open spec fn stable_sort<T>(s: Seq<T>, le: spec_fn(T, T) -> bool) -> Seq<T>
    decreases s.len(),
{
    if s.len() == 0 {
        seq![]
    } else {
        insert_sorted(s[0], stable_sort(s.drop_first(), le), le)
    }
}

/// Inserting at the first position whose element `x` is ordered before is
/// [`insert_sorted`].
proof fn lemma_insert_at_first<T>(x: T, s: Seq<T>, le: spec_fn(T, T) -> bool, p: int)
    requires
        0 <= p <= s.len(),
        forall|k: int| 0 <= k < p ==> !le(x, #[trigger] s[k]),
        p < s.len() ==> le(x, s[p]),
    ensures
        s.insert(p, x) == insert_sorted(x, s, le),
    decreases s.len(),
{
    if s.len() == 0 {
        assert(s.insert(p, x) =~= seq![x]);
    } else if p == 0 {
        assert(s.insert(0, x) =~= seq![x] + s);
    } else {
        assert(!le(x, s[0]));
        let t = s.drop_first();
        assert forall|k: int| 0 <= k < p - 1 implies !le(x, #[trigger] t[k]) by {
            assert(t[k] == s[k + 1]);
        }
        if p - 1 < t.len() {
            assert(t[p - 1] == s[p]);
        }
        lemma_insert_at_first(x, t, le, p - 1);
        assert(s.insert(p, x) =~= seq![s[0]] + t.insert(p - 1, x));
    }
}

/// Sorting commutes with a map when the order of the images is the order of
/// the values.
pub proof fn lemma_insert_sorted_map<A, B>(x: A, s: Seq<A>, f: spec_fn(A) -> B, la: spec_fn(A, A) -> bool, lb: spec_fn(B, B) -> bool)
    requires
        forall|a: A, b: A| #[trigger] la(a, b) == lb(f(a), f(b)),
    ensures
        insert_sorted(x, s, la).map_values(f) == insert_sorted(f(x), s.map_values(f), lb),
    decreases s.len(),
{
    if s.len() == 0 {
        assert(insert_sorted(x, s, la).map_values(f) =~= seq![f(x)]);
    } else {
        assert(la(x, s[0]) == lb(f(x), f(s[0])));
        assert(s.map_values(f)[0] == f(s[0]));
        if la(x, s[0]) {
            assert((seq![x] + s).map_values(f) =~= seq![f(x)] + s.map_values(f));
        } else {
            lemma_insert_sorted_map(x, s.drop_first(), f, la, lb);
            assert(s.map_values(f).drop_first() =~= s.drop_first().map_values(f));
            assert((seq![s[0]] + insert_sorted(x, s.drop_first(), la)).map_values(f) =~= seq![f(s[0])]
                + insert_sorted(x, s.drop_first(), la).map_values(f));
        }
    }
}

/// [`stable_sort`] commutes with a map when the order of the images is the
/// order of the values.
pub proof fn lemma_stable_sort_map<A, B>(s: Seq<A>, f: spec_fn(A) -> B, la: spec_fn(A, A) -> bool, lb: spec_fn(B, B) -> bool)
    requires
        forall|a: A, b: A| #[trigger] la(a, b) == lb(f(a), f(b)),
    ensures
        stable_sort(s, la).map_values(f) == stable_sort(s.map_values(f), lb),
    decreases s.len(),
{
    if s.len() == 0 {
        assert(stable_sort(s, la).map_values(f) =~= Seq::<B>::empty());
        assert(s.map_values(f) =~= Seq::<B>::empty());
    } else {
        lemma_stable_sort_map(s.drop_first(), f, la, lb);
        lemma_insert_sorted_map(s[0], stable_sort(s.drop_first(), la), f, la, lb);
        assert(s.map_values(f).drop_first() =~= s.drop_first().map_values(f));
        assert(s.map_values(f)[0] == f(s[0]));
    }
}

/// Placing `x` into `s` puts it at some position, keeping the rest in order.
proof fn lemma_insert_sorted_is_insert<T>(x: T, s: Seq<T>, le: spec_fn(T, T) -> bool)
    ensures
        exists|p: int| 0 <= p <= s.len() && insert_sorted(x, s, le) == s.insert(p, x),
    decreases s.len(),
{
    if s.len() == 0 {
        assert(insert_sorted(x, s, le) == s.insert(0, x));
    } else if le(x, s[0]) {
        assert(insert_sorted(x, s, le) == s.insert(0, x));
    } else {
        lemma_insert_sorted_is_insert(x, s.drop_first(), le);
        let q = choose|q: int| 0 <= q <= s.drop_first().len() && insert_sorted(x, s.drop_first(), le) == s.drop_first().insert(q, x);
        assert(insert_sorted(x, s, le) =~= s.insert(q + 1, x));
    }
}

/// [`stable_sort`] only reorders: the sorted sequence holds the same
/// elements, each as often.
pub proof fn lemma_stable_sort_multiset<T>(s: Seq<T>, le: spec_fn(T, T) -> bool)
    ensures
        stable_sort(s, le).to_multiset() == s.to_multiset(),
    decreases s.len(),
{
    if s.len() == 0 {
        assert(stable_sort(s, le) =~= s);
    } else {
        let rest = s.drop_first();
        lemma_stable_sort_multiset(rest, le);
        let r = stable_sort(rest, le);
        lemma_insert_sorted_is_insert(s[0], r, le);
        let p = choose|p: int| 0 <= p <= r.len() && insert_sorted(s[0], r, le) == r.insert(p, s[0]);
        lemma_insert_multiset(r, p, s[0]);
        assert(s =~= rest.insert(0, s[0]));
        lemma_insert_multiset(rest, 0, s[0]);
    }
}

/// Sort by the order `O`, stably: values that are equal in the order keep
/// their relative positions.
pub fn sort_by_order<T, O: Order<T>>(v: Vec<T>) -> (res: Vec<T>)
    ensures
        res@.to_multiset() == v@.to_multiset(),
        sorted_by::<T, O>(res@),
        res@ == stable_sort(v@, |a: T, b: T| O::le(&a, &b)),
{
    let ghost le = |a: T, b: T| O::le(&a, &b);
    let ghost all = v@;
    let mut src = v;
    let mut out: Vec<T> = Vec::new();
    assert(all.skip(all.len() as int) =~= Seq::<T>::empty());
    while src.len() > 0
        invariant
            out@.to_multiset().add(src@.to_multiset()) == all.to_multiset(),
            sorted_by::<T, O>(out@),
            src@ == all.take(src@.len() as int),
            src@.len() <= all.len(),
            out@ == stable_sort(all.skip(src@.len() as int), le),
            le == (|a: T, b: T| O::le(&a, &b)),
        decreases src@.len(),
    {
        let ghost old_src = src@;
        let ghost old_out = out@;
        let x = src.pop().unwrap();
        assert(old_src =~= src@.push(x));
        let ghost m = src@.len() as int;
        proof {
            assert(src@ =~= all.take(m));
            assert(x == all[m]);
            assert(all.skip(m).drop_first() =~= all.skip(m + 1));
            assert(all.skip(m)[0] == x);
        }
        let mut p: usize = 0;
        while p < out.len() && !O::le_exec(&x, &out[p])
            invariant
                p <= out@.len(),
                out@ == old_out,
                forall|k: int| #![trigger out@[k]] 0 <= k < p ==> !O::le(&x, &out@[k]),
            decreases out@.len() - p,
        {
            p += 1;
        }
        proof {
            assert forall|k: int| 0 <= k < p implies O::le(&#[trigger] out@[k], &x) by {
                O::lemma_total(&out@[k], &x);
            }
            if p < out@.len() {
                assert forall|k: int| #![trigger out@[k]] p <= k < out@.len() implies O::le(&x, &out@[k]) by {
                    if k > p {
                        O::lemma_trans(&x, &out@[p as int], &out@[k]);
                    }
                }
            }
            lemma_insert_multiset(out@, p as int, x);
            assert forall|k: int| 0 <= k < p implies !le(x, #[trigger] out@[k]) by {}
            lemma_insert_at_first(x, out@, le, p as int);
        }
        out.insert(p, x);
        proof {
            let n = out@;
            assert forall|i: int, j: int| #![trigger n[i], n[j]] 0 <= i < j < n.len() implies O::le(
                &n[i],
                &n[j],
            ) by {
                if j < p {
                    assert(n[i] == old_out[i] && n[j] == old_out[j]);
                } else if j == p {
                    assert(n[i] == old_out[i]);
                } else if i < p {
                    assert(n[i] == old_out[i] && n[j] == old_out[j - 1]);
                    O::lemma_trans(&n[i], &x, &n[j]);
                } else if i == p {
                    assert(n[j] == old_out[j - 1]);
                } else {
                    assert(n[i] == old_out[i - 1] && n[j] == old_out[j - 1]);
                }
            }
            assert(src@.push(x).to_multiset() =~= src@.to_multiset().insert(x));
            assert(out@.to_multiset().add(src@.to_multiset()) =~= old_out.to_multiset().add(
                old_src.to_multiset(),
            ));
        }
    }
    assert(src@.to_multiset() =~= Multiset::empty());
    assert(out@.to_multiset().add(Multiset::empty()) =~= out@.to_multiset());
    assert(all.skip(0) =~= all);
    out
}

/// A total preorder on a type's own values.
pub trait SortKey: Sized {
    spec fn key_le(&self, other: &Self) -> bool;

    fn key_le_exec(&self, other: &Self) -> (res: bool)
        ensures
            res == self.key_le(other),
    ;

    proof fn lemma_total(a: &Self, b: &Self)
        ensures
            a.key_le(b) || b.key_le(a),
    ;

    proof fn lemma_trans(a: &Self, b: &Self, c: &Self)
        requires
            a.key_le(b),
            b.key_le(c),
        ensures
            a.key_le(c),
    ;
}

/// The order of a type's [`SortKey`].
pub struct ByKey;

impl<T: SortKey> Order<T> for ByKey {
    open spec fn le(a: &T, b: &T) -> bool {
        a.key_le(b)
    }

    fn le_exec(a: &T, b: &T) -> (res: bool) {
        a.key_le_exec(b)
    }

    proof fn lemma_total(a: &T, b: &T) {
        T::lemma_total(a, b);
    }

    proof fn lemma_trans(a: &T, b: &T, c: &T) {
        T::lemma_trans(a, b, c);
    }
}

/// Every element is ordered before every later one.
pub open spec fn sorted_by_key<T: SortKey>(s: Seq<T>) -> bool {
    forall|i: int, j: int| #![trigger s[i], s[j]] 0 <= i < j < s.len() ==> s[i].key_le(&s[j])
}

/// Sort by the key order, stably: values with equal keys keep their order.
pub fn sort_by_key<T: SortKey>(v: Vec<T>) -> (res: Vec<T>)
    ensures
        res@.to_multiset() == v@.to_multiset(),
        sorted_by_key(res@),
        res@ == stable_sort(v@, |a: T, b: T| a.key_le(&b)),
{
    let res = sort_by_order::<T, ByKey>(v);
    assert((|a: T, b: T| <ByKey as Order<T>>::le(&a, &b)) =~= (|a: T, b: T| a.key_le(&b)));
    assert forall|i: int, j: int| #![trigger res@[i], res@[j]] 0 <= i < j < res@.len() implies res@[i].key_le(&res@[j]) by {
        assert(<ByKey as Order<T>>::le(&res@[i], &res@[j]));
    }
    res
}


/// Reordering a sequence reorders the images of its elements alike.
pub proof fn lemma_map_values_multiset<A, B>(s1: Seq<A>, s2: Seq<A>, f: spec_fn(A) -> B)
    requires
        s1.to_multiset() == s2.to_multiset(),
    ensures
        s1.map_values(f).to_multiset() == s2.map_values(f).to_multiset(),
    decreases s1.len(),
{
    if s1.len() == 0 {
        assert(s2.to_multiset().len() == 0);
        assert(s2.len() == 0);
        assert(s1.map_values(f) =~= Seq::<B>::empty());
        assert(s2.map_values(f) =~= Seq::<B>::empty());
    } else {
        let x = s1.last();
        assert(s1 =~= s1.drop_last().push(x));
        assert(s1.to_multiset() =~= s1.drop_last().to_multiset().insert(x));
        assert(s2.to_multiset().count(x) > 0);
        assert(s2.contains(x));
        let j = choose|j: int| 0 <= j < s2.len() && s2[j] == x;
        let s2r = s2.remove(j);
        assert(s2r.to_multiset() =~= s2.to_multiset().remove(x));
        assert(s1.drop_last().to_multiset() =~= s1.to_multiset().remove(x));
        lemma_map_values_multiset(s1.drop_last(), s2r, f);
        assert(s1.map_values(f) =~= s1.drop_last().map_values(f).push(f(x)));
        assert(s1.map_values(f).to_multiset() =~= s1.drop_last().map_values(f).to_multiset().insert(f(x)));
        let m2 = s2.map_values(f);
        assert(m2.remove(j) =~= s2r.map_values(f));
        assert(m2[j] == f(x));
        assert(m2.remove(j).to_multiset() =~= m2.to_multiset().remove(f(x)));
        assert(m2.to_multiset().count(f(x)) > 0) by {
            assert(m2.contains(f(x)));
        }
        assert(m2.to_multiset() =~= m2.remove(j).to_multiset().insert(f(x)));
    }
}

} // verus!
