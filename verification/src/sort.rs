//! Stable ordering by an integer key: what `sort_by_key` does to a list
//! whose elements are paired with their keys.

use vstd::prelude::*;
use crate::text::{
    lemma_text_lt_asymmetric, lemma_text_lt_irreflexive, lemma_text_lt_total, lemma_text_lt_transitive, order_text,
    text_lt,
};

verus! {

/// Inserts `x` after every element whose key is not greater than its own.
pub open spec fn insert_by_key<T>(s: Seq<(i64, T)>, x: (i64, T)) -> Seq<(i64, T)>
    decreases s.len(),
{
    if s.len() == 0 {
        seq![x]
    } else if s.last().0 <= x.0 {
        s.push(x)
    } else {
        insert_by_key(s.drop_last(), x).push(s.last())
    }
}

/// The stable sort of keyed elements by key: equal keys keep their order.
pub open spec fn sort_by_key<T>(s: Seq<(i64, T)>) -> Seq<(i64, T)>
    decreases s.len(),
{
    if s.len() == 0 {
        seq![]
    } else {
        insert_by_key(sort_by_key(s.drop_last()), s.last())
    }
}

/// Keys in non-decreasing order.
pub open spec fn keys_sorted<T>(s: Seq<(i64, T)>) -> bool {
    forall|i: int, j: int| 0 <= i <= j < s.len() ==> s[i].0 <= s[j].0
}

proof fn lemma_insert_at<T>(s: Seq<(i64, T)>, x: (i64, T), j: int)
    requires
        0 <= j <= s.len(),
        forall|k: int| j <= k < s.len() ==> s[k].0 > x.0,
        j == 0 || s[j - 1].0 <= x.0,
    ensures
        insert_by_key(s, x) == s.insert(j, x),
    decreases s.len(),
{
    if s.len() == j {
        assert(s.insert(j, x) =~= s.push(x));
    } else {
        lemma_insert_at(s.drop_last(), x, j);
        assert(s.insert(j, x) =~= s.drop_last().insert(j, x).push(s.last()));
    }
}

proof fn lemma_insert_sorted<T>(s: Seq<(i64, T)>, x: (i64, T))
    requires
        keys_sorted(s),
    ensures
        keys_sorted(insert_by_key(s, x)),
        insert_by_key(s, x).len() == s.len() + 1,
        insert_by_key(s, x).to_multiset() == s.to_multiset().insert(x),
    decreases s.len(),
{
    broadcast use vstd::seq_lib::group_to_multiset_ensures;
    if s.len() == 0 {
        assert(insert_by_key(s, x) =~= seq![x]);
        assert(seq![x] =~= Seq::<(i64, T)>::empty().push(x));
    } else if s.last().0 <= x.0 {
    } else {
        let r = insert_by_key(s.drop_last(), x);
        assert(keys_sorted(s.drop_last()));
        lemma_insert_sorted(s.drop_last(), x);
        assert(s.drop_last().push(s.last()) =~= s);
        // Every element of the shorter insertion is at most the last key.
        assert forall|k: int| 0 <= k < r.len() implies r[k].0 <= s.last().0 by {
            lemma_insert_members(s.drop_last(), x, k);
        }
    }
}

proof fn lemma_insert_members<T>(s: Seq<(i64, T)>, x: (i64, T), k: int)
    requires
        0 <= k < insert_by_key(s, x).len(),
    ensures
        insert_by_key(s, x)[k] == x || exists|m: int| 0 <= m < s.len() && insert_by_key(s, x)[k] == s[m],
    decreases s.len(),
{
    if s.len() == 0 {
    } else if s.last().0 <= x.0 {
        if k < s.len() {
            assert(insert_by_key(s, x)[k] == s[k]);
        }
    } else {
        let r = insert_by_key(s.drop_last(), x);
        if k < r.len() {
            lemma_insert_members(s.drop_last(), x, k);
            if r[k] != x {
                let m = choose|m: int| 0 <= m < s.drop_last().len() && r[k] == s.drop_last()[m];
                assert(s[m] == s.drop_last()[m]);
            }
        } else {
            assert(insert_by_key(s, x)[k] == s[s.len() - 1]);
        }
    }
}

/// The stable sort yields keys in order and the same elements.
pub proof fn lemma_sort_by_key<T>(s: Seq<(i64, T)>)
    ensures
        keys_sorted(sort_by_key(s)),
        sort_by_key(s).len() == s.len(),
        sort_by_key(s).to_multiset() == s.to_multiset(),
    decreases s.len(),
{
    broadcast use vstd::seq_lib::group_to_multiset_ensures;
    if s.len() > 0 {
        lemma_sort_by_key(s.drop_last());
        lemma_insert_sorted(sort_by_key(s.drop_last()), s.last());
        assert(s.drop_last().push(s.last()) =~= s);
    }
}

/// Sorts keyed elements stably by key (insertion sort).
pub fn sort_keyed<T>(v: Vec<(i64, T)>) -> (r: Vec<(i64, T)>)
    ensures
        r@ == sort_by_key(v@),
{
    let mut v = v;
    let ghost orig = v@;
    assert(orig.len() == v.len());
    let mut out: Vec<(i64, T)> = Vec::new();
    let mut i: usize = 0;
    while v.len() > 0
        invariant
            i + v@.len() == orig.len(),
            orig.len() <= usize::MAX,
            v@ == orig.skip(i as int),
            out@ == sort_by_key(orig.take(i as int)),
        decreases v@.len(),
    {
        let x = v.remove(0);
        assert(x == orig[i as int]);
        let mut j: usize = out.len();
        while j > 0 && out[j - 1].0 > x.0
            invariant
                j <= out@.len(),
                forall|k: int| j <= k < out@.len() ==> out@[k].0 > x.0,
            decreases j,
        {
            j = j - 1;
        }
        proof {
            lemma_insert_at(out@, x, j as int);
            assert(orig.take(i + 1).drop_last() =~= orig.take(i as int));
            assert(orig.take(i + 1).last() == x);
        }
        out.insert(j, x);
        assert(v@ =~= orig.skip(i + 1));
        i = i + 1;
    }
    assert(orig.take(i as int) =~= orig);
    out
}

/// Keyed elements with each element mapped by `f`, keys kept.
pub open spec fn map_keyed<T, U>(s: Seq<(i64, T)>, f: spec_fn(T) -> U) -> Seq<(i64, U)> {
    s.map_values(|p: (i64, T)| (p.0, f(p.1)))
}

proof fn lemma_insert_map<T, U>(s: Seq<(i64, T)>, x: (i64, T), f: spec_fn(T) -> U)
    ensures
        map_keyed(insert_by_key(s, x), f) == insert_by_key(map_keyed(s, f), (x.0, f(x.1))),
    decreases s.len(),
{
    if s.len() == 0 {
        assert(map_keyed(seq![x], f) =~= seq![(x.0, f(x.1))]);
    } else if s.last().0 <= x.0 {
        assert(map_keyed(s.push(x), f) =~= map_keyed(s, f).push((x.0, f(x.1))));
        assert(map_keyed(s, f).last() == (s.last().0, f(s.last().1)));
    } else {
        lemma_insert_map(s.drop_last(), x, f);
        assert(map_keyed(s, f).drop_last() =~= map_keyed(s.drop_last(), f));
        assert(map_keyed(insert_by_key(s.drop_last(), x).push(s.last()), f) =~= map_keyed(
            insert_by_key(s.drop_last(), x),
            f,
        ).push((s.last().0, f(s.last().1))));
    }
}

/// Sorting commutes with mapping the elements: the order depends on the
/// keys alone.
pub proof fn lemma_sort_map<T, U>(s: Seq<(i64, T)>, f: spec_fn(T) -> U)
    ensures
        map_keyed(sort_by_key(s), f) == sort_by_key(map_keyed(s, f)),
    decreases s.len(),
{
    if s.len() > 0 {
        lemma_sort_map(s.drop_last(), f);
        lemma_insert_map(sort_by_key(s.drop_last()), s.last(), f);
        assert(map_keyed(s, f).drop_last() =~= map_keyed(s.drop_last(), f));
    }
}

/// Inserts `x` after every element whose text key is not greater than its
/// own.
pub open spec fn insert_by_text<T>(s: Seq<(Seq<char>, T)>, x: (Seq<char>, T)) -> Seq<(Seq<char>, T)>
    decreases s.len(),
{
    if s.len() == 0 {
        seq![x]
    } else if !text_lt(x.0, s.last().0) {
        s.push(x)
    } else {
        insert_by_text(s.drop_last(), x).push(s.last())
    }
}

/// The stable sort of text-keyed elements by key (`str` order).
pub open spec fn sort_by_text<T>(s: Seq<(Seq<char>, T)>) -> Seq<(Seq<char>, T)>
    decreases s.len(),
{
    if s.len() == 0 {
        seq![]
    } else {
        insert_by_text(sort_by_text(s.drop_last()), s.last())
    }
}

/// Text-keyed elements with their keys taken by view.
pub open spec fn text_keys<T>(s: Seq<(Vec<char>, T)>) -> Seq<(Seq<char>, T)> {
    s.map_values(|p: (Vec<char>, T)| (p.0@, p.1))
}

proof fn lemma_insert_text_at<T>(s: Seq<(Seq<char>, T)>, x: (Seq<char>, T), j: int)
    requires
        0 <= j <= s.len(),
        forall|k: int| j <= k < s.len() ==> text_lt(x.0, s[k].0),
        j == 0 || !text_lt(x.0, s[j - 1].0),
    ensures
        insert_by_text(s, x) == s.insert(j, x),
    decreases s.len(),
{
    if s.len() == j {
        assert(s.insert(j, x) =~= s.push(x));
    } else {
        lemma_insert_text_at(s.drop_last(), x, j);
        assert(s.insert(j, x) =~= s.drop_last().insert(j, x).push(s.last()));
    }
}

/// Sorts text-keyed elements stably by key (insertion sort).
pub fn sort_text_keyed<T>(v: Vec<(Vec<char>, T)>) -> (r: Vec<(Vec<char>, T)>)
    ensures
        text_keys(r@) == sort_by_text(text_keys(v@)),
{
    let mut v = v;
    let ghost orig = text_keys(v@);
    assert(orig.len() == v.len());
    let mut out: Vec<(Vec<char>, T)> = Vec::new();
    assert(orig.skip(0) =~= orig);
    let mut i: usize = 0;
    while v.len() > 0
        invariant
            i + v@.len() == orig.len(),
            orig.len() <= usize::MAX,
            text_keys(v@) == orig.skip(i as int),
            text_keys(out@) == sort_by_text(orig.take(i as int)),
        decreases v@.len(),
    {
        let ghost before = v@;
        let x = v.remove(0);
        assert((x.0@, x.1) == orig[i as int]) by {
            assert(text_keys(before)[0] == orig.skip(i as int)[0]);
        }
        assert(text_keys(v@) =~= orig.skip(i + 1)) by {
            assert forall|k: int| 0 <= k < v@.len() implies text_keys(v@)[k] == orig.skip(i + 1)[k] by {
                assert(v@[k] == before[k + 1]);
                assert(text_keys(before)[k + 1] == orig.skip(i as int)[k + 1]);
            }
        }
        let mut j: usize = out.len();
        while j > 0 && order_text(x.0.as_slice(), out[j - 1].0.as_slice()) < 0
            invariant
                j <= out@.len(),
                forall|k: int| j <= k < out@.len() ==> text_lt(x.0@, out@[k].0@),
            decreases j,
        {
            j = j - 1;
        }
        let ghost ov = text_keys(out@);
        proof {
            lemma_insert_text_at(ov, (x.0@, x.1), j as int);
            assert(orig.take(i + 1).drop_last() =~= orig.take(i as int));
            assert(orig.take(i + 1).last() == (x.0@, x.1));
        }
        let ghost xv = (x.0@, x.1);
        out.insert(j, x);
        assert(text_keys(out@) =~= ov.insert(j as int, xv));
        i = i + 1;
    }
    assert(orig.take(i as int) =~= orig);
    out
}

/// Text-keyed elements with each element mapped by `f`, keys kept.
pub open spec fn map_text_keyed<T, U>(s: Seq<(Seq<char>, T)>, f: spec_fn(T) -> U) -> Seq<(Seq<char>, U)> {
    s.map_values(|p: (Seq<char>, T)| (p.0, f(p.1)))
}

proof fn lemma_insert_text_map<T, U>(s: Seq<(Seq<char>, T)>, x: (Seq<char>, T), f: spec_fn(T) -> U)
    ensures
        map_text_keyed(insert_by_text(s, x), f) == insert_by_text(map_text_keyed(s, f), (x.0, f(x.1))),
    decreases s.len(),
{
    if s.len() == 0 {
        assert(map_text_keyed(seq![x], f) =~= seq![(x.0, f(x.1))]);
    } else if !text_lt(x.0, s.last().0) {
        assert(map_text_keyed(s.push(x), f) =~= map_text_keyed(s, f).push((x.0, f(x.1))));
        assert(map_text_keyed(s, f).last() == (s.last().0, f(s.last().1)));
    } else {
        lemma_insert_text_map(s.drop_last(), x, f);
        assert(map_text_keyed(s, f).drop_last() =~= map_text_keyed(s.drop_last(), f));
        assert(map_text_keyed(insert_by_text(s.drop_last(), x).push(s.last()), f) =~= map_text_keyed(
            insert_by_text(s.drop_last(), x),
            f,
        ).push((s.last().0, f(s.last().1))));
    }
}

/// Sorting by text key commutes with mapping the elements.
pub proof fn lemma_sort_text_map<T, U>(s: Seq<(Seq<char>, T)>, f: spec_fn(T) -> U)
    ensures
        map_text_keyed(sort_by_text(s), f) == sort_by_text(map_text_keyed(s, f)),
    decreases s.len(),
{
    if s.len() > 0 {
        lemma_sort_text_map(s.drop_last(), f);
        lemma_insert_text_map(sort_by_text(s.drop_last()), s.last(), f);
        assert(map_text_keyed(s, f).drop_last() =~= map_text_keyed(s.drop_last(), f));
    }
}


/// Text-keyed elements in key order (`str` order), equal keys in any order.
pub open spec fn text_sorted<T>(s: Seq<(Seq<char>, T)>) -> bool {
    forall|i: int, j: int| #![trigger s[i], s[j]] 0 <= i < j < s.len() ==> !text_lt(s[j].0, s[i].0)
}

/// Elements of a sequence are told apart by their keys.
pub open spec fn key_determines<T>(s: Seq<(Seq<char>, T)>) -> bool {
    forall|i: int, j: int| #![trigger s[i], s[j]] 0 <= i < s.len() && 0 <= j < s.len() && s[i].0 == s[j].0 ==> s[i] == s[j]
}

/// "Not greater" in `str` order is transitive.
proof fn lemma_text_le_transitive(a: Seq<char>, b: Seq<char>, c: Seq<char>)
    requires
        !text_lt(b, a),
        !text_lt(c, b),
    ensures
        !text_lt(c, a),
{
    lemma_text_lt_total(a, b);
    if text_lt(c, a) && a != b {
        lemma_text_lt_transitive(c, a, b);
    }
}

proof fn lemma_insert_text_sorted<T>(s: Seq<(Seq<char>, T)>, x: (Seq<char>, T))
    requires
        text_sorted(s),
    ensures
        text_sorted(insert_by_text(s, x)),
        insert_by_text(s, x).to_multiset() == s.to_multiset().insert(x),
    decreases s.len(),
{
    broadcast use vstd::seq_lib::group_to_multiset_ensures;
    broadcast use vstd::multiset::group_multiset_axioms;
    if s.len() == 0 {
        assert(seq![x] =~= Seq::<(Seq<char>, T)>::empty().push(x));
    } else if !text_lt(x.0, s.last().0) {
        let r = s.push(x);
        assert forall|i: int, j: int| 0 <= i < j < r.len() implies !text_lt(#[trigger] r[j].0, #[trigger] r[i].0) by {
            if j == s.len() {
                if i < s.len() - 1 {
                    assert(!text_lt(s[s.len() - 1].0, s[i].0));
                    lemma_text_le_transitive(s[i].0, s.last().0, x.0);
                }
            } else {
                assert(r[i] == s[i] && r[j] == s[j]);
            }
        }
    } else {
        let d = s.drop_last();
        assert(text_sorted(d)) by {
            assert forall|i: int, j: int| 0 <= i < j < d.len() implies !text_lt(#[trigger] d[j].0, #[trigger] d[i].0) by {
                assert(d[i] == s[i] && d[j] == s[j]);
            }
        }
        lemma_insert_text_sorted(d, x);
        let r0 = insert_by_text(d, x);
        let r = r0.push(s.last());
        assert forall|k: int| 0 <= k < r0.len() implies !text_lt(s.last().0, #[trigger] r0[k].0) by {
            assert(r0.to_multiset().count(r0[k]) > 0);
            if r0[k] == x {
                lemma_text_lt_asymmetric(x.0, s.last().0);
            } else {
                assert(d.to_multiset().count(r0[k]) > 0);
                let i = choose|i: int| 0 <= i < d.len() && d[i] == r0[k];
                assert(s[i] == d[i]);
                assert(!text_lt(s[s.len() - 1].0, s[i].0));
            }
        }
        assert forall|i: int, j: int| 0 <= i < j < r.len() implies !text_lt(#[trigger] r[j].0, #[trigger] r[i].0) by {
            if j < r0.len() {
                assert(r[i] == r0[i] && r[j] == r0[j]);
            } else {
                assert(r[i] == r0[i]);
            }
        }
        assert(s =~= d.push(s.last()));
        assert(r.to_multiset() =~= s.to_multiset().insert(x));
    }
}

/// The stable sort by text key yields keys in order and the same elements.
pub proof fn lemma_sort_text_sorted<T>(s: Seq<(Seq<char>, T)>)
    ensures
        text_sorted(sort_by_text(s)),
        sort_by_text(s).to_multiset() == s.to_multiset(),
    decreases s.len(),
{
    broadcast use vstd::seq_lib::group_to_multiset_ensures;
    if s.len() > 0 {
        lemma_sort_text_sorted(s.drop_last());
        lemma_insert_text_sorted(sort_by_text(s.drop_last()), s.last());
        assert(s.drop_last().push(s.last()) =~= s);
    } else {
        assert(sort_by_text(s) =~= s);
    }
}

/// Keys that tell elements apart carry over to a sequence of the same
/// elements.
pub proof fn lemma_key_determines_perm<T>(c: Seq<(Seq<char>, T)>, a: Seq<(Seq<char>, T)>)
    requires
        key_determines(c),
        a.to_multiset() == c.to_multiset(),
    ensures
        key_determines(a),
{
    broadcast use vstd::seq_lib::group_to_multiset_ensures;
    assert forall|i: int, j: int| 0 <= i < a.len() && 0 <= j < a.len() && (#[trigger] a[i]).0 == (#[trigger] a[j]).0 implies a[i] == a[j] by {
        assert(a.to_multiset().count(a[i]) > 0);
        assert(a.to_multiset().count(a[j]) > 0);
        let p = choose|p: int| 0 <= p < c.len() && c[p] == a[i];
        let q = choose|q: int| 0 <= q < c.len() && c[q] == a[j];
        assert(c[p].0 == c[q].0);
    }
}

/// Two key-ordered sequences of the same elements, told apart by their keys,
/// are equal.
pub proof fn lemma_text_sorted_unique<T>(a: Seq<(Seq<char>, T)>, b: Seq<(Seq<char>, T)>)
    requires
        text_sorted(a),
        text_sorted(b),
        key_determines(a),
        a.to_multiset() == b.to_multiset(),
    ensures
        a == b,
    decreases a.len(),
{
    broadcast use vstd::seq_lib::group_to_multiset_ensures;
    broadcast use vstd::multiset::group_multiset_axioms;
    if a.len() == 0 || b.len() == 0 {
        assert(a.to_multiset().len() == a.len());
        assert(b.to_multiset().len() == b.len());
        assert(a.len() == b.len());
        assert(a =~= b);
    } else {
        assert(a.to_multiset().count(a[0]) > 0);
        assert(b.to_multiset().count(b[0]) > 0);
        let i = choose|i: int| 0 <= i < a.len() && a[i] == b[0];
        let j = choose|j: int| 0 <= j < b.len() && b[j] == a[0];
        if i > 0 {
            assert(!text_lt(a[i].0, a[0].0));
        }
        if j > 0 {
            assert(!text_lt(b[j].0, b[0].0));
        }
        lemma_text_lt_total(a[0].0, b[0].0);
        assert(a[0].0 == a[i].0);
        assert(a[0] == b[0]);
        let a1 = a.drop_first();
        let b1 = b.drop_first();
        assert(a1 =~= a.remove(0));
        assert(b1 =~= b.remove(0));
        assert(a1.to_multiset() == b1.to_multiset());
        assert(text_sorted(a1)) by {
            assert forall|p: int, q: int| 0 <= p < q < a1.len() implies !text_lt(#[trigger] a1[q].0, #[trigger] a1[p].0) by {
                assert(a1[p] == a[p + 1] && a1[q] == a[q + 1]);
            }
        }
        assert(text_sorted(b1)) by {
            assert forall|p: int, q: int| 0 <= p < q < b1.len() implies !text_lt(#[trigger] b1[q].0, #[trigger] b1[p].0) by {
                assert(b1[p] == b[p + 1] && b1[q] == b[q + 1]);
            }
        }
        assert(key_determines(a1)) by {
            assert forall|p: int, q: int| 0 <= p < a1.len() && 0 <= q < a1.len() && (#[trigger] a1[p]).0 == (#[trigger] a1[q]).0 implies a1[p] == a1[q] by {
                assert(a1[p] == a[p + 1] && a1[q] == a[q + 1]);
            }
        }
        lemma_text_sorted_unique(a1, b1);
        assert(a =~= seq![a[0]] + a1);
        assert(b =~= seq![b[0]] + b1);
    }
}

/// Mapping two sequences of the same elements gives sequences of the same
/// elements.
pub proof fn lemma_map_perm<A, B>(x: Seq<A>, y: Seq<A>, f: spec_fn(A) -> B)
    requires
        x.to_multiset() == y.to_multiset(),
    ensures
        x.map_values(f).to_multiset() == y.map_values(f).to_multiset(),
    decreases x.len(),
{
    broadcast use vstd::seq_lib::group_to_multiset_ensures;
    broadcast use vstd::multiset::group_multiset_axioms;
    if x.len() == 0 {
        assert(y.to_multiset().len() == y.len());
        assert(x.map_values(f) =~= Seq::<B>::empty());
        assert(y.map_values(f) =~= Seq::<B>::empty());
    } else {
        let a = x.last();
        let d = x.drop_last();
        assert(x =~= d.push(a));
        assert(x.to_multiset().count(a) > 0) by {
            assert(x[x.len() - 1] == a);
        }
        let i = choose|i: int| 0 <= i < y.len() && y[i] == a;
        let y1 = y.remove(i);
        assert(y1.to_multiset() == y.to_multiset().remove(a));
        assert(d.to_multiset() =~= y1.to_multiset());
        lemma_map_perm(d, y1, f);
        let ym = y.map_values(f);
        assert(y1.map_values(f) =~= ym.remove(i));
        assert(ym.remove(i).to_multiset() == ym.to_multiset().remove(ym[i]));
        assert(x.map_values(f) =~= d.map_values(f).push(f(a)));
        assert(ym.to_multiset().count(f(a)) > 0) by {
            assert(ym[i] == f(a));
        }
        assert(x.map_values(f).to_multiset() =~= ym.to_multiset());
    }
}

/// Elements of a sequence are told apart by their integer keys.
pub open spec fn int_key_determines<T>(s: Seq<(i64, T)>) -> bool {
    forall|i: int, j: int| #![trigger s[i], s[j]] 0 <= i < s.len() && 0 <= j < s.len() && s[i].0 == s[j].0 ==> s[i] == s[j]
}

/// Integer keys that tell elements apart carry over to a sequence of the
/// same elements.
pub proof fn lemma_int_key_determines_perm<T>(c: Seq<(i64, T)>, a: Seq<(i64, T)>)
    requires
        int_key_determines(c),
        a.to_multiset() == c.to_multiset(),
    ensures
        int_key_determines(a),
{
    broadcast use vstd::seq_lib::group_to_multiset_ensures;
    assert forall|i: int, j: int| 0 <= i < a.len() && 0 <= j < a.len() && (#[trigger] a[i]).0 == (#[trigger] a[j]).0 implies a[i] == a[j] by {
        assert(a.to_multiset().count(a[i]) > 0);
        assert(a.to_multiset().count(a[j]) > 0);
        let p = choose|p: int| 0 <= p < c.len() && c[p] == a[i];
        let q = choose|q: int| 0 <= q < c.len() && c[q] == a[j];
        assert(c[p].0 == c[q].0);
    }
}

/// Two key-ordered sequences of the same elements, told apart by their
/// integer keys, are equal.
pub proof fn lemma_keys_sorted_unique<T>(a: Seq<(i64, T)>, b: Seq<(i64, T)>)
    requires
        keys_sorted(a),
        keys_sorted(b),
        int_key_determines(a),
        a.to_multiset() == b.to_multiset(),
    ensures
        a == b,
    decreases a.len(),
{
    broadcast use vstd::seq_lib::group_to_multiset_ensures;
    broadcast use vstd::multiset::group_multiset_axioms;
    if a.len() == 0 || b.len() == 0 {
        assert(a.to_multiset().len() == a.len());
        assert(b.to_multiset().len() == b.len());
        assert(a =~= b);
    } else {
        assert(a.to_multiset().count(a[0]) > 0);
        assert(b.to_multiset().count(b[0]) > 0);
        let i = choose|i: int| 0 <= i < a.len() && a[i] == b[0];
        let j = choose|j: int| 0 <= j < b.len() && b[j] == a[0];
        assert(a[0].0 <= a[i].0);
        assert(b[0].0 <= b[j].0);
        assert(a[0] == a[i]);
        let a1 = a.drop_first();
        let b1 = b.drop_first();
        assert(a1 =~= a.remove(0));
        assert(b1 =~= b.remove(0));
        assert(a1.to_multiset() == b1.to_multiset());
        assert(keys_sorted(a1)) by {
            assert forall|p: int, q: int| 0 <= p <= q < a1.len() implies a1[p].0 <= a1[q].0 by {
                assert(a1[p] == a[p + 1] && a1[q] == a[q + 1]);
            }
        }
        assert(keys_sorted(b1)) by {
            assert forall|p: int, q: int| 0 <= p <= q < b1.len() implies b1[p].0 <= b1[q].0 by {
                assert(b1[p] == b[p + 1] && b1[q] == b[q + 1]);
            }
        }
        assert(int_key_determines(a1)) by {
            assert forall|p: int, q: int| 0 <= p < a1.len() && 0 <= q < a1.len() && (#[trigger] a1[p]).0 == (#[trigger] a1[q]).0 implies a1[p] == a1[q] by {
                assert(a1[p] == a[p + 1] && a1[q] == a[q + 1]);
            }
        }
        lemma_keys_sorted_unique(a1, b1);
        assert(a =~= seq![a[0]] + a1);
        assert(b =~= seq![b[0]] + b1);
    }
}

} // verus!
