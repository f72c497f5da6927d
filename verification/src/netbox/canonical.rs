//! Canonicalization: the escrow must be deterministic — two pulls with no
//! intervening edits produce identical bytes, so a git diff of the export is
//! exactly the set of NetBox edits and nothing else.

use vstd::prelude::*;
use crate::text::{chars_of, eq_chars};
use crate::json::{as_i64, copy_json, get, jget, jint, jv, jv_entries, jv_list, lemma_jv_list, Json, JVal};
use crate::sort::{
    int_key_determines, lemma_int_key_determines_perm, lemma_keys_sorted_unique, lemma_map_perm, lemma_sort_by_key,
    lemma_sort_map, map_keyed, sort_by_key, sort_keyed,
};

verus! {

/// Keys that churn without a data change and are stripped recursively —
/// timestamps and hyperlink decorations NetBox attaches to every object and
/// every nested brief-object.
pub open spec fn volatile_key(k: Seq<char>) -> bool {
    k == "url"@ || k == "display"@ || k == "display_url"@ || k == "created"@ || k == "last_updated"@
}

/// A value with the volatile keys removed from every object in it.
pub open spec fn stripped(v: JVal) -> JVal
    decreases v,
{
    match v {
        JVal::Array(items) => JVal::Array(stripped_list(items)),
        JVal::Object(es) => JVal::Object(stripped_entries(es)),
        _ => v,
    }
}

pub open spec fn stripped_list(s: Seq<JVal>) -> Seq<JVal>
    decreases s,
{
    if s.len() == 0 {
        seq![]
    } else {
        stripped_list(s.drop_last()).push(stripped(s.last()))
    }
}

pub open spec fn stripped_entries(s: Seq<(Seq<char>, JVal)>) -> Seq<(Seq<char>, JVal)>
    decreases s,
{
    if s.len() == 0 {
        seq![]
    } else if volatile_key(s.last().0) {
        stripped_entries(s.drop_last())
    } else {
        stripped_entries(s.drop_last()).push((s.last().0, stripped(s.last().1)))
    }
}

/// The sort key of an object: its integer `id`, objects without one last.
pub open spec fn id_key(v: JVal) -> i64 {
    match jint(jget(v, "id"@)) {
        Some(i) => i,
        None => i64::MAX,
    }
}

pub open spec fn keyed_stripped(objs: Seq<JVal>) -> Seq<(i64, JVal)> {
    objs.map_values(|o: JVal| (id_key(stripped(o)), stripped(o)))
}

pub open spec fn second<T>(s: Seq<(i64, T)>) -> Seq<T> {
    s.map_values(|p: (i64, T)| p.1)
}

/// One endpoint's canonical object list: volatile keys stripped
/// recursively, objects stably sorted by `id`.
pub open spec fn canonical(objs: Seq<JVal>) -> Seq<JVal> {
    second(sort_by_key(keyed_stripped(objs)))
}

fn is_volatile(k: &str) -> (r: bool)
    ensures
        r == volatile_key(k@),
{
    let c = chars_of(k);
    eq_chars(c.as_slice(), chars_of("url").as_slice()) || eq_chars(c.as_slice(), chars_of("display").as_slice())
        || eq_chars(c.as_slice(), chars_of("display_url").as_slice()) || eq_chars(
        c.as_slice(),
        chars_of("created").as_slice(),
    ) || eq_chars(c.as_slice(), chars_of("last_updated").as_slice())
}

/// A copy of a value with the volatile keys removed from every object in it.
#[verifier::loop_isolation(false)]
pub fn strip_volatile(v: &Json) -> (r: Json)
    ensures
        jv(r) == stripped(jv(*v)),
    decreases v,
{
    match v {
        Json::Array(a) => {
            let mut out: Vec<Json> = Vec::new();
            let mut i: usize = 0;
            proof {
                lemma_jv_list(a@);
            }
            while i < a.len()
                invariant
                    i <= a@.len(),
                    jv_list(out@) == stripped_list(jv_list(a@.take(i as int))),
                decreases a@.len() - i,
            {
                proof {
                    assert(decreases_to!(a => a[i as int]));
                }
                let x = strip_volatile(&a[i]);
                let ghost prev = out@;
                out.push(x);
                assert(out@.drop_last() =~= prev);
                assert(a@.take(i + 1).drop_last() =~= a@.take(i as int));
                proof {
                    let l = jv_list(a@.take(i as int));
                    let y = jv(a@[i as int]);
                    assert(jv_list(a@.take(i + 1)) == l.push(y));
                    assert(l.push(y).drop_last() =~= l);
                    assert(stripped_list(l.push(y)) == stripped_list(l).push(stripped(y)));
                }
                i = i + 1;
            }
            assert(a@.take(i as int) =~= a@);
            Json::Array(out)
        },
        Json::Object(m) => {
            let mut out: Vec<(String, Json)> = Vec::new();
            let mut i: usize = 0;
            while i < m.len()
                invariant
                    i <= m@.len(),
                    jv_entries(out@) == stripped_entries(jv_entries(m@.take(i as int))),
                decreases m@.len() - i,
            {
                assert(m@.take(i + 1).drop_last() =~= m@.take(i as int));
                let ghost l = jv_entries(m@.take(i as int));
                let ghost y = (m@[i as int].0@, jv(m@[i as int].1));
                assert(jv_entries(m@.take(i + 1)) == l.push(y));
                assert(l.push(y).drop_last() =~= l);
                if is_volatile(m[i].0.as_str()) {
                } else {
                    proof {
                        assert(decreases_to!(m => m[i as int]));
                        assert(decreases_to!(m[i as int] => m[i as int].1));
                    }
                    let x = strip_volatile(&m[i].1);
                    let k = m[i].0.clone();
                    let ghost prev = out@;
                    out.push((k, x));
                    assert(out@.drop_last() =~= prev);
                }
                i = i + 1;
            }
            assert(m@.take(i as int) =~= m@);
            Json::Object(out)
        },
        _ => copy_json(v),
    }
}

/// Canonicalizes one endpoint's object list: volatile keys stripped
/// recursively, objects sorted by `id` (objects without one last, in their
/// given order).
pub fn canonicalize_objects(objects: Vec<Json>) -> (r: Vec<Json>)
    ensures
        jv_list(r@) == canonical(jv_list(objects@)),
{
    let ghost ov = jv_list(objects@);
    proof {
        lemma_jv_list(objects@);
    }
    let mut keyed: Vec<(i64, Json)> = Vec::new();
    let mut i: usize = 0;
    while i < objects.len()
        invariant
            i <= objects@.len(),
            ov == jv_list(objects@),
            ov.len() == objects@.len(),
            forall|j: int| 0 <= j < objects@.len() ==> #[trigger] ov[j] == jv(objects@[j]),
            map_keyed(keyed@, |x: Json| jv(x)) == keyed_stripped(ov.take(i as int)),
        decreases objects@.len() - i,
    {
        let s = strip_volatile(&objects[i]);
        let k = match as_i64(get(&s, "id")) {
            Some(n) => n,
            None => i64::MAX,
        };
        let ghost prev = keyed@;
        let ghost sv = jv(s);
        keyed.push((k, s));
        assert(map_keyed(keyed@, |x: Json| jv(x)) =~= map_keyed(prev, |x: Json| jv(x)).push((k, sv)));
        assert(keyed_stripped(ov.take(i + 1)) =~= keyed_stripped(ov.take(i as int)).push(
            (id_key(stripped(ov[i as int])), stripped(ov[i as int])),
        ));
        i = i + 1;
    }
    assert(ov.take(i as int) =~= ov);
    let ghost kv = keyed@;
    let sorted = sort_keyed(keyed);
    proof {
        lemma_sort_map(kv, |x: Json| jv(x));
    }
    let mut sorted = sorted;
    let ghost sv = sorted@;
    let mut out: Vec<Json> = Vec::new();
    let ghost n = sorted@.len();
    assert(n == sorted.len());
    assert(sv.skip(0) =~= sv);
    let mut j: usize = 0;
    while sorted.len() > 0
        invariant
            j + sorted@.len() == n,
            n == sv.len(),
            n <= usize::MAX,
            sorted@ == sv.skip(j as int),
            jv_list(out@) == second(map_keyed(sv, |x: Json| jv(x))).take(j as int),
        decreases sorted@.len(),
    {
        let ghost before = sorted@;
        let p = sorted.remove(0);
        assert(p == sv[j as int]);
        assert(sorted@ =~= sv.skip(j + 1));
        let ghost prev = out@;
        out.push(p.1);
        assert(out@.drop_last() =~= prev);
        assert(second(map_keyed(sv, |x: Json| jv(x))).take(j + 1) =~= second(map_keyed(sv, |x: Json| jv(x))).take(
            j as int,
        ).push(jv(sv[j as int].1)));
        j = j + 1;
    }
    assert(second(map_keyed(sv, |x: Json| jv(x))).take(j as int) =~= second(map_keyed(sv, |x: Json| jv(x))));
    out
}

proof fn lemma_stripped_idem(v: JVal)
    ensures
        stripped(stripped(v)) == stripped(v),
    decreases v,
{
    match v {
        JVal::Array(items) => lemma_stripped_list_idem(items),
        JVal::Object(es) => lemma_stripped_entries_idem(es),
        _ => {},
    }
}

proof fn lemma_stripped_list_idem(s: Seq<JVal>)
    ensures
        stripped_list(stripped_list(s)) == stripped_list(s),
    decreases s,
{
    if s.len() > 0 {
        lemma_stripped_list_idem(s.drop_last());
        lemma_stripped_idem(s.last());
        let l = stripped_list(s.drop_last());
        assert(l.push(stripped(s.last())).drop_last() =~= l);
    }
}

proof fn lemma_stripped_entries_idem(s: Seq<(Seq<char>, JVal)>)
    ensures
        stripped_entries(stripped_entries(s)) == stripped_entries(s),
    decreases s,
{
    if s.len() > 0 {
        lemma_stripped_entries_idem(s.drop_last());
        lemma_stripped_idem(s.last().1);
        let l = stripped_entries(s.drop_last());
        if !volatile_key(s.last().0) {
            assert(l.push((s.last().0, stripped(s.last().1))).drop_last() =~= l);
        }
    }
}

proof fn lemma_sort_sorted<T>(s: Seq<(i64, T)>)
    requires
        crate::sort::keys_sorted(s),
    ensures
        sort_by_key(s) == s,
    decreases s.len(),
{
    if s.len() > 0 {
        assert(crate::sort::keys_sorted(s.drop_last()));
        lemma_sort_sorted(s.drop_last());
        assert(s.drop_last().push(s.last()) =~= s);
        if s.len() > 1 {
            assert(s.drop_last().last().0 <= s.last().0);
        }
    }
}

/// Canonicalization is idempotent: a canonical export canonicalizes to
/// itself, so re-canonicalizing a committed escrow never makes a diff.
pub proof fn law_canonical_idempotent(objs: Seq<JVal>)
    ensures
        canonical(canonical(objs)) == canonical(objs),
{
    let k = keyed_stripped(objs);
    let s = sort_by_key(k);
    crate::sort::lemma_sort_by_key(k);
    assert forall|i: int| 0 <= i < s.len() implies (#[trigger] s[i]).0 == id_key(s[i].1) && stripped(s[i].1) == s[i].1 by {
        broadcast use vstd::seq_lib::group_to_multiset_ensures;
        assert(s.contains(s[i]));
        assert(s.to_multiset().count(s[i]) > 0);
        assert(k.contains(s[i]));
        let m = choose|m: int| 0 <= m < k.len() && k[m] == s[i];
        lemma_stripped_idem(objs[m]);
    }
    let c = second(s);
    assert(keyed_stripped(c) =~= s) by {
        assert forall|i: int| 0 <= i < s.len() implies keyed_stripped(c)[i] == s[i] by {
            assert(c[i] == s[i].1);
        }
    }
    lemma_sort_sorted(s);
}


/// Canonicalization does not depend on the order in which the objects came:
/// two pulls that return the same objects, in any order, give the same
/// canonical list, where no two different objects share a sort key (objects
/// without an id share the last one).
pub proof fn law_canonical_ignores_order(objs: Seq<JVal>, objs2: Seq<JVal>)
    requires
        objs2.to_multiset() == objs.to_multiset(),
        int_key_determines(keyed_stripped(objs)),
    ensures
        canonical(objs2) == canonical(objs),
{
    let f = |o: JVal| (id_key(stripped(o)), stripped(o));
    lemma_map_perm(objs, objs2, f);
    let k = keyed_stripped(objs);
    let k2 = keyed_stripped(objs2);
    assert(k =~= objs.map_values(f));
    assert(k2 =~= objs2.map_values(f));
    lemma_sort_by_key(k);
    lemma_sort_by_key(k2);
    lemma_int_key_determines_perm(k, sort_by_key(k));
    lemma_keys_sorted_unique(sort_by_key(k), sort_by_key(k2));
}


/// A key that must never reach the escrow: NetBox's timestamps and
/// hyperlink decorations.
pub open spec fn churning(k: Seq<char>) -> bool {
    ||| k == "url"@
    ||| k == "display"@
    ||| k == "display_url"@
    ||| k == "created"@
    ||| k == "last_updated"@
}

/// No object anywhere in a value has a churning key.
pub open spec fn churn_free(v: JVal) -> bool
    decreases v,
{
    match v {
        JVal::Array(items) => churn_free_list(items),
        JVal::Object(es) => churn_free_entries(es),
        _ => true,
    }
}

pub open spec fn churn_free_list(s: Seq<JVal>) -> bool
    decreases s,
{
    s.len() == 0 || (churn_free_list(s.drop_last()) && churn_free(s.last()))
}

pub open spec fn churn_free_entries(s: Seq<(Seq<char>, JVal)>) -> bool
    decreases s,
{
    s.len() == 0 || (churn_free_entries(s.drop_last()) && !churning(s.last().0) && churn_free(s.last().1))
}

proof fn lemma_stripped_churn_free(v: JVal)
    ensures
        churn_free(stripped(v)),
    decreases v,
{
    match v {
        JVal::Array(items) => lemma_stripped_list_churn_free(items),
        JVal::Object(es) => lemma_stripped_entries_churn_free(es),
        _ => {},
    }
}

proof fn lemma_stripped_list_churn_free(s: Seq<JVal>)
    ensures
        churn_free_list(stripped_list(s)),
    decreases s,
{
    if s.len() > 0 {
        lemma_stripped_list_churn_free(s.drop_last());
        lemma_stripped_churn_free(s.last());
        let l = stripped_list(s.drop_last());
        assert(l.push(stripped(s.last())).drop_last() =~= l);
    }
}

proof fn lemma_stripped_entries_churn_free(s: Seq<(Seq<char>, JVal)>)
    ensures
        churn_free_entries(stripped_entries(s)),
    decreases s,
{
    if s.len() > 0 {
        lemma_stripped_entries_churn_free(s.drop_last());
        lemma_stripped_churn_free(s.last().1);
        let l = stripped_entries(s.drop_last());
        if !volatile_key(s.last().0) {
            assert(l.push((s.last().0, stripped(s.last().1))).drop_last() =~= l);
        }
    }
}

/// A canonical object list holds no churning key at any depth: `url`,
/// `display`, `display_url`, `created` and `last_updated` are gone from
/// every object and every nested object.
pub proof fn law_canonical_has_no_churning_keys(objs: Seq<JVal>)
    ensures
        forall|i: int| 0 <= i < canonical(objs).len() ==> churn_free(#[trigger] canonical(objs)[i]),
{
    let k = keyed_stripped(objs);
    let s = sort_by_key(k);
    lemma_sort_by_key(k);
    assert forall|i: int| 0 <= i < canonical(objs).len() implies churn_free(#[trigger] canonical(objs)[i]) by {
        broadcast use vstd::seq_lib::group_to_multiset_ensures;
        assert(canonical(objs)[i] == s[i].1);
        assert(s.to_multiset().count(s[i]) > 0);
        assert(k.contains(s[i]));
        let m = choose|m: int| 0 <= m < k.len() && k[m] == s[i];
        lemma_stripped_churn_free(objs[m]);
    }
}

} // verus!
