//! The logical view does not depend on ids: an escrow whose NetBox ids were
//! all reassigned, consistently, has the same logical view. This is what the
//! restore drill relies on when it compares the view before a wipe with the
//! view after the rebuild.

use vstd::prelude::*;
use crate::text::{first_match, lemma_first_match, lemma_first_match_at, text_lt};
use crate::json::{jget, jint, jstr, key_is, JVal};
use crate::netbox::declared::{array_of, jget_opt};
use crate::netbox::logical::{
    collapse_ref, collapse_refs, drop_keys, dropped_key, entry_of, has_key, iface_is, iface_key, iface_key_in,
    last_match, logical_entries, logical_object, logical_spec, nested_dropped_key, no_ids, no_ids_entries,
    ref_natural_keys, resolve_assignment, resolve_scope, scope_key, set_entry, site_is, str_or_null,
    values_no_ids, without, lemma_set_found,
};

verus! {

/// `first_match` after appending one element.
proof fn lemma_first_match_push<A>(s: Seq<A>, x: A, p: spec_fn(A) -> bool)
    ensures
        first_match(s.push(x), p) == match first_match(s, p) {
            Some(i) => Some(i),
            None => if p(x) {
                Some(s.len() as int)
            } else {
                None
            },
        },
{
    lemma_first_match(s, p);
    let t = s.push(x);
    assert forall|j: int| 0 <= j < s.len() implies t[j] == s[j] by {}
    match first_match(s, p) {
        Some(i) => {
            lemma_first_match_at(t, p, i);
        },
        None => {
            if p(x) {
                lemma_first_match_at(t, p, s.len() as int);
            } else {
                lemma_first_match_at(t, p, t.len() as int);
            }
        },
    }
}

/// `first_match` of two sequences whose elements agree on the predicates.
proof fn lemma_first_match_same<A>(s: Seq<A>, p: spec_fn(A) -> bool, t: Seq<A>, q: spec_fn(A) -> bool)
    requires
        s.len() == t.len(),
        forall|i: int| 0 <= i < s.len() ==> p(s[i]) == q(t[i]),
    ensures
        first_match(s, p) == first_match(t, q),
{
    lemma_first_match(s, p);
    match first_match(s, p) {
        Some(i) => lemma_first_match_at(t, q, i),
        None => lemma_first_match_at(t, q, t.len() as int),
    }
}

/// `last_match` characterized.
pub(crate) proof fn lemma_last_match_char<A>(s: Seq<A>, p: spec_fn(A) -> bool)
    ensures
        match last_match(s, p) {
            Some(i) => 0 <= i < s.len() && p(s[i]) && forall|j: int| i < j < s.len() ==> !p(s[j]),
            None => forall|j: int| 0 <= j < s.len() ==> !p(s[j]),
        },
    decreases s.len(),
{
    if s.len() > 0 && !p(s.last()) {
        lemma_last_match_char(s.drop_last(), p);
        assert forall|j: int| 0 <= j < s.len() - 1 implies s[j] == s.drop_last()[j] by {}
    }
}

/// `last_match` of two sequences whose elements agree on the predicates.
proof fn lemma_last_match_same<A>(s: Seq<A>, p: spec_fn(A) -> bool, t: Seq<A>, q: spec_fn(A) -> bool)
    requires
        s.len() == t.len(),
        forall|i: int| 0 <= i < s.len() ==> p(s[i]) == q(t[i]),
    ensures
        last_match(s, p) == last_match(t, q),
    decreases s.len(),
{
    if s.len() > 0 {
        assert(p(s.last()) == q(t.last()));
        if !p(s.last()) {
            assert forall|i: int| 0 <= i < s.drop_last().len() implies p(s.drop_last()[i]) == q(t.drop_last()[i]) by {
                assert(s.drop_last()[i] == s[i] && t.drop_last()[i] == t[i]);
            }
            lemma_last_match_same(s.drop_last(), p, t.drop_last(), q);
        }
    }
}

/// Two values alike: equal once nested ids and volatile keys are removed.
pub open spec fn alike(v: JVal, w: JVal) -> bool {
    no_ids(v) == no_ids(w)
}

/// Alike values agree on their shape and on every scalar.
proof fn lemma_alike(v: JVal, w: JVal)
    requires
        alike(v, w),
    ensures
        jstr(Some(v)) == jstr(Some(w)),
        jint(Some(v)) == jint(Some(w)),
        v is Object <==> w is Object,
        v is Array <==> w is Array,
        v matches JVal::Object(a) ==> (w matches JVal::Object(b) && no_ids_entries(a) == no_ids_entries(b)),
{
}

/// The value of a key in an entry list, with nested ids removed, is the
/// value of the key once they are removed from the whole list.
proof fn lemma_entry_no_ids(b: Seq<(Seq<char>, JVal)>, k: Seq<char>)
    requires
        !nested_dropped_key(k),
    ensures
        entry_of(no_ids_entries(b), k) == match entry_of(b, k) {
            Some(x) => Some(no_ids(x)),
            None => None::<JVal>,
        },
    decreases b.len(),
{
    if b.len() > 0 {
        let pre = b.drop_last();
        let x = b.last();
        lemma_entry_no_ids(pre, k);
        assert(b =~= pre.push(x));
        lemma_first_match_push(pre, x, key_is(k));
        let n = no_ids_entries(pre);
        lemma_first_match(pre, key_is(k));
        lemma_first_match(n, key_is(k));
        match first_match(pre, key_is(k)) {
            Some(i) => {
                assert(b[i] == pre[i]);
                assert(entry_of(b, k) == entry_of(pre, k));
            },
            None => {},
        }
        if nested_dropped_key(x.0) {
            assert(no_ids_entries(b) == n);
            assert(x.0 != k);
            assert(entry_of(b, k) == entry_of(pre, k));
        } else {
            let y = (x.0, no_ids(x.1));
            assert(no_ids_entries(b) == n.push(y));
            lemma_first_match_push(n, y, key_is(k));
            match first_match(n, key_is(k)) {
                Some(i) => {
                    assert(n.push(y)[i] == n[i]);
                },
                None => {
                    assert(n.push(y)[n.len() as int] == y);
                },
            }
        }
    }
}

/// Alike objects hold alike values under a key that survives id removal.
proof fn lemma_alike_member(v: JVal, w: JVal, k: Seq<char>)
    requires
        alike(v, w),
        !nested_dropped_key(k),
    ensures
        match (jget(v, k), jget(w, k)) {
            (Some(x), Some(y)) => alike(x, y),
            (None, None) => true,
            _ => false,
        },
{
    lemma_alike(v, w);
    match (v, w) {
        (JVal::Object(a), JVal::Object(b)) => {
            lemma_entry_no_ids(a, k);
            lemma_entry_no_ids(b, k);
        },
        _ => {},
    }
}

/// The kind of object a scope reference points at, named by its endpoint.
pub open spec fn scope_kind(t: Seq<char>) -> Seq<char> {
    if t == "dcim.site"@ {
        "dcim.sites"@
    } else {
        t
    }
}

/// The kind of interface an IP assignment points at, named by its endpoint.
pub open spec fn assigned_kind(t: Seq<char>) -> Seq<char> {
    if t == "dcim.interface"@ {
        "dcim.interfaces"@
    } else if t == "virtualization.vminterface"@ {
        "virtualization.interfaces"@
    } else {
        t
    }
}

/// A reference renumbered: an integer id becomes the new id `ren` gives it
/// among objects of its kind; anything else stays alike.
pub open spec fn renamed(v: JVal, w: JVal, ren: spec_fn(Seq<char>, i64) -> i64, kind: Seq<char>) -> bool {
    match jint(Some(v)) {
        Some(i) => jint(Some(w)) == Some(ren(kind, i)),
        None => alike(v, w),
    }
}

/// An entry renumbered: the same key; a `scope_id` or `assigned_object_id`
/// renumbered when its kind is given; any other value alike.
pub open spec fn entry_renamed(
    x: (Seq<char>, JVal),
    y: (Seq<char>, JVal),
    ren: spec_fn(Seq<char>, i64) -> i64,
    sk: Option<Seq<char>>,
    ak: Option<Seq<char>>,
) -> bool {
    &&& x.0 == y.0
    &&& if x.0 == "scope_id"@ && sk is Some {
        renamed(x.1, y.1, ren, sk->0)
    } else if x.0 == "assigned_object_id"@ && ak is Some {
        renamed(x.1, y.1, ren, ak->0)
    } else {
        alike(x.1, y.1)
    }
}

pub open spec fn entries_renamed(
    a: Seq<(Seq<char>, JVal)>,
    b: Seq<(Seq<char>, JVal)>,
    ren: spec_fn(Seq<char>, i64) -> i64,
    sk: Option<Seq<char>>,
    ak: Option<Seq<char>>,
) -> bool {
    &&& a.len() == b.len()
    &&& forall|i: int| 0 <= i < a.len() ==> entry_renamed(#[trigger] a[i], b[i], ren, sk, ak)
}

/// An object's own entry renumbered: its `id` by its endpoint's
/// renumbering, the others as [`entry_renamed`].
pub open spec fn raw_renamed(
    x: (Seq<char>, JVal),
    y: (Seq<char>, JVal),
    ren: spec_fn(Seq<char>, i64) -> i64,
    endpoint: Seq<char>,
    sk: Option<Seq<char>>,
    ak: Option<Seq<char>>,
) -> bool {
    if x.0 == "id"@ {
        x.0 == y.0 && renamed(x.1, y.1, ren, endpoint)
    } else {
        entry_renamed(x, y, ren, sk, ak)
    }
}

/// Entry lookups agree on entry lists with the same keys.
pub(crate) proof fn lemma_same_index(a: Seq<(Seq<char>, JVal)>, b: Seq<(Seq<char>, JVal)>, k: Seq<char>)
    requires
        a.len() == b.len(),
        forall|i: int| 0 <= i < a.len() ==> (#[trigger] a[i]).0 == b[i].0,
    ensures
        first_match(a, key_is(k)) == first_match(b, key_is(k)),
        match first_match(a, key_is(k)) {
            Some(m) => 0 <= m < a.len() && a[m].0 == k && entry_of(a, k) == Some(a[m].1) && entry_of(b, k) == Some(
                b[m].1,
            ),
            None => entry_of(a, k) is None && entry_of(b, k) is None,
        },
{
    assert forall|i: int| 0 <= i < a.len() implies key_is(k)(a[i]) == key_is(k)(b[i]) by {
        assert(a[i].0 == b[i].0);
    }
    lemma_first_match_same(a, key_is(k), b, key_is(k));
    lemma_first_match(a, key_is(k));
}

/// Dropping the id and volatile keys leaves the other entries renumbered.
proof fn lemma_drop_renamed(
    a: Seq<(Seq<char>, JVal)>,
    b: Seq<(Seq<char>, JVal)>,
    ren: spec_fn(Seq<char>, i64) -> i64,
    endpoint: Seq<char>,
    sk: Option<Seq<char>>,
    ak: Option<Seq<char>>,
)
    requires
        a.len() == b.len(),
        forall|i: int| 0 <= i < a.len() ==> raw_renamed(#[trigger] a[i], b[i], ren, endpoint, sk, ak),
    ensures
        entries_renamed(drop_keys(a), drop_keys(b), ren, sk, ak),
    decreases a.len(),
{
    if a.len() > 0 {
        assert forall|i: int| 0 <= i < a.drop_last().len() implies raw_renamed(
            #[trigger] a.drop_last()[i],
            b.drop_last()[i],
            ren,
            endpoint,
            sk,
            ak,
        ) by {
            assert(a.drop_last()[i] == a[i] && b.drop_last()[i] == b[i]);
        }
        lemma_drop_renamed(a.drop_last(), b.drop_last(), ren, endpoint, sk, ak);
        assert(raw_renamed(a.last(), b.last(), ren, endpoint, sk, ak));
        let da = drop_keys(a.drop_last());
        let db = drop_keys(b.drop_last());
        if !dropped_key(a.last().0) {
            assert forall|i: int| 0 <= i < da.len() + 1 implies entry_renamed(
                #[trigger] da.push(a.last())[i],
                db.push(b.last())[i],
                ren,
                sk,
                ak,
            ) by {
                if i < da.len() {
                    assert(da.push(a.last())[i] == da[i] && db.push(b.last())[i] == db[i]);
                }
            }
        }
    }
}

/// Dropping keys keeps the value of any key it does not drop.
proof fn lemma_drop_entry(a: Seq<(Seq<char>, JVal)>, k: Seq<char>)
    requires
        !dropped_key(k),
    ensures
        entry_of(drop_keys(a), k) == entry_of(a, k),
    decreases a.len(),
{
    if a.len() > 0 {
        let pre = a.drop_last();
        let x = a.last();
        lemma_drop_entry(pre, k);
        assert(a =~= pre.push(x));
        lemma_first_match_push(pre, x, key_is(k));
        lemma_first_match(pre, key_is(k));
        let d = drop_keys(pre);
        lemma_first_match(d, key_is(k));
        match first_match(pre, key_is(k)) {
            Some(i) => {
                assert(a[i] == pre[i]);
            },
            None => {},
        }
        if !dropped_key(x.0) {
            lemma_first_match_push(d, x, key_is(k));
            match first_match(d, key_is(k)) {
                Some(i) => {
                    assert(d.push(x)[i] == d[i]);
                },
                None => {
                    assert(d.push(x)[d.len() as int] == x);
                },
            }
        }
    }
}

/// How many entries hold a key.
pub open spec fn count_key(a: Seq<(Seq<char>, JVal)>, k: Seq<char>) -> nat
    decreases a.len(),
{
    if a.len() == 0 {
        0
    } else {
        count_key(a.drop_last(), k) + if a.last().0 == k {
            1nat
        } else {
            0nat
        }
    }
}

proof fn lemma_count_drop(a: Seq<(Seq<char>, JVal)>, k: Seq<char>)
    ensures
        count_key(drop_keys(a), k) <= count_key(a, k),
    decreases a.len(),
{
    if a.len() > 0 {
        lemma_count_drop(a.drop_last(), k);
        let d = drop_keys(a.drop_last());
        if !dropped_key(a.last().0) {
            assert(d.push(a.last()).drop_last() =~= d);
        }
    }
}

proof fn lemma_count_same_keys(a: Seq<(Seq<char>, JVal)>, b: Seq<(Seq<char>, JVal)>, k: Seq<char>)
    requires
        a.len() == b.len(),
        forall|i: int| 0 <= i < a.len() ==> (#[trigger] a[i]).0 == b[i].0,
    ensures
        count_key(a, k) == count_key(b, k),
    decreases a.len(),
{
    if a.len() > 0 {
        assert forall|i: int| 0 <= i < a.drop_last().len() implies (#[trigger] a.drop_last()[i]).0 == b.drop_last()[i].0 by {
            assert(a.drop_last()[i] == a[i] && b.drop_last()[i] == b[i]);
        }
        lemma_count_same_keys(a.drop_last(), b.drop_last(), k);
        assert(a.last().0 == b.last().0);
    }
}

proof fn lemma_count_one(a: Seq<(Seq<char>, JVal)>, k: Seq<char>, i: int)
    requires
        0 <= i < a.len(),
        a[i].0 == k,
    ensures
        count_key(a, k) >= 1,
    decreases a.len(),
{
    if i < a.len() - 1 {
        assert(a.drop_last()[i] == a[i]);
        lemma_count_one(a.drop_last(), k, i);
    }
}

/// With at most one entry of a key, any entry of it is the first.
proof fn lemma_count_first(a: Seq<(Seq<char>, JVal)>, k: Seq<char>, i: int)
    requires
        0 <= i < a.len(),
        a[i].0 == k,
        count_key(a, k) <= 1,
    ensures
        first_match(a, key_is(k)) == Some(i),
    decreases a.len(),
{
    lemma_first_match(a, key_is(k));
    if i == a.len() - 1 {
        assert forall|j: int| 0 <= j < i implies !key_is(k)(a[j]) by {
            if a[j].0 == k {
                assert(a.drop_last()[j] == a[j]);
                lemma_count_one(a.drop_last(), k, j);
            }
        }
        lemma_first_match_at(a, key_is(k), i);
    } else {
        assert(a.drop_last()[i] == a[i]);
        assert(count_key(a.drop_last(), k) <= 1);
        lemma_count_first(a.drop_last(), k, i);
        lemma_first_match(a.drop_last(), key_is(k));
        assert forall|j: int| 0 <= j < i implies !key_is(k)(a[j]) by {
            assert(a.drop_last()[j] == a[j]);
        }
        lemma_first_match_at(a, key_is(k), i);
    }
}

/// The keys the id resolution reads: the scope and assignment references
/// and their types.
pub open spec fn special_key(k: Seq<char>) -> bool {
    k == "scope_id"@ || k == "assigned_object_id"@ || k == "scope_type"@ || k == "assigned_object_type"@
}

/// The key facts the collapsed reference fields rely on: none of them is
/// a renumbered reference or its type, and none of their natural keys is
/// removed with the ids.
pub open spec fn plain_ref(r: (Seq<char>, Seq<char>)) -> bool {
    &&& r.0 != "scope_id"@
    &&& r.0 != "assigned_object_id"@
    &&& r.0 != "scope_type"@
    &&& r.0 != "assigned_object_type"@
    &&& !nested_dropped_key(r.1)
}

proof fn lemma_ref_fields(i: int)
    requires
        0 <= i < 13,
    ensures
        plain_ref(ref_natural_keys()[i]),
{
    reveal_strlit("address");
    reveal_strlit("assigned_object_id");
    reveal_strlit("assigned_object_type");
    reveal_strlit("choice_set");
    reveal_strlit("cluster");
    reveal_strlit("created");
    reveal_strlit("device");
    reveal_strlit("device_type");
    reveal_strlit("display");
    reveal_strlit("id");
    reveal_strlit("last_updated");
    reveal_strlit("manufacturer");
    reveal_strlit("name");
    reveal_strlit("oob_ip");
    reveal_strlit("primary_ip4");
    reveal_strlit("primary_ip6");
    reveal_strlit("role");
    reveal_strlit("scope_id");
    reveal_strlit("scope_type");
    reveal_strlit("site");
    reveal_strlit("slug");
    reveal_strlit("status");
    reveal_strlit("type");
    reveal_strlit("url");
    reveal_strlit("value");
    reveal_strlit("virtual_machine");
    assert("address"@.len() == 7);
    assert("assigned_object_id"@.len() == 18);
    assert("assigned_object_type"@.len() == 20);
    assert("choice_set"@.len() == 10);
    assert("cluster"@.len() == 7);
    assert("created"@.len() == 7);
    assert("device"@.len() == 6);
    assert("device_type"@.len() == 11);
    assert("display"@.len() == 7);
    assert("id"@.len() == 2);
    assert("last_updated"@.len() == 12);
    assert("manufacturer"@.len() == 12);
    assert("name"@.len() == 4);
    assert("oob_ip"@.len() == 6);
    assert("primary_ip4"@.len() == 11);
    assert("primary_ip6"@.len() == 11);
    assert("role"@.len() == 4);
    assert("scope_id"@.len() == 8);
    assert("scope_type"@.len() == 10);
    assert("site"@.len() == 4);
    assert("slug"@.len() == 4);
    assert("status"@.len() == 6);
    assert("type"@.len() == 4);
    assert("url"@.len() == 3);
    assert("value"@.len() == 5);
    assert("virtual_machine"@.len() == 15);
    assert("choice_set"@[0] == 'c');
    assert("scope_type"@[0] == 's');
    assert("address"@[0] == 'a');
    assert("display"@[0] == 'd');
    assert("created"@[0] == 'c');
    if i == 0 {
        assert(ref_natural_keys()[i] == ("manufacturer"@, "slug"@));
    } else if i == 1 {
        assert(ref_natural_keys()[i] == ("device_type"@, "slug"@));
    } else if i == 2 {
        assert(ref_natural_keys()[i] == ("role"@, "slug"@));
    } else if i == 3 {
        assert(ref_natural_keys()[i] == ("site"@, "slug"@));
    } else if i == 4 {
        assert(ref_natural_keys()[i] == ("cluster"@, "name"@));
    } else if i == 5 {
        assert(ref_natural_keys()[i] == ("type"@, "slug"@));
    } else if i == 6 {
        assert(ref_natural_keys()[i] == ("device"@, "name"@));
    } else if i == 7 {
        assert(ref_natural_keys()[i] == ("virtual_machine"@, "name"@));
    } else if i == 8 {
        assert(ref_natural_keys()[i] == ("choice_set"@, "name"@));
    } else if i == 9 {
        assert(ref_natural_keys()[i] == ("primary_ip4"@, "address"@));
    } else if i == 10 {
        assert(ref_natural_keys()[i] == ("primary_ip6"@, "address"@));
    } else if i == 11 {
        assert(ref_natural_keys()[i] == ("oob_ip"@, "address"@));
    } else if i == 12 {
        assert(ref_natural_keys()[i] == ("status"@, "value"@));
    }
}

/// The entries of a list whose keys match another's, equal to it at every
/// entry of key `k`, give the same value for `k`.
proof fn lemma_entry_kept(a: Seq<(Seq<char>, JVal)>, c: Seq<(Seq<char>, JVal)>, k: Seq<char>)
    requires
        a.len() == c.len(),
        forall|i: int| 0 <= i < a.len() ==> (#[trigger] a[i]).0 == c[i].0,
        forall|i: int| 0 <= i < a.len() && (#[trigger] a[i]).0 == k ==> c[i] == a[i],
    ensures
        entry_of(c, k) == entry_of(a, k),
{
    lemma_same_index(a, c, k);
}

/// Collapsing one reference field keeps the lists renumbered, their keys,
/// and every other entry.
proof fn lemma_collapse_ref(
    a: Seq<(Seq<char>, JVal)>,
    b: Seq<(Seq<char>, JVal)>,
    ren: spec_fn(Seq<char>, i64) -> i64,
    sk: Option<Seq<char>>,
    ak: Option<Seq<char>>,
    f: Seq<char>,
    nk: Seq<char>,
)
    requires
        entries_renamed(a, b, ren, sk, ak),
        plain_ref((f, nk)),
    ensures
        entries_renamed(collapse_ref(a, f, nk), collapse_ref(b, f, nk), ren, sk, ak),
        collapse_ref(a, f, nk).len() == a.len(),
        forall|i: int|
            0 <= i < a.len() ==> (#[trigger] collapse_ref(a, f, nk)[i]).0 == a[i].0 && (a[i].0 != f
                ==> collapse_ref(a, f, nk)[i] == a[i]),
{
    assert forall|i: int| 0 <= i < a.len() implies (#[trigger] a[i]).0 == b[i].0 by {
        assert(entry_renamed(a[i], b[i], ren, sk, ak));
    }
    lemma_same_index(a, b, f);
    lemma_first_match(a, key_is(f));
    match first_match(a, key_is(f)) {
        Some(m) => {
            assert(entry_renamed(a[m], b[m], ren, sk, ak));
            assert(alike(a[m].1, b[m].1));
            lemma_alike(a[m].1, b[m].1);
            match (a[m].1, b[m].1) {
                (JVal::Object(x), JVal::Object(y)) => {
                    lemma_entry_no_ids(x, nk);
                    lemma_entry_no_ids(y, nk);
                    let va = match entry_of(x, nk) {
                        Some(v) => v,
                        None => JVal::Null,
                    };
                    let vb = match entry_of(y, nk) {
                        Some(v) => v,
                        None => JVal::Null,
                    };
                    assert(alike(va, vb));
                    assert forall|j: int| 0 <= j < m implies a[j].0 != f by {
                        assert(!key_is(f)(a[j]));
                    }
                    assert forall|j: int| 0 <= j < m implies b[j].0 != f by {
                        assert(a[j].0 == b[j].0);
                    }
                    lemma_set_found(a, f, va, m);
                    lemma_set_found(b, f, vb, m);
                    let ca = a.update(m, (f, va));
                    let cb = b.update(m, (f, vb));
                    assert forall|i: int| 0 <= i < ca.len() implies entry_renamed(#[trigger] ca[i], cb[i], ren, sk, ak) by {
                        if i != m {
                            assert(ca[i] == a[i] && cb[i] == b[i]);
                        }
                    }
                },
                _ => {},
            }
        },
        None => {},
    }
}

/// Collapsing the reference fields keeps the lists renumbered, their keys,
/// and every entry that is not a reference field.
proof fn lemma_collapse_refs(
    a: Seq<(Seq<char>, JVal)>,
    b: Seq<(Seq<char>, JVal)>,
    ren: spec_fn(Seq<char>, i64) -> i64,
    sk: Option<Seq<char>>,
    ak: Option<Seq<char>>,
    n: nat,
)
    requires
        entries_renamed(a, b, ren, sk, ak),
        n <= 13,
    ensures
        entries_renamed(collapse_refs(a, n), collapse_refs(b, n), ren, sk, ak),
        collapse_refs(a, n).len() == a.len(),
        forall|i: int|
            0 <= i < a.len() ==> (#[trigger] collapse_refs(a, n)[i]).0 == a[i].0 && (special_key(a[i].0)
                ==> collapse_refs(a, n)[i] == a[i]),
    decreases n,
{
    if n > 0 {
        lemma_collapse_refs(a, b, ren, sk, ak, (n - 1) as nat);
        let r = ref_natural_keys()[n - 1];
        lemma_ref_fields(n - 1);
        let c = collapse_refs(a, (n - 1) as nat);
        lemma_collapse_ref(c, collapse_refs(b, (n - 1) as nat), ren, sk, ak, r.0, r.1);
        assert forall|i: int| 0 <= i < a.len() implies (#[trigger] collapse_refs(a, n)[i]).0 == a[i].0 && (special_key(
            a[i].0,
        ) ==> collapse_refs(a, n)[i] == a[i]) by {
            assert(collapse_refs(a, n) == collapse_ref(c, r.0, r.1));
            assert(c[i].0 == a[i].0);
            if special_key(a[i].0) {
                assert(c[i] == a[i]);
            }
        }
    }
}

/// Removing a key keeps the lists renumbered; the removed key's
/// renumbering is no longer needed.
proof fn lemma_without_renamed(
    a: Seq<(Seq<char>, JVal)>,
    b: Seq<(Seq<char>, JVal)>,
    ren: spec_fn(Seq<char>, i64) -> i64,
    sk: Option<Seq<char>>,
    ak: Option<Seq<char>>,
    k: Seq<char>,
)
    requires
        entries_renamed(a, b, ren, sk, ak),
    ensures
        entries_renamed(
            without(a, k),
            without(b, k),
            ren,
            if k == "scope_id"@ {
                None
            } else {
                sk
            },
            if k == "assigned_object_id"@ {
                None
            } else {
                ak
            },
        ),
    decreases a.len(),
{
    if a.len() > 0 {
        assert forall|i: int| 0 <= i < a.drop_last().len() implies entry_renamed(
            #[trigger] a.drop_last()[i],
            b.drop_last()[i],
            ren,
            sk,
            ak,
        ) by {
            assert(a.drop_last()[i] == a[i] && b.drop_last()[i] == b[i]);
        }
        lemma_without_renamed(a.drop_last(), b.drop_last(), ren, sk, ak, k);
        assert(entry_renamed(a.last(), b.last(), ren, sk, ak));
        let sk2 = if k == "scope_id"@ {
            None
        } else {
            sk
        };
        let ak2 = if k == "assigned_object_id"@ {
            None
        } else {
            ak
        };
        let wa = without(a.drop_last(), k);
        let wb = without(b.drop_last(), k);
        if a.last().0 != k {
            assert forall|i: int| 0 <= i < wa.len() + 1 implies entry_renamed(
                #[trigger] wa.push(a.last())[i],
                wb.push(b.last())[i],
                ren,
                sk2,
                ak2,
            ) by {
                if i < wa.len() {
                    assert(wa.push(a.last())[i] == wa[i] && wb.push(b.last())[i] == wb[i]);
                }
            }
        }
    }
}

/// Removing a key keeps the value of any other.
proof fn lemma_without_entry(a: Seq<(Seq<char>, JVal)>, k: Seq<char>, k2: Seq<char>)
    requires
        k2 != k,
    ensures
        entry_of(without(a, k), k2) == entry_of(a, k2),
    decreases a.len(),
{
    if a.len() > 0 {
        let pre = a.drop_last();
        let x = a.last();
        lemma_without_entry(pre, k, k2);
        assert(a =~= pre.push(x));
        lemma_first_match_push(pre, x, key_is(k2));
        lemma_first_match(pre, key_is(k2));
        let d = without(pre, k);
        lemma_first_match(d, key_is(k2));
        match first_match(pre, key_is(k2)) {
            Some(i) => {
                assert(a[i] == pre[i]);
            },
            None => {},
        }
        if x.0 != k {
            lemma_first_match_push(d, x, key_is(k2));
            match first_match(d, key_is(k2)) {
                Some(i) => {
                    assert(d.push(x)[i] == d[i]);
                },
                None => {
                    assert(d.push(x)[d.len() as int] == x);
                },
            }
        }
    }
}

/// An entry list's lookup through its first entry.
proof fn lemma_entry_cons(e: (Seq<char>, JVal), rest: Seq<(Seq<char>, JVal)>, k: Seq<char>)
    ensures
        entry_of(seq![e] + rest, k) == if e.0 == k {
            Some(e.1)
        } else {
            entry_of(rest, k)
        },
{
    let s = seq![e] + rest;
    assert(s[0] == e);
    assert(s.drop_first() =~= rest);
    lemma_first_match(rest, key_is(k));
    match first_match(rest, key_is(k)) {
        Some(i) => {
            assert(s[i + 1] == rest[i]);
        },
        None => {},
    }
}

/// Setting a key keeps the value of any other.
proof fn lemma_set_entry_of(a: Seq<(Seq<char>, JVal)>, k: Seq<char>, v: JVal, k2: Seq<char>)
    requires
        k2 != k,
    ensures
        entry_of(set_entry(a, k, v), k2) == entry_of(a, k2),
    decreases a.len(),
{
    if a.len() == 0 {
        lemma_entry_cons((k, v), seq![], k2);
        assert(seq![(k, v)] + Seq::<(Seq<char>, JVal)>::empty() =~= seq![(k, v)]);
    } else {
        assert(a =~= seq![a[0]] + a.drop_first());
        lemma_entry_cons(a[0], a.drop_first(), k2);
        if a[0].0 == k {
            lemma_entry_cons((k, v), a.drop_first(), k2);
        } else if text_lt(k, a[0].0) && !has_key(a, k) {
            lemma_entry_cons((k, v), a, k2);
        } else {
            lemma_set_entry_of(a.drop_first(), k, v, k2);
            lemma_entry_cons(a[0], set_entry(a.drop_first(), k, v), k2);
        }
    }
}

/// Setting a key that is not a renumbered reference, to the same value in
/// both lists, keeps them renumbered.
proof fn lemma_set_renamed(
    a: Seq<(Seq<char>, JVal)>,
    b: Seq<(Seq<char>, JVal)>,
    ren: spec_fn(Seq<char>, i64) -> i64,
    sk: Option<Seq<char>>,
    ak: Option<Seq<char>>,
    k: Seq<char>,
    v: JVal,
)
    requires
        entries_renamed(a, b, ren, sk, ak),
        k != "scope_id"@,
        k != "assigned_object_id"@,
    ensures
        entries_renamed(set_entry(a, k, v), set_entry(b, k, v), ren, sk, ak),
    decreases a.len(),
{
    if a.len() > 0 {
        assert(entry_renamed(a[0], b[0], ren, sk, ak));
        assert(has_key(a, k) == has_key(b, k)) by {
            if has_key(a, k) {
                let i = choose|i: int| 0 <= i < a.len() && #[trigger] a[i].0 == k;
                assert(entry_renamed(a[i], b[i], ren, sk, ak));
                assert(b[i].0 == k);
            }
            if has_key(b, k) {
                let i = choose|i: int| 0 <= i < b.len() && #[trigger] b[i].0 == k;
                assert(entry_renamed(a[i], b[i], ren, sk, ak));
                assert(a[i].0 == k);
            }
        }
        let e = (k, v);
        if a[0].0 == k {
            let ra = seq![e] + a.drop_first();
            let rb = seq![e] + b.drop_first();
            assert forall|i: int| 0 <= i < ra.len() implies entry_renamed(#[trigger] ra[i], rb[i], ren, sk, ak) by {
                if i > 0 {
                    assert(ra[i] == a[i] && rb[i] == b[i]);
                }
            }
        } else if text_lt(k, a[0].0) && !has_key(a, k) {
            let ra = seq![e] + a;
            let rb = seq![e] + b;
            assert forall|i: int| 0 <= i < ra.len() implies entry_renamed(#[trigger] ra[i], rb[i], ren, sk, ak) by {
                if i > 0 {
                    assert(ra[i] == a[i - 1] && rb[i] == b[i - 1]);
                }
            }
        } else {
            assert forall|i: int| 0 <= i < a.drop_first().len() implies entry_renamed(
                #[trigger] a.drop_first()[i],
                b.drop_first()[i],
                ren,
                sk,
                ak,
            ) by {
                assert(a.drop_first()[i] == a[i + 1] && b.drop_first()[i] == b[i + 1]);
            }
            lemma_set_renamed(a.drop_first(), b.drop_first(), ren, sk, ak, k, v);
            let sa = set_entry(a.drop_first(), k, v);
            let sb = set_entry(b.drop_first(), k, v);
            let ra = seq![a[0]] + sa;
            let rb = seq![b[0]] + sb;
            assert forall|i: int| 0 <= i < ra.len() implies entry_renamed(#[trigger] ra[i], rb[i], ren, sk, ak) by {
                if i > 0 {
                    assert(ra[i] == sa[i - 1] && rb[i] == sb[i - 1]);
                }
            }
        }
    } else {
        let r = seq![(k, v)];
        assert(entry_renamed(r[0], r[0], ren, sk, ak));
    }
}

/// Lists renumbered with no reference left to renumber give the same
/// values once nested ids are removed.
proof fn lemma_values_no_ids(a: Seq<(Seq<char>, JVal)>, b: Seq<(Seq<char>, JVal)>, ren: spec_fn(Seq<char>, i64) -> i64)
    requires
        entries_renamed(a, b, ren, None, None),
    ensures
        values_no_ids(a) == values_no_ids(b),
    decreases a.len(),
{
    if a.len() > 0 {
        assert forall|i: int| 0 <= i < a.drop_last().len() implies entry_renamed(
            #[trigger] a.drop_last()[i],
            b.drop_last()[i],
            ren,
            None,
            None,
        ) by {
            assert(a.drop_last()[i] == a[i] && b.drop_last()[i] == b[i]);
        }
        lemma_values_no_ids(a.drop_last(), b.drop_last(), ren);
        assert(entry_renamed(a.last(), b.last(), ren, None, None));
    }
}

/// The kind an object's scope reference is renumbered by, read from its
/// `scope_type`.
pub open spec fn scope_of(es: Seq<(Seq<char>, JVal)>) -> Option<Seq<char>> {
    match jstr(entry_of(es, "scope_type"@)) {
        Some(t) => Some(scope_kind(t)),
        None => None,
    }
}

/// The kind an IP's assignment reference is renumbered by, read from its
/// `assigned_object_type`; other objects' assignment references are kept.
pub open spec fn assigned_of(endpoint: Seq<char>, es: Seq<(Seq<char>, JVal)>) -> Option<Seq<char>> {
    if endpoint == "ipam.ip-addresses"@ {
        match jstr(entry_of(es, "assigned_object_type"@)) {
            Some(t) => Some(assigned_kind(t)),
            None => None,
        }
    } else {
        None
    }
}

/// An escrow object of an endpoint with its ids renumbered by `ren`: the
/// same keys in the same order, holding `scope_id` at most once; its own
/// `id` renumbered among the endpoint's objects; a `scope_id` with a
/// `scope_type` renumbered among the objects of that type, and an IP's
/// `assigned_object_id` with an `assigned_object_type` among the
/// interfaces of that type; every other value equal but for the ids and
/// volatile keys nested in it.
pub open spec fn object_renumbered(endpoint: Seq<char>, o: JVal, o2: JVal, ren: spec_fn(Seq<char>, i64) -> i64) -> bool {
    match o {
        JVal::Object(a) => match o2 {
            JVal::Object(b) => {
                &&& a.len() == b.len()
                &&& count_key(a, "scope_id"@) <= 1
                &&& forall|i: int|
                    0 <= i < a.len() ==> raw_renamed(
                        #[trigger] a[i],
                        b[i],
                        ren,
                        endpoint,
                        scope_of(a),
                        assigned_of(endpoint, a),
                    )
            },
            _ => false,
        },
        _ => !(o2 is Object),
    }
}

/// An endpoint's objects renumbered one for one.
pub open spec fn list_renumbered(endpoint: Seq<char>, x: Seq<JVal>, y: Seq<JVal>, ren: spec_fn(Seq<char>, i64) -> i64) -> bool {
    &&& x.len() == y.len()
    &&& forall|j: int| 0 <= j < x.len() ==> object_renumbered(endpoint, #[trigger] x[j], y[j], ren)
}

/// An escrow document renumbered: the same endpoints in the same order,
/// each listing its objects renumbered one for one.
pub open spec fn escrow_renumbered(escrow: JVal, escrow2: JVal, ren: spec_fn(Seq<char>, i64) -> i64) -> bool {
    match escrow {
        JVal::Object(a) => match escrow2 {
            JVal::Object(b) => {
                &&& a.len() == b.len()
                &&& forall|i: int|
                    0 <= i < a.len() ==> (#[trigger] a[i]).0 == b[i].0 && match a[i].1 {
                        JVal::Array(x) => match b[i].1 {
                            JVal::Array(y) => list_renumbered(a[i].0, x, y, ren),
                            _ => false,
                        },
                        _ => !(b[i].1 is Array),
                    }
            },
            _ => false,
        },
        _ => !(escrow2 is Object),
    }
}

/// A renumbering gives distinct objects of a kind distinct ids.
pub open spec fn injective(ren: spec_fn(Seq<char>, i64) -> i64) -> bool {
    forall|e: Seq<char>, i: i64, j: i64| #[trigger] ren(e, i) == #[trigger] ren(e, j) ==> i == j
}

/// An endpoint's objects in renumbered escrows are renumbered one for one.
proof fn lemma_arrays(escrow: JVal, escrow2: JVal, ren: spec_fn(Seq<char>, i64) -> i64, k: Seq<char>)
    requires
        escrow_renumbered(escrow, escrow2, ren),
    ensures
        list_renumbered(k, array_of(escrow, k), array_of(escrow2, k), ren),
{
    match (escrow, escrow2) {
        (JVal::Object(a), JVal::Object(b)) => {
            assert forall|i: int| 0 <= i < a.len() implies (#[trigger] a[i]).0 == b[i].0 by {}
            lemma_same_index(a, b, k);
        },
        _ => {},
    }
}

/// A member of renumbered objects other than the id and the renumbered
/// references is alike in both.
proof fn lemma_member(endpoint: Seq<char>, o: JVal, o2: JVal, ren: spec_fn(Seq<char>, i64) -> i64, k: Seq<char>)
    requires
        object_renumbered(endpoint, o, o2, ren),
        k != "id"@,
        k != "scope_id"@,
        k != "assigned_object_id"@,
    ensures
        match (jget(o, k), jget(o2, k)) {
            (Some(x), Some(y)) => alike(x, y),
            (None, None) => true,
            _ => false,
        },
{
    match (o, o2) {
        (JVal::Object(a), JVal::Object(b)) => {
            assert forall|i: int| 0 <= i < a.len() implies (#[trigger] a[i]).0 == b[i].0 by {
                assert(raw_renamed(a[i], b[i], ren, endpoint, scope_of(a), assigned_of(endpoint, a)));
            }
            lemma_same_index(a, b, k);
            match first_match(a, key_is(k)) {
                Some(m) => {
                    assert(raw_renamed(a[m], b[m], ren, endpoint, scope_of(a), assigned_of(endpoint, a)));
                },
                None => {},
            }
        },
        _ => {},
    }
}

/// The id of renumbered objects: renumbered when it is an integer.
proof fn lemma_member_id(endpoint: Seq<char>, o: JVal, o2: JVal, ren: spec_fn(Seq<char>, i64) -> i64)
    requires
        object_renumbered(endpoint, o, o2, ren),
    ensures
        match jint(jget(o, "id"@)) {
            Some(i) => jint(jget(o2, "id"@)) == Some(ren(endpoint, i)),
            None => jint(jget(o2, "id"@)) is None,
        },
{
    match (o, o2) {
        (JVal::Object(a), JVal::Object(b)) => {
            assert forall|i: int| 0 <= i < a.len() implies (#[trigger] a[i]).0 == b[i].0 by {
                assert(raw_renamed(a[i], b[i], ren, endpoint, scope_of(a), assigned_of(endpoint, a)));
            }
            lemma_same_index(a, b, "id"@);
            match first_match(a, key_is("id"@)) {
                Some(m) => {
                    assert(raw_renamed(a[m], b[m], ren, endpoint, scope_of(a), assigned_of(endpoint, a)));
                    if jint(Some(a[m].1)) is None {
                        lemma_alike(a[m].1, b[m].1);
                    }
                },
                None => {},
            }
        },
        _ => {},
    }
}

/// A site looked up by its old id in an escrow is the site looked up by its
/// new id in the renumbered escrow.
proof fn lemma_scope_key(escrow: JVal, escrow2: JVal, ren: spec_fn(Seq<char>, i64) -> i64, t: Seq<char>, id: i64)
    requires
        escrow_renumbered(escrow, escrow2, ren),
        injective(ren),
    ensures
        scope_key(escrow, t, id) == scope_key(escrow2, t, ren(scope_kind(t), id)),
{
    reveal_strlit("slug");
    reveal_strlit("id");
    reveal_strlit("scope_id");
    reveal_strlit("assigned_object_id");
    assert("slug"@.len() == 4 && "id"@.len() == 2 && "scope_id"@.len() == 8 && "assigned_object_id"@.len() == 18);
    if t == "dcim.site"@ {
        let k = "dcim.sites"@;
        let sites = array_of(escrow, k);
        let sites2 = array_of(escrow2, k);
        lemma_arrays(escrow, escrow2, ren, k);
        let nid = ren(scope_kind(t), id);
        assert(scope_kind(t) == k);
        assert forall|j: int| 0 <= j < sites.len() implies site_is(id)(sites[j]) == site_is(nid)(sites2[j]) by {
            assert(object_renumbered(k, sites[j], sites2[j], ren));
            lemma_member_id(k, sites[j], sites2[j], ren);
            lemma_member(k, sites[j], sites2[j], ren, "slug"@);
            match (jget(sites[j], "slug"@), jget(sites2[j], "slug"@)) {
                (Some(x), Some(y)) => lemma_alike(x, y),
                _ => {},
            }
            match jint(jget(sites[j], "id"@)) {
                Some(i) => {
                    if ren(k, i) == ren(k, id) {
                        assert(i == id);
                    }
                },
                None => {},
            }
        }
        lemma_last_match_same(sites, site_is(id), sites2, site_is(nid));
        lemma_last_match_char(sites, site_is(id));
        match last_match(sites, site_is(id)) {
            Some(m) => {
                assert(object_renumbered(k, sites[m], sites2[m], ren));
                lemma_member(k, sites[m], sites2[m], ren, "slug"@);
                match (jget(sites[m], "slug"@), jget(sites2[m], "slug"@)) {
                    (Some(x), Some(y)) => lemma_alike(x, y),
                    _ => {},
                }
            },
            None => {},
        }
    }
}

/// An interface looked up by its old id in an escrow has the same natural
/// key as the interface looked up by its new id in the renumbered escrow.
proof fn lemma_iface_key_in(
    escrow: JVal,
    escrow2: JVal,
    ren: spec_fn(Seq<char>, i64) -> i64,
    arr: Seq<char>,
    parent: Seq<char>,
    id: i64,
)
    requires
        escrow_renumbered(escrow, escrow2, ren),
        injective(ren),
        parent == "device"@ || parent == "virtual_machine"@,
    ensures
        iface_key_in(escrow, arr, parent, id) == iface_key_in(escrow2, arr, parent, ren(arr, id)),
{
    reveal_strlit("name");
    reveal_strlit("id");
    reveal_strlit("scope_id");
    reveal_strlit("assigned_object_id");
    reveal_strlit("device");
    reveal_strlit("virtual_machine");
    reveal_strlit("url");
    reveal_strlit("display");
    reveal_strlit("created");
    reveal_strlit("last_updated");
    assert("name"@.len() == 4 && "id"@.len() == 2 && "scope_id"@.len() == 8 && "assigned_object_id"@.len() == 18);
    assert("device"@.len() == 6 && "virtual_machine"@.len() == 15 && "url"@.len() == 3 && "display"@.len() == 7);
    assert("created"@.len() == 7 && "last_updated"@.len() == 12);
    assert(!nested_dropped_key("name"@));
    let fs = array_of(escrow, arr);
    let fs2 = array_of(escrow2, arr);
    lemma_arrays(escrow, escrow2, ren, arr);
    let nid = ren(arr, id);
    assert forall|j: int| 0 <= j < fs.len() implies iface_is(parent, id)(fs[j]) == iface_is(parent, nid)(fs2[j]) && (
    iface_is(parent, id)(fs[j]) ==> jstr(jget_opt(jget(fs[j], parent), "name"@)) == jstr(
        jget_opt(jget(fs2[j], parent), "name"@),
    ) && jstr(jget(fs[j], "name"@)) == jstr(jget(fs2[j], "name"@))) by {
        assert(object_renumbered(arr, fs[j], fs2[j], ren));
        lemma_member_id(arr, fs[j], fs2[j], ren);
        lemma_member(arr, fs[j], fs2[j], ren, "name"@);
        lemma_member(arr, fs[j], fs2[j], ren, parent);
        match (jget(fs[j], "name"@), jget(fs2[j], "name"@)) {
            (Some(x), Some(y)) => lemma_alike(x, y),
            _ => {},
        }
        match (jget(fs[j], parent), jget(fs2[j], parent)) {
            (Some(x), Some(y)) => {
                lemma_alike_member(x, y, "name"@);
                match (jget(x, "name"@), jget(y, "name"@)) {
                    (Some(p), Some(q)) => lemma_alike(p, q),
                    _ => {},
                }
            },
            _ => {},
        }
        match jint(jget(fs[j], "id"@)) {
            Some(i) => {
                if ren(arr, i) == ren(arr, id) {
                    assert(i == id);
                }
            },
            None => {},
        }
    }
    lemma_last_match_same(fs, iface_is(parent, id), fs2, iface_is(parent, nid));
    lemma_last_match_char(fs, iface_is(parent, id));
}

/// An IP's interface looked up by its old id resolves to the same natural
/// key as by its new id in the renumbered escrow.
proof fn lemma_iface_key(escrow: JVal, escrow2: JVal, ren: spec_fn(Seq<char>, i64) -> i64, t: Seq<char>, id: i64)
    requires
        escrow_renumbered(escrow, escrow2, ren),
        injective(ren),
    ensures
        iface_key(escrow, t, id) == iface_key(escrow2, t, ren(assigned_kind(t), id)),
{
    reveal_strlit("dcim.interface");
    reveal_strlit("virtualization.vminterface");
    assert("dcim.interface"@.len() == 14 && "virtualization.vminterface"@.len() == 26);
    if t == "dcim.interface"@ {
        lemma_iface_key_in(escrow, escrow2, ren, "dcim.interfaces"@, "device"@, id);
    } else if t == "virtualization.vminterface"@ {
        lemma_iface_key_in(escrow, escrow2, ren, "virtualization.interfaces"@, "virtual_machine"@, id);
    }
}

/// One escrow object's logical form is the same before and after a
/// renumbering.
proof fn lemma_logical_object(
    escrow: JVal,
    escrow2: JVal,
    ren: spec_fn(Seq<char>, i64) -> i64,
    endpoint: Seq<char>,
    o: JVal,
    o2: JVal,
)
    requires
        escrow_renumbered(escrow, escrow2, ren),
        injective(ren),
        object_renumbered(endpoint, o, o2, ren),
    ensures
        logical_object(escrow, endpoint, o) == logical_object(escrow2, endpoint, o2),
{
    reveal_strlit("id");
    reveal_strlit("url");
    reveal_strlit("display");
    reveal_strlit("display_url");
    reveal_strlit("created");
    reveal_strlit("last_updated");
    reveal_strlit("scope_id");
    reveal_strlit("scope_type");
    reveal_strlit("scope");
    reveal_strlit("assigned_object_id");
    reveal_strlit("assigned_object_type");
    reveal_strlit("assigned_object");
    assert("id"@.len() == 2 && "url"@.len() == 3 && "display"@.len() == 7 && "display_url"@.len() == 11);
    assert("created"@.len() == 7 && "last_updated"@.len() == 12 && "scope_id"@.len() == 8 && "scope_type"@.len() == 10);
    assert("scope"@.len() == 5 && "assigned_object_id"@.len() == 18 && "assigned_object_type"@.len() == 20);
    assert("assigned_object"@.len() == 15);
    assert("scope_id"@[6] == 'i' && "scope_type"@[6] == 't');
    assert("display"@[0] == 'd' && "created"@[0] == 'c');
    match (o, o2) {
        (JVal::Object(a), JVal::Object(b)) => {
            let sk = scope_of(a);
            let ak = assigned_of(endpoint, a);
            assert forall|i: int| 0 <= i < a.len() implies raw_renamed(#[trigger] a[i], b[i], ren, endpoint, sk, ak) by {}
            lemma_drop_renamed(a, b, ren, endpoint, sk, ak);
            let d = drop_keys(a);
            let d2 = drop_keys(b);
            lemma_collapse_refs(d, d2, ren, sk, ak, 13);
            let c = collapse_refs(d, 13);
            let c2 = collapse_refs(d2, 13);
            // What the resolution reads is what the object held.
            assert forall|i: int| 0 <= i < d.len() implies (#[trigger] d[i]).0 == c[i].0 by {}
            assert forall|i: int| 0 <= i < c.len() implies (#[trigger] c[i]).0 == c2[i].0 by {
                assert(entry_renamed(c[i], c2[i], ren, sk, ak));
            }
            lemma_entry_kept(d, c, "scope_type"@);
            lemma_entry_kept(d, c, "scope_id"@);
            lemma_entry_kept(d, c, "assigned_object_type"@);
            lemma_drop_entry(a, "scope_type"@);
            lemma_drop_entry(a, "assigned_object_type"@);
            assert(sk == scope_of(c));
            lemma_count_drop(a, "scope_id"@);
            lemma_count_same_keys(d, c, "scope_id"@);
            assert(count_key(c, "scope_id"@) <= 1);
            // The scope.
            lemma_same_index(c, c2, "scope_type"@);
            lemma_same_index(c, c2, "scope_id"@);
            match first_match(c, key_is("scope_type"@)) {
                Some(m) => {
                    assert(entry_renamed(c[m], c2[m], ren, sk, ak));
                    lemma_alike(c[m].1, c2[m].1);
                },
                None => {},
            }
            let st = jstr(entry_of(c, "scope_type"@));
            assert(st == jstr(entry_of(c2, "scope_type"@)));
            let r = resolve_scope(escrow, c);
            let r2 = resolve_scope(escrow2, c2);
            match first_match(c, key_is("scope_id"@)) {
                Some(m) => {
                    assert(entry_renamed(c[m], c2[m], ren, sk, ak));
                    if !(sk is Some && jint(Some(c[m].1)) is Some) {
                        lemma_alike(c[m].1, c2[m].1);
                    }
                },
                None => {},
            }
            match (st, jint(entry_of(c, "scope_id"@))) {
                (Some(t), Some(id)) => {
                    assert(jint(entry_of(c2, "scope_id"@)) == Some(ren(scope_kind(t), id)));
                    lemma_scope_key(escrow, escrow2, ren, t, id);
                    lemma_without_renamed(c, c2, ren, sk, ak, "scope_id"@);
                    let v = str_or_null(scope_key(escrow, t, id));
                    lemma_set_renamed(without(c, "scope_id"@), without(c2, "scope_id"@), ren, None, ak, "scope"@, v);
                    lemma_set_entry_of(without(c, "scope_id"@), "scope"@, v, "assigned_object_type"@);
                    lemma_without_entry(c, "scope_id"@, "assigned_object_type"@);
                },
                _ => {
                    assert(r == c && r2 == c2);
                    assert forall|i: int| 0 <= i < c.len() implies entry_renamed(#[trigger] c[i], c2[i], ren, None, ak) by {
                        assert(entry_renamed(c[i], c2[i], ren, sk, ak));
                        if c[i].0 == "scope_id"@ && sk is Some {
                            lemma_count_first(c, "scope_id"@, i);
                        }
                    }
                },
            }
            assert(entries_renamed(r, r2, ren, None, ak));
            assert(entry_of(r, "assigned_object_type"@) == entry_of(a, "assigned_object_type"@));
            // The assignment.
            if endpoint == "ipam.ip-addresses"@ {
                assert forall|i: int| 0 <= i < r.len() implies (#[trigger] r[i]).0 == r2[i].0 by {
                    assert(entry_renamed(r[i], r2[i], ren, None, ak));
                }
                lemma_same_index(r, r2, "assigned_object_type"@);
                lemma_same_index(r, r2, "assigned_object_id"@);
                match first_match(r, key_is("assigned_object_type"@)) {
                    Some(m) => {
                        assert(entry_renamed(r[m], r2[m], ren, None, ak));
                        lemma_alike(r[m].1, r2[m].1);
                    },
                    None => {},
                }
                match first_match(r, key_is("assigned_object_id"@)) {
                    Some(m) => {
                        assert(entry_renamed(r[m], r2[m], ren, None, ak));
                        if !(ak is Some && jint(Some(r[m].1)) is Some) {
                            lemma_alike(r[m].1, r2[m].1);
                        }
                    },
                    None => {},
                }
                let at = jstr(entry_of(r, "assigned_object_type"@));
                assert(at == jstr(entry_of(r2, "assigned_object_type"@)));
                match (at, jint(entry_of(r, "assigned_object_id"@))) {
                    (Some(t), Some(id)) => {
                        lemma_iface_key(escrow, escrow2, ren, t, id);
                    },
                    _ => {},
                }
                lemma_without_renamed(r, r2, ren, None, ak, "assigned_object_id"@);
                let resolved = match (at, jint(entry_of(r, "assigned_object_id"@))) {
                    (Some(t), Some(id)) => iface_key(escrow, t, id),
                    _ => None,
                };
                assert(resolve_assignment(escrow2, r2) == set_entry(
                    without(r2, "assigned_object_id"@),
                    "assigned_object"@,
                    str_or_null(resolved),
                ));
                lemma_set_renamed(
                    without(r, "assigned_object_id"@),
                    without(r2, "assigned_object_id"@),
                    ren,
                    None,
                    None,
                    "assigned_object"@,
                    str_or_null(resolved),
                );
                lemma_values_no_ids(resolve_assignment(escrow, r), resolve_assignment(escrow2, r2), ren);
            } else {
                lemma_values_no_ids(r, r2, ren);
            }
        },
        _ => {
            let e = Seq::<(Seq<char>, JVal)>::empty();
            assert(drop_keys(e) == e);
            lemma_collapse_refs(e, e, ren, None, None, 13);
            assert(collapse_refs(e, 13) =~= e);
        },
    }
}

proof fn lemma_logical_entries(
    escrow: JVal,
    escrow2: JVal,
    ren: spec_fn(Seq<char>, i64) -> i64,
    a: Seq<(Seq<char>, JVal)>,
    b: Seq<(Seq<char>, JVal)>,
    n: nat,
)
    requires
        escrow_renumbered(escrow, escrow2, ren),
        injective(ren),
        escrow == JVal::Object(a),
        escrow2 == JVal::Object(b),
        n <= a.len(),
    ensures
        logical_entries(escrow, a, n) == logical_entries(escrow2, b, n),
    decreases n,
{
    if n > 0 {
        lemma_logical_entries(escrow, escrow2, ren, a, b, (n - 1) as nat);
        let e = a[n - 1];
        let e2 = b[n - 1];
        assert(e.0 == e2.0);
        match (e.1, e2.1) {
            (JVal::Array(x), JVal::Array(y)) => {
                assert(list_renumbered(e.0, x, y, ren));
                let lx = x.map_values(|o: JVal| logical_object(escrow, e.0, o));
                let ly = y.map_values(|o: JVal| logical_object(escrow2, e.0, o));
                assert forall|j: int| 0 <= j < x.len() implies lx[j] == ly[j] by {
                    assert(object_renumbered(e.0, x[j], y[j], ren));
                    lemma_logical_object(escrow, escrow2, ren, e.0, x[j], y[j]);
                }
                assert(lx =~= ly);
            },
            _ => {},
        }
    }
}

/// The logical view does not depend on ids: an escrow renumbered by an
/// injective renumbering (each object's own id, and the scope and IP
/// assignment references that point at sites and interfaces by id,
/// renumbered alike; nested ids changed at will) has the same logical view.
pub proof fn law_logical_view_ignores_ids(escrow: JVal, escrow2: JVal, ren: spec_fn(Seq<char>, i64) -> i64)
    requires
        injective(ren),
        escrow_renumbered(escrow, escrow2, ren),
    ensures
        logical_spec(escrow) == logical_spec(escrow2),
{
    match (escrow, escrow2) {
        (JVal::Object(a), JVal::Object(b)) => {
            lemma_logical_entries(escrow, escrow2, ren, a, b, a.len());
        },
        _ => {},
    }
}

} // verus!
