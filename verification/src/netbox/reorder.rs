//! The logical view does not depend on the order in which an endpoint's
//! objects are listed. NetBox lists objects by id, and a rebuild hands out
//! new ids in its own order; together with the renumbering law this covers
//! what the restore drill compares, the view before a wipe and after the
//! rebuild.

use vstd::prelude::*;
use crate::text::first_match;
use crate::json::{jget, jint, key_is, JVal};
use crate::sort::{
    key_determines, lemma_key_determines_perm, lemma_map_perm, lemma_sort_text_sorted, lemma_text_sorted_unique,
    sort_by_text,
};
use crate::netbox::declared::array_of;
use crate::netbox::logical::{
    iface_is, iface_key, iface_key_in, last_match, logical_entries, logical_object, logical_spec, natural_key,
    scope_key, site_is, sort_natural,
};
use crate::netbox::renumber::{
    escrow_renumbered, injective, law_logical_view_ignores_ids, lemma_last_match_char, lemma_same_index,
};

verus! {

/// Two escrows with the same endpoints in the same order, each endpoint's
/// array holding the same objects, in any order.
pub open spec fn escrow_reordered(escrow: JVal, escrow2: JVal) -> bool {
    match escrow {
        JVal::Object(a) => match escrow2 {
            JVal::Object(b) => {
                &&& a.len() == b.len()
                &&& forall|i: int|
                    0 <= i < a.len() ==> (#[trigger] a[i]).0 == b[i].0 && match a[i].1 {
                        JVal::Array(x) => match b[i].1 {
                            JVal::Array(y) => y.to_multiset() == x.to_multiset(),
                            _ => false,
                        },
                        _ => !(b[i].1 is Array),
                    }
            },
            _ => false,
        },
        _ => !(escrow2 is Object),
    }
}

/// No two different objects of a list carry the same integer id.
pub open spec fn ids_unique(s: Seq<JVal>) -> bool {
    forall|i: int, j: int|
        #![trigger s[i], s[j]]
        0 <= i < s.len() && 0 <= j < s.len() && jint(jget(s[i], "id"@)) is Some && jint(jget(s[i], "id"@))
            == jint(jget(s[j], "id"@)) ==> s[i] == s[j]
}

/// The lists in which the logical view resolves ids (sites, device and VM
/// interfaces) give each id to one object.
pub open spec fn lookups_unique(escrow: JVal) -> bool {
    &&& ids_unique(array_of(escrow, "dcim.sites"@))
    &&& ids_unique(array_of(escrow, "dcim.interfaces"@))
    &&& ids_unique(array_of(escrow, "virtualization.interfaces"@))
}

/// An endpoint's objects in logical form.
pub open spec fn logical_list(escrow: JVal, endpoint: Seq<char>, x: Seq<JVal>) -> Seq<JVal> {
    x.map_values(|o: JVal| logical_object(escrow, endpoint, o))
}

/// Objects paired with their natural keys.
pub open spec fn keyed(s: Seq<JVal>) -> Seq<(Seq<char>, JVal)> {
    s.map_values(|o: JVal| (natural_key(o), o))
}

/// Within each endpoint, logical objects that share a natural key are the
/// same.
pub open spec fn natural_keys_distinct(escrow: JVal) -> bool {
    match escrow {
        JVal::Object(a) => forall|i: int|
            0 <= i < a.len() ==> match (#[trigger] a[i]).1 {
                JVal::Array(x) => key_determines(keyed(logical_list(escrow, a[i].0, x))),
                _ => true,
            },
        _ => true,
    }
}

/// At most one element satisfying `p`, up to equality.
pub open spec fn unique_match(s: Seq<JVal>, p: spec_fn(JVal) -> bool) -> bool {
    forall|i: int, j: int|
        #![trigger s[i], s[j]]
        0 <= i < s.len() && 0 <= j < s.len() && p(s[i]) && p(s[j]) ==> s[i] == s[j]
}

/// The last element satisfying `p` is the same in two sequences of the same
/// elements, where at most one element satisfies it.
proof fn lemma_last_match_perm(s: Seq<JVal>, t: Seq<JVal>, p: spec_fn(JVal) -> bool)
    requires
        s.to_multiset() == t.to_multiset(),
        unique_match(s, p),
    ensures
        match last_match(s, p) {
            Some(k) => match last_match(t, p) {
                Some(m) => 0 <= k < s.len() && 0 <= m < t.len() && s[k] == t[m],
                None => false,
            },
            None => last_match(t, p) is None,
        },
{
    broadcast use vstd::seq_lib::group_to_multiset_ensures;
    lemma_last_match_char(s, p);
    lemma_last_match_char(t, p);
    match last_match(s, p) {
        Some(k) => {
            assert(t.to_multiset().count(s[k]) > 0);
            let m0 = choose|m: int| 0 <= m < t.len() && t[m] == s[k];
            assert(p(t[m0]));
            match last_match(t, p) {
                Some(m) => {
                    assert(s.to_multiset().count(t[m]) > 0);
                    let i = choose|i: int| 0 <= i < s.len() && s[i] == t[m];
                    assert(p(s[i]));
                    assert(s[i] == s[k]);
                },
                None => {},
            }
        },
        None => {
            match last_match(t, p) {
                Some(m) => {
                    assert(s.to_multiset().count(t[m]) > 0);
                    let i = choose|i: int| 0 <= i < s.len() && s[i] == t[m];
                    assert(!p(s[i]));
                },
                None => {},
            }
        },
    }
}

/// An endpoint's array in reordered escrows holds the same objects.
proof fn lemma_arrays_reordered(escrow: JVal, escrow2: JVal, k: Seq<char>)
    requires
        escrow_reordered(escrow, escrow2),
    ensures
        array_of(escrow2, k).to_multiset() == array_of(escrow, k).to_multiset(),
{
    match (escrow, escrow2) {
        (JVal::Object(a), JVal::Object(b)) => {
            assert forall|i: int| 0 <= i < a.len() implies (#[trigger] a[i]).0 == b[i].0 by {}
            lemma_same_index(a, b, k);
            match first_match(a, key_is(k)) {
                Some(m) => {
                    assert(a[m].0 == b[m].0);
                },
                None => {},
            }
        },
        _ => {},
    }
}

proof fn lemma_scope_key_reordered(escrow: JVal, escrow2: JVal, t: Seq<char>, id: i64)
    requires
        escrow_reordered(escrow, escrow2),
        lookups_unique(escrow),
    ensures
        scope_key(escrow, t, id) == scope_key(escrow2, t, id),
{
    if t == "dcim.site"@ {
        let s = array_of(escrow, "dcim.sites"@);
        let s2 = array_of(escrow2, "dcim.sites"@);
        lemma_arrays_reordered(escrow, escrow2, "dcim.sites"@);
        assert(unique_match(s, site_is(id))) by {
            assert forall|i: int, j: int|
                0 <= i < s.len() && 0 <= j < s.len() && site_is(id)(#[trigger] s[i]) && site_is(id)(
                    #[trigger] s[j],
                ) implies s[i] == s[j] by {
                assert(jint(jget(s[i], "id"@)) == Some(id));
            }
        }
        lemma_last_match_perm(s, s2, site_is(id));
    }
}

proof fn lemma_iface_key_in_reordered(escrow: JVal, escrow2: JVal, arr: Seq<char>, parent: Seq<char>, id: i64)
    requires
        escrow_reordered(escrow, escrow2),
        ids_unique(array_of(escrow, arr)),
    ensures
        iface_key_in(escrow, arr, parent, id) == iface_key_in(escrow2, arr, parent, id),
{
    let s = array_of(escrow, arr);
    let s2 = array_of(escrow2, arr);
    lemma_arrays_reordered(escrow, escrow2, arr);
    assert(unique_match(s, iface_is(parent, id))) by {
        assert forall|i: int, j: int|
            0 <= i < s.len() && 0 <= j < s.len() && iface_is(parent, id)(#[trigger] s[i]) && iface_is(parent, id)(
                #[trigger] s[j],
            ) implies s[i] == s[j] by {
            assert(jint(jget(s[i], "id"@)) == Some(id));
        }
    }
    lemma_last_match_perm(s, s2, iface_is(parent, id));
}

proof fn lemma_iface_key_reordered(escrow: JVal, escrow2: JVal, t: Seq<char>, id: i64)
    requires
        escrow_reordered(escrow, escrow2),
        lookups_unique(escrow),
    ensures
        iface_key(escrow, t, id) == iface_key(escrow2, t, id),
{
    lemma_iface_key_in_reordered(escrow, escrow2, "dcim.interfaces"@, "device"@, id);
    lemma_iface_key_in_reordered(escrow, escrow2, "virtualization.interfaces"@, "virtual_machine"@, id);
}

/// An object's logical form is the same in reordered escrows.
proof fn lemma_logical_object_reordered(escrow: JVal, escrow2: JVal, endpoint: Seq<char>, o: JVal)
    requires
        escrow_reordered(escrow, escrow2),
        lookups_unique(escrow),
    ensures
        logical_object(escrow, endpoint, o) == logical_object(escrow2, endpoint, o),
{
    assert forall|t: Seq<char>, id: i64| scope_key(escrow, t, id) == #[trigger] scope_key(escrow2, t, id) by {
        lemma_scope_key_reordered(escrow, escrow2, t, id);
    }
    assert forall|t: Seq<char>, id: i64| iface_key(escrow, t, id) == #[trigger] iface_key(escrow2, t, id) by {
        lemma_iface_key_reordered(escrow, escrow2, t, id);
    }
}

/// An endpoint's objects sorted by natural key in reordered escrows.
proof fn lemma_sorted_list_reordered(escrow: JVal, escrow2: JVal, endpoint: Seq<char>, x: Seq<JVal>, y: Seq<JVal>)
    requires
        escrow_reordered(escrow, escrow2),
        lookups_unique(escrow),
        y.to_multiset() == x.to_multiset(),
        key_determines(keyed(logical_list(escrow, endpoint, x))),
    ensures
        sort_natural(logical_list(escrow, endpoint, x)) == sort_natural(logical_list(escrow2, endpoint, y)),
{
    let lx = logical_list(escrow, endpoint, x);
    let ly = logical_list(escrow2, endpoint, y);
    assert(ly =~= logical_list(escrow, endpoint, y)) by {
        assert forall|j: int| 0 <= j < y.len() implies ly[j] == logical_list(escrow, endpoint, y)[j] by {
            lemma_logical_object_reordered(escrow, escrow2, endpoint, y[j]);
        }
    }
    let g = |o: JVal| (natural_key(logical_object(escrow, endpoint, o)), logical_object(escrow, endpoint, o));
    lemma_map_perm(x, y, g);
    assert(keyed(lx) =~= x.map_values(g));
    assert(keyed(ly) =~= y.map_values(g));
    let sx = sort_by_text(keyed(lx));
    let sy = sort_by_text(keyed(ly));
    lemma_sort_text_sorted(keyed(lx));
    lemma_sort_text_sorted(keyed(ly));
    lemma_key_determines_perm(keyed(lx), sx);
    lemma_text_sorted_unique(sx, sy);
    assert(keyed(lx) =~= lx.map_values(|o: JVal| (natural_key(o), o)));
    assert(keyed(ly) =~= ly.map_values(|o: JVal| (natural_key(o), o)));
}

proof fn lemma_logical_entries_reordered(
    escrow: JVal,
    escrow2: JVal,
    a: Seq<(Seq<char>, JVal)>,
    b: Seq<(Seq<char>, JVal)>,
    n: nat,
)
    requires
        escrow_reordered(escrow, escrow2),
        lookups_unique(escrow),
        natural_keys_distinct(escrow),
        escrow == JVal::Object(a),
        escrow2 == JVal::Object(b),
        n <= a.len(),
    ensures
        logical_entries(escrow, a, n) == logical_entries(escrow2, b, n),
    decreases n,
{
    if n > 0 {
        lemma_logical_entries_reordered(escrow, escrow2, a, b, (n - 1) as nat);
        let e = a[n - 1];
        let e2 = b[n - 1];
        assert(e.0 == e2.0);
        match (e.1, e2.1) {
            (JVal::Array(x), JVal::Array(y)) => {
                assert(y.to_multiset() == x.to_multiset());
                assert(key_determines(keyed(logical_list(escrow, e.0, x))));
                lemma_sorted_list_reordered(escrow, escrow2, e.0, x, y);
                assert(x.map_values(|o: JVal| logical_object(escrow, e.0, o)) =~= logical_list(escrow, e.0, x));
                assert(y.map_values(|o: JVal| logical_object(escrow2, e.0, o)) =~= logical_list(escrow2, e.0, y));
            },
            _ => {},
        }
    }
}

/// The logical view does not depend on the order in which each endpoint's
/// objects are listed, where the lists the view resolves ids in give each
/// id to one object and an endpoint's logical objects are told apart by
/// their natural keys.
pub proof fn law_logical_view_ignores_order(escrow: JVal, escrow2: JVal)
    requires
        escrow_reordered(escrow, escrow2),
        lookups_unique(escrow),
        natural_keys_distinct(escrow),
    ensures
        logical_spec(escrow) == logical_spec(escrow2),
{
    match (escrow, escrow2) {
        (JVal::Object(a), JVal::Object(b)) => {
            lemma_logical_entries_reordered(escrow, escrow2, a, b, a.len());
        },
        _ => {},
    }
}

/// What the restore drill compares: an escrow pulled back after a rebuild,
/// its objects listed in another order (`listed`) and then given new ids by
/// an injective renumbering, has the logical view of the escrow it was
/// rebuilt from.
pub proof fn law_rebuild_keeps_logical_view(
    escrow: JVal,
    listed: JVal,
    escrow2: JVal,
    ren: spec_fn(Seq<char>, i64) -> i64,
)
    requires
        escrow_reordered(escrow, listed),
        lookups_unique(escrow),
        natural_keys_distinct(escrow),
        injective(ren),
        escrow_renumbered(listed, escrow2, ren),
    ensures
        logical_spec(escrow) == logical_spec(escrow2),
{
    law_logical_view_ignores_order(escrow, listed);
    law_logical_view_ignores_ids(listed, escrow2, ren);
}

} // verus!
