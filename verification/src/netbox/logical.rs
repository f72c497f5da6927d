//! Id-independent logical view of the escrow, for the restore drill.
//!
//! A rebuild reassigns every NetBox internal id, so `restore → pull` can
//! never be byte-identical. What must hold is *logical* equality: the same
//! objects identified by natural key, with references expressed by natural
//! key rather than autoincrement id. [`logical_view`] reduces an escrow to
//! that form so the drill can assert `before == after`.
//!
//! Objects are entry lists; setting a key replaces its value in place or
//! inserts it before the first greater key — a sorted map's insert on the
//! key-sorted objects a JSON parse produces.

use vstd::prelude::*;
use crate::text::{chars_of, eq_chars, order_text, put, put_chars, string_from, text_lt};
use crate::text::lemma_first_match_at;
use crate::json::{key_is, 
    as_array, as_i64, as_str, copy_json, get, jget, jint, jstr, jv, jv_entries, jv_list, lemma_jv_entries,
    lemma_jv_list, json_string, json_text, Json, JVal,
};
use crate::sort::{lemma_sort_text_map, map_text_keyed, sort_by_text, sort_text_keyed, text_keys};
use crate::netbox::declared::{array_of, jget_opt};

verus! {

/// An entry list without the entries of key `k`.
pub open spec fn without(es: Seq<(Seq<char>, JVal)>, k: Seq<char>) -> Seq<(Seq<char>, JVal)>
    decreases es.len(),
{
    if es.len() == 0 {
        seq![]
    } else if es.last().0 == k {
        without(es.drop_last(), k)
    } else {
        without(es.drop_last(), k).push(es.last())
    }
}

/// An entry list with key `k` set to `v`: the first entry of the key gets
/// the value in place; without one, the entry goes before the first greater
/// key.
pub open spec fn set_entry(es: Seq<(Seq<char>, JVal)>, k: Seq<char>, v: JVal) -> Seq<(Seq<char>, JVal)>
    decreases es.len(),
{
    if es.len() == 0 {
        seq![(k, v)]
    } else if es[0].0 == k {
        seq![(k, v)] + es.drop_first()
    } else if text_lt(k, es[0].0) && !has_key(es, k) {
        seq![(k, v)] + es
    } else {
        seq![es[0]] + set_entry(es.drop_first(), k, v)
    }
}

pub open spec fn has_key(es: Seq<(Seq<char>, JVal)>, k: Seq<char>) -> bool {
    exists|i: int| 0 <= i < es.len() && #[trigger] es[i].0 == k
}

/// The value of the first entry of a key.
pub open spec fn entry_of(es: Seq<(Seq<char>, JVal)>, k: Seq<char>) -> Option<JVal> {
    jget(JVal::Object(es), k)
}

/// Reference fields whose brief-object value collapses to a natural key,
/// with the field of the brief object that holds it.
pub open spec fn ref_natural_keys() -> Seq<(Seq<char>, Seq<char>)> {
    seq![
        ("manufacturer"@, "slug"@),
        ("device_type"@, "slug"@),
        ("role"@, "slug"@),
        ("site"@, "slug"@),
        ("cluster"@, "name"@),
        ("type"@, "slug"@),
        ("device"@, "name"@),
        ("virtual_machine"@, "name"@),
        ("choice_set"@, "name"@),
        ("primary_ip4"@, "address"@),
        ("primary_ip6"@, "address"@),
        ("oob_ip"@, "address"@),
        ("status"@, "value"@),
    ]
}

/// A reference field collapsed to its natural key when it holds an object.
pub open spec fn collapse_ref(es: Seq<(Seq<char>, JVal)>, field: Seq<char>, natural: Seq<char>) -> Seq<(Seq<char>, JVal)> {
    match entry_of(es, field) {
        Some(JVal::Object(b)) => set_entry(
            es,
            field,
            match entry_of(b, natural) {
                Some(x) => x,
                None => JVal::Null,
            },
        ),
        _ => es,
    }
}

/// The first `n` reference fields collapsed, in order.
pub open spec fn collapse_refs(es: Seq<(Seq<char>, JVal)>, n: nat) -> Seq<(Seq<char>, JVal)>
    decreases n,
{
    if n == 0 {
        es
    } else {
        let r = ref_natural_keys()[n - 1];
        collapse_ref(collapse_refs(es, (n - 1) as nat), r.0, r.1)
    }
}

/// Keys dropped from every logical object: the id and the volatile keys.
pub open spec fn dropped_key(k: Seq<char>) -> bool {
    k == "id"@ || k == "url"@ || k == "display"@ || k == "display_url"@ || k == "created"@ || k == "last_updated"@
}

/// Keys dropped from nested objects.
pub open spec fn nested_dropped_key(k: Seq<char>) -> bool {
    k == "id"@ || k == "url"@ || k == "display"@ || k == "created"@ || k == "last_updated"@
}

pub open spec fn drop_keys(es: Seq<(Seq<char>, JVal)>) -> Seq<(Seq<char>, JVal)>
    decreases es.len(),
{
    if es.len() == 0 {
        seq![]
    } else if dropped_key(es.last().0) {
        drop_keys(es.drop_last())
    } else {
        drop_keys(es.drop_last()).push(es.last())
    }
}

/// A value with ids and volatile keys removed from every object in it.
pub open spec fn no_ids(v: JVal) -> JVal
    decreases v,
{
    match v {
        JVal::Array(items) => JVal::Array(no_ids_list(items)),
        JVal::Object(es) => JVal::Object(no_ids_entries(es)),
        _ => v,
    }
}

pub open spec fn no_ids_list(s: Seq<JVal>) -> Seq<JVal>
    decreases s,
{
    if s.len() == 0 {
        seq![]
    } else {
        no_ids_list(s.drop_last()).push(no_ids(s.last()))
    }
}

pub open spec fn no_ids_entries(s: Seq<(Seq<char>, JVal)>) -> Seq<(Seq<char>, JVal)>
    decreases s,
{
    if s.len() == 0 {
        seq![]
    } else if nested_dropped_key(s.last().0) {
        no_ids_entries(s.drop_last())
    } else {
        no_ids_entries(s.drop_last()).push((s.last().0, no_ids(s.last().1)))
    }
}

/// Each value of an entry list with its nested ids removed.
pub open spec fn values_no_ids(s: Seq<(Seq<char>, JVal)>) -> Seq<(Seq<char>, JVal)>
    decreases s.len(),
{
    if s.len() == 0 {
        seq![]
    } else {
        values_no_ids(s.drop_last()).push((s.last().0, no_ids(s.last().1)))
    }
}

/// The index of the last element satisfying `p`.
pub open spec fn last_match<A>(s: Seq<A>, p: spec_fn(A) -> bool) -> Option<int>
    decreases s.len(),
{
    if s.len() == 0 {
        None
    } else if p(s.last()) {
        Some(s.len() - 1)
    } else {
        last_match(s.drop_last(), p)
    }
}

pub open spec fn site_is(id: i64) -> spec_fn(JVal) -> bool {
    |s: JVal| jint(jget(s, "id"@)) == Some(id) && jstr(jget(s, "slug"@)) is Some
}

/// A scoped object's natural key: today the only scope is a site, by slug
/// (the last site of the id).
pub open spec fn scope_key(escrow: JVal, t: Seq<char>, id: i64) -> Option<Seq<char>> {
    if t == "dcim.site"@ {
        let sites = array_of(escrow, "dcim.sites"@);
        match last_match(sites, site_is(id)) {
            Some(k) => jstr(jget(sites[k], "slug"@)),
            None => None,
        }
    } else {
        None
    }
}

pub open spec fn iface_is(parent: Seq<char>, id: i64) -> spec_fn(JVal) -> bool {
    |f: JVal|
        jint(jget(f, "id"@)) == Some(id) && jstr(jget(f, "name"@)) is Some && jstr(
            jget_opt(jget(f, parent), "name"@),
        ) is Some
}

/// `parent/interface` of the last interface of an id among those listed
/// under `arr`.
pub open spec fn iface_key_in(escrow: JVal, arr: Seq<char>, parent: Seq<char>, id: i64) -> Option<Seq<char>> {
    let fs = array_of(escrow, arr);
    match last_match(fs, iface_is(parent, id)) {
        Some(k) => Some(
            jstr(jget_opt(jget(fs[k], parent), "name"@))->0 + "/"@ + jstr(jget(fs[k], "name"@))->0,
        ),
        None => None,
    }
}

/// (assigned object type, interface id) → `device_or_vm_name/iface_name`.
pub open spec fn iface_key(escrow: JVal, t: Seq<char>, id: i64) -> Option<Seq<char>> {
    if t == "dcim.interface"@ {
        iface_key_in(escrow, "dcim.interfaces"@, "device"@, id)
    } else if t == "virtualization.vminterface"@ {
        iface_key_in(escrow, "virtualization.interfaces"@, "virtual_machine"@, id)
    } else {
        None
    }
}

pub open spec fn str_or_null(o: Option<Seq<char>>) -> JVal {
    match o {
        Some(s) => JVal::Str(s),
        None => JVal::Null,
    }
}

/// A generic scope (cluster → site): the raw `scope_id` replaced by the
/// scoped object's natural key.
pub open spec fn resolve_scope(escrow: JVal, es: Seq<(Seq<char>, JVal)>) -> Seq<(Seq<char>, JVal)> {
    match (jstr(entry_of(es, "scope_type"@)), jint(entry_of(es, "scope_id"@))) {
        (Some(t), Some(id)) => set_entry(without(es, "scope_id"@), "scope"@, str_or_null(scope_key(escrow, t, id))),
        _ => es,
    }
}

/// An IP's assignment: the (type, interface id) pair replaced by the
/// interface's natural key.
pub open spec fn resolve_assignment(escrow: JVal, es: Seq<(Seq<char>, JVal)>) -> Seq<(Seq<char>, JVal)> {
    let resolved = match (jstr(entry_of(es, "assigned_object_type"@)), jint(entry_of(es, "assigned_object_id"@))) {
        (Some(t), Some(id)) => iface_key(escrow, t, id),
        _ => None,
    };
    set_entry(without(es, "assigned_object_id"@), "assigned_object"@, str_or_null(resolved))
}

/// One object's logical form.
pub open spec fn logical_object(escrow: JVal, endpoint: Seq<char>, object: JVal) -> JVal {
    let es0 = match object {
        JVal::Object(es) => es,
        _ => seq![],
    };
    let es1 = collapse_refs(drop_keys(es0), 13);
    let es2 = resolve_scope(escrow, es1);
    let es3 = if endpoint == "ipam.ip-addresses"@ {
        resolve_assignment(escrow, es2)
    } else {
        es2
    };
    JVal::Object(values_no_ids(es3))
}

/// The fields a natural key is read from, in order of preference.
pub open spec fn natural_fields() -> Seq<Seq<char>> {
    seq!["address"@, "prefix"@, "vid"@, "slug"@, "name"@, "model"@]
}

pub open spec fn natural_from(o: JVal, k: nat) -> Seq<char>
    decreases 6 - k,
{
    if k >= 6 {
        json_text(o)
    } else {
        let f = natural_fields()[k as int];
        match jget(o, f) {
            Some(v) => if v != JVal::Null {
                f + "="@ + json_text(v)
            } else {
                natural_from(o, k + 1)
            },
            None => natural_from(o, k + 1),
        }
    }
}

/// A stable natural-key string for sorting logical objects within an
/// endpoint: `field=value` of the first identifying field present, else the
/// whole object's JSON.
pub open spec fn natural_key(o: JVal) -> Seq<char> {
    natural_from(o, 0)
}

/// Objects sorted (stably) by natural key.
pub open spec fn sort_natural(objs: Seq<JVal>) -> Seq<JVal> {
    sort_by_text(objs.map_values(|o: JVal| (natural_key(o), o))).map_values(|p: (Seq<char>, JVal)| p.1)
}

/// The logical entries of the first `n` escrow entries: each endpoint
/// holding an array, its objects in logical form sorted by natural key.
pub open spec fn logical_entries(escrow: JVal, es: Seq<(Seq<char>, JVal)>, n: nat) -> Seq<(Seq<char>, JVal)>
    decreases n,
{
    if n == 0 {
        seq![]
    } else {
        let prev = logical_entries(escrow, es, (n - 1) as nat);
        let e = es[n - 1];
        match e.1 {
            JVal::Array(items) => set_entry(
                prev,
                e.0,
                JVal::Array(sort_natural(items.map_values(|o: JVal| logical_object(escrow, e.0, o)))),
            ),
            _ => prev,
        }
    }
}

/// The id-independent logical form of an escrow document.
pub open spec fn logical_spec(escrow: JVal) -> JVal {
    match escrow {
        JVal::Object(es) => JVal::Object(logical_entries(escrow, es, es.len())),
        _ => JVal::Object(seq![]),
    }
}

fn entry_get<'a>(es: &'a Vec<(String, Json)>, k: &str) -> (r: Option<&'a Json>)
    ensures
        match r {
            Some(x) => entry_of(jv_entries(es@), k@) == Some(jv(*x)),
            None => entry_of(jv_entries(es@), k@) is None,
        },
{
    let ghost ev = jv_entries(es@);
    let ghost f = key_is(k@);
    proof {
        lemma_jv_entries(es@);
    }
    let kc = chars_of(k);
    let mut i: usize = 0;
    while i < es.len()
        invariant
            i <= es@.len(),
            ev == jv_entries(es@),
            ev.len() == es@.len(),
            forall|j: int| 0 <= j < es@.len() ==> #[trigger] ev[j] == (es@[j].0@, jv(es@[j].1)),
            f == key_is(k@),
            kc@ == k@,
            forall|j: int| 0 <= j < i ==> !f(#[trigger] ev[j]),
        decreases es@.len() - i,
    {
        if eq_chars(chars_of(es[i].0.as_str()).as_slice(), kc.as_slice()) {
            proof {
                lemma_first_match_at(ev, f, i as int);
            }
            return Some(&es[i].1);
        }
        i = i + 1;
    }
    proof {
        lemma_first_match_at(ev, f, i as int);
    }
    None
}

fn without_of(es: Vec<(String, Json)>, k: &str) -> (r: Vec<(String, Json)>)
    ensures
        jv_entries(r@) == without(jv_entries(es@), k@),
{
    let ghost ev = jv_entries(es@);
    let ghost orig = es@;
    proof {
        lemma_jv_entries(es@);
    }
    let kc = chars_of(k);
    let mut es = es;
    let mut out: Vec<(String, Json)> = Vec::new();
    let ghost n = es@.len();
    assert(n == es.len());
    assert(orig.skip(0) =~= orig);
    let mut i: usize = 0;
    while es.len() > 0
        invariant
            i + es@.len() == n,
            n == orig.len(),
            n <= usize::MAX,
            es@ == orig.skip(i as int),
            ev == jv_entries(orig),
            ev.len() == orig.len(),
            forall|j: int| 0 <= j < orig.len() ==> #[trigger] ev[j] == (orig[j].0@, jv(orig[j].1)),
            kc@ == k@,
            jv_entries(out@) == without(ev.take(i as int), k@),
        decreases es@.len(),
    {
        let ghost before = es@;
        let e = es.remove(0);
        assert(e == orig[i as int]) by {
            assert(before[0] == orig.skip(i as int)[0]);
        }
        assert(es@ =~= orig.skip(i + 1));
        assert(ev.take(i + 1).drop_last() =~= ev.take(i as int));
        assert(ev.take(i + 1).last() == (e.0@, jv(e.1)));
        if !eq_chars(chars_of(e.0.as_str()).as_slice(), kc.as_slice()) {
            let ghost prev = out@;
            out.push(e);
            assert(out@.drop_last() =~= prev);
        }
        i = i + 1;
    }
    assert(ev.take(i as int) =~= ev);
    out
}

pub(crate) proof fn lemma_set_found(es: Seq<(Seq<char>, JVal)>, k: Seq<char>, v: JVal, i: int)
    requires
        0 <= i < es.len(),
        es[i].0 == k,
        forall|j: int| 0 <= j < i ==> es[j].0 != k,
    ensures
        set_entry(es, k, v) == es.update(i, (k, v)),
    decreases i,
{
    if i == 0 {
        assert(seq![(k, v)] + es.drop_first() =~= es.update(0, (k, v)));
    } else {
        assert(has_key(es, k));
        lemma_set_found(es.drop_first(), k, v, i - 1);
        assert(seq![es[0]] + es.drop_first().update(i - 1, (k, v)) =~= es.update(i, (k, v)));
    }
}

proof fn lemma_set_insert(es: Seq<(Seq<char>, JVal)>, k: Seq<char>, v: JVal, j: int)
    requires
        0 <= j <= es.len(),
        !has_key(es, k),
        forall|m: int| 0 <= m < j ==> !text_lt(k, #[trigger] es[m].0),
        j == es.len() || text_lt(k, es[j].0),
    ensures
        set_entry(es, k, v) == es.insert(j, (k, v)),
    decreases j,
{
    if es.len() == 0 {
        assert(es.insert(0, (k, v)) =~= seq![(k, v)]);
    } else if j == 0 {
        assert(es[0].0 != k);
        assert(seq![(k, v)] + es =~= es.insert(0, (k, v)));
    } else {
        assert(es[0].0 != k);
        assert(!text_lt(k, es[0].0));
        assert(!has_key(es.drop_first(), k)) by {
            if has_key(es.drop_first(), k) {
                let m = choose|m: int| 0 <= m < es.drop_first().len() && #[trigger] es.drop_first()[m].0 == k;
                assert(es[m + 1].0 == k);
            }
        }
        assert forall|m: int| 0 <= m < j - 1 implies !text_lt(k, #[trigger] es.drop_first()[m].0) by {
            assert(es.drop_first()[m] == es[m + 1]);
        }
        lemma_set_insert(es.drop_first(), k, v, j - 1);
        assert(seq![es[0]] + es.drop_first().insert(j - 1, (k, v)) =~= es.insert(j, (k, v)));
    }
}

#[verifier::loop_isolation(false)]
pub(crate) fn set_entry_of(es: Vec<(String, Json)>, k: &str, v: Json) -> (r: Vec<(String, Json)>)
    ensures
        jv_entries(r@) == set_entry(jv_entries(es@), k@, jv(v)),
{
    let ghost ev = jv_entries(es@);
    proof {
        lemma_jv_entries(es@);
    }
    let kc = chars_of(k);
    let mut es = es;
    let mut i: usize = 0;
    while i < es.len()
        invariant
            i <= es@.len(),
            ev == jv_entries(es@),
            ev.len() == es@.len(),
            forall|j: int| 0 <= j < es@.len() ==> #[trigger] ev[j] == (es@[j].0@, jv(es@[j].1)),
            kc@ == k@,
            forall|j: int| 0 <= j < i ==> (#[trigger] ev[j]).0 != k@,
        decreases es@.len() - i,
    {
        if eq_chars(chars_of(es[i].0.as_str()).as_slice(), kc.as_slice()) {
            proof {
                lemma_set_found(ev, k@, jv(v), i as int);
            }
            let ghost vv = jv(v);
            let _old = es.remove(i);
            es.insert(i, (string_from(kc.as_slice()), v));
            proof {
                lemma_jv_entries(es@);
                assert(jv_entries(es@) =~= ev.update(i as int, (k@, vv)));
            }
            return es;
        }
        i = i + 1;
    }
    assert(!has_key(ev, k@));
    let mut j: usize = 0;
    while j < es.len() && order_text(kc.as_slice(), chars_of(es[j].0.as_str()).as_slice()) >= 0
        invariant
            j <= es@.len(),
            ev == jv_entries(es@),
            ev.len() == es@.len(),
            forall|m: int| 0 <= m < es@.len() ==> #[trigger] ev[m] == (es@[m].0@, jv(es@[m].1)),
            kc@ == k@,
            forall|m: int| 0 <= m < j ==> !text_lt(k@, #[trigger] ev[m].0),
        decreases es@.len() - j,
    {
        j = j + 1;
    }
    proof {
        lemma_set_insert(ev, k@, jv(v), j as int);
    }
    let ghost vv = jv(v);
    es.insert(j, (string_from(kc.as_slice()), v));
    proof {
        lemma_jv_entries(es@);
        assert(jv_entries(es@) =~= ev.insert(j as int, (k@, vv)));
    }
    es
}

fn ref_pair(i: usize) -> (r: (&'static str, &'static str))
    requires
        i < 13,
    ensures
        (r.0@, r.1@) == ref_natural_keys()[i as int],
{
    match i {
        0 => ("manufacturer", "slug"),
        1 => ("device_type", "slug"),
        2 => ("role", "slug"),
        3 => ("site", "slug"),
        4 => ("cluster", "name"),
        5 => ("type", "slug"),
        6 => ("device", "name"),
        7 => ("virtual_machine", "name"),
        8 => ("choice_set", "name"),
        9 => ("primary_ip4", "address"),
        10 => ("primary_ip6", "address"),
        11 => ("oob_ip", "address"),
        _ => ("status", "value"),
    }
}

fn collapse_ref_of(es: Vec<(String, Json)>, field: &str, natural: &str) -> (r: Vec<(String, Json)>)
    ensures
        jv_entries(r@) == collapse_ref(jv_entries(es@), field@, natural@),
{
    let x: Option<Json> = match entry_get(&es, field) {
        Some(Json::Object(b)) => {
            proof {
                lemma_jv_entries(b@);
            }
            match entry_get(b, natural) {
                Some(x) => Some(copy_json(x)),
                None => Some(Json::Null),
            }
        },
        _ => None,
    };
    match x {
        Some(x) => set_entry_of(es, field, x),
        None => es,
    }
}

fn collapse_refs_of(es: Vec<(String, Json)>) -> (r: Vec<(String, Json)>)
    ensures
        jv_entries(r@) == collapse_refs(jv_entries(es@), 13),
{
    let ghost e0 = jv_entries(es@);
    let mut es = es;
    let mut i: usize = 0;
    while i < 13
        invariant
            i <= 13,
            jv_entries(es@) == collapse_refs(e0, i as nat),
        decreases 13 - i,
    {
        let (f, n) = ref_pair(i);
        es = collapse_ref_of(es, f, n);
        i = i + 1;
    }
    es
}

fn is_dropped(k: &str, nested: bool) -> (r: bool)
    ensures
        r == if nested {
            nested_dropped_key(k@)
        } else {
            dropped_key(k@)
        },
{
    let c = chars_of(k);
    eq_chars(c.as_slice(), chars_of("id").as_slice()) || eq_chars(c.as_slice(), chars_of("url").as_slice()) || eq_chars(
        c.as_slice(),
        chars_of("display").as_slice(),
    ) || (!nested && eq_chars(c.as_slice(), chars_of("display_url").as_slice())) || eq_chars(
        c.as_slice(),
        chars_of("created").as_slice(),
    ) || eq_chars(c.as_slice(), chars_of("last_updated").as_slice())
}

fn drop_keys_of(es: Vec<(String, Json)>) -> (r: Vec<(String, Json)>)
    ensures
        jv_entries(r@) == drop_keys(jv_entries(es@)),
{
    let ghost ev = jv_entries(es@);
    let ghost orig = es@;
    proof {
        lemma_jv_entries(es@);
    }
    let mut es = es;
    let mut out: Vec<(String, Json)> = Vec::new();
    let ghost n = es@.len();
    assert(n == es.len());
    assert(orig.skip(0) =~= orig);
    let mut i: usize = 0;
    while es.len() > 0
        invariant
            i + es@.len() == n,
            n == orig.len(),
            n <= usize::MAX,
            es@ == orig.skip(i as int),
            ev == jv_entries(orig),
            ev.len() == orig.len(),
            forall|j: int| 0 <= j < orig.len() ==> #[trigger] ev[j] == (orig[j].0@, jv(orig[j].1)),
            jv_entries(out@) == drop_keys(ev.take(i as int)),
        decreases es@.len(),
    {
        let ghost before = es@;
        let e = es.remove(0);
        assert(e == orig[i as int]) by {
            assert(before[0] == orig.skip(i as int)[0]);
        }
        assert(es@ =~= orig.skip(i + 1));
        assert(ev.take(i + 1).drop_last() =~= ev.take(i as int));
        assert(ev.take(i + 1).last() == (e.0@, jv(e.1)));
        if !is_dropped(e.0.as_str(), false) {
            let ghost prev = out@;
            out.push(e);
            assert(out@.drop_last() =~= prev);
        }
        i = i + 1;
    }
    assert(ev.take(i as int) =~= ev);
    out
}

/// A copy of a value with ids and volatile keys removed from every object
/// in it.
#[verifier::loop_isolation(false)]
fn strip_ids(v: &Json) -> (r: Json)
    ensures
        jv(r) == no_ids(jv(*v)),
    decreases v,
{
    match v {
        Json::Array(a) => {
            let mut out: Vec<Json> = Vec::new();
            let mut i: usize = 0;
            proof {
                lemma_jv_list(a@);
            }
            while i < a.len()
                invariant
                    i <= a@.len(),
                    jv_list(out@) == no_ids_list(jv_list(a@.take(i as int))),
                decreases a@.len() - i,
            {
                proof {
                    assert(decreases_to!(a => a[i as int]));
                }
                let x = strip_ids(&a[i]);
                let ghost prev = out@;
                out.push(x);
                assert(out@.drop_last() =~= prev);
                assert(a@.take(i + 1).drop_last() =~= a@.take(i as int));
                proof {
                    let l = jv_list(a@.take(i as int));
                    let y = jv(a@[i as int]);
                    assert(jv_list(a@.take(i + 1)) == l.push(y));
                    assert(l.push(y).drop_last() =~= l);
                }
                i = i + 1;
            }
            assert(a@.take(i as int) =~= a@);
            Json::Array(out)
        },
        Json::Object(m) => {
            let mut out: Vec<(String, Json)> = Vec::new();
            let mut i: usize = 0;
            while i < m.len()
                invariant
                    i <= m@.len(),
                    jv_entries(out@) == no_ids_entries(jv_entries(m@.take(i as int))),
                decreases m@.len() - i,
            {
                assert(m@.take(i + 1).drop_last() =~= m@.take(i as int));
                let ghost l = jv_entries(m@.take(i as int));
                let ghost y = (m@[i as int].0@, jv(m@[i as int].1));
                assert(jv_entries(m@.take(i + 1)) == l.push(y));
                assert(l.push(y).drop_last() =~= l);
                if !is_dropped(m[i].0.as_str(), true) {
                    proof {
                        assert(decreases_to!(m => m[i as int]));
                        assert(decreases_to!(m[i as int] => m[i as int].1));
                    }
                    let x = strip_ids(&m[i].1);
                    let k = m[i].0.clone();
                    let ghost prev = out@;
                    out.push((k, x));
                    assert(out@.drop_last() =~= prev);
                }
                i = i + 1;
            }
            assert(m@.take(i as int) =~= m@);
            Json::Object(out)
        },
        _ => copy_json(v),
    }
}

fn values_no_ids_of(es: &Vec<(String, Json)>) -> (r: Vec<(String, Json)>)
    ensures
        jv_entries(r@) == values_no_ids(jv_entries(es@)),
{
    let mut out: Vec<(String, Json)> = Vec::new();
    let mut i: usize = 0;
    while i < es.len()
        invariant
            i <= es@.len(),
            jv_entries(out@) == values_no_ids(jv_entries(es@.take(i as int))),
        decreases es@.len() - i,
    {
        assert(es@.take(i + 1).drop_last() =~= es@.take(i as int));
        let ghost l = jv_entries(es@.take(i as int));
        let ghost y = (es@[i as int].0@, jv(es@[i as int].1));
        assert(jv_entries(es@.take(i + 1)) == l.push(y));
        assert(l.push(y).drop_last() =~= l);
        let x = strip_ids(&es[i].1);
        let k = es[i].0.clone();
        let ghost prev = out@;
        out.push((k, x));
        assert(out@.drop_last() =~= prev);
        i = i + 1;
    }
    assert(es@.take(i as int) =~= es@);
    out
}

proof fn lemma_last_match<A>(s: Seq<A>, p: spec_fn(A) -> bool, i: int)
    requires
        -1 <= i < s.len(),
        i >= 0 ==> p(s[i]),
        forall|j: int| i < j < s.len() ==> !p(s[j]),
    ensures
        last_match(s, p) == (if i >= 0 {
            Some(i)
        } else {
            None::<int>
        }),
    decreases s.len(),
{
    if s.len() > 0 && i < s.len() - 1 {
        lemma_last_match(s.drop_last(), p, i);
    }
}

#[verifier::loop_isolation(false)]
fn scope_key_of(escrow: &Json, t: &str, id: i64) -> (r: Option<String>)
    ensures
        r.deep_view() == scope_key(jv(*escrow), t@, id),
{
    if !eq_chars(chars_of(t).as_slice(), chars_of("dcim.site").as_slice()) {
        return None;
    }
    let ghost f = site_is(id);
    let sites = match as_array(get(escrow, "dcim.sites")) {
        Some(a) => a,
        None => {
            proof {
                lemma_last_match(Seq::<JVal>::empty(), f, -1);
            }
            return None;
        },
    };
    let ghost sv = jv_list(sites@);
    proof {
        lemma_jv_list(sites@);
    }
    let mut i: usize = sites.len();
    while i > 0
        invariant
            i <= sites@.len(),
            forall|j: int| i <= j < sites@.len() ==> !f(#[trigger] sv[j]),
        decreases i,
    {
        let s = &sites[i - 1];
        let sid = as_i64(get(s, "id"));
        let slug = as_str(get(s, "slug"));
        if sid == Some(id) && slug.is_some() {
            proof {
                lemma_last_match(sv, f, i - 1);
            }
            return Some(string_from(chars_of(slug.unwrap()).as_slice()));
        }
        assert(!f(sv[i - 1]));
        i = i - 1;
    }
    proof {
        lemma_last_match(sv, f, -1);
    }
    None
}

#[verifier::loop_isolation(false)]
fn iface_key_in_of(escrow: &Json, arr: &str, parent: &str, id: i64) -> (r: Option<String>)
    ensures
        r.deep_view() == iface_key_in(jv(*escrow), arr@, parent@, id),
{
    let ghost f = iface_is(parent@, id);
    let fs = match as_array(get(escrow, arr)) {
        Some(a) => a,
        None => {
            proof {
                lemma_last_match(Seq::<JVal>::empty(), f, -1);
            }
            return None;
        },
    };
    let ghost fv = jv_list(fs@);
    proof {
        lemma_jv_list(fs@);
    }
    let mut i: usize = fs.len();
    while i > 0
        invariant
            i <= fs@.len(),
            forall|j: int| i <= j < fs@.len() ==> !f(#[trigger] fv[j]),
        decreases i,
    {
        let x = &fs[i - 1];
        let fid = as_i64(get(x, "id"));
        let name = as_str(get(x, "name"));
        let pname = as_str(crate::netbox::declared::get_opt(get(x, parent), "name"));
        if fid == Some(id) && name.is_some() && pname.is_some() {
            proof {
                lemma_last_match(fv, f, i - 1);
            }
            let mut t = chars_of(pname.unwrap());
            put(&mut t, "/");
            put_chars(&mut t, chars_of(name.unwrap()).as_slice());
            return Some(string_from(t.as_slice()));
        }
        assert(!f(fv[i - 1]));
        i = i - 1;
    }
    proof {
        lemma_last_match(fv, f, -1);
    }
    None
}

/// The natural key of an interface: `device_or_vm_name/iface_name` for an
/// (assigned object type, interface id), the last listing winning. Restore
/// rebinds IPs to freshly created interfaces by the same key.
pub fn iface_natural_key(escrow: &Json, t: &str, id: i64) -> (r: Option<String>)
    ensures
        r.deep_view() == iface_key(jv(*escrow), t@, id),
{
    let c = chars_of(t);
    if eq_chars(c.as_slice(), chars_of("dcim.interface").as_slice()) {
        iface_key_in_of(escrow, "dcim.interfaces", "device", id)
    } else if eq_chars(c.as_slice(), chars_of("virtualization.vminterface").as_slice()) {
        iface_key_in_of(escrow, "virtualization.interfaces", "virtual_machine", id)
    } else {
        None
    }
}

fn str_or_null_of(o: Option<String>) -> (r: Json)
    ensures
        jv(r) == str_or_null(o.deep_view()),
{
    match o {
        Some(s) => Json::Str(s),
        None => Json::Null,
    }
}

fn resolve_scope_of(escrow: &Json, es: Vec<(String, Json)>) -> (r: Vec<(String, Json)>)
    ensures
        jv_entries(r@) == resolve_scope(jv(*escrow), jv_entries(es@)),
{
    let t: Option<String> = match as_str(entry_get(&es, "scope_type")) {
        Some(t) => Some(string_from(chars_of(t).as_slice())),
        None => None,
    };
    let id = as_i64(entry_get(&es, "scope_id"));
    match (t, id) {
        (Some(t), Some(id)) => {
            let key = scope_key_of(escrow, t.as_str(), id);
            let rest = without_of(es, "scope_id");
            set_entry_of(rest, "scope", str_or_null_of(key))
        },
        _ => es,
    }
}

fn resolve_assignment_of(escrow: &Json, es: Vec<(String, Json)>) -> (r: Vec<(String, Json)>)
    ensures
        jv_entries(r@) == resolve_assignment(jv(*escrow), jv_entries(es@)),
{
    let t: Option<String> = match as_str(entry_get(&es, "assigned_object_type")) {
        Some(t) => Some(string_from(chars_of(t).as_slice())),
        None => None,
    };
    let id = as_i64(entry_get(&es, "assigned_object_id"));
    let resolved = match (t, id) {
        (Some(t), Some(id)) => iface_natural_key(escrow, t.as_str(), id),
        _ => None,
    };
    let rest = without_of(es, "assigned_object_id");
    set_entry_of(rest, "assigned_object", str_or_null_of(resolved))
}

/// One object's logical form: id and volatile keys dropped, references
/// collapsed to natural keys, a site scope and an IP's interface resolved to
/// natural keys, nested ids dropped.
pub fn logical_object_of(escrow: &Json, endpoint: &str, object: &Json) -> (r: Json)
    ensures
        jv(r) == logical_object(jv(*escrow), endpoint@, jv(*object)),
{
    let es0: Vec<(String, Json)> = match copy_json(object) {
        Json::Object(m) => m,
        _ => Vec::new(),
    };
    assert(jv_entries(es0@) == match jv(*object) {
        JVal::Object(es) => es,
        _ => Seq::<(Seq<char>, JVal)>::empty(),
    });
    let es1 = collapse_refs_of(drop_keys_of(es0));
    let es2 = resolve_scope_of(escrow, es1);
    let es3 = if eq_chars(chars_of(endpoint).as_slice(), chars_of("ipam.ip-addresses").as_slice()) {
        resolve_assignment_of(escrow, es2)
    } else {
        es2
    };
    Json::Object(values_no_ids_of(&es3))
}

fn natural_field(i: usize) -> (r: &'static str)
    requires
        i < 6,
    ensures
        r@ == natural_fields()[i as int],
{
    match i {
        0 => "address",
        1 => "prefix",
        2 => "vid",
        3 => "slug",
        4 => "name",
        _ => "model",
    }
}

/// A stable natural-key string for sorting logical objects within an
/// endpoint.
pub fn natural_key_of(o: &Json) -> (r: String)
    ensures
        r@ == natural_key(jv(*o)),
{
    let mut k: usize = 0;
    while k < 6
        invariant
            k <= 6,
            natural_key(jv(*o)) == natural_from(jv(*o), k as nat),
        decreases 6 - k,
    {
        let f = natural_field(k);
        match get(o, f) {
            Some(v) => {
                let null = match v {
                    Json::Null => true,
                    _ => false,
                };
                if !null {
                    let mut t = chars_of(f);
                    put(&mut t, "=");
                    put_chars(&mut t, chars_of(json_string(v).as_str()).as_slice());
                    return string_from(t.as_slice());
                }
            },
            None => {},
        }
        k = k + 1;
    }
    json_string(o)
}

fn sort_natural_of(objs: Vec<Json>) -> (r: Vec<Json>)
    ensures
        jv_list(r@) == sort_natural(jv_list(objs@)),
{
    let ghost ov = jv_list(objs@);
    let ghost orig = objs@;
    proof {
        lemma_jv_list(objs@);
    }
    let mut objs = objs;
    let mut keyed: Vec<(Vec<char>, Json)> = Vec::new();
    let ghost n = objs@.len();
    assert(n == objs.len());
    assert(orig.skip(0) =~= orig);
    let mut i: usize = 0;
    while objs.len() > 0
        invariant
            i + objs@.len() == n,
            n == orig.len(),
            n <= usize::MAX,
            objs@ == orig.skip(i as int),
            ov == jv_list(orig),
            ov.len() == orig.len(),
            forall|j: int| 0 <= j < orig.len() ==> #[trigger] ov[j] == jv(orig[j]),
            map_text_keyed(text_keys(keyed@), |x: Json| jv(x)) == ov.take(i as int).map_values(
                |o: JVal| (natural_key(o), o),
            ),
        decreases objs@.len(),
    {
        let ghost before = objs@;
        let o = objs.remove(0);
        assert(o == orig[i as int]) by {
            assert(before[0] == orig.skip(i as int)[0]);
        }
        assert(objs@ =~= orig.skip(i + 1));
        let k = chars_of(natural_key_of(&o).as_str());
        let ghost prev = keyed@;
        let ghost oj = jv(o);
        keyed.push((k, o));
        assert(map_text_keyed(text_keys(keyed@), |x: Json| jv(x)) =~= map_text_keyed(text_keys(prev), |x: Json| jv(x)).push(
            (natural_key(oj), oj),
        ));
        assert(ov.take(i + 1).map_values(|o: JVal| (natural_key(o), o)) =~= ov.take(i as int).map_values(
            |o: JVal| (natural_key(o), o),
        ).push((natural_key(ov[i as int]), ov[i as int])));
        i = i + 1;
    }
    assert(ov.take(i as int) =~= ov);
    let ghost kv = text_keys(keyed@);
    let sorted = sort_text_keyed(keyed);
    proof {
        lemma_sort_text_map(kv, |x: Json| jv(x));
    }
    let ghost sv = sorted@;
    let mut sorted = sorted;
    let mut out: Vec<Json> = Vec::new();
    let ghost m = sorted@.len();
    assert(m == sorted.len());
    assert(sv.skip(0) =~= sv);
    let mut j: usize = 0;
    while sorted.len() > 0
        invariant
            j + sorted@.len() == m,
            m == sv.len(),
            m <= usize::MAX,
            sorted@ == sv.skip(j as int),
            jv_list(out@) == sv.take(j as int).map_values(|p: (Vec<char>, Json)| jv(p.1)),
        decreases sorted@.len(),
    {
        let ghost before = sorted@;
        let p = sorted.remove(0);
        assert(p == sv[j as int]) by {
            assert(before[0] == sv.skip(j as int)[0]);
        }
        assert(sorted@ =~= sv.skip(j + 1));
        let ghost prev = out@;
        out.push(p.1);
        assert(out@.drop_last() =~= prev);
        assert(sv.take(j + 1).map_values(|p: (Vec<char>, Json)| jv(p.1)) =~= sv.take(j as int).map_values(
            |p: (Vec<char>, Json)| jv(p.1),
        ).push(jv(sv[j as int].1)));
        j = j + 1;
    }
    assert(sv.take(j as int) =~= sv);
    assert(jv_list(out@) =~= map_text_keyed(text_keys(sv), |x: Json| jv(x)).map_values(|p: (Seq<char>, JVal)| p.1));
    out
}

/// Reduces an escrow document to its id-independent logical form: a map from
/// endpoint to a natural-key-sorted list of objects, each with ids and
/// volatile fields removed and reference brief-objects collapsed to their
/// natural key. IP assignments are resolved to the assigned object's natural
/// key so they survive an interface-id reassignment. Entries that do not
/// hold an array are left out; a document that is not an object has no
/// entries.
#[verifier::loop_isolation(false)]
pub fn logical_view(escrow: &Json) -> (r: Json)
    ensures
        jv(r) == logical_spec(jv(*escrow)),
{
    let es = match escrow {
        Json::Object(m) => m,
        _ => return Json::Object(Vec::new()),
    };
    let ghost ev = jv_entries(es@);
    proof {
        lemma_jv_entries(es@);
    }
    let mut out: Vec<(String, Json)> = Vec::new();
    let mut i: usize = 0;
    while i < es.len()
        invariant
            i <= es@.len(),
            jv_entries(out@) == logical_entries(jv(*escrow), ev, i as nat),
        decreases es@.len() - i,
    {
        let endpoint = es[i].0.as_str();
        match &es[i].1 {
            Json::Array(items) => {
                proof {
                    lemma_jv_list(items@);
                }
                let ghost iv = jv_list(items@);
                let mut objs: Vec<Json> = Vec::new();
                let mut k: usize = 0;
                while k < items.len()
                    invariant
                        k <= items@.len(),
                        jv_list(objs@) == iv.take(k as int).map_values(
                            |o: JVal| logical_object(jv(*escrow), endpoint@, o),
                        ),
                    decreases items@.len() - k,
                {
                    let x = logical_object_of(escrow, endpoint, &items[k]);
                    let ghost prev = objs@;
                    objs.push(x);
                    assert(objs@.drop_last() =~= prev);
                    assert(iv.take(k + 1).map_values(|o: JVal| logical_object(jv(*escrow), endpoint@, o))
                        =~= iv.take(k as int).map_values(|o: JVal| logical_object(jv(*escrow), endpoint@, o)).push(
                        logical_object(jv(*escrow), endpoint@, iv[k as int]),
                    ));
                    k = k + 1;
                }
                assert(iv.take(k as int) =~= iv);
                let sorted = sort_natural_of(objs);
                out = set_entry_of(out, endpoint, Json::Array(sorted));
            },
            _ => {},
        }
        i = i + 1;
    }
    Json::Object(out)
}

} // verus!
