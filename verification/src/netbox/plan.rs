//! The restore and wipe runs as state machines: which request comes next,
//! and what each answer changes. Objects are recreated in dependency order;
//! references (device type, role, site, cluster, assigned interface, …) are
//! re-resolved to the ids recorded as each tier is created. Every object is
//! looked up by its natural key before it is created, and a key already
//! recorded issues no request, so a partial restore can be re-run. The
//! binary performs each request and hands the answer back.

use vstd::prelude::*;
use crate::text::{chars_of, eq_chars, filter_map, first_match, fmt_i64, int_text, lemma_first_match, lemma_first_match_at, put, put_chars, string_from};
use crate::json::{as_array, as_i64, as_str, copy_json, get, jget, jint, jstr, jv, jv_entries, jv_list, lemma_jv_entries, lemma_jv_list, Json, JsonNumber, JVal};
use crate::netbox::declared::array_of;
use crate::netbox::restore::{api_path, query_spec, query_string, string_of, string_of_spec, value_of, value_of_spec, RestoreReport};
use crate::json::{json_parse, json_string, json_text, parse_json};
use crate::netbox::logical::{iface_key, iface_natural_key, last_match};

verus! {

/// A number value.
pub open spec fn jnum(i: i64) -> JVal {
    JVal::Number(Some(i), int_text(i as int))
}

/// A number value, or null.
pub open spec fn jopt(o: Option<i64>) -> JVal {
    match o {
        Some(i) => jnum(i),
        None => JVal::Null,
    }
}

fn num(i: i64) -> (r: Json)
    ensures
        jv(r) == jnum(i),
{
    Json::Number(JsonNumber { int: Some(i), text: string_from(fmt_i64(i).as_slice()) })
}

fn opt_num(o: Option<i64>) -> (r: Json)
    ensures
        jv(r) == jopt(o),
{
    match o {
        Some(i) => num(i),
        None => Json::Null,
    }
}

fn text(s: &str) -> (r: Json)
    ensures
        jv(r) == JVal::Str(s@),
{
    Json::Str(string_from(chars_of(s).as_slice()))
}

/// The key field of a brief reference object (`device.name`,
/// `site.slug`, …), or the empty string.
pub open spec fn brief(o: JVal, field: Seq<char>, key: Seq<char>) -> Seq<char> {
    match jget(o, field) {
        Some(v) => string_of_spec(v, key),
        None => seq![],
    }
}

fn brief_of(o: &Json, field: &str, key: &str) -> (r: String)
    ensures
        r@ == brief(jv(*o), field@, key@),
{
    match get(o, field) {
        Some(v) => string_of(v, key),
        None => string_from(Vec::<char>::new().as_slice()),
    }
}

/// A member, or a default when absent.
pub open spec fn member_or(o: JVal, field: Seq<char>, default: JVal) -> JVal {
    match jget(o, field) {
        Some(v) => v,
        None => default,
    }
}

fn member_or_of(o: &Json, field: &str, default: Json) -> (r: Json)
    ensures
        jv(r) == member_or(jv(*o), field@, jv(default)),
{
    match get(o, field) {
        Some(v) => copy_json(v),
        None => default,
    }
}

/// A member that holds an object.
pub open spec fn object_member(o: JVal, field: Seq<char>) -> Option<JVal> {
    match jget(o, field) {
        Some(JVal::Object(m)) => Some(JVal::Object(m)),
        _ => None,
    }
}

fn object_member_of<'a>(o: &'a Json, field: &str) -> (r: Option<&'a Json>)
    ensures
        match r {
            Some(v) => object_member(jv(*o), field@) == Some(jv(*v)),
            None => object_member(jv(*o), field@) is None,
        },
{
    match get(o, field) {
        Some(v) => match v {
            Json::Object(_) => Some(v),
            _ => None,
        },
        None => None,
    }
}

/// The member as an entry, when present.
pub open spec fn present(o: JVal, field: Seq<char>) -> Seq<(Seq<char>, JVal)> {
    match jget(o, field) {
        Some(v) => seq![(field, v)],
        None => seq![],
    }
}

/// The recorded ids: (escrow endpoint, natural key, id), of records that
/// also tell whether the object was created or found.
pub open spec fn ids_view(v: Seq<(String, String, i64, bool)>) -> Seq<(Seq<char>, Seq<char>, i64)> {
    v.map_values(|e: (String, String, i64, bool)| (e.0@, e.1@, e.2))
}

pub open spec fn id_is(endpoint: Seq<char>, natural: Seq<char>) -> spec_fn((Seq<char>, Seq<char>, i64)) -> bool {
    |e: (Seq<char>, Seq<char>, i64)| e.0 == endpoint && e.1 == natural
}

/// The id recorded for an object, by endpoint and natural key.
pub open spec fn ref_id(ids: Seq<(Seq<char>, Seq<char>, i64)>, endpoint: Seq<char>, natural: Seq<char>) -> Option<i64> {
    match first_match(ids, id_is(endpoint, natural)) {
        Some(i) => Some(ids[i].2),
        None => None,
    }
}

fn ref_id_of(ids: &Vec<(String, String, i64, bool)>, endpoint: &str, natural: &str) -> (r: Option<i64>)
    ensures
        r == ref_id(ids_view(ids@), endpoint@, natural@),
{
    let ghost iv = ids_view(ids@);
    let ghost f = id_is(endpoint@, natural@);
    let e = chars_of(endpoint);
    let n = chars_of(natural);
    let mut i: usize = 0;
    while i < ids.len()
        invariant
            i <= ids@.len(),
            iv == ids_view(ids@),
            f == id_is(endpoint@, natural@),
            e@ == endpoint@,
            n@ == natural@,
            forall|j: int| 0 <= j < i ==> !f(#[trigger] iv[j]),
        decreases ids@.len() - i,
    {
        let x = &ids[i];
        assert(iv[i as int] == (x.0@, x.1@, x.2));
        if eq_chars(chars_of(x.0.as_str()).as_slice(), e.as_slice()) && eq_chars(chars_of(x.1.as_str()).as_slice(), n.as_slice()) {
            proof {
                lemma_first_match_at(iv, f, i as int);
            }
            return Some(x.2);
        }
        i = i + 1;
    }
    proof {
        lemma_first_match_at(iv, f, i as int);
    }
    None
}

/// The first recorded id of a site, whatever its key.
pub open spec fn any_site(ids: Seq<(Seq<char>, Seq<char>, i64)>) -> Option<i64> {
    match first_match(ids, |e: (Seq<char>, Seq<char>, i64)| e.0 == "dcim.sites"@) {
        Some(i) => Some(ids[i].2),
        None => None,
    }
}

fn any_site_of(ids: &Vec<(String, String, i64, bool)>) -> (r: Option<i64>)
    ensures
        r == any_site(ids_view(ids@)),
{
    let ghost iv = ids_view(ids@);
    let ghost f = |e: (Seq<char>, Seq<char>, i64)| e.0 == "dcim.sites"@;
    let e = chars_of("dcim.sites");
    let mut i: usize = 0;
    while i < ids.len()
        invariant
            i <= ids@.len(),
            iv == ids_view(ids@),
            f == (|e: (Seq<char>, Seq<char>, i64)| e.0 == "dcim.sites"@),
            e@ == "dcim.sites"@,
            forall|j: int| 0 <= j < i ==> !f(#[trigger] iv[j]),
        decreases ids@.len() - i,
    {
        let x = &ids[i];
        assert(iv[i as int] == (x.0@, x.1@, x.2));
        if eq_chars(chars_of(x.0.as_str()).as_slice(), e.as_slice()) {
            proof {
                lemma_first_match_at(iv, f, i as int);
            }
            return Some(x.2);
        }
        i = i + 1;
    }
    proof {
        lemma_first_match_at(iv, f, i as int);
    }
    None
}

/// An object a run makes sure exists: its escrow endpoint, the query that
/// finds it by natural key, the payload that creates it, and the key its id
/// is recorded under.
#[derive(Debug)]
pub struct Ensure {
    pub endpoint: String,
    pub query: Vec<(String, String)>,
    pub payload: Json,
    pub natural: String,
}

/// The abstract content of an [`Ensure`].
pub struct EnsureModel {
    pub endpoint: Seq<char>,
    pub query: Seq<(Seq<char>, Seq<char>)>,
    pub payload: JVal,
    pub natural: Seq<char>,
}

pub open spec fn pairs_view(v: Seq<(String, String)>) -> Seq<(Seq<char>, Seq<char>)> {
    v.map_values(|p: (String, String)| (p.0@, p.1@))
}

pub open spec fn ensure_view(e: Ensure) -> EnsureModel {
    EnsureModel { endpoint: e.endpoint@, query: pairs_view(e.query@), payload: jv(e.payload), natural: e.natural@ }
}

/// What one escrow object asks of a run.
pub enum StepModel {
    /// Nothing: a reference it needs was never recorded.
    Skip,
    /// Make sure the object exists.
    Ensure(EnsureModel),
    /// Patch these fields of the object at this API path.
    Patch(Seq<char>, Seq<(Seq<char>, JVal)>),
}

enum Step {
    Skip,
    Ensure(Ensure),
    Patch(String, Vec<(String, Json)>),
}

spec fn step_view(s: Step) -> StepModel {
    match s {
        Step::Skip => StepModel::Skip,
        Step::Ensure(e) => StepModel::Ensure(ensure_view(e)),
        Step::Patch(p, m) => StepModel::Patch(p@, jv_entries(m@)),
    }
}

/// The number of stages of a restore.
pub const RESTORE_STAGES: usize = 18;

/// The escrow endpoint each stage walks, in dependency order: the objects
/// without references, then those referencing them, then the owned
/// interfaces and items, the IPs, and last the devices' and VMs' primary
/// IPs.
pub open spec fn stage_endpoint(stage: int) -> Seq<char> {
    if stage == 0 {
        "dcim.sites"@
    } else if stage == 1 {
        "dcim.manufacturers"@
    } else if stage == 2 {
        "dcim.device-roles"@
    } else if stage == 3 {
        "extras.custom-field-choice-sets"@
    } else if stage == 4 {
        "extras.custom-fields"@
    } else if stage == 5 {
        "virtualization.cluster-types"@
    } else if stage == 6 {
        "dcim.device-types"@
    } else if stage == 7 {
        "ipam.prefixes"@
    } else if stage == 8 {
        "ipam.vlans"@
    } else if stage == 9 || stage == 16 {
        "dcim.devices"@
    } else if stage == 10 {
        "virtualization.clusters"@
    } else if stage == 11 {
        "dcim.interfaces"@
    } else if stage == 12 {
        "dcim.inventory-items"@
    } else if stage == 13 || stage == 17 {
        "virtualization.virtual-machines"@
    } else if stage == 14 {
        "virtualization.interfaces"@
    } else {
        "ipam.ip-addresses"@
    }
}

fn stage_name(stage: usize) -> (r: &'static str)
    ensures
        r@ == stage_endpoint(stage as int),
{
    if stage == 0 {
        "dcim.sites"
    } else if stage == 1 {
        "dcim.manufacturers"
    } else if stage == 2 {
        "dcim.device-roles"
    } else if stage == 3 {
        "extras.custom-field-choice-sets"
    } else if stage == 4 {
        "extras.custom-fields"
    } else if stage == 5 {
        "virtualization.cluster-types"
    } else if stage == 6 {
        "dcim.device-types"
    } else if stage == 7 {
        "ipam.prefixes"
    } else if stage == 8 {
        "ipam.vlans"
    } else if stage == 9 || stage == 16 {
        "dcim.devices"
    } else if stage == 10 {
        "virtualization.clusters"
    } else if stage == 11 {
        "dcim.interfaces"
    } else if stage == 12 {
        "dcim.inventory-items"
    } else if stage == 13 || stage == 17 {
        "virtualization.virtual-machines"
    } else if stage == 14 {
        "virtualization.interfaces"
    } else {
        "ipam.ip-addresses"
    }
}

/// A query pair of a string member.
pub open spec fn field_pair(o: JVal, f: Seq<char>) -> (Seq<char>, Seq<char>) {
    (f, string_of_spec(o, f))
}

/// The `site` reference of an object, re-resolved, when it holds one.
pub open spec fn site_ref(o: JVal, ids: Seq<(Seq<char>, Seq<char>, i64)>) -> Seq<(Seq<char>, JVal)> {
    match object_member(o, "site"@) {
        Some(s) => match ref_id(ids, "dcim.sites"@, string_of_spec(s, "slug"@)) {
            Some(id) => seq![("site"@, jnum(id))],
            None => seq![],
        },
        None => seq![],
    }
}

pub open spec fn vm_named(vm: Seq<char>) -> spec_fn(JVal) -> bool {
    |x: JVal| string_of_spec(x, "name"@) == vm
}

/// The cluster of the last VM of a name, or the empty string.
pub open spec fn vm_cluster(escrow: JVal, vm: Seq<char>) -> Seq<char> {
    let vms = array_of(escrow, "virtualization.virtual-machines"@);
    match last_match(vms, vm_named(vm)) {
        Some(k) => brief(vms[k], "cluster"@, "name"@),
        None => seq![],
    }
}

/// The interface endpoint of an assigned object type.
pub open spec fn iface_endpoint(t: Seq<char>) -> Seq<char> {
    if t == "dcim.interface"@ {
        "dcim.interfaces"@
    } else {
        "virtualization.interfaces"@
    }
}

/// An IP's interface binding, re-resolved through the interface's natural
/// key.
pub open spec fn binding(o: JVal, ids: Seq<(Seq<char>, Seq<char>, i64)>, escrow: JVal) -> Seq<(Seq<char>, JVal)> {
    match (jstr(jget(o, "assigned_object_type"@)), jint(jget(o, "assigned_object_id"@))) {
        (Some(t), Some(old)) => match iface_key(escrow, t, old) {
            Some(natural) => match ref_id(ids, iface_endpoint(t), natural) {
                Some(id) => seq![("assigned_object_type"@, JVal::Str(t)), ("assigned_object_id"@, jnum(id))],
                None => seq![],
            },
            None => seq![],
        },
        _ => seq![],
    }
}

/// One primary-IP field of the patch, when its address was recorded.
pub open spec fn ip_field(o: JVal, ids: Seq<(Seq<char>, Seq<char>, i64)>, field: Seq<char>) -> Seq<(Seq<char>, JVal)> {
    match object_member(o, field) {
        Some(ip) => match ref_id(ids, "ipam.ip-addresses"@, string_of_spec(ip, "address"@)) {
            Some(id) => seq![(field, jnum(id))],
            None => seq![],
        },
        None => seq![],
    }
}

/// The API path of an object by id.
pub open spec fn object_path(endpoint: Seq<char>, id: i64) -> Seq<char> {
    "/api/"@ + crate::text::replace(endpoint, "."@, "/"@) + "/"@ + int_text(id as int) + "/"@
}

/// An object whose natural key and payload are drawn from `name`/`slug`.
pub open spec fn named(endpoint: Seq<char>, query: Seq<(Seq<char>, Seq<char>)>, o: JVal) -> StepModel {
    StepModel::Ensure(
        EnsureModel {
            endpoint,
            query,
            payload: JVal::Object(present(o, "name"@) + present(o, "slug"@)),
            natural: string_of_spec(o, "slug"@),
        },
    )
}

/// A scoped object: found by its parent's id and its name, recorded under
/// `parent/name`.
pub open spec fn scoped(
    endpoint: Seq<char>,
    parent_field: Seq<char>,
    parent_id: i64,
    name: Seq<char>,
    payload: Seq<(Seq<char>, JVal)>,
    natural: Seq<char>,
) -> StepModel {
    StepModel::Ensure(
        EnsureModel {
            endpoint,
            query: seq![(parent_field, int_text(parent_id as int)), ("name"@, name)],
            payload: JVal::Object(payload),
            natural,
        },
    )
}

/// What an escrow object of a stage asks of the run, given the ids recorded
/// so far.
pub open spec fn step_spec(stage: int, o: JVal, ids: Seq<(Seq<char>, Seq<char>, i64)>, escrow: JVal) -> StepModel {
    let name = string_of_spec(o, "name"@);
    if stage <= 2 {
        named(stage_endpoint(stage), seq![field_pair(o, "name"@), field_pair(o, "slug"@)], o)
    } else if stage == 3 {
        StepModel::Ensure(
            EnsureModel {
                endpoint: stage_endpoint(stage),
                query: seq![("name"@, name)],
                payload: JVal::Object(
                    seq![("name"@, JVal::Str(name)), ("extra_choices"@, member_or(o, "extra_choices"@, JVal::Array(seq![])))],
                ),
                natural: name,
            },
        )
    } else if stage == 4 {
        StepModel::Ensure(
            EnsureModel {
                endpoint: stage_endpoint(stage),
                query: seq![("name"@, name)],
                payload: JVal::Object(
                    seq![
                        ("name"@, JVal::Str(name)),
                        ("type"@, value_of_spec(o, "type"@)),
                        ("object_types"@, member_or(o, "object_types"@, JVal::Array(seq![]))),
                    ] + match object_member(o, "choice_set"@) {
                        Some(cs) => match ref_id(ids, "extras.custom-field-choice-sets"@, string_of_spec(cs, "name"@)) {
                            Some(id) => seq![("choice_set"@, jnum(id))],
                            None => seq![],
                        },
                        None => seq![],
                    },
                ),
                natural: name,
            },
        )
    } else if stage == 5 {
        named(stage_endpoint(stage), seq![field_pair(o, "slug"@)], o)
    } else if stage == 6 {
        let slug = string_of_spec(o, "slug"@);
        StepModel::Ensure(
            EnsureModel {
                endpoint: stage_endpoint(stage),
                query: seq![("slug"@, slug)],
                payload: JVal::Object(
                    seq![
                        ("manufacturer"@, jopt(ref_id(ids, "dcim.manufacturers"@, brief(o, "manufacturer"@, "slug"@)))),
                        ("model"@, JVal::Str(string_of_spec(o, "model"@))),
                        ("slug"@, JVal::Str(slug)),
                    ],
                ),
                natural: slug,
            },
        )
    } else if stage == 7 {
        let prefix = string_of_spec(o, "prefix"@);
        StepModel::Ensure(
            EnsureModel {
                endpoint: stage_endpoint(stage),
                query: seq![("prefix"@, prefix)],
                payload: JVal::Object(
                    seq![("prefix"@, JVal::Str(prefix)), ("description"@, JVal::Str(string_of_spec(o, "description"@)))]
                        + site_ref(o, ids),
                ),
                natural: prefix,
            },
        )
    } else if stage == 8 {
        let vid: i64 = match jint(jget(o, "vid"@)) {
            Some(v) => v,
            None => 0,
        };
        StepModel::Ensure(
            EnsureModel {
                endpoint: stage_endpoint(stage),
                query: seq![("vid"@, int_text(vid as int))],
                payload: JVal::Object(
                    seq![
                        ("vid"@, jnum(vid)),
                        ("name"@, JVal::Str(name)),
                        ("description"@, JVal::Str(string_of_spec(o, "description"@))),
                    ] + site_ref(o, ids),
                ),
                natural: int_text(vid as int),
            },
        )
    } else if stage == 9 {
        StepModel::Ensure(
            EnsureModel {
                endpoint: stage_endpoint(stage),
                query: seq![("name"@, name)],
                payload: JVal::Object(
                    seq![
                        ("name"@, JVal::Str(name)),
                        ("device_type"@, jopt(ref_id(ids, "dcim.device-types"@, brief(o, "device_type"@, "slug"@)))),
                        ("role"@, jopt(ref_id(ids, "dcim.device-roles"@, brief(o, "role"@, "slug"@)))),
                        ("site"@, jopt(ref_id(ids, "dcim.sites"@, brief(o, "site"@, "slug"@)))),
                        ("status"@, value_of_spec(o, "status"@)),
                        ("custom_fields"@, member_or(o, "custom_fields"@, JVal::Object(seq![]))),
                        ("comments"@, JVal::Str(string_of_spec(o, "comments"@))),
                    ],
                ),
                natural: name,
            },
        )
    } else if stage == 10 {
        StepModel::Ensure(
            EnsureModel {
                endpoint: stage_endpoint(stage),
                query: seq![("name"@, name)],
                payload: JVal::Object(
                    seq![
                        ("name"@, JVal::Str(name)),
                        ("type"@, jopt(ref_id(ids, "virtualization.cluster-types"@, brief(o, "type"@, "slug"@)))),
                    ] + if jstr(jget(o, "scope_type"@)) == Some("dcim.site"@) {
                        match any_site(ids) {
                            Some(id) => seq![("scope_type"@, JVal::Str("dcim.site"@)), ("scope_id"@, jnum(id))],
                            None => seq![],
                        }
                    } else {
                        seq![]
                    },
                ),
                natural: name,
            },
        )
    } else if stage == 11 || stage == 12 {
        let dev = brief(o, "device"@, "name"@);
        match ref_id(ids, "dcim.devices"@, dev) {
            Some(dev_id) => scoped(
                stage_endpoint(stage),
                "device_id"@,
                dev_id,
                name,
                if stage == 11 {
                    seq![("device"@, jnum(dev_id)), ("name"@, JVal::Str(name)), ("type"@, JVal::Str("other"@))]
                } else {
                    seq![
                        ("device"@, jnum(dev_id)),
                        ("name"@, JVal::Str(name)),
                        ("description"@, JVal::Str(string_of_spec(o, "description"@))),
                    ]
                },
                dev + "/"@ + name,
            ),
            None => StepModel::Skip,
        }
    } else if stage == 13 {
        let cluster = brief(o, "cluster"@, "name"@);
        match ref_id(ids, "virtualization.clusters"@, cluster) {
            Some(cid) => scoped(
                stage_endpoint(stage),
                "cluster_id"@,
                cid,
                name,
                seq![
                    ("name"@, JVal::Str(name)),
                    ("cluster"@, jnum(cid)),
                    ("status"@, value_of_spec(o, "status"@)),
                    ("custom_fields"@, member_or(o, "custom_fields"@, JVal::Object(seq![]))),
                    ("comments"@, JVal::Str(string_of_spec(o, "comments"@))),
                ],
                cluster + "/"@ + name,
            ),
            None => StepModel::Skip,
        }
    } else if stage == 14 {
        let vm = brief(o, "virtual_machine"@, "name"@);
        match ref_id(ids, "virtualization.virtual-machines"@, vm_cluster(escrow, vm) + "/"@ + vm) {
            Some(vm_id) => scoped(
                stage_endpoint(stage),
                "virtual_machine_id"@,
                vm_id,
                name,
                seq![("virtual_machine"@, jnum(vm_id)), ("name"@, JVal::Str(name))],
                vm + "/"@ + name,
            ),
            None => StepModel::Skip,
        }
    } else if stage == 15 {
        let addr = string_of_spec(o, "address"@);
        StepModel::Ensure(
            EnsureModel {
                endpoint: stage_endpoint(stage),
                query: seq![("address"@, addr)],
                payload: JVal::Object(
                    seq![("address"@, JVal::Str(addr)), ("description"@, JVal::Str(string_of_spec(o, "description"@)))]
                        + binding(o, ids, escrow),
                ),
                natural: addr,
            },
        )
    } else {
        let natural = if stage == 16 {
            name
        } else {
            brief(o, "cluster"@, "name"@) + "/"@ + name
        };
        match ref_id(ids, stage_endpoint(stage), natural) {
            Some(id) => StepModel::Patch(
                object_path(stage_endpoint(stage), id),
                ip_field(o, ids, "primary_ip4"@) + ip_field(o, ids, "oob_ip"@),
            ),
            None => StepModel::Skip,
        }
    }
}

fn key(k: &str) -> (r: String)
    ensures
        r@ == k@,
{
    string_from(chars_of(k).as_slice())
}

fn member(m: &mut Vec<(String, Json)>, k: &str, v: Json)
    ensures
        jv_entries(final(m)@) == jv_entries(old(m)@).push((k@, jv(v))),
{
    m.push((key(k), v));
    assert(m@.drop_last() =~= old(m)@);
}

fn add_all(m: &mut Vec<(String, Json)>, more: Vec<(String, Json)>)
    ensures
        jv_entries(final(m)@) == jv_entries(old(m)@) + jv_entries(more@),
{
    let mut more = more;
    let ghost a = m@;
    let ghost b = more@;
    m.append(&mut more);
    proof {
        assert(m@ =~= a + b);
        lemma_jv_entries(a);
        lemma_jv_entries(b);
        lemma_jv_entries(a + b);
        assert(jv_entries(a + b) =~= jv_entries(a) + jv_entries(b));
    }
}

fn qpair(q: &mut Vec<(String, String)>, k: &str, v: String)
    ensures
        pairs_view(final(q)@) == pairs_view(old(q)@).push((k@, v@)),
{
    q.push((key(k), v));
    assert(pairs_view(q@) =~= pairs_view(old(q)@).push((k@, v@)));
}

fn present_of(o: &Json, f: &str) -> (r: Vec<(String, Json)>)
    ensures
        jv_entries(r@) == present(jv(*o), f@),
{
    let mut m: Vec<(String, Json)> = Vec::new();
    match get(o, f) {
        Some(v) => {
            member(&mut m, f, copy_json(v));
        },
        None => {},
    }
    assert(jv_entries(m@) =~= present(jv(*o), f@));
    m
}

fn site_ref_of(o: &Json, ids: &Vec<(String, String, i64, bool)>) -> (r: Vec<(String, Json)>)
    ensures
        jv_entries(r@) == site_ref(jv(*o), ids_view(ids@)),
{
    let mut m: Vec<(String, Json)> = Vec::new();
    match object_member_of(o, "site") {
        Some(s) => {
            let slug = string_of(s, "slug");
            match ref_id_of(ids, "dcim.sites", slug.as_str()) {
                Some(id) => {
                    member(&mut m, "site", num(id));
                },
                None => {},
            }
        },
        None => {},
    }
    assert(jv_entries(m@) =~= site_ref(jv(*o), ids_view(ids@)));
    m
}

fn ip_field_of(o: &Json, ids: &Vec<(String, String, i64, bool)>, field: &str) -> (r: Vec<(String, Json)>)
    ensures
        jv_entries(r@) == ip_field(jv(*o), ids_view(ids@), field@),
{
    let mut m: Vec<(String, Json)> = Vec::new();
    match object_member_of(o, field) {
        Some(ip) => {
            let addr = string_of(ip, "address");
            match ref_id_of(ids, "ipam.ip-addresses", addr.as_str()) {
                Some(id) => {
                    member(&mut m, field, num(id));
                },
                None => {},
            }
        },
        None => {},
    }
    assert(jv_entries(m@) =~= ip_field(jv(*o), ids_view(ids@), field@));
    m
}

fn iface_endpoint_of(t: &str) -> (r: &'static str)
    ensures
        r@ == iface_endpoint(t@),
{
    if eq_chars(chars_of(t).as_slice(), chars_of("dcim.interface").as_slice()) {
        "dcim.interfaces"
    } else {
        "virtualization.interfaces"
    }
}

fn binding_of(o: &Json, ids: &Vec<(String, String, i64, bool)>, escrow: &Json) -> (r: Vec<(String, Json)>)
    ensures
        jv_entries(r@) == binding(jv(*o), ids_view(ids@), jv(*escrow)),
{
    let mut m: Vec<(String, Json)> = Vec::new();
    match (as_str(get(o, "assigned_object_type")), as_i64(get(o, "assigned_object_id"))) {
        (Some(t), Some(old)) => match iface_natural_key(escrow, t, old) {
            Some(natural) => match ref_id_of(ids, iface_endpoint_of(t), natural.as_str()) {
                Some(id) => {
                    member(&mut m, "assigned_object_type", text(t));
                    member(&mut m, "assigned_object_id", num(id));
                },
                None => {},
            },
            None => {},
        },
        _ => {},
    }
    assert(jv_entries(m@) =~= binding(jv(*o), ids_view(ids@), jv(*escrow)));
    m
}

fn vm_cluster_of(escrow: &Json, vm: &str) -> (r: String)
    ensures
        r@ == vm_cluster(jv(*escrow), vm@),
{
    let ghost f = vm_named(vm@);
    let vms: &[Json] = match as_array(get(escrow, "virtualization.virtual-machines")) {
        Some(a) => a.as_slice(),
        None => &[],
    };
    let ghost vv = array_of(jv(*escrow), "virtualization.virtual-machines"@);
    proof {
        lemma_jv_list(vms@);
        assert(vv =~= jv_list(vms@));
    }
    let v = chars_of(vm);
    let mut i: usize = vms.len();
    assert(vv.take(i as int) =~= vv);
    while i > 0
        invariant
            i <= vms@.len(),
            vv == jv_list(vms@),
            vv == array_of(jv(*escrow), "virtualization.virtual-machines"@),
            vv.len() == vms@.len(),
            forall|k: int| 0 <= k < vms@.len() ==> #[trigger] vv[k] == jv(vms@[k]),
            v@ == vm@,
            f == vm_named(vm@),
            last_match(vv, f) == last_match(vv.take(i as int), f),
        decreases i,
    {
        let x = &vms[i - 1];
        assert(vv.take(i as int).last() == jv(*x));
        assert(vv.take(i as int).drop_last() =~= vv.take(i - 1));
        let n = string_of(x, "name");
        if eq_chars(chars_of(n.as_str()).as_slice(), v.as_slice()) {
            assert(f(jv(*x)));
            assert(last_match(vv.take(i as int), f) == Some(i - 1));
            assert(vv[i - 1] == jv(*x));
            return brief_of(x, "cluster", "name");
        }
        i = i - 1;
    }
    string_from(Vec::<char>::new().as_slice())
}

fn object_path_of(endpoint: &str, id: i64) -> (r: String)
    ensures
        r@ == object_path(endpoint@, id),
{
    let mut t = chars_of("/api/");
    put(&mut t, api_path(endpoint).as_str());
    put(&mut t, "/");
    put_chars(&mut t, fmt_i64(id).as_slice());
    put(&mut t, "/");
    string_from(t.as_slice())
}

fn slash(a: &str, b: &str) -> (r: String)
    ensures
        r@ == a@ + "/"@ + b@,
{
    let mut t = chars_of(a);
    put(&mut t, "/");
    put(&mut t, b);
    string_from(t.as_slice())
}

fn ensure_step(endpoint: &str, query: Vec<(String, String)>, payload: Vec<(String, Json)>, natural: String) -> (r: Step)
    ensures
        step_view(r) == StepModel::Ensure(
            EnsureModel {
                endpoint: endpoint@,
                query: pairs_view(query@),
                payload: JVal::Object(jv_entries(payload@)),
                natural: natural@,
            },
        ),
{
    Step::Ensure(Ensure { endpoint: key(endpoint), query, payload: Json::Object(payload), natural })
}

fn named_step(stage: usize, o: &Json) -> (r: Step)
    requires
        stage <= 2 || stage == 5,
    ensures
        step_view(r) == step_spec(stage as int, jv(*o), seq![], JVal::Null),
{
    let mut q: Vec<(String, String)> = Vec::new();
    if stage != 5 {
        qpair(&mut q, "name", string_of(o, "name"));
    }
    qpair(&mut q, "slug", string_of(o, "slug"));
    let mut m = present_of(o, "name");
    add_all(&mut m, present_of(o, "slug"));
    let r = ensure_step(stage_name(stage), q, m, string_of(o, "slug"));
    proof {
        if stage == 5 {
            assert(pairs_view(q@) =~= seq![field_pair(jv(*o), "slug"@)]);
        } else {
            assert(pairs_view(q@) =~= seq![field_pair(jv(*o), "name"@), field_pair(jv(*o), "slug"@)]);
        }
    }
    r
}

fn choice_set_step(o: &Json) -> (r: Step)
    ensures
        step_view(r) == step_spec(3, jv(*o), seq![], JVal::Null),
{
    let name = string_of(o, "name");
    let mut q: Vec<(String, String)> = Vec::new();
    qpair(&mut q, "name", string_of(o, "name"));
    let mut m: Vec<(String, Json)> = Vec::new();
    member(&mut m, "name", Json::Str(string_of(o, "name")));
    member(&mut m, "extra_choices", member_or_of(o, "extra_choices", Json::Array(Vec::new())));
    assert(jv_list(Seq::<Json>::empty()) =~= Seq::<JVal>::empty());
    assert(pairs_view(q@) =~= seq![("name"@, name@)]);
    assert(jv_entries(m@) =~= seq![
        ("name"@, JVal::Str(name@)),
        ("extra_choices"@, member_or(jv(*o), "extra_choices"@, JVal::Array(seq![]))),
    ]);
    ensure_step("extras.custom-field-choice-sets", q, m, name)
}

fn custom_field_step(o: &Json, ids: &Vec<(String, String, i64, bool)>) -> (r: Step)
    ensures
        step_view(r) == step_spec(4, jv(*o), ids_view(ids@), JVal::Null),
{
    let name = string_of(o, "name");
    let mut q: Vec<(String, String)> = Vec::new();
    qpair(&mut q, "name", string_of(o, "name"));
    let mut m: Vec<(String, Json)> = Vec::new();
    member(&mut m, "name", Json::Str(string_of(o, "name")));
    member(&mut m, "type", value_of(o, "type"));
    member(&mut m, "object_types", member_or_of(o, "object_types", Json::Array(Vec::new())));
    assert(jv_list(Seq::<Json>::empty()) =~= Seq::<JVal>::empty());
    let ghost base = jv_entries(m@);
    match object_member_of(o, "choice_set") {
        Some(cs) => {
            let csn = string_of(cs, "name");
            match ref_id_of(ids, "extras.custom-field-choice-sets", csn.as_str()) {
                Some(id) => {
                    member(&mut m, "choice_set", num(id));
                },
                None => {},
            }
        },
        None => {},
    }
    assert(pairs_view(q@) =~= seq![("name"@, name@)]);
    assert(jv_entries(m@) =~= seq![
        ("name"@, JVal::Str(name@)),
        ("type"@, value_of_spec(jv(*o), "type"@)),
        ("object_types"@, member_or(jv(*o), "object_types"@, JVal::Array(seq![]))),
    ] + match object_member(jv(*o), "choice_set"@) {
        Some(cs) => match ref_id(ids_view(ids@), "extras.custom-field-choice-sets"@, string_of_spec(cs, "name"@)) {
            Some(id) => seq![("choice_set"@, jnum(id))],
            None => seq![],
        },
        None => seq![],
    });
    ensure_step("extras.custom-fields", q, m, name)
}

fn device_type_step(o: &Json, ids: &Vec<(String, String, i64, bool)>) -> (r: Step)
    ensures
        step_view(r) == step_spec(6, jv(*o), ids_view(ids@), JVal::Null),
{
    let slug = string_of(o, "slug");
    let mut q: Vec<(String, String)> = Vec::new();
    qpair(&mut q, "slug", string_of(o, "slug"));
    let mfg = brief_of(o, "manufacturer", "slug");
    let mut m: Vec<(String, Json)> = Vec::new();
    member(&mut m, "manufacturer", opt_num(ref_id_of(ids, "dcim.manufacturers", mfg.as_str())));
    member(&mut m, "model", Json::Str(string_of(o, "model")));
    member(&mut m, "slug", Json::Str(string_of(o, "slug")));
    assert(pairs_view(q@) =~= seq![("slug"@, slug@)]);
    assert(jv_entries(m@) =~= seq![
        ("manufacturer"@, jopt(ref_id(ids_view(ids@), "dcim.manufacturers"@, brief(jv(*o), "manufacturer"@, "slug"@)))),
        ("model"@, JVal::Str(string_of_spec(jv(*o), "model"@))),
        ("slug"@, JVal::Str(slug@)),
    ]);
    ensure_step("dcim.device-types", q, m, slug)
}

fn prefix_step(o: &Json, ids: &Vec<(String, String, i64, bool)>) -> (r: Step)
    ensures
        step_view(r) == step_spec(7, jv(*o), ids_view(ids@), JVal::Null),
{
    let prefix = string_of(o, "prefix");
    let mut q: Vec<(String, String)> = Vec::new();
    qpair(&mut q, "prefix", string_of(o, "prefix"));
    let mut m: Vec<(String, Json)> = Vec::new();
    member(&mut m, "prefix", Json::Str(string_of(o, "prefix")));
    member(&mut m, "description", Json::Str(string_of(o, "description")));
    add_all(&mut m, site_ref_of(o, ids));
    assert(pairs_view(q@) =~= seq![("prefix"@, prefix@)]);
    assert(jv_entries(m@) =~= seq![
        ("prefix"@, JVal::Str(prefix@)),
        ("description"@, JVal::Str(string_of_spec(jv(*o), "description"@))),
    ] + site_ref(jv(*o), ids_view(ids@)));
    ensure_step("ipam.prefixes", q, m, prefix)
}

fn vlan_step(o: &Json, ids: &Vec<(String, String, i64, bool)>) -> (r: Step)
    ensures
        step_view(r) == step_spec(8, jv(*o), ids_view(ids@), JVal::Null),
{
    let vid: i64 = match as_i64(get(o, "vid")) {
        Some(v) => v,
        None => 0,
    };
    let vt = string_from(fmt_i64(vid).as_slice());
    let mut q: Vec<(String, String)> = Vec::new();
    qpair(&mut q, "vid", string_from(fmt_i64(vid).as_slice()));
    let mut m: Vec<(String, Json)> = Vec::new();
    member(&mut m, "vid", num(vid));
    member(&mut m, "name", Json::Str(string_of(o, "name")));
    member(&mut m, "description", Json::Str(string_of(o, "description")));
    add_all(&mut m, site_ref_of(o, ids));
    assert(pairs_view(q@) =~= seq![("vid"@, int_text(vid as int))]);
    assert(jv_entries(m@) =~= seq![
        ("vid"@, jnum(vid)),
        ("name"@, JVal::Str(string_of_spec(jv(*o), "name"@))),
        ("description"@, JVal::Str(string_of_spec(jv(*o), "description"@))),
    ] + site_ref(jv(*o), ids_view(ids@)));
    ensure_step("ipam.vlans", q, m, vt)
}

fn device_step(o: &Json, ids: &Vec<(String, String, i64, bool)>) -> (r: Step)
    ensures
        step_view(r) == step_spec(9, jv(*o), ids_view(ids@), JVal::Null),
{
    let name = string_of(o, "name");
    let mut q: Vec<(String, String)> = Vec::new();
    qpair(&mut q, "name", string_of(o, "name"));
    let dt = brief_of(o, "device_type", "slug");
    let role = brief_of(o, "role", "slug");
    let site = brief_of(o, "site", "slug");
    let mut m: Vec<(String, Json)> = Vec::new();
    member(&mut m, "name", Json::Str(string_of(o, "name")));
    member(&mut m, "device_type", opt_num(ref_id_of(ids, "dcim.device-types", dt.as_str())));
    member(&mut m, "role", opt_num(ref_id_of(ids, "dcim.device-roles", role.as_str())));
    member(&mut m, "site", opt_num(ref_id_of(ids, "dcim.sites", site.as_str())));
    member(&mut m, "status", value_of(o, "status"));
    member(&mut m, "custom_fields", member_or_of(o, "custom_fields", Json::Object(Vec::new())));
    member(&mut m, "comments", Json::Str(string_of(o, "comments")));
    assert(jv_entries(Seq::<(String, Json)>::empty()) =~= Seq::<(Seq<char>, JVal)>::empty());
    assert(pairs_view(q@) =~= seq![("name"@, name@)]);
    assert(jv_entries(m@) =~= seq![
        ("name"@, JVal::Str(name@)),
        ("device_type"@, jopt(ref_id(ids_view(ids@), "dcim.device-types"@, brief(jv(*o), "device_type"@, "slug"@)))),
        ("role"@, jopt(ref_id(ids_view(ids@), "dcim.device-roles"@, brief(jv(*o), "role"@, "slug"@)))),
        ("site"@, jopt(ref_id(ids_view(ids@), "dcim.sites"@, brief(jv(*o), "site"@, "slug"@)))),
        ("status"@, value_of_spec(jv(*o), "status"@)),
        ("custom_fields"@, member_or(jv(*o), "custom_fields"@, JVal::Object(seq![]))),
        ("comments"@, JVal::Str(string_of_spec(jv(*o), "comments"@))),
    ]);
    ensure_step("dcim.devices", q, m, name)
}

fn cluster_step(o: &Json, ids: &Vec<(String, String, i64, bool)>) -> (r: Step)
    ensures
        step_view(r) == step_spec(10, jv(*o), ids_view(ids@), JVal::Null),
{
    let name = string_of(o, "name");
    let mut q: Vec<(String, String)> = Vec::new();
    qpair(&mut q, "name", string_of(o, "name"));
    let ctype = brief_of(o, "type", "slug");
    let mut m: Vec<(String, Json)> = Vec::new();
    member(&mut m, "name", Json::Str(string_of(o, "name")));
    member(&mut m, "type", opt_num(ref_id_of(ids, "virtualization.cluster-types", ctype.as_str())));
    let ghost base = jv_entries(m@);
    let site_scope = match as_str(get(o, "scope_type")) {
        Some(t) => eq_chars(chars_of(t).as_slice(), chars_of("dcim.site").as_slice()),
        None => false,
    };
    if site_scope {
        match any_site_of(ids) {
            Some(id) => {
                member(&mut m, "scope_type", text("dcim.site"));
                member(&mut m, "scope_id", num(id));
            },
            None => {},
        }
    }
    assert(pairs_view(q@) =~= seq![("name"@, name@)]);
    assert(jv_entries(m@) =~= seq![
        ("name"@, JVal::Str(name@)),
        ("type"@, jopt(ref_id(ids_view(ids@), "virtualization.cluster-types"@, brief(jv(*o), "type"@, "slug"@)))),
    ] + if jstr(jget(jv(*o), "scope_type"@)) == Some("dcim.site"@) {
        match any_site(ids_view(ids@)) {
            Some(id) => seq![("scope_type"@, JVal::Str("dcim.site"@)), ("scope_id"@, jnum(id))],
            None => seq![],
        }
    } else {
        seq![]
    });
    ensure_step("virtualization.clusters", q, m, name)
}

fn scoped_step(
    endpoint: &str,
    parent_field: &str,
    parent_id: i64,
    name: String,
    payload: Vec<(String, Json)>,
    natural: String,
) -> (r: Step)
    ensures
        step_view(r) == scoped(endpoint@, parent_field@, parent_id, name@, jv_entries(payload@), natural@),
{
    let ghost n = name@;
    let mut q: Vec<(String, String)> = Vec::new();
    qpair(&mut q, parent_field, string_from(fmt_i64(parent_id).as_slice()));
    qpair(&mut q, "name", name);
    assert(pairs_view(q@) =~= seq![(parent_field@, int_text(parent_id as int)), ("name"@, n)]);
    ensure_step(endpoint, q, payload, natural)
}

fn owned_step(stage: usize, o: &Json, ids: &Vec<(String, String, i64, bool)>) -> (r: Step)
    requires
        stage == 11 || stage == 12,
    ensures
        step_view(r) == step_spec(stage as int, jv(*o), ids_view(ids@), JVal::Null),
{
    let name = string_of(o, "name");
    let dev = brief_of(o, "device", "name");
    match ref_id_of(ids, "dcim.devices", dev.as_str()) {
        Some(dev_id) => {
            let mut m: Vec<(String, Json)> = Vec::new();
            member(&mut m, "device", num(dev_id));
            member(&mut m, "name", Json::Str(string_of(o, "name")));
            if stage == 11 {
                member(&mut m, "type", text("other"));
                assert(jv_entries(m@) =~= seq![
                    ("device"@, jnum(dev_id)),
                    ("name"@, JVal::Str(name@)),
                    ("type"@, JVal::Str("other"@)),
                ]);
            } else {
                member(&mut m, "description", Json::Str(string_of(o, "description")));
                assert(jv_entries(m@) =~= seq![
                    ("device"@, jnum(dev_id)),
                    ("name"@, JVal::Str(name@)),
                    ("description"@, JVal::Str(string_of_spec(jv(*o), "description"@))),
                ]);
            }
            let natural = slash(dev.as_str(), name.as_str());
            scoped_step(stage_name(stage), "device_id", dev_id, name, m, natural)
        },
        None => Step::Skip,
    }
}

fn vm_step(o: &Json, ids: &Vec<(String, String, i64, bool)>) -> (r: Step)
    ensures
        step_view(r) == step_spec(13, jv(*o), ids_view(ids@), JVal::Null),
{
    let name = string_of(o, "name");
    let cluster = brief_of(o, "cluster", "name");
    match ref_id_of(ids, "virtualization.clusters", cluster.as_str()) {
        Some(cid) => {
            let mut m: Vec<(String, Json)> = Vec::new();
            member(&mut m, "name", Json::Str(string_of(o, "name")));
            member(&mut m, "cluster", num(cid));
            member(&mut m, "status", value_of(o, "status"));
            member(&mut m, "custom_fields", member_or_of(o, "custom_fields", Json::Object(Vec::new())));
            member(&mut m, "comments", Json::Str(string_of(o, "comments")));
            assert(jv_entries(Seq::<(String, Json)>::empty()) =~= Seq::<(Seq<char>, JVal)>::empty());
            assert(jv_entries(m@) =~= seq![
                ("name"@, JVal::Str(name@)),
                ("cluster"@, jnum(cid)),
                ("status"@, value_of_spec(jv(*o), "status"@)),
                ("custom_fields"@, member_or(jv(*o), "custom_fields"@, JVal::Object(seq![]))),
                ("comments"@, JVal::Str(string_of_spec(jv(*o), "comments"@))),
            ]);
            let natural = slash(cluster.as_str(), name.as_str());
            scoped_step("virtualization.virtual-machines", "cluster_id", cid, name, m, natural)
        },
        None => Step::Skip,
    }
}

fn vm_interface_step(o: &Json, ids: &Vec<(String, String, i64, bool)>, escrow: &Json) -> (r: Step)
    ensures
        step_view(r) == step_spec(14, jv(*o), ids_view(ids@), jv(*escrow)),
{
    let name = string_of(o, "name");
    let vm = brief_of(o, "virtual_machine", "name");
    let cluster = vm_cluster_of(escrow, vm.as_str());
    let key_of_vm = slash(cluster.as_str(), vm.as_str());
    match ref_id_of(ids, "virtualization.virtual-machines", key_of_vm.as_str()) {
        Some(vm_id) => {
            let mut m: Vec<(String, Json)> = Vec::new();
            member(&mut m, "virtual_machine", num(vm_id));
            member(&mut m, "name", Json::Str(string_of(o, "name")));
            assert(jv_entries(m@) =~= seq![("virtual_machine"@, jnum(vm_id)), ("name"@, JVal::Str(name@))]);
            let natural = slash(vm.as_str(), name.as_str());
            scoped_step("virtualization.interfaces", "virtual_machine_id", vm_id, name, m, natural)
        },
        None => Step::Skip,
    }
}

fn ip_step(o: &Json, ids: &Vec<(String, String, i64, bool)>, escrow: &Json) -> (r: Step)
    ensures
        step_view(r) == step_spec(15, jv(*o), ids_view(ids@), jv(*escrow)),
{
    let addr = string_of(o, "address");
    let mut q: Vec<(String, String)> = Vec::new();
    qpair(&mut q, "address", string_of(o, "address"));
    let mut m: Vec<(String, Json)> = Vec::new();
    member(&mut m, "address", Json::Str(string_of(o, "address")));
    member(&mut m, "description", Json::Str(string_of(o, "description")));
    add_all(&mut m, binding_of(o, ids, escrow));
    assert(pairs_view(q@) =~= seq![("address"@, addr@)]);
    assert(jv_entries(m@) =~= seq![
        ("address"@, JVal::Str(addr@)),
        ("description"@, JVal::Str(string_of_spec(jv(*o), "description"@))),
    ] + binding(jv(*o), ids_view(ids@), jv(*escrow)));
    ensure_step("ipam.ip-addresses", q, m, addr)
}

fn primary_ip_step(stage: usize, o: &Json, ids: &Vec<(String, String, i64, bool)>) -> (r: Step)
    requires
        stage == 16 || stage == 17,
    ensures
        step_view(r) == step_spec(stage as int, jv(*o), ids_view(ids@), JVal::Null),
{
    let endpoint = stage_name(stage);
    let natural = if stage == 16 {
        string_of(o, "name")
    } else {
        let cluster = brief_of(o, "cluster", "name");
        let name = string_of(o, "name");
        slash(cluster.as_str(), name.as_str())
    };
    match ref_id_of(ids, endpoint, natural.as_str()) {
        Some(id) => {
            let mut m = ip_field_of(o, ids, "primary_ip4");
            add_all(&mut m, ip_field_of(o, ids, "oob_ip"));
            Step::Patch(object_path_of(endpoint, id), m)
        },
        None => Step::Skip,
    }
}

fn step_for(stage: usize, o: &Json, ids: &Vec<(String, String, i64, bool)>, escrow: &Json) -> (r: Step)
    requires
        stage < RESTORE_STAGES,
    ensures
        step_view(r) == step_spec(stage as int, jv(*o), ids_view(ids@), jv(*escrow)),
{
    if stage <= 2 || stage == 5 {
        named_step(stage, o)
    } else if stage == 3 {
        choice_set_step(o)
    } else if stage == 4 {
        custom_field_step(o, ids)
    } else if stage == 6 {
        device_type_step(o, ids)
    } else if stage == 7 {
        prefix_step(o, ids)
    } else if stage == 8 {
        vlan_step(o, ids)
    } else if stage == 9 {
        device_step(o, ids)
    } else if stage == 10 {
        cluster_step(o, ids)
    } else if stage == 11 || stage == 12 {
        owned_step(stage, o, ids)
    } else if stage == 13 {
        vm_step(o, ids)
    } else if stage == 14 {
        vm_interface_step(o, ids, escrow)
    } else if stage == 15 {
        ip_step(o, ids, escrow)
    } else {
        primary_ip_step(stage, o, ids)
    }
}

/// What a run asks the binary to do next. Paths are relative to the
/// NetBox base URL.
#[derive(Debug)]
pub enum RestoreAction {
    /// Nothing to send: take the next step.
    Continue,
    /// GET this path, and hand the answer to `looked_up`.
    Lookup(String),
    /// POST this JSON body to this path, and hand the answer to `created`.
    Create(String, String),
    /// PATCH this JSON body to this path, and hand the answer to `updated`.
    Update(String, String),
    /// Every object of the escrow has been restored.
    Done,
}

/// The abstract content of a [`RestoreAction`].
pub enum ActionModel {
    Continue,
    Lookup(Seq<char>),
    Create(Seq<char>, Seq<char>),
    Update(Seq<char>, Seq<char>),
    Done,
}

pub open spec fn action_view(a: RestoreAction) -> ActionModel {
    match a {
        RestoreAction::Continue => ActionModel::Continue,
        RestoreAction::Lookup(p) => ActionModel::Lookup(p@),
        RestoreAction::Create(p, b) => ActionModel::Create(p@, b@),
        RestoreAction::Update(p, b) => ActionModel::Update(p@, b@),
        RestoreAction::Done => ActionModel::Done,
    }
}

/// Why an answer stops a run.
#[derive(Debug, Clone, Copy, PartialEq, Eq, Structural)]
pub enum RestoreFault {
    /// The server refused a write (status 300 or above).
    Rejected,
    /// The answer's body is not JSON.
    Unparsable,
}

/// A restore in progress: the escrow, the ids recorded so far (with whether
/// each object was created or found), the stage and object it is at, and
/// the object awaiting an answer.
pub struct RestoreRun {
    escrow: Json,
    records: Vec<(String, String, i64, bool)>,
    stage: usize,
    index: usize,
    pending: Option<Ensure>,
}

/// The abstract state of a [`RestoreRun`].
pub struct RunModel {
    pub escrow: JVal,
    pub records: Seq<(Seq<char>, Seq<char>, i64, bool)>,
    pub stage: int,
    pub index: int,
    pub pending: Option<EnsureModel>,
}

pub open spec fn records_view(v: Seq<(String, String, i64, bool)>) -> Seq<(Seq<char>, Seq<char>, i64, bool)> {
    v.map_values(|e: (String, String, i64, bool)| (e.0@, e.1@, e.2, e.3))
}

impl View for RestoreRun {
    type V = RunModel;

    closed spec fn view(&self) -> RunModel {
        RunModel {
            escrow: jv(self.escrow),
            records: records_view(self.records@),
            stage: self.stage as int,
            index: self.index as int,
            pending: match self.pending {
                Some(e) => Some(ensure_view(e)),
                None => None,
            },
        }
    }
}

/// The ids a run has recorded.
pub open spec fn run_ids(m: RunModel) -> Seq<(Seq<char>, Seq<char>, i64)> {
    m.records.map_values(|e: (Seq<char>, Seq<char>, i64, bool)| (e.0, e.1, e.2))
}

/// The path that looks an object up by its natural key.
pub open spec fn lookup_path(e: EnsureModel) -> Seq<char> {
    "/api/"@ + crate::text::replace(e.endpoint, "."@, "/"@) + "/?"@ + query_spec(e.query)
}

/// The path an object is created at.
pub open spec fn create_path(e: EnsureModel) -> Seq<char> {
    "/api/"@ + crate::text::replace(e.endpoint, "."@, "/"@) + "/"@
}

/// The run moved on to the next object.
pub open spec fn advanced(m: RunModel) -> RunModel {
    RunModel { escrow: m.escrow, records: m.records, stage: m.stage, index: m.index + 1, pending: None }
}

/// One step of a run: the action it asks for and the state it leaves. A
/// stage walks its endpoint's objects; an object whose reference is
/// missing is skipped; an object whose key is already recorded asks
/// nothing; any other object is looked up by its natural key; a patch
/// with no field to set asks nothing.
pub open spec fn next_step(m: RunModel) -> (ActionModel, RunModel) {
    let objs = array_of(m.escrow, stage_endpoint(m.stage));
    if m.stage >= RESTORE_STAGES {
        (ActionModel::Done, m)
    } else if m.index >= objs.len() {
        (ActionModel::Continue, RunModel { escrow: m.escrow, records: m.records, stage: m.stage + 1, index: 0, pending: None })
    } else {
        match step_spec(m.stage, objs[m.index], run_ids(m), m.escrow) {
            StepModel::Skip => (ActionModel::Continue, advanced(m)),
            StepModel::Ensure(e) => if ref_id(run_ids(m), e.endpoint, e.natural) is Some {
                (ActionModel::Continue, advanced(m))
            } else {
                (
                    ActionModel::Lookup(lookup_path(e)),
                    RunModel { escrow: m.escrow, records: m.records, stage: m.stage, index: m.index + 1, pending: Some(e) },
                )
            },
            StepModel::Patch(path, fields) => (
                if fields.len() == 0 {
                    ActionModel::Continue
                } else {
                    ActionModel::Update(path, json_text(JVal::Object(fields)))
                },
                advanced(m),
            ),
        }
    }
}

/// The pending object recorded under an id.
pub open spec fn recorded(m: RunModel, id: i64, created: bool) -> RunModel {
    let e = m.pending->0;
    RunModel {
        escrow: m.escrow,
        records: m.records.push((e.endpoint, e.natural, id, created)),
        stage: m.stage,
        index: m.index,
        pending: None,
    }
}

/// How many objects a lookup answer found.
pub open spec fn found_count(v: JVal) -> i64 {
    match jint(jget(v, "count"@)) {
        Some(n) => n,
        None => 0,
    }
}

/// The id of the first object a lookup answer found, or 0.
pub open spec fn found_id(v: JVal) -> i64 {
    match jget(v, "results"@) {
        Some(JVal::Array(a)) => if a.len() > 0 {
            match jint(jget(a[0], "id"@)) {
                Some(i) => i,
                None => 0,
            }
        } else {
            0
        },
        _ => 0,
    }
}

/// The id of a created object, or 0.
pub open spec fn created_id(v: JVal) -> i64 {
    match jint(jget(v, "id"@)) {
        Some(i) => i,
        None => 0,
    }
}

/// Whether a run's records hold each (endpoint, natural key) once.
pub open spec fn keys_unique(records: Seq<(Seq<char>, Seq<char>, i64, bool)>) -> bool {
    forall|i: int, j: int|
        0 <= i < j < records.len() ==> !(#[trigger] records[i].0 == #[trigger] records[j].0 && records[i].1
            == records[j].1)
}

/// Whether the object awaiting an answer is not recorded yet.
pub open spec fn pending_fresh(m: RunModel) -> bool {
    match m.pending {
        Some(e) => ref_id(run_ids(m), e.endpoint, e.natural) is None,
        None => true,
    }
}

fn objects_at<'a>(escrow: &'a Json, endpoint: &str) -> (r: &'a [Json])
    ensures
        jv_list(r@) == array_of(jv(*escrow), endpoint@),
{
    match as_array(get(escrow, endpoint)) {
        Some(a) => a.as_slice(),
        None => {
            assert(jv_list(Seq::<Json>::empty()) =~= Seq::<JVal>::empty());
            &[]
        },
    }
}

fn lookup_path_of(e: &Ensure) -> (r: String)
    ensures
        r@ == lookup_path(ensure_view(*e)),
{
    let mut t = chars_of("/api/");
    put(&mut t, api_path(e.endpoint.as_str()).as_str());
    put(&mut t, "/?");
    let q = query_string(&e.query);
    assert(e.query@.map_values(|p: (String, String)| (p.0@, p.1@)) =~= pairs_view(e.query@));
    put(&mut t, q.as_str());
    string_from(t.as_slice())
}

fn create_path_of(e: &Ensure) -> (r: String)
    ensures
        r@ == create_path(ensure_view(*e)),
{
    let mut t = chars_of("/api/");
    put(&mut t, api_path(e.endpoint.as_str()).as_str());
    put(&mut t, "/");
    string_from(t.as_slice())
}

impl RestoreRun {
    /// Starts a restore of an escrow document, at its first stage.
    pub fn new(escrow: Json) -> (r: RestoreRun)
        ensures
            r@.escrow == jv(escrow),
            r@.records == Seq::<(Seq<char>, Seq<char>, i64, bool)>::empty(),
            r@.stage == 0,
            r@.index == 0,
            r@.pending is None,
    {
        let r = RestoreRun { escrow, records: Vec::new(), stage: 0, index: 0, pending: None };
        assert(records_view(r.records@) =~= Seq::<(Seq<char>, Seq<char>, i64, bool)>::empty());
        r
    }

    /// Starts another pass over an escrow, keeping the ids recorded so far:
    /// an object already recorded asks for no request.
    pub fn restart(self, escrow: Json) -> (r: RestoreRun)
        ensures
            r@.escrow == jv(escrow),
            r@.records == self@.records,
            r@.stage == 0,
            r@.index == 0,
            r@.pending is None,
    {
        RestoreRun { escrow, records: self.records, stage: 0, index: 0, pending: None }
    }

    /// Whether an object awaits the answer to a lookup or a creation.
    pub fn awaiting(&self) -> (r: bool)
        ensures
            r == self@.pending is Some,
    {
        self.pending.is_some()
    }

    /// Takes one step: see [`next_step`].
    pub fn step(&mut self) -> (r: RestoreAction)
        requires
            old(self)@.pending is None,
        ensures
            (action_view(r), final(self)@) == next_step(old(self)@),
    {
        let ghost m = self@;
        if self.stage >= RESTORE_STAGES {
            return RestoreAction::Done;
        }
        let n = {
            let objs = objects_at(&self.escrow, stage_name(self.stage));
            proof {
                lemma_jv_list(objs@);
            }
            objs.len()
        };
        if self.index >= n {
            self.stage = self.stage + 1;
            self.index = 0;
            return RestoreAction::Continue;
        }
        let ghost ids = run_ids(m);
        assert(ids_view(self.records@) =~= ids);
        let step = {
            let objs = objects_at(&self.escrow, stage_name(self.stage));
            proof {
                lemma_jv_list(objs@);
            }
            step_for(self.stage, &objs[self.index], &self.records, &self.escrow)
        };
        match step {
            Step::Skip => {
                self.index = self.index + 1;
                RestoreAction::Continue
            },
            Step::Ensure(e) => {
                if ref_id_of(&self.records, e.endpoint.as_str(), e.natural.as_str()).is_some() {
                    self.index = self.index + 1;
                    RestoreAction::Continue
                } else {
                    let path = lookup_path_of(&e);
                    self.pending = Some(e);
                    self.index = self.index + 1;
                    RestoreAction::Lookup(path)
                }
            },
            Step::Patch(path, fields) => {
                self.index = self.index + 1;
                if fields.len() == 0 {
                    proof {
                        lemma_jv_entries(fields@);
                    }
                    RestoreAction::Continue
                } else {
                    proof {
                        lemma_jv_entries(fields@);
                    }
                    let body = json_string(&Json::Object(fields));
                    RestoreAction::Update(path, body)
                }
            },
        }
    }

    fn record(&mut self, id: i64, created: bool)
        requires
            old(self)@.pending is Some,
        ensures
            final(self)@ == recorded(old(self)@, id, created),
    {
        let e = self.pending.take().unwrap();
        let ghost prev = records_view(self.records@);
        self.records.push((e.endpoint, e.natural, id, created));
        assert(records_view(self.records@) =~= prev.push((old(self)@.pending->0.endpoint, old(self)@.pending->0.natural, id, created)));
    }

    /// Takes the answer to a lookup: an object it found is recorded under
    /// the first result's id and the run moves on; otherwise the object is
    /// to be created. A body that is not JSON stops the run.
    pub fn looked_up(&mut self, body: &str) -> (r: Result<Option<RestoreAction>, RestoreFault>)
        requires
            old(self)@.pending is Some,
        ensures
            match json_parse(body@) {
                None => r == Err::<Option<RestoreAction>, RestoreFault>(RestoreFault::Unparsable) && final(self)@ == old(self)@,
                Some(v) => if found_count(v) > 0 {
                    r matches Ok(None) && final(self)@ == recorded(old(self)@, found_id(v), false)
                } else {
                    &&& r matches Ok(Some(a))
                    &&& action_view(a) == ActionModel::Create(
                        create_path(old(self)@.pending->0),
                        json_text(old(self)@.pending->0.payload),
                    )
                    &&& final(self)@ == old(self)@
                },
            },
    {
        let v = match parse_json(body) {
            Some(v) => v,
            None => return Err(RestoreFault::Unparsable),
        };
        let count: i64 = match as_i64(get(&v, "count")) {
            Some(n) => n,
            None => 0,
        };
        if count > 0 {
            let id: i64 = match get(&v, "results") {
                Some(x) => match x {
                    Json::Array(a) => {
                        proof {
                            lemma_jv_list(a@);
                        }
                        if a.len() > 0 {
                            match as_i64(get(&a[0], "id")) {
                                Some(i) => i,
                                None => 0,
                            }
                        } else {
                            0
                        }
                    },
                    _ => 0,
                },
                None => 0,
            };
            self.record(id, false);
            Ok(None)
        } else {
            let e = self.pending.as_ref().unwrap();
            Ok(Some(RestoreAction::Create(create_path_of(e), json_string(&e.payload))))
        }
    }

    /// Takes the answer to a creation: the object is recorded under the id
    /// the server assigned (0 when the answer names none). A refused write
    /// or a body that is not JSON stops the run.
    pub fn created(&mut self, status: u16, body: &str) -> (r: Result<(), RestoreFault>)
        requires
            old(self)@.pending is Some,
        ensures
            status >= 300 ==> r == Err::<(), RestoreFault>(RestoreFault::Rejected) && final(self)@ == old(self)@,
            status < 300 ==> match json_parse(body@) {
                None => r == Err::<(), RestoreFault>(RestoreFault::Unparsable) && final(self)@ == old(self)@,
                Some(v) => r is Ok && final(self)@ == recorded(old(self)@, created_id(v), true),
            },
    {
        if status >= 300 {
            return Err(RestoreFault::Rejected);
        }
        let v = match parse_json(body) {
            Some(v) => v,
            None => return Err(RestoreFault::Unparsable),
        };
        let id: i64 = match as_i64(get(&v, "id")) {
            Some(i) => i,
            None => 0,
        };
        self.record(id, true);
        Ok(())
    }

    /// Checks the answer to a patch: a refused write or a body that is not
    /// JSON stops the run.
    pub fn updated(&self, status: u16, body: &str) -> (r: Result<(), RestoreFault>)
        ensures
            status >= 300 ==> r == Err::<(), RestoreFault>(RestoreFault::Rejected),
            status < 300 ==> r == (match json_parse(body@) {
                None => Err::<(), RestoreFault>(RestoreFault::Unparsable),
                Some(_) => Ok(()),
            }),
    {
        if status >= 300 {
            return Err(RestoreFault::Rejected);
        }
        match parse_json(body) {
            Some(_) => Ok(()),
            None => Err(RestoreFault::Unparsable),
        }
    }

    /// What the run created and found so far.
    pub fn report(&self) -> (r: RestoreReport)
        ensures
            r.created == count_flag(self@.records, true),
            r.existing == count_flag(self@.records, false),
    {
        let ghost rs = self@.records;
        let mut report = RestoreReport { created: 0, existing: 0 };
        let mut i: usize = 0;
        while i < self.records.len()
            invariant
                i <= self.records@.len(),
                rs == records_view(self.records@),
                report.created == count_flag(rs.take(i as int), true),
                report.existing == count_flag(rs.take(i as int), false),
                report.created + report.existing == i,
            decreases self.records@.len() - i,
        {
            assert(rs.take(i + 1).drop_last() =~= rs.take(i as int));
            assert(rs.take(i + 1).last().3 == self.records@[i as int].3);
            if self.records[i].3 {
                report.created = report.created + 1;
            } else {
                report.existing = report.existing + 1;
            }
            i = i + 1;
        }
        assert(rs.take(i as int) =~= rs);
        report
    }
}

/// How many records carry a flag: created (`true`) or found (`false`).
pub open spec fn count_flag(records: Seq<(Seq<char>, Seq<char>, i64, bool)>, flag: bool) -> nat
    decreases records.len(),
{
    if records.len() == 0 {
        0
    } else {
        count_flag(records.drop_last(), flag) + if records.last().3 == flag {
            1nat
        } else {
            0nat
        }
    }
}

/// A run never records a natural key twice: a step leaves the records as
/// they are and only awaits an object whose key is not recorded, and an
/// answer records exactly that object.
pub proof fn law_keys_stay_unique(m: RunModel, id: i64, created: bool)
    requires
        keys_unique(m.records),
        pending_fresh(m),
    ensures
        m.pending is None ==> keys_unique(next_step(m).1.records) && pending_fresh(next_step(m).1),
        m.pending is Some ==> keys_unique(recorded(m, id, created).records) && pending_fresh(recorded(m, id, created)),
{
    if m.pending is Some {
        let e = m.pending->0;
        let ids = run_ids(m);
        lemma_first_match(ids, id_is(e.endpoint, e.natural));
        let r = recorded(m, id, created).records;
        assert forall|i: int, j: int| 0 <= i < j < r.len() implies !(#[trigger] r[i].0 == #[trigger] r[j].0 && r[i].1
            == r[j].1) by {
            if j == r.len() - 1 {
                assert(ids[i] == (m.records[i].0, m.records[i].1, m.records[i].2));
                assert(!id_is(e.endpoint, e.natural)(ids[i]));
            } else {
                assert(r[i] == m.records[i] && r[j] == m.records[j]);
            }
        }
    }
}

/// Re-running a restore is safe: an object whose natural key is already
/// recorded asks for no request, and the run moves past it.
pub proof fn law_recorded_objects_ask_nothing(m: RunModel)
    requires
        m.pending is None,
        0 <= m.stage < RESTORE_STAGES,
        0 <= m.index < array_of(m.escrow, stage_endpoint(m.stage)).len(),
        step_spec(m.stage, array_of(m.escrow, stage_endpoint(m.stage))[m.index], run_ids(m), m.escrow) matches StepModel::Ensure(e)
            && ref_id(run_ids(m), e.endpoint, e.natural) is Some,
    ensures
        next_step(m).0 == ActionModel::Continue,
        next_step(m).1 == advanced(m),
{
}

/// The object a stage's current step makes sure of, if it makes sure of one.
pub open spec fn ensure_at(m: RunModel) -> Option<EnsureModel> {
    match step_spec(m.stage, array_of(m.escrow, stage_endpoint(m.stage))[m.index], run_ids(m), m.escrow) {
        StepModel::Ensure(e) => Some(e),
        _ => None,
    }
}

/// Restoring an object whose natural key is not recorded yet costs one
/// lookup by that key; whatever the answer (found, or created after it),
/// the run records exactly that object under the answered id, the report
/// grows by exactly one (found or created), and nothing else changes.
pub proof fn law_missing_key_costs_one_lookup(m: RunModel, id: i64, created: bool)
    requires
        m.pending is None,
        0 <= m.stage < RESTORE_STAGES,
        0 <= m.index < array_of(m.escrow, stage_endpoint(m.stage)).len(),
        ensure_at(m) is Some,
        ref_id(run_ids(m), ensure_at(m)->0.endpoint, ensure_at(m)->0.natural) is None,
    ensures
        ({
            let e = ensure_at(m)->0;
            let m1 = next_step(m).1;
            let m2 = recorded(m1, id, created);
            &&& next_step(m).0 == ActionModel::Lookup(lookup_path(e))
            &&& m1.records == m.records
            &&& m1.pending == Some(e)
            &&& m1.index == m.index + 1
            &&& m2.records == m.records.push((e.endpoint, e.natural, id, created))
            &&& count_flag(m2.records, created) == count_flag(m.records, created) + 1
            &&& count_flag(m2.records, !created) == count_flag(m.records, !created)
            &&& ref_id(run_ids(m2), e.endpoint, e.natural) == Some(id)
            &&& m2.pending is None
        }),
{
    let e = ensure_at(m)->0;
    let m1 = next_step(m).1;
    let m2 = recorded(m1, id, created);
    let r2 = m2.records;
    assert(r2.drop_last() =~= m.records);
    let ids = run_ids(m);
    let ids2 = run_ids(m2);
    lemma_first_match(ids, id_is(e.endpoint, e.natural));
    assert(ids2 =~= ids.push((e.endpoint, e.natural, id)));
    assert forall|j: int| 0 <= j < ids.len() implies !id_is(e.endpoint, e.natural)(#[trigger] ids2[j]) by {
        assert(ids2[j] == ids[j]);
    }
    lemma_first_match_at(ids2, id_is(e.endpoint, e.natural), ids.len() as int);
}

/// The number of endpoints a wipe empties.
pub const WIPE_STAGES: usize = 16;

/// The API endpoints a wipe empties, children before parents: the reverse
/// of the restore's creation order.
pub open spec fn wipe_endpoint(stage: int) -> Seq<char> {
    if stage == 0 {
        "ipam/ip-addresses"@
    } else if stage == 1 {
        "virtualization/interfaces"@
    } else if stage == 2 {
        "virtualization/virtual-machines"@
    } else if stage == 3 {
        "virtualization/clusters"@
    } else if stage == 4 {
        "virtualization/cluster-types"@
    } else if stage == 5 {
        "dcim/inventory-items"@
    } else if stage == 6 {
        "dcim/interfaces"@
    } else if stage == 7 {
        "dcim/devices"@
    } else if stage == 8 {
        "dcim/device-types"@
    } else if stage == 9 {
        "dcim/device-roles"@
    } else if stage == 10 {
        "dcim/manufacturers"@
    } else if stage == 11 {
        "ipam/vlans"@
    } else if stage == 12 {
        "ipam/prefixes"@
    } else if stage == 13 {
        "dcim/sites"@
    } else if stage == 14 {
        "extras/custom-fields"@
    } else {
        "extras/custom-field-choice-sets"@
    }
}

fn wipe_name(stage: usize) -> (r: &'static str)
    ensures
        r@ == wipe_endpoint(stage as int),
{
    if stage == 0 {
        "ipam/ip-addresses"
    } else if stage == 1 {
        "virtualization/interfaces"
    } else if stage == 2 {
        "virtualization/virtual-machines"
    } else if stage == 3 {
        "virtualization/clusters"
    } else if stage == 4 {
        "virtualization/cluster-types"
    } else if stage == 5 {
        "dcim/inventory-items"
    } else if stage == 6 {
        "dcim/interfaces"
    } else if stage == 7 {
        "dcim/devices"
    } else if stage == 8 {
        "dcim/device-types"
    } else if stage == 9 {
        "dcim/device-roles"
    } else if stage == 10 {
        "dcim/manufacturers"
    } else if stage == 11 {
        "ipam/vlans"
    } else if stage == 12 {
        "ipam/prefixes"
    } else if stage == 13 {
        "dcim/sites"
    } else if stage == 14 {
        "extras/custom-fields"
    } else {
        "extras/custom-field-choice-sets"
    }
}

/// What a wipe asks the binary to do next. Paths are relative to the
/// NetBox base URL.
#[derive(Debug)]
pub enum WipeAction {
    /// GET this page of the current endpoint, and hand the answer to `listed`.
    List(String),
    /// DELETE the object at this path, and hand the status to `deleted_one`.
    Delete(String),
    /// Every endpoint is empty; this many objects were deleted.
    Done(usize),
}

/// The abstract content of a [`WipeAction`].
pub enum WipeActionModel {
    List(Seq<char>),
    Delete(Seq<char>),
    Done(nat),
}

pub open spec fn wipe_action_view(a: WipeAction) -> WipeActionModel {
    match a {
        WipeAction::List(p) => WipeActionModel::List(p@),
        WipeAction::Delete(p) => WipeActionModel::Delete(p@),
        WipeAction::Done(n) => WipeActionModel::Done(n as nat),
    }
}

/// A wipe in progress: the endpoint it empties, the ids of the last page
/// listed and how many of them were sent for deletion, and the count of
/// deleted objects.
pub struct WipeRun {
    stage: usize,
    queue: Vec<i64>,
    next: usize,
    deleted: usize,
}

/// The abstract state of a [`WipeRun`].
pub struct WipeModel {
    pub stage: int,
    pub queue: Seq<i64>,
    pub next: int,
    pub deleted: nat,
}

impl View for WipeRun {
    type V = WipeModel;

    closed spec fn view(&self) -> WipeModel {
        WipeModel { stage: self.stage as int, queue: self.queue@, next: self.next as int, deleted: self.deleted as nat }
    }
}

/// The path listing a page of an endpoint.
pub open spec fn list_path(stage: int) -> Seq<char> {
    "/api/"@ + wipe_endpoint(stage) + "/?limit=200"@
}

/// The path of one object of an endpoint.
pub open spec fn delete_path(stage: int, id: i64) -> Seq<char> {
    "/api/"@ + wipe_endpoint(stage) + "/"@ + int_text(id as int) + "/"@
}

/// One step of a wipe: delete the next listed id, else list the endpoint
/// again; done after the last endpoint.
pub open spec fn next_wipe(m: WipeModel) -> (WipeActionModel, WipeModel) {
    if m.stage >= WIPE_STAGES {
        (WipeActionModel::Done(m.deleted), m)
    } else if m.next < m.queue.len() {
        (
            WipeActionModel::Delete(delete_path(m.stage, m.queue[m.next])),
            WipeModel { stage: m.stage, queue: m.queue, next: m.next + 1, deleted: m.deleted },
        )
    } else {
        (WipeActionModel::List(list_path(m.stage)), m)
    }
}

/// The id of a listed object, where it has one.
pub open spec fn listed_id(o: JVal) -> Option<i64> {
    jint(jget(o, "id"@))
}

/// The state after a page is listed: an empty page moves to the next
/// endpoint; otherwise the page's ids are queued for deletion.
pub open spec fn after_listing(m: WipeModel, page: JVal) -> WipeModel {
    let results = array_of(page, "results"@);
    if results.len() == 0 {
        WipeModel { stage: m.stage + 1, queue: seq![], next: 0, deleted: m.deleted }
    } else {
        WipeModel { stage: m.stage, queue: filter_map(results, |o: JVal| listed_id(o)), next: 0, deleted: m.deleted }
    }
}

impl WipeRun {
    /// Starts a wipe at its first endpoint.
    pub fn new() -> (r: WipeRun)
        ensures
            r@ == (WipeModel { stage: 0, queue: seq![], next: 0, deleted: 0 }),
    {
        let r = WipeRun { stage: 0, queue: Vec::new(), next: 0, deleted: 0 };
        assert(r@.queue =~= Seq::<i64>::empty());
        r
    }

    /// How many objects were deleted so far.
    pub fn deleted(&self) -> (r: usize)
        ensures
            r == self@.deleted,
    {
        self.deleted
    }

    /// Whether every endpoint has been emptied.
    pub fn finished(&self) -> (r: bool)
        ensures
            r == (self@.stage >= WIPE_STAGES),
    {
        self.stage >= WIPE_STAGES
    }

    /// Takes one step: see [`next_wipe`].
    pub fn step(&mut self) -> (r: WipeAction)
        ensures
            (wipe_action_view(r), final(self)@) == next_wipe(old(self)@),
    {
        if self.stage >= WIPE_STAGES {
            return WipeAction::Done(self.deleted);
        }
        if self.next < self.queue.len() {
            let id = self.queue[self.next];
            let mut t = chars_of("/api/");
            put(&mut t, wipe_name(self.stage));
            put(&mut t, "/");
            put_chars(&mut t, fmt_i64(id).as_slice());
            put(&mut t, "/");
            self.next = self.next + 1;
            WipeAction::Delete(string_from(t.as_slice()))
        } else {
            let mut t = chars_of("/api/");
            put(&mut t, wipe_name(self.stage));
            put(&mut t, "/?limit=200");
            WipeAction::List(string_from(t.as_slice()))
        }
    }

    /// Takes a listed page: see [`after_listing`]. A body that is not JSON
    /// stops the wipe.
    pub fn listed(&mut self, body: &str) -> (r: Result<(), RestoreFault>)
        requires
            old(self)@.stage < WIPE_STAGES,
        ensures
            match json_parse(body@) {
                None => r == Err::<(), RestoreFault>(RestoreFault::Unparsable) && final(self)@ == old(self)@,
                Some(v) => r is Ok && final(self)@ == after_listing(old(self)@, v),
            },
    {
        let v = match parse_json(body) {
            Some(v) => v,
            None => return Err(RestoreFault::Unparsable),
        };
        let results = objects_at(&v, "results");
        let ghost rv = array_of(jv(v), "results"@);
        let ghost f = |o: JVal| listed_id(o);
        proof {
            lemma_jv_list(results@);
        }
        if results.len() == 0 {
            self.stage = self.stage + 1;
            self.queue = Vec::new();
            self.next = 0;
            assert(self@.queue =~= Seq::<i64>::empty());
            return Ok(());
        }
        let mut ids: Vec<i64> = Vec::new();
        let mut i: usize = 0;
        while i < results.len()
            invariant
                i <= results@.len(),
                rv == jv_list(results@),
                rv.len() == results@.len(),
                forall|k: int| 0 <= k < results@.len() ==> #[trigger] rv[k] == jv(results@[k]),
                f == (|o: JVal| listed_id(o)),
                ids@ == filter_map(rv.take(i as int), f),
            decreases results@.len() - i,
        {
            assert(rv.take(i + 1).drop_last() =~= rv.take(i as int));
            assert(rv.take(i + 1).last() == jv(results@[i as int]));
            match as_i64(get(&results[i], "id")) {
                Some(id) => {
                    ids.push(id);
                },
                None => {},
            }
            i = i + 1;
        }
        assert(rv.take(i as int) =~= rv);
        self.queue = ids;
        self.next = 0;
        Ok(())
    }

    /// Takes the status of a deletion: a refused one stops the wipe;
    /// otherwise it is counted.
    pub fn deleted_one(&mut self, status: u16) -> (r: Result<(), RestoreFault>)
        requires
            old(self)@.deleted < usize::MAX,
        ensures
            status >= 300 ==> r == Err::<(), RestoreFault>(RestoreFault::Rejected) && final(self)@ == old(self)@,
            status < 300 ==> r is Ok && final(self)@ == (WipeModel { deleted: old(self)@.deleted + 1, ..old(self)@ }),
    {
        if status >= 300 {
            return Err(RestoreFault::Rejected);
        }
        self.deleted = self.deleted + 1;
        Ok(())
    }
}

} // verus!
