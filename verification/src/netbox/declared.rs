//! The escrow adapter: reconstruct the same [`DevicesFile`] and
//! [`WorkloadsFile`] the TOML loaders produce, but from the committed
//! `netbox/declared.json`. Downstream — reconcile, validate — is identical
//! whether the declared state came from TOML or NetBox.

use vstd::prelude::*;
use crate::text::{
    before_slash, before_slash_of, chars_of, eq_chars, first_match, lemma_first_match_at, lower_text, lowercase,
    opt_view, parse_i64, parse_i64_of, put, put_chars, split_once, split_once_of, string_from, tokens, tokens_of,
    trim, trim_slice, fmt_u128, int_text,
};
use crate::json::{
    as_array, as_bool, as_i64, as_str, get, json_parse, parse_json, jarray, jbool, jget, jint, jstr, jv, jv_list, lemma_jv_list, opt_jv,
    Json, JVal,
};
use crate::facts::float::{float_round, float_round_of};
use crate::inventory::devices::{Accelerator, AcceleratorModel, CollectorKind, Device, DeviceModel, DevicesFile};
use crate::text::{filter_map, seq_views, views};
use crate::inventory::workloads::{
    kind_prefix, GuestKind, GuestPlacement, GuestRecord, GuestStatus, IpAssignment, PlacementModel, RecordModel,
    Workload, WorkloadsFile,
};
use crate::text::{lemma_text_lt_total, lemma_text_lt_transitive, order_text, text_lt};
use crate::sort::{lemma_sort_map, map_keyed, sort_by_key, sort_keyed, lemma_sort_text_map, map_text_keyed, sort_by_text, sort_text_keyed, text_keys};

verus! {

/// `get` on an optional value.
pub open spec fn jget_opt(o: Option<JVal>, k: Seq<char>) -> Option<JVal> {
    match o {
        Some(v) => jget(v, k),
        None => None,
    }
}

/// The array under a key, or none.
pub open spec fn array_of(v: JVal, key: Seq<char>) -> Seq<JVal> {
    match jarray(jget(v, key)) {
        Some(a) => a,
        None => seq![],
    }
}

pub fn get_opt<'a>(o: Option<&'a Json>, k: &str) -> (r: Option<&'a Json>)
    ensures
        opt_jv(r) == jget_opt(opt_jv(o), k@),
{
    match o {
        Some(v) => get(v, k),
        None => None,
    }
}

/// A string member, copied.
pub fn str_field(v: &Json, key: &str) -> (r: Option<String>)
    ensures
        r.deep_view() == jstr(jget(jv(*v), key@)),
{
    match as_str(get(v, key)) {
        Some(s) => Some(string_from(chars_of(s).as_slice())),
        None => None,
    }
}

/// The IPs assigned to an interface of a kind and id, with an address.
pub open spec fn ip_matches(kind: Seq<char>, iid: i64) -> spec_fn(JVal) -> bool {
    |ip: JVal|
        jstr(jget(ip, "assigned_object_type"@)) == Some(kind) && jint(jget(ip, "assigned_object_id"@)) == Some(iid)
            && jstr(jget(ip, "address"@)) is Some
}

/// The address (mask dropped) of the first IP assigned to an interface.
/// The kind is part of the key: dcim and virtualization interface ids are
/// independent sequences that overlap.
pub open spec fn iface_ip(escrow: JVal, kind: Seq<char>, iid: i64) -> Option<Seq<char>> {
    let ips = array_of(escrow, "ipam.ip-addresses"@);
    match first_match(ips, ip_matches(kind, iid)) {
        Some(k) => Some(before_slash(jstr(jget(ips[k], "address"@))->0)),
        None => None,
    }
}

/// The interfaces of a parent object by name, with an id.
pub open spec fn iface_matches(parent: Seq<char>, pid: i64, name: Seq<char>) -> spec_fn(JVal) -> bool {
    |f: JVal|
        jint(jget_opt(jget(f, parent), "id"@)) == Some(pid) && jstr(jget(f, "name"@)) == Some(name) && jint(
            jget(f, "id"@),
        ) is Some
}

/// The address on an owner's named interface: the first such interface
/// (listed under `arr`, owned through `parent`), then the first IP
/// assigned to it.
pub open spec fn owner_addr(
    escrow: JVal,
    arr: Seq<char>,
    parent: Seq<char>,
    kind: Seq<char>,
    owner: Option<i64>,
    name: Seq<char>,
) -> Option<Seq<char>> {
    match owner {
        None => None,
        Some(pid) => {
            let fs = array_of(escrow, arr);
            match first_match(fs, iface_matches(parent, pid, name)) {
                Some(k) => iface_ip(escrow, kind, jint(jget(fs[k], "id"@))->0),
                None => None,
            }
        },
    }
}

#[verifier::loop_isolation(false)]
fn iface_ip_of(escrow: &Json, kind: &str, iid: i64) -> (r: Option<String>)
    ensures
        r.deep_view() == iface_ip(jv(*escrow), kind@, iid),
{
    let ghost f = ip_matches(kind@, iid);
    let ips = match as_array(get(escrow, "ipam.ip-addresses")) {
        Some(a) => a,
        None => {
            assert(first_match(Seq::<JVal>::empty(), f) is None);
            return None;
        },
    };
    let ghost iv = jv_list(ips@);
    proof {
        lemma_jv_list(ips@);
    }
    let kc = chars_of(kind);
    let mut i: usize = 0;
    while i < ips.len()
        invariant
            i <= ips@.len(),
            iv == jv_list(ips@),
            iv.len() == ips@.len(),
            forall|j: int| 0 <= j < ips@.len() ==> #[trigger] iv[j] == jv(ips@[j]),
            f == ip_matches(kind@, iid),
            kc@ == kind@,
            iv == array_of(jv(*escrow), "ipam.ip-addresses"@),
            forall|j: int| 0 <= j < i ==> !f(#[trigger] iv[j]),
        decreases ips@.len() - i,
    {
        let ip = &ips[i];
        let t = as_str(get(ip, "assigned_object_type"));
        let n = as_i64(get(ip, "assigned_object_id"));
        let a = as_str(get(ip, "address"));
        let hit = match (t, n, a) {
            (Some(t), Some(n), Some(_)) => eq_chars(chars_of(t).as_slice(), kc.as_slice()) && n == iid,
            _ => false,
        };
        if hit {
            proof {
                lemma_first_match_at(iv, f, i as int);
            }
            let addr = a.unwrap();
            let bare = before_slash_of(chars_of(addr).as_slice());
            return Some(string_from(bare.as_slice()));
        }
        assert(!f(iv[i as int]));
        i = i + 1;
    }
    proof {
        lemma_first_match_at(iv, f, i as int);
    }
    None
}

#[verifier::loop_isolation(false)]
fn owner_addr_of(escrow: &Json, arr: &str, parent: &str, kind: &str, owner: Option<i64>, name: &str) -> (r: Option<
    String,
>)
    ensures
        r.deep_view() == owner_addr(jv(*escrow), arr@, parent@, kind@, owner, name@),
{
    let pid = match owner {
        Some(p) => p,
        None => return None,
    };
    let ghost f = iface_matches(parent@, pid, name@);
    let fs = match as_array(get(escrow, arr)) {
        Some(a) => a,
        None => {
            assert(first_match(Seq::<JVal>::empty(), f) is None);
            return None;
        },
    };
    let ghost fv = jv_list(fs@);
    proof {
        lemma_jv_list(fs@);
    }
    let nc = chars_of(name);
    let mut i: usize = 0;
    while i < fs.len()
        invariant
            i <= fs@.len(),
            fv == jv_list(fs@),
            fv.len() == fs@.len(),
            forall|j: int| 0 <= j < fs@.len() ==> #[trigger] fv[j] == jv(fs@[j]),
            f == iface_matches(parent@, pid, name@),
            nc@ == name@,
            fv == array_of(jv(*escrow), arr@),
            forall|j: int| 0 <= j < i ==> !f(#[trigger] fv[j]),
        decreases fs@.len() - i,
    {
        let x = &fs[i];
        let p = as_i64(get_opt(get(x, parent), "id"));
        let n = as_str(get(x, "name"));
        let id = as_i64(get(x, "id"));
        let hit = match (p, n, id) {
            (Some(p), Some(n), Some(_)) => p == pid && eq_chars(chars_of(n).as_slice(), nc.as_slice()),
            _ => false,
        };
        if hit {
            proof {
                lemma_first_match_at(fv, f, i as int);
            }
            assert(fv[i as int] == jv(*x));
            assert(jint(jget(fv[i as int], "id"@)) == id);
            let r = iface_ip_of(escrow, kind, id.unwrap());
            assert(owner_addr(jv(*escrow), arr@, parent@, kind@, owner, name@) == iface_ip(
                jv(*escrow),
                kind@,
                id.unwrap(),
            ));
            return r;
        }
        assert(!f(fv[i as int]));
        i = i + 1;
    }
    proof {
        lemma_first_match_at(fv, f, i as int);
    }
    None
}

/// A brief-IP object's address (`primary_ip4`, `oob_ip`), mask dropped.
pub open spec fn primary_ip(v: JVal, key: Seq<char>) -> Option<Seq<char>> {
    match jstr(jget_opt(jget(v, key), "address"@)) {
        Some(a) => Some(before_slash(a)),
        None => None,
    }
}

fn primary_ip_of(v: &Json, key: &str) -> (r: Option<String>)
    ensures
        r.deep_view() == primary_ip(jv(*v), key@),
{
    match as_str(get_opt(get(v, key), "address")) {
        Some(a) => Some(string_from(before_slash_of(chars_of(a).as_slice()).as_slice())),
        None => None,
    }
}

/// The prose role of a NetBox role slug, keeping the prefixes the
/// topology figure keys on; other slugs pass through.
pub open spec fn role_text(d: JVal) -> Seq<char> {
    let slug = match jstr(jget_opt(jget(d, "role"@), "slug"@)) {
        Some(s) => s,
        None => seq![],
    };
    if slug == "edge-router"@ {
        "Edge router (from NetBox)"@
    } else if slug == "fabric-switch"@ {
        "Fabric switch (from NetBox)"@
    } else if slug == "hypervisor"@ {
        "Hypervisor (from NetBox)"@
    } else if slug == "gpu-node"@ {
        "GPU node (from NetBox)"@
    } else {
        slug
    }
}

fn role_prose(d: &Json) -> (r: String)
    ensures
        r@ == role_text(jv(*d)),
{
    let slug: Vec<char> = match as_str(get_opt(get(d, "role"), "slug")) {
        Some(s) => chars_of(s),
        None => Vec::new(),
    };
    if eq_chars(slug.as_slice(), chars_of("edge-router").as_slice()) {
        string_from(chars_of("Edge router (from NetBox)").as_slice())
    } else if eq_chars(slug.as_slice(), chars_of("fabric-switch").as_slice()) {
        string_from(chars_of("Fabric switch (from NetBox)").as_slice())
    } else if eq_chars(slug.as_slice(), chars_of("hypervisor").as_slice()) {
        string_from(chars_of("Hypervisor (from NetBox)").as_slice())
    } else if eq_chars(slug.as_slice(), chars_of("gpu-node").as_slice()) {
        string_from(chars_of("GPU node (from NetBox)").as_slice())
    } else {
        string_from(slug.as_slice())
    }
}

/// The device an inventory item belongs to.
pub open spec fn item_device(item: JVal) -> Option<i64> {
    jint(jget_opt(jget(item, "device"@), "id"@))
}

/// `<count>x <model>`: the count and model of an item name; a name that
/// does not start with a count is one of itself.
pub open spec fn count_model(name: Seq<char>) -> (i64, Seq<char>) {
    match split_once(name, 'x') {
        Some(p) => match parse_i64(trim(p.0)) {
            Some(n) => (n, trim(p.1)),
            None => (1, name),
        },
        None => (1, name),
    }
}

/// A wattage literal in milliwatts: any spelling `str::parse::<f64>`
/// accepts, its point moved three places right, rounded half away from
/// zero and saturated to `i64` (an infinity saturates, not-a-number is 0).
pub open spec fn milliwatts(w: Seq<char>) -> Option<i64> {
    float_round(w, 3, 1)
}

/// An item's per-unit power: the first word of its description
/// (`<watts> W each`), else nothing.
pub open spec fn item_power_mw(item: JVal) -> i64 {
    match jstr(jget(item, "description"@)) {
        Some(d) => if tokens(d).len() > 0 {
            match milliwatts(tokens(d)[0]) {
                Some(m) => m,
                None => 0,
            }
        } else {
            0
        },
        None => 0,
    }
}

pub open spec fn accel_of(item: JVal) -> AcceleratorModel {
    let name = match jstr(jget(item, "name"@)) {
        Some(n) => n,
        None => seq![],
    };
    AcceleratorModel { model: count_model(name).1, count: count_model(name).0, power_each_mw: item_power_mw(item) }
}

pub open spec fn accel_pick(did: i64) -> spec_fn(JVal) -> Option<AcceleratorModel> {
    |item: JVal| if item_device(item) == Some(did) {
        Some(accel_of(item))
    } else {
        None
    }
}

/// A device's accelerators: its inventory items, in order.
pub open spec fn accels_for(escrow: JVal, did: i64) -> Seq<AcceleratorModel> {
    filter_map(array_of(escrow, "dcim.inventory-items"@), accel_pick(did))
}

fn milliwatts_of(w: &[char]) -> (r: Option<i64>)
    ensures
        r == milliwatts(w@),
{
    float_round_of(w, 3, 1)
}

fn accel_from(item: &Json) -> (r: Accelerator)
    ensures
        r@ == accel_of(jv(*item)),
{
    let name: Vec<char> = match as_str(get(item, "name")) {
        Some(n) => chars_of(n),
        None => Vec::new(),
    };
    let (count, model): (i64, Vec<char>) = match split_once_of(name.as_slice(), 'x') {
        Some((c, rest)) => match parse_i64_of(trim_slice(c.as_slice())) {
            Some(k) => (k, vstd::slice::slice_to_vec(trim_slice(rest.as_slice()))),
            None => (1, name.clone()),
        },
        None => (1, name.clone()),
    };
    let power: i64 = match as_str(get(item, "description")) {
        Some(d) => {
            let ws = tokens_of(chars_of(d).as_slice());
            if ws.len() > 0 {
                match milliwatts_of(ws[0].as_slice()) {
                    Some(m) => m,
                    None => 0,
                }
            } else {
                0
            }
        },
        None => 0,
    };
    Accelerator { model: string_from(model.as_slice()), count, power_each_mw: power }
}

#[verifier::loop_isolation(false)]
fn accels_of(escrow: &Json, did: i64) -> (r: Vec<Accelerator>)
    ensures
        seq_views(r@) == accels_for(jv(*escrow), did),
{
    let ghost f = accel_pick(did);
    let items = match as_array(get(escrow, "dcim.inventory-items")) {
        Some(a) => a,
        None => return Vec::new(),
    };
    let ghost iv = jv_list(items@);
    proof {
        lemma_jv_list(items@);
    }
    let mut out: Vec<Accelerator> = Vec::new();
    let mut i: usize = 0;
    while i < items.len()
        invariant
            i <= items@.len(),
            seq_views(out@) == filter_map(iv.take(i as int), f),
        decreases items@.len() - i,
    {
        let item = &items[i];
        assert(iv.take(i + 1).drop_last() =~= iv.take(i as int));
        assert(iv.take(i + 1).last() == jv(*item));
        let ghost prev = seq_views(out@);
        if as_i64(get_opt(get(item, "device"), "id")) == Some(did) {
            let a = accel_from(item);
            out.push(a);
            assert(seq_views(out@) =~= prev.push(a@));
        }
        i = i + 1;
    }
    assert(iv.take(i as int) =~= iv);
    out
}

/// A custom field of an object.
pub open spec fn cf(d: JVal, key: Seq<char>) -> Option<JVal> {
    jget_opt(jget(d, "custom_fields"@), key)
}

/// Whole watts in milliwatts, saturated to `i64`.
pub open spec fn watts_mw(w: i64) -> i64 {
    if w * 1000 > i64::MAX {
        i64::MAX
    } else if w * 1000 < i64::MIN {
        i64::MIN
    } else {
        (w * 1000) as i64
    }
}

pub open spec fn non_empty(o: Option<Seq<char>>) -> Option<Seq<char>> {
    match o {
        Some(s) => if s.len() > 0 {
            Some(s)
        } else {
            None
        },
        None => None,
    }
}

/// The device a `dcim.devices` object describes. Addresses come from the
/// named interfaces (`lan`, `fabric`, `mgmt`), the BMC from `oob_ip`, the
/// hardware facts and power figures from custom fields, the accelerators
/// from the device's inventory items; access, CPU prose, disks and the
/// catalog entry are not escrowed.
pub open spec fn device_of(escrow: JVal, d: JVal) -> DeviceModel {
    let name = match jstr(jget(d, "name"@)) {
        Some(n) => n,
        None => seq![],
    };
    let did = jint(jget(d, "id"@));
    DeviceModel {
        id: lowercase(name),
        name: name,
        role: role_text(d),
        model: None,
        ip_lan: owner_addr(escrow, "dcim.interfaces"@, "device"@, "dcim.interface"@, did, "lan"@),
        ip_fabric: owner_addr(escrow, "dcim.interfaces"@, "device"@, "dcim.interface"@, did, "fabric"@),
        ip_mgmt: owner_addr(escrow, "dcim.interfaces"@, "device"@, "dcim.interface"@, did, "mgmt"@),
        ssh: None,
        collector: CollectorKind::Linux,
        bmc: primary_ip(d, "oob_ip"@),
        motherboard: jstr(cf(d, "motherboard"@)),
        cpu: None,
        cpu_model: jstr(cf(d, "cpu_model"@)),
        ram_gb: jint(cf(d, "ram_gb"@)),
        fabric_hca: jstr(cf(d, "fabric_hca"@)),
        disks: seq![],
        power_typical_mw: watts_mw(
            match jint(cf(d, "power_typical_w"@)) {
                Some(w) => w,
                None => 0,
            },
        ),
        power_peak_mw: watts_mw(
            match jint(cf(d, "power_peak_w"@)) {
                Some(w) => w,
                None => 0,
            },
        ),
        power_estimate: match jbool(cf(d, "power_estimate"@)) {
            Some(b) => b,
            None => false,
        },
        expected_offline: match jbool(cf(d, "expected_offline"@)) {
            Some(b) => b,
            None => false,
        },
        source_of_truth: None,
        notes: non_empty(jstr(jget(d, "comments"@))),
        accelerator: match did {
            Some(i) => accels_for(escrow, i),
            None => seq![],
        },
    }
}

/// The escrow's devices, sorted by id (stable).
pub open spec fn devices_of(escrow: JVal) -> Seq<DeviceModel> {
    let ds = array_of(escrow, "dcim.devices"@).map_values(|d: JVal| device_of(escrow, d));
    sort_by_text(ds.map_values(|m: DeviceModel| (m.id, m))).map_values(|p: (Seq<char>, DeviceModel)| p.1)
}

fn cf_of<'a>(d: &'a Json, key: &str) -> (r: Option<&'a Json>)
    ensures
        opt_jv(r) == cf(jv(*d), key@),
{
    get_opt(get(d, "custom_fields"), key)
}

fn watts_mw_of(w: i64) -> (r: i64)
    ensures
        r == watts_mw(w),
{
    if w > 9_223_372_036_854_775 {
        i64::MAX
    } else if w < -9_223_372_036_854_775 {
        i64::MIN
    } else {
        w * 1000
    }
}

fn device_from(escrow: &Json, d: &Json) -> (r: Device)
    ensures
        r@ == device_of(jv(*escrow), jv(*d)),
{
    let name: String = match str_field(d, "name") {
        Some(n) => n,
        None => string_from(Vec::<char>::new().as_slice()),
    };
    let id = string_from(lower_text(chars_of(name.as_str()).as_slice()).as_slice());
    let did = as_i64(get(d, "id"));
    let notes = match str_field(d, "comments") {
        Some(c) => if chars_of(c.as_str()).len() > 0 {
            Some(c)
        } else {
            None
        },
        None => None,
    };
    let accelerator = match did {
        Some(i) => accels_of(escrow, i),
        None => Vec::new(),
    };
    let motherboard = match as_str(cf_of(d, "motherboard")) {
        Some(x) => Some(string_from(chars_of(x).as_slice())),
        None => None,
    };
    let cpu_model = match as_str(cf_of(d, "cpu_model")) {
        Some(x) => Some(string_from(chars_of(x).as_slice())),
        None => None,
    };
    let fabric_hca = match as_str(cf_of(d, "fabric_hca")) {
        Some(x) => Some(string_from(chars_of(x).as_slice())),
        None => None,
    };
    let typical = match as_i64(cf_of(d, "power_typical_w")) {
        Some(w) => w,
        None => 0,
    };
    let peak = match as_i64(cf_of(d, "power_peak_w")) {
        Some(w) => w,
        None => 0,
    };
    let power_estimate = match as_bool(cf_of(d, "power_estimate")) {
        Some(b) => b,
        None => false,
    };
    let expected_offline = match as_bool(cf_of(d, "expected_offline")) {
        Some(b) => b,
        None => false,
    };
    let r = Device {
        id,
        name,
        role: role_prose(d),
        model: None,
        ip_lan: owner_addr_of(escrow, "dcim.interfaces", "device", "dcim.interface", did, "lan"),
        ip_fabric: owner_addr_of(escrow, "dcim.interfaces", "device", "dcim.interface", did, "fabric"),
        ip_mgmt: owner_addr_of(escrow, "dcim.interfaces", "device", "dcim.interface", did, "mgmt"),
        ssh: None,
        collector: CollectorKind::default(),
        bmc: primary_ip_of(d, "oob_ip"),
        motherboard,
        cpu: None,
        cpu_model,
        ram_gb: as_i64(cf_of(d, "ram_gb")),
        fabric_hca,
        disks: Vec::new(),
        power_typical_mw: watts_mw_of(typical),
        power_peak_mw: watts_mw_of(peak),
        power_estimate,
        expected_offline,
        source_of_truth: None,
        notes,
        accelerator,
    };
    assert(r.disks.deep_view() =~= Seq::<Seq<char>>::empty());
    assert(r@ =~= device_of(jv(*escrow), jv(*d)));
    r
}

/// Reconstructs the declared devices from the escrow, sorted by id.
pub fn adapt_devices(escrow: &Json) -> (r: Vec<Device>)
    ensures
        seq_views(r@) == devices_of(jv(*escrow)),
{
    let ghost e = jv(*escrow);
    let ghost dv: Seq<JVal> = array_of(e, "dcim.devices"@);
    let ghost ms = dv.map_values(|d: JVal| device_of(e, d));
    let mut keyed: Vec<(Vec<char>, Device)> = Vec::new();
    match as_array(get(escrow, "dcim.devices")) {
        Some(list) => {
            proof {
                lemma_jv_list(list@);
            }
            let mut i: usize = 0;
            while i < list.len()
                invariant
                    i <= list@.len(),
                    dv == jv_list(list@),
                    dv.len() == list@.len(),
                    forall|j: int| 0 <= j < list@.len() ==> #[trigger] dv[j] == jv(list@[j]),
                    ms == dv.map_values(|d: JVal| device_of(e, d)),
                    e == jv(*escrow),
                    map_text_keyed(text_keys(keyed@), |x: Device| x@) == ms.take(i as int).map_values(
                        |m: DeviceModel| (m.id, m),
                    ),
                decreases list@.len() - i,
            {
                let dev = device_from(escrow, &list[i]);
                let k = chars_of(dev.id.as_str());
                let ghost prev = keyed@;
                let ghost dvw = dev@;
                keyed.push((k, dev));
                assert(map_text_keyed(text_keys(keyed@), |x: Device| x@) =~= map_text_keyed(
                    text_keys(prev),
                    |x: Device| x@,
                ).push((dvw.id, dvw)));
                assert(ms.take(i + 1).map_values(|m: DeviceModel| (m.id, m)) =~= ms.take(i as int).map_values(
                    |m: DeviceModel| (m.id, m),
                ).push((ms[i as int].id, ms[i as int])));
                i = i + 1;
            }
            assert(ms.take(i as int) =~= ms);
        },
        None => {
            assert(ms.map_values(|m: DeviceModel| (m.id, m)) =~= map_text_keyed(text_keys(keyed@), |x: Device| x@));
        },
    }
    let ghost kv = text_keys(keyed@);
    let sorted = sort_text_keyed(keyed);
    proof {
        lemma_sort_text_map(kv, |x: Device| x@);
    }
    let mut sorted = sorted;
    let ghost sv = text_keys(sorted@);
    let ghost n = sorted@.len();
    assert(n == sorted.len());
    let mut out: Vec<Device> = Vec::new();
    let mut j: usize = 0;
    assert(sorted@.skip(0) =~= sorted@);
    let ghost all = sorted@;
    while sorted.len() > 0
        invariant
            j + sorted@.len() == n,
            n == all.len(),
            n <= usize::MAX,
            sorted@ == all.skip(j as int),
            seq_views(out@) == all.take(j as int).map_values(|p: (Vec<char>, Device)| p.1@),
        decreases sorted@.len(),
    {
        let ghost before = sorted@;
        let p = sorted.remove(0);
        assert(p == all[j as int]) by {
            assert(before[0] == all.skip(j as int)[0]);
        }
        assert(sorted@ =~= all.skip(j + 1));
        let ghost prev = seq_views(out@);
        let ghost pv = p.1@;
        out.push(p.1);
        assert(seq_views(out@) =~= prev.push(pv));
        assert(all.take(j + 1).map_values(|p: (Vec<char>, Device)| p.1@) =~= all.take(j as int).map_values(
            |p: (Vec<char>, Device)| p.1@,
        ).push(all[j as int].1@));
        j = j + 1;
    }
    assert(all.take(j as int) =~= all);
    assert(seq_views(out@) =~= map_text_keyed(sv, |x: Device| x@).map_values(|p: (Seq<char>, DeviceModel)| p.1));
    out
}

/// NetBox status is `{value, label}`; the declared side uses the value (a
/// plain string passes through).
pub open spec fn status_value(v: JVal) -> Option<Seq<char>> {
    match jget(v, "status"@) {
        Some(st) => match jstr(jget(st, "value"@)) {
            Some(x) => Some(x),
            None => jstr(Some(st)),
        },
        None => None,
    }
}

/// The IP assignment mechanism a custom-field value names.
pub open spec fn ip_assignment_of(s: Seq<char>) -> Option<IpAssignment> {
    if s == "declared"@ {
        Some(IpAssignment::Declared)
    } else if s == "dhcp-reservation"@ {
        Some(IpAssignment::DhcpReservation)
    } else if s == "dhcp-dynamic"@ {
        Some(IpAssignment::DhcpDynamic)
    } else if s == "unverified"@ {
        Some(IpAssignment::Unverified)
    } else {
        None
    }
}

/// The IP assignment mechanism a custom-field value names.
pub fn parse_ip_assignment(s: &str) -> (r: Option<IpAssignment>)
    ensures
        r == ip_assignment_of(s@),
{
    let c = chars_of(s);
    if eq_chars(c.as_slice(), chars_of("declared").as_slice()) {
        Some(IpAssignment::Declared)
    } else if eq_chars(c.as_slice(), chars_of("dhcp-reservation").as_slice()) {
        Some(IpAssignment::DhcpReservation)
    } else if eq_chars(c.as_slice(), chars_of("dhcp-dynamic").as_slice()) {
        Some(IpAssignment::DhcpDynamic)
    } else if eq_chars(c.as_slice(), chars_of("unverified").as_slice()) {
        Some(IpAssignment::Unverified)
    } else {
        None
    }
}

pub open spec fn text_or_empty(o: Option<Seq<char>>) -> Seq<char> {
    match o {
        Some(s) => s,
        None => seq![],
    }
}

/// A VM's host: its cluster's name.
pub open spec fn vm_host(v: JVal) -> Seq<char> {
    text_or_empty(jstr(jget_opt(jget(v, "cluster"@), "name"@)))
}

pub open spec fn vm_kind(v: JVal) -> GuestKind {
    if jstr(cf(v, "guest_kind"@)) == Some("ct"@) {
        GuestKind::Ct
    } else {
        GuestKind::Vm
    }
}

pub open spec fn vm_running(v: JVal) -> bool {
    status_value(v) == Some("active"@)
}

/// The guest record a VM object describes, when it carries a VMID.
pub open spec fn record_of(escrow: JVal, v: JVal) -> Option<RecordModel> {
    match jint(cf(v, "vmid"@)) {
        None => None,
        Some(n) => {
            let vid = jint(jget(v, "id"@));
            Some(
                RecordModel {
                    vmid: n as u32,
                    name: text_or_empty(jstr(jget(v, "name"@))),
                    host: vm_host(v),
                    kind: vm_kind(v),
                    ip_lan: owner_addr(
                        escrow,
                        "virtualization.interfaces"@,
                        "virtual_machine"@,
                        "virtualization.vminterface"@,
                        vid,
                        "eth0"@,
                    ),
                    ip_fabric: owner_addr(
                        escrow,
                        "virtualization.interfaces"@,
                        "virtual_machine"@,
                        "virtualization.vminterface"@,
                        vid,
                        "ib0"@,
                    ),
                    ip_assignment: match jstr(cf(v, "ip_assignment"@)) {
                        Some(s) => ip_assignment_of(s),
                        None => None,
                    },
                    status: if vm_running(v) {
                        GuestStatus::Running
                    } else {
                        GuestStatus::Stopped
                    },
                    notes: non_empty(jstr(jget(v, "comments"@))),
                },
            )
        },
    }
}

/// A record's free-text placement line, in the shape the reconciler
/// parses: `<PREFIX><vmid> <name> (<status>)`.
pub open spec fn placement_line(r: RecordModel) -> Seq<char> {
    kind_prefix(r.kind) + int_text(r.vmid as int) + " "@ + r.name + " ("@ + (if r.status == GuestStatus::Running {
        "running"@
    } else {
        "stopped"@
    }) + ")"@
}

pub open spec fn record_fn(escrow: JVal) -> spec_fn(JVal) -> Option<RecordModel> {
    |v: JVal| record_of(escrow, v)
}

/// The escrow's guest records, in VM order.
pub open spec fn vm_records(escrow: JVal) -> Seq<RecordModel> {
    filter_map(array_of(escrow, "virtualization.virtual-machines"@), record_fn(escrow))
}

/// Guest records ordered by host, then VMID (stable).
pub open spec fn records_sorted(rs: Seq<RecordModel>) -> Seq<RecordModel> {
    let by_vmid = sort_by_key(rs.map_values(|r: RecordModel| (r.vmid as i64, r))).map_values(
        |p: (i64, RecordModel)| p.1,
    );
    sort_by_text(by_vmid.map_values(|r: RecordModel| (r.host, r))).map_values(|p: (Seq<char>, RecordModel)| p.1)
}

/// Texts in `str` order.
pub open spec fn sorted_texts(xs: Seq<Seq<char>>) -> Seq<Seq<char>> {
    sort_by_text(xs.map_values(|x: Seq<char>| (x, x))).map_values(|p: (Seq<char>, Seq<char>)| p.1)
}

/// The placement lines of the records on one host, in order.
pub open spec fn lines_on(rs: Seq<RecordModel>, host: Seq<char>) -> Seq<Seq<char>>
    decreases rs.len(),
{
    if rs.len() == 0 {
        seq![]
    } else if rs.last().host == host {
        lines_on(rs.drop_last(), host).push(placement_line(rs.last()))
    } else {
        lines_on(rs.drop_last(), host)
    }
}

pub open spec fn hosts_in(g: Seq<PlacementModel>, h: Seq<char>) -> bool {
    exists|i: int| 0 <= i < g.len() && #[trigger] g[i].host == h
}

pub open spec fn host_of_some(rs: Seq<RecordModel>, h: Seq<char>) -> bool {
    exists|k: int| 0 <= k < rs.len() && #[trigger] rs[k].host == h
}

/// The placement list of a set of records: one entry per host, hosts in
/// strictly increasing order, each with its records' lines sorted.
pub open spec fn placements_are(g: Seq<PlacementModel>, rs: Seq<RecordModel>) -> bool {
    &&& forall|i: int, j: int| 0 <= i < j < g.len() ==> text_lt(#[trigger] g[i].host, #[trigger] g[j].host)
    &&& forall|h: Seq<char>| hosts_in(g, h) <==> host_of_some(rs, h)
    &&& forall|i: int| 0 <= i < g.len() ==> (#[trigger] g[i]).guests == sorted_texts(lines_on(rs, g[i].host))
}

fn status_value_of(v: &Json) -> (r: Option<Vec<char>>)
    ensures
        opt_view(r) == status_value(jv(*v)),
{
    match get(v, "status") {
        Some(st) => match as_str(get(st, "value")) {
            Some(x) => Some(chars_of(x)),
            None => match as_str(Some(st)) {
                Some(x) => Some(chars_of(x)),
                None => None,
            },
        },
        None => None,
    }
}

fn record_from(escrow: &Json, v: &Json) -> (r: Option<GuestRecord>)
    ensures
        match r {
            Some(g) => record_of(jv(*escrow), jv(*v)) == Some(g@),
            None => record_of(jv(*escrow), jv(*v)) is None,
        },
{
    let n = match as_i64(cf_of(v, "vmid")) {
        Some(n) => n,
        None => return None,
    };
    let name = match str_field(v, "name") {
        Some(x) => x,
        None => string_from(Vec::<char>::new().as_slice()),
    };
    let host = match as_str(get_opt(get(v, "cluster"), "name")) {
        Some(x) => string_from(chars_of(x).as_slice()),
        None => string_from(Vec::<char>::new().as_slice()),
    };
    let kind = match as_str(cf_of(v, "guest_kind")) {
        Some(k) => if eq_chars(chars_of(k).as_slice(), chars_of("ct").as_slice()) {
            GuestKind::Ct
        } else {
            GuestKind::Vm
        },
        None => GuestKind::Vm,
    };
    let running = match status_value_of(v) {
        Some(st) => eq_chars(st.as_slice(), chars_of("active").as_slice()),
        None => false,
    };
    let vid = as_i64(get(v, "id"));
    let ip_assignment = match as_str(cf_of(v, "ip_assignment")) {
        Some(x) => parse_ip_assignment(x),
        None => None,
    };
    let notes = match str_field(v, "comments") {
        Some(c) => if chars_of(c.as_str()).len() > 0 {
            Some(c)
        } else {
            None
        },
        None => None,
    };
    let g = GuestRecord {
        vmid: n as u32,
        name,
        host,
        kind,
        ip_lan: owner_addr_of(escrow, "virtualization.interfaces", "virtual_machine", "virtualization.vminterface", vid, "eth0"),
        ip_fabric: owner_addr_of(escrow, "virtualization.interfaces", "virtual_machine", "virtualization.vminterface", vid, "ib0"),
        ip_assignment,
        status: if running {
            GuestStatus::Running
        } else {
            GuestStatus::Stopped
        },
        notes,
    };
    proof {
        reveal_strlit("ct");
        reveal_strlit("active");
    }
    assert(g@ =~= record_of(jv(*escrow), jv(*v))->0);
    Some(g)
}

fn placement_line_of(r: &GuestRecord) -> (t: Vec<char>)
    ensures
        t@ == placement_line(r@),
{
    let mut t = chars_of(r.kind.prefix());
    put_chars(&mut t, fmt_u128(r.vmid as u128).as_slice());
    put(&mut t, " ");
    put_chars(&mut t, chars_of(r.name.as_str()).as_slice());
    put(&mut t, " (");
    match r.status {
        GuestStatus::Running => put(&mut t, "running"),
        GuestStatus::Stopped => put(&mut t, "stopped"),
    }
    put(&mut t, ")");
    t
}

#[verifier::loop_isolation(false)]
fn vm_records_of(escrow: &Json) -> (r: Vec<GuestRecord>)
    ensures
        seq_views(r@) == vm_records(jv(*escrow)),
{
    let ghost f = record_fn(jv(*escrow));
    let vms = match as_array(get(escrow, "virtualization.virtual-machines")) {
        Some(a) => a,
        None => return Vec::new(),
    };
    let ghost vv = jv_list(vms@);
    proof {
        lemma_jv_list(vms@);
    }
    let mut out: Vec<GuestRecord> = Vec::new();
    let mut i: usize = 0;
    while i < vms.len()
        invariant
            i <= vms@.len(),
            seq_views(out@) == filter_map(vv.take(i as int), f),
        decreases vms@.len() - i,
    {
        assert(vv.take(i + 1).drop_last() =~= vv.take(i as int));
        assert(vv.take(i + 1).last() == jv(vms@[i as int]));
        let ghost prev = seq_views(out@);
        match record_from(escrow, &vms[i]) {
            Some(g) => {
                let ghost gv = g@;
                out.push(g);
                assert(seq_views(out@) =~= prev.push(gv));
            },
            None => {},
        }
        i = i + 1;
    }
    assert(vv.take(i as int) =~= vv);
    out
}

fn sort_records(recs: Vec<GuestRecord>) -> (r: Vec<GuestRecord>)
    ensures
        seq_views(r@) == records_sorted(seq_views(recs@)),
{
    let ghost rs = seq_views(recs@);
    let mut recs = recs;
    let mut keyed: Vec<(i64, GuestRecord)> = Vec::new();
    let ghost n = recs@.len();
    assert(n == recs.len());
    assert(rs.skip(0) =~= rs);
    let mut i: usize = 0;
    while recs.len() > 0
        invariant
            i + recs@.len() == n,
            n == rs.len(),
            n <= usize::MAX,
            seq_views(recs@) == rs.skip(i as int),
            map_keyed(keyed@, |x: GuestRecord| x@) == rs.take(i as int).map_values(|r: RecordModel| (r.vmid as i64, r)),
        decreases recs@.len(),
    {
        let ghost before = recs@;
        let x = recs.remove(0);
        proof {
            assert(seq_views(before)[0] == x@);
            assert(rs.skip(i as int)[0] == rs[i as int]);
            assert forall|k: int| 0 <= k < recs@.len() implies seq_views(recs@)[k] == rs.skip(i + 1)[k] by {
                assert(recs@[k] == before[k + 1]);
                assert(seq_views(before)[k + 1] == rs.skip(i as int)[k + 1]);
            }
            assert(seq_views(recs@) =~= rs.skip(i + 1));
        }
        let ghost prev = keyed@;
        let ghost xv = x@;
        let k = x.vmid as i64;
        keyed.push((k, x));
        assert(map_keyed(keyed@, |x: GuestRecord| x@) =~= map_keyed(prev, |x: GuestRecord| x@).push((k, xv)));
        assert(rs.take(i + 1).map_values(|r: RecordModel| (r.vmid as i64, r)) =~= rs.take(i as int).map_values(
            |r: RecordModel| (r.vmid as i64, r),
        ).push((rs[i as int].vmid as i64, rs[i as int])));
        i = i + 1;
    }
    assert(rs.take(i as int) =~= rs);
    let ghost kv = keyed@;
    let s1 = sort_keyed(keyed);
    proof {
        lemma_sort_map(kv, |x: GuestRecord| x@);
    }
    let ghost s1v = s1@;
    let mut s1 = s1;
    let mut keyed2: Vec<(Vec<char>, GuestRecord)> = Vec::new();
    let ghost m = s1@.len();
    assert(m == s1.len());
    assert(s1v.skip(0) =~= s1v);
    let mut j: usize = 0;
    while s1.len() > 0
        invariant
            j + s1@.len() == m,
            m == s1v.len(),
            m <= usize::MAX,
            s1@ == s1v.skip(j as int),
            map_text_keyed(text_keys(keyed2@), |x: GuestRecord| x@) == s1v.take(j as int).map_values(
                |p: (i64, GuestRecord)| (p.1@.host, p.1@),
            ),
        decreases s1@.len(),
    {
        let ghost before = s1@;
        let p = s1.remove(0);
        assert(p == s1v[j as int]) by {
            assert(before[0] == s1v.skip(j as int)[0]);
        }
        assert(s1@ =~= s1v.skip(j + 1));
        let ghost prev = keyed2@;
        let ghost pv = p.1@;
        let h = chars_of(p.1.host.as_str());
        keyed2.push((h, p.1));
        assert(map_text_keyed(text_keys(keyed2@), |x: GuestRecord| x@) =~= map_text_keyed(
            text_keys(prev),
            |x: GuestRecord| x@,
        ).push((pv.host, pv)));
        assert(s1v.take(j + 1).map_values(|p: (i64, GuestRecord)| (p.1@.host, p.1@)) =~= s1v.take(j as int).map_values(
            |p: (i64, GuestRecord)| (p.1@.host, p.1@),
        ).push((s1v[j as int].1@.host, s1v[j as int].1@)));
        j = j + 1;
    }
    assert(s1v.take(j as int) =~= s1v);
    let ghost by_vmid = sort_by_key(rs.map_values(|r: RecordModel| (r.vmid as i64, r))).map_values(
        |p: (i64, RecordModel)| p.1,
    );
    assert(s1v.map_values(|p: (i64, GuestRecord)| (p.1@.host, p.1@)) =~= by_vmid.map_values(
        |r: RecordModel| (r.host, r),
    )) by {
        assert(map_keyed(s1v, |x: GuestRecord| x@) == sort_by_key(map_keyed(kv, |x: GuestRecord| x@)));
        assert(map_keyed(kv, |x: GuestRecord| x@) == rs.map_values(|r: RecordModel| (r.vmid as i64, r)));
    }
    let ghost kv2 = text_keys(keyed2@);
    let s2 = sort_text_keyed(keyed2);
    proof {
        lemma_sort_text_map(kv2, |x: GuestRecord| x@);
    }
    let ghost s2v = s2@;
    let mut s2 = s2;
    let mut out: Vec<GuestRecord> = Vec::new();
    let ghost q = s2@.len();
    assert(q == s2.len());
    assert(s2v.skip(0) =~= s2v);
    let mut k: usize = 0;
    while s2.len() > 0
        invariant
            k + s2@.len() == q,
            q == s2v.len(),
            q <= usize::MAX,
            s2@ == s2v.skip(k as int),
            seq_views(out@) == s2v.take(k as int).map_values(|p: (Vec<char>, GuestRecord)| p.1@),
        decreases s2@.len(),
    {
        let ghost before = s2@;
        let p = s2.remove(0);
        assert(p == s2v[k as int]) by {
            assert(before[0] == s2v.skip(k as int)[0]);
        }
        assert(s2@ =~= s2v.skip(k + 1));
        let ghost prev = seq_views(out@);
        let ghost pv = p.1@;
        out.push(p.1);
        assert(seq_views(out@) =~= prev.push(pv));
        assert(s2v.take(k + 1).map_values(|p: (Vec<char>, GuestRecord)| p.1@) =~= s2v.take(k as int).map_values(
            |p: (Vec<char>, GuestRecord)| p.1@,
        ).push(s2v[k as int].1@));
        k = k + 1;
    }
    assert(s2v.take(k as int) =~= s2v);
    assert(seq_views(out@) =~= map_text_keyed(text_keys(s2v), |x: GuestRecord| x@).map_values(
        |p: (Seq<char>, RecordModel)| p.1,
    ));
    out
}

/// Texts in strictly increasing `str` order.
pub open spec fn strictly_sorted(v: Seq<Seq<char>>) -> bool {
    forall|i: int, j: int| 0 <= i < j < v.len() ==> text_lt(#[trigger] v[i], #[trigger] v[j])
}

fn insert_host(hosts: &mut Vec<Vec<char>>, h: &[char])
    requires
        strictly_sorted(views(old(hosts)@)),
    ensures
        strictly_sorted(views(final(hosts)@)),
        forall|x: Seq<char>| #[trigger] views(final(hosts)@).contains(x) <==> (views(old(hosts)@).contains(x) || x == h@),
{
    let ghost before = views(hosts@);
    let mut i: usize = 0;
    while i < hosts.len() && order_text(hosts[i].as_slice(), h) < 0
        invariant
            i <= hosts@.len(),
            before == views(hosts@),
            forall|k: int| 0 <= k < i ==> text_lt(#[trigger] before[k], h@),
        decreases hosts@.len() - i,
    {
        i = i + 1;
    }
    if i < hosts.len() && order_text(hosts[i].as_slice(), h) == 0 {
        assert(before[i as int] == h@);
        assert forall|x: Seq<char>| #[trigger] views(hosts@).contains(x) <==> (before.contains(x) || x == h@) by {
            if x == h@ {
                assert(before[i as int] == x);
            }
        }
        return;
    }
    proof {
        assert forall|k: int| i <= k < before.len() implies text_lt(h@, #[trigger] before[k]) by {
            lemma_text_lt_total(h@, before[i as int]);
            if k > i {
                lemma_text_lt_transitive(h@, before[i as int], before[k]);
            }
        }
    }
    let hv = vstd::slice::slice_to_vec(h);
    hosts.insert(i, hv);
    let ghost after = views(hosts@);
    assert(after =~= before.insert(i as int, h@));
    assert forall|a: int, b: int| 0 <= a < b < after.len() implies text_lt(#[trigger] after[a], #[trigger] after[b]) by {
        if a < i && b < i {
        } else if a < i && b == i {
        } else if a < i && b > i {
            lemma_text_lt_transitive(after[a], h@, after[b]);
        } else if a == i {
        } else {
        }
    }
    assert forall|x: Seq<char>| #[trigger] after.contains(x) <==> (before.contains(x) || x == h@) by {
        if after.contains(x) {
            let k = choose|k: int| 0 <= k < after.len() && after[k] == x;
            if k < i {
                assert(before[k] == x);
            } else if k > i {
                assert(before[k - 1] == x);
            }
        }
        if before.contains(x) {
            let k = choose|k: int| 0 <= k < before.len() && before[k] == x;
            if k < i {
                assert(after[k] == x);
            } else {
                assert(after[k + 1] == x);
            }
        }
        if x == h@ {
            assert(after[i as int] == x);
        }
    }
}

fn lines_on_of(recs: &Vec<GuestRecord>, host: &[char]) -> (r: Vec<Vec<char>>)
    ensures
        views(r@) == lines_on(seq_views(recs@), host@),
{
    let ghost rs = seq_views(recs@);
    let mut out: Vec<Vec<char>> = Vec::new();
    let mut i: usize = 0;
    while i < recs.len()
        invariant
            i <= recs@.len(),
            rs == seq_views(recs@),
            views(out@) == lines_on(rs.take(i as int), host@),
        decreases recs@.len() - i,
    {
        assert(rs.take(i + 1).drop_last() =~= rs.take(i as int));
        assert(rs.take(i + 1).last() == recs@[i as int]@);
        if eq_chars(chars_of(recs[i].host.as_str()).as_slice(), host) {
            let l = placement_line_of(&recs[i]);
            let ghost prev = views(out@);
            out.push(l);
            assert(views(out@) =~= prev.push(l@));
        }
        i = i + 1;
    }
    assert(rs.take(i as int) =~= rs);
    out
}

fn sort_texts(xs: Vec<Vec<char>>) -> (r: Vec<String>)
    ensures
        r.deep_view() == sorted_texts(views(xs@)),
{
    let ghost xv = views(xs@);
    let mut xs = xs;
    let mut keyed: Vec<(Vec<char>, Vec<char>)> = Vec::new();
    let ghost n = xs@.len();
    assert(n == xs.len());
    assert(xv.skip(0) =~= xv);
    let mut i: usize = 0;
    while xs.len() > 0
        invariant
            i + xs@.len() == n,
            n == xv.len(),
            n <= usize::MAX,
            views(xs@) == xv.skip(i as int),
            map_text_keyed(text_keys(keyed@), |x: Vec<char>| x@) == xv.take(i as int).map_values(|x: Seq<char>| (x, x)),
        decreases xs@.len(),
    {
        let ghost before = xs@;
        let x = xs.remove(0);
        proof {
            assert(views(before)[0] == x@);
            assert(xv.skip(i as int)[0] == xv[i as int]);
            assert forall|k: int| 0 <= k < xs@.len() implies views(xs@)[k] == xv.skip(i + 1)[k] by {
                assert(xs@[k] == before[k + 1]);
                assert(views(before)[k + 1] == xv.skip(i as int)[k + 1]);
            }
            assert(views(xs@) =~= xv.skip(i + 1));
        }
        let ghost prev = keyed@;
        let ghost x_v = x@;
        let k = x.clone();
        assert(k@ == x@);
        keyed.push((k, x));
        assert(map_text_keyed(text_keys(keyed@), |x: Vec<char>| x@) =~= map_text_keyed(
            text_keys(prev),
            |x: Vec<char>| x@,
        ).push((x_v, x_v)));
        assert(xv.take(i + 1).map_values(|x: Seq<char>| (x, x)) =~= xv.take(i as int).map_values(|x: Seq<char>| (x, x)).push(
            (xv[i as int], xv[i as int]),
        ));
        i = i + 1;
    }
    assert(xv.take(i as int) =~= xv);
    let ghost kv = text_keys(keyed@);
    let sorted = sort_text_keyed(keyed);
    proof {
        lemma_sort_text_map(kv, |x: Vec<char>| x@);
    }
    let ghost sv = sorted@;
    let mut out: Vec<String> = Vec::new();
    let mut j: usize = 0;
    while j < sorted.len()
        invariant
            j <= sv.len(),
            sorted@ == sv,
            out.deep_view() == sv.take(j as int).map_values(|p: (Vec<char>, Vec<char>)| p.1@),
        decreases sv.len() - j,
    {
        let t = string_from(sorted[j].1.as_slice());
        let ghost prev = out.deep_view();
        out.push(t);
        assert(out.deep_view() =~= prev.push(sv[j as int].1@));
        assert(sv.take(j + 1).map_values(|p: (Vec<char>, Vec<char>)| p.1@) =~= sv.take(j as int).map_values(
            |p: (Vec<char>, Vec<char>)| p.1@,
        ).push(sv[j as int].1@));
        j = j + 1;
    }
    assert(sv.take(j as int) =~= sv);
    assert(out.deep_view() =~= map_text_keyed(text_keys(sv), |x: Vec<char>| x@).map_values(
        |p: (Seq<char>, Seq<char>)| p.1,
    ));
    out
}

/// The free-text placement of a set of guest records: one entry per host,
/// hosts in `str` order, each host's lines sorted.
pub fn placements_of(recs: &Vec<GuestRecord>) -> (r: Vec<GuestPlacement>)
    ensures
        placements_are(seq_views(r@), seq_views(recs@)),
{
    let ghost rs = seq_views(recs@);
    let mut hosts: Vec<Vec<char>> = Vec::new();
    let mut i: usize = 0;
    while i < recs.len()
        invariant
            i <= recs@.len(),
            rs == seq_views(recs@),
            strictly_sorted(views(hosts@)),
            forall|x: Seq<char>| #[trigger] views(hosts@).contains(x) <==> host_of_some(rs.take(i as int), x),
        decreases recs@.len() - i,
    {
        let ghost old_hosts = views(hosts@);
        let h = chars_of(recs[i].host.as_str());
        insert_host(&mut hosts, h.as_slice());
        assert(rs[i as int].host == h@);
        assert forall|x: Seq<char>| #[trigger] views(hosts@).contains(x) <==> host_of_some(rs.take(i + 1), x) by {
            if host_of_some(rs.take(i + 1), x) {
                let k = choose|k: int| 0 <= k < rs.take(i + 1).len() && #[trigger] rs.take(i + 1)[k].host == x;
                if k < i {
                    assert(rs.take(i as int)[k].host == x);
                }
            }
            if host_of_some(rs.take(i as int), x) {
                let k = choose|k: int| 0 <= k < rs.take(i as int).len() && #[trigger] rs.take(i as int)[k].host == x;
                assert(rs.take(i + 1)[k].host == x);
            }
            if x == h@ {
                assert(rs.take(i + 1)[i as int].host == x);
            }
        }
        i = i + 1;
    }
    assert(rs.take(i as int) =~= rs);
    let ghost hv = views(hosts@);
    let mut out: Vec<GuestPlacement> = Vec::new();
    let mut j: usize = 0;
    while j < hosts.len()
        invariant
            j <= hosts@.len(),
            hv == views(hosts@),
            rs == seq_views(recs@),
            seq_views(out@).len() == j,
            forall|k: int| 0 <= k < j ==> #[trigger] seq_views(out@)[k].host == hv[k],
            forall|k: int| 0 <= k < j ==> #[trigger] seq_views(out@)[k].guests == sorted_texts(lines_on(rs, hv[k])),
        decreases hosts@.len() - j,
    {
        let lines = lines_on_of(recs, hosts[j].as_slice());
        let guests = sort_texts(lines);
        let host = string_from(hosts[j].as_slice());
        let ghost prev = seq_views(out@);
        let pl = GuestPlacement { host, guests };
        assert(pl@.host == hv[j as int]);
        assert(pl@.guests == sorted_texts(lines_on(rs, hv[j as int])));
        out.push(pl);
        assert(seq_views(out@) =~= prev.push(pl@));
        j = j + 1;
    }
    let ghost g = seq_views(out@);
    assert forall|h: Seq<char>| hosts_in(g, h) <==> host_of_some(rs, h) by {
        if hosts_in(g, h) {
            let k = choose|k: int| 0 <= k < g.len() && #[trigger] g[k].host == h;
            assert(hv[k] == h);
            assert(hv.contains(h));
        }
        if host_of_some(rs, h) {
            assert(hv.contains(h));
            let k = choose|k: int| 0 <= k < hv.len() && hv[k] == h;
            assert(g[k].host == h);
        }
    }
    assert forall|a: int, b: int| 0 <= a < b < g.len() implies text_lt(#[trigger] g[a].host, #[trigger] g[b].host) by {
        assert(g[a].host == hv[a]);
        assert(g[b].host == hv[b]);
    }
    out
}

/// The escrow's guests: the free-text placement per host and the typed
/// registry, ordered by host, then VMID. Typical-workload rows are
/// editorial and not escrowed.
pub fn adapt_workloads(escrow: &Json) -> (r: WorkloadsFile)
    ensures
        r.workload@.len() == 0,
        placements_are(seq_views(r.guest@), vm_records(jv(*escrow))),
        seq_views(r.guest_record@) == records_sorted(vm_records(jv(*escrow))),
{
    let recs = vm_records_of(escrow);
    let guest = placements_of(&recs);
    let guest_record = sort_records(recs);
    WorkloadsFile { workload: Vec::<Workload>::new(), guest, guest_record }
}

/// Reconstructs the declared inventory from a parsed escrow document.
pub fn declared_from(escrow: &Json) -> (r: (DevicesFile, WorkloadsFile))
    ensures
        seq_views(r.0.device@) == devices_of(jv(*escrow)),
        r.1.workload@.len() == 0,
        placements_are(seq_views(r.1.guest@), vm_records(jv(*escrow))),
        seq_views(r.1.guest_record@) == records_sorted(vm_records(jv(*escrow))),
{
    (DevicesFile { device: adapt_devices(escrow) }, adapt_workloads(escrow))
}

/// Parses an escrow text and reconstructs the declared inventory; nothing
/// when the text is not JSON.
pub fn load_declared(text: &str) -> (r: Option<(DevicesFile, WorkloadsFile)>)
    ensures
        r is Some <==> json_parse(text@) is Some,
        match (r, json_parse(text@)) {
            (Some(p), Some(e)) => seq_views(p.0.device@) == devices_of(e) && p.1.workload@.len() == 0 && placements_are(
                seq_views(p.1.guest@),
                vm_records(e),
            ) && seq_views(p.1.guest_record@) == records_sorted(vm_records(e)),
            _ => true,
        },
{
    match parse_json(text) {
        Some(e) => Some(declared_from(&e)),
        None => None,
    }
}


/// An adapted device's power figures are its own custom fields, in
/// milliwatts: each whole-watt field times 1000 (0 when absent), saturated
/// to `i64`; the peak figure is read from `power_peak_w` alone and the
/// typical one from `power_typical_w` alone.
pub proof fn law_device_power_from_its_fields(escrow: JVal, d: JVal)
    ensures
        ({
            let m = device_of(escrow, d);
            &&& match jint(cf(d, "power_peak_w"@)) {
                Some(w) => {
                    &&& i64::MIN <= w * 1000 <= i64::MAX ==> m.power_peak_mw == w * 1000
                    &&& w * 1000 > i64::MAX ==> m.power_peak_mw == i64::MAX
                    &&& w * 1000 < i64::MIN ==> m.power_peak_mw == i64::MIN
                },
                None => m.power_peak_mw == 0,
            }
            &&& match jint(cf(d, "power_typical_w"@)) {
                Some(w) => {
                    &&& i64::MIN <= w * 1000 <= i64::MAX ==> m.power_typical_mw == w * 1000
                    &&& w * 1000 > i64::MAX ==> m.power_typical_mw == i64::MAX
                    &&& w * 1000 < i64::MIN ==> m.power_typical_mw == i64::MIN
                },
                None => m.power_typical_mw == 0,
            }
        }),
{
}

} // verus!
