//! The allocation invariant over the typed guest registry: declared VMIDs
//! and IPs must not collide.
//!
//! - **VMID unique per host.** A standalone Proxmox node rejects a second
//!   guest with the same VMID; the registry mirrors that per host.
//! - **IP unique fleet-wide.** No two declared owners — guests or devices —
//!   may claim the same address on any network.
//!
//! This is the collision gate: it emits findings, never mutates.

use vstd::prelude::*;
use crate::text::{eq_chars, 
    chars_of, filter_map, fmt_u64, int_text, join, join_of, lemma_text_lt_asymmetric,
    lemma_text_lt_irreflexive, lemma_text_lt_total, lemma_text_lt_transitive, order_text,
    seq_views, string_from, text_lt, views,
};
use crate::inventory::devices::{DeviceModel, DevicesFile};
use crate::inventory::workloads::{kind_prefix, RecordModel, WorkloadsFile};

verus! {

/// A claim: a key (text, number) and the label of its claimant.
pub type Claim = ((Seq<char>, u32), Seq<char>);

/// The order of claim keys: by text, then by number.
pub open spec fn key_lt(a: (Seq<char>, u32), b: (Seq<char>, u32)) -> bool {
    text_lt(a.0, b.0) || (a.0 == b.0 && a.1 < b.1)
}

pub proof fn lemma_key_lt_transitive(a: (Seq<char>, u32), b: (Seq<char>, u32), c: (Seq<char>, u32))
    requires
        key_lt(a, b),
        key_lt(b, c),
    ensures
        key_lt(a, c),
{
    if text_lt(a.0, b.0) && text_lt(b.0, c.0) {
        lemma_text_lt_transitive(a.0, b.0, c.0);
    }
}

pub proof fn lemma_key_lt_total(a: (Seq<char>, u32), b: (Seq<char>, u32))
    ensures
        a == b || key_lt(a, b) || key_lt(b, a),
{
    lemma_text_lt_total(a.0, b.0);
}

/// Some claim names the key.
pub open spec fn claimed(cl: Seq<Claim>, k: (Seq<char>, u32)) -> bool {
    exists|j: int| 0 <= j < cl.len() && (#[trigger] cl[j]).0 == k
}

/// The claimants of a key, in claim order.
pub open spec fn holders(cl: Seq<Claim>, k: (Seq<char>, u32)) -> Seq<Seq<char>> {
    filter_map(cl, holder_of(k))
}

/// The claimant of a claim on `k`.
pub open spec fn holder_of(k: (Seq<char>, u32)) -> spec_fn(Claim) -> Option<Seq<char>> {
    |c: Claim| if c.0 == k { Some(c.1) } else { None }
}

pub proof fn lemma_holders_claimed(cl: Seq<Claim>, k: (Seq<char>, u32))
    requires
        holders(cl, k).len() > 0,
    ensures
        claimed(cl, k),
    decreases cl.len(),
{
    if cl.len() > 0 {
        assert(holders(cl, k) == (match holder_of(k)(cl.last()) {
            Some(b) => holders(cl.drop_last(), k).push(b),
            None => holders(cl.drop_last(), k),
        }));
        if cl.last().0 != k {
            lemma_holders_claimed(cl.drop_last(), k);
            let j = choose|j: int| 0 <= j < cl.drop_last().len() && (#[trigger] cl.drop_last()[j]).0 == k;
            assert(cl[j] == cl.drop_last()[j]);
        } else {
            assert(cl[cl.len() - 1].0 == k);
        }
    }
}

/// The list has an entry for the key.
pub open spec fn listed(out: Seq<((Seq<char>, u32), Seq<Seq<char>>)>, k: (Seq<char>, u32)) -> bool {
    exists|i: int| 0 <= i < out.len() && (#[trigger] out[i]).0 == k
}

/// `out` lists exactly the keys claimed more than once, in strictly
/// increasing key order, each with all of its claimants in claim order.
pub open spec fn collision_list(cl: Seq<Claim>, out: Seq<((Seq<char>, u32), Seq<Seq<char>>)>) -> bool {
    &&& forall|i: int, j: int| 0 <= i < j < out.len() ==> key_lt(out[i].0, out[j].0)
    &&& forall|i: int| 0 <= i < out.len() ==> (#[trigger] out[i]).1 == holders(cl, out[i].0) && out[i].1.len() > 1
    &&& forall|k: (Seq<char>, u32)| #[trigger] holders(cl, k).len() > 1 ==> listed(out, k)
}

spec fn key_view(k: (Vec<char>, u32)) -> (Seq<char>, u32) {
    (k.0@, k.1)
}

spec fn claim_views(c: Seq<((Vec<char>, u32), Vec<char>)>) -> Seq<Claim> {
    c.map_values(|x: ((Vec<char>, u32), Vec<char>)| ((x.0.0@, x.0.1), x.1@))
}

spec fn key_views(c: Seq<(Vec<char>, u32)>) -> Seq<(Seq<char>, u32)> {
    c.map_values(|x: (Vec<char>, u32)| (x.0@, x.1))
}

spec fn group_views(c: Seq<((Vec<char>, u32), Vec<Vec<char>>)>) -> Seq<((Seq<char>, u32), Seq<Seq<char>>)> {
    c.map_values(|x: ((Vec<char>, u32), Vec<Vec<char>>)| ((x.0.0@, x.0.1), views(x.1@)))
}

fn key_order(a: &(Vec<char>, u32), b: &(Vec<char>, u32)) -> (r: i8)
    ensures
        r < 0 <==> key_lt(key_view(*a), key_view(*b)),
        r == 0 <==> key_view(*a) == key_view(*b),
        r > 0 <==> key_lt(key_view(*b), key_view(*a)),
{
    proof {
        lemma_text_lt_irreflexive(a.0@);
    }
    let t = order_text(a.0.as_slice(), b.0.as_slice());
    if t != 0 {
        proof {
            if t < 0 {
                lemma_text_lt_asymmetric(a.0@, b.0@);
            } else {
                lemma_text_lt_asymmetric(b.0@, a.0@);
            }
        }
        t
    } else if a.1 < b.1 {
        -1
    } else if a.1 == b.1 {
        0
    } else {
        1
    }
}

spec fn strictly_sorted(k: Seq<(Seq<char>, u32)>) -> bool {
    forall|i: int, j: int| 0 <= i < j < k.len() ==> key_lt(k[i], k[j])
}

/// The distinct claimed keys, sorted.
fn sorted_keys(claims: &Vec<((Vec<char>, u32), Vec<char>)>) -> (r: Vec<(Vec<char>, u32)>)
    ensures
        strictly_sorted(key_views(r@)),
        forall|j: int| 0 <= j < claims@.len() ==> key_views(r@).contains(#[trigger] claim_views(claims@)[j].0),
        forall|m: int| 0 <= m < r@.len() ==> claimed(claim_views(claims@), #[trigger] key_views(r@)[m]),
{
    let mut keys: Vec<(Vec<char>, u32)> = Vec::new();
    let mut i: usize = 0;
    let ghost cv = claim_views(claims@);
    let ghost mut src: Seq<int> = seq![];
    while i < claims.len()
        invariant
            i <= claims@.len(),
            cv == claim_views(claims@),
            strictly_sorted(key_views(keys@)),
            forall|j: int| 0 <= j < i ==> key_views(keys@).contains(#[trigger] cv[j].0),
            src.len() == keys@.len(),
            forall|m: int| 0 <= m < keys@.len() ==> 0 <= #[trigger] src[m] < i && cv[src[m]].0 == key_views(keys@)[m],
        decreases claims@.len() - i,
    {
        let k = &claims[i].0;
        let ghost kv = key_view(*k);
        assert(cv[i as int].0 == kv);
        let ghost kk = key_views(keys@);
        let mut p: usize = 0;
        while p < keys.len()
            invariant
                p <= keys@.len(),
                kk == key_views(keys@),
                kv == key_view(*k),
                forall|m: int| 0 <= m < p ==> key_lt(#[trigger] kk[m], kv),
            ensures
                p <= keys@.len(),
                forall|m: int| 0 <= m < p ==> key_lt(#[trigger] kk[m], kv),
                p < keys@.len() ==> !key_lt(kk[p as int], kv),
            decreases keys@.len() - p,
        {
            if key_order(&keys[p], k) >= 0 {
                break;
            }
            p = p + 1;
        }
        if p < keys.len() && key_order(&keys[p], k) == 0 {
            assert(kk[p as int] == kv);
            assert(kk.contains(kv));
        } else {
            let nk = (vstd::slice::slice_to_vec(k.0.as_slice()), k.1);
            keys.insert(p, nk);
            let ghost nkk = key_views(keys@);
            assert(nkk =~= kk.insert(p as int, kv));
            let ghost old_src = src;
            proof {
                src = src.insert(p as int, i as int);
            }
            proof {
                if p < kk.len() {
                    lemma_key_lt_total(kk[p as int], kv);
                }
                assert forall|a: int, b: int| 0 <= a < b < nkk.len() implies key_lt(nkk[a], nkk[b]) by {
                    if b < p {
                    } else if b == p {
                    } else if a < p {
                        lemma_key_lt_transitive(kk[a], kv, kk[p as int]);
                        if b - 1 > p {
                            lemma_key_lt_transitive(kk[a], kk[p as int], kk[b - 1]);
                        }
                    } else if a == p {
                        if b - 1 > p {
                            lemma_key_lt_transitive(kv, kk[p as int], kk[b - 1]);
                        }
                    } else {
                    }
                }
                assert(nkk[p as int] == kv);
                assert forall|j: int| 0 <= j < i + 1 implies nkk.contains(#[trigger] cv[j].0) by {
                    if j < i {
                        let m = choose|m: int| 0 <= m < kk.len() && kk[m] == cv[j].0;
                        if m < p {
                            assert(nkk[m] == kk[m]);
                        } else {
                            assert(nkk[m + 1] == kk[m]);
                        }
                    } else {
                        assert(nkk[p as int] == cv[j].0);
                    }
                }
                assert forall|m: int| 0 <= m < nkk.len() implies 0 <= #[trigger] src[m] < i + 1 && cv[src[m]].0 == nkk[m] by {
                    if m < p {
                        assert(nkk[m] == kk[m]);
                        assert(src[m] == old_src[m]);
                    } else if m == p {
                        assert(cv[i as int].0 == nkk[m]);
                    } else {
                        assert(nkk[m] == kk[m - 1]);
                        assert(src[m] == old_src[m - 1]);
                    }
                }
            }
        }
        i = i + 1;
    }
    assert forall|m: int| 0 <= m < keys@.len() implies claimed(claim_views(claims@), #[trigger] key_views(keys@)[m]) by {
        let j = src[m];
        assert(cv[j].0 == key_views(keys@)[m]);
    }
    keys
}

fn holders_of(claims: &Vec<((Vec<char>, u32), Vec<char>)>, key: &(Vec<char>, u32)) -> (r: Vec<Vec<char>>)
    ensures
        views(r@) == holders(claim_views(claims@), key_view(*key)),
{
    let ghost cv = claim_views(claims@);
    let ghost k = key_view(*key);
    let ghost f = holder_of(k);
    let mut out: Vec<Vec<char>> = Vec::new();
    let mut i: usize = 0;
    assert(views(out@) =~= filter_map(cv.take(0), f));
    while i < claims.len()
        invariant
            i <= claims@.len(),
            cv == claim_views(claims@),
            k == key_view(*key),
            f == holder_of(k),
            views(out@) == filter_map(cv.take(i as int), f),
        decreases claims@.len() - i,
    {
        let ghost prev = views(out@);
        assert(cv.take(i + 1).drop_last() =~= cv.take(i as int));
        assert(cv[i as int] == ((claims@[i as int].0.0@, claims@[i as int].0.1), claims@[i as int].1@));
        if key_order(&claims[i].0, key) == 0 {
            let h = vstd::slice::slice_to_vec(claims[i].1.as_slice());
            out.push(h);
            assert(views(out@) =~= prev.push(h@));
        }
        i = i + 1;
    }
    assert(cv.take(i as int) =~= cv);
    out
}

/// The keys claimed more than once, sorted, each with its claimants.
fn collisions(claims: &Vec<((Vec<char>, u32), Vec<char>)>) -> (r: Vec<((Vec<char>, u32), Vec<Vec<char>>)>)
    ensures
        collision_list(claim_views(claims@), group_views(r@)),
{
    let ghost cv = claim_views(claims@);
    let keys = sorted_keys(claims);
    let ghost kv = key_views(keys@);
    let mut out: Vec<((Vec<char>, u32), Vec<Vec<char>>)> = Vec::new();
    let ghost mut pos: Seq<int> = seq![];
    let mut i: usize = 0;
    while i < keys.len()
        invariant
            i <= keys@.len(),
            cv == claim_views(claims@),
            kv == key_views(keys@),
            strictly_sorted(kv),
            pos.len() == out@.len(),
            forall|m: int| 0 <= m < out@.len() ==> 0 <= #[trigger] pos[m] < i && group_views(out@)[m].0 == kv[pos[m]],
            forall|a: int, b: int| 0 <= a < b < out@.len() ==> pos[a] < pos[b],
            forall|m: int| 0 <= m < out@.len() ==> (#[trigger] group_views(out@)[m]).1 == holders(cv, group_views(out@)[m].0) && group_views(out@)[m].1.len() > 1,
            forall|q: int| 0 <= q < i ==> #[trigger] holders(cv, kv[q]).len() > 1 ==> listed(group_views(out@), kv[q]),
        decreases keys@.len() - i,
    {
        let h = holders_of(claims, &keys[i]);
        assert(kv[i as int] == key_view(keys@[i as int]));
        let ghost g0 = group_views(out@);
        if h.len() > 1 {
            let k = (vstd::slice::slice_to_vec(keys[i].0.as_slice()), keys[i].1);
            let ghost entry = ((k.0@, k.1), views(h@));
            out.push((k, h));
            assert(group_views(out@) =~= g0.push(entry));
            proof {
                pos = pos.push(i as int);
                assert forall|q: int| 0 <= q < i + 1 && #[trigger] holders(cv, kv[q]).len() > 1 implies listed(group_views(out@), kv[q]) by {
                    if q < i {
                        let m = choose|m: int| 0 <= m < g0.len() && (#[trigger] g0[m]).0 == kv[q];
                        assert(group_views(out@)[m] == g0[m]);
                    } else {
                        assert(group_views(out@)[g0.len() as int].0 == kv[q]);
                    }
                }
            }
        }
        i = i + 1;
    }
    let ghost gv = group_views(out@);
    assert forall|a: int, b: int| 0 <= a < b < gv.len() implies key_lt(gv[a].0, gv[b].0) by {
        assert(pos[a] < pos[b]);
    }
    assert forall|k: (Seq<char>, u32)| #[trigger] holders(cv, k).len() > 1 implies listed(gv, k) by {
        lemma_holders_claimed(cv, k);
        let j = choose|j: int| 0 <= j < cv.len() && (#[trigger] cv[j]).0 == k;
        assert(kv.contains(cv[j].0));
        let q = choose|q: int| 0 <= q < kv.len() && kv[q] == cv[j].0;
        assert(holders(cv, kv[q]).len() > 1);
    }
    out
}

/// A declared-vs-declared allocation collision found by [`validate_registry`].
#[derive(Debug, Clone, PartialEq, Eq)]
pub enum RegistryConflict {
    /// Two or more guests on one host claim the same VMID.
    DuplicateVmid {
        /// Host the collision is on.
        host: String,
        /// The VMID claimed more than once.
        vmid: u32,
        /// The colliding guests, as `VM101 vm-a`-style labels.
        holders: Vec<String>,
    },
    /// Two or more declared owners (guests or devices) claim the same IP.
    DuplicateIp {
        /// The address claimed more than once.
        ip: String,
        /// The colliding owners, as human-readable labels.
        holders: Vec<String>,
    },
}

/// The abstract content of a [`RegistryConflict`].
pub enum ConflictModel {
    Vmid { host: Seq<char>, vmid: u32, holders: Seq<Seq<char>> },
    Ip { ip: Seq<char>, holders: Seq<Seq<char>> },
}

impl View for RegistryConflict {
    type V = ConflictModel;

    open spec fn view(&self) -> ConflictModel {
        match self {
            RegistryConflict::DuplicateVmid { host, vmid, holders } => ConflictModel::Vmid {
                host: host@,
                vmid: *vmid,
                holders: holders.deep_view(),
            },
            RegistryConflict::DuplicateIp { ip, holders } => ConflictModel::Ip {
                ip: ip@,
                holders: holders.deep_view(),
            },
        }
    }
}

/// A conflict as one line of text.
pub open spec fn conflict_text(c: ConflictModel) -> Seq<char> {
    match c {
        ConflictModel::Vmid { host, vmid, holders } => "VMID "@ + crate::text::int_text(vmid as int) + " declared "@
            + crate::text::int_text(holders.len() as int) + " times on "@ + host + ": "@ + crate::text::join(holders, ", "@),
        ConflictModel::Ip { ip, holders } => "IP "@ + ip + " claimed by "@ + crate::text::int_text(holders.len() as int)
            + " owners: "@ + crate::text::join(holders, ", "@),
    }
}

fn holder_chars(holders: &Vec<String>) -> (r: Vec<Vec<char>>)
    ensures
        crate::text::views(r@) == holders.deep_view(),
{
    let mut out: Vec<Vec<char>> = Vec::new();
    let mut i: usize = 0;
    while i < holders.len()
        invariant
            i <= holders@.len(),
            crate::text::views(out@) == holders.deep_view().take(i as int),
        decreases holders@.len() - i,
    {
        let c = crate::text::chars_of(holders[i].as_str());
        let ghost prev = crate::text::views(out@);
        out.push(c);
        assert(holders.deep_view()[i as int] == c@);
        assert(crate::text::views(out@) =~= prev.push(c@));
        assert(holders.deep_view().take(i + 1) =~= holders.deep_view().take(i as int).push(c@));
        i = i + 1;
    }
    assert(holders.deep_view().take(i as int) =~= holders.deep_view());
    out
}

impl RegistryConflict {
    /// The conflict as one line: `VMID 111 declared 2 times on store: …` or
    /// `IP 192.0.2.111 claimed by 2 owners: …`.
    pub fn describe(&self) -> (r: String)
        ensures
            r@ == conflict_text(self@),
    {
        let sep = crate::text::chars_of(", ");
        match self {
            RegistryConflict::DuplicateVmid { host, vmid, holders } => {
                let mut t = crate::text::chars_of("VMID ");
                crate::text::put_chars(&mut t, crate::text::fmt_u128(*vmid as u128).as_slice());
                crate::text::put(&mut t, " declared ");
                crate::text::put_chars(&mut t, crate::text::fmt_u128(holders.len() as u128).as_slice());
                crate::text::put(&mut t, " times on ");
                crate::text::put(&mut t, host.as_str());
                crate::text::put(&mut t, ": ");
                crate::text::put_chars(&mut t, crate::text::join_of(&holder_chars(holders), sep.as_slice()).as_slice());
                crate::text::string_from(t.as_slice())
            },
            RegistryConflict::DuplicateIp { ip, holders } => {
                let mut t = crate::text::chars_of("IP ");
                crate::text::put(&mut t, ip.as_str());
                crate::text::put(&mut t, " claimed by ");
                crate::text::put_chars(&mut t, crate::text::fmt_u128(holders.len() as u128).as_slice());
                crate::text::put(&mut t, " owners: ");
                crate::text::put_chars(&mut t, crate::text::join_of(&holder_chars(holders), sep.as_slice()).as_slice());
                crate::text::string_from(t.as_slice())
            },
        }
    }
}

/// A conflict as a (key, claimants) group; an IP's key number is 0.
pub open spec fn as_group(c: ConflictModel) -> ((Seq<char>, u32), Seq<Seq<char>>) {
    match c {
        ConflictModel::Vmid { host, vmid, holders } => ((host, vmid), holders),
        ConflictModel::Ip { ip, holders } => ((ip, 0u32), holders),
    }
}

/// A guest's registry label: `VM101 vm-a`.
pub open spec fn vmid_label(g: RecordModel) -> Seq<char> {
    kind_prefix(g.kind) + int_text(g.vmid as int) + " "@ + g.name
}

/// Each guest claims its VMID on its host.
pub open spec fn vmid_claims(recs: Seq<RecordModel>) -> Seq<Claim> {
    recs.map_values(|g: RecordModel| ((g.host, g.vmid), vmid_label(g)))
}

/// A claim on an address, when one is declared.
pub open spec fn ip_claim(ip: Option<Seq<char>>, label: Seq<char>) -> Seq<Claim> {
    match ip {
        Some(a) => seq![((a, 0u32), label)],
        None => seq![],
    }
}

/// A claim on an address, unless the owner already claimed it on another
/// of its networks.
pub open spec fn ip_claim_unless(ip: Option<Seq<char>>, seen: bool, label: Seq<char>) -> Seq<Claim> {
    if seen {
        seq![]
    } else {
        ip_claim(ip, label)
    }
}

/// A device's claims: its LAN, fabric and mgmt addresses, each distinct
/// address once.
pub open spec fn device_claims(d: DeviceModel) -> Seq<Claim> {
    let label = "device "@ + d.id;
    ip_claim(d.ip_lan, label) + ip_claim_unless(d.ip_fabric, d.ip_fabric == d.ip_lan, label) + ip_claim_unless(
        d.ip_mgmt,
        d.ip_mgmt == d.ip_lan || d.ip_mgmt == d.ip_fabric,
        label,
    )
}

/// Every device claims its addresses, each distinct address once.
pub open spec fn device_ip_claims(devs: Seq<DeviceModel>) -> Seq<Claim>
    decreases devs.len(),
{
    if devs.len() == 0 {
        seq![]
    } else {
        device_ip_claims(devs.drop_last()) + device_claims(devs.last())
    }
}

/// A guest's owner label: `VM101 vm-a (host)`.
pub open spec fn guest_owner_label(g: RecordModel) -> Seq<char> {
    vmid_label(g) + " ("@ + g.host + ")"@
}

/// A guest's claims: its LAN and fabric addresses, each distinct address
/// once.
pub open spec fn guest_claims(g: RecordModel) -> Seq<Claim> {
    ip_claim(g.ip_lan, guest_owner_label(g)) + ip_claim_unless(g.ip_fabric, g.ip_fabric == g.ip_lan, guest_owner_label(g))
}

/// Every guest claims its addresses, each distinct address once.
pub open spec fn guest_ip_claims(recs: Seq<RecordModel>) -> Seq<Claim>
    decreases recs.len(),
{
    if recs.len() == 0 {
        seq![]
    } else {
        guest_ip_claims(recs.drop_last()) + guest_claims(recs.last())
    }
}

/// All address claims: devices first, then guests.
pub open spec fn ip_claims(devs: Seq<DeviceModel>, recs: Seq<RecordModel>) -> Seq<Claim> {
    device_ip_claims(devs) + guest_ip_claims(recs)
}

/// The conflicts are VMID conflicts listing exactly the collisions of the
/// claims.
pub open spec fn vmid_report(cl: Seq<Claim>, r: Seq<ConflictModel>) -> bool {
    &&& forall|i: int| 0 <= i < r.len() ==> (#[trigger] r[i]) is Vmid
    &&& collision_list(cl, r.map_values(|c: ConflictModel| as_group(c)))
}

/// The conflicts are IP conflicts listing exactly the collisions of the
/// claims.
pub open spec fn ip_report(cl: Seq<Claim>, r: Seq<ConflictModel>) -> bool {
    &&& forall|i: int| 0 <= i < r.len() ==> (#[trigger] r[i]) is Ip
    &&& collision_list(cl, r.map_values(|c: ConflictModel| as_group(c)))
}

/// Whether two optional addresses are the same.
fn same_ip(a: &Option<String>, b: &Option<String>) -> (r: bool)
    ensures
        r == (a.deep_view() == b.deep_view()),
{
    match (a, b) {
        (Some(x), Some(y)) => eq_chars(chars_of(x.as_str()).as_slice(), chars_of(y.as_str()).as_slice()),
        (None, None) => true,
        _ => false,
    }
}

fn push_claim(out: &mut Vec<((Vec<char>, u32), Vec<char>)>, ip: &Option<String>, label: &[char])
    ensures
        claim_views(final(out)@) == claim_views(old(out)@) + ip_claim(ip.deep_view(), label@),
        (forall|j: int| 0 <= j < old(out)@.len() ==> (#[trigger] old(out)@[j]).0.1 == 0) ==> (forall|
            j: int,
        |
            0 <= j < final(out)@.len() ==> (#[trigger] final(out)@[j]).0.1 == 0),
{
    let ghost before = claim_views(out@);
    match ip {
        Some(a) => {
            let c = ((chars_of(a.as_str()), 0u32), vstd::slice::slice_to_vec(label));
            out.push(c);
            assert(claim_views(out@) =~= before + ip_claim(ip.deep_view(), label@));
        },
        None => {
            assert(claim_views(out@) =~= before + ip_claim(ip.deep_view(), label@));
        },
    }
}

fn vmid_label_of(g: &crate::inventory::workloads::GuestRecord) -> (r: Vec<char>)
    ensures
        r@ == vmid_label(g@),
{
    let mut t = chars_of(g.kind.prefix());
    t.append(&mut fmt_u64(g.vmid as u64));
    t.append(&mut chars_of(" "));
    t.append(&mut chars_of(g.name.as_str()));
    assert(t@ =~= vmid_label(g@));
    t
}

fn to_conflicts(groups: Vec<((Vec<char>, u32), Vec<Vec<char>>)>, ip: bool) -> (r: Vec<RegistryConflict>)
    ensures
        r@.len() == groups@.len(),
        forall|i: int| 0 <= i < r@.len() ==> (#[trigger] r@[i])@ is Ip == ip,
        forall|i: int| 0 <= i < r@.len() ==> as_group((#[trigger] r@[i])@) == (if ip {
            ((groups@[i].0.0@, 0u32), views(groups@[i].1@))
        } else {
            ((groups@[i].0.0@, groups@[i].0.1), views(groups@[i].1@))
        }),
{
    let mut out: Vec<RegistryConflict> = Vec::new();
    let mut i: usize = 0;
    while i < groups.len()
        invariant
            i <= groups@.len(),
            out@.len() == i,
            forall|j: int| 0 <= j < i ==> (#[trigger] out@[j])@ is Ip == ip,
            forall|j: int| 0 <= j < i ==> as_group((#[trigger] out@[j])@) == (if ip {
                ((groups@[j].0.0@, 0u32), views(groups@[j].1@))
            } else {
                ((groups@[j].0.0@, groups@[j].0.1), views(groups@[j].1@))
            }),
        decreases groups@.len() - i,
    {
        let g = &groups[i];
        let mut hs: Vec<String> = Vec::new();
        let mut k: usize = 0;
        while k < g.1.len()
            invariant
                k <= g.1@.len(),
                hs.deep_view() == views(g.1@).take(k as int),
            decreases g.1@.len() - k,
        {
            let ghost prev = hs.deep_view();
            let st = string_from(g.1[k].as_slice());
            hs.push(st);
            assert(hs.deep_view() =~= prev.push(st@));
            assert(views(g.1@)[k as int] == g.1@[k as int]@);
            assert(hs.deep_view() =~= views(g.1@).take(k + 1));
            k = k + 1;
        }
        assert(views(g.1@).take(k as int) =~= views(g.1@));
        let c = if ip {
            RegistryConflict::DuplicateIp { ip: string_from(g.0.0.as_slice()), holders: hs }
        } else {
            RegistryConflict::DuplicateVmid { host: string_from(g.0.0.as_slice()), vmid: g.0.1, holders: hs }
        };
        out.push(c);
        i = i + 1;
    }
    out
}

proof fn lemma_group_map(cl: Seq<Claim>, groups: Seq<((Vec<char>, u32), Vec<Vec<char>>)>, r: Seq<ConflictModel>, ip: bool)
    requires
        collision_list(cl, group_views(groups)),
        r.len() == groups.len(),
        forall|i: int| 0 <= i < r.len() ==> as_group(#[trigger] r[i]) == (if ip {
            ((groups[i].0.0@, 0u32), views(groups[i].1@))
        } else {
            ((groups[i].0.0@, groups[i].0.1), views(groups[i].1@))
        }),
        ip ==> forall|i: int| 0 <= i < groups.len() ==> (#[trigger] groups[i]).0.1 == 0,
    ensures
        collision_list(cl, r.map_values(|c: ConflictModel| as_group(c))),
{
    let a = r.map_values(|c: ConflictModel| as_group(c));
    let b = group_views(groups);
    assert forall|i: int| 0 <= i < a.len() implies a[i] == b[i] by {
        if ip {
            assert(groups[i].0.1 == 0);
        }
    }
    assert(a =~= b);
}

fn duplicate_vmids(workloads: &WorkloadsFile) -> (r: Vec<RegistryConflict>)
    ensures
        vmid_report(vmid_claims(seq_views(workloads.guest_record@)), seq_views(r@)),
{
    let ghost recs = seq_views(workloads.guest_record@);
    let mut claims: Vec<((Vec<char>, u32), Vec<char>)> = Vec::new();
    let mut i: usize = 0;
    while i < workloads.guest_record.len()
        invariant
            i <= workloads.guest_record@.len(),
            recs == seq_views(workloads.guest_record@),
            claim_views(claims@) == vmid_claims(recs.take(i as int)),
        decreases workloads.guest_record@.len() - i,
    {
        let g = &workloads.guest_record[i];
        assert(recs[i as int] == g@);
        let ghost before = claim_views(claims@);
        let c = ((chars_of(g.host.as_str()), g.vmid), vmid_label_of(g));
        claims.push(c);
        assert(claim_views(claims@) =~= before.push(((g@.host, g@.vmid), vmid_label(g@))));
        assert(recs.take(i + 1) =~= recs.take(i as int).push(g@));
        assert(claim_views(claims@) =~= vmid_claims(recs.take(i + 1)));
        i = i + 1;
    }
    assert(recs.take(i as int) =~= recs);
    let groups = collisions(&claims);
    let ghost gs = groups@;
    let r = to_conflicts(groups, false);
    proof {
        lemma_group_map(claim_views(claims@), gs, seq_views(r@), false);
        assert forall|j: int| 0 <= j < seq_views(r@).len() implies (#[trigger] seq_views(r@)[j]) is Vmid by {
            assert(seq_views(r@)[j] == r@[j]@);
        }
    }
    r
}

fn ip_claims_of(devices: &DevicesFile, workloads: &WorkloadsFile) -> (r: Vec<((Vec<char>, u32), Vec<char>)>)
    ensures
        claim_views(r@) == ip_claims(seq_views(devices.device@), seq_views(workloads.guest_record@)),
        forall|i: int| 0 <= i < r@.len() ==> (#[trigger] r@[i]).0.1 == 0,
{
    let ghost devs = seq_views(devices.device@);
    let ghost recs = seq_views(workloads.guest_record@);
    let mut claims: Vec<((Vec<char>, u32), Vec<char>)> = Vec::new();
    let mut i: usize = 0;
    while i < devices.device.len()
        invariant
            i <= devices.device@.len(),
            devs == seq_views(devices.device@),
            claim_views(claims@) == device_ip_claims(devs.take(i as int)),
            forall|j: int| 0 <= j < claims@.len() ==> (#[trigger] claims@[j]).0.1 == 0,
        decreases devices.device@.len() - i,
    {
        let d = &devices.device[i];
        assert(devs[i as int] == d@);
        assert(devs.take(i + 1).drop_last() =~= devs.take(i as int));
        let mut label = chars_of("device ");
        label.append(&mut chars_of(d.id.as_str()));
        let ghost before = claim_views(claims@);
        push_claim(&mut claims, &d.ip_lan, label.as_slice());
        if !same_ip(&d.ip_fabric, &d.ip_lan) {
            push_claim(&mut claims, &d.ip_fabric, label.as_slice());
        }
        if !same_ip(&d.ip_mgmt, &d.ip_lan) && !same_ip(&d.ip_mgmt, &d.ip_fabric) {
            push_claim(&mut claims, &d.ip_mgmt, label.as_slice());
        }
        assert(claim_views(claims@) =~= before + device_claims(d@));
        i = i + 1;
    }
    assert(devs.take(i as int) =~= devs);
    let ghost mid = claim_views(claims@);
    let mut k: usize = 0;
    assert(claim_views(claims@) =~= mid + guest_ip_claims(recs.take(0)));
    while k < workloads.guest_record.len()
        invariant
            k <= workloads.guest_record@.len(),
            recs == seq_views(workloads.guest_record@),
            claim_views(claims@) == mid + guest_ip_claims(recs.take(k as int)),
            forall|j: int| 0 <= j < claims@.len() ==> (#[trigger] claims@[j]).0.1 == 0,
        decreases workloads.guest_record@.len() - k,
    {
        let g = &workloads.guest_record[k];
        assert(recs[k as int] == g@);
        assert(recs.take(k + 1).drop_last() =~= recs.take(k as int));
        let mut label = vmid_label_of(g);
        label.append(&mut chars_of(" ("));
        label.append(&mut chars_of(g.host.as_str()));
        label.append(&mut chars_of(")"));
        assert(label@ =~= guest_owner_label(g@));
        let ghost before = claim_views(claims@);
        push_claim(&mut claims, &g.ip_lan, label.as_slice());
        if !same_ip(&g.ip_fabric, &g.ip_lan) {
            push_claim(&mut claims, &g.ip_fabric, label.as_slice());
        }
        assert(claim_views(claims@) =~= before + guest_claims(g@));
        k = k + 1;
    }
    assert(recs.take(k as int) =~= recs);
    claims
}

fn duplicate_ips(devices: &DevicesFile, workloads: &WorkloadsFile) -> (r: Vec<RegistryConflict>)
    ensures
        ip_report(ip_claims(seq_views(devices.device@), seq_views(workloads.guest_record@)), seq_views(r@)),
{
    let claims = ip_claims_of(devices, workloads);
    let groups = collisions(&claims);
    let ghost gs = groups@;
    let ghost cv = claim_views(claims@);
    proof {
        assert forall|i: int| 0 <= i < gs.len() implies (#[trigger] gs[i]).0.1 == 0 by {
            assert(group_views(gs)[i].0.0 == gs[i].0.0@ && group_views(gs)[i].0.1 == gs[i].0.1);
            let k = group_views(gs)[i].0;
            assert(holders(cv, k).len() > 1);
            lemma_holders_claimed(cv, k);
            let j = choose|j: int| 0 <= j < cv.len() && (#[trigger] cv[j]).0 == k;
            assert(cv[j].0.1 == claims@[j].0.1);
        }
    }
    let r = to_conflicts(groups, true);
    proof {
        lemma_group_map(cv, gs, seq_views(r@), true);
        assert forall|j: int| 0 <= j < seq_views(r@).len() implies (#[trigger] seq_views(r@)[j]) is Ip by {
            assert(seq_views(r@)[j] == r@[j]@);
        }
    }
    r
}

/// Checks the typed guest registry against itself and the device
/// inventory: the VMID collisions (per host), then the IP collisions
/// (fleet-wide), each in key order. An empty result means the declared
/// allocations are internally consistent. The free-text placement list is
/// not consulted.
pub fn validate_registry(devices: &DevicesFile, workloads: &WorkloadsFile) -> (r: Vec<RegistryConflict>)
    ensures
        exists|n: int|
            0 <= n <= r@.len() && vmid_report(vmid_claims(seq_views(workloads.guest_record@)), seq_views(r@).take(n))
                && ip_report(ip_claims(seq_views(devices.device@), seq_views(workloads.guest_record@)), seq_views(r@).skip(n)),
{
    let mut conflicts = duplicate_vmids(workloads);
    let ghost a = seq_views(conflicts@);
    let mut more = duplicate_ips(devices, workloads);
    let ghost b = seq_views(more@);
    conflicts.append(&mut more);
    assert(seq_views(conflicts@) =~= a + b);
    assert(seq_views(conflicts@).take(a.len() as int) =~= a);
    assert(seq_views(conflicts@).skip(a.len() as int) =~= b);
    conflicts
}

/// The collision gate's promise: the registry reports nothing exactly when
/// no VMID is claimed twice on one host and no address twice in the fleet.
pub proof fn law_registry_clean_iff_no_collision(cl: Seq<Claim>, out: Seq<((Seq<char>, u32), Seq<Seq<char>>)>)
    requires
        collision_list(cl, out),
    ensures
        out.len() == 0 <==> forall|k: (Seq<char>, u32)| #[trigger] holders(cl, k).len() <= 1,
{
    if out.len() > 0 {
        assert(holders(cl, out[0].0).len() > 1);
    } else {
        assert forall|k: (Seq<char>, u32)| #[trigger] holders(cl, k).len() <= 1 by {
            if holders(cl, k).len() > 1 {
                assert(listed(out, k));
            }
        }
    }
}

} // verus!
