//! The system-topology figure: a TikZ picture whose nodes carry
//! board/accelerator/guest facts. Down-state comes from the snapshot, the
//! fabric edge joins devices declaring a `fabric_hca`, and the mgmt rail
//! appears when `networks.mgmt` and `bmc` fields are declared.

use vstd::prelude::*;
use crate::text::{
    put_lines, chars_of, first_match, fmt_u128, int_text, join, join_of, lemma_first_match_at,
    put, put_chars, seq_views, starts_with, starts_with_of, string_from, views,
};
use crate::report::tex::{esc_chars, esc_spec};
use crate::report::status::{ProbeState, ResultModel, Snapshot};
use crate::inventory::devices::{AcceleratorModel, Device, DeviceModel, DevicesFile};
use crate::inventory::workloads::{PlacementModel, WorkloadsFile};
use crate::inventory::site::{Networks, NetworksModel};
use crate::facts::reconcile::{model_token, model_token_of};

verus! {

/// The TikZ preamble of the figure.
pub const PICTURE_HEAD: &'static str = "\n\\section{System Topology}\n\\begin{center}\n\\begin{tikzpicture}[\n  node distance=7mm and 9mm,\n  box/.style={draw=secondary, thick, rounded corners=2pt, fill=lightgray!50,\n              align=center, font=\\small, inner sep=5pt},\n  host/.style={box, fill=white, draw=primary, minimum width=33mm},\n  downhost/.style={host, draw=accent, dashed},\n  lbl/.style={font=\\scriptsize\\itshape, text=darkgray},\n]\n";

/// Whether some probe with this id reports the target down.
pub open spec fn down_in(id: Seq<char>, rs: Seq<ResultModel>) -> bool
    decreases rs.len(),
{
    if rs.len() == 0 {
        false
    } else {
        down_in(id, rs.drop_last()) || (rs.last().id == id && rs.last().state == ProbeState::Down)
    }
}

/// The text after the last `.` (all of it when there is none).
pub open spec fn last_seg(s: Seq<char>) -> Seq<char>
    decreases s.len(),
{
    if s.len() == 0 {
        s
    } else if s.last() == '.' {
        seq![]
    } else {
        last_seg(s.drop_last()).push(s.last())
    }
}

/// How many entries start with `p`.
pub open spec fn count_prefixed(gs: Seq<Seq<char>>, p: Seq<char>) -> nat
    decreases gs.len(),
{
    if gs.len() == 0 {
        0
    } else {
        count_prefixed(gs.drop_last(), p) + if starts_with(gs.last(), p) {
            1nat
        } else {
            0nat
        }
    }
}

/// The short model token drawn in node labels: the model token, else the
/// whole model string.
pub open spec fn short_model_of(m: Seq<char>) -> Seq<char> {
    match model_token_of(m) {
        Some(t) => t,
        None => m,
    }
}

pub open spec fn host_is(id: Seq<char>) -> spec_fn(PlacementModel) -> bool {
    |p: PlacementModel| p.host == id
}

pub open spec fn role_starts(p: Seq<char>) -> spec_fn(DeviceModel) -> bool {
    |d: DeviceModel| starts_with(d.role, p)
}

pub open spec fn name_line(d: DeviceModel) -> Seq<char> {
    match d.ip_lan {
        Some(lan) => "\\textbf{"@ + esc_spec(d.name) + "} \\texttt{."@ + last_seg(lan) + "}"@,
        None => "\\textbf{"@ + esc_spec(d.name) + "}"@,
    }
}

pub open spec fn board_line(d: DeviceModel) -> Seq<Seq<char>> {
    match d.motherboard {
        Some(b) => seq!["\\scriptsize "@ + esc_spec(b)],
        None => match d.model {
            Some(b) => seq!["\\scriptsize "@ + esc_spec(b)],
            None => seq![],
        },
    }
}

pub open spec fn accel_piece(a: AcceleratorModel) -> Seq<char> {
    int_text(a.count as int) + "$\\times$"@ + esc_spec(short_model_of(a.model))
}

pub open spec fn accel_line(d: DeviceModel) -> Seq<Seq<char>> {
    let t = join(d.accelerator.map_values(|a: AcceleratorModel| accel_piece(a)), " · "@);
    if t.len() > 0 {
        seq!["\\scriptsize "@ + t]
    } else {
        seq![]
    }
}

pub open spec fn guests_line(d: DeviceModel, ps: Seq<PlacementModel>) -> Seq<Seq<char>> {
    match first_match(ps, host_is(d.id)) {
        Some(k) => seq![
            "\\scriptsize "@ + int_text(ps[k].guests.len() as int) + " guests ("@ + int_text(
                count_prefixed(ps[k].guests, "VM"@) as int,
            ) + " VM, "@ + int_text(count_prefixed(ps[k].guests, "CT"@) as int) + " CT)"@,
        ],
        None => seq![],
    }
}

pub open spec fn down_line(d: DeviceModel, rs: Seq<ResultModel>) -> Seq<Seq<char>> {
    if down_in(d.id, rs) {
        seq!["\\textcolor{accent}{\\scriptsize\\textbf{DOWN}}"@]
    } else {
        seq![]
    }
}

/// A node's label: name and address suffix, board, accelerators, guest
/// counts, and a DOWN mark, one per line.
pub open spec fn node_label_text(d: DeviceModel, ps: Seq<PlacementModel>, rs: Seq<ResultModel>) -> Seq<char> {
    join(
        seq![name_line(d)] + board_line(d) + accel_line(d) + guests_line(d, ps) + down_line(d, rs),
        "\\\\"@,
    )
}

/// The device the picture hangs from: the first edge router, else the
/// first device.
pub open spec fn hub_index(ds: Seq<DeviceModel>) -> Option<int> {
    match first_match(ds, role_starts("Edge router"@)) {
        Some(k) => Some(k),
        None => if ds.len() > 0 {
            Some(0)
        } else {
            None
        },
    }
}

/// The LAN-attached devices other than the hub, in order.
pub open spec fn lan_hosts(ds: Seq<DeviceModel>, hub: Seq<char>) -> Seq<DeviceModel>
    decreases ds.len(),
{
    if ds.len() == 0 {
        seq![]
    } else {
        let rest = lan_hosts(ds.drop_last(), hub);
        if ds.last().id != hub && ds.last().ip_lan is Some {
            rest.push(ds.last())
        } else {
            rest
        }
    }
}

/// The devices with a BMC or a mgmt address, in order.
pub open spec fn mgmt_members(ds: Seq<DeviceModel>) -> Seq<DeviceModel>
    decreases ds.len(),
{
    if ds.len() == 0 {
        seq![]
    } else {
        let rest = mgmt_members(ds.drop_last());
        if ds.last().bmc is Some || ds.last().ip_mgmt is Some {
            rest.push(ds.last())
        } else {
            rest
        }
    }
}

/// The hosts declaring a fabric HCA, in order.
pub open spec fn fabric_members(hs: Seq<DeviceModel>) -> Seq<DeviceModel>
    decreases hs.len(),
{
    if hs.len() == 0 {
        seq![]
    } else {
        let rest = fabric_members(hs.drop_last());
        if hs.last().fabric_hca is Some {
            rest.push(hs.last())
        } else {
            rest
        }
    }
}

/// The shift of the `i`-th of `n` hosts, in mm: `(i - (n-1)/2) * 52`.
pub open spec fn xshift(i: int, n: int) -> int {
    26 * (2 * i - n + 1)
}

pub open spec fn host_node(d: DeviceModel, i: int, n: int, hub: Seq<char>, ps: Seq<PlacementModel>, rs: Seq<ResultModel>) -> Seq<char> {
    "\\node["@ + (if down_in(d.id, rs) {
        "downhost"@
    } else {
        "host"@
    }) + ", below=14mm of "@ + hub + ", xshift="@ + int_text(xshift(i, n)) + "mm] ("@ + d.id + ") {"@
        + node_label_text(d, ps, rs) + "};\n"@
}

/// The first `k` host nodes.
pub open spec fn host_nodes(hs: Seq<DeviceModel>, k: nat, hub: Seq<char>, ps: Seq<PlacementModel>, rs: Seq<ResultModel>) -> Seq<char>
    decreases k,
{
    if k == 0 {
        seq![]
    } else {
        host_nodes(hs, (k - 1) as nat, hub, ps, rs) + host_node(hs[k - 1], k - 1, hs.len() as int, hub, ps, rs)
    }
}

pub open spec fn mgmt_addr(d: DeviceModel) -> Seq<char> {
    match d.bmc {
        Some(b) => b,
        None => match d.ip_mgmt {
            Some(m) => m,
            None => seq![],
        },
    }
}

pub open spec fn mgmt_piece(d: DeviceModel) -> Seq<char> {
    esc_spec(d.name) + " "@ + esc_spec(mgmt_addr(d))
}

/// The mgmt rail, when a mgmt network and some member are declared.
pub open spec fn mgmt_part(ds: Seq<DeviceModel>, net: NetworksModel, hub: Seq<char>) -> Seq<char> {
    let ms = mgmt_members(ds);
    match net.mgmt {
        Some(m) => if ms.len() > 0 {
            "\\node[box, right=14mm of "@ + hub + "] (mgmt) {mgmt "@ + esc_spec(m) + "\\\\\\scriptsize "@ + join(
                ms.map_values(|d: DeviceModel| mgmt_piece(d)),
                " · "@,
            ) + "};\n\\draw[thick, secondary, dashed] ("@ + hub + ") -- (mgmt);\n"@
        } else {
            seq![]
        },
        None => seq![],
    }
}

pub open spec fn lan_edge(d: DeviceModel, i: int, hub: Seq<char>, lan: Seq<char>) -> Seq<char> {
    "\\draw[thick, primary] ("@ + hub + ") -- ("@ + d.id + ")"@ + (if i == 0 {
        " node[midway, lbl, above left] {LAN "@ + esc_spec(lan) + "}"@
    } else {
        seq![]
    }) + ";\n"@
}

/// The first `k` LAN edges.
pub open spec fn lan_edges(hs: Seq<DeviceModel>, k: nat, hub: Seq<char>, lan: Seq<char>) -> Seq<char>
    decreases k,
{
    if k == 0 {
        seq![]
    } else {
        lan_edges(hs, (k - 1) as nat, hub, lan) + lan_edge(hs[k - 1], k - 1, hub, lan)
    }
}

pub open spec fn switch_edge(m: DeviceModel, i: int, switch: Seq<char>, fabric: Seq<char>) -> Seq<char> {
    "\\draw[very thick, dashed, success] ("@ + m.id + ") -- ("@ + switch + ")"@ + (if i == 0 {
        " node[midway, lbl, below left] {IPoIB fabric "@ + esc_spec(fabric) + "}"@
    } else {
        seq![]
    }) + ";\n"@
}

/// The first `k` member-to-switch edges.
pub open spec fn switch_edges(fm: Seq<DeviceModel>, k: nat, switch: Seq<char>, fabric: Seq<char>) -> Seq<char>
    decreases k,
{
    if k == 0 {
        seq![]
    } else {
        switch_edges(fm, (k - 1) as nat, switch, fabric) + switch_edge(fm[k - 1], k - 1, switch, fabric)
    }
}

pub open spec fn pair_edge(a: DeviceModel, b: DeviceModel, fabric: Seq<char>) -> Seq<char> {
    "\\draw[very thick, dashed, success] ("@ + a.id + ") to[bend right=18]\n  node[midway, lbl, below] {IPoIB fabric "@
        + esc_spec(fabric) + "} ("@ + b.id + ");\n"@
}

/// The first `k` edges between neighbouring members.
pub open spec fn pair_edges(fm: Seq<DeviceModel>, k: nat, fabric: Seq<char>) -> Seq<char>
    decreases k,
{
    if k == 0 {
        seq![]
    } else {
        pair_edges(fm, (k - 1) as nat, fabric) + pair_edge(fm[k - 1], fm[k as int], fabric)
    }
}

/// The fabric: a switch with its member edges, or edges between
/// neighbouring members when no switch is declared.
pub open spec fn fabric_part(
    ds: Seq<DeviceModel>,
    hs: Seq<DeviceModel>,
    hub: Seq<char>,
    ps: Seq<PlacementModel>,
    rs: Seq<ResultModel>,
    fabric: Seq<char>,
) -> Seq<char> {
    let fm = fabric_members(hs);
    match first_match(ds, role_starts("Fabric switch"@)) {
        Some(k) => "\\node[host, below=34mm of "@ + hub + "] ("@ + ds[k].id + ") {"@ + node_label_text(ds[k], ps, rs)
            + "};\n"@ + switch_edges(fm, fm.len(), ds[k].id, fabric),
        None => if fm.len() > 0 {
            pair_edges(fm, (fm.len() - 1) as nat, fabric)
        } else {
            seq![]
        },
    }
}

/// The whole topology section.
pub open spec fn topology_text(
    ds: Seq<DeviceModel>,
    ps: Seq<PlacementModel>,
    net: NetworksModel,
    rs: Seq<ResultModel>,
    note: Seq<char>,
) -> Seq<char> {
    match hub_index(ds) {
        None => "\n\\section{System Topology}\n"@ + note,
        Some(h) => {
            let hub = ds[h];
            let hs = lan_hosts(ds, hub.id);
            PICTURE_HEAD@ + "\\node[box, fill=secondary, text=white, text width=64mm] (wan) {WAN\\\\\\scriptsize "@
                + esc_spec(net.wan) + "};\n"@ + "\\node[host, below=of wan] ("@ + hub.id + ") {"@ + node_label_text(
                hub,
                ps,
                rs,
            ) + "};\n"@ + host_nodes(hs, hs.len(), hub.id, ps, rs) + mgmt_part(ds, net, hub.id)
                + "\\draw[thick, secondary] (wan) -- ("@ + hub.id + ");\n"@ + lan_edges(hs, hs.len(), hub.id, net.lan)
                + fabric_part(ds, hs, hub.id, ps, rs, net.fabric) + "\\end{tikzpicture}\n\\end{center}\n\n"@ + note
        },
    }
}

proof fn lemma_last_seg(s: Seq<char>, j: int)
    requires
        0 <= j <= s.len(),
        forall|k: int| j <= k < s.len() ==> s[k] != '.',
        j == 0 || s[j - 1] == '.',
    ensures
        last_seg(s) == s.subrange(j, s.len() as int),
    decreases s.len(),
{
    if s.len() == j {
        assert(s.subrange(j, s.len() as int) =~= Seq::<char>::empty());
        if j > 0 {
            assert(s.last() == s[j - 1]);
        }
    } else {
        lemma_last_seg(s.drop_last(), j);
        assert(s.subrange(j, s.len() as int) =~= s.drop_last().subrange(j, s.len() - 1).push(s.last()));
    }
}

fn last_seg_of(s: &[char]) -> (r: Vec<char>)
    ensures
        r@ == last_seg(s@),
{
    let mut j: usize = s.len();
    while j > 0 && s[j - 1] != '.'
        invariant
            j <= s@.len(),
            forall|k: int| j <= k < s@.len() ==> s@[k] != '.',
        decreases j,
    {
        j = j - 1;
    }
    proof {
        lemma_last_seg(s@, j as int);
    }
    let r = vstd::slice::slice_to_vec(&s[j..s.len()]);
    assert(r@ =~= s@.subrange(j as int, s@.len() as int));
    r
}

pub(crate) fn is_down(id: &[char], snapshot: &Snapshot) -> (r: bool)
    ensures
        r == down_in(id@, seq_views(snapshot.results@)),
{
    let ghost rs = seq_views(snapshot.results@);
    let mut found = false;
    let mut i: usize = 0;
    while i < snapshot.results.len()
        invariant
            i <= snapshot.results@.len(),
            rs == seq_views(snapshot.results@),
            found == down_in(id@, rs.take(i as int)),
        decreases snapshot.results@.len() - i,
    {
        let r = &snapshot.results[i];
        assert(rs.take(i + 1).drop_last() =~= rs.take(i as int));
        assert(rs.take(i + 1).last() == r@);
        let same = crate::text::eq_chars(chars_of(r.id.as_str()).as_slice(), id);
        let hit = same && r.state == ProbeState::Down;
        found = found || hit;
        i = i + 1;
    }
    assert(rs.take(i as int) =~= rs);
    found
}

fn count_prefixed_of(gs: &Vec<String>, p: &str) -> (r: usize)
    ensures
        r == count_prefixed(gs.deep_view(), p@),
{
    let ghost g = gs.deep_view();
    let pc = chars_of(p);
    let mut n: usize = 0;
    let mut i: usize = 0;
    while i < gs.len()
        invariant
            i <= gs@.len(),
            g == gs.deep_view(),
            pc@ == p@,
            n == count_prefixed(g.take(i as int), p@),
            n <= i,
        decreases gs@.len() - i,
    {
        assert(g.take(i + 1).drop_last() =~= g.take(i as int));
        assert(g.take(i + 1).last() == gs@[i as int]@);
        if starts_with_of(chars_of(gs[i].as_str()).as_slice(), pc.as_slice()) {
            n = n + 1;
        }
        i = i + 1;
    }
    assert(g.take(i as int) =~= g);
    n
}

/// The short model token drawn in node labels: the first word mixing
/// letters and digits (`V100`), else the first word containing a digit
/// (`4090`), else the whole model string.
pub fn short_model(model: &str) -> (r: &str)
    ensures
        r@ == short_model_of(model@),
{
    match model_token(model) {
        Some(t) => t,
        None => model,
    }
}

fn fmt_count(n: usize) -> (r: Vec<char>)
    ensures
        r@ == int_text(n as int),
{
    fmt_u128(n as u128)
}

fn name_line_of(dev: &Device) -> (r: Vec<char>)
    ensures
        r@ == name_line(dev@),
{
    let mut t = chars_of("\\textbf{");
    put_chars(&mut t, esc_chars(chars_of(dev.name.as_str()).as_slice()).as_slice());
    match &dev.ip_lan {
        Some(lan) => {
            put(&mut t, "} \\texttt{.");
            put_chars(&mut t, last_seg_of(chars_of(lan.as_str()).as_slice()).as_slice());
            put(&mut t, "}");
        },
        None => {
            put(&mut t, "}");
        },
    }
    t
}

fn board_line_of(dev: &Device) -> (r: Vec<Vec<char>>)
    ensures
        views(r@) == board_line(dev@),
{
    let mut lines: Vec<Vec<char>> = Vec::new();
    let board: Option<&String> = match &dev.motherboard {
        Some(b) => Some(b),
        None => match &dev.model {
            Some(m) => Some(m),
            None => None,
        },
    };
    match board {
        Some(b) => {
            let mut t = chars_of("\\scriptsize ");
            put_chars(&mut t, esc_chars(chars_of(b.as_str()).as_slice()).as_slice());
            lines.push(t);
            assert(views(lines@) =~= seq![t@]);
        },
        None => {
            assert(views(lines@) =~= Seq::<Seq<char>>::empty());
        },
    }
    lines
}

fn accel_line_of(dev: &Device) -> (r: Vec<Vec<char>>)
    ensures
        views(r@) == accel_line(dev@),
{
    let ghost a = dev@.accelerator;
    let mut parts: Vec<Vec<char>> = Vec::new();
    let mut k: usize = 0;
    while k < dev.accelerator.len()
        invariant
            k <= dev.accelerator@.len(),
            a == dev@.accelerator,
            views(parts@) == a.take(k as int).map_values(|x: AcceleratorModel| accel_piece(x)),
        decreases dev.accelerator@.len() - k,
    {
        let x = &dev.accelerator[k];
        assert(a[k as int] == x@);
        let mut t = crate::text::fmt_i64(x.count);
        put(&mut t, "$\\times$");
        put_chars(&mut t, esc_chars(chars_of(short_model(x.model.as_str())).as_slice()).as_slice());
        let ghost prev = views(parts@);
        parts.push(t);
        assert(views(parts@) =~= prev.push(t@));
        assert(a.take(k + 1).map_values(|x: AcceleratorModel| accel_piece(x)) =~= a.take(k as int).map_values(
            |x: AcceleratorModel| accel_piece(x),
        ).push(accel_piece(a[k as int])));
        k = k + 1;
    }
    assert(a.take(k as int) =~= a);
    let joined = join_of(&parts, chars_of(" · ").as_slice());
    let mut lines: Vec<Vec<char>> = Vec::new();
    if joined.len() > 0 {
        let mut t = chars_of("\\scriptsize ");
        put_chars(&mut t, joined.as_slice());
        lines.push(t);
        assert(views(lines@) =~= seq![t@]);
    } else {
        assert(views(lines@) =~= Seq::<Seq<char>>::empty());
    }
    lines
}

fn placement_index(workloads: &WorkloadsFile, id: &[char]) -> (r: Option<usize>)
    ensures
        match r {
            Some(k) => k < workloads.guest@.len() && first_match(seq_views(workloads.guest@), host_is(id@)) == Some(
                k as int,
            ),
            None => first_match(seq_views(workloads.guest@), host_is(id@)) is None,
        },
{
    let ghost ps = seq_views(workloads.guest@);
    let ghost f = host_is(id@);
    let mut i: usize = 0;
    while i < workloads.guest.len()
        invariant
            i <= workloads.guest@.len(),
            ps == seq_views(workloads.guest@),
            f == host_is(id@),
            forall|m: int| 0 <= m < i ==> !f(#[trigger] ps[m]),
        decreases workloads.guest@.len() - i,
    {
        assert(ps[i as int] == workloads.guest@[i as int]@);
        if crate::text::eq_chars(chars_of(workloads.guest[i].host.as_str()).as_slice(), id) {
            proof {
                lemma_first_match_at(ps, f, i as int);
            }
            return Some(i);
        }
        i = i + 1;
    }
    proof {
        lemma_first_match_at(ps, f, i as int);
    }
    None
}

fn guests_line_of(dev: &Device, workloads: &WorkloadsFile) -> (r: Vec<Vec<char>>)
    ensures
        views(r@) == guests_line(dev@, seq_views(workloads.guest@)),
{
    let ghost ps = seq_views(workloads.guest@);
    let mut lines: Vec<Vec<char>> = Vec::new();
    match placement_index(workloads, chars_of(dev.id.as_str()).as_slice()) {
        Some(k) => {
            let pl = &workloads.guest[k];
            assert(ps[k as int] == pl@);
            let mut t = chars_of("\\scriptsize ");
            put_chars(&mut t, fmt_count(pl.guests.len()).as_slice());
            put(&mut t, " guests (");
            put_chars(&mut t, fmt_count(count_prefixed_of(&pl.guests, "VM")).as_slice());
            put(&mut t, " VM, ");
            put_chars(&mut t, fmt_count(count_prefixed_of(&pl.guests, "CT")).as_slice());
            put(&mut t, " CT)");
            lines.push(t);
            assert(views(lines@) =~= seq![t@]);
        },
        None => {
            assert(views(lines@) =~= Seq::<Seq<char>>::empty());
        },
    }
    lines
}

fn node_label(dev: &Device, workloads: &WorkloadsFile, snapshot: &Snapshot) -> (r: Vec<char>)
    ensures
        r@ == node_label_text(dev@, seq_views(workloads.guest@), seq_views(snapshot.results@)),
{
    let mut lines: Vec<Vec<char>> = Vec::new();
    lines.push(name_line_of(dev));
    let ghost l0 = views(lines@);
    put_lines(&mut lines, board_line_of(dev));
    put_lines(&mut lines, accel_line_of(dev));
    put_lines(&mut lines, guests_line_of(dev, workloads));
    let ghost l3 = views(lines@);
    assert(l0 =~= seq![name_line(dev@)]);
    assert(l3 =~= seq![name_line(dev@)] + board_line(dev@) + accel_line(dev@) + guests_line(
        dev@,
        seq_views(workloads.guest@),
    ));
    if is_down(chars_of(dev.id.as_str()).as_slice(), snapshot) {
        let t = chars_of("\\textcolor{accent}{\\scriptsize\\textbf{DOWN}}");
        lines.push(t);
        assert(views(lines@) =~= l3 + seq![t@]);
    } else {
        assert(views(lines@) =~= l3 + Seq::<Seq<char>>::empty());
    }
    assert(views(lines@) =~= seq![name_line(dev@)] + board_line(dev@) + accel_line(dev@) + guests_line(
        dev@,
        seq_views(workloads.guest@),
    ) + down_line(dev@, seq_views(snapshot.results@)));
    join_of(&lines, chars_of("\\\\").as_slice())
}

fn first_with_role(devices: &DevicesFile, p: &str) -> (r: Option<usize>)
    ensures
        match r {
            Some(k) => k < devices.device@.len() && first_match(seq_views(devices.device@), role_starts(p@))
                == Some(k as int),
            None => first_match(seq_views(devices.device@), role_starts(p@)) is None,
        },
{
    let ghost ds = seq_views(devices.device@);
    let ghost f = role_starts(p@);
    let pc = chars_of(p);
    let mut i: usize = 0;
    while i < devices.device.len()
        invariant
            i <= devices.device@.len(),
            ds == seq_views(devices.device@),
            f == role_starts(p@),
            pc@ == p@,
            forall|m: int| 0 <= m < i ==> !f(#[trigger] ds[m]),
        decreases devices.device@.len() - i,
    {
        assert(ds[i as int] == devices.device@[i as int]@);
        if starts_with_of(chars_of(devices.device[i].role.as_str()).as_slice(), pc.as_slice()) {
            proof {
                lemma_first_match_at(ds, f, i as int);
            }
            return Some(i);
        }
        i = i + 1;
    }
    proof {
        lemma_first_match_at(ds, f, i as int);
    }
    None
}

fn hub_of(devices: &DevicesFile) -> (r: Option<usize>)
    ensures
        match r {
            Some(k) => k < devices.device@.len() && hub_index(seq_views(devices.device@)) == Some(k as int),
            None => hub_index(seq_views(devices.device@)) is None,
        },
{
    match first_with_role(devices, "Edge router") {
        Some(k) => Some(k),
        None => if devices.device.len() > 0 {
            Some(0)
        } else {
            None
        },
    }
}

fn lan_hosts_of<'a>(devices: &'a DevicesFile, hub: &[char]) -> (r: Vec<&'a Device>)
    ensures
        seq_views(r@) == lan_hosts(seq_views(devices.device@), hub@),
{
    let ghost ds = seq_views(devices.device@);
    let mut out: Vec<&Device> = Vec::new();
    let mut i: usize = 0;
    while i < devices.device.len()
        invariant
            i <= devices.device@.len(),
            ds == seq_views(devices.device@),
            seq_views(out@) == lan_hosts(ds.take(i as int), hub@),
        decreases devices.device@.len() - i,
    {
        let d = &devices.device[i];
        assert(ds.take(i + 1).drop_last() =~= ds.take(i as int));
        assert(ds.take(i + 1).last() == d@);
        let ghost prev = seq_views(out@);
        let same = crate::text::eq_chars(chars_of(d.id.as_str()).as_slice(), hub);
        if !same && d.ip_lan.is_some() {
            out.push(d);
            assert(seq_views(out@) =~= prev.push(d@));
        }
        i = i + 1;
    }
    assert(ds.take(i as int) =~= ds);
    out
}

fn shift_text(i: usize, n: usize) -> (r: Vec<char>)
    requires
        i < n,
    ensures
        r@ == int_text(xshift(i as int, n as int)),
{
    let a: u128 = 2 * (i as u128) + 1;
    let b: u128 = n as u128;
    if a >= b {
        fmt_u128(26 * (a - b))
    } else {
        let mut t: Vec<char> = Vec::new();
        t.push('-');
        let mut d = fmt_u128(26 * (b - a));
        t.append(&mut d);
        assert(t@ =~= int_text(xshift(i as int, n as int)));
        t
    }
}

fn host_nodes_of(hosts: &Vec<&Device>, hub: &[char], workloads: &WorkloadsFile, snapshot: &Snapshot) -> (r: Vec<char>)
    ensures
        r@ == host_nodes(seq_views(hosts@), hosts@.len(), hub@, seq_views(workloads.guest@), seq_views(snapshot.results@)),
{
    let ghost hs = seq_views(hosts@);
    let ghost ps = seq_views(workloads.guest@);
    let ghost rs = seq_views(snapshot.results@);
    let mut t: Vec<char> = Vec::new();
    let mut i: usize = 0;
    while i < hosts.len()
        invariant
            i <= hosts@.len(),
            hs == seq_views(hosts@),
            ps == seq_views(workloads.guest@),
            rs == seq_views(snapshot.results@),
            t@ == host_nodes(hs, i as nat, hub@, ps, rs),
        decreases hosts@.len() - i,
    {
        let d = hosts[i];
        assert(hs[i as int] == d@);
        let ghost before = t@;
        put(&mut t, "\\node[");
        if is_down(chars_of(d.id.as_str()).as_slice(), snapshot) {
            put(&mut t, "downhost");
        } else {
            put(&mut t, "host");
        }
        put(&mut t, ", below=14mm of ");
        put_chars(&mut t, hub);
        put(&mut t, ", xshift=");
        put_chars(&mut t, shift_text(i, hosts.len()).as_slice());
        put(&mut t, "mm] (");
        put_chars(&mut t, chars_of(d.id.as_str()).as_slice());
        put(&mut t, ") {");
        put_chars(&mut t, node_label(d, workloads, snapshot).as_slice());
        put(&mut t, "};\n");
        assert(t@ =~= before + host_node(hs[i as int], i as int, hs.len() as int, hub@, ps, rs));
        i = i + 1;
    }
    t
}

fn mgmt_part_of(devices: &DevicesFile, networks: &Networks, hub: &[char]) -> (r: Vec<char>)
    ensures
        r@ == mgmt_part(seq_views(devices.device@), networks@, hub@),
{
    let ghost ds = seq_views(devices.device@);
    let mut parts: Vec<Vec<char>> = Vec::new();
    let mut i: usize = 0;
    while i < devices.device.len()
        invariant
            i <= devices.device@.len(),
            ds == seq_views(devices.device@),
            views(parts@) == mgmt_members(ds.take(i as int)).map_values(|d: DeviceModel| mgmt_piece(d)),
        decreases devices.device@.len() - i,
    {
        let d = &devices.device[i];
        assert(ds.take(i + 1).drop_last() =~= ds.take(i as int));
        assert(ds.take(i + 1).last() == d@);
        let ghost prev = views(parts@);
        if d.bmc.is_some() || d.ip_mgmt.is_some() {
            let addr: &String = match &d.bmc {
                Some(b) => b,
                None => match &d.ip_mgmt {
                    Some(m) => m,
                    None => &d.id,
                },
            };
            let mut t = esc_chars(chars_of(d.name.as_str()).as_slice());
            put(&mut t, " ");
            put_chars(&mut t, esc_chars(chars_of(addr.as_str()).as_slice()).as_slice());
            parts.push(t);
            assert(t@ == mgmt_piece(d@));
            assert(views(parts@) =~= prev.push(t@));
            assert(mgmt_members(ds.take(i + 1)) == mgmt_members(ds.take(i as int)).push(d@));
            assert(mgmt_members(ds.take(i + 1)).map_values(|d: DeviceModel| mgmt_piece(d)) =~= mgmt_members(
                ds.take(i as int),
            ).map_values(|d: DeviceModel| mgmt_piece(d)).push(mgmt_piece(d@)));
        }
        i = i + 1;
    }
    assert(ds.take(i as int) =~= ds);
    let mut t: Vec<char> = Vec::new();
    match &networks.mgmt {
        Some(m) => {
            if parts.len() > 0 {
                put(&mut t, "\\node[box, right=14mm of ");
                put_chars(&mut t, hub);
                put(&mut t, "] (mgmt) {mgmt ");
                put_chars(&mut t, esc_chars(chars_of(m.as_str()).as_slice()).as_slice());
                put(&mut t, "\\\\\\scriptsize ");
                put_chars(&mut t, join_of(&parts, chars_of(" · ").as_slice()).as_slice());
                put(&mut t, "};\n\\draw[thick, secondary, dashed] (");
                put_chars(&mut t, hub);
                put(&mut t, ") -- (mgmt);\n");
            }
        },
        None => {},
    }
    assert(t@ =~= mgmt_part(ds, networks@, hub@));
    t
}

fn lan_edges_of(hosts: &Vec<&Device>, hub: &[char], networks: &Networks) -> (r: Vec<char>)
    ensures
        r@ == lan_edges(seq_views(hosts@), hosts@.len(), hub@, networks@.lan),
{
    let ghost hs = seq_views(hosts@);
    let lan = esc_chars(chars_of(networks.lan.as_str()).as_slice());
    let mut t: Vec<char> = Vec::new();
    let mut i: usize = 0;
    while i < hosts.len()
        invariant
            i <= hosts@.len(),
            hs == seq_views(hosts@),
            lan@ == esc_spec(networks@.lan),
            t@ == lan_edges(hs, i as nat, hub@, networks@.lan),
        decreases hosts@.len() - i,
    {
        let d = hosts[i];
        assert(hs[i as int] == d@);
        let ghost before = t@;
        put(&mut t, "\\draw[thick, primary] (");
        put_chars(&mut t, hub);
        put(&mut t, ") -- (");
        put_chars(&mut t, chars_of(d.id.as_str()).as_slice());
        put(&mut t, ")");
        if i == 0 {
            put(&mut t, " node[midway, lbl, above left] {LAN ");
            put_chars(&mut t, lan.as_slice());
            put(&mut t, "}");
        }
        put(&mut t, ";\n");
        assert(t@ =~= before + lan_edge(hs[i as int], i as int, hub@, networks@.lan));
        i = i + 1;
    }
    t
}

fn fabric_members_of<'a>(hosts: &Vec<&'a Device>) -> (r: Vec<&'a Device>)
    ensures
        seq_views(r@) == fabric_members(seq_views(hosts@)),
{
    let ghost hs = seq_views(hosts@);
    let mut out: Vec<&Device> = Vec::new();
    let mut i: usize = 0;
    while i < hosts.len()
        invariant
            i <= hosts@.len(),
            hs == seq_views(hosts@),
            seq_views(out@) == fabric_members(hs.take(i as int)),
        decreases hosts@.len() - i,
    {
        let d = hosts[i];
        assert(hs.take(i + 1).drop_last() =~= hs.take(i as int));
        assert(hs.take(i + 1).last() == d@);
        let ghost prev = seq_views(out@);
        if d.fabric_hca.is_some() {
            out.push(d);
            assert(seq_views(out@) =~= prev.push(d@));
        }
        i = i + 1;
    }
    assert(hs.take(i as int) =~= hs);
    out
}

fn fabric_part_of(
    devices: &DevicesFile,
    hosts: &Vec<&Device>,
    hub: &[char],
    workloads: &WorkloadsFile,
    snapshot: &Snapshot,
    networks: &Networks,
) -> (r: Vec<char>)
    ensures
        r@ == fabric_part(
            seq_views(devices.device@),
            seq_views(hosts@),
            hub@,
            seq_views(workloads.guest@),
            seq_views(snapshot.results@),
            networks@.fabric,
        ),
{
    let ghost ds = seq_views(devices.device@);
    let fm = fabric_members_of(hosts);
    let ghost f = seq_views(fm@);
    let fabric = esc_chars(chars_of(networks.fabric.as_str()).as_slice());
    let mut t: Vec<char> = Vec::new();
    match first_with_role(devices, "Fabric switch") {
        Some(k) => {
            let sw = &devices.device[k];
            assert(ds[k as int] == sw@);
            let sid = chars_of(sw.id.as_str());
            put(&mut t, "\\node[host, below=34mm of ");
            put_chars(&mut t, hub);
            put(&mut t, "] (");
            put_chars(&mut t, sid.as_slice());
            put(&mut t, ") {");
            put_chars(&mut t, node_label(sw, workloads, snapshot).as_slice());
            put(&mut t, "};\n");
            let ghost head = t@;
            let mut i: usize = 0;
            while i < fm.len()
                invariant
                    i <= fm@.len(),
                    f == seq_views(fm@),
                    fabric@ == esc_spec(networks@.fabric),
                    sid@ == sw@.id,
                    t@ == head + switch_edges(f, i as nat, sw@.id, networks@.fabric),
                decreases fm@.len() - i,
            {
                let m = fm[i];
                assert(f[i as int] == m@);
                let ghost before = t@;
                put(&mut t, "\\draw[very thick, dashed, success] (");
                put_chars(&mut t, chars_of(m.id.as_str()).as_slice());
                put(&mut t, ") -- (");
                put_chars(&mut t, sid.as_slice());
                put(&mut t, ")");
                if i == 0 {
                    put(&mut t, " node[midway, lbl, below left] {IPoIB fabric ");
                    put_chars(&mut t, fabric.as_slice());
                    put(&mut t, "}");
                }
                put(&mut t, ";\n");
                assert(t@ =~= before + switch_edge(f[i as int], i as int, sw@.id, networks@.fabric));
                i = i + 1;
            }
        },
        None => {
            if fm.len() > 0 {
                let mut j: usize = 0;
                while j + 1 < fm.len()
                    invariant
                        j + 1 <= fm@.len(),
                        f == seq_views(fm@),
                        fabric@ == esc_spec(networks@.fabric),
                        t@ == pair_edges(f, j as nat, networks@.fabric),
                    decreases fm@.len() - j,
                {
                    let a = fm[j];
                    let b = fm[j + 1];
                    assert(f[j as int] == a@);
                    assert(f[j + 1] == b@);
                    let ghost before = t@;
                    put(&mut t, "\\draw[very thick, dashed, success] (");
                    put_chars(&mut t, chars_of(a.id.as_str()).as_slice());
                    put(&mut t, ") to[bend right=18]\n  node[midway, lbl, below] {IPoIB fabric ");
                    put_chars(&mut t, fabric.as_slice());
                    put(&mut t, "} (");
                    put_chars(&mut t, chars_of(b.id.as_str()).as_slice());
                    put(&mut t, ");\n");
                    assert(t@ =~= before + pair_edge(f[j as int], f[j + 1], networks@.fabric));
                    j = j + 1;
                }
            }
        },
    }
    t
}

/// The topology figure. The hub is the first edge router (else the first
/// device); the other LAN-attached devices hang below it, down ones dashed;
/// the mgmt rail appears when a mgmt network and BMC/mgmt addresses are
/// declared; the fabric joins the hosts declaring an HCA, through the
/// fabric switch where one is declared. With no devices the section holds
/// only the note.
pub fn topology_section(
    devices: &DevicesFile,
    workloads: &WorkloadsFile,
    networks: &Networks,
    snapshot: &Snapshot,
    note: &str,
) -> (r: String)
    ensures
        r@ == topology_text(
            seq_views(devices.device@),
            seq_views(workloads.guest@),
            networks@,
            seq_views(snapshot.results@),
            note@,
        ),
{
    let ghost ds = seq_views(devices.device@);
    match hub_of(devices) {
        None => {
            let mut t = chars_of("\n\\section{System Topology}\n");
            put(&mut t, note);
            string_from(t.as_slice())
        },
        Some(h) => {
            let hub = &devices.device[h];
            assert(ds[h as int] == hub@);
            let hub_id = chars_of(hub.id.as_str());
            let hosts = lan_hosts_of(devices, hub_id.as_slice());
            let mut t = chars_of(PICTURE_HEAD);
            put(&mut t, "\\node[box, fill=secondary, text=white, text width=64mm] (wan) {WAN\\\\\\scriptsize ");
            put_chars(&mut t, esc_chars(chars_of(networks.wan.as_str()).as_slice()).as_slice());
            put(&mut t, "};\n");
            put(&mut t, "\\node[host, below=of wan] (");
            put_chars(&mut t, hub_id.as_slice());
            put(&mut t, ") {");
            put_chars(&mut t, node_label(hub, workloads, snapshot).as_slice());
            put(&mut t, "};\n");
            let ghost t1 = t@;
            put_chars(&mut t, host_nodes_of(&hosts, hub_id.as_slice(), workloads, snapshot).as_slice());
            put_chars(&mut t, mgmt_part_of(devices, networks, hub_id.as_slice()).as_slice());
            put(&mut t, "\\draw[thick, secondary] (wan) -- (");
            put_chars(&mut t, hub_id.as_slice());
            put(&mut t, ");\n");
            let ghost t2 = t@;
            put_chars(&mut t, lan_edges_of(&hosts, hub_id.as_slice(), networks).as_slice());
            put_chars(&mut t, fabric_part_of(devices, &hosts, hub_id.as_slice(), workloads, snapshot, networks).as_slice());
            put(&mut t, "\\end{tikzpicture}\n\\end{center}\n\n");
            put(&mut t, note);
            assert(t@ =~= topology_text(ds, seq_views(workloads.guest@), networks@, seq_views(snapshot.results@), note@));
            string_from(t.as_slice())
        },
    }
}

} // verus!
