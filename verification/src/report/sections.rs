//! The computed report sections: tables and figures derived from declared
//! data and the newest snapshot. Authored prose arrives pre-rendered from
//! the editorial fragments.

use vstd::prelude::*;
use crate::text::{put_lines, 
    char_upper, chars_of, eq_chars, int_text, join, join_of, lower_text, lowercase, nat_digits,
    put, put_chars, seq_views, string_from, upper_char, views,
};
use crate::report::tex::{badge_text, esc_chars, esc_spec, state_badge};
use crate::report::status::{ResultModel, Snapshot};
use crate::inventory::devices::{AcceleratorModel, Device, DeviceModel, DevicesFile};
use crate::inventory::workloads::{PlacementModel, WorkloadModel, WorkloadsFile};

verus! {

/// One row of the live-status table.
pub open spec fn status_row(r: ResultModel) -> Seq<char> {
    esc_spec(r.desc) + " & "@ + badge_text(r.state) + " & "@ + esc_spec(r.detail) + " \\\\"@
}

/// The live-status section.
pub open spec fn status_text(results: Seq<ResultModel>, note: Seq<char>) -> Seq<char> {
    "\n\\section{Live Status Snapshot}\n"@ + note
        + "\n\\begin{tabularx}{\\textwidth}{X l l}\n\\toprule\n\\textbf{Target} & \\textbf{State} & \\textbf{Detail} \\\\\n\\midrule\n"@
        + join(results.map_values(|r: ResultModel| status_row(r)), "\n"@)
        + "\n\\bottomrule\n\\end{tabularx}\n"@
}

/// Live-status table, prefaced by the rendered `status-note` fragment.
pub fn status_section(snapshot: &Snapshot, note: &str) -> (r: String)
    ensures
        r@ == status_text(seq_views(snapshot.results@), note@),
{
    let ghost rs = seq_views(snapshot.results@);
    let mut rows: Vec<Vec<char>> = Vec::new();
    let mut i: usize = 0;
    while i < snapshot.results.len()
        invariant
            i <= snapshot.results@.len(),
            rs == seq_views(snapshot.results@),
            views(rows@) == rs.take(i as int).map_values(|r: ResultModel| status_row(r)),
        decreases snapshot.results@.len() - i,
    {
        let r = &snapshot.results[i];
        assert(rs[i as int] == r@);
        let mut row: Vec<char> = esc_chars(chars_of(r.desc.as_str()).as_slice());
        put(&mut row, " & ");
        put(&mut row, state_badge(r.state));
        put(&mut row, " & ");
        put_chars(&mut row, esc_chars(chars_of(r.detail.as_str()).as_slice()).as_slice());
        put(&mut row, " \\\\");
        let ghost prev = views(rows@);
        rows.push(row);
        assert(views(rows@) =~= prev.push(status_row(r@)));
        assert(rs.take(i + 1).map_values(|r: ResultModel| status_row(r)) =~= rs.take(i as int).map_values(
            |r: ResultModel| status_row(r),
        ).push(status_row(r@)));
        i = i + 1;
    }
    assert(rs.take(i as int) =~= rs);
    let mut t: Vec<char> = Vec::new();
    put(&mut t, "\n\\section{Live Status Snapshot}\n");
    put(&mut t, note);
    put(
        &mut t,
        "\n\\begin{tabularx}{\\textwidth}{X l l}\n\\toprule\n\\textbf{Target} & \\textbf{State} & \\textbf{Detail} \\\\\n\\midrule\n",
    );
    put_chars(&mut t, join_of(&rows, chars_of("\n").as_slice()).as_slice());
    put(&mut t, "\n\\bottomrule\n\\end{tabularx}\n");
    assert(t@ =~= status_text(rs, note@));
    string_from(t.as_slice())
}

/// `str.capitalize`: the first character uppercased, the rest lowercased.
pub open spec fn capitalized(s: Seq<char>) -> Seq<char> {
    if s.len() == 0 {
        seq![]
    } else {
        char_upper(s[0]) + lowercase(s.drop_first())
    }
}

/// First character uppercased, the rest lowercased (Python `str.capitalize`).
pub fn capitalize(s: &str) -> (r: String)
    ensures
        r@ == capitalized(s@),
{
    let c = chars_of(s);
    if c.len() == 0 {
        return string_from(c.as_slice());
    }
    let n = c.len();
    let mut out = upper_char(c[0]);
    let rest = lower_text(&c.as_slice()[1..n]);
    assert(c@.subrange(1, n as int) =~= c@.drop_first());
    put_chars(&mut out, rest.as_slice());
    string_from(out.as_slice())
}

/// One workload table row.
pub open spec fn workload_row(w: WorkloadModel) -> Seq<char> {
    esc_spec(w.node) + " & "@ + esc_spec(w.name) + " & "@ + esc_spec(w.kind) + " & "@ + esc_spec(w.resources) + " \\\\"@
}

/// The item lines of a guest list.
pub open spec fn guest_items(gs: Seq<Seq<char>>) -> Seq<char>
    decreases gs.len(),
{
    if gs.len() == 0 {
        seq![]
    } else {
        guest_items(gs.drop_last()) + "\\item "@ + esc_spec(gs.last()) + "\n"@
    }
}

/// One host's guest list.
pub open spec fn guest_block(p: PlacementModel) -> Seq<char> {
    "\\subsection{Guests on "@ + capitalized(p.host) + "}\\begin{itemize}[nosep,leftmargin=1.4em]"@
        + guest_items(p.guests) + "\\end{itemize}"@
}

/// The workloads section.
pub open spec fn workloads_text(ws: Seq<WorkloadModel>, ps: Seq<PlacementModel>, note: Seq<char>) -> Seq<char> {
    "\n\\section{Workloads \\& Placement}\n\\begin{tabularx}{\\textwidth}{l l l X}\n\\toprule\n\\textbf{Node} & \\textbf{Workload} & \\textbf{Kind} & \\textbf{Resources} \\\\\n\\midrule\n"@
        + join(ws.map_values(|w: WorkloadModel| workload_row(w)), "\n"@) + "\n\\bottomrule\n\\end{tabularx}\n"@
        + join(ps.map_values(|p: PlacementModel| guest_block(p)), "\n"@) + "\n\n"@ + note
}

fn guest_block_of(p: &crate::inventory::workloads::GuestPlacement) -> (r: Vec<char>)
    ensures
        r@ == guest_block(p@),
{
    let mut items: Vec<char> = Vec::new();
    let mut k: usize = 0;
    let ghost gs = p@.guests;
    while k < p.guests.len()
        invariant
            k <= p.guests@.len(),
            gs == p@.guests,
            gs.len() == p.guests@.len(),
            items@ == guest_items(gs.take(k as int)),
        decreases p.guests@.len() - k,
    {
        assert(gs[k as int] == p.guests@[k as int]@);
        assert(gs.take(k + 1).drop_last() =~= gs.take(k as int));
        put(&mut items, "\\item ");
        put_chars(&mut items, esc_chars(chars_of(p.guests[k].as_str()).as_slice()).as_slice());
        put(&mut items, "\n");
        k = k + 1;
    }
    assert(gs.take(k as int) =~= gs);
    let mut t: Vec<char> = Vec::new();
    put(&mut t, "\\subsection{Guests on ");
    let cap = capitalize(p.host.as_str());
    put(&mut t, cap.as_str());
    put(&mut t, "}\\begin{itemize}[nosep,leftmargin=1.4em]");
    put_chars(&mut t, items.as_slice());
    put(&mut t, "\\end{itemize}");
    assert(t@ =~= guest_block(p@));
    t
}

/// Workload table plus per-host guest lists, closed by the rendered
/// `workloads-note` fragment.
pub fn workloads_section(workloads: &WorkloadsFile, note: &str) -> (r: String)
    ensures
        r@ == workloads_text(seq_views(workloads.workload@), seq_views(workloads.guest@), note@),
{
    let ghost ws = seq_views(workloads.workload@);
    let ghost ps = seq_views(workloads.guest@);
    let mut rows: Vec<Vec<char>> = Vec::new();
    let mut i: usize = 0;
    while i < workloads.workload.len()
        invariant
            i <= workloads.workload@.len(),
            ws == seq_views(workloads.workload@),
            views(rows@) == ws.take(i as int).map_values(|w: WorkloadModel| workload_row(w)),
        decreases workloads.workload@.len() - i,
    {
        let w = &workloads.workload[i];
        assert(ws[i as int] == w@);
        let mut row = esc_chars(chars_of(w.node.as_str()).as_slice());
        put(&mut row, " & ");
        put_chars(&mut row, esc_chars(chars_of(w.name.as_str()).as_slice()).as_slice());
        put(&mut row, " & ");
        put_chars(&mut row, esc_chars(chars_of(w.kind.as_str()).as_slice()).as_slice());
        put(&mut row, " & ");
        put_chars(&mut row, esc_chars(chars_of(w.resources.as_str()).as_slice()).as_slice());
        put(&mut row, " \\\\");
        let ghost prev = views(rows@);
        rows.push(row);
        assert(views(rows@) =~= prev.push(workload_row(w@)));
        assert(ws.take(i + 1).map_values(|w: WorkloadModel| workload_row(w)) =~= ws.take(i as int).map_values(
            |w: WorkloadModel| workload_row(w),
        ).push(workload_row(w@)));
        i = i + 1;
    }
    assert(ws.take(i as int) =~= ws);
    let mut blocks: Vec<Vec<char>> = Vec::new();
    let mut j: usize = 0;
    while j < workloads.guest.len()
        invariant
            j <= workloads.guest@.len(),
            ps == seq_views(workloads.guest@),
            views(blocks@) == ps.take(j as int).map_values(|p: PlacementModel| guest_block(p)),
        decreases workloads.guest@.len() - j,
    {
        let p = &workloads.guest[j];
        assert(ps[j as int] == p@);
        let b = guest_block_of(p);
        let ghost prev = views(blocks@);
        blocks.push(b);
        assert(views(blocks@) =~= prev.push(guest_block(p@)));
        assert(ps.take(j + 1).map_values(|p: PlacementModel| guest_block(p)) =~= ps.take(j as int).map_values(
            |p: PlacementModel| guest_block(p),
        ).push(guest_block(p@)));
        j = j + 1;
    }
    assert(ps.take(j as int) =~= ps);
    let nl = chars_of("\n");
    let mut t: Vec<char> = Vec::new();
    put(
        &mut t,
        "\n\\section{Workloads \\& Placement}\n\\begin{tabularx}{\\textwidth}{l l l X}\n\\toprule\n\\textbf{Node} & \\textbf{Workload} & \\textbf{Kind} & \\textbf{Resources} \\\\\n\\midrule\n",
    );
    put_chars(&mut t, join_of(&rows, nl.as_slice()).as_slice());
    put(&mut t, "\n\\bottomrule\n\\end{tabularx}\n");
    put_chars(&mut t, join_of(&blocks, nl.as_slice()).as_slice());
    put(&mut t, "\n\n");
    put(&mut t, note);
    assert(t@ =~= workloads_text(ws, ps, note@));
    string_from(t.as_slice())
}

/// The three-digit fraction of a milli-quantity, trailing zeros dropped.
pub open spec fn milli_fraction(f: nat) -> Seq<char> {
    let d1 = ((f / 100 + 48) as u8) as char;
    let d2 = ((f / 10 % 10 + 48) as u8) as char;
    let d3 = ((f % 10 + 48) as u8) as char;
    if f % 10 != 0 {
        seq![d1, d2, d3]
    } else if f % 100 != 0 {
        seq![d1, d2]
    } else {
        seq![d1]
    }
}

/// A milliwatt figure shown in watts the way `f64` `Display` shows the
/// corresponding value: no fraction for whole watts, else the shortest
/// decimal fraction.
pub open spec fn watts_text(mw: i64) -> Seq<char> {
    let a: nat = if mw < 0 {
        (-mw) as nat
    } else {
        mw as nat
    };
    let sign = if mw < 0 {
        "-"@
    } else {
        seq![]
    };
    if a % 1000 == 0 {
        sign + nat_digits(a / 1000)
    } else {
        sign + nat_digits(a / 1000) + seq!['.'] + milli_fraction(a % 1000)
    }
}

fn watts_of(mw: i64) -> (r: Vec<char>)
    ensures
        r@ == watts_text(mw),
{
    let a: u64 = if mw < 0 {
        (0 - (mw as i128)) as u64
    } else {
        mw as u64
    };
    let mut t: Vec<char> = Vec::new();
    if mw < 0 {
        put(&mut t, "-");
    }
    put_chars(&mut t, crate::text::fmt_u64(a / 1000).as_slice());
    let f = a % 1000;
    if f != 0 {
        t.push('.');
        t.push(((f / 100) as u8 + 48) as char);
        if f % 100 != 0 {
            t.push(((f / 10 % 10) as u8 + 48) as char);
            if f % 10 != 0 {
                t.push(((f % 10) as u8 + 48) as char);
            }
        }
    }
    assert(t@ =~= watts_text(mw));
    t
}

/// One accelerator item line.
pub open spec fn accel_item(a: AcceleratorModel) -> Seq<char> {
    "\\item "@ + int_text(a.count as int) + "$\\times$ "@ + esc_spec(a.model) + " ("@ + watts_text(a.power_each_mw)
        + "\\,W each)\n"@
}

pub open spec fn accel_items(a: Seq<AcceleratorModel>) -> Seq<char>
    decreases a.len(),
{
    if a.len() == 0 {
        seq![]
    } else {
        accel_items(a.drop_last()) + accel_item(a.last())
    }
}

/// An optional line, as a list of zero or one lines.
pub open spec fn opt_line(o: Option<Seq<char>>, pre: Seq<char>, post: Seq<char>) -> Seq<Seq<char>> {
    match o {
        Some(x) => seq![pre + x + post],
        None => seq![],
    }
}

/// The network line parts of a device.
pub open spec fn net_parts(d: DeviceModel) -> Seq<Seq<char>> {
    opt_line(d.ip_lan, "\\textbf{LAN:} \\texttt{"@, "}"@) + opt_line(d.ip_fabric, "\\textbf{Fabric:} \\texttt{"@, "}"@)
        + opt_line(d.ip_mgmt, "\\textbf{Mgmt:} \\texttt{"@, "}"@)
}

pub open spec fn esc_opt(o: Option<Seq<char>>) -> Option<Seq<char>> {
    match o {
        Some(x) => Some(esc_spec(x)),
        None => None,
    }
}

/// The source-of-truth marker of a device.
pub open spec fn sot_tex(d: DeviceModel) -> Seq<char> {
    let sot = match d.source_of_truth {
        Some(x) => x,
        None => "none"@,
    };
    if sot == "none"@ {
        "\\textcolor{accent}{\\textbf{not registered in the catalog}}"@
    } else {
        "\\texttt{"@ + esc_spec(sot) + "}"@
    }
}

/// The role line and the network line of a device.
pub open spec fn head_lines(d: DeviceModel) -> Seq<Seq<char>> {
    let nets = net_parts(d);
    seq!["\\textbf{Role:} "@ + esc_spec(d.role) + "\\\\"@] + (if nets.len() > 0 {
        seq![join(nets, " \\quad "@) + "\\\\"@]
    } else {
        seq![]
    })
}

/// The board, CPU, RAM and fabric HCA lines of a device.
pub open spec fn hardware_lines(d: DeviceModel) -> Seq<Seq<char>> {
    opt_line(esc_opt(d.motherboard), "\\textbf{Board:} "@, "\\\\"@) + opt_line(
        esc_opt(d.cpu),
        "\\textbf{CPU:} "@,
        "\\\\"@,
    ) + (match d.ram_gb {
        Some(r) => seq!["\\textbf{RAM:} "@ + int_text(r as int) + "\\,GB\\\\"@],
        None => seq![],
    }) + opt_line(esc_opt(d.fabric_hca), "\\textbf{Fabric HCA:} "@, "\\\\"@)
}

/// The disks and accelerators lines of a device.
pub open spec fn storage_lines(d: DeviceModel) -> Seq<Seq<char>> {
    (if d.disks.len() > 0 {
        seq!["\\textbf{Disks:} "@ + join(d.disks.map_values(|x: Seq<char>| esc_spec(x)), "; "@) + "\\\\"@]
    } else {
        seq![]
    }) + (if accel_items(d.accelerator).len() > 0 {
        seq![
            "\\textbf{Accelerators:}\\begin{itemize}[nosep,leftmargin=1.4em]"@ + accel_items(d.accelerator)
                + "\\end{itemize}"@,
        ]
    } else {
        seq![]
    })
}

/// The source-of-truth and notes lines of a device.
pub open spec fn tail_lines(d: DeviceModel) -> Seq<Seq<char>> {
    seq!["\\textbf{Source of truth:} "@ + sot_tex(d) + "\\\\"@] + opt_line(
        esc_opt(d.notes),
        "\\textcolor{darkgray}{"@,
        "}"@,
    )
}

/// The lines of a device's inventory subsection.
pub open spec fn device_lines(d: DeviceModel) -> Seq<Seq<char>> {
    head_lines(d) + hardware_lines(d) + storage_lines(d) + tail_lines(d)
}

/// A device's inventory subsection.
pub open spec fn device_text(d: DeviceModel) -> Seq<char> {
    "\\subsection{"@ + esc_spec(d.name) + "}\n"@ + join(device_lines(d), "\n"@)
}

fn push_opt_line(lines: &mut Vec<Vec<char>>, o: &Option<String>, escape: bool, pre: &str, post: &str)
    ensures
        views(final(lines)@) == views(old(lines)@) + opt_line(
            if escape {
                esc_opt(o.deep_view())
            } else {
                o.deep_view()
            },
            pre@,
            post@,
        ),
{
    let ghost before = views(lines@);
    match o {
        Some(x) => {
            let mut t = chars_of(pre);
            let body = if escape {
                esc_chars(chars_of(x.as_str()).as_slice())
            } else {
                chars_of(x.as_str())
            };
            put_chars(&mut t, body.as_slice());
            put(&mut t, post);
            lines.push(t);
            assert(views(lines@) =~= before.push(t@));
        },
        None => {
            assert(views(lines@) =~= before + Seq::<Seq<char>>::empty());
        },
    }
}

fn head_block(dev: &Device) -> (lines: Vec<Vec<char>>)
    ensures
        views(lines@) == head_lines(dev@),
{
    let mut lines: Vec<Vec<char>> = Vec::new();
    let mut role = chars_of("\\textbf{Role:} ");
    put_chars(&mut role, esc_chars(chars_of(dev.role.as_str()).as_slice()).as_slice());
    put(&mut role, "\\\\");
    lines.push(role);
    let mut nets: Vec<Vec<char>> = Vec::new();
    push_opt_line(&mut nets, &dev.ip_lan, false, "\\textbf{LAN:} \\texttt{", "}");
    push_opt_line(&mut nets, &dev.ip_fabric, false, "\\textbf{Fabric:} \\texttt{", "}");
    push_opt_line(&mut nets, &dev.ip_mgmt, false, "\\textbf{Mgmt:} \\texttt{", "}");
    assert(views(nets@) =~= net_parts(dev@));
    if nets.len() > 0 {
        let mut n = join_of(&nets, chars_of(" \\quad ").as_slice());
        put(&mut n, "\\\\");
        lines.push(n);
    }
    assert(views(lines@) =~= head_lines(dev@));
    lines
}

fn hardware_block(dev: &Device) -> (lines: Vec<Vec<char>>)
    ensures
        views(lines@) == hardware_lines(dev@),
{
    let mut lines: Vec<Vec<char>> = Vec::new();
    push_opt_line(&mut lines, &dev.motherboard, true, "\\textbf{Board:} ", "\\\\");
    push_opt_line(&mut lines, &dev.cpu, true, "\\textbf{CPU:} ", "\\\\");
    let ghost l2 = views(lines@);
    match dev.ram_gb {
        Some(r) => {
            let mut t = chars_of("\\textbf{RAM:} ");
            put_chars(&mut t, crate::text::fmt_i64(r).as_slice());
            put(&mut t, "\\,GB\\\\");
            lines.push(t);
            assert(views(lines@) =~= l2.push(t@));
        },
        None => {},
    }
    push_opt_line(&mut lines, &dev.fabric_hca, true, "\\textbf{Fabric HCA:} ", "\\\\");
    assert(views(lines@) =~= hardware_lines(dev@));
    lines
}

fn disks_block(dev: &Device) -> (lines: Vec<Vec<char>>)
    ensures
        views(lines@) == (if dev@.disks.len() > 0 {
            seq!["\\textbf{Disks:} "@ + join(dev@.disks.map_values(|x: Seq<char>| esc_spec(x)), "; "@) + "\\\\"@]
        } else {
            Seq::<Seq<char>>::empty()
        }),
{
    let d = Ghost(dev@);
    let mut lines: Vec<Vec<char>> = Vec::new();
    if dev.disks.len() > 0 {
        let mut ds: Vec<Vec<char>> = Vec::new();
        let mut k: usize = 0;
        while k < dev.disks.len()
            invariant
                k <= dev.disks@.len(),
                d@ == dev@,
                views(ds@) == d@.disks.take(k as int).map_values(|x: Seq<char>| esc_spec(x)),
            decreases dev.disks@.len() - k,
        {
            assert(d@.disks[k as int] == dev.disks@[k as int]@);
            let e = esc_chars(chars_of(dev.disks[k].as_str()).as_slice());
            let ghost prev = views(ds@);
            ds.push(e);
            assert(views(ds@) =~= prev.push(e@));
            assert(d@.disks.take(k + 1).map_values(|x: Seq<char>| esc_spec(x)) =~= d@.disks.take(k as int).map_values(
                |x: Seq<char>| esc_spec(x),
            ).push(esc_spec(d@.disks[k as int])));
            k = k + 1;
        }
        assert(d@.disks.take(k as int) =~= d@.disks);
        let mut t = chars_of("\\textbf{Disks:} ");
        put_chars(&mut t, join_of(&ds, chars_of("; ").as_slice()).as_slice());
        put(&mut t, "\\\\");
        lines.push(t);
        assert(views(lines@) =~= seq![t@]);
    } else {
        assert(views(lines@) =~= Seq::<Seq<char>>::empty());
    }
    lines
}

fn accel_block(dev: &Device) -> (lines: Vec<Vec<char>>)
    ensures
        views(lines@) == (if accel_items(dev@.accelerator).len() > 0 {
            seq![
                "\\textbf{Accelerators:}\\begin{itemize}[nosep,leftmargin=1.4em]"@ + accel_items(dev@.accelerator)
                    + "\\end{itemize}"@,
            ]
        } else {
            Seq::<Seq<char>>::empty()
        }),
{
    let d = Ghost(dev@);
    let mut lines: Vec<Vec<char>> = Vec::new();
    let mut acc: Vec<char> = Vec::new();
    let mut k: usize = 0;
    while k < dev.accelerator.len()
        invariant
            k <= dev.accelerator@.len(),
            d@ == dev@,
            acc@ == accel_items(d@.accelerator.take(k as int)),
        decreases dev.accelerator@.len() - k,
    {
        let a = &dev.accelerator[k];
        assert(d@.accelerator[k as int] == a@);
        assert(d@.accelerator.take(k + 1).drop_last() =~= d@.accelerator.take(k as int));
        put(&mut acc, "\\item ");
        put_chars(&mut acc, crate::text::fmt_i64(a.count).as_slice());
        put(&mut acc, "$\\times$ ");
        put_chars(&mut acc, esc_chars(chars_of(a.model.as_str()).as_slice()).as_slice());
        put(&mut acc, " (");
        put_chars(&mut acc, watts_of(a.power_each_mw).as_slice());
        put(&mut acc, "\\,W each)\n");
        k = k + 1;
    }
    assert(d@.accelerator.take(k as int) =~= d@.accelerator);
    if acc.len() > 0 {
        let mut t = chars_of("\\textbf{Accelerators:}\\begin{itemize}[nosep,leftmargin=1.4em]");
        put_chars(&mut t, acc.as_slice());
        put(&mut t, "\\end{itemize}");
        lines.push(t);
        assert(views(lines@) =~= seq![t@]);
    } else {
        assert(views(lines@) =~= Seq::<Seq<char>>::empty());
    }
    lines
}

fn tail_block(dev: &Device) -> (lines: Vec<Vec<char>>)
    ensures
        views(lines@) == tail_lines(dev@),
{
    let mut lines: Vec<Vec<char>> = Vec::new();
    let none = chars_of("none");
    let sot: Vec<char> = match &dev.source_of_truth {
        Some(x) => chars_of(x.as_str()),
        None => chars_of("none"),
    };
    let sot_text = if eq_chars(sot.as_slice(), none.as_slice()) {
        chars_of("\\textcolor{accent}{\\textbf{not registered in the catalog}}")
    } else {
        let mut t = chars_of("\\texttt{");
        put_chars(&mut t, esc_chars(sot.as_slice()).as_slice());
        put(&mut t, "}");
        t
    };
    assert(sot_text@ == sot_tex(dev@));
    let mut st = chars_of("\\textbf{Source of truth:} ");
    put_chars(&mut st, sot_text.as_slice());
    put(&mut st, "\\\\");
    lines.push(st);
    assert(views(lines@) =~= seq![st@]);
    push_opt_line(&mut lines, &dev.notes, true, "\\textcolor{darkgray}{", "}");
    assert(views(lines@) =~= tail_lines(dev@));
    lines
}

fn device_block(dev: &Device) -> (r: Vec<char>)
    ensures
        r@ == device_text(dev@),
{
    let mut lines = head_block(dev);
    put_lines(&mut lines, hardware_block(dev));
    let ghost l = views(lines@);
    put_lines(&mut lines, disks_block(dev));
    put_lines(&mut lines, accel_block(dev));
    assert(views(lines@) =~= l + storage_lines(dev@));
    put_lines(&mut lines, tail_block(dev));
    assert(views(lines@) =~= device_lines(dev@));
    let mut out = chars_of("\\subsection{");
    put_chars(&mut out, esc_chars(chars_of(dev.name.as_str()).as_slice()).as_slice());
    put(&mut out, "}\n");
    put_chars(&mut out, join_of(&lines, chars_of("\n").as_slice()).as_slice());
    out
}

/// The device inventory section.
pub open spec fn devices_text(ds: Seq<DeviceModel>) -> Seq<char> {
    "\n\\section{Device Inventory}\n"@ + join(ds.map_values(|d: DeviceModel| device_text(d)), "\n"@)
}

/// Per-device inventory subsections.
pub fn devices_section(devices: &DevicesFile) -> (r: String)
    ensures
        r@ == devices_text(seq_views(devices.device@)),
{
    let ghost ds = seq_views(devices.device@);
    let mut blocks: Vec<Vec<char>> = Vec::new();
    let mut i: usize = 0;
    while i < devices.device.len()
        invariant
            i <= devices.device@.len(),
            ds == seq_views(devices.device@),
            views(blocks@) == ds.take(i as int).map_values(|d: DeviceModel| device_text(d)),
        decreases devices.device@.len() - i,
    {
        assert(ds[i as int] == devices.device@[i as int]@);
        let b = device_block(&devices.device[i]);
        let ghost prev = views(blocks@);
        blocks.push(b);
        assert(views(blocks@) =~= prev.push(b@));
        assert(ds.take(i + 1).map_values(|d: DeviceModel| device_text(d)) =~= ds.take(i as int).map_values(
            |d: DeviceModel| device_text(d),
        ).push(device_text(ds[i as int])));
        i = i + 1;
    }
    assert(ds.take(i as int) =~= ds);
    let mut t = chars_of("\n\\section{Device Inventory}\n");
    put_chars(&mut t, join_of(&blocks, chars_of("\n").as_slice()).as_slice());
    string_from(t.as_slice())
}


/// The opening of a device's CPU line.
pub open spec fn cpu_prefix() -> Seq<char> {
    "\\textbf{CPU:} "@
}

/// A line that does not open as a CPU line: it differs from the opening at
/// some position.
pub open spec fn differs_from_cpu(l: Seq<char>, j: int) -> bool {
    0 <= j < 14 && j < l.len() && l[j] != cpu_prefix()[j]
}

proof fn lemma_not_cpu(l: Seq<char>, j: int)
    requires
        differs_from_cpu(l, j),
        cpu_prefix().len() == 14,
    ensures
        !crate::text::starts_with(l, cpu_prefix()),
{
    if crate::text::starts_with(l, cpu_prefix()) {
        assert(l.take(14)[j] == l[j]);
    }
}

proof fn lemma_join_first(parts: Seq<Seq<char>>, sep: Seq<char>, j: int)
    requires
        parts.len() > 0,
        0 <= j < parts[0].len(),
    ensures
        j < join(parts, sep).len(),
        join(parts, sep)[j] == parts[0][j],
    decreases parts.len(),
{
    if parts.len() > 1 {
        assert(parts.drop_last()[0] == parts[0]);
        lemma_join_first(parts.drop_last(), sep, j);
    }
}

/// A device's CPU line: present exactly when the device declares a CPU,
/// and then `\textbf{CPU:} ` with the escaped CPU text; with no CPU
/// declared, no line of the subsection opens as a CPU line.
pub proof fn law_cpu_line(d: DeviceModel)
    ensures
        d.cpu matches Some(c) ==> device_lines(d).contains(cpu_prefix() + esc_spec(c) + "\\\\"@),
        d.cpu is None ==> forall|i: int|
            0 <= i < device_lines(d).len() ==> !crate::text::starts_with(#[trigger] device_lines(d)[i], cpu_prefix()),
{
    reveal_strlit("\\textbf{CPU:} ");
    reveal_strlit("\\textbf{Board:} ");
    reveal_strlit("\\textbf{RAM:} ");
    reveal_strlit("\\textbf{Fabric HCA:} ");
    reveal_strlit("\\textbf{Role:} ");
    reveal_strlit("\\textbf{LAN:} \\texttt{");
    reveal_strlit("\\textbf{Fabric:} \\texttt{");
    reveal_strlit("\\textbf{Mgmt:} \\texttt{");
    reveal_strlit("\\textbf{Disks:} ");
    reveal_strlit("\\textbf{Accelerators:}\\begin{itemize}[nosep,leftmargin=1.4em]");
    reveal_strlit("\\textbf{Source of truth:} ");
    reveal_strlit("\\textcolor{darkgray}{");
    let h = head_lines(d);
    let w = hardware_lines(d);
    let st = storage_lines(d);
    let t = tail_lines(d);
    let all = device_lines(d);
    assert(all == h + w + st + t);
    let board = opt_line(esc_opt(d.motherboard), "\\textbf{Board:} "@, "\\\\"@);
    let cpu = opt_line(esc_opt(d.cpu), "\\textbf{CPU:} "@, "\\\\"@);
    let ram = match d.ram_gb {
        Some(r) => seq!["\\textbf{RAM:} "@ + int_text(r as int) + "\\,GB\\\\"@],
        None => Seq::<Seq<char>>::empty(),
    };
    let hca = opt_line(esc_opt(d.fabric_hca), "\\textbf{Fabric HCA:} "@, "\\\\"@);
    assert(w == board + cpu + ram + hca);
    match d.cpu {
        Some(c) => {
            let line = cpu_prefix() + esc_spec(c) + "\\\\"@;
            assert(cpu == seq![line]);
            assert(all[h.len() + board.len() as int] == line);
        },
        None => {
            assert(cpu.len() == 0);
            assert forall|i: int| 0 <= i < all.len() implies !crate::text::starts_with(#[trigger] all[i], cpu_prefix()) by {
                let l = all[i];
                if i < h.len() {
                    assert(l == h[i]);
                    if i == 0 {
                        assert(l[8] == 'R');
                        lemma_not_cpu(l, 8);
                    } else {
                        let nets = net_parts(d);
                        assert(l == join(nets, " \\quad "@) + "\\\\"@);
                        let lan = opt_line(d.ip_lan, "\\textbf{LAN:} \\texttt{"@, "}"@);
                        let fab = opt_line(d.ip_fabric, "\\textbf{Fabric:} \\texttt{"@, "}"@);
                        let mg = opt_line(d.ip_mgmt, "\\textbf{Mgmt:} \\texttt{"@, "}"@);
                        assert(nets == lan + fab + mg);
                        assert(nets[0][8] != 'C' && nets[0].len() > 8) by {
                            if lan.len() > 0 {
                                assert(nets[0] == lan[0]);
                            } else if fab.len() > 0 {
                                assert(nets[0] == fab[0]);
                            } else {
                                assert(nets[0] == mg[0]);
                            }
                        }
                        lemma_join_first(nets, " \\quad "@, 8);
                        assert(l[8] == join(nets, " \\quad "@)[8]);
                        lemma_not_cpu(l, 8);
                    }
                } else if i < h.len() + w.len() {
                    let k = i - h.len();
                    assert(l == w[k]);
                    if k < board.len() {
                        assert(l == board[k]);
                        assert(l[8] == 'B');
                    } else if k < board.len() + ram.len() {
                        assert(l == ram[k - board.len()]);
                        assert(l[8] == 'R');
                    } else {
                        assert(l == hca[k - board.len() - ram.len()]);
                        assert(l[8] == 'F');
                    }
                    lemma_not_cpu(l, 8);
                } else if i < h.len() + w.len() + st.len() {
                    let k = i - h.len() - w.len();
                    assert(l == st[k]);
                    let disks = if d.disks.len() > 0 {
                        seq!["\\textbf{Disks:} "@ + join(d.disks.map_values(|x: Seq<char>| esc_spec(x)), "; "@) + "\\\\"@]
                    } else {
                        Seq::<Seq<char>>::empty()
                    };
                    let acc = if accel_items(d.accelerator).len() > 0 {
                        seq![
                            "\\textbf{Accelerators:}\\begin{itemize}[nosep,leftmargin=1.4em]"@ + accel_items(d.accelerator)
                                + "\\end{itemize}"@,
                        ]
                    } else {
                        Seq::<Seq<char>>::empty()
                    };
                    assert(st == disks + acc);
                    if k < disks.len() {
                        assert(l == disks[k]);
                        assert(l[8] == 'D');
                    } else {
                        assert(l == acc[k - disks.len()]);
                        assert(l[8] == 'A');
                    }
                    lemma_not_cpu(l, 8);
                } else {
                    let k = i - h.len() - w.len() - st.len();
                    assert(l == t[k]);
                    if k == 0 {
                        assert(l[8] == 'S');
                        lemma_not_cpu(l, 8);
                    } else {
                        assert(l[5] == 'c');
                        lemma_not_cpu(l, 5);
                    }
                }
            }
        },
    }
}

} // verus!
