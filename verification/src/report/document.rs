//! Document assembly: the title-page preamble and the computed sections
//! and editorial fragments in report order.

use vstd::prelude::*;
use crate::text::{chars_of, fmt_u128, int_text, join, join_of, put, put_chars, seq_views, string_from, views};
use crate::report::tex::{esc_chars, esc_spec};
use crate::report::status::{ProbeState, ResultModel, Snapshot};
use crate::report::narrative::{count_state, down_descs, string_pairs};
use crate::inventory::site::{IdentityModel, SiteIdentity};

verus! {

pub const PREAMBLE_HEAD: &'static str = "\\documentclass[11pt]{article}\n\\usepackage[a4paper, margin=2.2cm, top=3.0cm, bottom=2.6cm]{geometry}\n\\usepackage{fleet-identity}\n\\usepackage{tikz}\n\\usetikzlibrary{positioning}\n\\renewcommand{\\FleetDocType}{INFRASTRUCTURE REPORT}\n\\renewcommand{\\FleetDocNumber}{";

pub const PREAMBLE_AFTER_NUMBER: &'static str = "}\n\\fleetsectionstyle\n\\fleetpagestyle\n% \\titlerule needs a titlesec context; outside one (plain body, as\n% \\fleetheading uses it) XeTeX hits undefined \\ttl@makeline — same look,\n% plain rule:\n\\renewcommand{\\fleetheading}[1]{%\n  \\par\\vspace{1.2em}%\n  {\\large\\bfseries\\color{primary}#1}\\par\n  \\vspace{0.2em}\\textcolor{lightgray}{\\rule{\\linewidth}{1.2pt}}\\par\n  \\vspace{0.6em}%\n}\n\n\\begin{document}\n\\thispagestyle{firstpage}\n\n\\vspace*{1.2em}\n{\\Huge\\bfseries\\color{primary} Infrastructure Status Report}\\\\[0.4em]\n{\\large\\color{secondary} ";

pub const PREAMBLE_AFTER_NAME: &'static str = " — ";

pub const PREAMBLE_AFTER_DESCRIPTION: &'static str = "}\\\\[0.3em]\n{\\color{darkgray}\\small ";

pub const PREAMBLE_AFTER_OPERATOR: &'static str = " \\quad|\\quad ";

pub const PREAMBLE_AFTER_DATE: &'static str = " \\quad|\\quad ";

pub const PREAMBLE_TAIL: &'static str = "}\n\n\\vspace{0.5em}\\textcolor{lightgray}{\\rule{\\linewidth}{1.2pt}}\\vspace{1em}\n\n";

/// The document preamble: class, packages, branding, and the title block
/// naming the site, the snapshot date and the report number.
pub open spec fn preamble_text(site: IdentityModel, status_date: Seq<char>, number: Seq<char>) -> Seq<char> {
    PREAMBLE_HEAD@ + number + PREAMBLE_AFTER_NUMBER@ + esc_spec(site.name) + PREAMBLE_AFTER_NAME@ + esc_spec(site.description) + PREAMBLE_AFTER_DESCRIPTION@ + esc_spec(site.operator) + PREAMBLE_AFTER_OPERATOR@ + status_date + PREAMBLE_AFTER_DATE@ + number + PREAMBLE_TAIL@
}

/// The document preamble through the title block.
pub fn preamble(site: &SiteIdentity, status_date: &str, number: &str) -> (r: String)
    ensures
        r@ == preamble_text(site@, status_date@, number@),
{
    let mut t = chars_of(PREAMBLE_HEAD);
    put(&mut t, number);
    put(&mut t, PREAMBLE_AFTER_NUMBER);
    put_chars(&mut t, esc_chars(chars_of(site.name.as_str()).as_slice()).as_slice());
    put(&mut t, PREAMBLE_AFTER_NAME);
    put_chars(&mut t, esc_chars(chars_of(site.description.as_str()).as_slice()).as_slice());
    put(&mut t, PREAMBLE_AFTER_DESCRIPTION);
    put_chars(&mut t, esc_chars(chars_of(site.operator.as_str()).as_slice()).as_slice());
    put(&mut t, PREAMBLE_AFTER_OPERATOR);
    put(&mut t, status_date);
    put(&mut t, PREAMBLE_AFTER_DATE);
    put(&mut t, number);
    put(&mut t, PREAMBLE_TAIL);
    string_from(t.as_slice())
}

/// The whole document around its rendered parts.
pub open spec fn document_text(parts: Seq<Seq<char>>) -> Seq<char>
    recommends
        parts.len() == 10,
{
    parts[0] + "\\fleetheading{Executive Summary}\n"@ + parts[1] + "\n"@ + parts[2] + "\n"@ + parts[3] + "\n"@ + parts[4]
        + "\n"@ + parts[5] + "\n"@ + parts[6] + "\n"@ + parts[7] + "\n\n"@ + parts[8] + "\n\n"@ + parts[9]
        + "\n\\end{document}\n"@
}

/// Assembles the document: preamble, the executive summary under its
/// heading, the status, devices, workloads, topology, power and capex
/// sections, then the architecture and findings fragments.
pub fn assemble_document(
    preamble: &str,
    exec: &str,
    status: &str,
    devices: &str,
    workloads: &str,
    topology: &str,
    power: &str,
    capex: &str,
    architecture: &str,
    findings: &str,
) -> (r: String)
    ensures
        r@ == document_text(
            seq![
                preamble@,
                exec@,
                status@,
                devices@,
                workloads@,
                topology@,
                power@,
                capex@,
                architecture@,
                findings@,
            ],
        ),
{
    let mut t = chars_of(preamble);
    put(&mut t, "\\fleetheading{Executive Summary}\n");
    put(&mut t, exec);
    put(&mut t, "\n");
    put(&mut t, status);
    put(&mut t, "\n");
    put(&mut t, devices);
    put(&mut t, "\n");
    put(&mut t, workloads);
    put(&mut t, "\n");
    put(&mut t, topology);
    put(&mut t, "\n");
    put(&mut t, power);
    put(&mut t, "\n");
    put(&mut t, capex);
    put(&mut t, "\n\n");
    put(&mut t, architecture);
    put(&mut t, "\n\n");
    put(&mut t, findings);
    put(&mut t, "\n\\end{document}\n");
    string_from(t.as_slice())
}

/// The placeholder values a snapshot determines: the up and total probe
/// counts, the down probes (escaped, or `none`), and the snapshot time.
pub open spec fn status_values_spec(rs: Seq<ResultModel>, generated_at: Seq<char>) -> Seq<(Seq<char>, Seq<char>)> {
    seq![
        ("up_count"@, int_text(count_state(rs, ProbeState::Up) as int)),
        ("probe_total"@, int_text(rs.len() as int)),
        ("down_descs"@, if down_descs(rs).len() == 0 {
            "none"@
        } else {
            esc_spec(join(down_descs(rs), "; "@))
        }),
        ("generated_at"@, esc_spec(generated_at)),
    ]
}

fn pair(key: &str, value: Vec<char>) -> (r: (String, String))
    ensures
        r.0@ == key@,
        r.1@ == value@,
{
    (string_from(chars_of(key).as_slice()), string_from(value.as_slice()))
}

/// The snapshot-derived values the editorial fragments may reference as
/// `@@key@@`; the power figures are added by the caller.
pub fn status_values(snapshot: &Snapshot) -> (r: Vec<(String, String)>)
    ensures
        string_pairs(r@) == status_values_spec(seq_views(snapshot.results@), snapshot.generated_at@),
{
    let ghost rs = seq_views(snapshot.results@);
    let mut up: usize = 0;
    let mut down: Vec<Vec<char>> = Vec::new();
    let mut i: usize = 0;
    while i < snapshot.results.len()
        invariant
            i <= snapshot.results@.len(),
            rs == seq_views(snapshot.results@),
            up == count_state(rs.take(i as int), ProbeState::Up),
            up <= i,
            views(down@) == down_descs(rs.take(i as int)),
        decreases snapshot.results@.len() - i,
    {
        let r = &snapshot.results[i];
        assert(rs.take(i + 1).drop_last() =~= rs.take(i as int));
        assert(rs.take(i + 1).last() == r@);
        if r.state == ProbeState::Up {
            up = up + 1;
        }
        if r.state == ProbeState::Down {
            let ghost prev = views(down@);
            let d = chars_of(r.desc.as_str());
            down.push(d);
            assert(views(down@) =~= prev.push(r@.desc));
        }
        i = i + 1;
    }
    assert(rs.take(i as int) =~= rs);
    let descs = if down.len() == 0 {
        chars_of("none")
    } else {
        esc_chars(join_of(&down, chars_of("; ").as_slice()).as_slice())
    };
    let mut out: Vec<(String, String)> = Vec::new();
    out.push(pair("up_count", fmt_u128(up as u128)));
    out.push(pair("probe_total", fmt_u128(snapshot.results.len() as u128)));
    out.push(pair("down_descs", descs));
    out.push(pair("generated_at", esc_chars(chars_of(snapshot.generated_at.as_str()).as_slice())));
    assert(string_pairs(out@) =~= status_values_spec(rs, snapshot.generated_at@));
    out
}

} // verus!
