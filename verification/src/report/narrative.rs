//! Narration of the report's prose sections, and its grounding guardrail.
//!
//! By default the report narrates: its prose sections are drafted by a
//! provider from a compact, authoritative digest the renderer computes — the
//! provider is handed every number, never asked to derive one. A draft that
//! cites a figure the digest does not hold is rejected, and the committed
//! editorial fragment renders instead, so a report is always produced.

use vstd::prelude::*;
use crate::text::{
    opt_view, chars_of, eq_chars, filter_map, first_match, has_digit, has_digit_of, int_text, join, join_of,
    lemma_first_match_at, lines, lines_of, put, put_chars, replace, replace_of, seq_views,
    string_from, trim, trim_end, trim_slice, trim_end_at, views,
};
use crate::report::status::{ProbeState, ResultModel, Snapshot};
use crate::inventory::devices::{DeviceModel, DevicesFile};
use crate::inventory::workloads::{PlacementModel, WorkloadsFile};
use crate::report::topology::host_is;

verus! {

/// How the report treats its prose sections.
#[derive(Debug, Clone, Copy, PartialEq, Eq, Structural)]
pub enum NarrateMode {
    /// Draft with a provider if one is available, else render the committed
    /// editorial fragments. The default.
    Auto,
    /// Never draft; always render the committed editorial fragments.
    Off,
    /// Draft prose, write it back into the editorial fragments for review and
    /// commit, and render it.
    Draft,
}

impl Default for NarrateMode {
    fn default() -> (r: NarrateMode)
        ensures
            r == NarrateMode::Auto,
    {
        NarrateMode::Auto
    }
}

/// A source of drafted prose for a report section. Nothing is assumed of
/// what a provider returns: every draft passes the grounding check before
/// it is used. The relations below name the answers a provider may give to a
/// request; by default any answer, since a provider may answer at random.
pub trait NarrativeProvider {
    /// Whether `draft` is an answer this provider may give when asked for
    /// `section`, following `instruction`, grounded in `context`.
    open spec fn may_draft(
        &self,
        section: Seq<char>,
        instruction: Seq<char>,
        context: Seq<char>,
        draft: Option<Seq<char>>,
    ) -> bool {
        true
    }

    /// Whether `answer` is a JSON answer this provider may give when asked
    /// with `instruction`, `context` and `schema`.
    open spec fn may_draft_json(&self, instruction: Seq<char>, context: Seq<char>, schema: Seq<char>, answer: Seq<char>) -> bool {
        true
    }

    /// Draft prose for `section`, following `instruction`, grounded only in
    /// `context`. Returns `None` to fall back to the authored fragment.
    fn draft(&self, section: &str, instruction: &str, context: &str) -> (r: Option<String>)
        ensures
            self.may_draft(section@, instruction@, context@, r.deep_view()),
    ;

    /// Draft a JSON response conforming to `schema`, grounded only in
    /// `context`. Returns `None` when the provider does no structured output;
    /// prose-only providers keep this default.
    fn draft_json(&self, instruction: &str, context: &str, schema: &str) -> (r: Option<String>)
        ensures
            match r.deep_view() {
                Some(a) => self.may_draft_json(instruction@, context@, schema@, a),
                None => true,
            },
        default_ensures
            r is None,
    {
        None
    }

    /// A short human-readable name, for the note announcing narration.
    fn name(&self) -> &str;
}

/// The drafting instruction for the executive summary.
pub const SUMMARY_INSTRUCTION: &'static str = "You are a senior SRE. Using ONLY the digest, write a 3-4 sentence executive summary. Lead with overall health, then any down host, then the modeled power and monthly cost. A node that is down deliberately is expected — say so, do not call it an incident. Be specific, no generic filler, no title, no markdown, no lists.";

/// The drafting instruction for the status note.
pub const STATUS_INSTRUCTION: &'static str = "Using ONLY the digest, write 1-2 plain sentences interpreting the probe status: what is up, what is down, and whether it implies a real problem. A deliberately-down node is expected, not a problem. No title, no markdown.";

/// The drafting instruction for the workloads note.
pub const WORKLOADS_INSTRUCTION: &'static str = "Using ONLY the digest, write 1-2 plain sentences on how the guests concentrate across the hosts (which host carries most). No title, no markdown.";

/// The drafting instruction for the topology note.
pub const TOPOLOGY_INSTRUCTION: &'static str = "Using ONLY the digest, write 1-2 plain sentences on the hosts and their roles (router, compute, GPU, fabric). Do NOT restate guest counts. No title, no markdown.";

/// The drafting instruction for the findings.
pub const FINDINGS_INSTRUCTION: &'static str = "You are a senior SRE. Using ONLY the digest, write 2-4 sentences of findings: outages, unverified or missing data, and gaps (missing collectors, pending capex, absent credentials). Do NOT restate per-host guest counts or power figures — the tables cover those. Be specific and cite the fact. A deliberately-down node is expected, not a finding. No title, no markdown, no lists.";

/// The instruction for a narratable section; none for an authored-only
/// one (the architecture note is structural and never drafted).
pub open spec fn instruction_spec(f: Seq<char>) -> Option<Seq<char>> {
    if f == "executive-summary.tex"@ {
        Some(SUMMARY_INSTRUCTION@)
    } else if f == "status-note.tex"@ {
        Some(STATUS_INSTRUCTION@)
    } else if f == "workloads-note.tex"@ {
        Some(WORKLOADS_INSTRUCTION@)
    } else if f == "topology-note.tex"@ {
        Some(TOPOLOGY_INSTRUCTION@)
    } else if f == "findings.tex"@ {
        Some(FINDINGS_INSTRUCTION@)
    } else {
        None
    }
}

/// The instruction for a narratable section, or `None` when the section is
/// authored-only — the architecture note is structural and does not track
/// live status, so it is never model-drafted.
pub fn instruction_for(fragment: &str) -> (r: Option<&'static str>)
    ensures
        match r {
            Some(t) => instruction_spec(fragment@) == Some(t@),
            None => instruction_spec(fragment@) is None,
        },
{
    let f = chars_of(fragment);
    proof {
        reveal_strlit("executive-summary.tex");
        reveal_strlit("status-note.tex");
        reveal_strlit("workloads-note.tex");
        reveal_strlit("topology-note.tex");
        reveal_strlit("findings.tex");
    }
    if eq_chars(f.as_slice(), chars_of("executive-summary.tex").as_slice()) {
        return Some(SUMMARY_INSTRUCTION);
    }
    if eq_chars(f.as_slice(), chars_of("status-note.tex").as_slice()) {
        return Some(STATUS_INSTRUCTION);
    }
    if eq_chars(f.as_slice(), chars_of("workloads-note.tex").as_slice()) {
        return Some(WORKLOADS_INSTRUCTION);
    }
    if eq_chars(f.as_slice(), chars_of("topology-note.tex").as_slice()) {
        return Some(TOPOLOGY_INSTRUCTION);
    }
    if eq_chars(f.as_slice(), chars_of("findings.tex").as_slice()) {
        return Some(FINDINGS_INSTRUCTION);
    }
    None
}

/// Whether a character separates figures: anything but a digit, `,` or `.`.
pub open spec fn figure_sep(c: char) -> bool {
    !(('0' <= c && c <= '9') || c == ',' || c == '.')
}

/// The runs of `s` between separators, as `str::split` yields them: always
/// at least one, empty runs included.
pub open spec fn fields(s: Seq<char>) -> Seq<Seq<char>>
    decreases s.len(),
{
    if s.len() == 0 {
        seq![seq![]]
    } else {
        let f = fields(s.drop_last());
        if figure_sep(s.last()) {
            f.push(seq![])
        } else {
            f.update(f.len() - 1, f.last().push(s.last()))
        }
    }
}

pub proof fn lemma_fields_nonempty(s: Seq<char>)
    ensures
        fields(s).len() >= 1,
    decreases s.len(),
{
    if s.len() > 0 {
        lemma_fields_nonempty(s.drop_last());
    }
}

/// Drops leading dots.
pub open spec fn strip_dots_start(t: Seq<char>) -> Seq<char>
    decreases t.len(),
{
    if t.len() > 0 && t[0] == '.' {
        strip_dots_start(t.drop_first())
    } else {
        t
    }
}

/// Drops trailing dots.
pub open spec fn strip_dots_end(t: Seq<char>) -> Seq<char>
    decreases t.len(),
{
    if t.len() > 0 && t.last() == '.' {
        strip_dots_end(t.drop_last())
    } else {
        t
    }
}

/// A run normalized to a figure: separators removed, surrounding dots
/// dropped (`1,850` → `1850`, `2.` → `2`).
pub open spec fn figure(t: Seq<char>) -> Seq<char> {
    strip_dots_end(strip_dots_start(replace(t, ","@, seq![])))
}

/// The figure a run stands for, if it holds a digit.
pub open spec fn to_figure(t: Seq<char>) -> Option<Seq<char>> {
    if has_digit(t) && figure(t).len() > 0 {
        Some(figure(t))
    } else {
        None
    }
}

pub open spec fn figure_fn() -> spec_fn(Seq<char>) -> Option<Seq<char>> {
    |t: Seq<char>| to_figure(t)
}

/// The numeric figures of a text, in order.
pub open spec fn numbers_spec(s: Seq<char>) -> Seq<Seq<char>> {
    filter_map(fields(s), figure_fn())
}

/// Every figure of `prose` is a figure of `context`.
pub open spec fn grounded(prose: Seq<char>, context: Seq<char>) -> bool {
    forall|i: int| 0 <= i < numbers_spec(prose).len() ==> numbers_spec(context).contains(#[trigger] numbers_spec(prose)[i])
}

proof fn lemma_strip_start(t: Seq<char>, a: int)
    requires
        0 <= a <= t.len(),
        forall|k: int| 0 <= k < a ==> t[k] == '.',
        a == t.len() || t[a] != '.',
    ensures
        strip_dots_start(t) == t.skip(a),
    decreases a,
{
    if a > 0 {
        lemma_strip_start(t.drop_first(), a - 1);
        assert(t.drop_first().skip(a - 1) =~= t.skip(a));
    } else {
        assert(t.skip(0) =~= t);
    }
}

proof fn lemma_strip_end(t: Seq<char>, b: int)
    requires
        0 <= b <= t.len(),
        forall|k: int| b <= k < t.len() ==> t[k] == '.',
        b == 0 || t[b - 1] != '.',
    ensures
        strip_dots_end(t) == t.take(b),
    decreases t.len() - b,
{
    if b < t.len() {
        lemma_strip_end(t.drop_last(), b);
        assert(t.drop_last().take(b) =~= t.take(b));
    } else {
        assert(t.take(b) =~= t);
    }
}

fn to_figure_of(t: &[char]) -> (r: Option<Vec<char>>)
    ensures
        opt_view(r) == to_figure(t@),
{
    if !has_digit_of(t) {
        return None;
    }
    let comma = chars_of(",");
    let empty: Vec<char> = Vec::new();
    proof {
        reveal_strlit(",");
    }
    let d = replace_of(t, comma.as_slice(), empty.as_slice());
    assert(empty@ =~= Seq::<char>::empty());
    let mut a: usize = 0;
    while a < d.len() && d[a] == '.'
        invariant
            a <= d@.len(),
            forall|k: int| 0 <= k < a ==> d@[k] == '.',
        decreases d@.len() - a,
    {
        a = a + 1;
    }
    proof {
        lemma_strip_start(d@, a as int);
    }
    let mut b: usize = d.len();
    while b > a && d[b - 1] == '.'
        invariant
            a <= b <= d@.len(),
            forall|k: int| b <= k < d@.len() ==> d@[k] == '.',
        decreases b,
    {
        b = b - 1;
    }
    let ghost u = d@.skip(a as int);
    proof {
        assert forall|k: int| (b - a) <= k < u.len() implies u[k] == '.' by {
            assert(u[k] == d@[k + a]);
        }
        if b > a {
            assert(u[b - a - 1] == d@[b - 1]);
        }
        lemma_strip_end(u, b - a);
    }
    let r = vstd::slice::slice_to_vec(&d.as_slice()[a..b]);
    assert(r@ =~= u.take(b - a));
    if r.len() == 0 {
        None
    } else {
        Some(r)
    }
}

/// Extracts numeric figures as normalized strings: thousands separators
/// removed and surrounding dots dropped, so `$1,850` yields `1850` and
/// `2.55` yields `2.55`.
pub fn numbers(text: &str) -> (r: Vec<String>)
    ensures
        r.deep_view() == numbers_spec(text@),
{
    let s = chars_of(text);
    let ghost f = figure_fn();
    let mut out: Vec<String> = Vec::new();
    let mut cur: Vec<char> = Vec::new();
    let mut i: usize = 0;
    proof {
        assert(s@.take(0) =~= Seq::<char>::empty());
        assert(fields(s@.take(0)).drop_last() =~= Seq::<Seq<char>>::empty());
    }
    while i < s.len()
        invariant
            i <= s@.len(),
            s@ == text@,
            f == figure_fn(),
            out.deep_view() == filter_map(fields(s@.take(i as int)).drop_last(), f),
            cur@ == fields(s@.take(i as int)).last(),
        decreases s@.len() - i,
    {
        let c = s[i];
        let ghost fi = fields(s@.take(i as int));
        proof {
            lemma_fields_nonempty(s@.take(i as int));
            assert(s@.take(i + 1).drop_last() =~= s@.take(i as int));
            assert(s@.take(i + 1).last() == c);
        }
        let sep = !(('0' <= c && c <= '9') || c == ',' || c == '.');
        if sep {
            let ghost prev = out.deep_view();
            assert(f(fi.last()) == to_figure(cur@));
            assert(fi.drop_last() =~= fi.drop_last());
            assert(filter_map(fi, f) == match f(fi.last()) {
                Some(b) => filter_map(fi.drop_last(), f).push(b),
                None => filter_map(fi.drop_last(), f),
            });
            match to_figure_of(cur.as_slice()) {
                Some(x) => {
                    out.push(string_from(x.as_slice()));
                    assert(out.deep_view() =~= prev.push(x@));
                },
                None => {},
            }
            assert(fields(s@.take(i + 1)).drop_last() =~= fi);
            assert(fi.drop_last().push(fi.last()) =~= fi);
            cur = Vec::new();
            assert(cur@ =~= fields(s@.take(i + 1)).last());
            assert(out.deep_view() == filter_map(fi, f));
            assert(out.deep_view() == filter_map(fields(s@.take(i + 1)).drop_last(), f));
        } else {
            cur.push(c);
            assert(fields(s@.take(i + 1)).drop_last() =~= fi.drop_last());
            assert(out.deep_view() == filter_map(fields(s@.take(i + 1)).drop_last(), f));
        }
        i = i + 1;
    }
    proof {
        lemma_fields_nonempty(s@);
        assert(s@.take(i as int) =~= s@);
    }
    let ghost fs = fields(s@);
    let ghost prev = out.deep_view();
    assert(f(fs.last()) == to_figure(cur@));
    assert(filter_map(fs, f) == match f(fs.last()) {
        Some(b) => filter_map(fs.drop_last(), f).push(b),
        None => filter_map(fs.drop_last(), f),
    });
    match to_figure_of(cur.as_slice()) {
        Some(x) => {
            out.push(string_from(x.as_slice()));
            assert(out.deep_view() =~= prev.push(x@));
        },
        None => {},
    }
    assert(fs.drop_last().push(fs.last()) =~= fs);
    out
}

fn contains_text(v: &Vec<String>, x: &str) -> (r: bool)
    ensures
        r == v.deep_view().contains(x@),
{
    let xs = chars_of(x);
    let mut i: usize = 0;
    while i < v.len()
        invariant
            i <= v@.len(),
            xs@ == x@,
            forall|k: int| 0 <= k < i ==> v.deep_view()[k] != x@,
        decreases v@.len() - i,
    {
        if eq_chars(chars_of(v[i].as_str()).as_slice(), xs.as_slice()) {
            assert(v.deep_view()[i as int] == x@);
            return true;
        }
        i = i + 1;
    }
    false
}

/// True when every numeric figure in `prose` also appears in `context`. The
/// digest holds every real number, so a digit-figure absent from it is a
/// fabrication. Word-numbers ("fifteen") are not checked — only digit figures.
pub fn is_grounded(prose: &str, context: &str) -> (r: bool)
    ensures
        r == grounded(prose@, context@),
{
    let allowed = numbers(context);
    let figs = numbers(prose);
    let mut i: usize = 0;
    while i < figs.len()
        invariant
            i <= figs@.len(),
            figs.deep_view() == numbers_spec(prose@),
            allowed.deep_view() == numbers_spec(context@),
            forall|k: int| 0 <= k < i ==> numbers_spec(context@).contains(#[trigger] numbers_spec(prose@)[k]),
        decreases figs@.len() - i,
    {
        if !contains_text(&allowed, figs[i].as_str()) {
            assert(!numbers_spec(context@).contains(numbers_spec(prose@)[i as int]));
            return false;
        }
        i = i + 1;
    }
    true
}

/// A draft kept only when it is grounded in the digest.
pub open spec fn accepted(draft: Option<Seq<char>>, digest: Seq<char>) -> Option<Seq<char>> {
    match draft {
        Some(p) => if grounded(p, digest) {
            Some(p)
        } else {
            None
        },
        None => None,
    }
}

/// Keeps a draft only when it is grounded in the digest.
pub fn accept_draft(draft: Option<String>, digest: &str) -> (r: Option<String>)
    ensures
        r.deep_view() == accepted(draft.deep_view(), digest@),
{
    match draft {
        Some(p) => {
            if is_grounded(p.as_str(), digest) {
                Some(p)
            } else {
                None
            }
        },
        None => None,
    }
}

/// Draft a section if narration is active and a provider yields prose;
/// otherwise `None`, meaning render the authored fragment instead. A draft
/// citing a figure the digest does not hold is rejected. The `Draft`-mode
/// write-back is the caller's job (it owns the editorial dir).
pub fn render_section(
    mode: NarrateMode,
    provider: Option<&dyn NarrativeProvider>,
    fragment: &str,
    digest: &str,
) -> (r: Option<String>)
    ensures
        mode == NarrateMode::Off ==> r is None,
        instruction_spec(fragment@) is None ==> r is None,
        provider is None ==> r is None,
        match r.deep_view() {
            Some(p) => grounded(p, digest@),
            None => true,
        },
        mode != NarrateMode::Off && instruction_spec(fragment@) is Some && provider is Some ==> exists|d: Option<
            Seq<char>,
        >|
            provider->0.may_draft(fragment@, instruction_spec(fragment@)->0, digest@, d) && r.deep_view()
                == accepted(d, digest@),
{
    if mode == NarrateMode::Off {
        return None;
    }
    let instruction = match instruction_for(fragment) {
        Some(i) => i,
        None => return None,
    };
    let p = match provider {
        Some(p) => p,
        None => return None,
    };
    accept_draft(p.draft(fragment, instruction, digest), digest)
}

/// A host line of the digest.
pub open spec fn host_line(h: (Seq<char>, int)) -> Seq<char> {
    "- "@ + h.0 + ": "@ + int_text(h.1) + " guests"@
}

/// The digest's wording, over the computed figures.
pub open spec fn digest_text(
    date: Seq<char>,
    site: Seq<char>,
    up: int,
    total: int,
    down: Seq<Seq<char>>,
    hosts: Seq<(Seq<char>, int)>,
    guest_total: int,
    power_kw: Seq<char>,
    usd_per_month: Seq<char>,
    tariff: Seq<char>,
) -> Seq<char> {
    "Fleet status digest for "@ + site + ", "@ + date + ".\nProbes: "@ + int_text(up) + " of "@ + int_text(total)
        + " up. Down: "@ + (if down.len() == 0 {
        "none"@
    } else {
        join(down, "; "@)
    }) + ".\nHosts ("@ + int_text(hosts.len() as int) + "), guests total "@ + int_text(guest_total) + ":\n"@ + join(
        hosts.map_values(|h: (Seq<char>, int)| host_line(h)),
        "\n"@,
    ) + "\nPower: all-on typical "@ + power_kw + " kW, about $"@ + usd_per_month + "/month at $"@ + tariff
        + "/kWh.\nCapex is seeded with estimates pending invoices. NetBox is the source of truth."@
}

pub open spec fn host_views(hosts: Seq<(String, usize)>) -> Seq<(Seq<char>, int)> {
    hosts.map_values(|h: (String, usize)| (h.0@, h.1 as int))
}

/// Formats the digest. Split from [`fleet_digest`] so the wording is unit
/// testable without the full inputs.
pub fn format_digest(
    date: &str,
    site: &str,
    up: usize,
    total: usize,
    down: &[&str],
    hosts: &[(String, usize)],
    guest_total: u128,
    power_kw: &str,
    usd_per_month: &str,
    tariff: &str,
) -> (r: String)
    ensures
        r@ == digest_text(
            date@,
            site@,
            up as int,
            total as int,
            seq_views(down@),
            host_views(hosts@),
            guest_total as int,
            power_kw@,
            usd_per_month@,
            tariff@,
        ),
{
    let mut downs: Vec<Vec<char>> = Vec::new();
    let mut i: usize = 0;
    while i < down.len()
        invariant
            i <= down@.len(),
            views(downs@) == seq_views(down@).take(i as int),
        decreases down@.len() - i,
    {
        let ghost prev = views(downs@);
        let d = chars_of(down[i]);
        assert(seq_views(down@)[i as int] == d@);
        downs.push(d);
        assert(views(downs@) =~= prev.push(d@));
        assert(seq_views(down@).take(i + 1) =~= seq_views(down@).take(i as int).push(d@));
        i = i + 1;
    }
    assert(seq_views(down@).take(i as int) =~= seq_views(down@));
    let mut lines: Vec<Vec<char>> = Vec::new();
    let ghost hv = host_views(hosts@);
    let mut k: usize = 0;
    while k < hosts.len()
        invariant
            k <= hosts@.len(),
            hv == host_views(hosts@),
            views(lines@) == hv.take(k as int).map_values(|h: (Seq<char>, int)| host_line(h)),
        decreases hosts@.len() - k,
    {
        let h = &hosts[k];
        let mut t = chars_of("- ");
        put_chars(&mut t, chars_of(h.0.as_str()).as_slice());
        put(&mut t, ": ");
        put_chars(&mut t, crate::text::fmt_u128(h.1 as u128).as_slice());
        put(&mut t, " guests");
        assert(hv[k as int] == (h.0@, h.1 as int));
        let ghost prev = views(lines@);
        lines.push(t);
        assert(views(lines@) =~= prev.push(t@));
        assert(hv.take(k + 1).map_values(|h: (Seq<char>, int)| host_line(h)) =~= hv.take(k as int).map_values(
            |h: (Seq<char>, int)| host_line(h),
        ).push(host_line(hv[k as int])));
        k = k + 1;
    }
    assert(hv.take(k as int) =~= hv);
    let mut t = chars_of("Fleet status digest for ");
    put(&mut t, site);
    put(&mut t, ", ");
    put(&mut t, date);
    put(&mut t, ".\nProbes: ");
    put_chars(&mut t, crate::text::fmt_u128(up as u128).as_slice());
    put(&mut t, " of ");
    put_chars(&mut t, crate::text::fmt_u128(total as u128).as_slice());
    put(&mut t, " up. Down: ");
    if downs.len() == 0 {
        put(&mut t, "none");
    } else {
        put_chars(&mut t, join_of(&downs, chars_of("; ").as_slice()).as_slice());
    }
    put(&mut t, ".\nHosts (");
    put_chars(&mut t, crate::text::fmt_u128(hosts.len() as u128).as_slice());
    put(&mut t, "), guests total ");
    put_chars(&mut t, crate::text::fmt_u128(guest_total).as_slice());
    put(&mut t, ":\n");
    put_chars(&mut t, join_of(&lines, chars_of("\n").as_slice()).as_slice());
    put(&mut t, "\nPower: all-on typical ");
    put(&mut t, power_kw);
    put(&mut t, " kW, about $");
    put(&mut t, usd_per_month);
    put(&mut t, "/month at $");
    put(&mut t, tariff);
    put(&mut t, "/kWh.\nCapex is seeded with estimates pending invoices. NetBox is the source of truth.");
    string_from(t.as_slice())
}

/// How many probes report `st`.
pub open spec fn count_state(rs: Seq<ResultModel>, st: ProbeState) -> nat
    decreases rs.len(),
{
    if rs.len() == 0 {
        0
    } else {
        count_state(rs.drop_last(), st) + if rs.last().state == st {
            1nat
        } else {
            0nat
        }
    }
}

/// The descriptions of the probes reporting down, in order.
pub open spec fn down_descs(rs: Seq<ResultModel>) -> Seq<Seq<char>>
    decreases rs.len(),
{
    if rs.len() == 0 {
        seq![]
    } else if rs.last().state == ProbeState::Down {
        down_descs(rs.drop_last()).push(rs.last().desc)
    } else {
        down_descs(rs.drop_last())
    }
}

/// The guests placed on a device: those of its first placement, else none.
pub open spec fn guests_on(id: Seq<char>, ps: Seq<PlacementModel>) -> int {
    match first_match(ps, host_is(id)) {
        Some(k) => ps[k].guests.len() as int,
        None => 0,
    }
}

/// Each device's name with its guest count.
pub open spec fn host_counts(ds: Seq<DeviceModel>, ps: Seq<PlacementModel>) -> Seq<(Seq<char>, int)> {
    ds.map_values(|d: DeviceModel| (d.name, guests_on(d.id, ps)))
}

pub open spec fn guest_sum(hs: Seq<(Seq<char>, int)>) -> int
    decreases hs.len(),
{
    if hs.len() == 0 {
        0
    } else {
        guest_sum(hs.drop_last()) + hs.last().1
    }
}

/// A placeholder value by key (the last entry for the key), or `?`.
pub open spec fn value_or_unknown(values: Seq<(Seq<char>, Seq<char>)>, key: Seq<char>) -> Seq<char>
    decreases values.len(),
{
    if values.len() == 0 {
        "?"@
    } else if values.last().0 == key {
        values.last().1
    } else {
        value_or_unknown(values.drop_last(), key)
    }
}

pub open spec fn string_pairs(v: Seq<(String, String)>) -> Seq<(Seq<char>, Seq<char>)> {
    v.map_values(|p: (String, String)| (p.0@, p.1@))
}

/// The digest of a fleet: probe counts, down probes, guests per host, and
/// the computed power figures.
pub open spec fn fleet_digest_text(
    rs: Seq<ResultModel>,
    ds: Seq<DeviceModel>,
    ps: Seq<PlacementModel>,
    site: Seq<char>,
    date: Seq<char>,
    values: Seq<(Seq<char>, Seq<char>)>,
) -> Seq<char> {
    digest_text(
        date,
        site,
        count_state(rs, ProbeState::Up) as int,
        rs.len() as int,
        down_descs(rs),
        host_counts(ds, ps),
        guest_sum(host_counts(ds, ps)),
        value_or_unknown(values, "all_on_typical_kw"@),
        value_or_unknown(values, "all_on_usd_per_month"@),
        value_or_unknown(values, "tariff_usd_per_kwh"@),
    )
}

fn value_of<'a>(values: &'a Vec<(String, String)>, key: &str) -> (r: &'a str)
    ensures
        r@ == value_or_unknown(string_pairs(values@), key@),
{
    let ghost vs = string_pairs(values@);
    let k = chars_of(key);
    let mut i: usize = values.len();
    assert(vs.take(i as int) =~= vs);
    while i > 0
        invariant
            i <= values@.len(),
            vs == string_pairs(values@),
            k@ == key@,
            value_or_unknown(vs, key@) == value_or_unknown(vs.take(i as int), key@),
        decreases i,
    {
        let p = &values[i - 1];
        assert(vs.take(i as int).last() == (p.0@, p.1@));
        assert(vs.take(i as int).drop_last() =~= vs.take(i - 1));
        if eq_chars(chars_of(p.0.as_str()).as_slice(), k.as_slice()) {
            return p.1.as_str();
        }
        i = i - 1;
    }
    proof {
        reveal_strlit("?");
    }
    "?"
}

fn guests_on_of(id: &[char], workloads: &WorkloadsFile) -> (r: usize)
    ensures
        r == guests_on(id@, seq_views(workloads.guest@)),
{
    let ghost ps = seq_views(workloads.guest@);
    let ghost f = host_is(id@);
    let mut i: usize = 0;
    while i < workloads.guest.len()
        invariant
            i <= workloads.guest@.len(),
            ps == seq_views(workloads.guest@),
            f == host_is(id@),
            forall|m: int| 0 <= m < i ==> !f(#[trigger] ps[m]),
        decreases workloads.guest@.len() - i,
    {
        assert(ps[i as int] == workloads.guest@[i as int]@);
        if eq_chars(chars_of(workloads.guest[i].host.as_str()).as_slice(), id) {
            proof {
                lemma_first_match_at(ps, f, i as int);
            }
            return workloads.guest[i].guests.len();
        }
        i = i + 1;
    }
    proof {
        lemma_first_match_at(ps, f, i as int);
    }
    0
}

/// Builds the compact, authoritative digest a provider narrates from. Every
/// number is computed here — the provider is never asked to count.
pub fn fleet_digest(
    snapshot: &Snapshot,
    devices: &DevicesFile,
    workloads: &WorkloadsFile,
    site_name: &str,
    status_date: &str,
    values: &Vec<(String, String)>,
) -> (r: String)
    ensures
        r@ == fleet_digest_text(
            seq_views(snapshot.results@),
            seq_views(devices.device@),
            seq_views(workloads.guest@),
            site_name@,
            status_date@,
            string_pairs(values@),
        ),
{
    let ghost rs = seq_views(snapshot.results@);
    let mut up: usize = 0;
    let mut down: Vec<&str> = Vec::new();
    let mut i: usize = 0;
    while i < snapshot.results.len()
        invariant
            i <= snapshot.results@.len(),
            rs == seq_views(snapshot.results@),
            up == count_state(rs.take(i as int), ProbeState::Up),
            up <= i,
            seq_views(down@) == down_descs(rs.take(i as int)),
        decreases snapshot.results@.len() - i,
    {
        let r = &snapshot.results[i];
        assert(rs.take(i + 1).drop_last() =~= rs.take(i as int));
        assert(rs.take(i + 1).last() == r@);
        if r.state == ProbeState::Up {
            up = up + 1;
        }
        if r.state == ProbeState::Down {
            let ghost prev = seq_views(down@);
            down.push(r.desc.as_str());
            assert(seq_views(down@) =~= prev.push(r@.desc));
        }
        i = i + 1;
    }
    assert(rs.take(i as int) =~= rs);
    let ghost ds = seq_views(devices.device@);
    let ghost ps = seq_views(workloads.guest@);
    let ghost hc = host_counts(ds, ps);
    let mut hosts: Vec<(String, usize)> = Vec::new();
    let mut total: u128 = 0;
    let mut k: usize = 0;
    while k < devices.device.len()
        invariant
            k <= devices.device@.len(),
            ds == seq_views(devices.device@),
            ps == seq_views(workloads.guest@),
            hc == host_counts(ds, ps),
            host_views(hosts@) == hc.take(k as int),
            total == guest_sum(hc.take(k as int)),
            total <= k * 0x1_0000_0000_0000_0000,
        decreases devices.device@.len() - k,
    {
        let d = &devices.device[k];
        assert(ds[k as int] == d@);
        let n = guests_on_of(chars_of(d.id.as_str()).as_slice(), workloads);
        let name = d.name.clone();
        assert(name@ == d.name@);
        let ghost prev = host_views(hosts@);
        hosts.push((name, n));
        assert(host_views(hosts@) =~= prev.push((d@.name, n as int)));
        assert(hc.take(k + 1) =~= hc.take(k as int).push(hc[k as int]));
        assert(hc.take(k + 1).drop_last() =~= hc.take(k as int));
        total = total + n as u128;
        k = k + 1;
    }
    assert(hc.take(k as int) =~= hc);
    format_digest(
        status_date,
        site_name,
        up,
        snapshot.results.len(),
        down.as_slice(),
        hosts.as_slice(),
        total,
        value_of(values, "all_on_typical_kw"),
        value_of(values, "all_on_usd_per_month"),
        value_of(values, "tariff_usd_per_kwh"),
    )
}

/// The lines of a text with trailing whitespace trimmed, rejoined.
pub open spec fn trim_lines_end(ls: Seq<Seq<char>>) -> Seq<Seq<char>> {
    ls.map_values(|l: Seq<char>| trim_end(l))
}

/// Markdown emphasis stripped, trailing whitespace of each line trimmed,
/// the whole trimmed.
pub open spec fn clean_spec(raw: Seq<char>) -> Seq<char> {
    trim(join(trim_lines_end(lines(replace(replace(raw, "**"@, seq![]), "__"@, seq![]))), "\n"@))
}

/// Strips the light markdown a model sometimes emits despite the
/// instruction, and trims — leaving plain prose ready for LaTeX escaping.
pub fn clean(raw: &str) -> (r: String)
    ensures
        r@ == clean_spec(raw@),
{
    let empty: Vec<char> = Vec::new();
    assert(empty@ =~= Seq::<char>::empty());
    let stars = chars_of("**");
    let unders = chars_of("__");
    proof {
        reveal_strlit("**");
        reveal_strlit("__");
    }
    let a = replace_of(chars_of(raw).as_slice(), stars.as_slice(), empty.as_slice());
    let b = replace_of(a.as_slice(), unders.as_slice(), empty.as_slice());
    let ls = lines_of(b.as_slice());
    let ghost lv = views(ls@);
    let mut out: Vec<Vec<char>> = Vec::new();
    let mut i: usize = 0;
    while i < ls.len()
        invariant
            i <= ls@.len(),
            lv == views(ls@),
            views(out@) == trim_lines_end(lv.take(i as int)),
        decreases ls@.len() - i,
    {
        let l = ls[i].as_slice();
        let j = trim_end_at(l);
        let t = vstd::slice::slice_to_vec(&l[0..j]);
        assert(t@ =~= l@.subrange(0, j as int));
        let ghost prev = views(out@);
        out.push(t);
        assert(views(out@) =~= prev.push(t@));
        assert(trim_lines_end(lv.take(i + 1)) =~= trim_lines_end(lv.take(i as int)).push(trim_end(lv[i as int])));
        i = i + 1;
    }
    assert(lv.take(i as int) =~= lv);
    let joined = join_of(&out, chars_of("\n").as_slice());
    string_from(trim_slice(joined.as_slice()))
}

/// The digest grounds itself: every figure of a text is among its own
/// figures, so a draft that only repeats the digest's figures passes.
pub proof fn law_digest_grounds_itself(text: Seq<char>)
    ensures
        grounded(text, text),
{
    assert forall|i: int| 0 <= i < numbers_spec(text).len() implies numbers_spec(text).contains(
        #[trigger] numbers_spec(text)[i],
    ) by {
        assert(numbers_spec(text)[i] == numbers_spec(text)[i]);
    }
}

} // verus!

