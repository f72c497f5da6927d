//! A prioritized risk register: a computed problem/gap context turned into
//! severity-ranked, actionable items by a narrative provider, rendered as a
//! styled table. Present only when narration is active and the provider
//! returns grounded risks — the deterministic tables remain the
//! authoritative record; this section is the provider's assessment layered
//! on top.

use vstd::prelude::*;
use crate::text::{
    ascii_lower, ascii_lower_of, chars_of, eq_chars, filter_map, join, join_of, put, put_chars,
    seq_views, string_from, trim, trim_slice, views,
};
use crate::json::{
    as_array, as_str, get, jarray, jget, jstr, jv, jv_list, lemma_jv_list, parse_json, json_parse, Json, JVal,
};
use crate::sort::{lemma_sort_by_key, sort_by_key, sort_keyed};
use crate::report::narrative::{grounded, is_grounded, NarrativeProvider};
use crate::report::tex::{esc_chars, esc_spec};
use crate::report::status::{ProbeState, ResultModel, Snapshot};
use crate::inventory::devices::{DeviceModel, DevicesFile};
use crate::inventory::capex::{CapexFile, CapexModel};

verus! {

/// Risk severity, ordered by urgency.
#[derive(Debug, Clone, Copy, PartialEq, Eq, Structural)]
pub enum Severity {
    /// Highest urgency.
    Critical,
    /// High urgency.
    High,
    /// Medium urgency.
    Medium,
    /// Low urgency.
    Low,
}

/// One assessed risk: a statement, its severity, and a recommended action.
#[derive(Debug, Clone, PartialEq, Eq)]
pub struct Risk {
    /// Short risk statement.
    pub title: String,
    /// Assessed severity.
    pub severity: Severity,
    /// Recommended action.
    pub recommendation: String,
}

/// The abstract content of a [`Risk`].
#[verifier::ext_equal]
pub struct RiskModel {
    pub title: Seq<char>,
    pub severity: Severity,
    pub recommendation: Seq<char>,
}

impl View for Risk {
    type V = RiskModel;

    open spec fn view(&self) -> RiskModel {
        RiskModel { title: self.title@, severity: self.severity, recommendation: self.recommendation@ }
    }
}

/// Sort rank — lower sorts first (most urgent).
pub open spec fn rank_of(s: Severity) -> u8 {
    match s {
        Severity::Critical => 0,
        Severity::High => 1,
        Severity::Medium => 2,
        Severity::Low => 3,
    }
}

/// A severity word, trimmed and case-folded; unknown words are medium.
pub open spec fn severity_of(word: Seq<char>) -> Severity {
    let w = ascii_lower(trim(word));
    if w == "critical"@ {
        Severity::Critical
    } else if w == "high"@ {
        Severity::High
    } else if w == "low"@ {
        Severity::Low
    } else {
        Severity::Medium
    }
}

/// The table badge of a severity.
pub open spec fn badge_of(s: Severity) -> Seq<char> {
    match s {
        Severity::Critical => "\\textcolor{accent}{\\textbf{CRITICAL}}"@,
        Severity::High => "\\textcolor{accent}{\\textbf{HIGH}}"@,
        Severity::Medium => "\\textcolor{secondary}{\\textbf{MEDIUM}}"@,
        Severity::Low => "\\textcolor{darkgray}{\\textbf{LOW}}"@,
    }
}

impl Severity {
    /// Sort rank — lower sorts first (most urgent).
    pub fn rank(self) -> (r: u8)
        ensures
            r == rank_of(self),
    {
        match self {
            Severity::Critical => 0,
            Severity::High => 1,
            Severity::Medium => 2,
            Severity::Low => 3,
        }
    }

    /// Parses a model-provided severity word; unknowns default to medium.
    pub fn parse(word: &str) -> (r: Severity)
        ensures
            r == severity_of(word@),
    {
        let w = ascii_lower_of(trim_slice(chars_of(word).as_slice()));
        if eq_chars(w.as_slice(), chars_of("critical").as_slice()) {
            Severity::Critical
        } else if eq_chars(w.as_slice(), chars_of("high").as_slice()) {
            Severity::High
        } else if eq_chars(w.as_slice(), chars_of("low").as_slice()) {
            Severity::Low
        } else {
            Severity::Medium
        }
    }

    /// A colored LaTeX badge for the table.
    pub fn badge(self) -> (r: &'static str)
        ensures
            r@ == badge_of(self),
    {
        match self {
            Severity::Critical => "\\textcolor{accent}{\\textbf{CRITICAL}}",
            Severity::High => "\\textcolor{accent}{\\textbf{HIGH}}",
            Severity::Medium => "\\textcolor{secondary}{\\textbf{MEDIUM}}",
            Severity::Low => "\\textcolor{darkgray}{\\textbf{LOW}}",
        }
    }
}

/// The JSON schema the provider fills — a list of `{title, severity,
/// recommendation}`.
pub const RISK_SCHEMA: &'static str = "{\"properties\":{\"risks\":{\"items\":{\"$ref\":\"#/$defs/Risk\"},\"type\":\"array\"}},\"$defs\":{\"Risk\":{\"title\":\"Risk\",\"additionalProperties\":false,\"properties\":{\"recommendation\":{\"type\":\"string\"},\"title\":{\"type\":\"string\"},\"severity\":{\"description\":\"one of: critical, high, medium, low\",\"type\":\"string\"}},\"type\":\"object\",\"x-order\":[\"title\",\"severity\",\"recommendation\"],\"required\":[\"title\",\"severity\",\"recommendation\"]}},\"x-order\":[\"risks\"],\"type\":\"object\",\"title\":\"RiskRegister\",\"additionalProperties\":false,\"required\":[\"risks\"]}";

/// The instruction the provider assesses the context under.
pub const RISK_INSTRUCTION: &'static str = "You are a senior SRE. From ONLY these observed facts, produce a prioritized risk register: for each, a short title, a severity (critical, high, medium, or low), and a specific recommendation. A deliberately-down node is expected — rate it low or omit it. Invent nothing; do not repeat the same risk.";

/// One register entry, when it carries a non-blank title and string fields.
pub open spec fn risk_of(item: JVal) -> Option<RiskModel> {
    match (jstr(jget(item, "title"@)), jstr(jget(item, "recommendation"@)), jstr(jget(item, "severity"@))) {
        (Some(t), Some(r), Some(s)) => if trim(t).len() > 0 {
            Some(RiskModel { title: trim(t), severity: severity_of(s), recommendation: trim(r) })
        } else {
            None
        },
        _ => None,
    }
}

pub open spec fn risk_fn() -> spec_fn(JVal) -> Option<RiskModel> {
    |item: JVal| risk_of(item)
}

/// The well-formed entries of a register document's `risks` array.
pub open spec fn risks_of(v: JVal) -> Seq<RiskModel> {
    match jarray(jget(v, "risks"@)) {
        Some(items) => filter_map(items, risk_fn()),
        None => seq![],
    }
}

/// The text a risk is grounded by: its title and recommendation.
pub open spec fn risk_text(r: RiskModel) -> Seq<char> {
    r.title + " "@ + r.recommendation
}

/// The risks whose text is grounded in the context, in order.
pub open spec fn keep_grounded(rs: Seq<RiskModel>, context: Seq<char>) -> Seq<RiskModel>
    decreases rs.len(),
{
    if rs.len() == 0 {
        seq![]
    } else if grounded(risk_text(rs.last()), context) {
        keep_grounded(rs.drop_last(), context).push(rs.last())
    } else {
        keep_grounded(rs.drop_last(), context)
    }
}

pub open spec fn keyed(rs: Seq<RiskModel>) -> Seq<(i64, RiskModel)> {
    rs.map_values(|r: RiskModel| (rank_of(r.severity) as i64, r))
}

pub open spec fn unkeyed(s: Seq<(i64, RiskModel)>) -> Seq<RiskModel> {
    s.map_values(|p: (i64, RiskModel)| p.1)
}

/// The grounded risks, most urgent first, in their given order within a
/// severity.
pub open spec fn assessed(rs: Seq<RiskModel>, context: Seq<char>) -> Seq<RiskModel> {
    unkeyed(sort_by_key(keyed(keep_grounded(rs, context))))
}

fn risk_from_item(item: &Json) -> (r: Option<Risk>)
    ensures
        match r {
            Some(x) => risk_of(jv(*item)) == Some(x@),
            None => risk_of(jv(*item)) is None,
        },
{
    let title = match as_str(get(item, "title")) {
        Some(t) => t,
        None => return None,
    };
    let recommendation = match as_str(get(item, "recommendation")) {
        Some(t) => t,
        None => return None,
    };
    let severity = match as_str(get(item, "severity")) {
        Some(t) => t,
        None => return None,
    };
    let tc = chars_of(title);
    let t = trim_slice(tc.as_slice());
    if t.len() == 0 {
        return None;
    }
    let rc = chars_of(recommendation);
    let rec = trim_slice(rc.as_slice());
    let r = Risk { title: string_from(t), severity: Severity::parse(severity), recommendation: string_from(rec) };
    assert(r@ =~= risk_of(jv(*item))->0);
    Some(r)
}

/// The well-formed risks of a parsed register document: entries of its
/// `risks` array with a non-blank title and string title, severity and
/// recommendation (the title and recommendation trimmed).
pub fn risks_from(value: &Json) -> (r: Vec<Risk>)
    ensures
        seq_views(r@) == risks_of(jv(*value)),
{
    let items = match as_array(get(value, "risks")) {
        Some(a) => a,
        None => return Vec::new(),
    };
    let ghost js = jv_list(items@);
    let ghost f = risk_fn();
    proof {
        lemma_jv_list(items@);
    }
    let mut out: Vec<Risk> = Vec::new();
    let mut i: usize = 0;
    while i < items.len()
        invariant
            i <= items@.len(),
            js == jv_list(items@),
            js.len() == items@.len(),
            forall|k: int| 0 <= k < items@.len() ==> #[trigger] js[k] == jv(items@[k]),
            f == risk_fn(),
            seq_views(out@) == filter_map(js.take(i as int), f),
        decreases items@.len() - i,
    {
        let ghost prev = seq_views(out@);
        assert(js.take(i + 1).drop_last() =~= js.take(i as int));
        assert(js.take(i + 1).last() == jv(items@[i as int]));
        assert(f(jv(items@[i as int])) == risk_of(jv(items@[i as int])));
        match risk_from_item(&items[i]) {
            Some(x) => {
                out.push(x);
                assert(seq_views(out@) =~= prev.push(x@));
            },
            None => {},
        }
        i = i + 1;
    }
    assert(js.take(i as int) =~= js);
    out
}

/// Parses the provider's JSON into risks, dropping any malformed entry;
/// nothing when the text is not JSON.
pub fn parse_risks(json: &str) -> (r: Vec<Risk>)
    ensures
        seq_views(r@) == match json_parse(json@) {
            Some(v) => risks_of(v),
            None => seq![],
        },
{
    match parse_json(json) {
        Some(v) => risks_from(&v),
        None => Vec::new(),
    }
}

fn risk_text_of(r: &Risk) -> (t: String)
    ensures
        t@ == risk_text(r@),
{
    let mut c = chars_of(r.title.as_str());
    put(&mut c, " ");
    put_chars(&mut c, chars_of(r.recommendation.as_str()).as_slice());
    string_from(c.as_slice())
}

/// Keeps the risks grounded in the context and orders them most urgent
/// first (stable within a severity).
pub fn rank_risks(risks: Vec<Risk>, context: &str) -> (r: Vec<Risk>)
    ensures
        seq_views(r@) == assessed(seq_views(risks@), context@),
{
    let ghost rs = seq_views(risks@);
    let mut risks = risks;
    let mut keyed_v: Vec<(i64, Risk)> = Vec::new();
    let mut i: usize = 0;
    let ghost n = risks@.len();
    assert(n == risks.len());
    assert(rs.skip(0) =~= rs);
    while risks.len() > 0
        invariant
            i + risks@.len() == n,
            n == rs.len(),
            n <= usize::MAX,
            seq_views(risks@) == rs.skip(i as int),
            keyed_views(keyed_v@) == keyed(keep_grounded(rs.take(i as int), context@)),
        decreases risks@.len(),
    {
        let ghost before = risks@;
        let x = risks.remove(0);
        proof {
            assert(seq_views(before)[0] == x@);
            assert(rs.skip(i as int)[0] == rs[i as int]);
            assert(risks@ =~= before.subrange(1, before.len() as int));
            assert forall|k: int| 0 <= k < risks@.len() implies seq_views(risks@)[k] == rs.skip(i + 1)[k] by {
                assert(seq_views(risks@)[k] == risks@[k]@);
                assert(risks@[k] == before[k + 1]);
                assert(seq_views(before)[k + 1] == rs.skip(i as int)[k + 1]);
            }
            assert(seq_views(risks@) =~= rs.skip(i + 1));
        }
        assert(rs.take(i + 1).drop_last() =~= rs.take(i as int));
        assert(rs.take(i + 1).last() == x@);
        let ghost prev = keyed_views(keyed_v@);
        if is_grounded(risk_text_of(&x).as_str(), context) {
            let k = x.severity.rank() as i64;
            let ghost xv = x@;
            keyed_v.push((k, x));
            assert(keyed_views(keyed_v@) =~= prev.push((k, xv)));
            assert(keyed(keep_grounded(rs.take(i + 1), context@)) =~= keyed(keep_grounded(rs.take(i as int), context@)).push((k, xv)));
        }
        i = i + 1;
    }
    assert(rs.take(i as int) =~= rs);
    let sorted = sort_keyed(keyed_v);
    proof {
        lemma_sort_keyed_views(keyed_v@);
    }
    let mut out: Vec<Risk> = Vec::new();
    let mut sorted = sorted;
    let ghost sv = keyed_views(sorted@);
    let ghost m = sorted@.len();
    assert(m == sorted.len());
    assert(sv.skip(0) =~= sv);
    let mut j: usize = 0;
    while sorted.len() > 0
        invariant
            j + sorted@.len() == m,
            m <= usize::MAX,
            keyed_views(sorted@) == sv.skip(j as int),
            sv.len() == m,
            seq_views(out@) == unkeyed(sv.take(j as int)),
        decreases sorted@.len(),
    {
        let ghost before = sorted@;
        let p = sorted.remove(0);
        proof {
            assert(keyed_views(before)[0] == (p.0, p.1@));
            assert(sv.skip(j as int)[0] == sv[j as int]);
            assert(sorted@ =~= before.subrange(1, before.len() as int));
            assert forall|k: int| 0 <= k < sorted@.len() implies keyed_views(sorted@)[k] == sv.skip(j + 1)[k] by {
                assert(sorted@[k] == before[k + 1]);
                assert(keyed_views(before)[k + 1] == sv.skip(j as int)[k + 1]);
            }
            assert(keyed_views(sorted@) =~= sv.skip(j + 1));
        }
        let ghost prev = seq_views(out@);
        out.push(p.1);
        assert(seq_views(out@) =~= prev.push(sv[j as int].1));
        assert(unkeyed(sv.take(j + 1)) =~= unkeyed(sv.take(j as int)).push(sv[j as int].1));
        j = j + 1;
    }
    assert(sv.take(j as int) =~= sv);
    out
}

pub open spec fn keyed_views(s: Seq<(i64, Risk)>) -> Seq<(i64, RiskModel)> {
    s.map_values(|p: (i64, Risk)| (p.0, p.1@))
}

proof fn lemma_insert_views(s: Seq<(i64, Risk)>, x: (i64, Risk))
    ensures
        keyed_views(crate::sort::insert_by_key(s, x)) == crate::sort::insert_by_key(keyed_views(s), (x.0, x.1@)),
    decreases s.len(),
{
    if s.len() == 0 {
        assert(keyed_views(seq![x]) =~= seq![(x.0, x.1@)]);
    } else if s.last().0 <= x.0 {
        assert(keyed_views(s.push(x)) =~= keyed_views(s).push((x.0, x.1@)));
        assert(keyed_views(s).last() == (s.last().0, s.last().1@));
    } else {
        lemma_insert_views(s.drop_last(), x);
        assert(keyed_views(s).drop_last() =~= keyed_views(s.drop_last()));
        assert(keyed_views(crate::sort::insert_by_key(s.drop_last(), x).push(s.last())) =~= keyed_views(
            crate::sort::insert_by_key(s.drop_last(), x),
        ).push((s.last().0, s.last().1@)));
    }
}

proof fn lemma_sort_keyed_views(s: Seq<(i64, Risk)>)
    ensures
        keyed_views(sort_by_key(s)) == sort_by_key(keyed_views(s)),
    decreases s.len(),
{
    if s.len() > 0 {
        lemma_sort_keyed_views(s.drop_last());
        lemma_insert_views(sort_by_key(s.drop_last()), s.last());
        assert(keyed_views(s).drop_last() =~= keyed_views(s.drop_last()));
    }
}

/// What the register makes of a provider's answer: nothing for an empty
/// context or no answer, else the grounded risks most urgent first.
pub open spec fn register_of(json: Option<Seq<char>>, context: Seq<char>) -> Seq<RiskModel> {
    if context.len() == 0 {
        seq![]
    } else {
        match json {
            Some(j) => assessed(
                match json_parse(j) {
                    Some(v) => risks_of(v),
                    None => seq![],
                },
                context,
            ),
            None => seq![],
        }
    }
}

/// Turns a provider's JSON answer into the register for `context`.
pub fn register_from(json: Option<String>, context: &str) -> (r: Vec<Risk>)
    ensures
        seq_views(r@) == register_of(json.deep_view(), context@),
{
    if chars_of(context).len() == 0 {
        return Vec::new();
    }
    match json {
        Some(j) => rank_risks(parse_risks(j.as_str()), context),
        None => Vec::new(),
    }
}

/// Assesses a computed problem `context` into a sorted, ground-checked risk
/// register. Nothing is asked of the provider for an empty context.
pub fn assess<P: NarrativeProvider + ?Sized>(provider: &P, context: &str) -> (r: Vec<Risk>)
    ensures
        context@.len() == 0 ==> r@.len() == 0,
        context@.len() > 0 ==> exists|d: Option<Seq<char>>|
            #![trigger register_of(d, context@)]
            (match d {
                Some(a) => provider.may_draft_json(RISK_INSTRUCTION@, context@, RISK_SCHEMA@, a),
                None => true,
            }) && seq_views(r@) == register_of(d, context@),
        forall|i: int| 0 <= i < r@.len() ==> grounded(risk_text(#[trigger] r@[i]@), context@),
        forall|i: int, j: int| 0 <= i <= j < r@.len() ==> rank_of(r@[i].severity) <= rank_of(r@[j].severity),
{
    if chars_of(context).len() == 0 {
        return Vec::new();
    }
    let json = provider.draft_json(RISK_INSTRUCTION, context, RISK_SCHEMA);
    let r = register_from(json, context);
    proof {
        let rs = match json_parse_of(json.deep_view()) {
            Some(v) => risks_of(v),
            None => seq![],
        };
        law_register_grounded_and_ranked(rs, context@);
        assert forall|i: int| 0 <= i < r@.len() implies grounded(risk_text(#[trigger] r@[i]@), context@) by {
            assert(seq_views(r@)[i] == r@[i]@);
        }
        assert forall|i: int, j: int| 0 <= i <= j < r@.len() implies rank_of(r@[i].severity) <= rank_of(
            r@[j].severity,
        ) by {
            assert(seq_views(r@)[i] == r@[i]@);
            assert(seq_views(r@)[j] == r@[j]@);
        }
    }
    r
}

pub open spec fn json_parse_of(j: Option<Seq<char>>) -> Option<JVal> {
    match j {
        Some(t) => json_parse(t),
        None => None,
    }
}

proof fn lemma_keep_grounded(rs: Seq<RiskModel>, context: Seq<char>)
    ensures
        forall|i: int| 0 <= i < keep_grounded(rs, context).len() ==> grounded(
            risk_text(#[trigger] keep_grounded(rs, context)[i]),
            context,
        ),
        keep_grounded(rs, context).len() <= rs.len(),
    decreases rs.len(),
{
    if rs.len() > 0 {
        lemma_keep_grounded(rs.drop_last(), context);
    }
}

/// Every risk of the register is grounded in its context, and the register
/// runs from most to least urgent.
pub proof fn law_register_grounded_and_ranked(rs: Seq<RiskModel>, context: Seq<char>)
    ensures
        forall|i: int| 0 <= i < assessed(rs, context).len() ==> grounded(
            risk_text(#[trigger] assessed(rs, context)[i]),
            context,
        ),
        forall|i: int, j: int|
            0 <= i <= j < assessed(rs, context).len() ==> rank_of(assessed(rs, context)[i].severity) <= rank_of(
                assessed(rs, context)[j].severity,
            ),
{
    let g = keep_grounded(rs, context);
    let k = keyed(g);
    let s = sort_by_key(k);
    lemma_keep_grounded(rs, context);
    lemma_sort_by_key(k);
    assert forall|i: int| 0 <= i < s.len() implies s[i].0 == rank_of(s[i].1.severity) as i64 && grounded(
        risk_text(s[i].1),
        context,
    ) by {
        assert(s.to_multiset().count(s[i]) > 0) by {
            broadcast use vstd::seq_lib::group_to_multiset_ensures;
            assert(s.contains(s[i]));
        }
        assert(k.to_multiset().count(s[i]) > 0);
        broadcast use vstd::seq_lib::group_to_multiset_ensures;
        assert(k.contains(s[i]));
        let m = choose|m: int| 0 <= m < k.len() && k[m] == s[i];
        assert(k[m] == (rank_of(g[m].severity) as i64, g[m]));
    }
    assert forall|i: int| 0 <= i < assessed(rs, context).len() implies grounded(
        risk_text(#[trigger] assessed(rs, context)[i]),
        context,
    ) by {
        assert(assessed(rs, context)[i] == s[i].1);
    }
    assert forall|i: int, j: int| 0 <= i <= j < assessed(rs, context).len() implies rank_of(
        assessed(rs, context)[i].severity,
    ) <= rank_of(assessed(rs, context)[j].severity) by {
        assert(assessed(rs, context)[i] == s[i].1);
        assert(assessed(rs, context)[j] == s[j].1);
    }
}

/// Whether a device with this id is declared deliberately offline.
pub open spec fn offline_declared(ds: Seq<DeviceModel>, id: Seq<char>) -> bool
    decreases ds.len(),
{
    if ds.len() == 0 {
        false
    } else {
        offline_declared(ds.drop_last(), id) || (ds.last().id == id && ds.last().expected_offline)
    }
}

/// The context lines of the probe results, in order.
pub open spec fn probe_items(rs: Seq<ResultModel>, ds: Seq<DeviceModel>) -> Seq<Seq<char>>
    decreases rs.len(),
{
    if rs.len() == 0 {
        seq![]
    } else {
        let r = rs.last();
        let rest = probe_items(rs.drop_last(), ds);
        match r.state {
            ProbeState::Down => if offline_declared(ds, r.id) {
                rest.push(r.desc + " is down, but deliberately offline — expected, not an incident"@)
            } else {
                rest.push(r.desc + " is DOWN ("@ + r.detail + ")"@)
            },
            ProbeState::Unverifiable => rest.push(r.desc + " is UNVERIFIABLE from the LAN"@),
            ProbeState::Up => rest,
        }
    }
}

pub open spec fn any_power_estimate(ds: Seq<DeviceModel>) -> bool
    decreases ds.len(),
{
    ds.len() > 0 && (any_power_estimate(ds.drop_last()) || ds.last().power_estimate)
}

pub open spec fn any_estimate(items: Seq<CapexModel>) -> bool
    decreases items.len(),
{
    items.len() > 0 && (any_estimate(items.drop_last()) || items.last().basis == "estimate"@)
}

/// The gap lines of one device.
pub open spec fn device_gaps(d: DeviceModel) -> Seq<Seq<char>> {
    (if (match d.source_of_truth {
        Some(s) => s,
        None => "none"@,
    }) == "none"@ {
        seq![d.name + " is not registered in the Backstage catalog."@]
    } else {
        seq![]
    }) + (if d.ssh is None {
        seq![d.name + " has no sweep credentials — its hardware facts are unverified."@]
    } else {
        seq![]
    })
}

pub open spec fn device_items(ds: Seq<DeviceModel>) -> Seq<Seq<char>>
    decreases ds.len(),
{
    if ds.len() == 0 {
        seq![]
    } else {
        device_items(ds.drop_last()) + device_gaps(ds.last())
    }
}

/// The computed problem/gap context: one line per fact observed or declared.
pub open spec fn context_text(rs: Seq<ResultModel>, ds: Seq<DeviceModel>, items: Seq<CapexModel>) -> Seq<char> {
    join(
        probe_items(rs, ds) + (if any_power_estimate(ds) {
            seq!["Power draw is TDP-modeled, not metered (no PDU metering)."@]
        } else {
            seq![]
        }) + (if any_estimate(items) {
            seq!["Capex is seeded with estimates; no invoices recorded yet."@]
        } else {
            seq![]
        }) + device_items(ds),
        "\n"@,
    )
}

/// True when a probe's target device (joined by id) is declared
/// `expected_offline` — a down state for it is by design, not a fault.
pub fn is_expected_offline(devices: &DevicesFile, probe_id: &str) -> (r: bool)
    ensures
        r == offline_declared(seq_views(devices.device@), probe_id@),
{
    let ghost ds = seq_views(devices.device@);
    let id = chars_of(probe_id);
    let mut found = false;
    let mut i: usize = 0;
    while i < devices.device.len()
        invariant
            i <= devices.device@.len(),
            ds == seq_views(devices.device@),
            id@ == probe_id@,
            found == offline_declared(ds.take(i as int), probe_id@),
        decreases devices.device@.len() - i,
    {
        let d = &devices.device[i];
        assert(ds.take(i + 1).drop_last() =~= ds.take(i as int));
        assert(ds.take(i + 1).last() == d@);
        if eq_chars(chars_of(d.id.as_str()).as_slice(), id.as_slice()) && d.expected_offline {
            found = true;
        }
        i = i + 1;
    }
    assert(ds.take(i as int) =~= ds);
    found
}

fn probe_lines(snapshot: &Snapshot, devices: &DevicesFile) -> (r: Vec<Vec<char>>)
    ensures
        views(r@) == probe_items(seq_views(snapshot.results@), seq_views(devices.device@)),
{
    let ghost rs = seq_views(snapshot.results@);
    let ghost ds = seq_views(devices.device@);
    let mut out: Vec<Vec<char>> = Vec::new();
    let mut i: usize = 0;
    while i < snapshot.results.len()
        invariant
            i <= snapshot.results@.len(),
            rs == seq_views(snapshot.results@),
            ds == seq_views(devices.device@),
            views(out@) == probe_items(rs.take(i as int), ds),
        decreases snapshot.results@.len() - i,
    {
        let r = &snapshot.results[i];
        assert(rs.take(i + 1).drop_last() =~= rs.take(i as int));
        assert(rs.take(i + 1).last() == r@);
        let ghost prev = views(out@);
        match r.state {
            ProbeState::Down => {
                let mut t = chars_of(r.desc.as_str());
                if is_expected_offline(devices, r.id.as_str()) {
                    put(&mut t, " is down, but deliberately offline — expected, not an incident");
                } else {
                    put(&mut t, " is DOWN (");
                    put_chars(&mut t, chars_of(r.detail.as_str()).as_slice());
                    put(&mut t, ")");
                }
                out.push(t);
                assert(views(out@) =~= prev.push(t@));
            },
            ProbeState::Unverifiable => {
                let mut t = chars_of(r.desc.as_str());
                put(&mut t, " is UNVERIFIABLE from the LAN");
                out.push(t);
                assert(views(out@) =~= prev.push(t@));
            },
            ProbeState::Up => {},
        }
        i = i + 1;
    }
    assert(rs.take(i as int) =~= rs);
    out
}

fn device_lines(devices: &DevicesFile) -> (r: Vec<Vec<char>>)
    ensures
        views(r@) == device_items(seq_views(devices.device@)),
{
    let ghost ds = seq_views(devices.device@);
    let none = chars_of("none");
    let mut out: Vec<Vec<char>> = Vec::new();
    let mut i: usize = 0;
    while i < devices.device.len()
        invariant
            i <= devices.device@.len(),
            ds == seq_views(devices.device@),
            none@ == "none"@,
            views(out@) == device_items(ds.take(i as int)),
        decreases devices.device@.len() - i,
    {
        let d = &devices.device[i];
        assert(ds.take(i + 1).drop_last() =~= ds.take(i as int));
        assert(ds.take(i + 1).last() == d@);
        let ghost prev = views(out@);
        let sot: Vec<char> = match &d.source_of_truth {
            Some(x) => chars_of(x.as_str()),
            None => chars_of("none"),
        };
        if eq_chars(sot.as_slice(), none.as_slice()) {
            let mut t = chars_of(d.name.as_str());
            put(&mut t, " is not registered in the Backstage catalog.");
            out.push(t);
        }
        let ghost mid = views(out@);
        if d.ssh.is_none() {
            let mut t = chars_of(d.name.as_str());
            put(&mut t, " has no sweep credentials — its hardware facts are unverified.");
            out.push(t);
        }
        assert(views(out@) =~= prev + device_gaps(d@));
        i = i + 1;
    }
    assert(ds.take(i as int) =~= ds);
    out
}

/// Builds the computed problem/gap context from real data. The provider
/// ranks and phrases; every line here is a fact observed or declared.
pub fn problem_context(snapshot: &Snapshot, devices: &DevicesFile, capex: &CapexFile) -> (r: String)
    ensures
        r@ == context_text(seq_views(snapshot.results@), seq_views(devices.device@), seq_views(capex.item@)),
{
    let ghost ds = seq_views(devices.device@);
    let ghost cs = seq_views(capex.item@);
    let mut items = probe_lines(snapshot, devices);
    let mut power = false;
    let mut i: usize = 0;
    while i < devices.device.len()
        invariant
            i <= devices.device@.len(),
            ds == seq_views(devices.device@),
            power == any_power_estimate(ds.take(i as int)),
        decreases devices.device@.len() - i,
    {
        assert(ds.take(i + 1).drop_last() =~= ds.take(i as int));
        assert(ds.take(i + 1).last() == devices.device@[i as int]@);
        power = power || devices.device[i].power_estimate;
        i = i + 1;
    }
    assert(ds.take(i as int) =~= ds);
    if power {
        items.push(chars_of("Power draw is TDP-modeled, not metered (no PDU metering)."));
    }
    let mut estimate = false;
    let est = chars_of("estimate");
    let mut k: usize = 0;
    while k < capex.item.len()
        invariant
            k <= capex.item@.len(),
            cs == seq_views(capex.item@),
            est@ == "estimate"@,
            estimate == any_estimate(cs.take(k as int)),
        decreases capex.item@.len() - k,
    {
        assert(cs.take(k + 1).drop_last() =~= cs.take(k as int));
        assert(cs.take(k + 1).last() == capex.item@[k as int]@);
        let e = eq_chars(chars_of(capex.item[k].basis.as_str()).as_slice(), est.as_slice());
        estimate = estimate || e;
        k = k + 1;
    }
    assert(cs.take(k as int) =~= cs);
    if estimate {
        items.push(chars_of("Capex is seeded with estimates; no invoices recorded yet."));
    }
    crate::text::put_lines(&mut items, device_lines(devices));
    assert(views(items@) =~= probe_items(seq_views(snapshot.results@), ds) + (if any_power_estimate(ds) {
        seq!["Power draw is TDP-modeled, not metered (no PDU metering)."@]
    } else {
        seq![]
    }) + (if any_estimate(cs) {
        seq!["Capex is seeded with estimates; no invoices recorded yet."@]
    } else {
        seq![]
    }) + device_items(ds));
    string_from(join_of(&items, chars_of("\n").as_slice()).as_slice())
}

/// Generates the prioritized risk register. Empty when there is no provider,
/// no problems to assess, or the provider returns nothing usable.
pub fn generate_blocking(
    provider: Option<&dyn NarrativeProvider>,
    snapshot: &Snapshot,
    devices: &DevicesFile,
    capex: &CapexFile,
) -> (r: Vec<Risk>)
    ensures
        provider is None ==> r@.len() == 0,
        provider is Some && context_text(seq_views(snapshot.results@), seq_views(devices.device@), seq_views(capex.item@)).len()
            == 0 ==> r@.len() == 0,
        ({
            let ctx = context_text(seq_views(snapshot.results@), seq_views(devices.device@), seq_views(capex.item@));
            provider is Some && ctx.len() > 0 ==> exists|d: Option<Seq<char>>|
                #![trigger register_of(d, ctx)]
                (match d {
                    Some(a) => provider->0.may_draft_json(RISK_INSTRUCTION@, ctx, RISK_SCHEMA@, a),
                    None => true,
                }) && seq_views(r@) == register_of(d, ctx)
        }),
        forall|i: int| 0 <= i < r@.len() ==> grounded(
            risk_text(#[trigger] r@[i]@),
            context_text(seq_views(snapshot.results@), seq_views(devices.device@), seq_views(capex.item@)),
        ),
        forall|i: int, j: int| 0 <= i <= j < r@.len() ==> rank_of(r@[i].severity) <= rank_of(r@[j].severity),
{
    match provider {
        Some(p) => {
            let context = problem_context(snapshot, devices, capex);
            assess(p, context.as_str())
        },
        None => Vec::new(),
    }
}

/// The register table's rows.
pub open spec fn risk_row(r: RiskModel) -> Seq<char> {
    esc_spec(r.title) + " & "@ + badge_of(r.severity) + " & "@ + esc_spec(r.recommendation) + " \\\\"@
}

/// The register section, or nothing when there are no risks.
pub open spec fn register_text(rs: Seq<RiskModel>) -> Seq<char> {
    if rs.len() == 0 {
        seq![]
    } else {
        "\n\\section{Risk Register}\nPrioritized from the observed status and declared gaps — the model ranks and recommends; the facts are rollcall's.\n\n\\begin{tabularx}{\\textwidth}{X l X}\n\\toprule\n\\textbf{Risk} & \\textbf{Severity} & \\textbf{Recommendation} \\\\\n\\midrule\n"@
            + join(rs.map_values(|r: RiskModel| risk_row(r)), "\n"@) + "\n\\bottomrule\n\\end{tabularx}\n"@
    }
}

/// Renders the risk register as a styled section, or an empty string when
/// there are no risks (so the caller can splice it unconditionally).
pub fn render(risks: &[Risk]) -> (r: String)
    ensures
        r@ == register_text(seq_views(risks@)),
{
    let ghost rs = seq_views(risks@);
    if risks.len() == 0 {
        return string_from(Vec::<char>::new().as_slice());
    }
    let mut rows: Vec<Vec<char>> = Vec::new();
    let mut i: usize = 0;
    while i < risks.len()
        invariant
            i <= risks@.len(),
            rs == seq_views(risks@),
            views(rows@) == rs.take(i as int).map_values(|r: RiskModel| risk_row(r)),
        decreases risks@.len() - i,
    {
        let r = &risks[i];
        assert(rs[i as int] == r@);
        let mut t = esc_chars(chars_of(r.title.as_str()).as_slice());
        put(&mut t, " & ");
        put(&mut t, r.severity.badge());
        put(&mut t, " & ");
        put_chars(&mut t, esc_chars(chars_of(r.recommendation.as_str()).as_slice()).as_slice());
        put(&mut t, " \\\\");
        let ghost prev = views(rows@);
        rows.push(t);
        assert(views(rows@) =~= prev.push(t@));
        assert(rs.take(i + 1).map_values(|r: RiskModel| risk_row(r)) =~= rs.take(i as int).map_values(
            |r: RiskModel| risk_row(r),
        ).push(risk_row(rs[i as int])));
        i = i + 1;
    }
    assert(rs.take(i as int) =~= rs);
    let mut t = chars_of(
        "\n\\section{Risk Register}\nPrioritized from the observed status and declared gaps — the model ranks and recommends; the facts are rollcall's.\n\n\\begin{tabularx}{\\textwidth}{X l X}\n\\toprule\n\\textbf{Risk} & \\textbf{Severity} & \\textbf{Recommendation} \\\\\n\\midrule\n",
    );
    put_chars(&mut t, join_of(&rows, chars_of("\n").as_slice()).as_slice());
    put(&mut t, "\n\\bottomrule\n\\end{tabularx}\n");
    string_from(t.as_slice())
}

} // verus!
