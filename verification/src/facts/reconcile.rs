//! Declared-vs-actual comparison: every check lands as ok, drift, or
//! unverified. Reconciliation emits findings; it never applies changes.

use vstd::prelude::*;
use crate::text::{
    before_slash, before_slash_of, chars_of, contains, contains_of, debug_quoted, debug_text,
    eq_chars, filter_map, first_match, fmt_i64, has_alpha, has_alpha_of, has_digit,
    has_digit_of, int_text, join, join_of, lemma_first_match_at, model_token_index, seq_views,
    string_from, token_spans, tokens, tokens_of, views,
};
use crate::facts::schema::{
    kind_prefix, AccessState, AddressModel, FactsFile, GpuModel, GuestModel, HostFacts,
    HostFactsModel, HostReport,
};
use crate::inventory::devices::{AcceleratorModel, Device, DeviceModel, DevicesFile};
use crate::inventory::workloads::{GuestPlacement, PlacementModel, WorkloadsFile};

verus! {

/// Outcome of one check on one device.
#[derive(Debug, Clone, Copy, PartialEq, Eq, Structural)]
pub enum CheckState {
    /// Declared and observed agree.
    Okay,
    /// Declared and observed disagree.
    Drift,
    /// No evidence available (no access, host down, field not observable).
    Unverified,
}

/// The label a check state prints as.
pub open spec fn state_label(s: CheckState) -> Seq<char> {
    match s {
        CheckState::Okay => "ok"@,
        CheckState::Drift => "DRIFT"@,
        CheckState::Unverified => "unverified"@,
    }
}

impl CheckState {
    /// The label the state prints as (`ok`, `DRIFT`, `unverified`).
    pub fn label(self) -> (r: &'static str)
        ensures
            r@ == state_label(self),
    {
        match self {
            CheckState::Okay => "ok",
            CheckState::Drift => "DRIFT",
            CheckState::Unverified => "unverified",
        }
    }
}

/// One check result.
#[derive(Debug, Clone)]
pub struct CheckResult {
    /// Device id the check ran against.
    pub device: String,
    /// Check name (`motherboard`, `ram_gb`, `guests`, …).
    pub check: String,
    /// Outcome.
    pub state: CheckState,
    /// Human-readable evidence for the outcome.
    pub detail: String,
}

/// The abstract content of a [`CheckResult`].
#[verifier::ext_equal]
pub struct CheckModel {
    pub device: Seq<char>,
    pub check: Seq<char>,
    pub state: CheckState,
    pub detail: Seq<char>,
}

impl View for CheckResult {
    type V = CheckModel;

    open spec fn view(&self) -> CheckModel {
        CheckModel {
            device: self.device@,
            check: self.check@,
            state: self.state,
            detail: self.detail@,
        }
    }
}

/// The abstract content of a [`HostReport`].
#[verifier::ext_equal]
pub struct ReportModel {
    pub id: Seq<char>,
    pub access: AccessState,
    pub error: Option<Seq<char>>,
    pub facts: Option<HostFactsModel>,
}

impl View for HostReport {
    type V = ReportModel;

    open spec fn view(&self) -> ReportModel {
        ReportModel {
            id: self.id@,
            access: self.access,
            error: self.error.deep_view(),
            facts: match self.facts {
                Some(f) => Some(f@),
                None => None,
            },
        }
    }
}

pub open spec fn mk(dev: Seq<char>, check: Seq<char>, state: CheckState, detail: Seq<char>) -> CheckModel {
    CheckModel { device: dev, check, state, detail }
}

/// A field check: nothing when nothing is declared; unverified when the
/// field was not observed; otherwise ok or drift as `matches` says.
pub open spec fn check_of(
    dev: Seq<char>,
    name: Seq<char>,
    declared: Option<Seq<char>>,
    observed: Option<Seq<char>>,
    matches: bool,
) -> Seq<CheckModel> {
    match declared {
        None => seq![],
        Some(d) => match observed {
            None => seq![
                mk(dev, name, CheckState::Unverified, "declared "@ + debug_text(d) + ", not observable"@),
            ],
            Some(o) => if matches {
                seq![mk(dev, name, CheckState::Okay, debug_text(d) + " ≙ "@ + debug_text(o))]
            } else {
                seq![
                    mk(
                        dev,
                        name,
                        CheckState::Drift,
                        "declared "@ + debug_text(d) + ", observed "@ + debug_text(o),
                    ),
                ]
            },
        },
    }
}

/// Both present, and the needle occurs in the haystack.
pub open spec fn matches_contains(haystack: Option<Seq<char>>, needle: Option<Seq<char>>) -> bool {
    match (haystack, needle) {
        (Some(h), Some(n)) => contains(h, n),
        _ => false,
    }
}

/// Every address of every interface, in order.
pub open spec fn flat_addrs(a: Seq<AddressModel>) -> Seq<Seq<char>>
    decreases a.len(),
{
    if a.len() == 0 {
        seq![]
    } else {
        flat_addrs(a.drop_last()) + a.last().addresses
    }
}

/// The observed addresses without their masks, comma-joined.
pub open spec fn all_addresses(f: HostFactsModel) -> Seq<char> {
    join(flat_addrs(f.addresses).map_values(|c: Seq<char>| before_slash(c)), ", "@)
}

/// Some interface carries the address (mask ignored).
pub open spec fn has_address(f: HostFactsModel, wanted: Seq<char>) -> bool {
    exists|i: int|
        0 <= i < flat_addrs(f.addresses).len() && before_slash(#[trigger] flat_addrs(f.addresses)[i])
            == wanted
}

/// The model-number token of a declared accelerator model.
pub open spec fn model_token_of(m: Seq<char>) -> Option<Seq<char>> {
    match model_token_index(tokens(m)) {
        Some(k) => Some(tokens(m)[k]),
        None => None,
    }
}

/// GPUs whose name contains the token.
pub open spec fn gpu_count(g: Seq<GpuModel>, tok: Seq<char>) -> int
    decreases g.len(),
{
    if g.len() == 0 {
        0
    } else {
        gpu_count(g.drop_last(), tok) + if contains(g.last().name, tok) {
            1int
        } else {
            0int
        }
    }
}

/// Some GPU name or PCI line contains the token.
pub open spec fn seen_anywhere(f: HostFactsModel, tok: Seq<char>) -> bool {
    (exists|i: int| 0 <= i < f.gpus.len() && contains(#[trigger] f.gpus[i].name, tok)) || (exists|
        i: int,
    |
        0 <= i < f.pci_devices.len() && contains(#[trigger] f.pci_devices[i], tok))
}

/// The accelerator count observed: GPUs per unit, else 1 when a PCI-only
/// device (FPGA) appears at all.
pub open spec fn observed_count(f: HostFactsModel, tok: Seq<char>) -> i64 {
    let gm = gpu_count(f.gpus, tok) as i64;
    if gm > 0 {
        gm
    } else if seen_anywhere(f, tok) {
        1
    } else {
        0
    }
}

/// One accelerator check.
pub open spec fn accel_check(dev: Seq<char>, a: AcceleratorModel, f: HostFactsModel) -> CheckModel {
    match model_token_of(a.model) {
        None => mk(
            dev,
            "accelerator"@,
            CheckState::Unverified,
            "no matchable model token in "@ + debug_text(a.model),
        ),
        Some(tok) => {
            let obs = observed_count(f, tok);
            if obs == a.count {
                mk(dev, "accelerator"@, CheckState::Okay, int_text(a.count as int) + "x "@ + tok + " observed"@)
            } else {
                mk(
                    dev,
                    "accelerator"@,
                    CheckState::Drift,
                    "declared "@ + int_text(a.count as int) + "x "@ + tok + ", observed "@ + int_text(obs as int),
                )
            }
        },
    }
}

/// A declared guest entry: its id token and name token (or empty).
pub open spec fn declared_entry(e: Seq<char>) -> Option<(Seq<char>, Seq<char>)> {
    let t = tokens(e);
    if t.len() == 0 {
        None
    } else {
        Some((
            t[0],
            if t.len() > 1 {
                t[1]
            } else {
                seq![]
            },
        ))
    }
}

/// A guest's id as placement strings write it (`VM101`).
pub open spec fn guest_id(g: GuestModel) -> Seq<char> {
    kind_prefix(g.kind) + int_text(g.vmid as int)
}

/// The finding for one declared guest, if any.
pub open spec fn declared_drift(d: (Seq<char>, Seq<char>), gs: Seq<GuestModel>) -> Seq<Seq<char>> {
    match first_match(gs, |g: GuestModel| guest_id(g) == d.0) {
        None => seq![d.0 + " "@ + d.1 + " declared but absent"@],
        Some(k) => if d.1.len() > 0 && gs[k].name != d.1 {
            seq![d.0 + " declared as "@ + debug_text(d.1) + ", hypervisor says "@ + debug_text(gs[k].name)]
        } else {
            seq![]
        },
    }
}

pub open spec fn declared_drifts(ds: Seq<(Seq<char>, Seq<char>)>, gs: Seq<GuestModel>) -> Seq<Seq<char>>
    decreases ds.len(),
{
    if ds.len() == 0 {
        seq![]
    } else {
        declared_drifts(ds.drop_last(), gs) + declared_drift(ds.last(), gs)
    }
}

/// The finding for one observed guest the placement does not declare.
pub open spec fn undeclared_drift(g: GuestModel, ds: Seq<(Seq<char>, Seq<char>)>) -> Seq<Seq<char>> {
    if exists|i: int| 0 <= i < ds.len() && (#[trigger] ds[i]).0 == guest_id(g) {
        seq![]
    } else {
        seq![guest_id(g) + " "@ + g.name + " ("@ + g.status + ") present but undeclared"@]
    }
}

pub open spec fn undeclared_drifts(gs: Seq<GuestModel>, ds: Seq<(Seq<char>, Seq<char>)>) -> Seq<Seq<char>>
    decreases gs.len(),
{
    if gs.len() == 0 {
        seq![]
    } else {
        undeclared_drifts(gs.drop_last(), ds) + undeclared_drift(gs.last(), ds)
    }
}

/// The guest placement check: drift in both directions (declared but
/// absent, present but undeclared) and name mismatches.
pub open spec fn guest_check(dev: Seq<char>, p: PlacementModel, f: HostFactsModel) -> CheckModel {
    let ds = filter_map(p.guests, |e: Seq<char>| declared_entry(e));
    let drifts = declared_drifts(ds, f.guests) + undeclared_drifts(f.guests, ds);
    if drifts.len() == 0 {
        mk(
            dev,
            "guests"@,
            CheckState::Okay,
            int_text(ds.len() as int) + " declared guests all placed as observed"@,
        )
    } else {
        mk(dev, "guests"@, CheckState::Drift, join(drifts, "; "@))
    }
}

pub open spec fn accel_checks(dev: Seq<char>, a: Seq<AcceleratorModel>, f: HostFactsModel) -> Seq<CheckModel> {
    a.map_values(|x: AcceleratorModel| accel_check(dev, x, f))
}

pub open spec fn gb_text(v: Option<i64>) -> Option<Seq<char>> {
    match v {
        Some(n) => Some(int_text(n as int) + " GB"@),
        None => None,
    }
}

/// The board, CPU and RAM checks.
pub open spec fn field_part(d: DeviceModel, f: HostFactsModel) -> Seq<CheckModel> {
    check_of(d.id, "motherboard"@, d.motherboard, f.motherboard, d.motherboard == f.motherboard)
        + check_of(d.id, "cpu_model"@, d.cpu_model, f.cpu_model, matches_contains(f.cpu_model, d.cpu_model))
        + check_of(d.id, "ram_gb"@, gb_text(d.ram_gb), gb_text(f.ram_installed_gb), d.ram_gb == f.ram_installed_gb)
}

/// The fabric HCA and address checks.
pub open spec fn net_part(d: DeviceModel, f: HostFactsModel) -> Seq<CheckModel> {
    let hay = join(f.pci_devices, "; "@);
    let all = all_addresses(f);
    check_of(
        d.id,
        "fabric_hca"@,
        d.fabric_hca,
        if hay.len() > 0 {
            Some(hay)
        } else {
            None
        },
        matches_contains(Some(hay), d.fabric_hca),
    ) + check_of(
        d.id,
        "ip_lan"@,
        d.ip_lan,
        Some(all),
        d.ip_lan is Some && has_address(f, d.ip_lan->0),
    ) + (match d.ip_fabric {
        Some(fab) => check_of(d.id, "ip_fabric"@, Some(fab), Some(all), has_address(f, fab)),
        None => seq![],
    })
}

/// The checks of a device whose sweep succeeded.
pub open spec fn device_checks(d: DeviceModel, f: HostFactsModel, p: Option<PlacementModel>) -> Seq<CheckModel> {
    field_part(d, f) + net_part(d, f) + accel_checks(d.id, d.accelerator, f) + (match p {
        Some(pl) => seq![guest_check(d.id, pl, f)],
        None => seq![],
    })
}

/// Everything the reconciler reports about one device.
pub open spec fn device_results(d: DeviceModel, r: Option<ReportModel>, p: Option<PlacementModel>) -> Seq<CheckModel> {
    match r {
        Some(rep) => if rep.access == AccessState::Okay && rep.facts is Some {
            device_checks(d, rep.facts->0, p)
        } else if rep.access == AccessState::Failed && rep.error is Some {
            seq![mk(d.id, "access"@, CheckState::Unverified, "sweep failed: "@ + rep.error->0)]
        } else if rep.access == AccessState::NoSshConfigured {
            seq![mk(d.id, "access"@, CheckState::Unverified, "no ssh target configured"@)]
        } else {
            seq![mk(d.id, "access"@, CheckState::Unverified, "device absent from the fact sweep"@)]
        },
        None => seq![mk(d.id, "access"@, CheckState::Unverified, "device absent from the fact sweep"@)],
    }
}

fn lit(s: &str) -> (r: Vec<char>)
    ensures
        r@ == s@,
{
    chars_of(s)
}

fn cat(a: &[char], b: &[char]) -> (r: Vec<char>)
    ensures
        r@ == a@ + b@,
{
    let mut v = vstd::slice::slice_to_vec(a);
    v.extend_from_slice(b);
    assert(v@ =~= a@ + b@);
    v
}

fn opt_chars(o: &Option<String>) -> (r: Option<Vec<char>>)
    ensures
        crate::text::opt_view(r) == o.deep_view(),
{
    match o {
        Some(s) => Some(chars_of(s.as_str())),
        None => None,
    }
}

fn result(dev: &[char], check: &[char], state: CheckState, detail: &[char]) -> (r: CheckResult)
    ensures
        r@ == mk(dev@, check@, state, detail@),
{
    CheckResult {
        device: string_from(dev),
        check: string_from(check),
        state,
        detail: string_from(detail),
    }
}

/// Records a field check (nothing when nothing is declared).
fn push_check(
    out: &mut Vec<CheckResult>,
    dev: &[char],
    name: &str,
    declared: Option<Vec<char>>,
    observed: Option<Vec<char>>,
    matches: bool,
)
    ensures
        seq_views(final(out)@) == seq_views(old(out)@) + check_of(
            dev@,
            name@,
            crate::text::opt_view(declared),
            crate::text::opt_view(observed),
            matches,
        ),
{
    let ghost before = seq_views(out@);
    let n = lit(name);
    match declared {
        None => {
            assert(seq_views(out@) =~= before + Seq::<CheckModel>::empty());
        },
        Some(d) => {
            let dq = debug_quoted(d.as_slice());
            let r = match observed {
                None => {
                    let t = cat(cat(lit("declared ").as_slice(), dq.as_slice()).as_slice(), lit(", not observable").as_slice());
                    result(dev, n.as_slice(), CheckState::Unverified, t.as_slice())
                },
                Some(o) => {
                    let oq = debug_quoted(o.as_slice());
                    if matches {
                        let t = cat(cat(dq.as_slice(), lit(" ≙ ").as_slice()).as_slice(), oq.as_slice());
                        result(dev, n.as_slice(), CheckState::Okay, t.as_slice())
                    } else {
                        let t = cat(
                            cat(cat(lit("declared ").as_slice(), dq.as_slice()).as_slice(), lit(", observed ").as_slice()).as_slice(),
                            oq.as_slice(),
                        );
                        result(dev, n.as_slice(), CheckState::Drift, t.as_slice())
                    }
                },
            };
            out.push(r);
            assert(seq_views(out@) =~= before.push(r@));
        },
    }
}

fn matches_contains_of(haystack: &Option<Vec<char>>, needle: &Option<Vec<char>>) -> (r: bool)
    ensures
        r == matches_contains(crate::text::opt_view(*haystack), crate::text::opt_view(*needle)),
{
    match (haystack, needle) {
        (Some(h), Some(n)) => contains_of(h.as_slice(), n.as_slice()),
        _ => false,
    }
}

/// Every address of every interface, in order.
fn flat_addresses(facts: &HostFacts) -> (r: Vec<Vec<char>>)
    ensures
        views(r@) == flat_addrs(facts@.addresses),
{
    let mut out: Vec<Vec<char>> = Vec::new();
    let mut i: usize = 0;
    let ghost am = facts@.addresses;
    assert(views(out@) =~= flat_addrs(am.take(0)));
    while i < facts.addresses.len()
        invariant
            i <= facts.addresses@.len(),
            am == facts@.addresses,
            am.len() == facts.addresses@.len(),
            views(out@) == flat_addrs(am.take(i as int)),
        decreases facts.addresses@.len() - i,
    {
        let a = &facts.addresses[i];
        assert(am[i as int] == a@);
        let ghost base = views(out@);
        let mut j: usize = 0;
        assert(views(out@) =~= base + a@.addresses.take(0));
        while j < a.addresses.len()
            invariant
                j <= a.addresses@.len(),
                a@.addresses == a.addresses.deep_view(),
                views(out@) == base + a@.addresses.take(j as int),
            decreases a.addresses@.len() - j,
        {
            let ghost prev = views(out@);
            let c = chars_of(a.addresses[j].as_str());
            out.push(c);
            assert(views(out@) =~= prev.push(c@));
            assert(a@.addresses[j as int] == a.addresses@[j as int]@);
            assert(views(out@) =~= base + a@.addresses.take(j + 1));
            j = j + 1;
        }
        assert(a@.addresses.take(j as int) =~= a@.addresses);
        assert(am.take(i + 1).drop_last() =~= am.take(i as int));
        i = i + 1;
    }
    assert(am.take(i as int) =~= am);
    out
}

fn all_addresses_of(flat: &Vec<Vec<char>>) -> (r: Vec<char>)
    ensures
        r@ == join(views(flat@).map_values(|c: Seq<char>| before_slash(c)), ", "@),
{
    let mut bare: Vec<Vec<char>> = Vec::new();
    let mut i: usize = 0;
    while i < flat.len()
        invariant
            i <= flat@.len(),
            views(bare@) == views(flat@).take(i as int).map_values(|c: Seq<char>| before_slash(c)),
        decreases flat@.len() - i,
    {
        let ghost prev = views(bare@);
        let b = before_slash_of(flat[i].as_slice());
        bare.push(b);
        assert(views(bare@) =~= prev.push(b@));
        assert(views(flat@)[i as int] == flat@[i as int]@);
        assert(views(bare@) =~= views(flat@).take(i + 1).map_values(|c: Seq<char>| before_slash(c)));
        i = i + 1;
    }
    assert(views(flat@).take(i as int) =~= views(flat@));
    join_of(&bare, lit(", ").as_slice())
}

fn has_address_of(flat: &Vec<Vec<char>>, wanted: &[char]) -> (r: bool)
    ensures
        r == exists|i: int| 0 <= i < views(flat@).len() && before_slash(#[trigger] views(flat@)[i]) == wanted@,
{
    let mut i: usize = 0;
    while i < flat.len()
        invariant
            i <= flat@.len(),
            forall|j: int| 0 <= j < i ==> before_slash(#[trigger] views(flat@)[j]) != wanted@,
        decreases flat@.len() - i,
    {
        let b = before_slash_of(flat[i].as_slice());
        assert(views(flat@)[i as int] == flat@[i as int]@);
        if eq_chars(b.as_slice(), wanted) {
            return true;
        }
        i = i + 1;
    }
    false
}

/// Extracts the model-number token used to match a declared accelerator
/// against observed device names: the first token mixing letters and
/// digits (`V100`, `U200`), else the first token containing a digit
/// (`4090`).
pub fn model_token(declared_model: &str) -> (r: Option<&str>)
    ensures
        match r {
            Some(t) => model_token_of(declared_model@) == Some(t@),
            None => model_token_of(declared_model@) is None,
        },
{
    let text = chars_of(declared_model);
    let spans = token_spans(text.as_slice());
    let ghost toks = tokens(text@);
    let ghost p1 = |t: Seq<char>| has_alpha(t) && has_digit(t);
    let ghost p2 = |t: Seq<char>| has_digit(t);
    let mut k: usize = 0;
    while k < spans.len()
        invariant
            k <= spans@.len(),
            spans@.len() == toks.len(),
            toks == tokens(text@),
            text@ == declared_model@,
            p1 == (|t: Seq<char>| has_alpha(t) && has_digit(t)),
            forall|m: int| 0 <= m < spans@.len() ==> #[trigger] spans@[m].0 <= spans@[m].1 <= text@.len()
                && text@.subrange(spans@[m].0 as int, spans@[m].1 as int) == toks[m],
            forall|m: int| 0 <= m < k ==> !p1(#[trigger] toks[m]),
        decreases spans@.len() - k,
    {
        let (a, b) = spans[k];
        let t = &text.as_slice()[a..b];
        assert(t@ == toks[k as int]);
        if has_alpha_of(t) && has_digit_of(t) {
            proof {
                lemma_first_match_at(toks, p1, k as int);
            }
            return Some(declared_model.substring_char(a, b));
        }
        k = k + 1;
    }
    proof {
        lemma_first_match_at(toks, p1, k as int);
    }
    let mut k: usize = 0;
    while k < spans.len()
        invariant
            k <= spans@.len(),
            spans@.len() == toks.len(),
            toks == tokens(text@),
            text@ == declared_model@,
            p2 == (|t: Seq<char>| has_digit(t)),
            p1 == (|t: Seq<char>| has_alpha(t) && has_digit(t)),
            first_match(toks, p1) is None,
            forall|m: int| 0 <= m < spans@.len() ==> #[trigger] spans@[m].0 <= spans@[m].1 <= text@.len()
                && text@.subrange(spans@[m].0 as int, spans@[m].1 as int) == toks[m],
            forall|m: int| 0 <= m < k ==> !p2(#[trigger] toks[m]),
        decreases spans@.len() - k,
    {
        let (a, b) = spans[k];
        let t = &text.as_slice()[a..b];
        assert(t@ == toks[k as int]);
        if has_digit_of(t) {
            proof {
                lemma_first_match_at(toks, p2, k as int);
            }
            return Some(declared_model.substring_char(a, b));
        }
        k = k + 1;
    }
    proof {
        lemma_first_match_at(toks, p2, k as int);
    }
    None
}

fn gpu_count_of(facts: &HostFacts, tok: &[char]) -> (r: usize)
    ensures
        r == gpu_count(facts@.gpus, tok@),
{
    let mut n: usize = 0;
    let mut i: usize = 0;
    let ghost g = facts@.gpus;
    while i < facts.gpus.len()
        invariant
            i <= facts.gpus@.len(),
            g == facts@.gpus,
            g.len() == facts.gpus@.len(),
            n == gpu_count(g.take(i as int), tok@),
            0 <= n <= i,
            i <= usize::MAX,
        decreases facts.gpus@.len() - i,
    {
        assert(g.take(i + 1).drop_last() =~= g.take(i as int));
        assert(g[i as int] == facts.gpus@[i as int]@);
        if contains_of(chars_of(facts.gpus[i].name.as_str()).as_slice(), tok) {
            n = n + 1;
        }
        i = i + 1;
    }
    assert(g.take(i as int) =~= g);
    n
}

fn seen_anywhere_of(facts: &HostFacts, tok: &[char]) -> (r: bool)
    ensures
        r == seen_anywhere(facts@, tok@),
{
    let mut i: usize = 0;
    while i < facts.gpus.len()
        invariant
            i <= facts.gpus@.len(),
            forall|j: int| 0 <= j < i ==> !contains(#[trigger] facts@.gpus[j].name, tok@),
        decreases facts.gpus@.len() - i,
    {
        assert(facts@.gpus[i as int] == facts.gpus@[i as int]@);
        if contains_of(chars_of(facts.gpus[i].name.as_str()).as_slice(), tok) {
            assert(contains(facts@.gpus[i as int].name, tok@));
            return true;
        }
        i = i + 1;
    }
    let mut j: usize = 0;
    while j < facts.pci_devices.len()
        invariant
            j <= facts.pci_devices@.len(),
            forall|m: int| 0 <= m < facts@.gpus.len() ==> !contains(#[trigger] facts@.gpus[m].name, tok@),
            forall|m: int| 0 <= m < j ==> !contains(#[trigger] facts@.pci_devices[m], tok@),
        decreases facts.pci_devices@.len() - j,
    {
        assert(facts@.pci_devices[j as int] == facts.pci_devices@[j as int]@);
        if contains_of(chars_of(facts.pci_devices[j].as_str()).as_slice(), tok) {
            assert(contains(facts@.pci_devices[j as int], tok@));
            return true;
        }
        j = j + 1;
    }
    false
}

fn accel_check_of(dev: &[char], a: &crate::inventory::devices::Accelerator, facts: &HostFacts) -> (r: CheckResult)
    ensures
        r@ == accel_check(dev@, a@, facts@),
{
    let name = lit("accelerator");
    match model_token(a.model.as_str()) {
        None => {
            let t = cat(lit("no matchable model token in ").as_slice(), debug_quoted(chars_of(a.model.as_str()).as_slice()).as_slice());
            result(dev, name.as_slice(), CheckState::Unverified, t.as_slice())
        },
        Some(token) => {
            let tok = chars_of(token);
            let gm = gpu_count_of(facts, tok.as_slice()) as i64;
            let observed: i64 = if gm > 0 {
                gm
            } else if seen_anywhere_of(facts, tok.as_slice()) {
                1
            } else {
                0
            };
            let count = fmt_i64(a.count);
            if observed == a.count {
                let t = cat(cat(cat(count.as_slice(), lit("x ").as_slice()).as_slice(), tok.as_slice()).as_slice(), lit(" observed").as_slice());
                result(dev, name.as_slice(), CheckState::Okay, t.as_slice())
            } else {
                let t = cat(
                    cat(
                        cat(cat(cat(lit("declared ").as_slice(), count.as_slice()).as_slice(), lit("x ").as_slice()).as_slice(), tok.as_slice()).as_slice(),
                        lit(", observed ").as_slice(),
                    ).as_slice(),
                    fmt_i64(observed).as_slice(),
                );
                result(dev, name.as_slice(), CheckState::Drift, t.as_slice())
            }
        },
    }
}

fn guest_id_of(g: &crate::facts::schema::GuestFacts) -> (r: Vec<char>)
    ensures
        r@ == guest_id(g@),
{
    cat(lit(g.kind.prefix()).as_slice(), fmt_i64(g.vmid).as_slice())
}

fn declared_entries(p: &GuestPlacement) -> (r: Vec<(Vec<char>, Vec<char>)>)
    ensures
        crate::text::pair_views(r@) == filter_map(p@.guests, |e: Seq<char>| declared_entry(e)),
{
    let mut out: Vec<(Vec<char>, Vec<char>)> = Vec::new();
    let mut i: usize = 0;
    let ghost gs = p@.guests;
    let ghost f = |e: Seq<char>| declared_entry(e);
    assert(crate::text::pair_views(out@) =~= filter_map(gs.take(0), f));
    while i < p.guests.len()
        invariant
            i <= p.guests@.len(),
            gs == p@.guests,
            gs.len() == p.guests@.len(),
            f == (|e: Seq<char>| declared_entry(e)),
            crate::text::pair_views(out@) == filter_map(gs.take(i as int), f),
        decreases p.guests@.len() - i,
    {
        let ghost prev = out@;
        assert(gs.take(i + 1).drop_last() =~= gs.take(i as int));
        assert(gs[i as int] == p.guests@[i as int]@);
        let t = tokens_of(chars_of(p.guests[i].as_str()).as_slice());
        if t.len() > 0 {
            assert(views(t@)[0] == t@[0]@);
            let id = vstd::slice::slice_to_vec(t[0].as_slice());
            let name = if t.len() > 1 {
                assert(views(t@)[1] == t@[1]@);
                vstd::slice::slice_to_vec(t[1].as_slice())
            } else {
                Vec::new()
            };
            assert(t.len() <= 1 ==> name@ =~= Seq::<char>::empty());
            out.push((id, name));
            assert(crate::text::pair_views(out@) =~= crate::text::pair_views(prev).push((id@, name@)));
        }
        i = i + 1;
    }
    assert(gs.take(i as int) =~= gs);
    out
}

fn reconcile_guests(dev: &[char], p: &GuestPlacement, facts: &HostFacts) -> (r: CheckResult)
    ensures
        r@ == guest_check(dev@, p@, facts@),
{
    let declared = declared_entries(p);
    let ghost ds = crate::text::pair_views(declared@);
    let ghost gs = facts@.guests;
    let mut drifts: Vec<Vec<char>> = Vec::new();
    let mut i: usize = 0;
    assert(views(drifts@) =~= declared_drifts(ds.take(0), gs));
    while i < declared.len()
        invariant
            i <= declared@.len(),
            ds == crate::text::pair_views(declared@),
            ds.len() == declared@.len(),
            gs == facts@.guests,
            gs.len() == facts.guests@.len(),
            views(drifts@) == declared_drifts(ds.take(i as int), gs),
        decreases declared@.len() - i,
    {
        let ghost prev = views(drifts@);
        let id = declared[i].0.as_slice();
        let name = declared[i].1.as_slice();
        assert(ds[i as int] == (id@, name@));
        assert(ds.take(i + 1).drop_last() =~= ds.take(i as int));
        let ghost pred = |g: crate::facts::schema::GuestModel| guest_id(g) == id@;
        let mut k: usize = 0;
        while k < facts.guests.len()
            invariant
                k <= facts.guests@.len(),
                gs == facts@.guests,
                gs.len() == facts.guests@.len(),
                pred == (|g: crate::facts::schema::GuestModel| guest_id(g) == id@),
                forall|m: int| 0 <= m < k ==> !pred(#[trigger] gs[m]),
            ensures
                k <= facts.guests@.len(),
                forall|m: int| 0 <= m < k ==> !pred(#[trigger] gs[m]),
                k < facts.guests@.len() ==> pred(gs[k as int]),
            decreases facts.guests@.len() - k,
        {
            assert(gs[k as int] == facts.guests@[k as int]@);
            if eq_chars(guest_id_of(&facts.guests[k]).as_slice(), id) {
                break;
            }
            k = k + 1;
        }
        proof {
            lemma_first_match_at(gs, pred, k as int);
        }
        if k == facts.guests.len() {
            let t = cat(cat(cat(id, lit(" ").as_slice()).as_slice(), name).as_slice(), lit(" declared but absent").as_slice());
            drifts.push(t);
            assert(views(drifts@) =~= prev + declared_drift(ds[i as int], gs));
        } else {
            assert(gs[k as int] == facts.guests@[k as int]@);
            let gname = chars_of(facts.guests[k].name.as_str());
            if name.len() > 0 && !eq_chars(gname.as_slice(), name) {
                let t = cat(
                    cat(
                        cat(cat(id, lit(" declared as ").as_slice()).as_slice(), debug_quoted(name).as_slice()).as_slice(),
                        lit(", hypervisor says ").as_slice(),
                    ).as_slice(),
                    debug_quoted(gname.as_slice()).as_slice(),
                );
                drifts.push(t);
                assert(views(drifts@) =~= prev + declared_drift(ds[i as int], gs));
            } else {
                assert(views(drifts@) =~= prev + declared_drift(ds[i as int], gs));
            }
        }
        i = i + 1;
    }
    assert(ds.take(i as int) =~= ds);
    let ghost mid = views(drifts@);
    let mut j: usize = 0;
    assert(views(drifts@) =~= mid + undeclared_drifts(gs.take(0), ds));
    while j < facts.guests.len()
        invariant
            j <= facts.guests@.len(),
            ds == crate::text::pair_views(declared@),
            ds.len() == declared@.len(),
            gs == facts@.guests,
            gs.len() == facts.guests@.len(),
            views(drifts@) == mid + undeclared_drifts(gs.take(j as int), ds),
        decreases facts.guests@.len() - j,
    {
        let ghost prev = views(drifts@);
        let g = &facts.guests[j];
        assert(gs[j as int] == g@);
        assert(gs.take(j + 1).drop_last() =~= gs.take(j as int));
        let gid = guest_id_of(g);
        let mut m: usize = 0;
        while m < declared.len()
            invariant
                m <= declared@.len(),
                ds == crate::text::pair_views(declared@),
                ds.len() == declared@.len(),
                forall|q: int| 0 <= q < m ==> (#[trigger] ds[q]).0 != gid@,
            ensures
                m <= declared@.len(),
                forall|q: int| 0 <= q < m ==> (#[trigger] ds[q]).0 != gid@,
                m < declared@.len() ==> ds[m as int].0 == gid@,
            decreases declared@.len() - m,
        {
            assert(ds[m as int] == (declared@[m as int].0@, declared@[m as int].1@));
            if eq_chars(declared[m].0.as_slice(), gid.as_slice()) {
                break;
            }
            m = m + 1;
        }
        if m == declared.len() {
            let t = cat(
                cat(
                    cat(cat(cat(gid.as_slice(), lit(" ").as_slice()).as_slice(), chars_of(g.name.as_str()).as_slice()).as_slice(), lit(" (").as_slice()).as_slice(),
                    chars_of(g.status.as_str()).as_slice(),
                ).as_slice(),
                lit(") present but undeclared").as_slice(),
            );
            drifts.push(t);
            assert(views(drifts@) =~= prev + undeclared_drift(gs[j as int], ds));
        } else {
            assert(views(drifts@) =~= prev + undeclared_drift(gs[j as int], ds));
        }
        j = j + 1;
    }
    assert(gs.take(j as int) =~= gs);
    let name = lit("guests");
    if drifts.len() == 0 {
        let t = cat(crate::text::fmt_u64(declared.len() as u64).as_slice(), lit(" declared guests all placed as observed").as_slice());
        result(dev, name.as_slice(), CheckState::Okay, t.as_slice())
    } else {
        let t = join_of(&drifts, lit("; ").as_slice());
        result(dev, name.as_slice(), CheckState::Drift, t.as_slice())
    }
}

fn ram_text(v: Option<i64>) -> (r: Option<Vec<char>>)
    ensures
        crate::text::opt_view(r) == gb_text(v),
{
    match v {
        Some(n) => Some(cat(fmt_i64(n).as_slice(), lit(" GB").as_slice())),
        None => None,
    }
}

fn pci_chars(facts: &HostFacts) -> (r: Vec<Vec<char>>)
    ensures
        views(r@) == facts@.pci_devices,
{
    let mut pci: Vec<Vec<char>> = Vec::new();
    let mut i: usize = 0;
    while i < facts.pci_devices.len()
        invariant
            i <= facts.pci_devices@.len(),
            views(pci@) == facts@.pci_devices.take(i as int),
        decreases facts.pci_devices@.len() - i,
    {
        let ghost prev = views(pci@);
        let c = chars_of(facts.pci_devices[i].as_str());
        pci.push(c);
        assert(views(pci@) =~= prev.push(c@));
        assert(facts@.pci_devices[i as int] == facts.pci_devices@[i as int]@);
        assert(views(pci@) =~= facts@.pci_devices.take(i + 1));
        i = i + 1;
    }
    assert(facts@.pci_devices.take(i as int) =~= facts@.pci_devices);
    pci
}

fn field_checks(out: &mut Vec<CheckResult>, dev: &[char], device: &Device, facts: &HostFacts)
    requires
        dev@ == device@.id,
    ensures
        seq_views(final(out)@) == seq_views(old(out)@) + field_part(device@, facts@),
{
    let ghost o0 = seq_views(out@);
    let m = opt_chars(&facts.motherboard);
    let dm = opt_chars(&device.motherboard);
    let same_board = match (&dm, &m) {
        (Some(a), Some(b)) => eq_chars(a.as_slice(), b.as_slice()),
        (None, None) => true,
        _ => false,
    };
    push_check(out, dev, "motherboard", dm, m, same_board);
    let cpu = opt_chars(&facts.cpu_model);
    let dcpu = opt_chars(&device.cpu_model);
    let cpu_ok = matches_contains_of(&cpu, &dcpu);
    push_check(out, dev, "cpu_model", dcpu, cpu, cpu_ok);
    let same_ram = device.ram_gb == facts.ram_installed_gb;
    push_check(out, dev, "ram_gb", ram_text(device.ram_gb), ram_text(facts.ram_installed_gb), same_ram);
    assert(seq_views(out@) =~= o0 + field_part(device@, facts@));
}

fn network_checks(out: &mut Vec<CheckResult>, dev: &[char], device: &Device, facts: &HostFacts)
    requires
        dev@ == device@.id,
    ensures
        seq_views(final(out)@) == seq_views(old(out)@) + net_part(device@, facts@),
{
    let ghost o0 = seq_views(out@);
    let pci = pci_chars(facts);
    let hay = join_of(&pci, lit("; ").as_slice());
    let hay_some: Option<Vec<char>> = Some(vstd::slice::slice_to_vec(hay.as_slice()));
    let dhca = opt_chars(&device.fabric_hca);
    let hca_ok = matches_contains_of(&hay_some, &dhca);
    let observed_hay = if hay.len() > 0 {
        Some(hay)
    } else {
        None
    };
    push_check(out, dev, "fabric_hca", dhca, observed_hay, hca_ok);
    let ghost o1 = seq_views(out@);
    let flat = flat_addresses(facts);
    let all = all_addresses_of(&flat);
    let dlan = opt_chars(&device.ip_lan);
    let lan_ok = match &dlan {
        Some(ip) => has_address_of(&flat, ip.as_slice()),
        None => false,
    };
    push_check(out, dev, "ip_lan", dlan, Some(vstd::slice::slice_to_vec(all.as_slice())), lan_ok);
    let ghost o2 = seq_views(out@);
    match &device.ip_fabric {
        Some(fabric) => {
            let fab = chars_of(fabric.as_str());
            let fab_ok = has_address_of(&flat, fab.as_slice());
            push_check(out, dev, "ip_fabric", Some(fab), Some(vstd::slice::slice_to_vec(all.as_slice())), fab_ok);
        },
        None => {
            assert(seq_views(out@) =~= o2 + Seq::<CheckModel>::empty());
        },
    }
    assert(seq_views(out@) =~= o0 + net_part(device@, facts@));
}

fn reconcile_accelerators(out: &mut Vec<CheckResult>, dev: &[char], device: &Device, facts: &HostFacts)
    requires
        dev@ == device@.id,
    ensures
        seq_views(final(out)@) == seq_views(old(out)@) + accel_checks(dev@, device@.accelerator, facts@),
{
    let ghost before_acc = seq_views(out@);
    let mut k: usize = 0;
    assert(seq_views(out@) =~= before_acc + accel_checks(dev@, device@.accelerator.take(0), facts@));
    while k < device.accelerator.len()
        invariant
            k <= device.accelerator@.len(),
            dev@ == device@.id,
            seq_views(out@) == before_acc + accel_checks(dev@, device@.accelerator.take(k as int), facts@),
        decreases device.accelerator@.len() - k,
    {
        let ghost prev = seq_views(out@);
        let x = accel_check_of(dev, &device.accelerator[k], facts);
        out.push(x);
        assert(device@.accelerator[k as int] == device.accelerator@[k as int]@);
        assert(accel_checks(dev@, device@.accelerator.take(k + 1), facts@) =~= accel_checks(
            dev@,
            device@.accelerator.take(k as int),
            facts@,
        ).push(x@));
        assert(seq_views(out@) =~= prev.push(x@));
        k = k + 1;
    }
    assert(device@.accelerator.take(k as int) =~= device@.accelerator);
}

fn device_checks_of(device: &Device, facts: &HostFacts, placement: Option<&GuestPlacement>) -> (r: Vec<CheckResult>)
    ensures
        seq_views(r@) == device_checks(device@, facts@, match placement {
            Some(x) => Some(x@),
            None => None,
        }),
{
    let dev = chars_of(device.id.as_str());
    let mut out: Vec<CheckResult> = Vec::new();
    let ghost o0 = seq_views(out@);
    field_checks(&mut out, dev.as_slice(), device, facts);
    let ghost o1 = seq_views(out@);
    network_checks(&mut out, dev.as_slice(), device, facts);
    let ghost o2 = seq_views(out@);
    reconcile_accelerators(&mut out, dev.as_slice(), device, facts);
    let ghost o3 = seq_views(out@);
    match placement {
        Some(pl) => {
            let x = reconcile_guests(dev.as_slice(), pl, facts);
            out.push(x);
            assert(seq_views(out@) =~= o3.push(x@));
        },
        None => {},
    }
    assert(o0 =~= Seq::<CheckModel>::empty());
    assert(seq_views(out@) =~= device_checks(device@, facts@, match placement {
        Some(x) => Some(x@),
        None => None,
    }));
    out
}

fn reconcile_device(device: &Device, report: Option<&HostReport>, placement: Option<&GuestPlacement>) -> (r: Vec<CheckResult>)
    ensures
        seq_views(r@) == device_results(
            device@,
            match report {
                Some(x) => Some(x@),
                None => None,
            },
            match placement {
                Some(x) => Some(x@),
                None => None,
            },
        ),
{
    let dev = chars_of(device.id.as_str());
    let access = lit("access");
    let mut out: Vec<CheckResult> = Vec::new();
    match report {
        Some(rep) => {
            if rep.access == AccessState::Okay && rep.facts.is_some() {
                match &rep.facts {
                    Some(f) => {
                        return device_checks_of(device, f, placement);
                    },
                    None => {
                        return out;
                    },
                }
            } else if rep.access == AccessState::Failed && rep.error.is_some() {
                let e = match &rep.error {
                    Some(e) => chars_of(e.as_str()),
                    None => Vec::new(),
                };
                let t = cat(lit("sweep failed: ").as_slice(), e.as_slice());
                let x = result(dev.as_slice(), access.as_slice(), CheckState::Unverified, t.as_slice());
                out.push(x);
                assert(seq_views(out@) =~= seq![x@]);
                out
            } else if rep.access == AccessState::NoSshConfigured {
                let x = result(dev.as_slice(), access.as_slice(), CheckState::Unverified, lit("no ssh target configured").as_slice());
                out.push(x);
                assert(seq_views(out@) =~= seq![x@]);
                out
            } else {
                let x = result(dev.as_slice(), access.as_slice(), CheckState::Unverified, lit("device absent from the fact sweep").as_slice());
                out.push(x);
                assert(seq_views(out@) =~= seq![x@]);
                out
            }
        },
        None => {
            let x = result(dev.as_slice(), access.as_slice(), CheckState::Unverified, lit("device absent from the fact sweep").as_slice());
            out.push(x);
            assert(seq_views(out@) =~= seq![x@]);
            out
        },
    }
}

/// The host report of a device in the sweep (the first with its id).
pub open spec fn report_for(hosts: Seq<ReportModel>, id: Seq<char>) -> Option<ReportModel> {
    match first_match(hosts, |h: ReportModel| h.id == id) {
        Some(k) => Some(hosts[k]),
        None => None,
    }
}

/// The guest placement of a device (the first on its id).
pub open spec fn placement_for(ps: Seq<PlacementModel>, id: Seq<char>) -> Option<PlacementModel> {
    match first_match(ps, |p: PlacementModel| p.host == id) {
        Some(k) => Some(ps[k]),
        None => None,
    }
}

/// Every check over the declared devices, device by device.
pub open spec fn reconcile_all(
    devs: Seq<DeviceModel>,
    ps: Seq<PlacementModel>,
    hosts: Seq<ReportModel>,
) -> Seq<CheckModel>
    decreases devs.len(),
{
    if devs.len() == 0 {
        seq![]
    } else {
        let d = devs.last();
        reconcile_all(devs.drop_last(), ps, hosts) + device_results(
            d,
            report_for(hosts, d.id),
            placement_for(ps, d.id),
        )
    }
}

/// Compares a fact sweep against the declared inventory.
pub fn reconcile(devices: &DevicesFile, workloads: &WorkloadsFile, facts: &FactsFile) -> (r: Vec<CheckResult>)
    ensures
        seq_views(r@) == reconcile_all(seq_views(devices.device@), seq_views(workloads.guest@), seq_views(facts.hosts@)),
{
    let ghost devs = seq_views(devices.device@);
    let ghost ps = seq_views(workloads.guest@);
    let ghost hosts = seq_views(facts.hosts@);
    let mut results: Vec<CheckResult> = Vec::new();
    let mut i: usize = 0;
    assert(seq_views(results@) =~= reconcile_all(devs.take(0), ps, hosts));
    while i < devices.device.len()
        invariant
            i <= devices.device@.len(),
            devs == seq_views(devices.device@),
            ps == seq_views(workloads.guest@),
            hosts == seq_views(facts.hosts@),
            seq_views(results@) == reconcile_all(devs.take(i as int), ps, hosts),
        decreases devices.device@.len() - i,
    {
        let device = &devices.device[i];
        assert(devs[i as int] == device@);
        let id = chars_of(device.id.as_str());
        let ghost hp = |h: ReportModel| h.id == device@.id;
        let mut h: usize = 0;
        while h < facts.hosts.len()
            invariant
                h <= facts.hosts@.len(),
                hosts == seq_views(facts.hosts@),
                id@ == device@.id,
                hp == (|x: ReportModel| x.id == device@.id),
                forall|m: int| 0 <= m < h ==> !hp(#[trigger] hosts[m]),
            ensures
                h <= facts.hosts@.len(),
                forall|m: int| 0 <= m < h ==> !hp(#[trigger] hosts[m]),
                h < facts.hosts@.len() ==> hp(hosts[h as int]),
            decreases facts.hosts@.len() - h,
        {
            assert(hosts[h as int] == facts.hosts@[h as int]@);
            if eq_chars(chars_of(facts.hosts[h].id.as_str()).as_slice(), id.as_slice()) {
                break;
            }
            h = h + 1;
        }
        proof {
            lemma_first_match_at(hosts, hp, h as int);
        }
        let report = if h < facts.hosts.len() {
            assert(hosts[h as int] == facts.hosts@[h as int]@);
            Some(&facts.hosts[h])
        } else {
            None
        };
        let ghost pp = |x: PlacementModel| x.host == device@.id;
        let mut g: usize = 0;
        while g < workloads.guest.len()
            invariant
                g <= workloads.guest@.len(),
                ps == seq_views(workloads.guest@),
                id@ == device@.id,
                pp == (|x: PlacementModel| x.host == device@.id),
                forall|m: int| 0 <= m < g ==> !pp(#[trigger] ps[m]),
            ensures
                g <= workloads.guest@.len(),
                forall|m: int| 0 <= m < g ==> !pp(#[trigger] ps[m]),
                g < workloads.guest@.len() ==> pp(ps[g as int]),
            decreases workloads.guest@.len() - g,
        {
            assert(ps[g as int] == workloads.guest@[g as int]@);
            if eq_chars(chars_of(workloads.guest[g].host.as_str()).as_slice(), id.as_slice()) {
                break;
            }
            g = g + 1;
        }
        proof {
            lemma_first_match_at(ps, pp, g as int);
        }
        let placement = if g < workloads.guest.len() {
            assert(ps[g as int] == workloads.guest@[g as int]@);
            Some(&workloads.guest[g])
        } else {
            None
        };
        let ghost prev = seq_views(results@);
        let mut more = reconcile_device(device, report, placement);
        let ghost add = seq_views(more@);
        results.append(&mut more);
        assert(seq_views(results@) =~= prev + add);
        assert(devs.take(i + 1).drop_last() =~= devs.take(i as int));
        i = i + 1;
    }
    assert(devs.take(i as int) =~= devs);
    results
}

/// A device that could not be swept (no ssh target, a failed sweep, or
/// absent from the sweep) gets a single unverified access check: it is
/// never reported as drift, and never assumed to match.
pub proof fn law_unswept_is_unverified(d: DeviceModel, r: Option<ReportModel>, p: Option<PlacementModel>)
    requires
        !(r matches Some(rep) && rep.access == AccessState::Okay && rep.facts is Some),
    ensures
        device_results(d, r, p).len() == 1,
        device_results(d, r, p)[0].state == CheckState::Unverified,
        device_results(d, r, p)[0].check == "access"@,
        device_results(d, r, p)[0].device == d.id,
{
}


/// An accelerator check is ok exactly when as many units are observed as
/// are declared; any other observed count is drift, reported with both
/// counts; a model with no matchable token cannot be checked.
pub proof fn law_accelerator_count_decides(dev: Seq<char>, a: AcceleratorModel, f: HostFactsModel)
    ensures
        accel_check(dev, a, f).device == dev,
        accel_check(dev, a, f).check == "accelerator"@,
        match model_token_of(a.model) {
            None => accel_check(dev, a, f).state == CheckState::Unverified,
            Some(tok) => {
                &&& accel_check(dev, a, f).state == CheckState::Okay <==> observed_count(f, tok) == a.count
                &&& observed_count(f, tok) != a.count ==> accel_check(dev, a, f).state == CheckState::Drift
                    && accel_check(dev, a, f).detail == "declared "@ + int_text(a.count as int) + "x "@ + tok
                    + ", observed "@ + int_text(observed_count(f, tok) as int)
            },
        },
{
}

/// Each declared accelerator of a swept device gets its check, in order.
pub proof fn law_every_accelerator_checked(d: DeviceModel, f: HostFactsModel, p: Option<PlacementModel>, i: int)
    requires
        0 <= i < d.accelerator.len(),
    ensures
        device_checks(d, f, p).contains(accel_check(d.id, d.accelerator[i], f)),
{
    let pre = field_part(d, f) + net_part(d, f);
    let acc = accel_checks(d.id, d.accelerator, f);
    let all = device_checks(d, f, p);
    assert(acc[i] == accel_check(d.id, d.accelerator[i], f));
    let rest = match p {
        Some(pl) => seq![guest_check(d.id, pl, f)],
        None => Seq::<CheckModel>::empty(),
    };
    assert(all == pre + acc + rest);
    assert(all[pre.len() + i] == acc[i]);
}

} // verus!
