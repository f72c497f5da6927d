//! Power economics joined with the newest snapshot: per-device draws, the
//! all-on, live and peak totals, and the power and capex sections built
//! around their formatted figures.

use vstd::prelude::*;
use crate::text::{chars_of, int_text, join, join_of, put, put_chars, seq_views, string_from, views};
use crate::report::tex::{esc_chars, esc_spec, fmt_int_sep, separated};
use crate::report::status::{ResultModel, Snapshot};
use crate::report::topology::{down_in, is_down};
use crate::inventory::devices::{DeviceModel, DevicesFile};
use crate::inventory::capex::{CapexFile, CapexModel};

verus! {

/// The modeled draw of one device.
#[derive(Debug, Clone)]
pub struct PowerDraw {
    /// Device display name.
    pub name: String,
    /// Modeled typical draw in milliwatts.
    pub typical_mw: i64,
    /// Modeled peak draw in milliwatts.
    pub peak_mw: i64,
    /// Whether the device counts as live: no probe with its id reports it
    /// down (an unprobed device counts as live).
    pub is_up: bool,
}

/// The fleet's draws and their totals.
#[derive(Debug, Clone)]
pub struct PowerDraws {
    /// One row per device, in declaration order.
    pub rows: Vec<PowerDraw>,
    /// Sum of typical draws with everything on, in milliwatts.
    pub all_on_typical_mw: i128,
    /// Sum of typical draws over live devices only, in milliwatts.
    pub live_typical_mw: i128,
    /// Sum of peak draws — the sizing envelope — in milliwatts.
    pub peak_mw: i128,
}

/// The abstract content of a [`PowerDraw`].
pub struct DrawModel {
    pub name: Seq<char>,
    pub typical_mw: i64,
    pub peak_mw: i64,
    pub is_up: bool,
}

impl View for PowerDraw {
    type V = DrawModel;

    open spec fn view(&self) -> DrawModel {
        DrawModel { name: self.name@, typical_mw: self.typical_mw, peak_mw: self.peak_mw, is_up: self.is_up }
    }
}

/// A device's row: its name and draws, live unless a probe with its id
/// reports it down.
pub open spec fn draw_of(d: DeviceModel, rs: Seq<ResultModel>) -> DrawModel {
    DrawModel { name: d.name, typical_mw: d.power_typical_mw, peak_mw: d.power_peak_mw, is_up: !down_in(d.id, rs) }
}

/// Sum of typical draws.
pub open spec fn typical_sum(ds: Seq<DeviceModel>) -> int
    decreases ds.len(),
{
    if ds.len() == 0 {
        0
    } else {
        typical_sum(ds.drop_last()) + ds.last().power_typical_mw
    }
}

/// Sum of peak draws.
pub open spec fn peak_sum(ds: Seq<DeviceModel>) -> int
    decreases ds.len(),
{
    if ds.len() == 0 {
        0
    } else {
        peak_sum(ds.drop_last()) + ds.last().power_peak_mw
    }
}

/// Sum of typical draws over the devices no probe reports down.
pub open spec fn live_sum(ds: Seq<DeviceModel>, rs: Seq<ResultModel>) -> int
    decreases ds.len(),
{
    if ds.len() == 0 {
        0
    } else {
        live_sum(ds.drop_last(), rs) + (if down_in(ds.last().id, rs) {
            0
        } else {
            ds.last().power_typical_mw as int
        })
    }
}

proof fn lemma_sums_bounded(ds: Seq<DeviceModel>, rs: Seq<ResultModel>)
    ensures
        -(ds.len() * 0x8000_0000_0000_0000) <= typical_sum(ds) <= ds.len() * 0x8000_0000_0000_0000,
        -(ds.len() * 0x8000_0000_0000_0000) <= peak_sum(ds) <= ds.len() * 0x8000_0000_0000_0000,
        -(ds.len() * 0x8000_0000_0000_0000) <= live_sum(ds, rs) <= ds.len() * 0x8000_0000_0000_0000,
    decreases ds.len(),
{
    if ds.len() > 0 {
        lemma_sums_bounded(ds.drop_last(), rs);
    }
}

/// Builds the draws. A device counts as live unless a probe with the same id
/// reports down; unprobed devices count as live.
pub fn power_draws(devices: &DevicesFile, snapshot: &Snapshot) -> (r: PowerDraws)
    ensures
        seq_views(r.rows@) == seq_views(devices.device@).map_values(
            |d: DeviceModel| draw_of(d, seq_views(snapshot.results@)),
        ),
        r.all_on_typical_mw == typical_sum(seq_views(devices.device@)),
        r.live_typical_mw == live_sum(seq_views(devices.device@), seq_views(snapshot.results@)),
        r.peak_mw == peak_sum(seq_views(devices.device@)),
{
    let ghost ds = seq_views(devices.device@);
    let ghost rs = seq_views(snapshot.results@);
    let mut rows: Vec<PowerDraw> = Vec::new();
    let mut all_on: i128 = 0;
    let mut live: i128 = 0;
    let mut peak: i128 = 0;
    let mut i: usize = 0;
    while i < devices.device.len()
        invariant
            i <= devices.device@.len(),
            ds == seq_views(devices.device@),
            rs == seq_views(snapshot.results@),
            seq_views(rows@) == ds.take(i as int).map_values(|d: DeviceModel| draw_of(d, rs)),
            all_on == typical_sum(ds.take(i as int)),
            live == live_sum(ds.take(i as int), rs),
            peak == peak_sum(ds.take(i as int)),
        decreases devices.device@.len() - i,
    {
        let d = &devices.device[i];
        let ghost pre = ds.take(i as int);
        let ghost next = ds.take(i + 1);
        proof {
            assert(next.drop_last() =~= pre);
            assert(next.last() == d@);
            lemma_sums_bounded(next, rs);
            assert(i + 1 <= usize::MAX);
            assert((i + 1) * 0x8000_0000_0000_0000 <= 0x1_0000_0000_0000_0000 * 0x8000_0000_0000_0000)
                by (nonlinear_arith)
                requires
                    i + 1 <= 0x1_0000_0000_0000_0000,
            ;
        }
        let down = is_down(chars_of(d.id.as_str()).as_slice(), snapshot);
        let row = PowerDraw { name: d.name.clone(), typical_mw: d.power_typical_mw, peak_mw: d.power_peak_mw, is_up: !down };
        assert(row@.name == d@.name);
        let ghost prev = seq_views(rows@);
        rows.push(row);
        assert(seq_views(rows@) =~= prev.push(draw_of(d@, rs)));
        assert(next.map_values(|d: DeviceModel| draw_of(d, rs)) =~= pre.map_values(|d: DeviceModel| draw_of(d, rs)).push(
            draw_of(d@, rs),
        ));
        all_on = all_on + d.power_typical_mw as i128;
        peak = peak + d.power_peak_mw as i128;
        if !down {
            live = live + d.power_typical_mw as i128;
        }
        i = i + 1;
    }
    assert(ds.take(i as int) =~= ds);
    PowerDraws { rows, all_on_typical_mw: all_on, live_typical_mw: live, peak_mw: peak }
}

/// With no probe reporting a device down, every device counts as live: the
/// live total is the all-on total.
pub proof fn law_live_is_all_on_without_outages(ds: Seq<DeviceModel>, rs: Seq<ResultModel>)
    requires
        forall|i: int| 0 <= i < ds.len() ==> !down_in(#[trigger] ds[i].id, rs),
    ensures
        live_sum(ds, rs) == typical_sum(ds),
    decreases ds.len(),
{
    if ds.len() > 0 {
        let pre = ds.drop_last();
        assert forall|i: int| 0 <= i < pre.len() implies !down_in(#[trigger] pre[i].id, rs) by {
            assert(pre[i] == ds[i]);
        }
        law_live_is_all_on_without_outages(pre, rs);
        assert(!down_in(ds[ds.len() - 1].id, rs));
    }
}

/// With non-negative draws, the live total lies between nothing and the
/// all-on total: a down device is excluded from the live total, never from
/// the all-on one.
pub proof fn law_live_within_all_on(ds: Seq<DeviceModel>, rs: Seq<ResultModel>)
    requires
        forall|i: int| 0 <= i < ds.len() ==> (#[trigger] ds[i]).power_typical_mw >= 0,
    ensures
        0 <= live_sum(ds, rs) <= typical_sum(ds),
    decreases ds.len(),
{
    if ds.len() > 0 {
        let pre = ds.drop_last();
        assert forall|i: int| 0 <= i < pre.len() implies (#[trigger] pre[i]).power_typical_mw >= 0 by {
            assert(pre[i] == ds[i]);
        }
        law_live_within_all_on(pre, rs);
        assert(ds[ds.len() - 1].power_typical_mw >= 0);
    }
}

/// The printed figures of one power-table row.
#[derive(Debug, Clone)]
pub struct RowFigures {
    /// Typical draw, watts.
    pub typical: String,
    /// Peak draw, watts.
    pub peak: String,
    /// Energy at typical draw over the accounting month, kWh.
    pub kwh: String,
    /// Cost of that energy, USD.
    pub usd: String,
}

/// The printed figures of the power section, formatted by the caller from
/// the draws and the site's tariff and cooling constants.
#[derive(Debug, Clone)]
pub struct PowerFigures {
    /// Tariff, USD per kWh.
    pub tariff: String,
    /// Hours in the accounting month.
    pub hours: i64,
    /// One entry per row of the draws, in the same order.
    pub rows: Vec<RowFigures>,
    /// The all-on totals: typical watts, kWh per month, USD per month.
    pub all_on: RowFigures,
    /// The live totals: typical watts, kWh per month, USD per month.
    pub live: RowFigures,
    /// The peak envelope, watts.
    pub peak: String,
    /// Peak heat rejection, BTU/h.
    pub btu: String,
    /// The same in tons of refrigeration.
    pub tons: String,
    /// How the heat is rejected.
    pub cooling_method: String,
    /// All-on annual energy cost, USD.
    pub annual_usd: String,
}

/// The abstract content of a [`RowFigures`].
pub struct FiguresModel {
    pub typical: Seq<char>,
    pub peak: Seq<char>,
    pub kwh: Seq<char>,
    pub usd: Seq<char>,
}

impl View for RowFigures {
    type V = FiguresModel;

    open spec fn view(&self) -> FiguresModel {
        FiguresModel { typical: self.typical@, peak: self.peak@, kwh: self.kwh@, usd: self.usd@ }
    }
}

/// The mark a down device carries in the table.
pub open spec fn down_mark(is_up: bool) -> Seq<char> {
    if is_up {
        seq![]
    } else {
        " \\textcolor{accent}{(down)}"@
    }
}

/// One device row of the power table.
pub open spec fn power_row(d: DrawModel, f: FiguresModel) -> Seq<char> {
    esc_spec(d.name) + down_mark(d.is_up) + " & "@ + f.typical + " & "@ + f.peak + " & "@ + f.kwh + " & \\$"@ + f.usd
        + " \\\\"@
}

/// The names of the down devices, in order.
pub open spec fn down_names(ds: Seq<DrawModel>) -> Seq<Seq<char>>
    decreases ds.len(),
{
    if ds.len() == 0 {
        seq![]
    } else {
        down_names(ds.drop_last()) + (if ds.last().is_up {
            seq![]
        } else {
            seq![ds.last().name]
        })
    }
}

/// The live-total label, naming the down devices when there are any.
pub open spec fn live_label(ds: Seq<DrawModel>) -> Seq<char> {
    if down_names(ds).len() == 0 {
        "Live today"@
    } else {
        "Live today ("@ + join(down_names(ds), ", "@) + ")"@
    }
}

/// The rows of the power table.
pub open spec fn power_rows(ds: Seq<DrawModel>, fs: Seq<FiguresModel>) -> Seq<Seq<char>> {
    Seq::new(ds.len(), |i: int| power_row(ds[i], fs[i]))
}

/// The power and thermal section.
pub open spec fn power_text(
    ds: Seq<DrawModel>,
    fs: Seq<FiguresModel>,
    tariff: Seq<char>,
    hours: int,
    all_on: FiguresModel,
    live: FiguresModel,
    peak: Seq<char>,
    btu: Seq<char>,
    tons: Seq<char>,
    method: Seq<char>,
    annual: Seq<char>,
) -> Seq<char> {
    "\n\\section{Power \\& Thermal}\nTariff \\textbf{\\$"@ + tariff + "/kWh}, "@ + int_text(hours)
        + "\\,h accounting month. Figures are modeled\nfrom component TDPs — no PDU metering exists yet, so treat them as a sizing\nmodel, not a bill.\n\n\\begin{tabularx}{\\textwidth}{X r r r r}\n\\toprule\n\\textbf{Device} & \\textbf{Typical (W)} & \\textbf{Peak (W)} & \\textbf{kWh/mo} & \\textbf{USD/mo} \\\\\n\\midrule\n"@
        + join(power_rows(ds, fs), "\n"@) + "\n\\midrule\n\\textbf{All-on typical} & \\textbf{"@ + all_on.typical + "} & & "@
        + all_on.kwh + " & \\textbf{\\$"@ + all_on.usd + "} \\\\\n\\textbf{"@ + live_label(ds) + "} & \\textbf{"@
        + live.typical + "} & & "@ + live.kwh + " & \\textbf{\\$"@ + live.usd
        + "} \\\\\n\\textbf{Peak envelope} & & \\textbf{"@ + peak
        + "} & & \\\\\n\\bottomrule\n\\end{tabularx}\n\n\\subsection{Thermal load}\nPeak heat rejection "@ + btu
        + "\\,BTU/h ("@ + tons + " tons refrigeration);\n"@ + esc_spec(method)
        + ". All-on annual energy cost\n\\textbf{\\$"@ + annual + "}.\n"@
}

fn row_figures_text(t: &mut Vec<char>, f: &RowFigures)
    ensures
        final(t)@ == old(t)@ + f.typical@ + " & "@ + f.peak@ + " & "@ + f.kwh@ + " & \\$"@ + f.usd@ + " \\\\"@,
{
    put(t, f.typical.as_str());
    put(t, " & ");
    put(t, f.peak.as_str());
    put(t, " & ");
    put(t, f.kwh.as_str());
    put(t, " & \\$");
    put(t, f.usd.as_str());
    put(t, " \\\\");
}

fn live_label_of(rows: &Vec<PowerDraw>) -> (r: Vec<char>)
    ensures
        r@ == live_label(seq_views(rows@)),
{
    let ghost ds = seq_views(rows@);
    let mut names: Vec<Vec<char>> = Vec::new();
    let mut i: usize = 0;
    while i < rows.len()
        invariant
            i <= rows@.len(),
            ds == seq_views(rows@),
            views(names@) == down_names(ds.take(i as int)),
        decreases rows@.len() - i,
    {
        assert(ds.take(i + 1).drop_last() =~= ds.take(i as int));
        assert(ds.take(i + 1).last() == rows@[i as int]@);
        if !rows[i].is_up {
            let ghost prev = views(names@);
            let n = chars_of(rows[i].name.as_str());
            names.push(n);
            assert(views(names@) =~= prev + seq![n@]);
        } else {
            assert(down_names(ds.take(i + 1)) =~= down_names(ds.take(i as int)));
        }
        i = i + 1;
    }
    assert(ds.take(i as int) =~= ds);
    if names.len() == 0 {
        chars_of("Live today")
    } else {
        let mut t = chars_of("Live today (");
        put_chars(&mut t, join_of(&names, chars_of(", ").as_slice()).as_slice());
        put(&mut t, ")");
        t
    }
}

/// The power and thermal section: one row per device (down ones marked),
/// the all-on, live and peak totals (the live label naming the down
/// devices), and the thermal load, around the caller's formatted figures.
pub fn power_section(draws: &PowerDraws, figures: &PowerFigures) -> (r: String)
    requires
        figures.rows@.len() == draws.rows@.len(),
    ensures
        r@ == power_text(
            seq_views(draws.rows@),
            seq_views(figures.rows@),
            figures.tariff@,
            figures.hours as int,
            figures.all_on@,
            figures.live@,
            figures.peak@,
            figures.btu@,
            figures.tons@,
            figures.cooling_method@,
            figures.annual_usd@,
        ),
{
    let ghost ds = seq_views(draws.rows@);
    let ghost fs = seq_views(figures.rows@);
    let mut rows: Vec<Vec<char>> = Vec::new();
    let mut i: usize = 0;
    while i < draws.rows.len()
        invariant
            i <= draws.rows@.len(),
            figures.rows@.len() == draws.rows@.len(),
            ds == seq_views(draws.rows@),
            fs == seq_views(figures.rows@),
            views(rows@) == power_rows(ds, fs).take(i as int),
        decreases draws.rows@.len() - i,
    {
        let d = &draws.rows[i];
        let f = &figures.rows[i];
        assert(ds[i as int] == d@ && fs[i as int] == f@);
        let mut t = esc_chars(chars_of(d.name.as_str()).as_slice());
        if !d.is_up {
            put(&mut t, " \\textcolor{accent}{(down)}");
        } else {
            assert(t@ + down_mark(true) =~= t@);
        }
        put(&mut t, " & ");
        row_figures_text(&mut t, f);
        let ghost prev = views(rows@);
        rows.push(t);
        assert(views(rows@) =~= prev.push(t@));
        assert(power_rows(ds, fs).take(i + 1) =~= power_rows(ds, fs).take(i as int).push(power_row(d@, f@)));
        i = i + 1;
    }
    assert(power_rows(ds, fs).take(i as int) =~= power_rows(ds, fs));
    let mut t = chars_of("\n\\section{Power \\& Thermal}\nTariff \\textbf{\\$");
    put(&mut t, figures.tariff.as_str());
    put(&mut t, "/kWh}, ");
    put_chars(&mut t, crate::text::fmt_i64(figures.hours).as_slice());
    put(
        &mut t,
        "\\,h accounting month. Figures are modeled\nfrom component TDPs — no PDU metering exists yet, so treat them as a sizing\nmodel, not a bill.\n\n\\begin{tabularx}{\\textwidth}{X r r r r}\n\\toprule\n\\textbf{Device} & \\textbf{Typical (W)} & \\textbf{Peak (W)} & \\textbf{kWh/mo} & \\textbf{USD/mo} \\\\\n\\midrule\n",
    );
    put_chars(&mut t, join_of(&rows, chars_of("\n").as_slice()).as_slice());
    put(&mut t, "\n\\midrule\n\\textbf{All-on typical} & \\textbf{");
    put(&mut t, figures.all_on.typical.as_str());
    put(&mut t, "} & & ");
    put(&mut t, figures.all_on.kwh.as_str());
    put(&mut t, " & \\textbf{\\$");
    put(&mut t, figures.all_on.usd.as_str());
    put(&mut t, "} \\\\\n\\textbf{");
    put_chars(&mut t, live_label_of(&draws.rows).as_slice());
    put(&mut t, "} & \\textbf{");
    put(&mut t, figures.live.typical.as_str());
    put(&mut t, "} & & ");
    put(&mut t, figures.live.kwh.as_str());
    put(&mut t, " & \\textbf{\\$");
    put(&mut t, figures.live.usd.as_str());
    put(&mut t, "} \\\\\n\\textbf{Peak envelope} & & \\textbf{");
    put(&mut t, figures.peak.as_str());
    put(&mut t, "} & & \\\\\n\\bottomrule\n\\end{tabularx}\n\n\\subsection{Thermal load}\nPeak heat rejection ");
    put(&mut t, figures.btu.as_str());
    put(&mut t, "\\,BTU/h (");
    put(&mut t, figures.tons.as_str());
    put(&mut t, " tons refrigeration);\n");
    put_chars(&mut t, esc_chars(chars_of(figures.cooling_method.as_str()).as_slice()).as_slice());
    put(&mut t, ". All-on annual energy cost\n\\textbf{\\$");
    put(&mut t, figures.annual_usd.as_str());
    put(&mut t, "}.\n");
    string_from(t.as_slice())
}

/// Sum of the ledger's line items.
pub open spec fn capex_sum(items: Seq<CapexModel>) -> int
    decreases items.len(),
{
    if items.len() == 0 {
        0
    } else {
        capex_sum(items.drop_last()) + items.last().usd
    }
}

proof fn lemma_capex_bounded(items: Seq<CapexModel>)
    ensures
        -(items.len() * 0x8000_0000_0000_0000) <= capex_sum(items) <= items.len() * 0x8000_0000_0000_0000,
    decreases items.len(),
{
    if items.len() > 0 {
        lemma_capex_bounded(items.drop_last());
    }
}

/// The ledger total, in whole USD.
pub fn capex_total(capex: &CapexFile) -> (r: i128)
    ensures
        r == capex_sum(seq_views(capex.item@)),
{
    let ghost cs = seq_views(capex.item@);
    let mut total: i128 = 0;
    let mut i: usize = 0;
    while i < capex.item.len()
        invariant
            i <= capex.item@.len(),
            cs == seq_views(capex.item@),
            total == capex_sum(cs.take(i as int)),
        decreases capex.item@.len() - i,
    {
        proof {
            assert(cs.take(i + 1).drop_last() =~= cs.take(i as int));
            assert(cs.take(i + 1).last() == capex.item@[i as int]@);
            lemma_capex_bounded(cs.take(i + 1));
            assert((i + 1) * 0x8000_0000_0000_0000 <= 0x1_0000_0000_0000_0000 * 0x8000_0000_0000_0000)
                by (nonlinear_arith)
                requires
                    i + 1 <= 0x1_0000_0000_0000_0000,
            ;
        }
        total = total + capex.item[i].usd as i128;
        i = i + 1;
    }
    assert(cs.take(i as int) =~= cs);
    total
}

/// One ledger row.
pub open spec fn capex_row(c: CapexModel) -> Seq<char> {
    esc_spec(c.device) + " & "@ + esc_spec(c.desc) + " & \\$"@ + separated(int_text(c.usd as int)) + " & "@
        + esc_spec(c.basis) + " \\\\"@
}

/// The capital expenditure section.
pub open spec fn capex_text(items: Seq<CapexModel>, annual: Seq<char>, pct: Seq<char>) -> Seq<char> {
    "\n\\section{Capital Expenditure}\n\\textcolor{accent}{All line items are used-market estimates} entered to\nseed the model — replace with invoice values in \\texttt{finance/capex.toml}\n(\\texttt{basis = \"invoice\"}) as records are located.\n\n\\begin{tabularx}{\\textwidth}{l X r l}\n\\toprule\n\\textbf{Device} & \\textbf{Item} & \\textbf{USD} & \\textbf{Basis} \\\\\n\\midrule\n"@
        + join(items.map_values(|c: CapexModel| capex_row(c)), "\n"@)
        + "\n\\midrule\n\\textbf{Total} & & \\textbf{\\$"@ + separated(int_text(capex_sum(items)))
        + "} & \\\\\n\\bottomrule\n\\end{tabularx}\n\nAt the all-on typical load, annual power (\\$"@ + annual + ") is\n"@
        + pct + "\\,\\% of the estimated fleet capex — energy dominates\nTCO within $\\sim$3 years.\n"@
}

/// Capex ledger table with its total, and the energy-vs-capex ratio from
/// the caller's formatted annual power cost and percentage.
pub fn capex_section(capex: &CapexFile, annual_usd: &str, pct: &str) -> (r: String)
    requires
        i64::MIN <= capex_sum(seq_views(capex.item@)) <= i64::MAX,
    ensures
        r@ == capex_text(seq_views(capex.item@), annual_usd@, pct@),
{
    let ghost cs = seq_views(capex.item@);
    let mut rows: Vec<Vec<char>> = Vec::new();
    let mut i: usize = 0;
    while i < capex.item.len()
        invariant
            i <= capex.item@.len(),
            cs == seq_views(capex.item@),
            views(rows@) == cs.take(i as int).map_values(|c: CapexModel| capex_row(c)),
        decreases capex.item@.len() - i,
    {
        let c = &capex.item[i];
        assert(cs[i as int] == c@);
        let mut t = esc_chars(chars_of(c.device.as_str()).as_slice());
        put(&mut t, " & ");
        put_chars(&mut t, esc_chars(chars_of(c.desc.as_str()).as_slice()).as_slice());
        put(&mut t, " & \\$");
        put(&mut t, fmt_int_sep(c.usd).as_str());
        put(&mut t, " & ");
        put_chars(&mut t, esc_chars(chars_of(c.basis.as_str()).as_slice()).as_slice());
        put(&mut t, " \\\\");
        let ghost prev = views(rows@);
        rows.push(t);
        assert(views(rows@) =~= prev.push(capex_row(c@)));
        assert(cs.take(i + 1).map_values(|c: CapexModel| capex_row(c)) =~= cs.take(i as int).map_values(
            |c: CapexModel| capex_row(c),
        ).push(capex_row(c@)));
        i = i + 1;
    }
    assert(cs.take(i as int) =~= cs);
    let total = capex_total(capex);
    let mut t = chars_of(
        "\n\\section{Capital Expenditure}\n\\textcolor{accent}{All line items are used-market estimates} entered to\nseed the model — replace with invoice values in \\texttt{finance/capex.toml}\n(\\texttt{basis = \"invoice\"}) as records are located.\n\n\\begin{tabularx}{\\textwidth}{l X r l}\n\\toprule\n\\textbf{Device} & \\textbf{Item} & \\textbf{USD} & \\textbf{Basis} \\\\\n\\midrule\n",
    );
    put_chars(&mut t, join_of(&rows, chars_of("\n").as_slice()).as_slice());
    put(&mut t, "\n\\midrule\n\\textbf{Total} & & \\textbf{\\$");
    put(&mut t, fmt_int_sep(total as i64).as_str());
    put(&mut t, "} & \\\\\n\\bottomrule\n\\end{tabularx}\n\nAt the all-on typical load, annual power (\\$");
    put(&mut t, annual_usd);
    put(&mut t, ") is\n");
    put(&mut t, pct);
    put(&mut t, "\\,\\% of the estimated fleet capex — energy dominates\nTCO within $\\sim$3 years.\n");
    string_from(t.as_slice())
}

} // verus!
