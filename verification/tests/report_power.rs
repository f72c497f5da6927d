use rollcall::inventory::capex::{CapexFile, CapexItem};
use rollcall::inventory::devices::{CollectorKind, Device, DevicesFile};
use rollcall::report::document::status_values;
use rollcall::report::power::{capex_section, capex_total, power_draws, power_section, PowerFigures, RowFigures};
use rollcall::report::status::{newest_snapshot, snapshot_date, ProbeResult, ProbeState, Snapshot};

fn device(id: &str, name: &str, typical_w: i64, peak_w: i64) -> Device {
    Device {
        id: id.to_owned(),
        name: name.to_owned(),
        role: "r".to_owned(),
        model: None,
        ip_lan: Some("1".to_owned()),
        ip_fabric: None,
        ip_mgmt: None,
        ssh: None,
        collector: CollectorKind::Linux,
        bmc: None,
        motherboard: None,
        cpu: None,
        cpu_model: None,
        ram_gb: None,
        fabric_hca: None,
        disks: vec![],
        power_typical_mw: typical_w * 1000,
        power_peak_mw: peak_w * 1000,
        power_estimate: true,
        expected_offline: false,
        source_of_truth: None,
        notes: None,
        accelerator: vec![],
    }
}

fn devices() -> DevicesFile {
    DevicesFile { device: vec![device("a", "A", 100, 200), device("b", "B", 300, 400)] }
}

fn result(id: &str, state: ProbeState) -> ProbeResult {
    ProbeResult { id: id.to_owned(), desc: id.to_uppercase(), state, detail: "d".to_owned() }
}

fn snapshot_with_b_down() -> Snapshot {
    Snapshot {
        generated_at: "t".to_owned(),
        results: vec![result("a", ProbeState::Up), result("b", ProbeState::Down)],
    }
}

#[test]
fn down_devices_are_excluded_from_live_but_not_all_on() {
    let model = power_draws(&devices(), &snapshot_with_b_down());
    assert_eq!(model.all_on_typical_mw, 400_000);
    assert_eq!(model.live_typical_mw, 100_000);
    assert_eq!(model.peak_mw, 600_000);
    assert!(model.rows[0].is_up);
    assert!(!model.rows[1].is_up);
    assert_eq!(model.rows[1].typical_mw, 300_000);
}

#[test]
fn unprobed_devices_count_as_live() {
    let snapshot = Snapshot { generated_at: "t".to_owned(), results: vec![] };
    let model = power_draws(&devices(), &snapshot);
    assert_eq!(model.live_typical_mw, model.all_on_typical_mw);
}

#[test]
fn an_unverifiable_probe_does_not_make_a_device_down() {
    let snapshot = Snapshot { generated_at: "t".to_owned(), results: vec![result("b", ProbeState::Unverifiable)] };
    let model = power_draws(&devices(), &snapshot);
    assert!(model.rows[1].is_up);
    assert_eq!(model.live_typical_mw, 400_000);
}

fn figures(n: usize) -> PowerFigures {
    let row = |t: &str| RowFigures { typical: t.to_owned(), peak: "P".to_owned(), kwh: "K".to_owned(), usd: "U".to_owned() };
    PowerFigures {
        tariff: "0.30".to_owned(),
        hours: 720,
        rows: (0..n).map(|i| row(&format!("T{i}"))).collect(),
        all_on: row("AT"),
        live: row("LT"),
        peak: "PK".to_owned(),
        btu: "BTU".to_owned(),
        tons: "0.17".to_owned(),
        cooling_method: "air_cooled".to_owned(),
        annual_usd: "AN".to_owned(),
    }
}

#[test]
fn power_section_marks_down_devices_and_names_them_in_the_live_label() {
    let model = power_draws(&devices(), &snapshot_with_b_down());
    let tex = power_section(&model, &figures(2));
    assert!(tex.starts_with("\n\\section{Power \\& Thermal}\nTariff \\textbf{\\$0.30/kWh}, 720\\,h accounting month."), "{tex}");
    assert!(tex.contains("A & T0 & P & K & \\$U \\\\\nB \\textcolor{accent}{(down)} & T1 & P & K & \\$U \\\\"), "{tex}");
    assert!(tex.contains("\\textbf{Live today (B)} & \\textbf{LT}"), "{tex}");
    assert!(tex.contains("Peak heat rejection BTU\\,BTU/h (0.17 tons refrigeration);\nair\\_cooled."), "{tex}");
    assert!(tex.ends_with("\\textbf{\\$AN}.\n"), "{tex}");
}

#[test]
fn power_section_live_label_is_plain_when_nothing_is_down() {
    let snapshot = Snapshot { generated_at: "t".to_owned(), results: vec![] };
    let tex = power_section(&power_draws(&devices(), &snapshot), &figures(2));
    assert!(tex.contains("\\textbf{Live today} & \\textbf{LT}"), "{tex}");
}

#[test]
fn capex_section_totals_and_escapes_the_ledger() {
    let capex = CapexFile {
        item: vec![
            CapexItem { device: "edge_1".to_owned(), desc: "router".to_owned(), usd: 1850, basis: "estimate".to_owned() },
            CapexItem { device: "site".to_owned(), desc: "rack & PDU".to_owned(), usd: 12000, basis: "invoice".to_owned() },
        ],
    };
    assert_eq!(capex_total(&capex), 13850);
    let tex = capex_section(&capex, "555", "4");
    assert!(tex.contains("edge\\_1 & router & \\$1,850 & estimate \\\\\nsite & rack \\& PDU & \\$12,000 & invoice \\\\"), "{tex}");
    assert!(tex.contains("\\textbf{Total} & & \\textbf{\\$13,850} & \\\\"), "{tex}");
    assert!(tex.contains("annual power (\\$555) is\n4\\,\\% of the estimated fleet capex"), "{tex}");
}

#[test]
fn status_values_count_and_escape_the_snapshot() {
    let snapshot = Snapshot {
        generated_at: "2026_07_09".to_owned(),
        results: vec![result("a", ProbeState::Up), result("b_1", ProbeState::Down), result("c", ProbeState::Down)],
    };
    let values = status_values(&snapshot);
    let get = |k: &str| values.iter().find(|(key, _)| key == k).map(|(_, v)| v.clone());
    assert_eq!(get("up_count").as_deref(), Some("1"));
    assert_eq!(get("probe_total").as_deref(), Some("3"));
    assert_eq!(get("down_descs").as_deref(), Some("B\\_1; C"));
    assert_eq!(get("generated_at").as_deref(), Some("2026\\_07\\_09"));
    let empty = status_values(&Snapshot { generated_at: "t".to_owned(), results: vec![] });
    assert_eq!(empty[2].1, "none");
}

#[test]
fn the_newest_snapshot_is_the_last_json_name() {
    let names: Vec<String> = ["2026-07-01.json", "notes.txt", "2026-07-09.json", ".json", "2026-06-30.json"]
        .iter()
        .map(|s| (*s).to_owned())
        .collect();
    let i = newest_snapshot(&names).expect("a snapshot");
    assert_eq!(names[i], "2026-07-09.json");
    assert_eq!(snapshot_date(&names[i]), "2026-07-09");
    let none: Vec<String> = vec!["README".to_owned(), ".json".to_owned()];
    assert_eq!(newest_snapshot(&none), None);
}
