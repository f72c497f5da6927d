use rollcall::inventory::capex::{CapexFile, CapexItem};
use rollcall::inventory::devices::{CollectorKind, Device, DevicesFile};
use rollcall::inventory::site::{Networks, SiteIdentity};
use rollcall::inventory::workloads::{GuestPlacement, Workload, WorkloadsFile};
use rollcall::report::compile::tail;
use rollcall::report::document::{assemble_document, preamble};
use rollcall::report::narrative::fleet_digest;
use rollcall::report::risk::{is_expected_offline, problem_context};
use rollcall::report::sections::{devices_section, status_section, workloads_section};
use rollcall::report::status::{ProbeResult, ProbeState, Snapshot};
use rollcall::report::topology::{short_model, topology_section};

fn device(id: &str, name: &str, ssh: Option<&str>, offline: bool) -> Device {
    Device {
        id: id.to_owned(),
        name: name.to_owned(),
        role: "host".to_owned(),
        model: None,
        ip_lan: Some("192.0.2.10".to_owned()),
        ip_fabric: None,
        ip_mgmt: None,
        ssh: ssh.map(str::to_owned),
        collector: CollectorKind::Linux,
        bmc: None,
        motherboard: None,
        cpu: None,
        cpu_model: None,
        ram_gb: None,
        fabric_hca: None,
        disks: vec![],
        power_typical_mw: 100_000,
        power_peak_mw: 200_000,
        power_estimate: true,
        expected_offline: offline,
        source_of_truth: None,
        notes: None,
        accelerator: vec![],
    }
}

fn result(id: &str, desc: &str, state: ProbeState, detail: &str) -> ProbeResult {
    ProbeResult { id: id.to_owned(), desc: desc.to_owned(), state, detail: detail.to_owned() }
}

fn snapshot() -> Snapshot {
    Snapshot {
        generated_at: "2026-07-09T00:00:00Z".to_owned(),
        results: vec![
            result("edge", "Edge router", ProbeState::Up, "ping ok"),
            result("sibyl", "Sibyl (GPU node)", ProbeState::Down, "no reply"),
            result("bmc", "BMC_1", ProbeState::Unverifiable, "mgmt only"),
        ],
    }
}

fn devices() -> DevicesFile {
    DevicesFile {
        device: vec![
            device("edge", "Edge", Some("root@edge"), false),
            device("sibyl", "Sibyl", None, true),
        ],
    }
}

fn workloads() -> WorkloadsFile {
    WorkloadsFile {
        workload: vec![Workload {
            node: "edge".to_owned(),
            name: "dns_cache".to_owned(),
            kind: "service".to_owned(),
            resources: "1 core".to_owned(),
        }],
        guest: vec![GuestPlacement {
            host: "edge".to_owned(),
            guests: vec!["VM100 a (running)".to_owned(), "VM101 b (running)".to_owned()],
        }],
        guest_record: vec![],
    }
}

#[test]
fn status_section_renders_one_escaped_row_per_probe() {
    let tex = status_section(&snapshot(), "Note.");
    assert!(tex.starts_with("\n\\section{Live Status Snapshot}\nNote.\n\\begin{tabularx}"), "{tex}");
    assert!(tex.contains(r"Edge router & \textcolor{success}{\textbf{UP}} & ping ok \\"), "{tex}");
    assert!(tex.contains(r"BMC\_1 & \textcolor{darkgray}{\textbf{UNVERIFIABLE}} & mgmt only \\"), "{tex}");
    assert!(tex.ends_with("\n\\bottomrule\n\\end{tabularx}\n"), "{tex}");
}

#[test]
fn workloads_section_escapes_and_capitalizes_hosts() {
    let tex = workloads_section(&workloads(), "closing note");
    assert!(tex.contains(r"edge & dns\_cache & service & 1 core \\"), "{tex}");
    assert!(tex.contains(r"\subsection{Guests on Edge}"), "{tex}");
    assert!(tex.contains("closing note"), "{tex}");
}

#[test]
fn devices_section_has_a_subsection_per_device() {
    let tex = devices_section(&devices());
    assert!(tex.starts_with("\n\\section{Device Inventory}\n"), "{tex}");
    assert!(tex.contains(r"\subsection{Edge}"), "{tex}");
    assert!(tex.contains(r"\subsection{Sibyl}"), "{tex}");
}

#[test]
fn expected_offline_is_joined_by_device_id() {
    let d = devices();
    assert!(is_expected_offline(&d, "sibyl"));
    assert!(!is_expected_offline(&d, "edge"));
    assert!(!is_expected_offline(&d, "unknown"));
}

#[test]
fn problem_context_lists_observed_and_declared_gaps() {
    let capex = CapexFile {
        item: vec![CapexItem {
            device: "edge".to_owned(),
            desc: "router".to_owned(),
            usd: 500,
            basis: "estimate".to_owned(),
        }],
    };
    let context = problem_context(&snapshot(), &devices(), &capex);
    let expected = [
        "Sibyl (GPU node) is down, but deliberately offline — expected, not an incident",
        "BMC_1 is UNVERIFIABLE from the LAN",
        "Power draw is TDP-modeled, not metered (no PDU metering).",
        "Capex is seeded with estimates; no invoices recorded yet.",
        "Edge is not registered in the Backstage catalog.",
        "Sibyl is not registered in the Backstage catalog.",
        "Sibyl has no sweep credentials — its hardware facts are unverified.",
    ]
    .join("\n");
    assert_eq!(context, expected);
}

#[test]
fn problem_context_reports_an_unexpected_outage_with_its_detail() {
    let mut d = devices();
    d.device[1].expected_offline = false;
    d.device[1].power_estimate = false;
    d.device[0].power_estimate = false;
    let context = problem_context(&snapshot(), &d, &CapexFile { item: vec![] });
    assert!(context.starts_with("Sibyl (GPU node) is DOWN (no reply)\n"), "{context}");
    assert!(!context.contains("Power draw"), "{context}");
}

#[test]
fn fleet_digest_counts_from_the_inputs() {
    let values = vec![
        ("all_on_typical_kw".to_owned(), "0.20".to_owned()),
        ("all_on_usd_per_month".to_owned(), "43".to_owned()),
    ];
    let digest = fleet_digest(&snapshot(), &devices(), &workloads(), "Site", "2026-07-09", &values);
    assert!(digest.starts_with("Fleet status digest for Site, 2026-07-09.\n"), "{digest}");
    assert!(digest.contains("Probes: 1 of 3 up. Down: Sibyl (GPU node)."), "{digest}");
    assert!(digest.contains("Hosts (2), guests total 2:\n- Edge: 2 guests\n- Sibyl: 0 guests\n"), "{digest}");
    assert!(digest.contains("all-on typical 0.20 kW, about $43/month at $?/kWh."), "{digest}");
}

#[test]
fn tail_keeps_the_end_at_a_char_boundary() {
    let text = "abcé".as_bytes();
    assert_eq!(tail(text, 10), text.to_vec());
    assert_eq!(tail(text, 2), "é".as_bytes().to_vec());
    assert_eq!(tail(text, 1), Vec::<u8>::new());
    assert_eq!(tail(b"hello", 3), b"llo".to_vec());
}

#[test]
fn preamble_names_site_date_and_number() {
    let site = SiteIdentity {
        name: "Bayt & Co".to_owned(),
        operator: "Ops_Team".to_owned(),
        description: "Lab".to_owned(),
    };
    let pre = preamble(&site, "2026-07-09", "INF-0001");
    assert!(pre.starts_with("\\documentclass[11pt]{article}"), "{pre}");
    assert!(pre.contains("\\renewcommand{\\FleetDocNumber}{INF-0001}"), "{pre}");
    assert!(pre.contains("Bayt \\& Co — Lab}"), "{pre}");
    assert!(pre.contains("Ops\\_Team \\quad|\\quad 2026-07-09 \\quad|\\quad INF-0001}"), "{pre}");
}

#[test]
fn document_is_assembled_in_report_order() {
    let doc = assemble_document("P", "S", "T", "D", "W", "G", "PW", "C", "A", "F");
    assert_eq!(
        doc,
        "P\\fleetheading{Executive Summary}\nS\nT\nD\nW\nG\nPW\nC\n\nA\n\nF\n\\end{document}\n"
    );
}

#[test]
fn short_model_prefers_the_alphanumeric_token() {
    assert_eq!(short_model("NVIDIA Tesla V100 SXM2"), "V100");
    assert_eq!(short_model("GeForce RTX 4090"), "4090");
    assert_eq!(short_model("Generic"), "Generic");
}

#[test]
fn topology_without_devices_is_only_the_note() {
    let networks = Networks {
        lan: "192.0.2.0/24".to_owned(),
        fabric: "198.51.100.0/24".to_owned(),
        wan: "fiber".to_owned(),
        mgmt: None,
    };
    let empty = DevicesFile { device: vec![] };
    let tex = topology_section(&empty, &workloads(), &networks, &snapshot(), "note");
    assert_eq!(tex, "\n\\section{System Topology}\nnote");
}

#[test]
fn topology_draws_the_hub_and_its_hosts() {
    let networks = Networks {
        lan: "192.0.2.0/24".to_owned(),
        fabric: "198.51.100.0/24".to_owned(),
        wan: "fiber".to_owned(),
        mgmt: None,
    };
    let mut d = devices();
    d.device[0].role = "edge router".to_owned();
    let tex = topology_section(&d, &workloads(), &networks, &snapshot(), "note");
    assert!(tex.contains("tikzpicture"), "{tex}");
    assert!(tex.contains("Edge"), "{tex}");
    assert!(tex.contains("Sibyl"), "{tex}");
}
