use rollcall::facts::reconcile::{model_token, reconcile, CheckState};
use rollcall::facts::schema::{
    AccessState, AddressFacts, FactsFile, GpuFacts, GuestFacts, GuestKind, HostFacts, HostReport,
};
use rollcall::inventory::devices::{Accelerator, CollectorKind, Device, DevicesFile};
use rollcall::inventory::workloads::{GuestPlacement, WorkloadsFile};

fn facts_for(id: &str, facts: HostFacts) -> FactsFile {
    FactsFile {
        collected_at: "t".to_owned(),
        hosts: vec![HostReport {
            id: id.to_owned(),
            access: AccessState::Okay,
            error: None,
            facts: Some(facts),
        }],
    }
}

/// The declared node: a hypervisor with two accelerator groups.
fn node() -> DevicesFile {
    DevicesFile {
        device: vec![Device {
            id: "node".to_owned(),
            name: "Node".to_owned(),
            role: "r".to_owned(),
            model: None,
            ip_lan: Some("192.0.2.5".to_owned()),
            ip_fabric: None,
            ip_mgmt: None,
            ssh: Some("root@192.0.2.5".to_owned()),
            collector: CollectorKind::Linux,
            bmc: None,
            motherboard: Some("Vendor Board-1".to_owned()),
            cpu: None,
            cpu_model: Some("EPYC 1234X".to_owned()),
            ram_gb: Some(512),
            fabric_hca: Some("Example HCA H3".to_owned()),
            disks: vec![],
            power_typical_mw: 100_000,
            power_peak_mw: 200_000,
            power_estimate: false,
            expected_offline: false,
            source_of_truth: None,
            notes: None,
            accelerator: vec![
                Accelerator {
                    model: "Example GPU G2 24 GB".to_owned(),
                    count: 2,
                    power_each_mw: 450_000,
                },
                Accelerator {
                    model: "Example FPGA F200".to_owned(),
                    count: 1,
                    power_each_mw: 225_000,
                },
            ],
        }],
    }
}

fn no_workloads() -> WorkloadsFile {
    WorkloadsFile {
        workload: vec![],
        guest: vec![],
        guest_record: vec![],
    }
}

fn matching_facts() -> HostFacts {
    HostFacts {
        motherboard: Some("Vendor Board-1".to_owned()),
        cpu_model: Some("AMD EPYC 1234X 64-Core Processor".to_owned()),
        ram_installed_gb: Some(512),
        gpus: vec![
            GpuFacts {
                name: "Example GPU G2".to_owned(),
                memory_mib: 24564,
            },
            GpuFacts {
                name: "Example GPU G2".to_owned(),
                memory_mib: 24564,
            },
        ],
        pci_devices: vec![
            "Network controller: Example HCA H3".to_owned(),
            "Processing accelerators: Example Accel F200".to_owned(),
        ],
        addresses: vec![AddressFacts {
            interface: "vmbr0".to_owned(),
            addresses: vec!["192.0.2.5/24".to_owned()],
        }],
        ..HostFacts::default()
    }
}

#[test]
fn matching_device_reconciles_clean() {
    let results = reconcile(&node(), &no_workloads(), &facts_for("node", matching_facts()));
    let drifts: Vec<_> = results
        .iter()
        .filter(|r| r.state == CheckState::Drift)
        .collect();
    assert!(drifts.is_empty(), "unexpected drift: {drifts:?}");
    assert!(results
        .iter()
        .any(|r| r.check == "motherboard" && r.state == CheckState::Okay));
    assert!(results
        .iter()
        .filter(|r| r.check == "accelerator")
        .all(|r| r.state == CheckState::Okay));
}

#[test]
fn absent_accelerator_is_drift() {
    let mut facts = matching_facts();
    facts.pci_devices.pop();
    let results = reconcile(&node(), &no_workloads(), &facts_for("node", facts));
    let f200 = results
        .iter()
        .find(|r| r.check == "accelerator" && r.detail.contains("F200"))
        .expect("F200 check present");
    assert_eq!(f200.state, CheckState::Drift);
    assert!(
        f200.detail.contains("observed 0"),
        "detail: {}",
        f200.detail
    );
}

#[test]
fn ram_mismatch_is_drift() {
    let mut facts = matching_facts();
    facts.ram_installed_gb = Some(256);
    let results = reconcile(&node(), &no_workloads(), &facts_for("node", facts));
    let ram = results
        .iter()
        .find(|r| r.check == "ram_gb")
        .expect("ram check");
    assert_eq!(ram.state, CheckState::Drift);
}

#[test]
fn no_ssh_and_failed_sweeps_are_unverified_not_drift() {
    let file = FactsFile {
        collected_at: "t".to_owned(),
        hosts: vec![HostReport {
            id: "node".to_owned(),
            access: AccessState::NoSshConfigured,
            error: None,
            facts: None,
        }],
    };
    let results = reconcile(&node(), &no_workloads(), &file);
    assert_eq!(results.len(), 1);
    assert_eq!(results[0].state, CheckState::Unverified);
    assert!(!results.iter().any(|r| r.state == CheckState::Drift));
}

#[test]
fn guest_drift_reports_both_directions_and_name_mismatches() {
    let placement = WorkloadsFile {
        workload: vec![],
        guest: vec![GuestPlacement {
            host: "node".to_owned(),
            guests: vec![
                "VM100 web (running)".to_owned(),
                "CT200 db (running)".to_owned(),
                "VM101 gone".to_owned(),
            ],
        }],
        guest_record: vec![],
    };
    let mut facts = matching_facts();
    facts.guests = vec![
        GuestFacts {
            kind: GuestKind::Vm,
            vmid: 100,
            name: "web-renamed".to_owned(),
            status: "running".to_owned(),
        },
        GuestFacts {
            kind: GuestKind::Ct,
            vmid: 200,
            name: "db".to_owned(),
            status: "running".to_owned(),
        },
        GuestFacts {
            kind: GuestKind::Vm,
            vmid: 300,
            name: "surprise".to_owned(),
            status: "stopped".to_owned(),
        },
    ];
    let results = reconcile(&node(), &placement, &facts_for("node", facts));
    let guests = results
        .iter()
        .find(|r| r.check == "guests")
        .expect("guests check");
    assert_eq!(guests.state, CheckState::Drift);
    assert!(guests.detail.contains("VM101 gone declared but absent"));
    assert!(guests
        .detail
        .contains("VM300 surprise (stopped) present but undeclared"));
    assert!(guests.detail.contains("VM100 declared as \"web\""));
    assert!(
        !guests.detail.contains("CT200"),
        "matching guest must not appear"
    );
}

#[test]
fn model_token_extraction() {
    assert_eq!(model_token("Example GPU G2 24 GB"), Some("G2"));
    assert_eq!(model_token("Example GPU G1 32 GB"), Some("G1"));
    assert_eq!(model_token("Example FPGA F200"), Some("F200"));
    assert_eq!(model_token("Mystery Accelerator"), None);
}

#[test]
fn a_sweep_that_failed_is_unverified_with_its_error() {
    let file = FactsFile {
        collected_at: "t".to_owned(),
        hosts: vec![HostReport {
            id: "node".to_owned(),
            access: AccessState::Failed,
            error: Some("ssh: connection refused".to_owned()),
            facts: None,
        }],
    };
    let results = reconcile(&node(), &no_workloads(), &file);
    assert_eq!(results.len(), 1);
    assert_eq!(results[0].state, CheckState::Unverified);
    assert!(results[0].detail.contains("connection refused"));
}

#[test]
fn a_device_missing_from_the_sweep_is_unverified() {
    let file = FactsFile {
        collected_at: "t".to_owned(),
        hosts: vec![],
    };
    let results = reconcile(&node(), &no_workloads(), &file);
    assert_eq!(results.len(), 1);
    assert_eq!(results[0].state, CheckState::Unverified);
}
