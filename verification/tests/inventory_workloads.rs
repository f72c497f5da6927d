use rollcall::inventory::workloads::{
    GuestKind, GuestPlacement, GuestRecord, GuestStatus, IpAssignment, Workload, WorkloadsFile,
};

/// The declared workloads of the storage host, as the inventory records them.
fn fixture_workloads() -> WorkloadsFile {
    let rec = |vmid: u32, name: &str, kind: GuestKind, status: GuestStatus, notes: Option<&str>| GuestRecord {
        vmid,
        name: name.to_owned(),
        host: "store".to_owned(),
        kind,
        ip_lan: Some(format!("192.0.2.{vmid}")),
        ip_fabric: None,
        ip_assignment: Some(IpAssignment::Declared),
        status,
        notes: notes.map(str::to_owned),
    };
    WorkloadsFile {
        workload: vec![Workload {
            node: "store".to_owned(),
            name: "backups".to_owned(),
            kind: "storage".to_owned(),
            resources: "4 TB".to_owned(),
        }],
        guest: vec![GuestPlacement {
            host: "store".to_owned(),
            guests: vec!["CT109 ct-b (stopped)".to_owned(), "VM110 vm-a (running)".to_owned()],
        }],
        guest_record: vec![
            rec(109, "ct-b", GuestKind::Ct, GuestStatus::Stopped, Some("renumbered")),
            rec(110, "vm-a", GuestKind::Vm, GuestStatus::Running, None),
            rec(111, "vm-b", GuestKind::Vm, GuestStatus::Running, None),
        ],
    }
}

#[test]
fn parses_fixture_workloads_file() {
    let workloads = fixture_workloads();
    assert!(!workloads.workload.is_empty());
    assert!(!workloads.guest.is_empty());
    for placement in &workloads.guest {
        assert!(
            !placement.guests.is_empty(),
            "{}: empty guest list",
            placement.host
        );
    }
}

#[test]
fn parses_typed_guest_registry() {
    let workloads = fixture_workloads();
    assert!(!workloads.guest_record.is_empty(), "registry populated");

    let ct_b = workloads
        .guest_record
        .iter()
        .find(|g| g.name == "ct-b")
        .expect("ct-b in the registry");
    assert_eq!(ct_b.vmid, 109);
    assert_eq!(ct_b.host, "store");
    assert_eq!(ct_b.kind, GuestKind::Ct);
    assert_eq!(ct_b.status, GuestStatus::Stopped);
    assert_eq!(ct_b.ip_lan.as_deref(), Some("192.0.2.109"));
    assert!(ct_b.notes.is_some());
}

#[test]
fn ip_assignment_mechanism_is_distinct_from_the_address_itself() {
    let workloads = fixture_workloads();

    let vm_b = workloads
        .guest_record
        .iter()
        .find(|g| g.vmid == 111)
        .expect("vm-b in the registry");
    assert_eq!(vm_b.ip_assignment, Some(IpAssignment::Declared));

    let vm_a = workloads
        .guest_record
        .iter()
        .find(|g| g.vmid == 110)
        .expect("vm-a in the registry");
    assert_eq!(vm_a.ip_assignment, Some(IpAssignment::Declared));
}

#[test]
fn guest_kinds_render_their_id_prefix() {
    assert_eq!(GuestKind::Vm.prefix(), "VM");
    assert_eq!(GuestKind::Ct.prefix(), "CT");
}
