use rollcall::inventory::devices::{CollectorKind, Device, DevicesFile};
use rollcall::inventory::registry::{validate_registry, RegistryConflict};
use rollcall::inventory::workloads::{
    GuestKind, GuestPlacement, GuestRecord, GuestStatus, IpAssignment, Workload, WorkloadsFile,
};

fn device(id: &str, ip_lan: Option<&str>, ip_mgmt: Option<&str>) -> Device {
    Device {
        id: id.to_owned(),
        name: id.to_owned(),
        role: "host".to_owned(),
        model: None,
        ip_lan: ip_lan.map(str::to_owned),
        ip_fabric: None,
        ip_mgmt: ip_mgmt.map(str::to_owned),
        ssh: None,
        collector: CollectorKind::Linux,
        bmc: None,
        motherboard: None,
        cpu: None,
        cpu_model: None,
        ram_gb: None,
        fabric_hca: None,
        disks: vec![],
        power_typical_mw: 100_000,
        power_peak_mw: 200_000,
        power_estimate: true,
        expected_offline: false,
        source_of_truth: None,
        notes: None,
        accelerator: vec![],
    }
}

fn record(vmid: u32, name: &str, kind: GuestKind, ip: &str, status: GuestStatus) -> GuestRecord {
    GuestRecord {
        vmid,
        name: name.to_owned(),
        host: "store".to_owned(),
        kind,
        ip_lan: Some(ip.to_owned()),
        ip_fabric: None,
        ip_assignment: Some(IpAssignment::Declared),
        status,
        notes: None,
    }
}

/// The declared inventory: an edge router, a storage hypervisor and its
/// registered guests (one of them claimed before creation).
fn fixture_devices_and_workloads() -> (DevicesFile, WorkloadsFile) {
    let devices = DevicesFile {
        device: vec![
            device("edge", Some("192.0.2.1"), None),
            device("store", Some("192.0.2.5"), None),
            device("fabric-sw", None, Some("203.0.113.7")),
        ],
    };
    let workloads = WorkloadsFile {
        workload: vec![Workload {
            node: "store".to_owned(),
            name: "backups".to_owned(),
            kind: "storage".to_owned(),
            resources: "4 TB".to_owned(),
        }],
        guest: vec![GuestPlacement {
            host: "store".to_owned(),
            guests: vec!["VM110 vm-a (running)".to_owned(), "VM111 vm-b (running)".to_owned()],
        }],
        guest_record: vec![
            record(109, "ct-b", GuestKind::Ct, "192.0.2.109", GuestStatus::Stopped),
            record(110, "vm-a", GuestKind::Vm, "192.0.2.110", GuestStatus::Running),
            record(111, "vm-b", GuestKind::Vm, "192.0.2.111", GuestStatus::Running),
            record(114, "ct-reserved", GuestKind::Ct, "192.0.2.114", GuestStatus::Stopped),
        ],
    };
    (devices, workloads)
}

#[test]
fn fixture_inventory_has_no_allocation_collisions() {
    let (devices, workloads) = fixture_devices_and_workloads();
    let conflicts = validate_registry(&devices, &workloads);
    assert!(
        conflicts.is_empty(),
        "declared allocations collide: {conflicts:?}"
    );
}

#[test]
fn registry_is_populated_with_the_declared_vms() {
    let (_devices, workloads) = fixture_devices_and_workloads();
    let find = |vmid: u32| workloads.guest_record.iter().find(|g| g.vmid == vmid);

    let vm_a = find(110).expect("vm-a (VM110) in the registry");
    assert_eq!(vm_a.host, "store");
    assert_eq!(vm_a.ip_lan.as_deref(), Some("192.0.2.110"));

    let vm_b = find(111).expect("vm-b (VM111) in the registry");
    assert_eq!(vm_b.host, "store");
    assert_eq!(vm_b.ip_lan.as_deref(), Some("192.0.2.111"));
}

#[test]
fn claim_before_creation_row_is_registered() {
    let (_devices, workloads) = fixture_devices_and_workloads();
    let claimed = workloads
        .guest_record
        .iter()
        .find(|g| g.vmid == 114)
        .expect("CT114 in the registry");

    assert_eq!(claimed.host, "store");
    assert_eq!(claimed.kind, GuestKind::Ct);
    assert_eq!(claimed.ip_lan.as_deref(), Some("192.0.2.114"));
}

#[test]
fn double_booking_a_vmid_and_ip_on_one_host_collides() {
    let (devices, mut workloads) = fixture_devices_and_workloads();

    workloads.guest_record.push(GuestRecord {
        vmid: 111,
        name: "ct-x".to_owned(),
        host: "store".to_owned(),
        kind: GuestKind::Ct,
        ip_lan: Some("192.0.2.111".to_owned()),
        ip_fabric: None,
        ip_assignment: None,
        status: GuestStatus::Stopped,
        notes: None,
    });

    let conflicts = validate_registry(&devices, &workloads);
    assert!(
        conflicts.iter().any(|c| matches!(
            c,
            RegistryConflict::DuplicateVmid { host, vmid: 111, .. } if host == "store"
        )),
        "expected a VMID 111 collision on store, got {conflicts:?}"
    );
    assert!(
        conflicts.iter().any(|c| matches!(
            c,
            RegistryConflict::DuplicateIp { ip, .. } if ip == "192.0.2.111"
        )),
        "expected an IP 192.0.2.111 collision, got {conflicts:?}"
    );
}

#[test]
fn the_same_vmid_on_two_hosts_is_not_a_collision() {
    let (devices, mut workloads) = fixture_devices_and_workloads();
    let mut elsewhere = record(110, "vm-a-twin", GuestKind::Vm, "192.0.2.210", GuestStatus::Running);
    elsewhere.host = "edge".to_owned();
    workloads.guest_record.push(elsewhere);
    assert!(validate_registry(&devices, &workloads).is_empty());
}

#[test]
fn a_guest_claiming_a_device_address_collides() {
    let (devices, mut workloads) = fixture_devices_and_workloads();
    workloads
        .guest_record
        .push(record(120, "squatter", GuestKind::Vm, "192.0.2.5", GuestStatus::Running));
    let conflicts = validate_registry(&devices, &workloads);
    assert_eq!(conflicts.len(), 1);
    match &conflicts[0] {
        RegistryConflict::DuplicateIp { ip, holders } => {
            assert_eq!(ip, "192.0.2.5");
            assert_eq!(holders.len(), 2);
        }
        other => panic!("expected an IP collision, got {other:?}"),
    }
    assert!(conflicts[0].describe().starts_with("IP 192.0.2.5 claimed by 2 owners: "));
}

#[test]
fn a_vmid_conflict_describes_itself() {
    let conflict = RegistryConflict::DuplicateVmid {
        host: "store".to_owned(),
        vmid: 111,
        holders: vec!["VM111 vm-b".to_owned(), "CT111 ct-x".to_owned()],
    };
    assert_eq!(
        conflict.describe(),
        "VMID 111 declared 2 times on store: VM111 vm-b, CT111 ct-x"
    );
}

#[test]
fn one_owner_holding_one_address_on_two_networks_is_not_a_duplicate() {
    let devices = DevicesFile { device: vec![device("sw", Some("192.0.2.9"), Some("192.0.2.9"))] };
    let workloads = WorkloadsFile { workload: vec![], guest: vec![], guest_record: vec![] };
    assert!(validate_registry(&devices, &workloads).is_empty());

    let mut guest = record(101, "vm-a", GuestKind::Vm, "192.0.2.40", GuestStatus::Running);
    guest.ip_fabric = Some("192.0.2.40".to_owned());
    let workloads = WorkloadsFile { workload: vec![], guest: vec![], guest_record: vec![guest.clone()] };
    let none = DevicesFile { device: vec![] };
    assert!(validate_registry(&none, &workloads).is_empty());

    let mut other = record(102, "vm-b", GuestKind::Vm, "192.0.2.40", GuestStatus::Running);
    other.ip_fabric = Some("192.0.2.40".to_owned());
    let workloads = WorkloadsFile { workload: vec![], guest: vec![], guest_record: vec![guest, other] };
    match validate_registry(&none, &workloads).as_slice() {
        [RegistryConflict::DuplicateIp { ip, holders }] => {
            assert_eq!(ip, "192.0.2.40");
            assert_eq!(holders.len(), 2, "each owner listed once");
        }
        other => panic!("expected one IP collision, got {other:?}"),
    }
}
