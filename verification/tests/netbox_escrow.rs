use rollcall::json::{as_i64, as_str, copy_json, get, Json, JsonNumber};
use rollcall::netbox::canonical::canonicalize_objects;
use rollcall::netbox::declared::load_declared;
use rollcall::netbox::logical::logical_view;
use rollcall::netbox::pull::{escrow_key, read_page, token_from, PageOutcome, ENDPOINTS};
use rollcall::netbox::restore::{query_string, truncate, urlencode, value_of, RestoreReport};
use rollcall::inventory::workloads::{GuestKind, GuestStatus, IpAssignment};

fn to_json(v: &serde_json::Value) -> Json {
    match v {
        serde_json::Value::Null => Json::Null,
        serde_json::Value::Bool(b) => Json::Bool(*b),
        serde_json::Value::Number(n) => Json::Number(JsonNumber {
            int: n.as_i64(),
            text: n.to_string(),
        }),
        serde_json::Value::String(s) => Json::Str(s.clone()),
        serde_json::Value::Array(a) => Json::Array(a.iter().map(to_json).collect()),
        serde_json::Value::Object(m) => {
            Json::Object(m.iter().map(|(k, x)| (k.clone(), to_json(x))).collect())
        }
    }
}

fn from_json(v: &Json) -> serde_json::Value {
    match v {
        Json::Null => serde_json::Value::Null,
        Json::Bool(b) => serde_json::Value::Bool(*b),
        Json::Number(n) => serde_json::Value::Number(n.text.parse().expect("number text")),
        Json::Str(s) => serde_json::Value::String(s.clone()),
        Json::Array(a) => serde_json::Value::Array(a.iter().map(from_json).collect()),
        Json::Object(m) => serde_json::Value::Object(m.iter().map(|(k, x)| (k.clone(), from_json(x))).collect()),
    }
}

fn json(text: &str) -> Json {
    to_json(&serde_json::from_str::<serde_json::Value>(text).expect("test JSON"))
}

fn objects(text: &str) -> Vec<Json> {
    match json(text) {
        Json::Array(a) => a,
        other => panic!("expected an array, got {other:?}"),
    }
}

fn id_of(v: &Json) -> Option<i64> {
    as_i64(get(v, "id"))
}

#[test]
fn strips_volatile_keys_recursively_and_sorts_by_id() {
    let raw = objects(
        r#"[
        {"id": 7, "name": "compute-b", "url": "http://x/api/dcim/devices/7/",
         "display": "compute-b", "created": "2026-07-05T01:00:00Z",
         "last_updated": "2026-07-05T02:00:00Z",
         "site": {"id": 1, "name": "site-a", "url": "http://x/api/dcim/sites/1/", "display": "site-a"},
         "tags": [{"id": 3, "display": "t"}]},
        {"id": 2, "name": "store", "url": "http://x/2/"}
    ]"#,
    );
    let canonical = canonicalize_objects(raw);

    assert_eq!(id_of(&canonical[0]), Some(2), "sorted by id");
    assert_eq!(id_of(&canonical[1]), Some(7));
    let device = &canonical[1];
    assert!(get(device, "url").is_none());
    assert!(get(device, "created").is_none());
    assert!(get(device, "last_updated").is_none());
    let site = get(device, "site").expect("site kept");
    assert!(get(site, "url").is_none(), "nested brief objects stripped");
    match get(device, "tags") {
        Some(Json::Array(tags)) => assert!(get(&tags[0], "display").is_none(), "arrays stripped"),
        other => panic!("tags must stay an array, got {other:?}"),
    }
    assert_eq!(as_str(get(site, "name")), Some("site-a"), "data fields survive");
}

#[test]
fn canonicalization_is_idempotent_and_deterministic() {
    let raw = objects(r#"[{"id": 5, "b": 1, "a": 2, "url": "x"}, {"id": 1, "nested": {"display": "d", "keep": true}}]"#);
    let once = canonicalize_objects(raw);
    let twice = canonicalize_objects(once.iter().map(copy_json).collect());
    assert_eq!(format!("{once:?}"), format!("{twice:?}"), "idempotent");

    let bytes_a = serde_json::to_string(&once.iter().map(from_json).collect::<Vec<_>>()).expect("serializes");
    let bytes_b = serde_json::to_string(&twice.iter().map(from_json).collect::<Vec<_>>()).expect("serializes");
    assert_eq!(bytes_a, bytes_b, "byte-deterministic (serde_json sorts keys)");
}

#[test]
fn objects_without_id_sort_last_not_panic() {
    let raw = objects(r#"[{"name": "no-id"}, {"id": 9}]"#);
    let canonical = canonicalize_objects(raw);
    assert_eq!(id_of(&canonical[0]), Some(9));
    assert_eq!(as_str(get(&canonical[1], "name")), Some("no-id"));
}

const ESCROW: &str = r#"{
    "dcim.devices": [{
        "id": 7, "name": "Compute-B",
        "role": {"slug": "hypervisor"},
        "status": {"value": "active"},
        "primary_ip4": {"address": "192.0.2.5/24"},
        "oob_ip": null,
        "custom_fields": {
            "motherboard": "Example Board X1",
            "cpu_model": "Example EPYC Z1",
            "fabric_hca": "Example HCA H3",
            "ram_gb": 512,
            "power_typical_w": 950, "power_peak_w": 1375, "power_estimate": true
        },
        "comments": "note"
    }],
    "dcim.interfaces": [
        {"id": 10, "name": "lan", "device": {"id": 7}},
        {"id": 20, "name": "fabric", "device": {"id": 7}}
    ],
    "dcim.inventory-items": [
        {"id": 1, "name": "2x Example GPU G2 24 GB",
         "device": {"id": 7}, "description": "450 W each"}
    ],
    "ipam.ip-addresses": [
        {"address": "192.0.2.5/24", "assigned_object_id": 10,
         "assigned_object_type": "dcim.interface"},
        {"address": "198.51.100.5/24", "assigned_object_id": 20,
         "assigned_object_type": "dcim.interface"},
        {"address": "192.0.2.111/24", "assigned_object_id": 10,
         "assigned_object_type": "virtualization.vminterface"},
        {"address": "198.51.100.111/24", "assigned_object_id": 20,
         "assigned_object_type": "virtualization.vminterface"}
    ],
    "virtualization.virtual-machines": [{
        "id": 12, "name": "vm-a",
        "cluster": {"name": "store"},
        "status": {"value": "active"},
        "primary_ip4": {"address": "192.0.2.111/24"},
        "custom_fields": {"vmid": 111, "guest_kind": "vm", "ip_assignment": "declared"},
        "comments": ""
    }],
    "virtualization.interfaces": [
        {"id": 10, "name": "eth0", "virtual_machine": {"id": 12}},
        {"id": 20, "name": "ib0", "virtual_machine": {"id": 12}}
    ]
}"#;

#[test]
fn reconstructs_device_and_guest_from_escrow() {
    let (devices, workloads) = load_declared(ESCROW).expect("escrow adapts");

    let compute_b = &devices.device[0];
    assert_eq!(compute_b.id, "compute-b", "id derived from name");
    assert_eq!(compute_b.ip_lan.as_deref(), Some("192.0.2.5"), "lan iface, mask stripped");
    assert_eq!(
        compute_b.ip_fabric.as_deref(),
        Some("198.51.100.5"),
        "fabric iface — NOT the same-id vminterface's 198.51.100.111"
    );
    assert_eq!(compute_b.motherboard.as_deref(), Some("Example Board X1"));
    assert_eq!(compute_b.cpu_model.as_deref(), Some("Example EPYC Z1"));
    assert_eq!(compute_b.ram_gb, Some(512));
    assert_eq!(compute_b.power_typical_mw, 950_000, "custom int watts in milliwatts");
    assert!(compute_b.power_estimate);
    assert_eq!(compute_b.accelerator.len(), 1);
    assert_eq!(compute_b.accelerator[0].count, 2, "count parsed from '2x ...'");
    assert!(compute_b.accelerator[0].model.contains("G2"));
    assert_eq!(compute_b.accelerator[0].power_each_mw, 450_000);
    assert_eq!(compute_b.role, "Hypervisor (from NetBox)");
    assert_eq!(compute_b.notes.as_deref(), Some("note"));

    let vm = &workloads.guest_record[0];
    assert_eq!(vm.vmid, 111);
    assert_eq!(vm.host, "store");
    assert_eq!(vm.kind, GuestKind::Vm);
    assert_eq!(vm.status, GuestStatus::Running);
    assert_eq!(vm.ip_lan.as_deref(), Some("192.0.2.111"), "eth0, not the same-id dcim iface");
    assert_eq!(vm.ip_fabric.as_deref(), Some("198.51.100.111"));
    assert_eq!(vm.ip_assignment, Some(IpAssignment::Declared));
    assert_eq!(vm.notes, None, "an empty comment is no note");

    let store = workloads
        .guest
        .iter()
        .find(|g| g.host == "store")
        .expect("store placement");
    assert_eq!(store.guests, ["VM111 vm-a (running)"]);
}

#[test]
fn mgmt_only_device_has_no_lan_address() {
    let escrow = r#"{
        "dcim.devices": [{
            "id": 5, "name": "Fabric-Sw",
            "role": {"slug": "fabric-switch"},
            "status": {"value": "active"},
            "primary_ip4": {"address": "203.0.113.7/24"},
            "custom_fields": {}
        }],
        "dcim.interfaces": [{"id": 30, "name": "mgmt", "device": {"id": 5}}],
        "ipam.ip-addresses": [
            {"address": "203.0.113.7/24", "assigned_object_id": 30,
             "assigned_object_type": "dcim.interface"}
        ],
        "virtualization.virtual-machines": []
    }"#;
    let (devices, _workloads) = load_declared(escrow).expect("escrow adapts");
    let m = &devices.device[0];
    assert_eq!(m.ip_lan, None, "no lan interface -> no ip_lan");
    assert_eq!(m.ip_mgmt.as_deref(), Some("203.0.113.7"));
    assert!(m.role.starts_with("Fabric switch"));
}

#[test]
fn container_and_offline_status_map_correctly() {
    let escrow = r#"{
        "dcim.devices": [],
        "virtualization.virtual-machines": [{
            "id": 3, "name": "ct-a", "cluster": {"name": "store"},
            "status": {"value": "offline"},
            "custom_fields": {"vmid": 131, "guest_kind": "ct"}
        }]
    }"#;
    let (_devices, workloads) = load_declared(escrow).expect("escrow adapts");
    let rec = &workloads.guest_record[0];
    assert_eq!(rec.kind, GuestKind::Ct);
    assert_eq!(rec.status, GuestStatus::Stopped);
    assert_eq!(workloads.guest[0].guests, ["CT131 ct-a (stopped)"]);
}

#[test]
fn declared_devices_and_guests_come_out_sorted() {
    let escrow = r#"{
        "dcim.devices": [{"id": 2, "name": "Zeta"}, {"id": 1, "name": "alpha"}],
        "virtualization.virtual-machines": [
            {"id": 3, "name": "b", "cluster": {"name": "zed"}, "custom_fields": {"vmid": 300}},
            {"id": 4, "name": "a", "cluster": {"name": "ann"}, "custom_fields": {"vmid": 200}},
            {"id": 5, "name": "c", "cluster": {"name": "ann"}, "custom_fields": {"vmid": 100}},
            {"id": 6, "name": "no-vmid", "cluster": {"name": "ann"}, "custom_fields": {}}
        ]
    }"#;
    let (devices, workloads) = load_declared(escrow).expect("escrow adapts");
    let ids: Vec<&str> = devices.device.iter().map(|d| d.id.as_str()).collect();
    assert_eq!(ids, ["alpha", "zeta"]);
    let order: Vec<u32> = workloads.guest_record.iter().map(|g| g.vmid).collect();
    assert_eq!(order, [100, 200, 300], "by host, then VMID");
    let hosts: Vec<&str> = workloads.guest.iter().map(|g| g.host.as_str()).collect();
    assert_eq!(hosts, ["ann", "zed"]);
    assert_eq!(workloads.guest[0].guests, ["VM100 c (stopped)", "VM200 a (stopped)"]);
}

#[test]
fn declared_escrow_that_is_not_json_is_refused() {
    assert!(load_declared("{ not json").is_none());
}

#[test]
fn id_reassignment_does_not_change_the_logical_view() {
    let before = json(
        r#"{
        "dcim.devices": [{
            "id": 7, "name": "Compute-B",
            "device_type": {"id": 5, "slug": "example-board-x1"},
            "site": {"id": 1, "slug": "example-fleet"},
            "status": {"value": "active", "label": "Active"},
            "custom_fields": {"ram_gb": 512}
        }],
        "dcim.interfaces": [{"id": 10, "name": "lan", "device": {"id": 7, "name": "Compute-B"}}],
        "ipam.ip-addresses": [{
            "id": 99, "address": "192.0.2.5/24",
            "assigned_object_type": "dcim.interface", "assigned_object_id": 10
        }]
    }"#,
    );
    let after = json(
        r#"{
        "dcim.devices": [{
            "id": 41, "name": "Compute-B",
            "device_type": {"id": 88, "slug": "example-board-x1"},
            "site": {"id": 3, "slug": "example-fleet"},
            "status": {"value": "active", "label": "Active"},
            "custom_fields": {"ram_gb": 512}
        }],
        "dcim.interfaces": [{"id": 200, "name": "lan", "device": {"id": 41, "name": "Compute-B"}}],
        "ipam.ip-addresses": [{
            "id": 500, "address": "192.0.2.5/24",
            "assigned_object_type": "dcim.interface", "assigned_object_id": 200
        }]
    }"#,
    );
    assert_eq!(
        format!("{:?}", logical_view(&before)),
        format!("{:?}", logical_view(&after)),
        "logical views must match despite reassigned ids"
    );
}

#[test]
fn a_real_change_is_visible_in_the_logical_view() {
    let base = json(
        r#"{
        "dcim.interfaces": [
            {"id": 10, "name": "lan", "device": {"id": 7, "name": "Compute-B"}},
            {"id": 11, "name": "fabric", "device": {"id": 7, "name": "Compute-B"}}
        ],
        "ipam.ip-addresses": [{
            "id": 99, "address": "192.0.2.5/24",
            "assigned_object_type": "dcim.interface", "assigned_object_id": 10
        }]
    }"#,
    );
    let moved = json(
        r#"{
        "dcim.interfaces": [
            {"id": 10, "name": "lan", "device": {"id": 7, "name": "Compute-B"}},
            {"id": 11, "name": "fabric", "device": {"id": 7, "name": "Compute-B"}}
        ],
        "ipam.ip-addresses": [{
            "id": 99, "address": "192.0.2.5/24",
            "assigned_object_type": "dcim.interface", "assigned_object_id": 11
        }]
    }"#,
    );
    assert_ne!(
        format!("{:?}", logical_view(&base)),
        format!("{:?}", logical_view(&moved)),
        "an IP rebound to a different interface must be a logical difference"
    );
}

#[test]
fn description_edit_is_visible() {
    let a = json(r#"{"ipam.vlans": [{"id": 1, "vid": 30, "name": "x", "description": "before"}]}"#);
    let b = json(r#"{"ipam.vlans": [{"id": 1, "vid": 30, "name": "x", "description": "after"}]}"#);
    assert_ne!(format!("{:?}", logical_view(&a)), format!("{:?}", logical_view(&b)));
}

#[test]
fn logical_ip_names_its_interface_and_sheds_its_ids() {
    let escrow = json(
        r#"{
        "dcim.interfaces": [{"id": 10, "name": "lan", "device": {"id": 7, "name": "Compute-B"}}],
        "ipam.ip-addresses": [{
            "id": 99, "address": "192.0.2.5/24",
            "assigned_object_type": "dcim.interface", "assigned_object_id": 10
        }]
    }"#,
    );
    let view = logical_view(&escrow);
    let ips = match get(&view, "ipam.ip-addresses") {
        Some(Json::Array(a)) => a,
        other => panic!("ip list expected, got {other:?}"),
    };
    assert_eq!(as_str(get(&ips[0], "assigned_object")), Some("Compute-B/lan"));
    assert!(get(&ips[0], "id").is_none());
    assert!(get(&ips[0], "assigned_object_id").is_none());
}

#[test]
fn escrow_covers_vlans_and_ip_addresses() {
    assert!(ENDPOINTS.contains(&"ipam/vlans"), "VLANs are in the escrow");
    assert!(
        ENDPOINTS.contains(&"ipam/ip-addresses"),
        "IP addresses (incl. WireGuard peer addresses) are in the escrow"
    );
    assert!(ENDPOINTS.contains(&"ipam/prefixes"));
}

#[test]
fn escrow_excludes_credentials_and_has_no_duplicates() {
    for endpoint in ENDPOINTS {
        assert!(
            !endpoint.starts_with("users/") && !endpoint.contains("secret"),
            "escrow must not pull credential endpoint {endpoint}"
        );
    }
    let mut sorted = ENDPOINTS.to_vec();
    sorted.sort_unstable();
    sorted.dedup();
    assert_eq!(sorted.len(), ENDPOINTS.len(), "no duplicate endpoints");
}

#[test]
fn escrow_keys_swap_slashes_for_dots() {
    assert_eq!(escrow_key("dcim/device-types"), "dcim.device-types");
}

#[test]
fn a_token_file_is_trimmed_and_must_not_be_blank() {
    assert_eq!(token_from("  abc123\n").as_deref(), Some("abc123"));
    assert!(token_from(" \n").is_none());
}

#[test]
fn pages_are_followed_until_next_is_null() {
    match read_page(200, r#"{"results": [{"id": 1}], "next": "http://nb/api/x/?offset=1"}"#) {
        PageOutcome::More { objects, next } => {
            assert_eq!(objects.len(), 1);
            assert_eq!(next, "http://nb/api/x/?offset=1");
        }
        other => panic!("expected more, got {other:?}"),
    }
    match read_page(200, r#"{"results": [], "next": null}"#) {
        PageOutcome::Done { objects } => assert!(objects.is_empty()),
        other => panic!("expected done, got {other:?}"),
    }
    match read_page(403, "forbidden") {
        PageOutcome::Refused { detail } => assert_eq!(
            detail,
            "HTTP 403 (is the reconciler token authorized for this endpoint?)"
        ),
        other => panic!("expected refusal, got {other:?}"),
    }
    assert!(matches!(read_page(200, "{"), PageOutcome::Unparsable));
    assert!(matches!(read_page(200, r#"{"detail": "x"}"#), PageOutcome::NoResults));
}

#[test]
fn value_of_reduces_enum_and_passes_strings() {
    let obj = json(r#"{"status": {"value": "active", "label": "Active"}, "plain": "x"}"#);
    assert_eq!(format!("{:?}", value_of(&obj, "status")), format!("{:?}", Json::Str("active".to_owned())));
    assert_eq!(format!("{:?}", value_of(&obj, "plain")), format!("{:?}", Json::Str("x".to_owned())));
    assert_eq!(format!("{:?}", value_of(&obj, "missing")), format!("{:?}", Json::Null));
}

#[test]
fn restore_report_accumulates() {
    let mut r = RestoreReport::default();
    r.created += 3;
    r.existing += 1;
    assert_eq!(
        r,
        RestoreReport {
            created: 3,
            existing: 1
        }
    );
}

#[test]
fn query_values_are_percent_encoded_bytewise() {
    assert_eq!(urlencode("a b/c~d"), "a%20b%2Fc~d");
    assert_eq!(urlencode("é"), "%C3%A9");
    let q = vec![("name".to_owned(), "vm a".to_owned()), ("slug".to_owned(), "x".to_owned())];
    assert_eq!(query_string(&q), "name=vm%20a&slug=x");
}

#[test]
fn error_bodies_are_cut_at_three_hundred_characters() {
    let long = "é".repeat(400);
    assert_eq!(truncate(&long).chars().count(), 300);
    assert_eq!(truncate("short"), "short");
}

#[test]
fn rebuilt_escrow_listed_in_another_order_has_the_same_logical_view() {
    let before = json(
        r#"{
        "dcim.sites": [{"id": 1, "slug": "example-fleet", "name": "Example Fleet"}],
        "dcim.interfaces": [
            {"id": 10, "name": "lan", "device": {"id": 7, "name": "Compute-B"}},
            {"id": 11, "name": "fabric", "device": {"id": 7, "name": "Compute-B"}}
        ],
        "ipam.ip-addresses": [
            {"id": 98, "address": "192.0.2.5/24",
             "assigned_object_type": "dcim.interface", "assigned_object_id": 10},
            {"id": 99, "address": "198.51.100.5/24",
             "assigned_object_type": "dcim.interface", "assigned_object_id": 11}
        ],
        "virtualization.clusters": [{"id": 4, "name": "pve", "scope_type": "dcim.site", "scope_id": 1}]
    }"#,
    );
    let after = json(
        r#"{
        "dcim.sites": [{"id": 6, "slug": "example-fleet", "name": "Example Fleet"}],
        "dcim.interfaces": [
            {"id": 301, "name": "fabric", "device": {"id": 40, "name": "Compute-B"}},
            {"id": 302, "name": "lan", "device": {"id": 40, "name": "Compute-B"}}
        ],
        "ipam.ip-addresses": [
            {"id": 501, "address": "198.51.100.5/24",
             "assigned_object_type": "dcim.interface", "assigned_object_id": 301},
            {"id": 502, "address": "192.0.2.5/24",
             "assigned_object_type": "dcim.interface", "assigned_object_id": 302}
        ],
        "virtualization.clusters": [{"id": 9, "name": "pve", "scope_type": "dcim.site", "scope_id": 6}]
    }"#,
    );
    assert_eq!(
        format!("{:?}", logical_view(&before)),
        format!("{:?}", logical_view(&after)),
        "objects listed in another order with new ids must give the same logical view"
    );
}

#[test]
fn pulls_returning_the_same_objects_in_another_order_canonicalize_alike() {
    let first = objects(
        r#"[{"id": 9, "name": "c", "display": "c"}, {"id": 2, "name": "a", "url": "u"}, {"id": 5, "name": "b"}]"#,
    );
    let second = objects(
        r#"[{"id": 5, "name": "b"}, {"id": 9, "name": "c", "display": "c"}, {"id": 2, "name": "a", "url": "u"}]"#,
    );
    let one = canonicalize_objects(first);
    let two = canonicalize_objects(second);
    assert_eq!(format!("{one:?}"), format!("{two:?}"));
    let ids: Vec<Option<i64>> = one.iter().map(id_of).collect();
    assert_eq!(ids, [Some(2), Some(5), Some(9)]);
}

#[test]
fn accelerator_power_is_read_in_every_float_spelling() {
    let power = |description: &str| {
        let escrow = ESCROW.replace("450 W each", description);
        let (devices, _) = load_declared(&escrow).expect("escrow adapts");
        devices.device[0].accelerator[0].power_each_mw
    };
    assert_eq!(power("450 W each"), 450_000);
    assert_eq!(power("4.5e2 W each"), 450_000);
    assert_eq!(power("0.0125 W"), 13);
    assert_eq!(power("1E-3"), 1);
    assert_eq!(power("inf W"), i64::MAX);
    assert_eq!(power("-Infinity W"), i64::MIN);
    assert_eq!(power("NaN W"), 0);
    assert_eq!(power("about 450 W"), 0);
}
