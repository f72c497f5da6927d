use rollcall::json::{Json, JsonNumber};
use rollcall::netbox::plan::{RestoreAction, RestoreFault, RestoreRun, WipeAction, WipeRun};
use rollcall::netbox::pull::{PullAction, PullFault, PullRun};

fn to_json(v: &serde_json::Value) -> Json {
    match v {
        serde_json::Value::Null => Json::Null,
        serde_json::Value::Bool(b) => Json::Bool(*b),
        serde_json::Value::Number(n) => Json::Number(JsonNumber { int: n.as_i64(), text: n.to_string() }),
        serde_json::Value::String(s) => Json::Str(s.clone()),
        serde_json::Value::Array(a) => Json::Array(a.iter().map(to_json).collect()),
        serde_json::Value::Object(m) => Json::Object(m.iter().map(|(k, x)| (k.clone(), to_json(x))).collect()),
    }
}

fn escrow() -> Json {
    let text = r#"{
        "dcim.sites": [{"id": 1, "name": "Lab", "slug": "lab"}],
        "dcim.manufacturers": [{"id": 2, "name": "Acme", "slug": "acme"}],
        "dcim.device-roles": [{"id": 3, "name": "Host", "slug": "host"}],
        "dcim.device-types": [{"id": 4, "model": "X1", "slug": "x1", "manufacturer": {"id": 2, "slug": "acme"}}],
        "dcim.devices": [{"id": 5, "name": "store", "device_type": {"slug": "x1"}, "role": {"slug": "host"},
                          "site": {"slug": "lab"}, "status": {"value": "active", "label": "Active"},
                          "primary_ip4": {"address": "192.0.2.5/24"}}],
        "dcim.interfaces": [{"id": 6, "name": "eth0", "device": {"id": 5, "name": "store"}},
                            {"id": 7, "name": "eth1", "device": {"name": "ghost"}}],
        "ipam.ip-addresses": [{"id": 8, "address": "192.0.2.5/24", "assigned_object_type": "dcim.interface",
                               "assigned_object_id": 6}]
    }"#;
    to_json(&serde_json::from_str::<serde_json::Value>(text).expect("test escrow"))
}

/// Drives a run against a server that answers every lookup with `lookup`
/// and assigns created objects ids from 100 up; returns the requests.
fn drive(run: &mut RestoreRun, lookup: &str) -> Vec<String> {
    let mut log = Vec::new();
    let mut next_id = 100;
    loop {
        match run.step() {
            RestoreAction::Continue => {}
            RestoreAction::Done => return log,
            RestoreAction::Lookup(path) => {
                log.push(format!("GET {path}"));
                match run.looked_up(lookup).expect("lookup answer") {
                    None => {}
                    Some(RestoreAction::Create(path, body)) => {
                        log.push(format!("POST {path} {body}"));
                        run.created(201, &format!("{{\"id\": {next_id}}}")).expect("created");
                        next_id += 1;
                    }
                    Some(other) => panic!("unexpected {other:?}"),
                }
            }
            RestoreAction::Update(path, body) => {
                log.push(format!("PATCH {path} {body}"));
                run.updated(200, "{}").expect("updated");
            }
            RestoreAction::Create(..) => panic!("a step never creates directly"),
        }
    }
}

#[test]
fn restore_creates_in_dependency_order_and_rebinds_references() {
    let mut run = RestoreRun::new(escrow());
    let log = drive(&mut run, r#"{"count": 0, "results": []}"#);
    let expected = [
        "GET /api/dcim/sites/?name=Lab&slug=lab",
        r#"POST /api/dcim/sites/ {"name":"Lab","slug":"lab"}"#,
        "GET /api/dcim/manufacturers/?name=Acme&slug=acme",
        r#"POST /api/dcim/manufacturers/ {"name":"Acme","slug":"acme"}"#,
        "GET /api/dcim/device-roles/?name=Host&slug=host",
        r#"POST /api/dcim/device-roles/ {"name":"Host","slug":"host"}"#,
        "GET /api/dcim/device-types/?slug=x1",
        r#"POST /api/dcim/device-types/ {"manufacturer":101,"model":"X1","slug":"x1"}"#,
        "GET /api/dcim/devices/?name=store",
        r#"POST /api/dcim/devices/ {"comments":"","custom_fields":{},"device_type":103,"name":"store","role":102,"site":100,"status":"active"}"#,
        "GET /api/dcim/interfaces/?device_id=104&name=eth0",
        r#"POST /api/dcim/interfaces/ {"device":104,"name":"eth0","type":"other"}"#,
        "GET /api/ipam/ip-addresses/?address=192.0.2.5%2F24",
        r#"POST /api/ipam/ip-addresses/ {"address":"192.0.2.5/24","assigned_object_id":105,"assigned_object_type":"dcim.interface","description":""}"#,
        r#"PATCH /api/dcim/devices/104/ {"primary_ip4":106}"#,
    ];
    assert_eq!(log, expected);
    let report = run.report();
    assert_eq!((report.created, report.existing), (7, 0));
}

#[test]
fn restore_over_a_populated_netbox_creates_nothing() {
    let mut run = RestoreRun::new(escrow());
    let log = drive(&mut run, r#"{"count": 1, "results": [{"id": 42}]}"#);
    assert!(log.iter().all(|l| !l.starts_with("POST")), "{log:?}");
    assert_eq!(log.last().map(String::as_str), Some(r#"PATCH /api/dcim/devices/42/ {"primary_ip4":42}"#));
    let report = run.report();
    assert_eq!((report.created, report.existing), (0, 7));
}

#[test]
fn a_refused_write_or_garbage_answer_stops_the_restore() {
    let mut run = RestoreRun::new(escrow());
    assert!(matches!(run.step(), RestoreAction::Lookup(_)));
    assert!(run.awaiting());
    assert_eq!(run.looked_up("<html>").unwrap_err(), RestoreFault::Unparsable);
    match run.looked_up(r#"{"count": 0}"#) {
        Ok(Some(RestoreAction::Create(path, _))) => assert_eq!(path, "/api/dcim/sites/"),
        other => panic!("expected a create, got {other:?}"),
    }
    assert_eq!(run.created(400, "{}").unwrap_err(), RestoreFault::Rejected);
    assert!(run.awaiting());
    assert_eq!(run.updated(500, "{}").unwrap_err(), RestoreFault::Rejected);
    assert_eq!(run.updated(200, "nope").unwrap_err(), RestoreFault::Unparsable);
}

#[test]
fn an_empty_escrow_restores_nothing() {
    let mut run = RestoreRun::new(Json::Object(vec![]));
    let log = drive(&mut run, "{}");
    assert!(log.is_empty());
    let report = run.report();
    assert_eq!((report.created, report.existing), (0, 0));
}

#[test]
fn wipe_deletes_listed_objects_children_first() {
    let mut run = WipeRun::new();
    let mut log = Vec::new();
    let mut first_page = true;
    loop {
        match run.step() {
            WipeAction::Done(n) => {
                assert_eq!(n, 2);
                break;
            }
            WipeAction::List(path) => {
                log.push(path);
                let page = if first_page { r#"{"results": [{"id": 1}, {"id": 2}]}"# } else { r#"{"results": []}"# };
                first_page = false;
                run.listed(page).expect("page");
            }
            WipeAction::Delete(path) => {
                log.push(path);
                run.deleted_one(204).expect("deleted");
            }
        }
    }
    assert_eq!(log[0], "/api/ipam/ip-addresses/?limit=200");
    assert_eq!(log[1], "/api/ipam/ip-addresses/1/");
    assert_eq!(log[2], "/api/ipam/ip-addresses/2/");
    assert_eq!(log[3], "/api/ipam/ip-addresses/?limit=200");
    assert_eq!(log[4], "/api/virtualization/interfaces/?limit=200");
    assert_eq!(log.last().map(String::as_str), Some("/api/extras/custom-field-choice-sets/?limit=200"));
    assert_eq!(log.len(), 4 + 15);
    assert_eq!(run.deleted(), 2);
}

#[test]
fn a_refused_delete_stops_the_wipe() {
    let mut run = WipeRun::new();
    assert!(matches!(run.step(), WipeAction::List(_)));
    run.listed(r#"{"results": [{"id": 9}]}"#).expect("page");
    assert!(matches!(run.step(), WipeAction::Delete(_)));
    assert_eq!(run.deleted_one(403).unwrap_err(), RestoreFault::Rejected);
    assert_eq!(run.deleted(), 0);
    assert_eq!(run.listed("garbage").unwrap_err(), RestoreFault::Unparsable);
}

#[test]
fn pull_follows_pages_then_moves_to_the_next_endpoint() {
    let mut run = PullRun::new("https://netbox.example/");
    let first = match run.step() {
        PullAction::Fetch(url) => url,
        PullAction::Done => panic!("a pull starts with a fetch"),
    };
    assert_eq!(first, "https://netbox.example/api/dcim/sites/?limit=500");
    run.fetched(200, r#"{"results": [{"id": 2, "slug": "b"}], "next": "https://netbox.example/page2"}"#)
        .expect("page one");
    match run.step() {
        PullAction::Fetch(url) => assert_eq!(url, "https://netbox.example/page2"),
        PullAction::Done => panic!("the listing continues"),
    }
    run.fetched(200, r#"{"results": [{"id": 1, "slug": "a", "url": "x"}], "next": null}"#).expect("page two");
    match run.step() {
        PullAction::Fetch(url) => assert_eq!(url, "https://netbox.example/api/dcim/manufacturers/?limit=500"),
        PullAction::Done => panic!("more endpoints"),
    }
    assert_eq!(
        run.fetched(403, "").unwrap_err(),
        PullFault::Refused { detail: "HTTP 403 (is the reconciler token authorized for this endpoint?)".to_owned() }
    );
    assert_eq!(run.fetched(200, "nope").unwrap_err(), PullFault::Unparsable);
    assert_eq!(run.fetched(200, "{}").unwrap_err(), PullFault::NoResults);
    for _ in 1..16 {
        assert!(matches!(run.step(), PullAction::Fetch(_)));
        run.fetched(200, r#"{"results": []}"#).expect("empty page");
    }
    assert!(matches!(run.step(), PullAction::Done));
    assert!(run.finished());
    let doc = run.document();
    assert_eq!(doc.len(), 16);
    let sites = doc.iter().find(|(k, _)| k == "dcim.sites").map(|(_, v)| v).expect("sites");
    match sites {
        Json::Array(objs) => {
            let ids: Vec<Option<i64>> = objs.iter().map(|o| rollcall::json::as_i64(rollcall::json::get(o, "id"))).collect();
            assert_eq!(ids, [Some(1), Some(2)], "canonical order by id");
            assert!(rollcall::json::get(&objs[0], "url").is_none(), "volatile keys stripped");
        }
        other => panic!("expected an array, got {other:?}"),
    }
}

#[test]
fn a_missing_key_costs_one_lookup_and_grows_the_report_by_one() {
    let mut found = RestoreRun::new(escrow());
    assert!(matches!(found.step(), RestoreAction::Lookup(_)));
    assert!(matches!(found.looked_up(r#"{"count": 1, "results": [{"id": 9}]}"#), Ok(None)));
    assert!(!found.awaiting());
    let report = found.report();
    assert_eq!((report.created, report.existing), (0, 1));

    let mut made = RestoreRun::new(escrow());
    assert!(matches!(made.step(), RestoreAction::Lookup(_)));
    assert!(matches!(made.looked_up(r#"{"count": 0, "results": []}"#), Ok(Some(RestoreAction::Create(..)))));
    made.created(201, r#"{"id": 77}"#).expect("created");
    assert!(!made.awaiting());
    let report = made.report();
    assert_eq!((report.created, report.existing), (1, 0));
}
