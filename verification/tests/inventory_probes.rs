use rollcall::inventory::probes::{parse_probes, Probe, ProbeError, ProbeKind};

fn parse(text: &str) -> Result<Vec<Probe>, ProbeError> {
    parse_probes(text)
}

/// A probes file with the shapes the inventory's own file uses: an icmp
/// probe, a fabric-only probe, an http probe with explicit codes.
const PROBES: &str = r#"
[[probe]]
id = "edge"
desc = "Edge router"
kind = "icmp"
target = "192.0.2.1"

[[probe]]
id = "fabric-svc"
desc = "Fabric-only service"
kind = "icmp"
target = "198.51.100.9"
lan_reachable = false

[[probe]]
id = "gateway"
desc = "Gateway web UI"
kind = "http"
url = "http://192.0.2.7/"
expect = [200, 301, 302]
"#;

#[test]
fn parses_fixture_probes_file() {
    let probes = parse(PROBES).expect("probes must parse");
    assert!(!probes.is_empty());

    let edge = probes
        .iter()
        .find(|p| p.id == "edge")
        .expect("edge probe present");
    assert!(edge.lan_reachable);
    match &edge.kind {
        ProbeKind::Icmp { target } => assert_eq!(target, "192.0.2.1"),
        other => panic!("edge should be icmp, got {other:?}"),
    }

    let fabric = probes
        .iter()
        .find(|p| p.id == "fabric-svc")
        .expect("fabric-svc probe present");
    assert!(!fabric.lan_reachable, "fabric-svc is fabric-only");

    let gateway = probes
        .iter()
        .find(|p| p.id == "gateway")
        .expect("gateway probe present");
    match &gateway.kind {
        ProbeKind::Http {
            expect, insecure, ..
        } => {
            assert_eq!(expect, &[200, 301, 302]);
            assert!(!insecure);
        }
        other => panic!("gateway should be http, got {other:?}"),
    }
}

#[test]
fn http_defaults_apply() {
    let probes = parse(
        r#"
        [[probe]]
        id = "svc"
        desc = "some service"
        kind = "http"
        url = "http://127.0.0.1:1/"
        "#,
    )
    .expect("valid probe TOML");
    let probe = &probes[0];
    assert!(probe.lan_reachable, "lan_reachable defaults to true");
    match &probe.kind {
        ProbeKind::Http {
            expect, insecure, ..
        } => {
            assert_eq!(expect, &[200], "expect defaults to [200]");
            assert!(!insecure, "insecure defaults to false");
        }
        other => panic!("expected http probe, got {other:?}"),
    }
}

#[test]
fn unknown_kind_is_rejected() {
    let err = parse(
        r#"
        [[probe]]
        id = "svc"
        desc = "some service"
        kind = "carrier-pigeon"
        url = "http://127.0.0.1:1/"
        "#,
    )
    .expect_err("unknown kind must not parse");
    match err {
        ProbeError::UnknownProbeKind { kind, .. } => assert_eq!(kind, "carrier-pigeon"),
        other => panic!("expected UnknownProbeKind, got {other:?}"),
    }
}

#[test]
fn missing_kind_is_rejected() {
    let err = parse(
        r#"
        [[probe]]
        id = "svc"
        desc = "some service"
        url = "http://127.0.0.1:1/"
        "#,
    )
    .expect_err("entry without kind must not parse");
    assert!(matches!(err, ProbeError::MissingProbeKind { .. }));
}

#[test]
fn misspelled_optional_key_is_rejected() {
    let err = parse(
        r#"
        [[probe]]
        id = "svc"
        desc = "some service"
        kind = "http"
        url = "http://127.0.0.1:1/"
        exepct = [301]
        "#,
    )
    .expect_err("misspelled key must not parse");
    assert!(matches!(err, ProbeError::InvalidProbe { .. }));

    let err = parse(
        r#"
        [[probe]]
        id = "fabric"
        desc = "fabric-only host"
        kind = "icmp"
        target = "198.51.100.1"
        lan-reachable = false
        "#,
    )
    .expect_err("hyphenated key must not parse");
    assert!(matches!(err, ProbeError::InvalidProbe { .. }));
}

#[test]
fn duplicate_id_is_rejected() {
    let err = parse(
        r#"
        [[probe]]
        id = "svc"
        desc = "the host"
        kind = "icmp"
        target = "192.0.2.2"

        [[probe]]
        id = "svc"
        desc = "the service"
        kind = "http"
        url = "http://192.0.2.2/"
        "#,
    )
    .expect_err("duplicate id must not parse");
    match err {
        ProbeError::DuplicateProbeId { id } => assert_eq!(id, "svc"),
        other => panic!("expected DuplicateProbeId, got {other:?}"),
    }
}

#[test]
fn entry_labels_name_the_position_and_id() {
    let err = parse(
        r#"
        [[probe]]
        id = "a"
        desc = "first"
        kind = "icmp"
        target = "192.0.2.2"

        [[probe]]
        id = "b"
        desc = "second"
        "#,
    )
    .expect_err("second entry has no kind");
    assert_eq!(
        err,
        ProbeError::MissingProbeKind {
            entry: "probe 2 (id \"b\")".to_owned()
        }
    );
}

#[test]
fn a_status_code_out_of_range_is_invalid() {
    let err = parse(
        r#"
        [[probe]]
        id = "svc"
        desc = "svc"
        kind = "http"
        url = "http://192.0.2.2/"
        expect = [70000]
        "#,
    )
    .expect_err("status beyond u16");
    assert!(matches!(err, ProbeError::InvalidProbe { .. }));
}

#[test]
fn text_that_is_not_toml_is_a_parse_error() {
    assert_eq!(parse("[[probe").expect_err("not toml"), ProbeError::Parse);
    assert_eq!(
        parse("other = 1").expect_err("unknown top-level key"),
        ProbeError::Parse
    );
}

#[test]
fn a_non_string_kind_is_reported_by_its_toml_text() {
    let err = parse(
        r#"
        [[probe]]
        id = "svc"
        desc = "svc"
        kind = 5
        "#,
    )
    .expect_err("integer kind");
    match err {
        ProbeError::UnknownProbeKind { kind, .. } => assert_eq!(kind, "5"),
        other => panic!("expected UnknownProbeKind, got {other:?}"),
    }
}
