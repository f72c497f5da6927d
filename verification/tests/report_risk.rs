use rollcall::report::narrative::NarrativeProvider;
use rollcall::report::risk::{assess, parse_risks, rank_risks, register_from, render, Risk, Severity};

/// A provider that returns a fixed JSON risk register.
struct JsonFake(&'static str);
impl NarrativeProvider for JsonFake {
    fn draft(&self, _section: &str, _instruction: &str, _context: &str) -> Option<String> {
        None
    }
    fn draft_json(&self, _instruction: &str, _context: &str, _schema: &str) -> Option<String> {
        Some(self.0.to_owned())
    }
    fn name(&self) -> &str {
        "json-fake"
    }
}

/// A provider with no structured output.
struct ProseOnly;
impl NarrativeProvider for ProseOnly {
    fn draft(&self, _section: &str, _instruction: &str, _context: &str) -> Option<String> {
        Some("prose".to_owned())
    }
    fn name(&self) -> &str {
        "prose"
    }
}

fn risk(title: &str, severity: Severity, recommendation: &str) -> Risk {
    Risk { title: title.to_owned(), severity, recommendation: recommendation.to_owned() }
}

#[test]
fn severity_parses_and_defaults_unknown_to_medium() {
    assert_eq!(Severity::parse("Critical"), Severity::Critical);
    assert_eq!(Severity::parse(" HIGH "), Severity::High);
    assert_eq!(Severity::parse("low"), Severity::Low);
    assert_eq!(Severity::parse("weird"), Severity::Medium);
}

#[test]
fn parse_risks_reads_valid_and_drops_malformed() {
    let json = r#"{"risks":[
        {"title":"Sibyl down","severity":"low","recommendation":"leave it, deliberate"},
        {"title":"","severity":"high","recommendation":"empty title dropped"},
        {"severity":"high","recommendation":"missing title dropped"}
    ]}"#;
    let risks = parse_risks(json);
    assert_eq!(risks.len(), 1);
    assert_eq!(risks[0].title, "Sibyl down");
    assert_eq!(risks[0].severity, Severity::Low);
}

#[test]
fn parse_risks_on_garbage_is_empty() {
    assert!(parse_risks("not json").is_empty());
    assert!(parse_risks(r#"{"nope":1}"#).is_empty());
}

#[test]
fn assess_sorts_by_severity() {
    let json = r#"{"risks":[
        {"title":"no collectors","severity":"medium","recommendation":"deploy Redfish"},
        {"title":"capex estimates","severity":"low","recommendation":"gather invoices"},
        {"title":"switch has no creds","severity":"high","recommendation":"add credentials"}
    ]}"#;
    let context = "no hardware collectors; capex all estimates; switch has no creds";
    let severities: Vec<Severity> = assess(&JsonFake(json), context)
        .iter()
        .map(|risk| risk.severity)
        .collect();
    assert_eq!(severities, [Severity::High, Severity::Medium, Severity::Low]);
}

#[test]
fn assess_drops_a_risk_with_a_fabricated_figure() {
    let json = r#"{"risks":[
        {"title":"99 disks failing","severity":"critical","recommendation":"replace them"},
        {"title":"switch has no creds","severity":"high","recommendation":"add credentials"}
    ]}"#;
    let risks = assess(&JsonFake(json), "switch has no creds");
    assert_eq!(risks.len(), 1);
    assert_eq!(risks[0].title, "switch has no creds");
}

#[test]
fn assess_with_empty_context_is_empty() {
    let json = r#"{"risks":[{"title":"x","severity":"high","recommendation":"y"}]}"#;
    assert!(assess(&JsonFake(json), "").is_empty());
}

#[test]
fn render_is_blank_when_empty_and_a_section_otherwise() {
    assert_eq!(render(&[]), "");
    let risks = [Risk {
        title: "Sibyl deliberately down".to_owned(),
        severity: Severity::Low,
        recommendation: "monitor; no action".to_owned(),
    }];
    let tex = render(&risks);
    assert!(tex.contains(r"\section{Risk Register}"), "{tex}");
    assert!(tex.contains("Sibyl deliberately down"), "{tex}");
    assert!(tex.contains(r"\textbf{LOW}"), "{tex}");
}

#[test]
fn a_prose_only_provider_gives_an_empty_register() {
    assert!(assess(&ProseOnly, "switch has no creds").is_empty());
}

#[test]
fn ranking_is_stable_within_a_severity() {
    let risks = vec![
        risk("b", Severity::Low, "x"),
        risk("a", Severity::High, "x"),
        risk("c", Severity::Low, "x"),
        risk("d", Severity::Critical, "x"),
    ];
    let titles: Vec<String> = rank_risks(risks, "ctx").into_iter().map(|r| r.title).collect();
    assert_eq!(titles, ["d", "a", "b", "c"]);
}

#[test]
fn register_trims_fields_and_escapes_the_table() {
    let json = r#"{"risks":[{"title":"  UPS 100% load ","severity":"Critical","recommendation":" shed A & B "}]}"#;
    let risks = register_from(Some(json.to_owned()), "UPS at 100% load");
    assert_eq!(risks, vec![risk("UPS 100% load", Severity::Critical, "shed A & B")]);
    let tex = render(&risks);
    assert!(tex.contains(r"UPS 100\% load & \textcolor{accent}{\textbf{CRITICAL}} & shed A \& B \\"), "{tex}");
    assert!(register_from(None, "ctx").is_empty());
}

#[test]
fn severity_ranks_and_badges() {
    assert_eq!(Severity::Critical.rank(), 0);
    assert_eq!(Severity::High.rank(), 1);
    assert_eq!(Severity::Medium.rank(), 2);
    assert_eq!(Severity::Low.rank(), 3);
    assert_eq!(Severity::Medium.badge(), r"\textcolor{secondary}{\textbf{MEDIUM}}");
}
