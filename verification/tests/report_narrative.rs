use rollcall::report::narrative::{
    accept_draft, clean, format_digest, instruction_for, is_grounded, numbers, render_section,
    NarrateMode, NarrativeProvider,
};

/// A provider that always drafts fixed prose.
struct Fake(&'static str);
impl NarrativeProvider for Fake {
    fn draft(&self, _section: &str, _instruction: &str, _context: &str) -> Option<String> {
        Some(self.0.to_owned())
    }
    fn name(&self) -> &str {
        "fake"
    }
}

/// A provider that always declines.
struct Silent;
impl NarrativeProvider for Silent {
    fn draft(&self, _section: &str, _instruction: &str, _context: &str) -> Option<String> {
        None
    }
    fn name(&self) -> &str {
        "silent"
    }
}

#[test]
fn mode_default_is_auto() {
    assert_eq!(NarrateMode::default(), NarrateMode::Auto);
}

#[test]
fn only_status_driven_sections_are_narratable() {
    assert!(instruction_for("executive-summary.tex").is_some());
    assert!(instruction_for("findings.tex").is_some());
    assert!(instruction_for("architecture.tex").is_none());
    assert!(instruction_for("nonexistent.tex").is_none());
}

#[test]
fn off_never_narrates_even_with_a_provider() {
    let fake = Fake("drafted");
    assert!(render_section(NarrateMode::Off, Some(&fake), "findings.tex", "digest").is_none());
}

#[test]
fn auto_without_a_provider_falls_back() {
    let none: Option<&dyn NarrativeProvider> = None;
    assert!(render_section(NarrateMode::Auto, none, "findings.tex", "digest").is_none());
}

#[test]
fn auto_narrates_narratable_sections_but_not_authored_ones() {
    let fake = Fake("drafted prose");
    let drafted = render_section(NarrateMode::Auto, Some(&fake), "executive-summary.tex", "d");
    assert_eq!(drafted.as_deref(), Some("drafted prose"));
    assert!(render_section(NarrateMode::Auto, Some(&fake), "architecture.tex", "d").is_none());
}

#[test]
fn a_declining_provider_falls_back() {
    assert!(render_section(NarrateMode::Auto, Some(&Silent), "findings.tex", "d").is_none());
}

#[test]
fn a_draft_with_an_invented_figure_falls_back() {
    let liar = Fake("All 99 hosts are operational.");
    assert!(render_section(
        NarrateMode::Auto,
        Some(&liar),
        "findings.tex",
        "3 hosts, 15 of 17 up"
    )
    .is_none());
}

#[test]
fn a_draft_whose_figures_are_all_in_the_digest_passes() {
    let honest = Fake("15 of 17 up across 3 hosts.");
    let got = render_section(
        NarrateMode::Auto,
        Some(&honest),
        "findings.tex",
        "3 hosts, 15 of 17 up",
    );
    assert_eq!(got.as_deref(), Some("15 of 17 up across 3 hosts."));
}

#[test]
fn numbers_normalizes_separators_and_extracts_figures() {
    let got: Vec<String> = numbers("$1,850/mo, 2.55 kW, 15 of 17").into_iter().collect();
    assert_eq!(got, ["1850", "2.55", "15", "17"]);
}

#[test]
fn clean_strips_markdown_and_trims() {
    assert_eq!(clean("  **Bold** and __under__\n\n"), "Bold and under");
}

#[test]
fn digest_states_the_numbers_it_hands_the_model() {
    let hosts = [("seshat".to_owned(), 19), ("yesod".to_owned(), 27)];
    let digest = format_digest(
        "2026-07-09",
        "Bayt al-Hikmah",
        8,
        9,
        &["Sibyl (GPU node)"],
        &hosts,
        46,
        "1.85",
        "1,850",
        "0.30",
    );
    assert!(digest.contains("8 of 9 up"), "{digest}");
    assert!(digest.contains("Down: Sibyl (GPU node)."), "{digest}");
    assert!(digest.contains("- seshat: 19 guests"), "{digest}");
    assert!(digest.contains("guests total 46"), "{digest}");
    assert!(digest.contains("1.85 kW"), "{digest}");
}

#[test]
fn digest_with_nothing_down_says_none() {
    let digest = format_digest("d", "s", 3, 3, &[], &[], 0, "0.5", "40", "0.30");
    assert!(digest.contains("Down: none."), "{digest}");
    assert!(digest.contains("Hosts (0), guests total 0"), "{digest}");
}

#[test]
fn draft_mode_narrates_like_auto() {
    let fake = Fake("drafted prose");
    let got = render_section(NarrateMode::Draft, Some(&fake), "findings.tex", "d");
    assert_eq!(got.as_deref(), Some("drafted prose"));
}

#[test]
fn grounding_accepts_prose_without_figures() {
    assert!(is_grounded("All hosts are fine.", ""));
    assert!(!is_grounded("7 hosts", "6 hosts"));
    assert!(is_grounded("1,850 dollars", "$1850"));
}

#[test]
fn accept_draft_keeps_grounded_prose_verbatim() {
    assert_eq!(accept_draft(Some("  **ok** 3 ".to_owned()), "3").as_deref(), Some("  **ok** 3 "));
    assert!(accept_draft(Some("4".to_owned()), "3").is_none());
    assert!(accept_draft(None, "").is_none());
}

#[test]
fn numbers_of_plain_text_is_empty() {
    assert!(numbers("no figures here").is_empty());
    assert_eq!(numbers("v1.2."), ["1.2"]);
}
