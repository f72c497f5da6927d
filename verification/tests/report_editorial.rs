use rollcall::report::editorial::{render_fragment, FragmentError};

fn values(pairs: &[(&str, &str)]) -> Vec<(String, String)> {
    pairs.iter().map(|(k, v)| ((*k).to_owned(), (*v).to_owned())).collect()
}

#[test]
fn substitutes_placeholders() {
    let out = render_fragment("up: @@up@@ of @@total@@\n", &values(&[("up", "11"), ("total", "13")]))
        .expect("fragment renders");
    assert_eq!(out, "up: 11 of 13\n");
}

#[test]
fn unknown_placeholder_is_an_error() {
    let err = render_fragment("@@nope@@", &values(&[])).expect_err("unknown key must fail");
    match err {
        FragmentError::UnknownPlaceholder { key } => assert_eq!(key, "nope"),
        other => panic!("expected UnknownPlaceholder, got {other:?}"),
    }
}

#[test]
fn unterminated_placeholder_is_an_error() {
    let err = render_fragment("text @@key without close\n", &values(&[("key", "v")]))
        .expect_err("unterminated marker must fail");
    assert!(matches!(err, FragmentError::UnterminatedPlaceholder));
}

#[test]
fn fragment_without_placeholders_passes_through() {
    let out = render_fragment("plain \\LaTeX{} text\n", &values(&[])).expect("fragment renders");
    assert_eq!(out, "plain \\LaTeX{} text\n");
}

#[test]
fn a_value_is_not_rescanned_for_markers() {
    let out = render_fragment("@@a@@@@b@@", &values(&[("a", "@@b"), ("b", "x")])).expect("renders");
    assert_eq!(out, "@@bx");
}

#[test]
fn the_last_value_for_a_key_wins() {
    let out = render_fragment("@@k@@", &values(&[("k", "1"), ("k", "2")])).expect("renders");
    assert_eq!(out, "2");
}
