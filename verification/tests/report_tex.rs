use rollcall::report::sections::capitalize;
use rollcall::report::tex::{esc, fmt_int_sep};

#[test]
fn capitalize_matches_python_str_capitalize() {
    assert_eq!(capitalize("store"), "Store");
    assert_eq!(capitalize("EDGE"), "Edge");
    assert_eq!(capitalize(""), "");
    assert_eq!(capitalize("a"), "A");
}

#[test]
fn esc_escapes_specials_without_double_escaping() {
    assert_eq!(esc("A & B"), r"A \& B");
    assert_eq!(esc("100%"), r"100\%");
    assert_eq!(esc("a_b#c$d~e"), r"a\_b\#c\$d\~{}e");
    assert_eq!(esc(r"a\b"), r"a\textbackslash{}b");
}

#[test]
fn fmt_int_sep_groups_thousands() {
    assert_eq!(fmt_int_sep(700), "700");
    assert_eq!(fmt_int_sep(4800), "4,800");
    assert_eq!(fmt_int_sep(17400), "17,400");
    assert_eq!(fmt_int_sep(1234567), "1,234,567");
}

#[test]
fn fmt_int_sep_handles_zero_and_negatives() {
    assert_eq!(fmt_int_sep(0), "0");
    assert_eq!(fmt_int_sep(-1234), "-1,234");
    assert_eq!(fmt_int_sep(i64::MIN), "-9,223,372,036,854,775,808");
}

#[test]
fn esc_maps_arrows_after_escaping() {
    assert_eq!(esc("a→b ≈ 5$"), r"a$\rightarrow$b $\approx$ 5\$");
}

#[test]
fn escaping_a_concatenation_escapes_each_part() {
    let (a, b) = ("50% of a_b \\ #1", "cost ~ $5 → ≈ & more");
    assert_eq!(esc(&format!("{a}{b}")), format!("{}{}", esc(a), esc(b)));
    assert_eq!(esc("plain text"), "plain text");
}
