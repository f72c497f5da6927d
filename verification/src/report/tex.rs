//! LaTeX-side primitives: escaping, badges, and Python-format-compatible
//! thousands separators.

use vstd::prelude::*;
use crate::text::{chars_of, find, find_from, fmt_i64, int_text, lemma_find, nat_digits, replace, replace_of};
use crate::report::status::ProbeState;

verus! {

/// `s` with LaTeX-special characters escaped and the recurring arrows and
/// `≈` mapped to math symbols: backslash first (so escapes introduced later
/// are not re-escaped), the symbol maps last (so the `$` and `\` they
/// insert stay intact).
pub open spec fn esc_spec(s: Seq<char>) -> Seq<char> {
    let s1 = replace(s, "\\"@, "\\textbackslash{}"@);
    let s2 = replace(s1, "&"@, "\\&"@);
    let s3 = replace(s2, "%"@, "\\%"@);
    let s4 = replace(s3, "#"@, "\\#"@);
    let s5 = replace(s4, "_"@, "\\_"@);
    let s6 = replace(s5, "$"@, "\\$"@);
    let s7 = replace(s6, "~"@, "\\~{}"@);
    let s8 = replace(s7, "→"@, "$\\rightarrow$"@);
    let s9 = replace(s8, "←"@, "$\\leftarrow$"@);
    let s10 = replace(s9, "↔"@, "$\\leftrightarrow$"@);
    replace(s10, "≈"@, "$\\approx$"@)
}

fn rep(s: Vec<char>, from: &str, to: &str) -> (r: Vec<char>)
    requires
        from@.len() > 0,
    ensures
        r@ == replace(s@, from@, to@),
{
    replace_of(s.as_slice(), chars_of(from).as_slice(), chars_of(to).as_slice())
}

/// `esc` on characters.
pub fn esc_chars(s: &[char]) -> (r: Vec<char>)
    ensures
        r@ == esc_spec(s@),
{
    proof {
        reveal_strlit("\\");
        reveal_strlit("&");
        reveal_strlit("%");
        reveal_strlit("#");
        reveal_strlit("_");
        reveal_strlit("$");
        reveal_strlit("~");
        reveal_strlit("→");
        reveal_strlit("←");
        reveal_strlit("↔");
        reveal_strlit("≈");
    }
    let v = vstd::slice::slice_to_vec(s);
    let v = rep(v, "\\", "\\textbackslash{}");
    let v = rep(v, "&", "\\&");
    let v = rep(v, "%", "\\%");
    let v = rep(v, "#", "\\#");
    let v = rep(v, "_", "\\_");
    let v = rep(v, "$", "\\$");
    let v = rep(v, "~", "\\~{}");
    let v = rep(v, "→", "$\\rightarrow$");
    let v = rep(v, "←", "$\\leftarrow$");
    let v = rep(v, "↔", "$\\leftrightarrow$");
    rep(v, "≈", "$\\approx$")
}

/// Escapes LaTeX-special characters in data-derived text, and maps the few
/// Unicode symbols that recur in probe/device prose but have no glyph in
/// the report font.
pub fn esc(s: &str) -> (r: String)
    ensures
        r@ == esc_spec(s@),
{
    crate::text::string_from(esc_chars(chars_of(s).as_slice()).as_slice())
}

/// The colored state marker used in status tables.
pub open spec fn badge_text(state: ProbeState) -> Seq<char> {
    match state {
        ProbeState::Up => "\\textcolor{success}{\\textbf{UP}}"@,
        ProbeState::Down => "\\textcolor{accent}{\\textbf{DOWN}}"@,
        ProbeState::Unverifiable => "\\textcolor{darkgray}{\\textbf{UNVERIFIABLE}}"@,
    }
}

/// The colored state marker used in status tables.
pub fn state_badge(state: ProbeState) -> (r: &'static str)
    ensures
        r@ == badge_text(state),
{
    match state {
        ProbeState::Up => "\\textcolor{success}{\\textbf{UP}}",
        ProbeState::Down => "\\textcolor{accent}{\\textbf{DOWN}}",
        ProbeState::Unverifiable => "\\textcolor{darkgray}{\\textbf{UNVERIFIABLE}}",
    }
}

/// Digits with a comma before every group of three counted from the right
/// (Python `:,` on the integer part).
pub open spec fn group3(d: Seq<char>) -> Seq<char>
    decreases d.len(),
{
    if d.len() <= 3 {
        d
    } else {
        group3(d.take(d.len() - 3)) + seq![','] + d.skip(d.len() - 3)
    }
}

/// Thousands separators inserted into the integer part of a plain decimal
/// rendering; the fraction after the first `.` is kept as is.
pub open spec fn separated(plain: Seq<char>) -> Seq<char> {
    match find(plain, '.') {
        Some(i) => group3(plain.take(i)) + seq!['.'] + plain.skip(i + 1),
        None => group3(plain),
    }
}

fn group3_of(d: &[char]) -> (r: Vec<char>)
    ensures
        r@ == group3(d@),
    decreases d@.len(),
{
    if d.len() <= 3 {
        vstd::slice::slice_to_vec(d)
    } else {
        let n = d.len();
        let mut head = group3_of(&d[0..n - 3]);
        assert(d@.subrange(0, n - 3) =~= d@.take(n - 3));
        head.push(',');
        head.extend_from_slice(&d[n - 3..n]);
        assert(d@.subrange(n - 3, n as int) =~= d@.skip(n - 3));
        assert(head@ =~= group3(d@));
        head
    }
}

/// Comma thousands separators on a plain number rendering.
pub fn insert_separators(plain: &[char]) -> (r: Vec<char>)
    ensures
        r@ == separated(plain@),
{
    assert(plain@.skip(0) =~= plain@);
    match find_from(plain, 0, '.') {
        Some(i) => {
            proof {
                lemma_find(plain@, '.');
            }
            let n = plain.len();
            let mut out = group3_of(&plain[0..i]);
            assert(plain@.subrange(0, i as int) =~= plain@.take(i as int));
            out.push('.');
            out.extend_from_slice(&plain[i + 1..n]);
            assert(plain@.subrange(i + 1, n as int) =~= plain@.skip(i + 1));
            assert(out@ =~= separated(plain@));
            out
        },
        None => group3_of(plain),
    }
}

/// Comma thousands separators for an integer (Python `:,`).
pub fn fmt_int_sep(value: i64) -> (r: String)
    ensures
        r@ == separated(int_text(value as int)),
{
    let plain = fmt_i64(value);
    crate::text::string_from(insert_separators(plain.as_slice()).as_slice())
}

/// A text without its commas.
pub open spec fn drop_commas(s: Seq<char>) -> Seq<char>
    decreases s.len(),
{
    if s.len() == 0 {
        seq![]
    } else if s.last() == ',' {
        drop_commas(s.drop_last())
    } else {
        drop_commas(s.drop_last()).push(s.last())
    }
}

proof fn lemma_drop_commas_concat(a: Seq<char>, b: Seq<char>)
    ensures
        drop_commas(a + b) == drop_commas(a) + drop_commas(b),
    decreases b.len(),
{
    if b.len() == 0 {
        assert(a + b =~= a);
    } else {
        lemma_drop_commas_concat(a, b.drop_last());
        assert((a + b).drop_last() =~= a + b.drop_last());
        assert((a + b).last() == b.last());
    }
}

proof fn lemma_no_commas(s: Seq<char>)
    requires
        forall|i: int| 0 <= i < s.len() ==> s[i] != ',',
    ensures
        drop_commas(s) == s,
    decreases s.len(),
{
    if s.len() > 0 {
        lemma_no_commas(s.drop_last());
        assert(s.drop_last().push(s.last()) =~= s);
    }
}

proof fn lemma_group3(d: Seq<char>)
    requires
        forall|i: int| 0 <= i < d.len() ==> d[i] != ',',
    ensures
        drop_commas(group3(d)) == d,
    decreases d.len(),
{
    if d.len() <= 3 {
        lemma_no_commas(d);
    } else {
        let head = d.take(d.len() - 3);
        let rest = d.skip(d.len() - 3);
        lemma_group3(head);
        lemma_drop_commas_concat(group3(head) + seq![','], rest);
        lemma_drop_commas_concat(group3(head), seq![',']);
        let c = seq![','];
        assert(c.last() == ',');
        assert(c.drop_last() =~= Seq::<char>::empty());
        assert(drop_commas(c) == drop_commas(c.drop_last()));
        assert(drop_commas(c) =~= Seq::<char>::empty());
        lemma_no_commas(rest);
        assert(head + rest =~= d);
    }
}

proof fn lemma_digits_plain(n: nat)
    ensures
        forall|i: int| 0 <= i < nat_digits(n).len() ==> '0' <= #[trigger] nat_digits(n)[i] <= '9',
    decreases n,
{
    if n >= 10 {
        lemma_digits_plain(n / 10);
        let a = nat_digits(n / 10);
        let b = seq![((n % 10 + 48) as u8) as char];
        assert forall|i: int| 0 <= i < (a + b).len() implies '0' <= #[trigger] (a + b)[i] <= '9' by {
            if i >= a.len() {
                assert((a + b)[i] == b[i - a.len()]);
            }
        }
    }
}

/// Thousands separators change nothing but commas: removing them from a
/// grouped integer gives its plain decimal rendering back.
pub proof fn law_separators_only_add_commas(value: int)
    ensures
        drop_commas(separated(int_text(value))) == int_text(value),
{
    let t = int_text(value);
    let m: nat = if value < 0 { (-value) as nat } else { value as nat };
    lemma_digits_plain(m);
    assert forall|i: int| 0 <= i < t.len() implies t[i] != ',' && t[i] != '.' by {
        if value < 0 {
            let s = seq!['-'] + nat_digits(m);
            assert(t == s);
            if i > 0 {
                assert(s[i] == nat_digits(m)[i - 1]);
            }
        } else {
            assert(t == nat_digits(m));
        }
    }
    lemma_find(t, '.');
    lemma_group3(t);
}


/// Replacing one character distributes over concatenation.
proof fn lemma_replace_char_concat(a: Seq<char>, b: Seq<char>, from: Seq<char>, to: Seq<char>)
    requires
        from.len() == 1,
    ensures
        replace(a + b, from, to) == replace(a, from, to) + replace(b, from, to),
    decreases a.len(),
{
    if a.len() > 0 {
        let ab = a + b;
        assert(ab[0] == a[0]);
        assert(ab.take(1) =~= a.take(1));
        assert(ab.skip(1) =~= a.skip(1) + b);
        assert(ab.drop_first() =~= a.drop_first() + b);
        assert(a.skip(1) =~= a.drop_first());
        lemma_replace_char_concat(a.drop_first(), b, from, to);
        if a.take(1) == from {
            assert(replace(ab, from, to) == to + replace(ab.skip(1), from, to));
            assert(replace(a, from, to) == to + replace(a.skip(1), from, to));
        } else {
            assert(!(from.len() > 0 && ab.take(from.len() as int) == from));
        }
    } else {
        assert(a + b =~= b);
    }
}

/// Escaping works character by character: the escape of a concatenation is
/// the concatenation of the escapes, so nothing an escape inserts is escaped
/// again.
pub proof fn law_escape_concat(a: Seq<char>, b: Seq<char>)
    ensures
        esc_spec(a + b) == esc_spec(a) + esc_spec(b),
{
    reveal_strlit("\\");
    reveal_strlit("&");
    reveal_strlit("%");
    reveal_strlit("#");
    reveal_strlit("_");
    reveal_strlit("$");
    reveal_strlit("~");
    reveal_strlit("→");
    reveal_strlit("←");
    reveal_strlit("↔");
    reveal_strlit("≈");
    let a1 = replace(a, "\\"@, "\\textbackslash{}"@);
    let b1 = replace(b, "\\"@, "\\textbackslash{}"@);
    lemma_replace_char_concat(a, b, "\\"@, "\\textbackslash{}"@);
    let a2 = replace(a1, "&"@, "\\&"@);
    let b2 = replace(b1, "&"@, "\\&"@);
    lemma_replace_char_concat(a1, b1, "&"@, "\\&"@);
    let a3 = replace(a2, "%"@, "\\%"@);
    let b3 = replace(b2, "%"@, "\\%"@);
    lemma_replace_char_concat(a2, b2, "%"@, "\\%"@);
    let a4 = replace(a3, "#"@, "\\#"@);
    let b4 = replace(b3, "#"@, "\\#"@);
    lemma_replace_char_concat(a3, b3, "#"@, "\\#"@);
    let a5 = replace(a4, "_"@, "\\_"@);
    let b5 = replace(b4, "_"@, "\\_"@);
    lemma_replace_char_concat(a4, b4, "_"@, "\\_"@);
    let a6 = replace(a5, "$"@, "\\$"@);
    let b6 = replace(b5, "$"@, "\\$"@);
    lemma_replace_char_concat(a5, b5, "$"@, "\\$"@);
    let a7 = replace(a6, "~"@, "\\~{}"@);
    let b7 = replace(b6, "~"@, "\\~{}"@);
    lemma_replace_char_concat(a6, b6, "~"@, "\\~{}"@);
    let a8 = replace(a7, "→"@, "$\\rightarrow$"@);
    let b8 = replace(b7, "→"@, "$\\rightarrow$"@);
    lemma_replace_char_concat(a7, b7, "→"@, "$\\rightarrow$"@);
    let a9 = replace(a8, "←"@, "$\\leftarrow$"@);
    let b9 = replace(b8, "←"@, "$\\leftarrow$"@);
    lemma_replace_char_concat(a8, b8, "←"@, "$\\leftarrow$"@);
    let a10 = replace(a9, "↔"@, "$\\leftrightarrow$"@);
    let b10 = replace(b9, "↔"@, "$\\leftrightarrow$"@);
    lemma_replace_char_concat(a9, b9, "↔"@, "$\\leftrightarrow$"@);
    lemma_replace_char_concat(a10, b10, "≈"@, "$\\approx$"@);
}

} // verus!
verus! {

/// The characters `esc` rewrites.
pub open spec fn esc_special(c: char) -> bool {
    c == '\\' || c == '&' || c == '%' || c == '#' || c == '_' || c == '$' || c == '~' || c == '→' || c == '←' || c == '↔' || c == '≈'
}

/// What `esc` makes of one character.
pub open spec fn esc_char(c: char) -> Seq<char> {
    if c == '\\' {
        "\\textbackslash{}"@
    } else if c == '&' {
        "\\&"@
    } else if c == '%' {
        "\\%"@
    } else if c == '#' {
        "\\#"@
    } else if c == '_' {
        "\\_"@
    } else if c == '$' {
        "\\$"@
    } else if c == '~' {
        "\\~{}"@
    } else if c == '→' {
        "$\\rightarrow$"@
    } else if c == '←' {
        "$\\leftarrow$"@
    } else if c == '↔' {
        "$\\leftrightarrow$"@
    } else if c == '≈' {
        "$\\approx$"@
    } else {
        seq![c]
    }
}

/// Escaping character by character.
pub open spec fn esc_each(s: Seq<char>) -> Seq<char>
    decreases s.len(),
{
    if s.len() == 0 {
        seq![]
    } else {
        esc_each(s.drop_last()) + esc_char(s.last())
    }
}

/// Replacing a character in a text: a one-character text becomes the
/// replacement or stays; a text without the character stays.
proof fn lemma_replace_step(x: Seq<char>, from: Seq<char>, to: Seq<char>)
    requires
        from.len() == 1,
    ensures
        x.len() == 1 && x[0] == from[0] ==> replace(x, from, to) == to,
        (forall|i: int| 0 <= i < x.len() ==> x[i] != from[0]) ==> replace(x, from, to) == x,
    decreases x.len(),
{
    if x.len() > 0 {
        assert(x.skip(1) =~= x.drop_first());
        if x.take(1) == from {
            assert(x.take(1)[0] == x[0]);
        } else if x[0] == from[0] {
            assert(x.take(1) =~= from);
        }
        lemma_replace_step(x.drop_first(), from, to);
        if forall|i: int| 0 <= i < x.len() ==> x[i] != from[0] {
            assert(x.take(1)[0] == x[0]);
            assert forall|i: int| 0 <= i < x.drop_first().len() implies x.drop_first()[i] != from[0] by {
                assert(x.drop_first()[i] == x[i + 1]);
            }
            assert(seq![x[0]] + x.drop_first() =~= x);
        }
        if x.len() == 1 {
            assert(x.drop_first() =~= Seq::<char>::empty());
            assert(to + Seq::<char>::empty() =~= to);
        }
    }
}

/// `esc` of one character.
proof fn lemma_esc_one(c: char)
    ensures
        esc_spec(seq![c]) == esc_char(c),
{
    reveal_strlit("\\");
    reveal_strlit("&");
    reveal_strlit("%");
    reveal_strlit("#");
    reveal_strlit("_");
    reveal_strlit("$");
    reveal_strlit("~");
    reveal_strlit("→");
    reveal_strlit("←");
    reveal_strlit("↔");
    reveal_strlit("≈");
    reveal_strlit("\\textbackslash{}");
    reveal_strlit("\\&");
    reveal_strlit("\\%");
    reveal_strlit("\\#");
    reveal_strlit("\\_");
    reveal_strlit("\\$");
    reveal_strlit("\\~{}");
    reveal_strlit("$\\rightarrow$");
    reveal_strlit("$\\leftarrow$");
    reveal_strlit("$\\leftrightarrow$");
    reveal_strlit("$\\approx$");
    let x0 = seq![c];
    lemma_replace_step(x0, "\\"@, "\\textbackslash{}"@);
    let x1 = replace(x0, "\\"@, "\\textbackslash{}"@);
    lemma_replace_step(x1, "&"@, "\\&"@);
    let x2 = replace(x1, "&"@, "\\&"@);
    lemma_replace_step(x2, "%"@, "\\%"@);
    let x3 = replace(x2, "%"@, "\\%"@);
    lemma_replace_step(x3, "#"@, "\\#"@);
    let x4 = replace(x3, "#"@, "\\#"@);
    lemma_replace_step(x4, "_"@, "\\_"@);
    let x5 = replace(x4, "_"@, "\\_"@);
    lemma_replace_step(x5, "$"@, "\\$"@);
    let x6 = replace(x5, "$"@, "\\$"@);
    lemma_replace_step(x6, "~"@, "\\~{}"@);
    let x7 = replace(x6, "~"@, "\\~{}"@);
    lemma_replace_step(x7, "→"@, "$\\rightarrow$"@);
    let x8 = replace(x7, "→"@, "$\\rightarrow$"@);
    lemma_replace_step(x8, "←"@, "$\\leftarrow$"@);
    let x9 = replace(x8, "←"@, "$\\leftarrow$"@);
    lemma_replace_step(x9, "↔"@, "$\\leftrightarrow$"@);
    let x10 = replace(x9, "↔"@, "$\\leftrightarrow$"@);
    lemma_replace_step(x10, "≈"@, "$\\approx$"@);
    let x11 = replace(x10, "≈"@, "$\\approx$"@);
    assert(x11 == esc_spec(seq![c]));
}

proof fn lemma_esc_char_len(c: char)
    ensures
        esc_char(c).len() >= 1,
        esc_special(c) ==> esc_char(c).len() >= 2,
        !esc_special(c) ==> esc_char(c) == seq![c],
{
    reveal_strlit("\\textbackslash{}");
    reveal_strlit("\\&");
    reveal_strlit("\\%");
    reveal_strlit("\\#");
    reveal_strlit("\\_");
    reveal_strlit("\\$");
    reveal_strlit("\\~{}");
    reveal_strlit("$\\rightarrow$");
    reveal_strlit("$\\leftarrow$");
    reveal_strlit("$\\leftrightarrow$");
    reveal_strlit("$\\approx$");
}

proof fn lemma_esc_each_len(s: Seq<char>)
    ensures
        esc_each(s).len() >= s.len(),
        (exists|i: int| 0 <= i < s.len() && esc_special(#[trigger] s[i])) ==> esc_each(s).len() > s.len(),
        (forall|i: int| 0 <= i < s.len() ==> !esc_special(#[trigger] s[i])) ==> esc_each(s) == s,
    decreases s.len(),
{
    if s.len() > 0 {
        lemma_esc_each_len(s.drop_last());
        lemma_esc_char_len(s.last());
        if exists|i: int| 0 <= i < s.len() && esc_special(#[trigger] s[i]) {
            let i = choose|i: int| 0 <= i < s.len() && esc_special(#[trigger] s[i]);
            if i < s.len() - 1 {
                assert(s.drop_last()[i] == s[i]);
            }
        }
        if forall|i: int| 0 <= i < s.len() ==> !esc_special(#[trigger] s[i]) {
            assert forall|i: int| 0 <= i < s.drop_last().len() implies !esc_special(#[trigger] s.drop_last()[i]) by {
                assert(s.drop_last()[i] == s[i]);
            }
            assert(!esc_special(s[s.len() - 1]));
            assert(s.drop_last() + seq![s.last()] =~= s);
        }
    }
}

/// Escaping maps each character on its own: `\` to `\textbackslash{}`,
/// each of `& % # _ $` to itself after a backslash, `~` to `\~{}`, the
/// arrows and `≈` to their math-mode forms, any other character to itself.
/// So a text comes back unchanged exactly when it holds none of these
/// eleven characters.
pub proof fn law_escape_by_character(s: Seq<char>)
    ensures
        esc_spec(s) == esc_each(s),
        esc_spec(s) == s <==> forall|i: int| 0 <= i < s.len() ==> !esc_special(#[trigger] s[i]),
    decreases s.len(),
{
    if s.len() == 0 {
        assert(replace(s, "\\"@, "\\textbackslash{}"@) =~= s);
        lemma_esc_each_len(s);
        law_escape_concat(s, s);
        assert(s + s =~= s);
    } else {
        law_escape_by_character(s.drop_last());
        law_escape_concat(s.drop_last(), seq![s.last()]);
        assert(s.drop_last() + seq![s.last()] =~= s);
        lemma_esc_one(s.last());
    }
    lemma_esc_each_len(s);
}

} // verus!
