//! The RouterOS sweep never records the serial number: two outputs that
//! differ only in the value of a `serial-number:` line of their
//! ROUTERBOARD section give the same facts.

use vstd::prelude::*;
use crate::text::{
    find, is_ws, lemma_find, lemma_find_at, lines, split_once, starts_with, strip_cr, strip_prefix, trim, trim_end,
    trim_start,
};
use crate::text::filter_map;
use crate::facts::parse::{
    kv_pair, kv_pairs, last_body, lookup, marker_name, routeros_facts, scan_sections, section, sections, SECTION_MARKER,
};

verus! {

/// A line giving the serial number: `serial-number:` after the blanks that
/// right-align RouterOS keys.
pub open spec fn serial_line(l: Seq<char>) -> bool {
    starts_with(trim_start(l), "serial-number:"@) && !l.contains('\n')
}

/// Leading blanks skipped: the count of them.
proof fn lemma_trim_start_split(l: Seq<char>) -> (n: int)
    ensures
        0 <= n <= l.len(),
        trim_start(l) == l.skip(n),
        forall|j: int| 0 <= j < n ==> is_ws(#[trigger] l[j]),
    decreases l.len(),
{
    if l.len() > 0 && is_ws(l[0]) {
        let m = lemma_trim_start_split(l.drop_first());
        assert(l.drop_first().skip(m) =~= l.skip(m + 1));
        assert forall|j: int| 0 <= j < m + 1 implies is_ws(#[trigger] l[j]) by {
            if j > 0 {
                assert(l[j] == l.drop_first()[j - 1]);
            }
        }
        m + 1
    } else {
        assert(l.skip(0) =~= l);
        0
    }
}

/// Skipping leading blanks does not change what trimming the start gives.
proof fn lemma_trim_start_skip(x: Seq<char>, n: int)
    requires
        0 <= n <= x.len(),
        forall|j: int| 0 <= j < n ==> is_ws(#[trigger] x[j]),
    ensures
        trim_start(x) == trim_start(x.skip(n)),
    decreases n,
{
    if n > 0 {
        assert(is_ws(x[0]));
        assert forall|j: int| 0 <= j < n - 1 implies is_ws(#[trigger] x.drop_first()[j]) by {
            assert(x.drop_first()[j] == x[j + 1]);
        }
        lemma_trim_start_skip(x.drop_first(), n - 1);
        assert(x.drop_first().skip(n - 1) =~= x.skip(n));
    } else {
        assert(x.skip(0) =~= x);
    }
}

/// Trimming the end keeps every character up to a non-blank one.
proof fn lemma_trim_end_keeps(s: Seq<char>, i: int)
    requires
        0 <= i < s.len(),
        !is_ws(s[i]),
    ensures
        trim_end(s).len() > i,
        trim_end(s).take(i + 1) == s.take(i + 1),
    decreases s.len(),
{
    if s.len() > 0 && is_ws(s.last()) {
        lemma_trim_end_keeps(s.drop_last(), i);
        assert(s.drop_last().take(i + 1) =~= s.take(i + 1));
    }
}

/// The serial key's characters, none blank and none a colon.
proof fn lemma_key_chars()
    ensures
        "serial-number:"@.len() == 14,
        forall|j: int| 0 <= j < 13 ==> !is_ws(#[trigger] "serial-number:"@[j]) && "serial-number:"@[j] != ':',
        "serial-number:"@[13] == ':',
        "serial-number:"@[0] == 's',
        "serial-number"@ =~= "serial-number:"@.take(13),
        SECTION_MARKER@ == "====="@,
        "====="@.len() == 5,
        "====="@[0] == '=',
{
    reveal_strlit("serial-number:");
    reveal_strlit("serial-number");
    reveal_strlit("=====");
}

/// A serial line opens no section.
pub proof fn lemma_serial_not_marker(l: Seq<char>)
    requires
        serial_line(l),
    ensures
        marker_name(l) is None,
{
    lemma_key_chars();
    let t = trim_start(l);
    assert(t.take(14) == "serial-number:"@);
    assert(t[0] == t.take(14)[0]);
    assert(t[0] == 's');
    lemma_trim_end_keeps(t, 0);
    let tt = trim(l);
    assert(tt.take(1) == t.take(1));
    assert(tt[0] == tt.take(1)[0]);
    assert(t[0] == t.take(1)[0]);
    assert(tt[0] == 's');
    assert(strip_prefix(tt, "====="@) is None) by {
        if starts_with(tt, "====="@) {
            assert(tt.take(5)[0] == tt[0]);
        }
    }
}

/// The key a serial line (or the line with a final `\r` dropped) yields, if
/// any, is `serial-number`.
pub proof fn lemma_serial_pair(l: Seq<char>, x: Seq<char>)
    requires
        serial_line(l),
        x == l || x == strip_cr(l),
    ensures
        match kv_pair(x, ':', true) {
            Some(p) => p.0 == "serial-number"@,
            None => true,
        },
{
    lemma_key_chars();
    let n = lemma_trim_start_split(l);
    let t = l.skip(n);
    assert(t.take(14) == "serial-number:"@);
    assert(l.len() >= n + 14);
    assert forall|j: int| 0 <= j < n + 14 implies #[trigger] x[j] == l[j] by {
        if x != l {
            assert(l.last() == '\r');
            assert(l[n + 13] == t[13]);
            assert(l.len() - 1 != n + 13);
        }
    }
    assert forall|j: int| 0 <= j < n implies x[j] != ':' by {
        assert(is_ws(l[j]));
    }
    assert forall|j: int| n <= j < n + 13 implies x[j] != ':' by {
        assert(x[j] == t[j - n]);
        assert(t[j - n] == "serial-number:"@[j - n]);
    }
    assert(x[n + 13] == t[13]);
    lemma_find_at(x, ':', n + 13);
    let key = x.take(n + 13);
    assert forall|j: int| 0 <= j < n implies is_ws(#[trigger] key[j]) by {
        assert(key[j] == l[j]);
    }
    lemma_trim_start_skip(key, n);
    assert(key.skip(n) =~= "serial-number"@) by {
        assert forall|j: int| 0 <= j < 13 implies key.skip(n)[j] == "serial-number"@[j] by {
            assert(key.skip(n)[j] == t[j]);
            assert(t[j] == t.take(14)[j]);
        }
    }
    assert(trim_start("serial-number"@) == "serial-number"@) by {
        assert(!is_ws("serial-number"@[0]));
    }
    assert(trim_end("serial-number"@) == "serial-number"@) by {
        assert(!is_ws("serial-number"@[12]));
        assert("serial-number"@.last() == "serial-number"@[12]);
    }
}


/// The lines of a text that ends a line, followed by more text.
pub(crate) proof fn lemma_lines_concat(a: Seq<char>, b: Seq<char>)
    requires
        a.len() == 0 || a.last() == '\n',
    ensures
        lines(a + b) == lines(a) + lines(b),
    decreases a.len(),
{
    if a.len() == 0 {
        assert(a + b =~= b);
        assert(lines(a) =~= Seq::<Seq<char>>::empty());
        assert(lines(a) + lines(b) =~= lines(b));
    } else {
        lemma_find(a, '\n');
        let i = find(a, '\n')->0;
        let ab = a + b;
        assert forall|j: int| 0 <= j < i implies ab[j] != '\n' by {
            assert(ab[j] == a[j]);
        }
        assert(ab[i] == a[i]);
        lemma_find_at(ab, '\n', i);
        assert(ab.take(i) =~= a.take(i));
        assert(ab.skip(i + 1) =~= a.skip(i + 1) + b);
        let rest = a.skip(i + 1);
        assert(rest.len() == 0 || rest.last() == a.last());
        lemma_lines_concat(rest, b);
        assert(lines(ab) == seq![strip_cr(a.take(i))] + lines(rest + b));
        assert(lines(a) == seq![strip_cr(a.take(i))] + lines(rest));
        assert(lines(ab) =~= lines(a) + lines(b));
    }
}

/// One line ended by a newline.
pub(crate) proof fn lemma_lines_one(l: Seq<char>)
    requires
        !l.contains('\n'),
    ensures
        lines(l + seq!['\n']) == seq![strip_cr(l)],
{
    let t = l + seq!['\n'];
    assert forall|j: int| 0 <= j < l.len() implies t[j] != '\n' by {
        assert(t[j] == l[j]);
        if l[j] == '\n' {
            assert(l.contains('\n'));
        }
    }
    lemma_find_at(t, '\n', l.len() as int);
    assert(t.take(l.len() as int) =~= l);
    assert(t.skip(l.len() as int + 1) =~= Seq::<char>::empty());
    assert(lines(Seq::<char>::empty()) =~= Seq::<Seq<char>>::empty());
    assert(lines(t) =~= seq![strip_cr(l)]);
}

proof fn lemma_filter_map_concat<A, B>(a: Seq<A>, b: Seq<A>, f: spec_fn(A) -> Option<B>)
    ensures
        filter_map(a + b, f) == filter_map(a, f) + filter_map(b, f),
    decreases b.len(),
{
    if b.len() == 0 {
        assert(a + b =~= a);
        assert(filter_map(a, f) + filter_map(b, f) =~= filter_map(a, f));
    } else {
        assert((a + b).drop_last() =~= a + b.drop_last());
        assert((a + b).last() == b.last());
        lemma_filter_map_concat(a, b.drop_last(), f);
        match f(b.last()) {
            Some(x) => {
                assert(filter_map(a + b, f) =~= filter_map(a, f) + filter_map(b, f));
            },
            None => {},
        }
    }
}

proof fn lemma_lookup_concat(a: Seq<(Seq<char>, Seq<char>)>, b: Seq<(Seq<char>, Seq<char>)>, key: Seq<char>)
    ensures
        lookup(a + b, key) == match lookup(b, key) {
            Some(v) => Some(v),
            None => lookup(a, key),
        },
    decreases b.len(),
{
    if b.len() == 0 {
        assert(a + b =~= a);
    } else {
        assert((a + b).drop_last() =~= a + b.drop_last());
        assert((a + b).last() == b.last());
        lemma_lookup_concat(a, b.drop_last(), key);
    }
}

/// Two section bodies alike but for one serial line.
pub open spec fn bodies_alike(b1: Seq<char>, b2: Seq<char>, l1: Seq<char>, l2: Seq<char>, x: Seq<char>, y: Seq<char>) -> bool {
    &&& x.len() == 0 || x.last() == '\n'
    &&& b1 == x + l1 + seq!['\n'] + y
    &&& b2 == x + l2 + seq!['\n'] + y
}

/// The pairs of a body alike but for a serial line give every other key
/// the same value.
proof fn lemma_alike_lookup(b1: Seq<char>, b2: Seq<char>, l1: Seq<char>, l2: Seq<char>, x: Seq<char>, y: Seq<char>, key: Seq<char>)
    requires
        bodies_alike(b1, b2, l1, l2, x, y),
        serial_line(l1),
        serial_line(l2),
        key != "serial-number"@,
    ensures
        lookup(kv_pairs(b1, ':', true), key) == lookup(kv_pairs(b2, ':', true), key),
{
    let f = |l: Seq<char>| kv_pair(l, ':', true);
    assert forall|l: Seq<char>, r: Seq<char>| serial_line(l) && r == l + seq!['\n'] + y implies lines(x + r) == lines(x) + (
        seq![strip_cr(l)] + lines(y)) by {
        lemma_lines_concat(x, r);
        lemma_lines_concat(l + seq!['\n'], y);
        lemma_lines_one(l);
    }
    assert(b1 =~= x + (l1 + seq!['\n'] + y));
    assert(b2 =~= x + (l2 + seq!['\n'] + y));
    let fx = filter_map(lines(x), f);
    let fy = filter_map(lines(y), f);
    lemma_filter_map_concat(lines(x), seq![strip_cr(l1)] + lines(y), f);
    lemma_filter_map_concat(seq![strip_cr(l1)], lines(y), f);
    lemma_filter_map_concat(lines(x), seq![strip_cr(l2)] + lines(y), f);
    lemma_filter_map_concat(seq![strip_cr(l2)], lines(y), f);
    let q1 = filter_map(seq![strip_cr(l1)], f);
    let q2 = filter_map(seq![strip_cr(l2)], f);
    assert(seq![strip_cr(l1)].drop_last() =~= Seq::<Seq<char>>::empty());
    assert(seq![strip_cr(l2)].drop_last() =~= Seq::<Seq<char>>::empty());
    lemma_serial_pair(l1, strip_cr(l1));
    lemma_serial_pair(l2, strip_cr(l2));
    let e0 = Seq::<Seq<char>>::empty();
    assert(filter_map(e0, f) =~= Seq::<(Seq<char>, Seq<char>)>::empty());
    assert(seq![strip_cr(l1)].last() == strip_cr(l1));
    assert(seq![strip_cr(l2)].last() == strip_cr(l2));
    assert(seq![strip_cr(l1)].drop_last() == e0);
    assert(seq![strip_cr(l2)].drop_last() == e0);
    assert(lookup(q1, key) is None) by {
        assert(f(strip_cr(l1)) == kv_pair(strip_cr(l1), ':', true));
        match f(strip_cr(l1)) {
            Some(pr) => {
                assert(pr.0 == "serial-number"@);
                assert(q1 =~= seq![pr]);
                assert(q1.drop_last() =~= Seq::<(Seq<char>, Seq<char>)>::empty());
                assert(q1.last() == pr);
                assert(lookup(q1.drop_last(), key) is None);
                assert(lookup(q1, key) == lookup(q1.drop_last(), key));
            },
            None => {
                assert(q1 =~= Seq::<(Seq<char>, Seq<char>)>::empty());
                assert(lookup(q1, key) is None);
            },
        }
    }
    assert(lookup(q2, key) is None) by {
        assert(f(strip_cr(l2)) == kv_pair(strip_cr(l2), ':', true));
        match f(strip_cr(l2)) {
            Some(pr) => {
                assert(pr.0 == "serial-number"@);
                assert(q2 =~= seq![pr]);
                assert(q2.drop_last() =~= Seq::<(Seq<char>, Seq<char>)>::empty());
                assert(q2.last() == pr);
                assert(lookup(q2.drop_last(), key) is None);
                assert(lookup(q2, key) == lookup(q2.drop_last(), key));
            },
            None => {
                assert(q2 =~= Seq::<(Seq<char>, Seq<char>)>::empty());
                assert(lookup(q2, key) is None);
            },
        }
    }
    assert(kv_pairs(b1, ':', true) == fx + (q1 + fy));
    assert(kv_pairs(b2, ':', true) == fx + (q2 + fy));
    lemma_lookup_concat(fx, q1 + fy, key);
    lemma_lookup_concat(q1, fy, key);
    lemma_lookup_concat(fx, q2 + fy, key);
    lemma_lookup_concat(q2, fy, key);
}


/// The completed sections and the open one after it.
pub open spec fn full(st: (Seq<(Seq<char>, Seq<char>)>, Option<(Seq<char>, Seq<char>)>)) -> Seq<(Seq<char>, Seq<char>)> {
    match st.1 {
        Some(c) => st.0.push(c),
        None => st.0,
    }
}

/// The section a line falls in: the one the last marker line before it
/// opens.
pub open spec fn section_at(ls: Seq<Seq<char>>, k: int) -> Option<Seq<char>>
    decreases k,
{
    if k <= 0 {
        None
    } else {
        match marker_name(ls[k - 1]) {
            Some(n) => Some(n),
            None => section_at(ls, k - 1),
        }
    }
}

proof fn lemma_section_at(ls: Seq<Seq<char>>, k: int)
    requires
        0 <= k <= ls.len(),
    ensures
        section_at(ls, k) matches Some(n) ==> scan_sections(ls.take(k)).1 matches Some(c) && c.0 == n,
        scan_sections(ls.take(k)).1 matches Some(c) ==> c.1.len() == 0 || c.1.last() == '\n',
    decreases k,
{
    if k > 0 {
        lemma_section_at(ls, k - 1);
        assert(ls.take(k).drop_last() =~= ls.take(k - 1));
        assert(ls.take(k).last() == ls[k - 1]);
    }
}

/// Two scan states alike but for one serial line in a ROUTERBOARD section.
pub open spec fn st_alike(
    s1: (Seq<(Seq<char>, Seq<char>)>, Option<(Seq<char>, Seq<char>)>),
    s2: (Seq<(Seq<char>, Seq<char>)>, Option<(Seq<char>, Seq<char>)>),
    l1: Seq<char>,
    l2: Seq<char>,
    j: int,
    x: Seq<char>,
    y: Seq<char>,
) -> bool {
    let f1 = full(s1);
    let f2 = full(s2);
    &&& s1.0.len() == s2.0.len()
    &&& (s1.1 is Some) == (s2.1 is Some)
    &&& f1.len() == f2.len()
    &&& 0 <= j < f1.len()
    &&& forall|i: int| 0 <= i < f1.len() && i != j ==> #[trigger] f1[i] == f2[i]
    &&& f1[j].0 == "ROUTERBOARD"@
    &&& f2[j].0 == f1[j].0
    &&& bodies_alike(f1[j].1, f2[j].1, l1, l2, x, y)
}

proof fn lemma_scan_alike(ls1: Seq<Seq<char>>, ls2: Seq<Seq<char>>, k: int, n: int) -> (r: (int, Seq<char>, Seq<char>))
    requires
        ls1.len() == ls2.len(),
        0 <= k < n <= ls1.len(),
        forall|i: int| 0 <= i < ls1.len() && i != k ==> ls1[i] == ls2[i],
        serial_line(ls1[k]),
        serial_line(ls2[k]),
        section_at(ls1, k) == Some("ROUTERBOARD"@),
    ensures
        st_alike(scan_sections(ls1.take(n)), scan_sections(ls2.take(n)), ls1[k], ls2[k], r.0, r.1, r.2),
    decreases n,
{
    let t1 = ls1.take(n);
    let t2 = ls2.take(n);
    assert(t1.drop_last() =~= ls1.take(n - 1));
    assert(t2.drop_last() =~= ls2.take(n - 1));
    assert(t1.last() == ls1[n - 1]);
    assert(t2.last() == ls2[n - 1]);
    let p1 = scan_sections(ls1.take(n - 1));
    let p2 = scan_sections(ls2.take(n - 1));
    let s1 = scan_sections(t1);
    let s2 = scan_sections(t2);
    if n == k + 1 {
        assert(ls1.take(k) =~= ls2.take(k));
        lemma_section_at(ls1, k);
        lemma_serial_not_marker(ls1[k]);
        lemma_serial_not_marker(ls2[k]);
        let c = p1.1->0;
        let x = c.1;
        let y = Seq::<char>::empty();
        assert(s1 == (p1.0, Some((c.0, c.1 + ls1[k] + seq!['\n']))));
        assert(s2 == (p1.0, Some((c.0, c.1 + ls2[k] + seq!['\n']))));
        assert(c.1 + ls1[k] + seq!['\n'] =~= x + ls1[k] + seq!['\n'] + y);
        assert(c.1 + ls2[k] + seq!['\n'] =~= x + ls2[k] + seq!['\n'] + y);
        let j = p1.0.len() as int;
        assert forall|i: int| 0 <= i < full(s1).len() && i != j implies #[trigger] full(s1)[i] == full(s2)[i] by {}
        (j, x, y)
    } else {
        let (j, x, y) = lemma_scan_alike(ls1, ls2, k, n - 1);
        let l = ls1[n - 1];
        assert(ls2[n - 1] == l);
        let f1 = full(p1);
        let f2 = full(p2);
        match marker_name(l) {
            Some(m) => {
                assert(full(s1) =~= f1.push((m, Seq::<char>::empty())));
                assert(full(s2) =~= f2.push((m, Seq::<char>::empty())));
                assert forall|i: int| 0 <= i < full(s1).len() && i != j implies #[trigger] full(s1)[i] == full(s2)[i] by {
                    if i < f1.len() {
                        assert(full(s1)[i] == f1[i]);
                        assert(full(s2)[i] == f2[i]);
                    }
                }
                assert(full(s1)[j] == f1[j]);
                assert(full(s2)[j] == f2[j]);
                (j, x, y)
            },
            None => {
                match p1.1 {
                    Some(c1) => {
                        let c2 = p2.1->0;
                        let m0 = p1.0.len() as int;
                        assert(full(s1) =~= p1.0.push((c1.0, c1.1 + l + seq!['\n'])));
                        assert(full(s2) =~= p2.0.push((c2.0, c2.1 + l + seq!['\n'])));
                        assert(f1 =~= p1.0.push(c1));
                        assert(f2 =~= p2.0.push(c2));
                        if j == m0 {
                            let y2 = y + l + seq!['\n'];
                            assert(c1.1 + l + seq!['\n'] =~= x + ls1[k] + seq!['\n'] + y2);
                            assert(c2.1 + l + seq!['\n'] =~= x + ls2[k] + seq!['\n'] + y2);
                            assert forall|i: int| 0 <= i < full(s1).len() && i != j implies #[trigger] full(s1)[i] == full(s2)[i] by {
                                assert(full(s1)[i] == f1[i]);
                                assert(full(s2)[i] == f2[i]);
                            }
                            (j, x, y2)
                        } else {
                            assert(f1[m0] == f2[m0]);
                            assert forall|i: int| 0 <= i < full(s1).len() && i != j implies #[trigger] full(s1)[i] == full(s2)[i] by {
                                if i < m0 {
                                    assert(full(s1)[i] == f1[i]);
                                    assert(full(s2)[i] == f2[i]);
                                }
                            }
                            assert(full(s1)[j] == f1[j]);
                            assert(full(s2)[j] == f2[j]);
                            (j, x, y)
                        }
                    },
                    None => {
                        assert(s1 == p1);
                        assert(s2 == p2);
                        (j, x, y)
                    },
                }
            },
        }
    }
}


proof fn lemma_last_body(
    f1: Seq<(Seq<char>, Seq<char>)>,
    f2: Seq<(Seq<char>, Seq<char>)>,
    j: int,
    name: Seq<char>,
)
    requires
        f1.len() == f2.len(),
        0 <= j,
        forall|i: int| 0 <= i < f1.len() && i != j ==> #[trigger] f1[i] == f2[i],
        j < f1.len() ==> f1[j].0 == "ROUTERBOARD"@ && f2[j].0 == f1[j].0,
    ensures
        name != "ROUTERBOARD"@ || j >= f1.len() ==> last_body(f1, name) == last_body(f2, name),
        last_body(f1, name) == last_body(f2, name) || (j < f1.len() && last_body(f1, name) == f1[j].1 && last_body(
            f2,
            name,
        ) == f2[j].1),
    decreases f1.len(),
{
    if f1.len() > 0 {
        let n = f1.len() - 1;
        assert forall|i: int| 0 <= i < f1.drop_last().len() && i != j implies #[trigger] f1.drop_last()[i]
            == f2.drop_last()[i] by {
            assert(f1.drop_last()[i] == f1[i] && f2.drop_last()[i] == f2[i]);
        }
        if j < n {
            assert(f1.drop_last()[j] == f1[j] && f2.drop_last()[j] == f2[j]);
        }
        lemma_last_body(f1.drop_last(), f2.drop_last(), j, name);
        if n != j {
            assert(f1.last() == f2.last());
        }
    }
}

/// The serial number flows into no fact: two RouterOS outputs whose lines
/// differ only in one `serial-number:` line of their ROUTERBOARD section
/// give the same facts.
pub proof fn law_serial_number_not_recorded(raw1: Seq<char>, raw2: Seq<char>, k: int)
    requires
        lines(raw1).len() == lines(raw2).len(),
        0 <= k < lines(raw1).len(),
        forall|i: int| 0 <= i < lines(raw1).len() && i != k ==> lines(raw1)[i] == lines(raw2)[i],
        serial_line(lines(raw1)[k]),
        serial_line(lines(raw2)[k]),
        section_at(lines(raw1), k) == Some("ROUTERBOARD"@),
    ensures
        routeros_facts(raw1) == routeros_facts(raw2),
{
    let ls1 = lines(raw1);
    let ls2 = lines(raw2);
    let n = ls1.len() as int;
    let (j, x, y) = lemma_scan_alike(ls1, ls2, k, n);
    assert(ls1.take(n) =~= ls1);
    assert(ls2.take(n) =~= ls2);
    let f1 = sections(raw1);
    let f2 = sections(raw2);
    assert(f1 == full(scan_sections(ls1)));
    assert(f2 == full(scan_sections(ls2)));
    reveal_strlit("RESOURCE");
    reveal_strlit("ROUTERBOARD");
    reveal_strlit("IDENTITY");
    reveal_strlit("ADDRESS");
    assert("RESOURCE"@ != "ROUTERBOARD"@) by {
        assert("RESOURCE"@.len() != "ROUTERBOARD"@.len());
    }
    assert("IDENTITY"@ != "ROUTERBOARD"@) by {
        assert("IDENTITY"@.len() != "ROUTERBOARD"@.len());
    }
    assert("ADDRESS"@ != "ROUTERBOARD"@) by {
        assert("ADDRESS"@.len() != "ROUTERBOARD"@.len());
    }
    lemma_last_body(f1, f2, j, "RESOURCE"@);
    lemma_last_body(f1, f2, j, "IDENTITY"@);
    lemma_last_body(f1, f2, j, "ADDRESS"@);
    lemma_last_body(f1, f2, j, "ROUTERBOARD"@);
    let b1 = section(raw1, "ROUTERBOARD"@);
    let b2 = section(raw2, "ROUTERBOARD"@);
    if b1 != b2 {
        reveal_strlit("model");
        reveal_strlit("serial-number");
        assert("model"@ != "serial-number"@) by {
            assert("model"@.len() != "serial-number"@.len());
        }
        lemma_alike_lookup(b1, b2, ls1[k], ls2[k], x, y, "model"@);
    }
}

} // verus!
