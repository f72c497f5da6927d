//! Pure parsing of the command battery's sectioned output into
//! [`HostFacts`]. Every section is optional: a missing tool yields empty
//! fields, never a parse failure — absence of evidence is recorded, not
//! invented.

use vstd::prelude::*;
use crate::text::{
    all_digits, all_digits_of, digits_value, digits_value_sat, digit_value, find, find_from, lemma_find, lemma_digits_nonneg, contains_of, chars_of, fmt_u64, lemma_first_match_at, contains, eq_chars, filter_map, first_match, lines, lines_of,
    nat_digits, nonblank, opt_view, pair_views, parse_i64, seq_views, is_digit, parse_i64_of, split_once,
    split_once_of, string_from, strip_prefix, strip_prefix_of, strip_suffix, strip_suffix_of,
    tokens, tokens_of, trim, trim_slice, trim_vec, views,
};
use crate::facts::schema::{
    empty_facts, AddressFacts, AddressModel, GpuFacts, GpuModel, GuestFacts, GuestKind,
    GuestModel, HostFacts, HostFactsModel,
};

verus! {

/// Section sentinel emitted by the battery script.
pub const SECTION_MARKER: &'static str = "=====";

/// The section a marker line opens: the text between a leading and a
/// trailing `=====` of the trimmed line.
pub open spec fn marker_name(line: Seq<char>) -> Option<Seq<char>> {
    match strip_prefix(trim(line), SECTION_MARKER@) {
        Some(rest) => strip_suffix(rest, SECTION_MARKER@),
        None => None,
    }
}

/// Completed sections and the one still open, after some lines.
pub open spec fn scan_sections(ls: Seq<Seq<char>>) -> (
    Seq<(Seq<char>, Seq<char>)>,
    Option<(Seq<char>, Seq<char>)>,
)
    decreases ls.len(),
{
    if ls.len() == 0 {
        (seq![], None)
    } else {
        let prev = scan_sections(ls.drop_last());
        let line = ls.last();
        match marker_name(line) {
            Some(name) => (
                match prev.1 {
                    Some(c) => prev.0.push(c),
                    None => prev.0,
                },
                Some((name, seq![])),
            ),
            None => match prev.1 {
                Some(c) => (prev.0, Some((c.0, c.1 + line + seq!['\n']))),
                None => prev,
            },
        }
    }
}

/// The sections of a battery output, in order: each marker line opens a
/// section whose body is the following lines, each with a `\n`.
pub open spec fn sections(raw: Seq<char>) -> Seq<(Seq<char>, Seq<char>)> {
    let st = scan_sections(lines(raw));
    match st.1 {
        Some(c) => st.0.push(c),
        None => st.0,
    }
}

/// The body of the last section with a name, or the empty text.
pub open spec fn last_body(secs: Seq<(Seq<char>, Seq<char>)>, name: Seq<char>) -> Seq<char>
    decreases secs.len(),
{
    if secs.len() == 0 {
        seq![]
    } else if secs.last().0 == name {
        secs.last().1
    } else {
        last_body(secs.drop_last(), name)
    }
}

/// The named section of a battery output (empty when absent).
pub open spec fn section(raw: Seq<char>, name: Seq<char>) -> Seq<char> {
    last_body(sections(raw), name)
}

spec fn cur_view(c: Option<(Vec<char>, Vec<char>)>) -> Option<(Seq<char>, Seq<char>)> {
    match c {
        Some(p) => Some((p.0@, p.1@)),
        None => None,
    }
}

fn marker_name_of(line: &[char]) -> (r: Option<Vec<char>>)
    ensures
        opt_view(r) == marker_name(line@),
{
    let t = trim_slice(line);
    let m = chars_of(SECTION_MARKER);
    match strip_prefix_of(t, m.as_slice()) {
        Some(rest) => strip_suffix_of(rest.as_slice(), m.as_slice()),
        None => None,
    }
}

fn split_sections(raw: &[char]) -> (r: Vec<(Vec<char>, Vec<char>)>)
    ensures
        pair_views(r@) == sections(raw@),
{
    let ls = lines_of(raw);
    let mut done: Vec<(Vec<char>, Vec<char>)> = Vec::new();
    let mut cur: Option<(Vec<char>, Vec<char>)> = None;
    let mut i: usize = 0;
    assert(views(ls@).take(0) =~= Seq::<Seq<char>>::empty());
    assert(pair_views(done@) =~= Seq::<(Seq<char>, Seq<char>)>::empty());
    while i < ls.len()
        invariant
            i <= ls@.len(),
            views(ls@) == lines(raw@),
            (pair_views(done@), cur_view(cur)) == scan_sections(views(ls@).take(i as int)),
        decreases ls@.len() - i,
    {
        let ghost prev_done = done@;
        assert(views(ls@).take(i + 1).drop_last() =~= views(ls@).take(i as int));
        assert(views(ls@).take(i + 1).last() == ls@[i as int]@);
        let line = ls[i].as_slice();
        match marker_name_of(line) {
            Some(name) => {
                match cur {
                    Some(c) => {
                        done.push(c);
                        assert(pair_views(done@) =~= pair_views(prev_done).push(
                            (c.0@, c.1@),
                        ));
                    },
                    None => {},
                }
                cur = Some((name, Vec::new()));
            },
            None => {
                match cur {
                    Some(c) => {
                        let (n, mut b) = c;
                        let ghost b0 = b@;
                        b.extend_from_slice(line);
                        b.push('\n');
                        assert(b@ =~= b0 + line@ + seq!['\n']);
                        cur = Some((n, b));
                    },
                    None => {
                        cur = None;
                    },
                }
            },
        }
        i = i + 1;
    }
    assert(views(ls@).take(i as int) =~= views(ls@));
    let ghost pd = done@;
    match cur {
        Some(c) => {
            done.push(c);
            assert(pair_views(done@) =~= pair_views(pd).push((c.0@, c.1@)));
        },
        None => {},
    }
    done
}

fn section_of(secs: &Vec<(Vec<char>, Vec<char>)>, name: &str) -> (r: Vec<char>)
    ensures
        r@ == last_body(pair_views(secs@), name@),
{
    let key = chars_of(name);
    let mut i = secs.len();
    assert(pair_views(secs@).take(i as int) =~= pair_views(secs@));
    while i > 0
        invariant
            i <= secs@.len(),
            key@ == name@,
            last_body(pair_views(secs@), name@) == last_body(
                pair_views(secs@).take(i as int),
                name@,
            ),
        decreases i,
    {
        assert(pair_views(secs@).take(i as int).drop_last() =~= pair_views(secs@).take(i - 1));
        if eq_chars(secs[i - 1].0.as_slice(), key.as_slice()) {
            return vstd::slice::slice_to_vec(secs[i - 1].1.as_slice());
        }
        i = i - 1;
    }
    Vec::new()
}

/// A `key<sep>value` line, both sides trimmed; with `nonempty`, a line
/// whose value is blank yields nothing.
pub open spec fn kv_pair(line: Seq<char>, sep: char, nonempty: bool) -> Option<
    (Seq<char>, Seq<char>),
> {
    match split_once(line, sep) {
        Some(p) => if !nonempty || trim(p.1).len() > 0 {
            Some((trim(p.0), trim(p.1)))
        } else {
            None
        },
        None => None,
    }
}

/// `key=value` lines with a non-blank value.
fn parse_key_values(section: &[char]) -> (r: Vec<(Vec<char>, Vec<char>)>)
    ensures
        pair_views(r@) == kv_pairs(section@, '=', true),
{
    split_pairs(section, '=', true)
}

/// `key: value` lines with a non-blank value, as RouterOS prints them.
fn parse_colon_pairs(section: &[char]) -> (r: Vec<(Vec<char>, Vec<char>)>)
    ensures
        pair_views(r@) == kv_pairs(section@, ':', true),
{
    split_pairs(section, ':', true)
}

/// The key/value pairs of a section, in line order.
pub open spec fn kv_pairs(s: Seq<char>, sep: char, nonempty: bool) -> Seq<(Seq<char>, Seq<char>)> {
    filter_map(lines(s), |l: Seq<char>| kv_pair(l, sep, nonempty))
}

/// The value the last pair with a key gives it (a later line overrides an
/// earlier one, as a map insert does).
pub open spec fn lookup(pairs: Seq<(Seq<char>, Seq<char>)>, key: Seq<char>) -> Option<Seq<char>>
    decreases pairs.len(),
{
    if pairs.len() == 0 {
        None
    } else if pairs.last().0 == key {
        Some(pairs.last().1)
    } else {
        lookup(pairs.drop_last(), key)
    }
}

fn kv_pair_of(line: &[char], sep: char, nonempty: bool) -> (r: Option<(Vec<char>, Vec<char>)>)
    ensures
        r == None::<(Vec<char>, Vec<char>)> <==> kv_pair(line@, sep, nonempty) is None,
        r is Some ==> kv_pair(line@, sep, nonempty) == Some(((r->0).0@, (r->0).1@)),
{
    match split_once_of(line, sep) {
        Some((k, v)) => {
            let tv = trim_vec(v.as_slice());
            if !nonempty || tv.len() > 0 {
                Some((trim_vec(k.as_slice()), tv))
            } else {
                None
            }
        },
        None => None,
    }
}

/// The key/value pairs of a section (`key<sep>value` lines, trimmed).
fn split_pairs(section: &[char], sep: char, nonempty: bool) -> (r: Vec<(Vec<char>, Vec<char>)>)
    ensures
        pair_views(r@) == kv_pairs(section@, sep, nonempty),
{
    let ls = lines_of(section);
    let mut out: Vec<(Vec<char>, Vec<char>)> = Vec::new();
    let mut i: usize = 0;
    let ghost f = |l: Seq<char>| kv_pair(l, sep, nonempty);
    assert(pair_views(out@) =~= filter_map(views(ls@).take(0), f));
    while i < ls.len()
        invariant
            i <= ls@.len(),
            f == (|l: Seq<char>| kv_pair(l, sep, nonempty)),
            pair_views(out@) == filter_map(views(ls@).take(i as int), f),
        decreases ls@.len() - i,
    {
        let ghost prev = out@;
        assert(views(ls@).take(i + 1).drop_last() =~= views(ls@).take(i as int));
        assert(views(ls@).take(i + 1).last() == ls@[i as int]@);
        match kv_pair_of(ls[i].as_slice(), sep, nonempty) {
            Some(p) => {
                out.push(p);
                assert(pair_views(out@) =~= pair_views(prev).push((p.0@, p.1@)));
            },
            None => {},
        }
        i = i + 1;
    }
    assert(views(ls@).take(i as int) =~= views(ls@));
    out
}

fn lookup_of(pairs: &Vec<(Vec<char>, Vec<char>)>, key: &str) -> (r: Option<Vec<char>>)
    ensures
        opt_view(r) == lookup(pair_views(pairs@), key@),
{
    let k = chars_of(key);
    let mut i = pairs.len();
    assert(pair_views(pairs@).take(i as int) =~= pair_views(pairs@));
    while i > 0
        invariant
            i <= pairs@.len(),
            k@ == key@,
            lookup(pair_views(pairs@), key@) == lookup(pair_views(pairs@).take(i as int), key@),
        decreases i,
    {
        assert(pair_views(pairs@).take(i as int).drop_last() =~= pair_views(pairs@).take(i - 1));
        if eq_chars(pairs[i - 1].0.as_slice(), k.as_slice()) {
            return Some(vstd::slice::slice_to_vec(pairs[i - 1].1.as_slice()));
        }
        i = i - 1;
    }
    None
}

/// Vendor and product joined by a space, or whichever one is present.
pub open spec fn motherboard_of(vendor: Option<Seq<char>>, product: Option<Seq<char>>) -> Option<
    Seq<char>,
> {
    match (vendor, product) {
        (Some(v), Some(p)) => Some(v + " "@ + p),
        (Some(v), None) => Some(v),
        (None, Some(p)) => Some(p),
        (None, None) => None,
    }
}

fn parse_motherboard(board: &Vec<(Vec<char>, Vec<char>)>) -> (r: Option<Vec<char>>)
    ensures
        opt_view(r) == motherboard_of(
            lookup(pair_views(board@), "board_vendor"@),
            lookup(pair_views(board@), "board_product"@),
        ),
{
    let vendor = lookup_of(board, "board_vendor");
    let product = lookup_of(board, "board_product");
    match (vendor, product) {
        (Some(v), Some(p)) => {
            let mut out = v;
            let sp = chars_of(" ");
            out.extend_from_slice(sp.as_slice());
            out.extend_from_slice(p.as_slice());
            Some(out)
        },
        (Some(v), None) => Some(v),
        (None, Some(p)) => Some(p),
        (None, None) => None,
    }
}

/// An optional text read as an `i64`.
pub open spec fn opt_i64(v: Option<Seq<char>>) -> Option<i64> {
    match v {
        Some(t) => parse_i64(t),
        None => None,
    }
}

fn opt_i64_of(v: Option<Vec<char>>) -> (r: Option<i64>)
    ensures
        r == opt_i64(opt_view(v)),
{
    match v {
        Some(t) => parse_i64_of(t.as_slice()),
        None => None,
    }
}

fn opt_string(v: Option<Vec<char>>) -> (r: Option<String>)
    ensures
        r.deep_view() == opt_view(v),
{
    match v {
        Some(t) => Some(string_from(t.as_slice())),
        None => None,
    }
}

/// The `lscpu` figures of a section: the last `Model name` value, and
/// the last `Socket(s)`, `Core(s) per socket`, `Thread(s) per core` and
/// `NUMA node(s)` values read as integers.
pub struct CpuFacts {
    pub model: Option<Vec<char>>,
    pub sockets: Option<i64>,
    pub cores_per_socket: Option<i64>,
    pub threads_per_core: Option<i64>,
    pub numa_nodes: Option<i64>,
}

fn parse_lscpu(section: &[char]) -> (r: CpuFacts)
    ensures
        opt_view(r.model) == lookup(kv_pairs(section@, ':', false), "Model name"@),
        r.sockets == opt_i64(lookup(kv_pairs(section@, ':', false), "Socket(s)"@)),
        r.cores_per_socket == opt_i64(
            lookup(kv_pairs(section@, ':', false), "Core(s) per socket"@),
        ),
        r.threads_per_core == opt_i64(
            lookup(kv_pairs(section@, ':', false), "Thread(s) per core"@),
        ),
        r.numa_nodes == opt_i64(lookup(kv_pairs(section@, ':', false), "NUMA node(s)"@)),
{
    let pairs = split_pairs(section, ':', false);
    CpuFacts {
        model: lookup_of(&pairs, "Model name"),
        sockets: opt_i64_of(lookup_of(&pairs, "Socket(s)")),
        cores_per_socket: opt_i64_of(lookup_of(&pairs, "Core(s) per socket")),
        threads_per_core: opt_i64_of(lookup_of(&pairs, "Thread(s) per core")),
        numa_nodes: opt_i64_of(lookup_of(&pairs, "NUMA node(s)")),
    }
}

/// An `i64` divided by 1024, rounding toward zero.
pub open spec fn div_1024(a: i64) -> i64 {
    if a >= 0 {
        (a / 1024) as i64
    } else {
        (-((-a) / 1024)) as i64
    }
}

/// The GB a DIMM size contributes, by its unit.
pub open spec fn unit_gb(amount: i64, unit: Seq<char>) -> i64 {
    if unit == "GB"@ {
        amount
    } else if unit == "MB"@ {
        div_1024(amount)
    } else if unit == "TB"@ {
        amount.wrapping_mul(1024)
    } else {
        0
    }
}

/// Running `(GB total, populated, empty, any Size line seen)`.
pub open spec fn mem_step(t: (i64, i64, i64, bool), line: Seq<char>) -> (i64, i64, i64, bool) {
    match strip_prefix(trim(line), "Size:"@) {
        None => t,
        Some(raw) => {
            let size = trim(raw);
            if size == "No Module Installed"@ || size == "None"@ {
                (t.0, t.1, t.2.wrapping_add(1), true)
            } else {
                match split_once(size, ' ') {
                    Some(p) => match parse_i64(p.0) {
                        Some(n) => (t.0.wrapping_add(unit_gb(n, p.1)), t.1.wrapping_add(1), t.2, true),
                        None => (t.0, t.1, t.2, true),
                    },
                    None => (t.0, t.1, t.2, true),
                }
            }
        },
    }
}

pub open spec fn mem_fold(ls: Seq<Seq<char>>) -> (i64, i64, i64, bool)
    decreases ls.len(),
{
    if ls.len() == 0 {
        (0, 0, 0, false)
    } else {
        mem_step(mem_fold(ls.drop_last()), ls.last())
    }
}

/// `dmidecode -t 17` sizes: (installed GB, populated DIMMs, empty slots),
/// all absent when no `Size:` line is present.
pub open spec fn membanks(s: Seq<char>) -> (Option<i64>, Option<i64>, Option<i64>) {
    let t = mem_fold(lines(s));
    if t.3 {
        (Some(t.0), Some(t.1), Some(t.2))
    } else {
        (None, None, None)
    }
}

fn unit_gb_of(amount: i64, unit: &[char]) -> (r: i64)
    ensures
        r == unit_gb(amount, unit@),
{
    if eq_chars(unit, chars_of("GB").as_slice()) {
        amount
    } else if eq_chars(unit, chars_of("MB").as_slice()) {
        if amount >= 0 {
            amount / 1024
        } else {
            let m: u64 = (0 - (amount as i128)) as u64;
            let q: u64 = m / 1024;
            (0 - (q as i128)) as i64
        }
    } else if eq_chars(unit, chars_of("TB").as_slice()) {
        amount.wrapping_mul(1024)
    } else {
        0
    }
}

/// Sums `dmidecode -t 17` "Size:" lines. Returns (installed GB, populated
/// DIMMs, empty slots).
fn parse_membanks(section: &[char]) -> (r: (Option<i64>, Option<i64>, Option<i64>))
    ensures
        r == membanks(section@),
{
    let ls = lines_of(section);
    let mut total: i64 = 0;
    let mut populated: i64 = 0;
    let mut empty: i64 = 0;
    let mut saw_any = false;
    let mut i: usize = 0;
    let size_key = chars_of("Size:");
    let none_installed = chars_of("No Module Installed");
    let none_word = chars_of("None");
    while i < ls.len()
        invariant
            i <= ls@.len(),
            size_key@ == "Size:"@,
            none_installed@ == "No Module Installed"@,
            none_word@ == "None"@,
            (total, populated, empty, saw_any) == mem_fold(views(ls@).take(i as int)),
        decreases ls@.len() - i,
    {
        assert(views(ls@).take(i + 1).drop_last() =~= views(ls@).take(i as int));
        assert(views(ls@).take(i + 1).last() == ls@[i as int]@);
        let line = trim_slice(ls[i].as_slice());
        match strip_prefix_of(line, size_key.as_slice()) {
            None => {},
            Some(raw) => {
                saw_any = true;
                let size = trim_slice(raw.as_slice());
                if eq_chars(size, none_installed.as_slice()) || eq_chars(size, none_word.as_slice()) {
                    empty = empty.wrapping_add(1);
                } else {
                    match split_once_of(size, ' ') {
                        Some((amount, unit)) => match parse_i64_of(amount.as_slice()) {
                            Some(n) => {
                                populated = populated.wrapping_add(1);
                                total = total.wrapping_add(unit_gb_of(n, unit.as_slice()));
                            },
                            None => {},
                        },
                        None => {},
                    }
                }
            },
        }
        i = i + 1;
    }
    assert(views(ls@).take(i as int) =~= views(ls@));
    if saw_any {
        (Some(total), Some(populated), Some(empty))
    } else {
        (None, None, None)
    }
}

/// A `nvidia-smi` CSV row: `<name>, <n> MiB`.
pub open spec fn gpu_line(line: Seq<char>) -> Option<GpuModel> {
    match split_once(line, ',') {
        None => None,
        Some(p) => match strip_suffix(trim(p.1), "MiB"@) {
            None => None,
            Some(m) => match parse_i64(trim(m)) {
                Some(v) => Some(GpuModel { name: trim(p.0), memory_mib: v }),
                None => None,
            },
        },
    }
}

fn gpu_line_of(line: &[char]) -> (r: Option<GpuFacts>)
    ensures
        r is Some <==> gpu_line(line@) is Some,
        r is Some ==> gpu_line(line@) == Some((r->0)@),
{
    match split_once_of(line, ',') {
        None => None,
        Some((name, rest)) => {
            let mib = chars_of("MiB");
            match strip_suffix_of(trim_slice(rest.as_slice()), mib.as_slice()) {
                None => None,
                Some(m) => match parse_i64_of(trim_slice(m.as_slice())) {
                    Some(v) => Some(
                        GpuFacts { name: string_from(trim_slice(name.as_slice())), memory_mib: v },
                    ),
                    None => None,
                },
            }
        },
    }
}

fn parse_gpus(section: &[char]) -> (r: Vec<GpuFacts>)
    ensures
        seq_views(r@) == filter_map(lines(section@), |l: Seq<char>| gpu_line(l)),
{
    let ls = lines_of(section);
    let mut out: Vec<GpuFacts> = Vec::new();
    let mut i: usize = 0;
    let ghost f = |l: Seq<char>| gpu_line(l);
    assert(seq_views(out@) =~= filter_map(views(ls@).take(0), f));
    while i < ls.len()
        invariant
            i <= ls@.len(),
            f == (|l: Seq<char>| gpu_line(l)),
            seq_views(out@) == filter_map(views(ls@).take(i as int), f),
        decreases ls@.len() - i,
    {
        let ghost prev = out@;
        assert(views(ls@).take(i + 1).drop_last() =~= views(ls@).take(i as int));
        assert(views(ls@).take(i + 1).last() == ls@[i as int]@);
        match gpu_line_of(ls[i].as_slice()) {
            Some(g) => {
                out.push(g);
                assert(seq_views(out@) =~= seq_views(prev).push(g@));
            },
            None => {},
        }
        i = i + 1;
    }
    assert(views(ls@).take(i as int) =~= views(ls@));
    out
}

/// A topology cell naming an NVLink connection: `NV` followed by one or
/// more digits.
pub open spec fn nv_cell(w: Seq<char>) -> bool {
    match strip_prefix(w, "NV"@) {
        Some(rest) => rest.len() > 0 && all_digits(rest),
        None => false,
    }
}

/// Whether the topology matrix shows an NVLink; unknown when it is blank.
pub open spec fn nvlink(s: Seq<char>) -> Option<bool> {
    if trim(s).len() == 0 {
        None
    } else {
        Some(exists|i: int| 0 <= i < tokens(s).len() && nv_cell(#[trigger] tokens(s)[i]))
    }
}

fn nv_cell_of(w: &[char]) -> (r: bool)
    ensures
        r == nv_cell(w@),
{
    let nv = chars_of("NV");
    match strip_prefix_of(w, nv.as_slice()) {
        Some(rest) => {
            if rest.len() == 0 {
                return false;
            }
            let mut i: usize = 0;
            while i < rest.len()
                invariant
                    i <= rest@.len(),
                    rest@.len() > 0,
                    strip_prefix(w@, "NV"@) == Some(rest@),
                    forall|j: int| 0 <= j < i ==> is_digit(#[trigger] rest@[j]),
                decreases rest@.len() - i,
            {
                if !('0' <= rest[i] && rest[i] <= '9') {
                    assert(!is_digit(rest@[i as int]));
                    return false;
                }
                i = i + 1;
            }
            true
        },
        None => false,
    }
}

/// NVLink shows up in `nvidia-smi topo -m` as cell values `NV1`, `NV2`, …
fn parse_nvlink(section: &[char]) -> (r: Option<bool>)
    ensures
        r == nvlink(section@),
{
    let t = trim_slice(section);
    if t.len() == 0 {
        return None;
    }
    let words = tokens_of(section);
    let mut i: usize = 0;
    while i < words.len()
        invariant
            i <= words@.len(),
            views(words@) == tokens(section@),
            trim(section@).len() != 0,
            forall|j: int| 0 <= j < i ==> !nv_cell(#[trigger] tokens(section@)[j]),
        decreases words@.len() - i,
    {
        if nv_cell_of(words[i].as_slice()) {
            assert(views(words@)[i as int] == words@[i as int]@);
            assert(nv_cell(tokens(section@)[i as int]));
            return Some(true);
        }
        i = i + 1;
    }
    Some(false)
}

/// A PCI line without its leading address.
pub open spec fn pci_desc(l: Seq<char>) -> Seq<char> {
    match split_once(l, ' ') {
        Some(p) => p.1,
        None => l,
    }
}

/// Descriptions with their counts, in order of first appearance.
pub open spec fn count_descs(ls: Seq<Seq<char>>) -> Seq<(Seq<char>, nat)>
    decreases ls.len(),
{
    if ls.len() == 0 {
        seq![]
    } else {
        let c = count_descs(ls.drop_last());
        if trim(ls.last()).len() == 0 {
            c
        } else {
            let d = pci_desc(trim(ls.last()));
            match first_match(c, |e: (Seq<char>, nat)| e.0 == d) {
                Some(k) => c.update(k, (d, c[k].1 + 1)),
                None => c.push((d, 1nat)),
            }
        }
    }
}

/// A description, prefixed `Nx ` when it repeats.
pub open spec fn counted_text(e: (Seq<char>, nat)) -> Seq<char> {
    if e.1 > 1 {
        nat_digits(e.1) + "x "@ + e.0
    } else {
        e.0
    }
}

/// Repeated lines (SR-IOV virtual functions) collapsed with a count.
pub open spec fn dedup(s: Seq<char>) -> Seq<Seq<char>> {
    count_descs(lines(s)).map_values(|e: (Seq<char>, nat)| counted_text(e))
}

spec fn count_views(c: Seq<(Vec<char>, usize)>) -> Seq<(Seq<char>, nat)> {
    c.map_values(|e: (Vec<char>, usize)| (e.0@, e.1 as nat))
}

/// Deduplicates repeated lines (SR-IOV virtual functions), keeping counts.
fn dedup_counted(section: &[char]) -> (r: Vec<String>)
    ensures
        r.deep_view() == dedup(section@),
{
    let ls = lines_of(section);
    let mut counts: Vec<(Vec<char>, usize)> = Vec::new();
    let mut i: usize = 0;
    assert(count_views(counts@) =~= count_descs(views(ls@).take(0)));
    while i < ls.len()
        invariant
            i <= ls@.len(),
            count_views(counts@) == count_descs(views(ls@).take(i as int)),
            forall|k: int| 0 <= k < counts@.len() ==> (#[trigger] counts@[k]).1 <= i,
        decreases ls@.len() - i,
    {
        assert(views(ls@).take(i + 1).drop_last() =~= views(ls@).take(i as int));
        assert(views(ls@).take(i + 1).last() == ls@[i as int]@);
        let line = trim_slice(ls[i].as_slice());
        if line.len() > 0 {
            let desc: Vec<char> = match split_once_of(line, ' ') {
                Some((_, rest)) => rest,
                None => vstd::slice::slice_to_vec(line),
            };
            let ghost d = desc@;
            let ghost c = count_views(counts@);
            let ghost pred = |e: (Seq<char>, nat)| e.0 == d;
            let mut k: usize = 0;
            while k < counts.len()
                invariant
                    k <= counts@.len(),
                    c == count_views(counts@),
                    d == desc@,
                    pred == (|e: (Seq<char>, nat)| e.0 == d),
                    forall|m: int| 0 <= m < k ==> !pred(#[trigger] c[m]),
                ensures
                    k <= counts@.len(),
                    forall|m: int| 0 <= m < k ==> !pred(#[trigger] c[m]),
                    k < counts@.len() ==> pred(c[k as int]),
                decreases counts@.len() - k,
            {
                if eq_chars(counts[k].0.as_slice(), desc.as_slice()) {
                    break;
                }
                assert(!pred(c[k as int]));
                k = k + 1;
            }
            proof {
                lemma_first_match_at(c, pred, k as int);
            }
            if k < counts.len() {
                let n = counts[k].1;
                let ghost before = counts@;
                counts.set(k, (desc, n + 1));
                assert(count_views(counts@) =~= c.update(k as int, (d, c[k as int].1 + 1)));
            } else {
                counts.push((desc, 1));
                assert(count_views(counts@) =~= c.push((d, 1nat)));
            }
        }
        i = i + 1;
    }
    assert(views(ls@).take(i as int) =~= views(ls@));
    let mut out: Vec<String> = Vec::new();
    let mut j: usize = 0;
    while j < counts.len()
        invariant
            j <= counts@.len(),
            count_views(counts@) == count_descs(lines(section@)),
            out.deep_view() == count_descs(lines(section@)).take(j as int).map_values(
                |e: (Seq<char>, nat)| counted_text(e),
            ),
        decreases counts@.len() - j,
    {
        let (d, n) = (&counts[j].0, counts[j].1);
        let text = if n > 1 {
            let mut t = fmt_u64(n as u64);
            t.extend_from_slice(chars_of("x ").as_slice());
            t.extend_from_slice(d.as_slice());
            t
        } else {
            vstd::slice::slice_to_vec(d.as_slice())
        };
        assert(text@ == counted_text(count_views(counts@)[j as int]));
        let ghost prev = out.deep_view();
        let st = string_from(text.as_slice());
        out.push(st);
        assert(out.deep_view() =~= prev.push(st@));
        assert(count_descs(lines(section@)).take(j + 1) =~= count_descs(lines(section@)).take(
            j as int,
        ).push(count_views(counts@)[j as int]));
        assert(out.deep_view() =~= count_descs(lines(section@)).take(j + 1).map_values(
            |e: (Seq<char>, nat)| counted_text(e),
        ));
        j = j + 1;
    }
    assert(count_descs(lines(section@)).take(j as int) =~= count_descs(lines(section@)));
    out
}

/// The non-blank lines of a section, trimmed.
pub open spec fn nonempty(s: Seq<char>) -> Seq<Seq<char>> {
    filter_map(lines(s), |l: Seq<char>| nonblank(l))
}

fn nonempty_lines(section: &[char]) -> (r: Vec<String>)
    ensures
        r.deep_view() == nonempty(section@),
{
    let ls = lines_of(section);
    let mut out: Vec<String> = Vec::new();
    let mut i: usize = 0;
    let ghost f = |l: Seq<char>| nonblank(l);
    assert(out.deep_view() =~= filter_map(views(ls@).take(0), f));
    while i < ls.len()
        invariant
            i <= ls@.len(),
            f == (|l: Seq<char>| nonblank(l)),
            out.deep_view() == filter_map(views(ls@).take(i as int), f),
        decreases ls@.len() - i,
    {
        let ghost prev = out.deep_view();
        assert(views(ls@).take(i + 1).drop_last() =~= views(ls@).take(i as int));
        assert(views(ls@).take(i + 1).last() == ls@[i as int]@);
        let t = trim_slice(ls[i].as_slice());
        if t.len() > 0 {
            let st = string_from(t);
            out.push(st);
            assert(out.deep_view() =~= prev.push(t@));
        }
        i = i + 1;
    }
    assert(views(ls@).take(i as int) =~= views(ls@));
    out
}

/// An `ip -br addr` row: interface, state, then addresses.
pub open spec fn addr_line(line: Seq<char>) -> Option<AddressModel> {
    let t = tokens(line);
    if t.len() >= 2 {
        Some(AddressModel { interface: t[0], addresses: t.skip(2) })
    } else {
        None
    }
}

fn strings_of(v: &Vec<Vec<char>>, from: usize) -> (r: Vec<String>)
    requires
        from <= v@.len(),
    ensures
        r.deep_view() == views(v@).skip(from as int),
{
    let mut out: Vec<String> = Vec::new();
    let mut i = from;
    while i < v.len()
        invariant
            from <= i <= v@.len(),
            out.deep_view() == views(v@).subrange(from as int, i as int),
        decreases v@.len() - i,
    {
        let ghost prev = out.deep_view();
        let st = string_from(v[i].as_slice());
        out.push(st);
        assert(out.deep_view() =~= prev.push(st@));
        assert(views(v@)[i as int] == v@[i as int]@);
        assert(out.deep_view() =~= views(v@).subrange(from as int, i + 1));
        i = i + 1;
    }
    assert(views(v@).subrange(from as int, i as int) =~= views(v@).skip(from as int));
    out
}

fn addr_line_of(line: &[char]) -> (r: Option<AddressFacts>)
    ensures
        r is Some <==> addr_line(line@) is Some,
        r is Some ==> addr_line(line@) == Some((r->0)@),
{
    let t = tokens_of(line);
    if t.len() >= 2 {
        let a = AddressFacts { interface: string_from(t[0].as_slice()), addresses: strings_of(&t, 2) };
        assert(views(t@)[0] == t@[0]@);
        Some(a)
    } else {
        None
    }
}

fn parse_addresses(section: &[char]) -> (r: Vec<AddressFacts>)
    ensures
        seq_views(r@) == filter_map(lines(section@), |l: Seq<char>| addr_line(l)),
{
    let ls = lines_of(section);
    let mut out: Vec<AddressFacts> = Vec::new();
    let mut i: usize = 0;
    let ghost f = |l: Seq<char>| addr_line(l);
    assert(seq_views(out@) =~= filter_map(views(ls@).take(0), f));
    while i < ls.len()
        invariant
            i <= ls@.len(),
            f == (|l: Seq<char>| addr_line(l)),
            seq_views(out@) == filter_map(views(ls@).take(i as int), f),
        decreases ls@.len() - i,
    {
        let ghost prev = out@;
        assert(views(ls@).take(i + 1).drop_last() =~= views(ls@).take(i as int));
        assert(views(ls@).take(i + 1).last() == ls@[i as int]@);
        match addr_line_of(ls[i].as_slice()) {
            Some(a) => {
                out.push(a);
                assert(seq_views(out@) =~= seq_views(prev).push(a@));
            },
            None => {},
        }
        i = i + 1;
    }
    assert(views(ls@).take(i as int) =~= views(ls@));
    out
}

/// A `qm list` row: VMID, name, status, …
pub open spec fn vm_line(line: Seq<char>) -> Option<GuestModel> {
    let t = tokens(line);
    if t.len() >= 3 {
        match parse_i64(t[0]) {
            Some(v) => Some(GuestModel { kind: GuestKind::Vm, vmid: v, name: t[1], status: t[2] }),
            None => None,
        }
    } else {
        None
    }
}

/// A `pct list` row: VMID, status, [lock], name — the name is the last
/// token.
pub open spec fn ct_line(line: Seq<char>) -> Option<GuestModel> {
    let t = tokens(line);
    if t.len() >= 3 {
        match parse_i64(t[0]) {
            Some(v) => Some(
                GuestModel { kind: GuestKind::Ct, vmid: v, name: t.last(), status: t[1] },
            ),
            None => None,
        }
    } else {
        None
    }
}

/// A `pct list` row when `ct`, else a `qm list` row.
pub open spec fn guest_line(line: Seq<char>, ct: bool) -> Option<GuestModel> {
    if ct {
        ct_line(line)
    } else {
        vm_line(line)
    }
}

/// The guests of `qm list` rows followed by those of `pct list` rows.
pub open spec fn guests(vms: Seq<char>, cts: Seq<char>) -> Seq<GuestModel> {
    filter_map(lines(vms), |l: Seq<char>| guest_line(l, false)) + filter_map(
        lines(cts),
        |l: Seq<char>| guest_line(l, true),
    )
}

fn guest_line_of(line: &[char], ct: bool) -> (r: Option<GuestFacts>)
    ensures
        r is Some <==> guest_line(line@, ct) is Some,
        r is Some ==> guest_line(line@, ct) == Some((r->0)@),
{
    let t = tokens_of(line);
    if t.len() >= 3 {
        assert(views(t@)[0] == t@[0]@);
        assert(views(t@)[1] == t@[1]@);
        assert(views(t@)[2] == t@[2]@);
        assert(views(t@).last() == t@[t@.len() - 1]@);
        match parse_i64_of(t[0].as_slice()) {
            Some(v) => {
                if ct {
                    Some(
                        GuestFacts {
                            kind: GuestKind::Ct,
                            vmid: v,
                            name: string_from(t[t.len() - 1].as_slice()),
                            status: string_from(t[1].as_slice()),
                        },
                    )
                } else {
                    Some(
                        GuestFacts {
                            kind: GuestKind::Vm,
                            vmid: v,
                            name: string_from(t[1].as_slice()),
                            status: string_from(t[2].as_slice()),
                        },
                    )
                }
            },
            None => None,
        }
    } else {
        None
    }
}

fn guest_rows(section: &[char], ct: bool, out: &mut Vec<GuestFacts>)
    ensures
        seq_views(final(out)@) == seq_views(old(out)@) + filter_map(
            lines(section@),
            |l: Seq<char>| guest_line(l, ct),
        ),
{
    let ls = lines_of(section);
    let mut i: usize = 0;
    let ghost f = |l: Seq<char>| guest_line(l, ct);
    let ghost base = seq_views(out@);
    assert(seq_views(out@) =~= base + filter_map(views(ls@).take(0), f));
    while i < ls.len()
        invariant
            i <= ls@.len(),
            f == (|l: Seq<char>| guest_line(l, ct)),
            seq_views(out@) == base + filter_map(views(ls@).take(i as int), f),
        decreases ls@.len() - i,
    {
        let ghost prev = out@;
        assert(views(ls@).take(i + 1).drop_last() =~= views(ls@).take(i as int));
        assert(views(ls@).take(i + 1).last() == ls@[i as int]@);
        match guest_line_of(ls[i].as_slice(), ct) {
            Some(g) => {
                out.push(g);
                assert(seq_views(out@) =~= seq_views(prev).push(g@));
            },
            None => {},
        }
        i = i + 1;
    }
    assert(views(ls@).take(i as int) =~= views(ls@));
}

fn parse_guests(vms: &[char], cts: &[char]) -> (r: Vec<GuestFacts>)
    ensures
        seq_views(r@) == guests(vms@, cts@),
{
    let mut out: Vec<GuestFacts> = Vec::new();
    assert(seq_views(out@) =~= Seq::<GuestModel>::empty());
    guest_rows(vms, false, &mut out);
    guest_rows(cts, true, &mut out);
    assert(seq_views(out@) =~= guests(vms@, cts@));
    out
}

/// An `/ip address print` row `<index> <cidr> … <interface>`, as
/// `(interface, cidr)`; header and comment lines yield nothing.
pub open spec fn ros_row(line: Seq<char>) -> Option<(Seq<char>, Seq<char>)> {
    let t = tokens(line);
    if t.len() >= 3 && all_digits(t[0]) && contains(t[1], seq!['/']) {
        Some((t.last(), t[1]))
    } else {
        None
    }
}

/// Adds a row's address to its interface's group, opening the group on
/// the interface's first row.
pub open spec fn group_step(g: Seq<AddressModel>, row: (Seq<char>, Seq<char>)) -> Seq<AddressModel> {
    match first_match(g, |a: AddressModel| a.interface == row.0) {
        Some(k) => g.update(
            k,
            AddressModel { interface: g[k].interface, addresses: g[k].addresses.push(row.1) },
        ),
        None => g.push(AddressModel { interface: row.0, addresses: seq![row.1] }),
    }
}

pub open spec fn group_rows(ls: Seq<Seq<char>>) -> Seq<AddressModel>
    decreases ls.len(),
{
    if ls.len() == 0 {
        seq![]
    } else {
        let g = group_rows(ls.drop_last());
        match ros_row(ls.last()) {
            Some(r) => group_step(g, r),
            None => g,
        }
    }
}

/// `/ip address print` table rows: `<index> <cidr> <network> <interface>`,
/// with `Columns:`/`Flags:` headers and `;;;` comment lines skipped.
/// Addresses group per interface.
fn parse_routeros_addresses(section: &[char]) -> (r: Vec<AddressFacts>)
    ensures
        seq_views(r@) == group_rows(lines(section@)),
{
    let ls = lines_of(section);
    let mut grouped: Vec<AddressFacts> = Vec::new();
    let mut i: usize = 0;
    let slash = chars_of("/");
    proof {
        reveal_strlit("/");
    }
    assert(slash@ =~= seq!['/']);
    assert(seq_views(grouped@) =~= group_rows(views(ls@).take(0)));
    while i < ls.len()
        invariant
            i <= ls@.len(),
            slash@ == seq!['/'],
            seq_views(grouped@) == group_rows(views(ls@).take(i as int)),
        decreases ls@.len() - i,
    {
        assert(views(ls@).take(i + 1).drop_last() =~= views(ls@).take(i as int));
        assert(views(ls@).take(i + 1).last() == ls@[i as int]@);
        let t = tokens_of(ls[i].as_slice());
        if t.len() >= 3 {
            let n = t.len();
            assert(views(t@)[0] == t@[0]@);
            assert(views(t@)[1] == t@[1]@);
            assert(views(t@).last() == t@[n - 1]@);
            let index = t[0].as_slice();
            let cidr = t[1].as_slice();
            let iface = t[n - 1].as_slice();
            if all_digits_of(index, 0, index.len()) && contains_of(cidr, slash.as_slice()) {
                assert(index@.subrange(0, index@.len() as int) =~= index@);
                let ghost g = seq_views(grouped@);
                let ghost pred = |a: AddressModel| a.interface == iface@;
                let mut k: usize = 0;
                while k < grouped.len()
                    invariant
                        k <= grouped@.len(),
                        g == seq_views(grouped@),
                        pred == (|a: AddressModel| a.interface == iface@),
                        forall|m: int| 0 <= m < k ==> !pred(#[trigger] g[m]),
                    ensures
                        k <= grouped@.len(),
                        forall|m: int| 0 <= m < k ==> !pred(#[trigger] g[m]),
                        k < grouped@.len() ==> pred(g[k as int]),
                    decreases grouped@.len() - k,
                {
                    if eq_chars(chars_of(grouped[k].interface.as_str()).as_slice(), iface) {
                        break;
                    }
                    k = k + 1;
                }
                proof {
                    lemma_first_match_at(g, pred, k as int);
                }
                if k < grouped.len() {
                    let mut entry = grouped.remove(k);
                    let ghost e0 = entry@;
                    entry.addresses.push(string_from(cidr));
                    assert(entry@.addresses =~= e0.addresses.push(cidr@));
                    grouped.insert(k, entry);
                    assert(seq_views(grouped@) =~= g.update(
                        k as int,
                        AddressModel { interface: g[k as int].interface, addresses: g[k as int].addresses.push(cidr@) },
                    ));
                } else {
                    let mut addrs: Vec<String> = Vec::new();
                    addrs.push(string_from(cidr));
                    let entry = AddressFacts { interface: string_from(iface), addresses: addrs };
                    assert(entry@.addresses =~= seq![cidr@]);
                    grouped.push(entry);
                    assert(seq_views(grouped@) =~= g.push(entry@));
                }
            }
        }
        i = i + 1;
    }
    assert(views(ls@).take(i as int) =~= views(ls@));
    grouped
}

/// A decimal literal `[+-]? digits [. digits]` (at least one digit) split
/// into its sign, integer digits and fraction digits.
pub open spec fn decimal_parts(s: Seq<char>) -> Option<(bool, Seq<char>, Seq<char>)> {
    let signed = s.len() > 0 && (s[0] == '+' || s[0] == '-');
    let neg = s.len() > 0 && s[0] == '-';
    let body = if signed {
        s.drop_first()
    } else {
        s
    };
    match find(body, '.') {
        Some(i) => {
            let ip = body.take(i);
            let fp = body.skip(i + 1);
            if all_digits(ip) && all_digits(fp) && ip.len() + fp.len() > 0 {
                Some((neg, ip, fp))
            } else {
                None
            }
        },
        None => if body.len() > 0 && all_digits(body) {
            Some((neg, body, seq![]))
        } else {
            None
        },
    }
}

/// `(ip.fp) / div` rounded half away from zero, negated when `neg`,
/// saturated to the `i64` range — what `(x / div).round() as i64` gives.
pub open spec fn round_div(neg: bool, ip: Seq<char>, fp: Seq<char>, div: int) -> i64 {
    let whole = digits_value(ip);
    let d1 = if fp.len() > 0 {
        digit_value(fp[0])
    } else {
        0
    };
    let mag = whole / div + (if (whole % div) * 10 + d1 >= 5 * div {
        1int
    } else {
        0int
    });
    let v = if neg {
        -mag
    } else {
        mag
    };
    if v > i64::MAX {
        i64::MAX
    } else if v < i64::MIN {
        i64::MIN
    } else {
        v as i64
    }
}

/// The sign, integer digits and fraction digits of a decimal literal.
pub(crate) fn decimal_parts_of(s: &[char]) -> (r: Option<(bool, Vec<char>, Vec<char>)>)
    ensures
        match r {
            Some(p) => decimal_parts(s@) == Some((p.0, p.1@, p.2@)),
            None => decimal_parts(s@) is None,
        },
{
    let n = s.len();
    let signed = n > 0 && (s[0] == '+' || s[0] == '-');
    let neg = n > 0 && s[0] == '-';
    let start: usize = if signed {
        1
    } else {
        0
    };
    let body = &s[start..n];
    assert(body@ =~= (if signed {
        s@.drop_first()
    } else {
        s@
    }));
    assert(body@.skip(0) =~= body@);
    let (ip_end, fp_start, fp_end): (usize, usize, usize) = match find_from(body, 0, '.') {
        Some(i) => {
            proof {
                lemma_find(body@, '.');
            }
            (i, i + 1, body.len())
        },
        None => (body.len(), body.len(), body.len()),
    };
    let has_dot = ip_end < body.len();
    let ip_ok = all_digits_of(body, 0, ip_end);
    let fp_ok = all_digits_of(body, fp_start, fp_end);
    assert(body@.subrange(0, ip_end as int) =~= body@.take(ip_end as int));
    assert(body@.subrange(fp_start as int, fp_end as int) =~= (if has_dot {
        body@.skip(fp_start as int)
    } else {
        Seq::<char>::empty()
    }));
    if !has_dot {
        assert(body@.take(ip_end as int) =~= body@);
    }
    if !ip_ok || !fp_ok || ip_end + (fp_end - fp_start) == 0 {
        return None;
    }
    let ip = vstd::slice::slice_to_vec(&body[0..ip_end]);
    let fp = vstd::slice::slice_to_vec(&body[fp_start..fp_end]);
    Some((neg, ip, fp))
}

/// `4096.0MiB` → 4 GB; `2.0GiB` → 2 GB; any float literal `str::parse::<f64>` reads
/// (`1e3MiB`, `infGiB`) is taken the same way, on its exact decimal value.
pub open spec fn memory_gb(value: Seq<char>) -> Option<i64> {
    let v = trim(value);
    match strip_suffix(v, "MiB"@) {
        Some(m) => crate::facts::float::float_round(trim(m), 0, 1024),
        None => match strip_suffix(v, "GiB"@) {
            Some(g) => crate::facts::float::float_round(trim(g), 0, 1),
            None => None,
        },
    }
}

/// `(ip.fp) / div` rounded half away from zero, negated when `neg`,
/// saturated to the `i64` range.
pub(crate) fn round_div_of(neg: bool, ip: &[char], fp: &[char], div: u32) -> (r: i64)
    requires
        1 <= div <= 1024,
        all_digits(ip@),
        all_digits(fp@),
    ensures
        r == round_div(neg, ip@, fp@, div as int),
{
    assert(ip@.subrange(0, ip@.len() as int) =~= ip@);
    let limit: u128 = 0x1_0000_0000_0000_0000_0000;
    let whole = digits_value_sat(ip, 0, ip.len(), limit);
    let d1: u128 = if fp.len() > 0 {
        (fp[0] as u32 - '0' as u32) as u128
    } else {
        0
    };
    assert(fp@.len() > 0 ==> is_digit(fp@[0]));
    let d = div as u128;
    let q = whole / d;
    let rem = whole % d;
    let bump: u128 = if rem * 10 + d1 >= 5 * d {
        1
    } else {
        0
    };
    let mag = q + bump;
    let ghost smag = digits_value(ip@) / (div as int) + (if (digits_value(ip@) % (div as int)) * 10
        + digit_value(if fp@.len() > 0 { fp@[0] } else { '0' }) >= 5 * div {
        1int
    } else {
        0int
    });
    proof {
        lemma_digits_nonneg(ip@);
        if whole <= limit {
            assert(mag == smag);
        } else {
            assert(digits_value(ip@) / (div as int) >= (limit as int + 1) / 1024) by (nonlinear_arith)
                requires
                    digits_value(ip@) > limit,
                    1 <= div <= 1024,
                    limit == 0x1_0000_0000_0000_0000_0000,
            ;
            assert(mag as int >= (limit as int + 1) / 1024) by (nonlinear_arith)
                requires
                    whole == limit + 1,
                    q == whole / (div as u128),
                    mag >= q,
                    1 <= div <= 1024,
                    limit == 0x1_0000_0000_0000_0000_0000,
            ;
        }
    }
    if neg {
        if mag >= 0x8000_0000_0000_0000 {
            i64::MIN
        } else {
            -(mag as i64)
        }
    } else {
        if mag > 0x7fff_ffff_ffff_ffff {
            i64::MAX
        } else {
            mag as i64
        }
    }
}

fn parse_memory_to_gb(value: &[char]) -> (r: Option<i64>)
    ensures
        r == memory_gb(value@),
{
    let v = trim_slice(value);
    match strip_suffix_of(v, chars_of("MiB").as_slice()) {
        Some(m) => crate::facts::float::float_round_of(trim_slice(m.as_slice()), 0, 1024),
        None => match strip_suffix_of(v, chars_of("GiB").as_slice()) {
            Some(g) => crate::facts::float::float_round_of(trim_slice(g.as_slice()), 0, 1),
            None => None,
        },
    }
}

/// What the Linux battery output shows of a host.
pub open spec fn battery_facts(raw: Seq<char>) -> HostFactsModel {
    let sys = kv_pairs(section(raw, "SYS"@), '=', true);
    let board = kv_pairs(section(raw, "BOARD"@), '=', true);
    let cpu = kv_pairs(section(raw, "CPU"@), ':', false);
    let mem = membanks(section(raw, "MEMBANKS"@));
    HostFactsModel {
        hostname: lookup(sys, "hostname"@),
        os: lookup(sys, "os"@),
        kernel: lookup(sys, "kernel"@),
        pve_version: lookup(sys, "pve"@),
        motherboard: motherboard_of(lookup(board, "board_vendor"@), lookup(board, "board_product"@)),
        cpu_model: lookup(cpu, "Model name"@),
        sockets: opt_i64(lookup(cpu, "Socket(s)"@)),
        cores_per_socket: opt_i64(lookup(cpu, "Core(s) per socket"@)),
        threads_per_core: opt_i64(lookup(cpu, "Thread(s) per core"@)),
        numa_nodes: opt_i64(lookup(cpu, "NUMA node(s)"@)),
        ram_installed_gb: mem.0,
        dimms_populated: mem.1,
        dimm_slots_empty: mem.2,
        gpus: filter_map(lines(section(raw, "GPU"@)), |l: Seq<char>| gpu_line(l)),
        nvlink: nvlink(section(raw, "GPUTOPO"@)),
        pci_devices: dedup(section(raw, "PCI"@)),
        ib_ports: nonempty(section(raw, "IB"@)),
        addresses: filter_map(lines(section(raw, "ADDR"@)), |l: Seq<char>| addr_line(l)),
        disks: nonempty(section(raw, "DISK"@)),
        guests: guests(section(raw, "VMS"@), section(raw, "CTS"@)),
    }
}

/// Parses the raw battery output.
pub fn parse_battery(raw: &str) -> (r: HostFacts)
    ensures
        r@ == battery_facts(raw@),
{
    let text = chars_of(raw);
    let secs = split_sections(text.as_slice());
    let sys = parse_key_values(section_of(&secs, "SYS").as_slice());
    let board = parse_key_values(section_of(&secs, "BOARD").as_slice());
    let cpu = parse_lscpu(section_of(&secs, "CPU").as_slice());
    let (ram_gb, dimms, empty_slots) = parse_membanks(section_of(&secs, "MEMBANKS").as_slice());
    let vms = section_of(&secs, "VMS");
    let cts = section_of(&secs, "CTS");
    HostFacts {
        hostname: opt_string(lookup_of(&sys, "hostname")),
        os: opt_string(lookup_of(&sys, "os")),
        kernel: opt_string(lookup_of(&sys, "kernel")),
        pve_version: opt_string(lookup_of(&sys, "pve")),
        motherboard: opt_string(parse_motherboard(&board)),
        cpu_model: opt_string(cpu.model),
        sockets: cpu.sockets,
        cores_per_socket: cpu.cores_per_socket,
        threads_per_core: cpu.threads_per_core,
        numa_nodes: cpu.numa_nodes,
        ram_installed_gb: ram_gb,
        dimms_populated: dimms,
        dimm_slots_empty: empty_slots,
        gpus: parse_gpus(section_of(&secs, "GPU").as_slice()),
        nvlink: parse_nvlink(section_of(&secs, "GPUTOPO").as_slice()),
        pci_devices: dedup_counted(section_of(&secs, "PCI").as_slice()),
        ib_ports: nonempty_lines(section_of(&secs, "IB").as_slice()),
        addresses: parse_addresses(section_of(&secs, "ADDR").as_slice()),
        disks: nonempty_lines(section_of(&secs, "DISK").as_slice()),
        guests: parse_guests(vms.as_slice(), cts.as_slice()),
    }
}

/// What the RouterOS battery output shows of a device. The serial number
/// is deliberately not recorded.
pub open spec fn routeros_facts(raw: Seq<char>) -> HostFactsModel {
    let resource = kv_pairs(section(raw, "RESOURCE"@), ':', true);
    let board = kv_pairs(section(raw, "ROUTERBOARD"@), ':', true);
    let identity = kv_pairs(section(raw, "IDENTITY"@), ':', true);
    HostFactsModel {
        hostname: lookup(identity, "name"@),
        os: match lookup(resource, "version"@) {
            Some(v) => Some("RouterOS "@ + v),
            None => None,
        },
        motherboard: match lookup(board, "model"@) {
            Some(m) => Some(m),
            None => lookup(resource, "board-name"@),
        },
        cpu_model: lookup(resource, "cpu"@),
        ram_installed_gb: match lookup(resource, "total-memory"@) {
            Some(v) => memory_gb(v),
            None => None,
        },
        addresses: group_rows(lines(section(raw, "ADDRESS"@))),
        ..empty_facts()
    }
}

/// Parses the RouterOS battery (`/system resource print` and friends).
/// The serial number is deliberately not recorded.
pub fn parse_routeros_battery(raw: &str) -> (r: HostFacts)
    ensures
        r@ == routeros_facts(raw@),
{
    let text = chars_of(raw);
    let secs = split_sections(text.as_slice());
    let resource = parse_colon_pairs(section_of(&secs, "RESOURCE").as_slice());
    let board = parse_colon_pairs(section_of(&secs, "ROUTERBOARD").as_slice());
    let identity = parse_colon_pairs(section_of(&secs, "IDENTITY").as_slice());
    let os = match lookup_of(&resource, "version") {
        Some(v) => {
            let mut t = chars_of("RouterOS ");
            t.extend_from_slice(v.as_slice());
            Some(t)
        },
        None => None,
    };
    let motherboard = match lookup_of(&board, "model") {
        Some(m) => Some(m),
        None => lookup_of(&resource, "board-name"),
    };
    let ram = match lookup_of(&resource, "total-memory") {
        Some(v) => parse_memory_to_gb(v.as_slice()),
        None => None,
    };
    let mut facts = HostFacts::default();
    facts.hostname = opt_string(lookup_of(&identity, "name"));
    facts.os = opt_string(os);
    facts.motherboard = opt_string(motherboard);
    facts.cpu_model = opt_string(lookup_of(&resource, "cpu"));
    facts.ram_installed_gb = ram;
    facts.addresses = parse_routeros_addresses(section_of(&secs, "ADDRESS").as_slice());
    assert(facts@ =~= routeros_facts(raw@));
    facts
}


/// DIMM sizes by unit: a GB counts as itself, an MB as its 1024th part
/// rounded toward zero, a TB as 1024 GB; the same size written in MB or in
/// GB counts the same.
pub proof fn law_dimm_units(amount: i64)
    ensures
        unit_gb(amount, "GB"@) == amount,
        amount >= 0 ==> unit_gb(amount, "MB"@) * 1024 <= amount < (unit_gb(amount, "MB"@) + 1) * 1024,
        amount < 0 ==> (unit_gb(amount, "MB"@) - 1) * 1024 < amount <= unit_gb(amount, "MB"@) * 1024,
        0 <= amount <= i64::MAX / 1024 ==> unit_gb((amount * 1024) as i64, "MB"@) == unit_gb(amount, "GB"@),
        i64::MIN / 1024 <= amount <= i64::MAX / 1024 ==> unit_gb(amount, "TB"@) == amount * 1024,
{
    reveal_strlit("GB");
    reveal_strlit("MB");
    reveal_strlit("TB");
    assert("MB"@ != "GB"@) by {
        assert("MB"@[0] != "GB"@[0]);
    }
    assert("TB"@ != "GB"@) by {
        assert("TB"@[0] != "GB"@[0]);
    }
    assert("TB"@ != "MB"@) by {
        assert("TB"@[0] != "MB"@[0]);
    }
    if i64::MIN / 1024 <= amount <= i64::MAX / 1024 {
        assert(i64::MIN <= amount * 1024 <= i64::MAX) by (nonlinear_arith)
            requires
                i64::MIN / 1024 <= amount <= i64::MAX / 1024,
        ;
        assert(amount.wrapping_mul(1024) == amount * 1024);
    }
}


/// A `Size: <n> MB` line counts as its megabytes divided by 1024, rounded
/// toward zero, in GB: appending one to a section adds that many GB and
/// one populated DIMM, and leaves the empty slots as they were.
pub proof fn law_mb_dimm_line(s: Seq<char>, d: Seq<char>, n: i64)
    requires
        s.len() == 0 || s.last() == '\n',
        d.len() > 0,
        all_digits(d),
        parse_i64(d) == Some(n),
    ensures
        n >= 0,
        ({
            let t = mem_fold(lines(s));
            membanks(s + "Size: "@ + d + " MB\n"@) == (
                Some(t.0.wrapping_add((n / 1024) as i64)),
                Some(t.1.wrapping_add(1)),
                Some(t.2),
            )
        }),
{
    reveal_strlit("Size: ");
    reveal_strlit(" MB\n");
    reveal_strlit("Size:");
    reveal_strlit("MB");
    reveal_strlit("None");
    reveal_strlit("No Module Installed");
    assert(is_digit(d[0]));
    lemma_digits_nonneg(d);
    let l = "Size: "@ + d + " MB"@;
    reveal_strlit(" MB");
    assert(s + "Size: "@ + d + " MB\n"@ =~= s + (l + seq!['\n']));
    assert(!l.contains('\n')) by {
        if l.contains('\n') {
            let i = choose|i: int| 0 <= i < l.len() && l[i] == '\n';
            if 6 <= i < 6 + d.len() {
                assert(l[i] == d[i - 6]);
                assert(is_digit(d[i - 6]));
            }
        }
    }
    crate::facts::serial::lemma_lines_concat(s, l + seq!['\n']);
    crate::facts::serial::lemma_lines_one(l);
    let ls = lines(s);
    assert(lines(s + (l + seq!['\n'])) =~= ls.push(crate::text::strip_cr(l)));
    assert(l.last() == 'B');
    assert(crate::text::strip_cr(l) == l);
    assert(ls.push(l).drop_last() =~= ls);
    // the line trimmed is itself
    assert(!crate::text::is_ws(l[0]));
    assert(crate::text::trim_start(l) == l);
    assert(!crate::text::is_ws(l.last()));
    assert(crate::text::trim_end(l) == l);
    assert(trim(l) == l);
    let raw = " "@ + d + " MB"@;
    reveal_strlit(" ");
    assert(l.take(5) =~= "Size:"@);
    assert(l.skip(5) =~= raw);
    assert(strip_prefix(l, "Size:"@) == Some(raw));
    let size = d + " MB"@;
    assert(raw.drop_first() =~= size);
    assert(crate::text::is_ws(raw[0]));
    assert(!crate::text::is_ws(size[0]));
    assert(crate::text::trim_start(size) == size);
    assert(crate::text::trim_start(raw) == size);
    assert(!crate::text::is_ws(size.last()));
    assert(crate::text::trim_end(size) == size);
    assert(trim(raw) == size);
    assert(size != "No Module Installed"@) by {
        assert(size[0] != "No Module Installed"@[0]);
    }
    assert(size != "None"@) by {
        assert(size[0] != "None"@[0]);
    }
    assert forall|j: int| 0 <= j < d.len() implies size[j] != ' ' by {
        assert(size[j] == d[j]);
        assert(is_digit(d[j]));
    }
    assert(size[d.len() as int] == ' ');
    crate::text::lemma_find_at(size, ' ', d.len() as int);
    assert(size.take(d.len() as int) =~= d);
    assert(size.skip(d.len() as int + 1) =~= "MB"@);
    assert(split_once(size, ' ') == Some((d, "MB"@)));
    assert(d[0] != '+' && d[0] != '-');
    assert(crate::text::parse_int(d, true) == Some(digits_value(d)));
    assert(n >= 0);
    reveal_strlit("GB");
    assert("MB"@ != "GB"@) by {
        assert("MB"@[0] != "GB"@[0]);
    }
    assert(unit_gb(n, "MB"@) == (n / 1024) as i64);
}

} // verus!
