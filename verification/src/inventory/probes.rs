//! Schema of `inventory/probes.toml`: status probe definitions, each
//! entry's `kind` selecting its schema; unknown keys, missing keys, wrong
//! types and duplicate ids are rejected.

use vstd::prelude::*;
use crate::text::{chars_of, debug_quoted, debug_text, eq_chars, fmt_u128, int_text, put, put_chars, string_from};

verus! {

/// One status probe definition.
#[derive(Debug, Clone)]
pub struct Probe {
    /// Stable identifier, unique within the file; keys snapshot entries.
    pub id: String,
    /// Human-readable description carried into snapshots and reports.
    pub desc: String,
    /// Whether the target is reachable from the LAN the probe runs on.
    /// A failing probe with `lan_reachable = false` is unverifiable, not down.
    pub lan_reachable: bool,
    /// The probe mechanism and its target.
    pub kind: ProbeKind,
}

/// The probe mechanism, selected by each entry's `kind` key.
#[derive(Debug, Clone)]
pub enum ProbeKind {
    /// ICMP echo via the system `ping`.
    Icmp {
        /// Host to ping (IP address or name).
        target: String,
    },
    /// HTTP GET; up when the response status is listed in `expect`.
    /// Redirects are not followed — a 301/302 from the service itself proves
    /// it is up, while following it could cross into a different listener.
    Http {
        /// URL to fetch.
        url: String,
        /// Acceptable response status codes.
        expect: Vec<u16>,
        /// Skip TLS certificate verification (self-signed endpoints).
        insecure: bool,
    },
}

/// A TOML value as plain values. Floats, datetimes and other shapes no
/// probe field takes are kept as their TOML text.
#[derive(Debug)]
pub enum TomlValue {
    Str(String),
    Int(i64),
    Bool(bool),
    Array(Vec<TomlValue>),
    Table(Vec<TomlEntry>),
    Other(String),
}

/// A table entry: key, value, and the value's TOML text.
#[derive(Debug)]
pub struct TomlEntry {
    pub key: String,
    pub value: TomlValue,
    pub text: String,
}

/// The abstract content of a [`TomlValue`].
pub enum TVal {
    Str(Seq<char>),
    Int(i64),
    Bool(bool),
    Array(Seq<TVal>),
    Table(Seq<(Seq<char>, TVal, Seq<char>)>),
    Other(Seq<char>),
}

pub open spec fn tv(v: TomlValue) -> TVal
    decreases v,
{
    match v {
        TomlValue::Str(s) => TVal::Str(s@),
        TomlValue::Int(i) => TVal::Int(i),
        TomlValue::Bool(b) => TVal::Bool(b),
        TomlValue::Array(a) => TVal::Array(tv_list(a@)),
        TomlValue::Table(t) => TVal::Table(tv_entries(t@)),
        TomlValue::Other(s) => TVal::Other(s@),
    }
}

pub open spec fn tv_list(s: Seq<TomlValue>) -> Seq<TVal>
    decreases s,
{
    if s.len() == 0 {
        seq![]
    } else {
        tv_list(s.drop_last()).push(tv(s.last()))
    }
}

pub open spec fn tv_entries(s: Seq<TomlEntry>) -> Seq<(Seq<char>, TVal, Seq<char>)>
    decreases s,
{
    if s.len() == 0 {
        seq![]
    } else {
        tv_entries(s.drop_last()).push((s.last().key@, tv(s.last().value), s.last().text@))
    }
}

pub proof fn lemma_tv_list(s: Seq<TomlValue>)
    ensures
        tv_list(s).len() == s.len(),
        forall|i: int| 0 <= i < s.len() ==> #[trigger] tv_list(s)[i] == tv(s[i]),
    decreases s.len(),
{
    if s.len() > 0 {
        lemma_tv_list(s.drop_last());
    }
}

pub proof fn lemma_tv_entries(s: Seq<TomlEntry>)
    ensures
        tv_entries(s).len() == s.len(),
        forall|i: int| 0 <= i < s.len() ==> #[trigger] tv_entries(s)[i] == (s[i].key@, tv(s[i].value), s[i].text@),
    decreases s.len(),
{
    if s.len() > 0 {
        lemma_tv_entries(s.drop_last());
    }
}

/// Why a probes file was rejected.
#[derive(Debug, Clone, PartialEq, Eq)]
pub enum ProbeError {
    /// The text is not TOML, or not a `probe` array of tables and nothing
    /// else.
    Parse,
    /// A probe entry has no `kind` key.
    MissingProbeKind {
        /// Position and id of the offending entry.
        entry: String,
    },
    /// A probe entry names a `kind` this loader does not implement.
    UnknownProbeKind {
        /// Position and id of the offending entry.
        entry: String,
        /// The unrecognized kind value.
        kind: String,
    },
    /// A probe entry does not match its kind's schema — a missing,
    /// misspelled, or mistyped key. Unknown keys are rejected rather than
    /// ignored: a typo in an optional key (`exepct`) would otherwise
    /// silently fall back to the default and misreport the target.
    InvalidProbe {
        /// Position and id of the offending entry.
        entry: String,
    },
    /// Two probe entries share an id.
    DuplicateProbeId {
        /// The id that appears more than once.
        id: String,
    },
}

/// The abstract content of a [`ProbeError`].
pub enum ProbeFault {
    Parse,
    MissingKind(Seq<char>),
    UnknownKind(Seq<char>, Seq<char>),
    Invalid(Seq<char>),
    Duplicate(Seq<char>),
}

pub open spec fn fault_of(e: ProbeError) -> ProbeFault {
    match e {
        ProbeError::Parse => ProbeFault::Parse,
        ProbeError::MissingProbeKind { entry } => ProbeFault::MissingKind(entry@),
        ProbeError::UnknownProbeKind { entry, kind } => ProbeFault::UnknownKind(entry@, kind@),
        ProbeError::InvalidProbe { entry } => ProbeFault::Invalid(entry@),
        ProbeError::DuplicateProbeId { id } => ProbeFault::Duplicate(id@),
    }
}

/// The abstract content of a [`Probe`].
pub enum KindModel {
    Icmp(Seq<char>),
    Http(Seq<char>, Seq<u16>, bool),
}

pub struct ProbeModel {
    pub id: Seq<char>,
    pub desc: Seq<char>,
    pub lan_reachable: bool,
    pub kind: KindModel,
}

impl View for Probe {
    type V = ProbeModel;

    open spec fn view(&self) -> ProbeModel {
        ProbeModel {
            id: self.id@,
            desc: self.desc@,
            lan_reachable: self.lan_reachable,
            kind: match self.kind {
                ProbeKind::Icmp { target } => KindModel::Icmp(target@),
                ProbeKind::Http { url, expect, insecure } => KindModel::Http(url@, expect@, insecure),
            },
        }
    }
}

/// `lan_reachable` when absent.
pub fn default_true() -> (r: bool)
    ensures
        r,
{
    true
}

/// `expect` when absent: a plain 200.
pub fn default_expect() -> (r: Vec<u16>)
    ensures
        r@ == seq![200u16],
{
    let mut v: Vec<u16> = Vec::new();
    v.push(200);
    v
}

/// The value of the first entry with this key.
pub open spec fn entry(es: Seq<(Seq<char>, TVal, Seq<char>)>, key: Seq<char>) -> Option<TVal>
    decreases es.len(),
{
    if es.len() == 0 {
        None
    } else if es[0].0 == key {
        Some(es[0].1)
    } else {
        entry(es.drop_first(), key)
    }
}

/// The keys an entry of a kind may carry.
pub open spec fn allowed_key(http: bool, k: Seq<char>) -> bool {
    k == "id"@ || k == "desc"@ || k == "lan_reachable"@ || if http {
        k == "url"@ || k == "expect"@ || k == "insecure"@
    } else {
        k == "target"@
    }
}

pub open spec fn is_str(v: Option<TVal>) -> bool {
    v matches Some(TVal::Str(_))
}

pub open spec fn opt_bool_ok(v: Option<TVal>) -> bool {
    v is None || v matches Some(TVal::Bool(_))
}

pub open spec fn bool_or(v: Option<TVal>, d: bool) -> bool {
    match v {
        Some(TVal::Bool(b)) => b,
        _ => d,
    }
}

pub open spec fn str_of(v: Option<TVal>) -> Seq<char> {
    match v {
        Some(TVal::Str(s)) => s,
        _ => seq![],
    }
}

/// Status codes: integers that fit `u16`.
pub open spec fn codes_ok(a: Seq<TVal>) -> bool {
    forall|i: int| 0 <= i < a.len() ==> (#[trigger] a[i] matches TVal::Int(n) && 0 <= n <= 65535)
}

pub open spec fn codes_of(a: Seq<TVal>) -> Seq<u16> {
    a.map_values(|v: TVal| match v {
        TVal::Int(n) => n as u16,
        _ => 0u16,
    })
}

pub open spec fn expect_ok(v: Option<TVal>) -> bool {
    match v {
        None => true,
        Some(TVal::Array(a)) => codes_ok(a),
        _ => false,
    }
}

pub open spec fn expect_of(v: Option<TVal>) -> Seq<u16> {
    match v {
        Some(TVal::Array(a)) => codes_of(a),
        _ => seq![200u16],
    }
}

/// Whether the entries other than `kind` match a kind's schema.
pub open spec fn schema_ok(http: bool, es: Seq<(Seq<char>, TVal, Seq<char>)>) -> bool {
    &&& forall|i: int| 0 <= i < es.len() ==> (#[trigger] es[i].0 == "kind"@ || allowed_key(http, es[i].0))
    &&& is_str(entry(es, "id"@))
    &&& is_str(entry(es, "desc"@))
    &&& opt_bool_ok(entry(es, "lan_reachable"@))
    &&& if http {
        is_str(entry(es, "url"@)) && expect_ok(entry(es, "expect"@)) && opt_bool_ok(entry(es, "insecure"@))
    } else {
        is_str(entry(es, "target"@))
    }
}

/// The probe an entry describes, once its schema holds.
pub open spec fn probe_of(http: bool, es: Seq<(Seq<char>, TVal, Seq<char>)>) -> ProbeModel {
    ProbeModel {
        id: str_of(entry(es, "id"@)),
        desc: str_of(entry(es, "desc"@)),
        lan_reachable: bool_or(entry(es, "lan_reachable"@), true),
        kind: if http {
            KindModel::Http(
                str_of(entry(es, "url"@)),
                expect_of(entry(es, "expect"@)),
                bool_or(entry(es, "insecure"@), false),
            )
        } else {
            KindModel::Icmp(str_of(entry(es, "target"@)))
        },
    }
}

/// `probe N`, with the id when the entry has a string one.
pub open spec fn entry_text(index: int, es: Seq<(Seq<char>, TVal, Seq<char>)>) -> Seq<char> {
    match entry(es, "id"@) {
        Some(TVal::Str(id)) => "probe "@ + int_text(index + 1) + " (id "@ + debug_text(id) + ")"@,
        _ => "probe "@ + int_text(index + 1),
    }
}

/// The text of the first `kind` entry.
pub open spec fn kind_text(es: Seq<(Seq<char>, TVal, Seq<char>)>) -> Seq<char>
    decreases es.len(),
{
    if es.len() == 0 {
        seq![]
    } else if es[0].0 == "kind"@ {
        match es[0].1 {
            TVal::Str(s) => s,
            _ => es[0].2,
        }
    } else {
        kind_text(es.drop_first())
    }
}

/// One entry's outcome: its probe, or why it is rejected.
pub open spec fn probe_result(index: int, es: Seq<(Seq<char>, TVal, Seq<char>)>) -> Result<ProbeModel, ProbeFault> {
    let label = entry_text(index, es);
    match entry(es, "kind"@) {
        None => Err(ProbeFault::MissingKind(label)),
        Some(TVal::Str(k)) => if k == "icmp"@ {
            if schema_ok(false, es) {
                Ok(probe_of(false, es))
            } else {
                Err(ProbeFault::Invalid(label))
            }
        } else if k == "http"@ {
            if schema_ok(true, es) {
                Ok(probe_of(true, es))
            } else {
                Err(ProbeFault::Invalid(label))
            }
        } else {
            Err(ProbeFault::UnknownKind(label, k))
        },
        Some(_) => Err(ProbeFault::UnknownKind(label, kind_text(es))),
    }
}

/// The outcome of the `index`-th table (counting from zero).
pub open spec fn probe_outcome(index: usize, es: Seq<(Seq<char>, TVal, Seq<char>)>) -> Result<ProbeModel, ProbeFault> {
    probe_result(index as int, es)
}

fn entry_of<'a>(es: &'a Vec<TomlEntry>, key: &str) -> (r: Option<&'a TomlValue>)
    ensures
        match r {
            Some(v) => entry(tv_entries(es@), key@) == Some(tv(*v)),
            None => entry(tv_entries(es@), key@) is None,
        },
{
    let ghost t = tv_entries(es@);
    proof {
        lemma_tv_entries(es@);
    }
    let k = chars_of(key);
    let mut i: usize = 0;
    assert(t.skip(0) =~= t);
    while i < es.len()
        invariant
            i <= es@.len(),
            t == tv_entries(es@),
            t.len() == es@.len(),
            forall|j: int| 0 <= j < es@.len() ==> #[trigger] t[j] == (es@[j].key@, tv(es@[j].value), es@[j].text@),
            k@ == key@,
            entry(t, key@) == entry(t.skip(i as int), key@),
        decreases es@.len() - i,
    {
        assert(t.skip(i as int)[0] == t[i as int]);
        assert(t.skip(i as int).drop_first() =~= t.skip(i + 1));
        if eq_chars(chars_of(es[i].key.as_str()).as_slice(), k.as_slice()) {
            return Some(&es[i].value);
        }
        i = i + 1;
    }
    None
}

fn string_entry(es: &Vec<TomlEntry>, key: &str) -> (r: Option<String>)
    ensures
        match r {
            Some(s) => entry(tv_entries(es@), key@) == Some(TVal::Str(s@)),
            None => !is_str(entry(tv_entries(es@), key@)),
        },
{
    match entry_of(es, key) {
        Some(TomlValue::Str(s)) => Some(s.clone()),
        _ => None,
    }
}

fn bool_entry(es: &Vec<TomlEntry>, key: &str, default: bool) -> (r: Option<bool>)
    ensures
        match r {
            Some(b) => opt_bool_ok(entry(tv_entries(es@), key@)) && b == bool_or(entry(tv_entries(es@), key@), default),
            None => !opt_bool_ok(entry(tv_entries(es@), key@)),
        },
{
    match entry_of(es, key) {
        None => Some(default),
        Some(TomlValue::Bool(b)) => Some(*b),
        Some(_) => None,
    }
}

#[verifier::loop_isolation(false)]
fn expect_entry(es: &Vec<TomlEntry>) -> (r: Option<Vec<u16>>)
    ensures
        match r {
            Some(v) => expect_ok(entry(tv_entries(es@), "expect"@)) && v@ == expect_of(entry(tv_entries(es@), "expect"@)),
            None => !expect_ok(entry(tv_entries(es@), "expect"@)),
        },
{
    match entry_of(es, "expect") {
        None => Some(default_expect()),
        Some(TomlValue::Array(a)) => {
            let ghost tl = tv_list(a@);
            proof {
                lemma_tv_list(a@);
            }
            let mut out: Vec<u16> = Vec::new();
            let mut i: usize = 0;
            while i < a.len()
                invariant
                    i <= a@.len(),
                    tl == tv_list(a@),
                    tl.len() == a@.len(),
                    forall|j: int| 0 <= j < a@.len() ==> #[trigger] tl[j] == tv(a@[j]),
                    codes_ok(tl.take(i as int)),
                    out@ == codes_of(tl.take(i as int)),
                decreases a@.len() - i,
            {
                match &a[i] {
                    TomlValue::Int(n) => {
                        if *n < 0 || *n > 65535 {
                            assert(!codes_ok(tl)) by {
                                assert(tl[i as int] == TVal::Int(*n));
                            }
                            return None;
                        }
                        let ghost prev = out@;
                        out.push(*n as u16);
                        assert(tl.take(i + 1) =~= tl.take(i as int).push(tl[i as int]));
                        assert(out@ =~= codes_of(tl.take(i + 1)));
                    },
                    _ => {
                        assert(!codes_ok(tl)) by {
                            assert(!(tl[i as int] matches TVal::Int(_)));
                        }
                        return None;
                    },
                }
                i = i + 1;
            }
            assert(tl.take(i as int) =~= tl);
            Some(out)
        },
        Some(_) => None,
    }
}

fn keys_allowed(es: &Vec<TomlEntry>, http: bool) -> (r: bool)
    ensures
        r == (forall|i: int|
            0 <= i < tv_entries(es@).len() ==> (#[trigger] tv_entries(es@)[i].0 == "kind"@ || allowed_key(
                http,
                tv_entries(es@)[i].0,
            ))),
{
    let ghost t = tv_entries(es@);
    proof {
        lemma_tv_entries(es@);
        reveal_strlit("kind");
        reveal_strlit("id");
        reveal_strlit("desc");
        reveal_strlit("lan_reachable");
        reveal_strlit("url");
        reveal_strlit("expect");
        reveal_strlit("insecure");
        reveal_strlit("target");
    }
    let mut i: usize = 0;
    while i < es.len()
        invariant
            i <= es@.len(),
            t == tv_entries(es@),
            t.len() == es@.len(),
            forall|j: int| 0 <= j < es@.len() ==> #[trigger] t[j] == (es@[j].key@, tv(es@[j].value), es@[j].text@),
            forall|j: int| 0 <= j < i ==> (#[trigger] t[j].0 == "kind"@ || allowed_key(http, t[j].0)),
        decreases es@.len() - i,
    {
        let k = chars_of(es[i].key.as_str());
        let ok = eq_chars(k.as_slice(), chars_of("kind").as_slice()) || eq_chars(k.as_slice(), chars_of("id").as_slice())
            || eq_chars(k.as_slice(), chars_of("desc").as_slice()) || eq_chars(
            k.as_slice(),
            chars_of("lan_reachable").as_slice(),
        ) || if http {
            eq_chars(k.as_slice(), chars_of("url").as_slice()) || eq_chars(k.as_slice(), chars_of("expect").as_slice())
                || eq_chars(k.as_slice(), chars_of("insecure").as_slice())
        } else {
            eq_chars(k.as_slice(), chars_of("target").as_slice())
        };
        if !ok {
            assert(!(t[i as int].0 == "kind"@ || allowed_key(http, t[i as int].0)));
            return false;
        }
        i = i + 1;
    }
    true
}

fn entry_label(index: usize, es: &Vec<TomlEntry>) -> (r: String)
    ensures
        r@ == entry_text(index as int, tv_entries(es@)),
{
    let mut t = chars_of("probe ");
    put_chars(&mut t, fmt_u128(index as u128 + 1).as_slice());
    match entry_of(es, "id") {
        Some(TomlValue::Str(id)) => {
            put(&mut t, " (id ");
            put_chars(&mut t, debug_quoted(chars_of(id.as_str()).as_slice()).as_slice());
            put(&mut t, ")");
        },
        _ => {},
    }
    string_from(t.as_slice())
}

fn kind_text_of(es: &Vec<TomlEntry>) -> (r: String)
    ensures
        r@ == kind_text(tv_entries(es@)),
{
    let ghost t = tv_entries(es@);
    proof {
        lemma_tv_entries(es@);
        reveal_strlit("kind");
    }
    let k = chars_of("kind");
    let mut i: usize = 0;
    assert(t.skip(0) =~= t);
    while i < es.len()
        invariant
            i <= es@.len(),
            t == tv_entries(es@),
            t.len() == es@.len(),
            forall|j: int| 0 <= j < es@.len() ==> #[trigger] t[j] == (es@[j].key@, tv(es@[j].value), es@[j].text@),
            k@ == "kind"@,
            kind_text(t) == kind_text(t.skip(i as int)),
        decreases es@.len() - i,
    {
        assert(t.skip(i as int)[0] == t[i as int]);
        assert(t.skip(i as int).drop_first() =~= t.skip(i + 1));
        if eq_chars(chars_of(es[i].key.as_str()).as_slice(), k.as_slice()) {
            return match &es[i].value {
                TomlValue::Str(s) => s.clone(),
                _ => es[i].text.clone(),
            };
        }
        i = i + 1;
    }
    string_from(Vec::<char>::new().as_slice())
}

/// Validates one probe table (the `index`-th, counting from zero) against
/// its kind's schema.
pub fn parse_probe(table: &Vec<TomlEntry>, index: usize) -> (r: Result<Probe, ProbeError>)
    ensures
        match r {
            Ok(p) => probe_outcome(index, tv_entries(table@)) == Ok::<ProbeModel, ProbeFault>(p@),
            Err(e) => probe_outcome(index, tv_entries(table@)) == Err::<ProbeModel, ProbeFault>(fault_of(e)),
        },
{
    let entry = entry_label(index, table);
    let kind = match entry_of(table, "kind") {
        None => return Err(ProbeError::MissingProbeKind { entry }),
        Some(TomlValue::Str(k)) => k,
        Some(_) => return Err(ProbeError::UnknownProbeKind { entry, kind: kind_text_of(table) }),
    };
    proof {
        reveal_strlit("icmp");
        reveal_strlit("http");
    }
    let kc = chars_of(kind.as_str());
    let http = if eq_chars(kc.as_slice(), chars_of("icmp").as_slice()) {
        false
    } else if eq_chars(kc.as_slice(), chars_of("http").as_slice()) {
        true
    } else {
        return Err(ProbeError::UnknownProbeKind { entry, kind: kind.clone() });
    };
    if !keys_allowed(table, http) {
        return Err(ProbeError::InvalidProbe { entry });
    }
    let id = match string_entry(table, "id") {
        Some(x) => x,
        None => return Err(ProbeError::InvalidProbe { entry }),
    };
    let desc = match string_entry(table, "desc") {
        Some(x) => x,
        None => return Err(ProbeError::InvalidProbe { entry }),
    };
    let lan_reachable = match bool_entry(table, "lan_reachable", default_true()) {
        Some(x) => x,
        None => return Err(ProbeError::InvalidProbe { entry }),
    };
    let kind = if http {
        let url = match string_entry(table, "url") {
            Some(x) => x,
            None => return Err(ProbeError::InvalidProbe { entry }),
        };
        let expect = match expect_entry(table) {
            Some(x) => x,
            None => return Err(ProbeError::InvalidProbe { entry }),
        };
        let insecure = match bool_entry(table, "insecure", false) {
            Some(x) => x,
            None => return Err(ProbeError::InvalidProbe { entry }),
        };
        ProbeKind::Http { url, expect, insecure }
    } else {
        let target = match string_entry(table, "target") {
            Some(x) => x,
            None => return Err(ProbeError::InvalidProbe { entry }),
        };
        ProbeKind::Icmp { target }
    };
    Ok(Probe { id, desc, lan_reachable, kind })
}

/// The tables of a probes document: `probe` must be its only key and an
/// array of tables.
pub open spec fn probe_tables(doc: Seq<(Seq<char>, TVal, Seq<char>)>) -> Option<Seq<Seq<(Seq<char>, TVal, Seq<char>)>>> {
    if forall|i: int| 0 <= i < doc.len() ==> #[trigger] doc[i].0 == "probe"@ {
        match entry(doc, "probe"@) {
            Some(TVal::Array(items)) => if forall|i: int| 0 <= i < items.len() ==> #[trigger] items[i] is Table {
                Some(items.map_values(|v: TVal| v->Table_0))
            } else {
                None
            },
            _ => None,
        }
    } else {
        None
    }
}

/// Whether some probe carries this id.
pub open spec fn has_id(ps: Seq<ProbeModel>, id: Seq<char>) -> bool {
    exists|i: int| 0 <= i < ps.len() && #[trigger] ps[i].id == id
}

/// The first `k` tables, in order: the first rejected entry or repeated id
/// is the error.
pub open spec fn probes_upto(tables: Seq<Seq<(Seq<char>, TVal, Seq<char>)>>, k: nat) -> Result<Seq<ProbeModel>, ProbeFault>
    decreases k,
{
    if k == 0 {
        Ok(seq![])
    } else {
        match probes_upto(tables, (k - 1) as nat) {
            Err(e) => Err(e),
            Ok(ps) => match probe_result(k - 1, tables[k - 1]) {
                Err(e) => Err(e),
                Ok(p) => if has_id(ps, p.id) {
                    Err(ProbeFault::Duplicate(p.id))
                } else {
                    Ok(ps.push(p))
                },
            },
        }
    }
}

/// What a probes document yields: its probes in file order, or why it is
/// rejected.
pub open spec fn probes_of(doc: Option<Seq<(Seq<char>, TVal, Seq<char>)>>) -> Result<Seq<ProbeModel>, ProbeFault> {
    match doc {
        None => Err(ProbeFault::Parse),
        Some(d) => match probe_tables(d) {
            None => Err(ProbeFault::Parse),
            Some(ts) => probes_upto(ts, ts.len()),
        },
    }
}

pub open spec fn opt_entries(r: Option<Vec<TomlEntry>>) -> Option<Seq<(Seq<char>, TVal, Seq<char>)>> {
    match r {
        Some(v) => Some(tv_entries(v@)),
        None => None,
    }
}

#[verifier::external_type_specification]
#[verifier::external_body]
pub struct ExTomlValue(toml::Value);

/// What `toml::from_str::<toml::Table>` makes of a text: its entries, or
/// nothing when the text is not a TOML document. Each entry carries its
/// value's TOML text, which [`toml_text`] names.
pub uninterp spec fn toml_parse(text: Seq<char>) -> Option<Seq<(Seq<char>, TVal, Seq<char>)>>;

/// What `toml::Value`'s `Display` writes for a value, by the value's
/// content.
pub uninterp spec fn toml_text(v: TVal) -> Seq<char>;

/// Whether every entry's text, at any depth, is what [`toml_text`] names
/// for its value.
pub open spec fn shown(v: TVal) -> bool
    decreases v,
{
    match v {
        TVal::Array(a) => shown_list(a),
        TVal::Table(es) => shown_entries(es),
        _ => true,
    }
}

pub open spec fn shown_list(a: Seq<TVal>) -> bool
    decreases a,
{
    if a.len() == 0 {
        true
    } else {
        shown_list(a.drop_last()) && shown(a.last())
    }
}

pub open spec fn shown_entries(es: Seq<(Seq<char>, TVal, Seq<char>)>) -> bool
    decreases es,
{
    if es.len() == 0 {
        true
    } else {
        shown_entries(es.drop_last()) && es.last().2 == toml_text(es.last().1) && shown(es.last().1)
    }
}

/// Moves a parsed `toml::Value` into the library's [`TomlValue`], variant
/// for variant; floats and datetimes keep their TOML text.
#[verifier::external_body]
fn toml_from_value(v: toml::Value) -> TomlValue {
    match v {
        toml::Value::String(s) => TomlValue::Str(s),
        toml::Value::Integer(i) => TomlValue::Int(i),
        toml::Value::Boolean(b) => TomlValue::Bool(b),
        toml::Value::Array(a) => TomlValue::Array(a.into_iter().map(toml_from_value).collect()),
        toml::Value::Table(t) => TomlValue::Table(t.into_iter().map(|(k, x)| toml_entry(k, x)).collect()),
        other => TomlValue::Other(other.to_string()),
    }
}

/// One table entry, with the value's TOML text (`toml::Value`'s `Display`).
#[verifier::external_body]
fn toml_entry(key: String, value: toml::Value) -> (r: TomlEntry)
    ensures
        r.text@ == toml_text(tv(r.value)),
{
    let text = value.to_string();
    TomlEntry { key, value: toml_from_value(value), text }
}

/// Parses a TOML document with `toml::from_str` into its top-level entries.
/// The contract claims that the entries are a function of the text (named
/// [`toml_parse`]), `None` exactly when the toml crate rejects it, and that
/// each entry's text, at any depth, is its value's `Display` (named
/// [`toml_text`]).
#[verifier::external_body]
fn parse_toml_table(text: &str) -> (r: Option<Vec<TomlEntry>>)
    ensures
        opt_entries(r) == toml_parse(text@),
        match opt_entries(r) {
            Some(es) => shown_entries(es),
            None => true,
        },
{
    match toml::from_str::<toml::Table>(text) {
        Ok(t) => Some(t.into_iter().map(|(k, x)| toml_entry(k, x)).collect()),
        Err(_) => None,
    }
}

proof fn lemma_upto_err(tables: Seq<Seq<(Seq<char>, TVal, Seq<char>)>>, k: nat, n: nat)
    requires
        k <= n,
        probes_upto(tables, k) is Err,
    ensures
        probes_upto(tables, n) == probes_upto(tables, k),
    decreases n - k,
{
    if k < n {
        lemma_upto_err(tables, k, (n - 1) as nat);
    }
}

fn id_taken(ps: &Vec<Probe>, id: &String) -> (r: bool)
    ensures
        r == has_id(crate::text::seq_views(ps@), id@),
{
    let ghost v = crate::text::seq_views(ps@);
    let mut i: usize = 0;
    while i < ps.len()
        invariant
            i <= ps@.len(),
            v == crate::text::seq_views(ps@),
            forall|j: int| 0 <= j < i ==> v[j].id != id@,
        decreases ps@.len() - i,
    {
        assert(v[i as int] == ps@[i as int]@);
        if eq_chars(chars_of(ps[i].id.as_str()).as_slice(), chars_of(id.as_str()).as_slice()) {
            assert(v[i as int].id == id@);
            return true;
        }
        i = i + 1;
    }
    false
}

/// Validates a parsed probes document: `probe` must be its only key, an
/// array of tables, each a valid probe entry, with no id repeated.
#[verifier::loop_isolation(false)]
pub fn probes_from_doc(doc: &Vec<TomlEntry>) -> (r: Result<Vec<Probe>, ProbeError>)
    ensures
        match r {
            Ok(ps) => probes_of(Some(tv_entries(doc@))) == Ok::<Seq<ProbeModel>, ProbeFault>(crate::text::seq_views(ps@)),
            Err(e) => probes_of(Some(tv_entries(doc@))) == Err::<Seq<ProbeModel>, ProbeFault>(fault_of(e)),
        },
{
    let ghost d = tv_entries(doc@);
    proof {
        lemma_tv_entries(doc@);
        reveal_strlit("probe");
    }
    let probe_key = chars_of("probe");
    let mut i: usize = 0;
    while i < doc.len()
        invariant
            i <= doc@.len(),
            forall|j: int| 0 <= j < i ==> #[trigger] d[j].0 == "probe"@,
        decreases doc@.len() - i,
    {
        if !eq_chars(chars_of(doc[i].key.as_str()).as_slice(), probe_key.as_slice()) {
            assert(d[i as int].0 != "probe"@);
            return Err(ProbeError::Parse);
        }
        i = i + 1;
    }
    let items = match entry_of(doc, "probe") {
        Some(TomlValue::Array(a)) => a,
        _ => return Err(ProbeError::Parse),
    };
    let ghost iv = tv_list(items@);
    proof {
        lemma_tv_list(items@);
    }
    let mut k: usize = 0;
    while k < items.len()
        invariant
            k <= items@.len(),
            forall|j: int| 0 <= j < k ==> #[trigger] iv[j] is Table,
        decreases items@.len() - k,
    {
        match &items[k] {
            TomlValue::Table(_) => {},
            _ => {
                assert(!(iv[k as int] is Table));
                return Err(ProbeError::Parse);
            },
        }
        k = k + 1;
    }
    let ghost ts = iv.map_values(|v: TVal| v->Table_0);
    assert(probe_tables(d) == Some(ts));
    let mut out: Vec<Probe> = Vec::new();
    assert(crate::text::seq_views(out@) =~= Seq::<ProbeModel>::empty());
    assert(ts.len() == items@.len());
    let mut m: usize = 0;
    while m < items.len()
        invariant
            m <= items@.len(),
            probes_upto(ts, m as nat) == Ok::<Seq<ProbeModel>, ProbeFault>(crate::text::seq_views(out@)),
        decreases items@.len() - m,
    {
        let table = match &items[m] {
            TomlValue::Table(t) => t,
            _ => {
                assert(iv[m as int] is Table);
                return Err(ProbeError::Parse);
            },
        };
        assert(ts[m as int] == tv_entries(table@));
        let p = match parse_probe(table, m) {
            Ok(p) => p,
            Err(e) => {
                proof {
                    lemma_upto_err(ts, (m + 1) as nat, ts.len());
                }
                return Err(e);
            },
        };
        if id_taken(&out, &p.id) {
            proof {
                lemma_upto_err(ts, (m + 1) as nat, ts.len());
            }
            return Err(ProbeError::DuplicateProbeId { id: p.id });
        }
        let ghost prev = crate::text::seq_views(out@);
        let ghost pv = p@;
        out.push(p);
        assert(crate::text::seq_views(out@) =~= prev.push(pv));
        m = m + 1;
    }
    Ok(out)
}

/// Parses and validates a `probes.toml` text, in file order.
pub fn parse_probes(text: &str) -> (r: Result<Vec<Probe>, ProbeError>)
    ensures
        match r {
            Ok(ps) => probes_of(toml_parse(text@)) == Ok::<Seq<ProbeModel>, ProbeFault>(crate::text::seq_views(ps@)),
            Err(e) => probes_of(toml_parse(text@)) == Err::<Seq<ProbeModel>, ProbeFault>(fault_of(e)),
        },
{
    match parse_toml_table(text) {
        Some(doc) => probes_from_doc(&doc),
        None => Err(ProbeError::Parse),
    }
}

proof fn lemma_upto_unique(tables: Seq<Seq<(Seq<char>, TVal, Seq<char>)>>, k: nat)
    ensures
        match probes_upto(tables, k) {
            Ok(ps) => forall|i: int, j: int| 0 <= i < j < ps.len() ==> ps[i].id != ps[j].id,
            Err(_) => true,
        },
    decreases k,
{
    if k > 0 {
        lemma_upto_unique(tables, (k - 1) as nat);
        match probes_upto(tables, (k - 1) as nat) {
            Ok(ps) => match probe_result(k - 1, tables[k - 1]) {
                Ok(p) => if !has_id(ps, p.id) {
                    let q = ps.push(p);
                    assert forall|i: int, j: int| 0 <= i < j < q.len() implies q[i].id != q[j].id by {
                        if j == ps.len() {
                            assert(ps[i].id == q[i].id);
                            if q[i].id == p.id {
                                assert(has_id(ps, p.id));
                            }
                        }
                    }
                },
                Err(_) => {},
            },
            Err(_) => {},
        }
    }
}

/// Every accepted probes document has unique ids: a repeated id is always
/// rejected.
pub proof fn law_probe_ids_unique(doc: Option<Seq<(Seq<char>, TVal, Seq<char>)>>)
    ensures
        match probes_of(doc) {
            Ok(ps) => forall|i: int, j: int| 0 <= i < j < ps.len() ==> ps[i].id != ps[j].id,
            Err(_) => true,
        },
{
    match doc {
        Some(d) => match probe_tables(d) {
            Some(ts) => lemma_upto_unique(ts, ts.len()),
            None => {},
        },
        None => {},
    }
}

} // verus!
