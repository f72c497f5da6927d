//! Restore: the pure parts of recreating the escrow's objects in a NetBox —
//! the report tally, query strings, field reads of escrow objects, and the
//! error-body excerpt. The HTTP session itself runs in the binary.

use vstd::prelude::*;
use crate::text::{chars_of, join, join_of, put, put_chars, string_from, views};
use crate::json::{copy_json, get, jget, jstr, jv, as_str, Json, JVal};
use crate::netbox::logical::entry_of;

verus! {

/// Summary of what a restore created or found already present.
#[derive(Debug, PartialEq, Eq, Structural)]
pub struct RestoreReport {
    /// Objects newly created.
    pub created: usize,
    /// Objects already present (idempotent skips).
    pub existing: usize,
}

impl Default for RestoreReport {
    fn default() -> (r: RestoreReport)
        ensures
            r.created == 0,
            r.existing == 0,
    {
        RestoreReport { created: 0, existing: 0 }
    }
}

impl RestoreReport {
    /// Counts one object: created, or found already present.
    pub fn record(&mut self, created: bool)
        requires
            old(self).created < usize::MAX,
            old(self).existing < usize::MAX,
        ensures
            created ==> final(self).created == old(self).created + 1 && final(self).existing == old(self).existing,
            !created ==> final(self).existing == old(self).existing + 1 && final(self).created == old(self).created,
    {
        if created {
            self.created = self.created + 1;
        } else {
            self.existing = self.existing + 1;
        }
    }
}

/// A string member of an escrow object, or the empty string.
pub open spec fn string_of_spec(v: JVal, key: Seq<char>) -> Seq<char> {
    match jstr(jget(v, key)) {
        Some(s) => s,
        None => seq![],
    }
}

/// A string member of an escrow object, or the empty string.
pub fn string_of(v: &Json, key: &str) -> (r: String)
    ensures
        r@ == string_of_spec(jv(*v), key@),
{
    match as_str(get(v, key)) {
        Some(s) => string_from(chars_of(s).as_slice()),
        None => string_from(Vec::<char>::new().as_slice()),
    }
}

/// A `{value, label}` enum field reduced to its value; any other value
/// passes through; a missing field is null.
pub open spec fn value_of_spec(v: JVal, key: Seq<char>) -> JVal {
    match jget(v, key) {
        Some(JVal::Object(m)) => match entry_of(m, "value"@) {
            Some(x) => x,
            None => JVal::Null,
        },
        Some(other) => other,
        None => JVal::Null,
    }
}

/// A `{value, label}` enum field reduced to its value; a plain string passes
/// through.
pub fn value_of(v: &Json, key: &str) -> (r: Json)
    ensures
        jv(r) == value_of_spec(jv(*v), key@),
{
    match get(v, key) {
        Some(x) => match x {
            Json::Object(_) => match get(x, "value") {
                Some(y) => copy_json(y),
                None => Json::Null,
            },
            _ => copy_json(x),
        },
        None => Json::Null,
    }
}

/// An escrow key's API path: `.` back to `/`.
pub fn api_path(endpoint: &str) -> (r: String)
    ensures
        r@ == crate::text::replace(endpoint@, "."@, "/"@),
{
    proof {
        reveal_strlit(".");
    }
    string_from(crate::text::replace_of(chars_of(endpoint).as_slice(), chars_of(".").as_slice(), chars_of("/").as_slice()).as_slice())
}

/// The first 300 characters of a text (an error body, for the report).
pub open spec fn truncate_spec(s: Seq<char>) -> Seq<char> {
    if s.len() > 300 {
        s.take(300)
    } else {
        s
    }
}

/// The first 300 characters of a text (an error body, for the report).
pub fn truncate(s: &str) -> (r: String)
    ensures
        r@ == truncate_spec(s@),
{
    let c = chars_of(s);
    if c.len() > 300 {
        string_from(&c.as_slice()[0..300])
    } else {
        string_from(c.as_slice())
    }
}

/// Whether a byte passes a query string unescaped (RFC 3986 unreserved).
pub open spec fn unreserved(b: u8) -> bool {
    (0x41 <= b <= 0x5A) || (0x61 <= b <= 0x7A) || (0x30 <= b <= 0x39) || b == 0x2D || b == 0x5F || b == 0x2E || b == 0x7E
}

/// An upper-case hex digit.
pub open spec fn hex_digit(n: u8) -> char {
    if n < 10 {
        ((n + 48) as u8) as char
    } else {
        ((n + 55) as u8) as char
    }
}

/// One byte of a query value, percent-encoded unless unreserved.
pub open spec fn encode_byte(b: u8) -> Seq<char> {
    if unreserved(b) {
        seq![b as char]
    } else {
        seq!['%', hex_digit(b / 16), hex_digit(b % 16)]
    }
}

/// The UTF-8 encoding of a character.
pub open spec fn utf8(c: char) -> Seq<u8> {
    let n = c as u32;
    if n < 0x80 {
        seq![n as u8]
    } else if n < 0x800 {
        seq![(0xC0 + n / 64) as u8, (0x80 + n % 64) as u8]
    } else if n < 0x10000 {
        seq![(0xE0 + n / 4096) as u8, (0x80 + (n / 64) % 64) as u8, (0x80 + n % 64) as u8]
    } else {
        seq![
            (0xF0 + n / 262144) as u8,
            (0x80 + (n / 4096) % 64) as u8,
            (0x80 + (n / 64) % 64) as u8,
            (0x80 + n % 64) as u8,
        ]
    }
}

pub open spec fn encode_bytes(bs: Seq<u8>) -> Seq<char>
    decreases bs.len(),
{
    if bs.len() == 0 {
        seq![]
    } else {
        encode_bytes(bs.drop_last()) + encode_byte(bs.last())
    }
}

/// A query value percent-encoded byte by byte over its UTF-8 encoding.
pub open spec fn urlencode_spec(s: Seq<char>) -> Seq<char>
    decreases s.len(),
{
    if s.len() == 0 {
        seq![]
    } else {
        urlencode_spec(s.drop_last()) + encode_bytes(utf8(s.last()))
    }
}

fn hex_of(n: u8) -> (r: char)
    requires
        n < 16,
    ensures
        r == hex_digit(n),
{
    if n < 10 {
        ((n + 48) as u8) as char
    } else {
        ((n + 55) as u8) as char
    }
}

fn push_byte(t: &mut Vec<char>, b: u8)
    ensures
        final(t)@ == old(t)@ + encode_byte(b),
{
    if (0x41 <= b && b <= 0x5A) || (0x61 <= b && b <= 0x7A) || (0x30 <= b && b <= 0x39) || b == 0x2D || b == 0x5F
        || b == 0x2E || b == 0x7E {
        t.push(b as char);
    } else {
        t.push('%');
        t.push(hex_of(b / 16));
        t.push(hex_of(b % 16));
    }
    assert(t@ =~= old(t)@ + encode_byte(b));
}

fn utf8_of(c: char) -> (r: Vec<u8>)
    ensures
        r@ == utf8(c),
{
    let n = c as u32;
    let mut v: Vec<u8> = Vec::new();
    if n < 0x80 {
        v.push(n as u8);
    } else if n < 0x800 {
        v.push((0xC0 + n / 64) as u8);
        v.push((0x80 + n % 64) as u8);
    } else if n < 0x10000 {
        v.push((0xE0 + n / 4096) as u8);
        v.push((0x80 + (n / 64) % 64) as u8);
        v.push((0x80 + n % 64) as u8);
    } else {
        v.push((0xF0 + n / 262144) as u8);
        v.push((0x80 + (n / 4096) % 64) as u8);
        v.push((0x80 + (n / 64) % 64) as u8);
        v.push((0x80 + n % 64) as u8);
    }
    assert(v@ =~= utf8(c));
    v
}

/// Percent-encodes a query value over its UTF-8 bytes, leaving only
/// `A-Z a-z 0-9 - _ . ~` as they are.
pub fn urlencode(s: &str) -> (r: String)
    ensures
        r@ == urlencode_spec(s@),
{
    let c = chars_of(s);
    let mut t: Vec<char> = Vec::new();
    let mut i: usize = 0;
    while i < c.len()
        invariant
            i <= c@.len(),
            t@ == urlencode_spec(c@.take(i as int)),
        decreases c@.len() - i,
    {
        let bs = utf8_of(c[i]);
        let ghost before = t@;
        let mut k: usize = 0;
        while k < bs.len()
            invariant
                k <= bs@.len(),
                t@ == before + encode_bytes(bs@.take(k as int)),
            decreases bs@.len() - k,
        {
            push_byte(&mut t, bs[k]);
            assert(bs@.take(k + 1).drop_last() =~= bs@.take(k as int));
            k = k + 1;
        }
        assert(bs@.take(k as int) =~= bs@);
        assert(c@.take(i + 1).drop_last() =~= c@.take(i as int));
        i = i + 1;
    }
    assert(c@.take(i as int) =~= c@);
    string_from(t.as_slice())
}

/// A lookup query: `k=urlencode(v)` pairs joined by `&`.
pub open spec fn query_spec(q: Seq<(Seq<char>, Seq<char>)>) -> Seq<char> {
    join(q.map_values(|p: (Seq<char>, Seq<char>)| p.0 + "="@ + urlencode_spec(p.1)), "&"@)
}

/// A lookup query: `k=urlencode(v)` pairs joined by `&`.
pub fn query_string(query: &Vec<(String, String)>) -> (r: String)
    ensures
        r@ == query_spec(query@.map_values(|p: (String, String)| (p.0@, p.1@))),
{
    let ghost q = query@.map_values(|p: (String, String)| (p.0@, p.1@));
    let mut parts: Vec<Vec<char>> = Vec::new();
    let mut i: usize = 0;
    while i < query.len()
        invariant
            i <= query@.len(),
            q == query@.map_values(|p: (String, String)| (p.0@, p.1@)),
            views(parts@) == q.take(i as int).map_values(|p: (Seq<char>, Seq<char>)| p.0 + "="@ + urlencode_spec(p.1)),
        decreases query@.len() - i,
    {
        let mut t = chars_of(query[i].0.as_str());
        put(&mut t, "=");
        put_chars(&mut t, chars_of(urlencode(query[i].1.as_str()).as_str()).as_slice());
        assert(q[i as int] == (query@[i as int].0@, query@[i as int].1@));
        let ghost prev = views(parts@);
        parts.push(t);
        assert(views(parts@) =~= prev.push(t@));
        assert(q.take(i + 1).map_values(|p: (Seq<char>, Seq<char>)| p.0 + "="@ + urlencode_spec(p.1)) =~= q.take(
            i as int,
        ).map_values(|p: (Seq<char>, Seq<char>)| p.0 + "="@ + urlencode_spec(p.1)).push(
            q[i as int].0 + "="@ + urlencode_spec(q[i as int].1),
        ));
        i = i + 1;
    }
    assert(q.take(i as int) =~= q);
    string_from(join_of(&parts, chars_of("&").as_slice()).as_slice())
}

} // verus!
