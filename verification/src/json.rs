//! A JSON document as plain values: what the escrow transforms and the risk
//! register read of a parsed JSON text.

use vstd::prelude::*;
use crate::text::{chars_of, eq_chars, first_match, lemma_first_match_at};

verus! {

/// A JSON number: its integer value where it is one that fits `i64`, and
/// its text.
#[derive(Debug, Clone)]
pub struct JsonNumber {
    /// The value, when the number is an integer that fits `i64`.
    pub int: Option<i64>,
    /// The number as JSON writes it.
    pub text: String,
}

/// A JSON value. Object entries keep the parser's key order (sorted) and
/// hold each key once.
#[derive(Debug)]
pub enum Json {
    Null,
    Bool(bool),
    Number(JsonNumber),
    Str(String),
    Array(Vec<Json>),
    Object(Vec<(String, Json)>),
}

/// The abstract content of a [`Json`] value.
pub enum JVal {
    Null,
    Bool(bool),
    Number(Option<i64>, Seq<char>),
    Str(Seq<char>),
    Array(Seq<JVal>),
    Object(Seq<(Seq<char>, JVal)>),
}

pub open spec fn jv(j: Json) -> JVal
    decreases j,
{
    match j {
        Json::Null => JVal::Null,
        Json::Bool(b) => JVal::Bool(b),
        Json::Number(n) => JVal::Number(n.int, n.text@),
        Json::Str(s) => JVal::Str(s@),
        Json::Array(v) => JVal::Array(jv_list(v@)),
        Json::Object(m) => JVal::Object(jv_entries(m@)),
    }
}

pub open spec fn jv_list(s: Seq<Json>) -> Seq<JVal>
    decreases s,
{
    if s.len() == 0 {
        seq![]
    } else {
        jv_list(s.drop_last()).push(jv(s.last()))
    }
}

pub open spec fn jv_entries(s: Seq<(String, Json)>) -> Seq<(Seq<char>, JVal)>
    decreases s,
{
    if s.len() == 0 {
        seq![]
    } else {
        jv_entries(s.drop_last()).push((s.last().0@, jv(s.last().1)))
    }
}

pub proof fn lemma_jv_list(s: Seq<Json>)
    ensures
        jv_list(s).len() == s.len(),
        forall|i: int| 0 <= i < s.len() ==> #[trigger] jv_list(s)[i] == jv(s[i]),
    decreases s.len(),
{
    if s.len() > 0 {
        lemma_jv_list(s.drop_last());
    }
}

pub proof fn lemma_jv_entries(s: Seq<(String, Json)>)
    ensures
        jv_entries(s).len() == s.len(),
        forall|i: int| 0 <= i < s.len() ==> #[trigger] jv_entries(s)[i] == (s[i].0@, jv(s[i].1)),
    decreases s.len(),
{
    if s.len() > 0 {
        lemma_jv_entries(s.drop_last());
    }
}

pub open spec fn key_is(k: Seq<char>) -> spec_fn((Seq<char>, JVal)) -> bool {
    |e: (Seq<char>, JVal)| e.0 == k
}

/// `Value::get`: an object's member by key.
pub open spec fn jget(v: JVal, key: Seq<char>) -> Option<JVal> {
    match v {
        JVal::Object(es) => match first_match(es, key_is(key)) {
            Some(i) => Some(es[i].1),
            None => None,
        },
        _ => None,
    }
}

/// `Value::as_str`.
pub open spec fn jstr(v: Option<JVal>) -> Option<Seq<char>> {
    match v {
        Some(JVal::Str(s)) => Some(s),
        _ => None,
    }
}

/// `Value::as_i64`.
pub open spec fn jint(v: Option<JVal>) -> Option<i64> {
    match v {
        Some(JVal::Number(Some(i), _)) => Some(i),
        _ => None,
    }
}

/// `Value::as_bool`.
pub open spec fn jbool(v: Option<JVal>) -> Option<bool> {
    match v {
        Some(JVal::Bool(b)) => Some(b),
        _ => None,
    }
}

/// `Value::as_array`.
pub open spec fn jarray(v: Option<JVal>) -> Option<Seq<JVal>> {
    match v {
        Some(JVal::Array(a)) => Some(a),
        _ => None,
    }
}

/// A member of an object value, when the value is an object holding the key.
#[verifier::loop_isolation(false)]
pub fn get<'a>(v: &'a Json, key: &str) -> (r: Option<&'a Json>)
    ensures
        match r {
            Some(x) => jget(jv(*v), key@) == Some(jv(*x)),
            None => jget(jv(*v), key@) is None,
        },
{
    match v {
        Json::Object(m) => {
            let k = chars_of(key);
            let ghost es = jv_entries(m@);
            let ghost f = key_is(key@);
            proof {
                lemma_jv_entries(m@);
            }
            assert(jv(*v) == JVal::Object(es));
            let mut i: usize = 0;
            while i < m.len()
                invariant
                    i <= m@.len(),
                    es == jv_entries(m@),
                    es.len() == m@.len(),
                    forall|j: int| 0 <= j < m@.len() ==> #[trigger] es[j] == (m@[j].0@, jv(m@[j].1)),
                    f == key_is(key@),
                    k@ == key@,
                    forall|j: int| 0 <= j < i ==> !f(#[trigger] es[j]),
                decreases m@.len() - i,
            {
                if eq_chars(chars_of(m[i].0.as_str()).as_slice(), k.as_slice()) {
                    proof {
                        lemma_first_match_at(es, f, i as int);
                    }
                    let x = &m[i].1;
                    assert(es[i as int].1 == jv(*x));
                    assert(first_match(es, key_is(key@)) == Some(i as int));
                    return Some(x);
                }
                i = i + 1;
            }
            proof {
                lemma_first_match_at(es, f, i as int);
            }
            None
        },
        _ => None,
    }
}

/// `Value::as_str` on an optional value.
pub fn as_str<'a>(v: Option<&'a Json>) -> (r: Option<&'a str>)
    ensures
        match r {
            Some(s) => jstr(opt_jv(v)) == Some(s@),
            None => jstr(opt_jv(v)) is None,
        },
{
    match v {
        Some(Json::Str(s)) => Some(s.as_str()),
        _ => None,
    }
}

/// `Value::as_i64` on an optional value.
pub fn as_i64(v: Option<&Json>) -> (r: Option<i64>)
    ensures
        r == jint(opt_jv(v)),
{
    match v {
        Some(Json::Number(n)) => n.int,
        _ => None,
    }
}

/// `Value::as_bool` on an optional value.
pub fn as_bool(v: Option<&Json>) -> (r: Option<bool>)
    ensures
        r == jbool(opt_jv(v)),
{
    match v {
        Some(Json::Bool(b)) => Some(*b),
        _ => None,
    }
}

/// `Value::as_array` on an optional value.
pub fn as_array<'a>(v: Option<&'a Json>) -> (r: Option<&'a Vec<Json>>)
    ensures
        match r {
            Some(a) => jarray(opt_jv(v)) == Some(jv_list(a@)),
            None => jarray(opt_jv(v)) is None,
        },
{
    match v {
        Some(Json::Array(a)) => Some(a),
        _ => None,
    }
}

/// The view of an optional reference.
pub open spec fn opt_jv(v: Option<&Json>) -> Option<JVal> {
    match v {
        Some(x) => Some(jv(*x)),
        None => None,
    }
}

/// A copy of a value.
#[verifier::loop_isolation(false)]
pub fn copy_json(v: &Json) -> (r: Json)
    ensures
        jv(r) == jv(*v),
    decreases v,
{
    match v {
        Json::Null => Json::Null,
        Json::Bool(b) => Json::Bool(*b),
        Json::Number(n) => Json::Number(JsonNumber { int: n.int, text: n.text.clone() }),
        Json::Str(s) => Json::Str(s.clone()),
        Json::Array(a) => {
            let mut out: Vec<Json> = Vec::new();
            let mut i: usize = 0;
            proof {
                lemma_jv_list(a@);
            }
            while i < a.len()
                invariant
                    i <= a@.len(),
                    jv_list(out@) == jv_list(a@.take(i as int)),
                decreases a@.len() - i,
            {
                proof {
                    assert(decreases_to!(a => a[i as int]));
                }
                let x = copy_json(&a[i]);
                let ghost prev = out@;
                out.push(x);
                assert(out@.drop_last() =~= prev);
                assert(a@.take(i + 1).drop_last() =~= a@.take(i as int));
                i = i + 1;
            }
            assert(a@.take(i as int) =~= a@);
            Json::Array(out)
        },
        Json::Object(m) => {
            let mut out: Vec<(String, Json)> = Vec::new();
            let mut i: usize = 0;
            while i < m.len()
                invariant
                    i <= m@.len(),
                    jv_entries(out@) == jv_entries(m@.take(i as int)),
                decreases m@.len() - i,
            {
                proof {
                    assert(decreases_to!(m => m[i as int]));
                    assert(decreases_to!(m[i as int] => m[i as int].1));
                }
                let x = copy_json(&m[i].1);
                let k = m[i].0.clone();
                let ghost prev = out@;
                out.push((k, x));
                assert(out@.drop_last() =~= prev);
                assert(m@.take(i + 1).drop_last() =~= m@.take(i as int));
                i = i + 1;
            }
            assert(m@.take(i as int) =~= m@);
            Json::Object(out)
        },
    }
}

/// The view of an optional value.
pub open spec fn opt_json(v: Option<Json>) -> Option<JVal> {
    match v {
        Some(x) => Some(jv(x)),
        None => None,
    }
}

#[verifier::external_type_specification]
#[verifier::external_body]
pub struct ExJsonValue(serde_json::Value);

/// What `serde_json::from_str::<serde_json::Value>` makes of a text: the
/// parsed value, or nothing when the text is not JSON.
pub uninterp spec fn json_parse(text: Seq<char>) -> Option<JVal>;

/// Moves a parsed `serde_json::Value` into the library's [`Json`], variant
/// for variant: a number keeps `as_i64` and its JSON text, an object keeps
/// its (sorted, unique) keys in order.
#[verifier::external_body]
fn json_from_value(v: serde_json::Value) -> Json {
    match v {
        serde_json::Value::Null => Json::Null,
        serde_json::Value::Bool(b) => Json::Bool(b),
        serde_json::Value::Number(n) => Json::Number(JsonNumber { int: n.as_i64(), text: n.to_string() }),
        serde_json::Value::String(s) => Json::Str(s),
        serde_json::Value::Array(a) => Json::Array(a.into_iter().map(json_from_value).collect()),
        serde_json::Value::Object(m) => Json::Object(m.into_iter().map(|(k, x)| (k, json_from_value(x))).collect()),
    }
}

/// Parses a JSON text with `serde_json::from_str`. The contract claims only
/// that the result is a function of the text (named [`json_parse`]): `None`
/// exactly when serde_json rejects the text.
#[verifier::external_body]
pub(crate) fn parse_json(text: &str) -> (r: Option<Json>)
    ensures
        opt_json(r) == json_parse(text@),
{
    match serde_json::from_str::<serde_json::Value>(text) {
        Ok(v) => Some(json_from_value(v)),
        Err(_) => None,
    }
}

/// What `serde_json` writes for a value: `serde_json::Value`'s `Display`,
/// compact JSON.
pub uninterp spec fn json_text(v: JVal) -> Seq<char>;

/// Moves a [`Json`] back into a `serde_json::Value`, variant for variant; a
/// number is read back from its text.
#[verifier::external_body]
fn value_from_json(v: &Json) -> serde_json::Value {
    match v {
        Json::Null => serde_json::Value::Null,
        Json::Bool(b) => serde_json::Value::Bool(*b),
        Json::Number(n) => n.text.parse::<serde_json::Number>().map_or(serde_json::Value::Null, serde_json::Value::Number),
        Json::Str(s) => serde_json::Value::String(s.clone()),
        Json::Array(a) => serde_json::Value::Array(a.iter().map(value_from_json).collect()),
        Json::Object(m) => serde_json::Value::Object(m.iter().map(|(k, x)| (k.clone(), value_from_json(x))).collect()),
    }
}

/// `serde_json::Value::to_string`: the compact JSON text of a value. The
/// contract claims only that the text is a function of the value (named
/// [`json_text`]).
#[verifier::external_body]
pub(crate) fn json_string(v: &Json) -> (r: String)
    ensures
        r@ == json_text(jv(*v)),
{
    value_from_json(v).to_string()
}

} // verus!
