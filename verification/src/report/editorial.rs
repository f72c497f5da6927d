//! Editorial prose fragments: committed LaTeX with `@@key@@` placeholders
//! for computed values. Authored analysis lives there as data, so a report
//! cycle edits fragments, not compiled code.

use vstd::prelude::*;
use crate::text::{chars_of, eq_chars, find_text, find_text_of, lemma_find_text_from, put_chars, string_from};
use crate::report::narrative::string_pairs;

verus! {

/// Why a fragment could not be rendered.
#[derive(Debug, Clone, PartialEq, Eq)]
pub enum FragmentError {
    /// An `@@` marker opens a placeholder that never closes.
    UnterminatedPlaceholder,
    /// A placeholder names a key with no value.
    UnknownPlaceholder {
        /// The key, as written between the markers.
        key: String,
    },
}

/// The abstract content of a [`FragmentError`].
pub enum FragmentFault {
    Unterminated,
    Unknown(Seq<char>),
}

pub open spec fn fault_of(e: FragmentError) -> FragmentFault {
    match e {
        FragmentError::UnterminatedPlaceholder => FragmentFault::Unterminated,
        FragmentError::UnknownPlaceholder { key } => FragmentFault::Unknown(key@),
    }
}

/// A value by key: the last entry for it.
pub open spec fn value_for(values: Seq<(Seq<char>, Seq<char>)>, key: Seq<char>) -> Option<Seq<char>>
    decreases values.len(),
{
    if values.len() == 0 {
        None
    } else if values.last().0 == key {
        Some(values.last().1)
    } else {
        value_for(values.drop_last(), key)
    }
}

/// A fragment with every `@@key@@` replaced by its value, left to right;
/// the first unterminated marker or unknown key is the error.
pub open spec fn rendered(text: Seq<char>, values: Seq<(Seq<char>, Seq<char>)>) -> Result<Seq<char>, FragmentFault>
    decreases text.len(),
{
    match find_text(text, "@@"@) {
        None => Ok(text),
        Some(start) => if 0 <= start && start + 2 <= text.len() {
            let after = text.skip(start + 2);
            match find_text(after, "@@"@) {
                None => Err(FragmentFault::Unterminated),
                Some(end) => if 0 <= end && end + 2 <= after.len() {
                    let key = after.take(end);
                    match value_for(values, key) {
                        None => Err(FragmentFault::Unknown(key)),
                        Some(v) => match rendered(after.skip(end + 2), values) {
                            Ok(rest) => Ok(text.take(start) + v + rest),
                            Err(e) => Err(e),
                        },
                    }
                } else {
                    Err(FragmentFault::Unterminated)
                },
            }
        } else {
            Ok(text)
        },
    }
}

fn value_of_key<'a>(values: &'a Vec<(String, String)>, key: &[char]) -> (r: Option<&'a String>)
    ensures
        match r {
            Some(v) => value_for(string_pairs(values@), key@) == Some(v@),
            None => value_for(string_pairs(values@), key@) is None,
        },
{
    let ghost vs = string_pairs(values@);
    let mut i: usize = values.len();
    assert(vs.take(i as int) =~= vs);
    while i > 0
        invariant
            i <= values@.len(),
            vs == string_pairs(values@),
            value_for(vs, key@) == value_for(vs.take(i as int), key@),
        decreases i,
    {
        let p = &values[i - 1];
        assert(vs.take(i as int).last() == (p.0@, p.1@));
        assert(vs.take(i as int).drop_last() =~= vs.take(i - 1));
        if eq_chars(chars_of(p.0.as_str()).as_slice(), key) {
            return Some(&p.1);
        }
        i = i - 1;
    }
    None
}

/// Substitutes every `@@key@@` placeholder from `values` (the last entry
/// for a key wins). Unknown keys and unterminated markers are errors — a
/// silently skipped placeholder would ship a report with a hole in it.
pub fn render_fragment(text: &str, values: &Vec<(String, String)>) -> (r: Result<String, FragmentError>)
    ensures
        match r {
            Ok(s) => rendered(text@, string_pairs(values@)) == Ok::<Seq<char>, FragmentFault>(s@),
            Err(e) => rendered(text@, string_pairs(values@)) == Err::<Seq<char>, FragmentFault>(fault_of(e)),
        },
{
    let ghost vs = string_pairs(values@);
    let marker = chars_of("@@");
    proof {
        reveal_strlit("@@");
    }
    let mut out: Vec<char> = Vec::new();
    let mut rest: Vec<char> = chars_of(text);
    loop
        invariant
            marker@ == "@@"@,
            vs == string_pairs(values@),
            forall|x: Seq<char>| rendered(rest@, vs) == Ok::<Seq<char>, FragmentFault>(x) ==> rendered(text@, vs) == Ok::<Seq<char>, FragmentFault>(out@ + x),
            forall|e: FragmentFault| rendered(rest@, vs) == Err::<Seq<char>, FragmentFault>(e) ==> rendered(text@, vs) == Err::<Seq<char>, FragmentFault>(e),
        decreases rest@.len(),
    {
        proof {
            reveal_strlit("@@");
            lemma_find_text_from(rest@, "@@"@, 0);
        }
        match find_text_of(rest.as_slice(), marker.as_slice()) {
            None => {
                put_chars(&mut out, rest.as_slice());
                return Ok(string_from(out.as_slice()));
            },
            Some(start) => {
                assert(start + 2 <= rest@.len());
                let n = rest.len();
                let from: usize = start + 2;
                let after = vstd::slice::slice_to_vec(&rest.as_slice()[from..n]);
                assert(after@ =~= rest@.skip(start + 2));
                proof {
                    lemma_find_text_from(after@, "@@"@, 0);
                }
                match find_text_of(after.as_slice(), marker.as_slice()) {
                    None => {
                        return Err(FragmentError::UnterminatedPlaceholder);
                    },
                    Some(end) => {
                        let key = vstd::slice::slice_to_vec(&after.as_slice()[0..end]);
                        assert(key@ =~= after@.take(end as int));
                        match value_of_key(values, key.as_slice()) {
                            None => {
                                return Err(FragmentError::UnknownPlaceholder { key: string_from(key.as_slice()) });
                            },
                            Some(v) => {
                                let ghost old_out = out@;
                                let ghost old_rest = rest@;
                                let head = vstd::slice::slice_to_vec(&rest.as_slice()[0..start]);
                                assert(head@ =~= old_rest.take(start as int));
                                put_chars(&mut out, head.as_slice());
                                put_chars(&mut out, chars_of(v.as_str()).as_slice());
                                rest = vstd::slice::slice_to_vec(&after.as_slice()[end + 2..after.len()]);
                                assert(rest@ =~= after@.skip(end + 2));
                                assert forall|x: Seq<char>| rendered(rest@, vs) == Ok::<Seq<char>, FragmentFault>(x) implies rendered(
                                    text@,
                                    vs,
                                ) == Ok::<Seq<char>, FragmentFault>(out@ + x) by {
                                    assert(rendered(old_rest, vs) == Ok::<Seq<char>, FragmentFault>(
                                        old_rest.take(start as int) + v@ + x,
                                    ));
                                    assert(old_out + (old_rest.take(start as int) + v@ + x) =~= out@ + x);
                                }
                            },
                        }
                    },
                }
            },
        }
    }
}

proof fn lemma_no_marker_from(text: Seq<char>, i: int)
    requires
        0 <= i,
        forall|j: int| 0 <= j ==> !crate::text::occurs_at(text, "@@"@, j),
    ensures
        crate::text::find_text_from(text, "@@"@, i) is None,
    decreases text.len() + 1 - i,
{
    if i + "@@"@.len() <= text.len() {
        lemma_no_marker_from(text, i + 1);
    }
}

/// A fragment without any `@@` marker renders as it is, whatever the
/// values.
pub proof fn law_plain_fragment_passes_through(text: Seq<char>, values: Seq<(Seq<char>, Seq<char>)>)
    requires
        forall|j: int| 0 <= j ==> !crate::text::occurs_at(text, "@@"@, j),
    ensures
        rendered(text, values) == Ok::<Seq<char>, FragmentFault>(text),
{
    lemma_no_marker_from(text, 0);
}

} // verus!
