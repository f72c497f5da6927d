//! The probe snapshot a report reads: one result per status probe.

use vstd::prelude::*;
use crate::text::{chars_of, eq_chars, lemma_text_lt_asymmetric, lemma_text_lt_total, lemma_text_lt_transitive, order_text, string_from, text_lt};

verus! {

/// A probe's outcome.
#[derive(Debug, Clone, Copy, PartialEq, Eq, Structural)]
pub enum ProbeState {
    /// The target answered.
    Up,
    /// The target did not answer.
    Down,
    /// The target is not reachable from where the probe runs.
    Unverifiable,
}

/// One probe result.
#[derive(Debug, Clone)]
pub struct ProbeResult {
    /// Probe id (matches a device id where the probe targets one).
    pub id: String,
    /// Human-readable description.
    pub desc: String,
    /// Outcome.
    pub state: ProbeState,
    /// Evidence for the outcome.
    pub detail: String,
}

/// A dated status snapshot.
#[derive(Debug, Clone)]
pub struct Snapshot {
    /// When the snapshot was taken.
    pub generated_at: String,
    /// One result per probe.
    pub results: Vec<ProbeResult>,
}

/// The abstract content of a [`ProbeResult`].
#[verifier::ext_equal]
pub struct ResultModel {
    pub id: Seq<char>,
    pub desc: Seq<char>,
    pub state: ProbeState,
    pub detail: Seq<char>,
}

impl View for ProbeResult {
    type V = ResultModel;

    open spec fn view(&self) -> ResultModel {
        ResultModel { id: self.id@, desc: self.desc@, state: self.state, detail: self.detail@ }
    }
}

/// Whether a file name carries the `json` extension: it ends in `.json`
/// and that dot is not its first character.
pub open spec fn is_json_name(name: Seq<char>) -> bool {
    name.len() > 5 && name.skip(name.len() - 5) == ".json"@
}

/// The file stem of a `.json` name: the name without its extension.
pub open spec fn json_stem(name: Seq<char>) -> Seq<char> {
    name.take(name.len() - 5)
}

fn json_name(name: &[char]) -> (r: bool)
    ensures
        r == is_json_name(name@),
{
    let ext = chars_of(".json");
    proof {
        reveal_strlit(".json");
    }
    if name.len() <= 5 {
        return false;
    }
    let n = name.len();
    let tail = &name[n - 5..n];
    assert(tail@ =~= name@.skip(n - 5));
    eq_chars(tail, ext.as_slice())
}

/// Picks the snapshot to report on among a status directory's file names:
/// the lexicographically last `.json` name (dates are ISO, so that is the
/// newest), or `None` when there is none.
pub fn newest_snapshot(names: &Vec<String>) -> (r: Option<usize>)
    ensures
        r is None <==> forall|i: int| 0 <= i < names@.len() ==> !is_json_name(#[trigger] names@[i]@),
        r matches Some(k) ==> {
            &&& k < names@.len()
            &&& is_json_name(names@[k as int]@)
            &&& forall|i: int|
                0 <= i < names@.len() && is_json_name(#[trigger] names@[i]@) ==> !text_lt(names@[k as int]@, names@[i]@)
        },
{
    let mut best: Option<usize> = None;
    let mut i: usize = 0;
    while i < names.len()
        invariant
            i <= names@.len(),
            best is None <==> forall|j: int| 0 <= j < i ==> !is_json_name(#[trigger] names@[j]@),
            best matches Some(k) ==> {
                &&& k < i
                &&& is_json_name(names@[k as int]@)
                &&& forall|j: int| 0 <= j < i && is_json_name(#[trigger] names@[j]@) ==> !text_lt(names@[k as int]@, names@[j]@)
            },
        decreases names@.len() - i,
    {
        let c = chars_of(names[i].as_str());
        if json_name(c.as_slice()) {
            match best {
                None => {
                    proof {
                        crate::text::lemma_text_lt_irreflexive(names@[i as int]@);
                    }
                    best = Some(i);
                },
                Some(k) => {
                    let o = order_text(chars_of(names[k].as_str()).as_slice(), c.as_slice());
                    if o < 0 {
                        proof {
                            assert forall|j: int| 0 <= j <= i && is_json_name(#[trigger] names@[j]@) implies !text_lt(
                                names@[i as int]@,
                                names@[j]@,
                            ) by {
                                if j < i {
                                    lemma_text_lt_total(names@[k as int]@, names@[j]@);
                                    if text_lt(names@[i as int]@, names@[j]@) {
                                        lemma_text_lt_transitive(names@[k as int]@, names@[i as int]@, names@[j]@);
                                    }
                                    if names@[k as int]@ == names@[j]@ {
                                        lemma_text_lt_asymmetric(names@[k as int]@, names@[i as int]@);
                                    }
                                } else {
                                    crate::text::lemma_text_lt_irreflexive(names@[i as int]@);
                                }
                            }
                        }
                        best = Some(i);
                    }
                },
            }
        }
        i = i + 1;
    }
    best
}

/// The status date a snapshot file name carries: its stem.
pub fn snapshot_date(name: &str) -> (r: String)
    requires
        is_json_name(name@),
    ensures
        r@ == json_stem(name@),
{
    let c = chars_of(name);
    let n = c.len();
    let stem = &c.as_slice()[0..n - 5];
    assert(stem@ =~= json_stem(name@));
    string_from(stem)
}

} // verus!
