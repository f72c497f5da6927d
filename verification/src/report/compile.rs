//! The compiler-log excerpt a failed build reports: the tail of XeLaTeX's
//! output, cut at a character boundary.

use vstd::prelude::*;

verus! {

/// Whether a byte continues a UTF-8 sequence (`10xxxxxx`).
pub open spec fn is_continuation(b: u8) -> bool {
    0x80 <= b && b < 0xC0
}

/// The first char boundary at or after `i`: the first position that is the
/// end of the text or does not hold a continuation byte.
pub open spec fn boundary_from(text: Seq<u8>, i: int) -> int
    decreases text.len() - i,
{
    if i >= text.len() || !is_continuation(text[i]) {
        i
    } else {
        boundary_from(text, i + 1)
    }
}

proof fn lemma_boundary(text: Seq<u8>, i: int)
    requires
        0 <= i <= text.len(),
    ensures
        i <= boundary_from(text, i) <= text.len(),
        boundary_from(text, i) < text.len() ==> !is_continuation(text[boundary_from(text, i)]),
    decreases text.len() - i,
{
    if i < text.len() && is_continuation(text[i]) {
        lemma_boundary(text, i + 1);
    }
}

/// The last `max_bytes` bytes of a UTF-8 text, moved forward to a
/// character boundary so the excerpt is itself valid UTF-8.
pub open spec fn tail_spec(text: Seq<u8>, max_bytes: int) -> Seq<u8> {
    let start = if text.len() > max_bytes {
        text.len() - max_bytes
    } else {
        0
    };
    text.skip(boundary_from(text, start))
}

/// The last `max_bytes` bytes of a UTF-8 text (given as its bytes), moved
/// forward to a character boundary.
pub fn tail(text: &[u8], max_bytes: usize) -> (r: Vec<u8>)
    ensures
        r@ == tail_spec(text@, max_bytes as int),
        r@.len() <= max_bytes,
        r@ == text@.skip(text@.len() - r@.len()),
        r@.len() > 0 ==> !is_continuation(r@[0]),
{
    let start: usize = if text.len() > max_bytes {
        text.len() - max_bytes
    } else {
        0
    };
    let mut i: usize = start;
    while i < text.len() && 0x80 <= text[i] && text[i] < 0xC0
        invariant
            start <= i <= text@.len(),
            boundary_from(text@, start as int) == boundary_from(text@, i as int),
        decreases text@.len() - i,
    {
        i = i + 1;
    }
    let r = vstd::slice::slice_to_vec(&text[i..text.len()]);
    assert(r@ =~= text@.skip(i as int));
    proof {
        lemma_boundary(text@, start as int);
    }
    r
}

} // verus!
