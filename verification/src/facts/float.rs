//! Decimal quantities in every spelling `str::parse::<f64>` accepts: an
//! optional sign, then `inf`, `infinity` or `nan` in any case, or digits with
//! an optional point and an optional exponent. The value is taken exactly,
//! as a decimal, not rounded to the nearest `f64` first, so a literal with
//! more significant digits than an `f64` holds can round differently.

use vstd::prelude::*;
use crate::text::{
    all_digits, all_digits_of, ascii_lower, ascii_lower_of, chars_of, digit_value, digits_value, digits_value_sat,
    eq_chars, first_match, is_digit, lemma_digits_nonneg, lemma_first_match_at,
};
use crate::facts::parse::{decimal_parts, decimal_parts_of, round_div, round_div_of};

verus! {

/// An exponent mark.
pub open spec fn is_exp_mark(c: char) -> bool {
    c == 'e' || c == 'E'
}

/// An exponent: an optional sign, then one or more digits.
pub open spec fn exponent(t: Seq<char>) -> Option<int> {
    let signed = t.len() > 0 && (t[0] == '+' || t[0] == '-');
    let body = if signed {
        t.drop_first()
    } else {
        t
    };
    if body.len() > 0 && all_digits(body) {
        Some(
            if t.len() > 0 && t[0] == '-' {
                -digits_value(body)
            } else {
                digits_value(body)
            },
        )
    } else {
        None
    }
}

/// `n` zero digits.
pub open spec fn zeros(n: int) -> Seq<char> {
    Seq::new(n as nat, |i: int| '0')
}

/// The integer and fraction digits of the digits `d` with the point placed
/// after `p` of them (before the first when `p` is not positive).
pub open spec fn shifted(d: Seq<char>, p: int) -> (Seq<char>, Seq<char>) {
    if p <= 0 {
        (seq![], zeros(-p) + d)
    } else if p <= d.len() {
        (d.take(p), d.skip(p))
    } else {
        (d + zeros(p - d.len()), seq![])
    }
}

/// An infinity saturates; not-a-number rounds to 0 (`as i64`).
pub open spec fn special_float(s: Seq<char>) -> Option<i64> {
    let signed = s.len() > 0 && (s[0] == '+' || s[0] == '-');
    let neg = s.len() > 0 && s[0] == '-';
    let body = ascii_lower(
        if signed {
            s.drop_first()
        } else {
            s
        },
    );
    if body == "inf"@ || body == "infinity"@ {
        Some(
            if neg {
                i64::MIN
            } else {
                i64::MAX
            },
        )
    } else if body == "nan"@ {
        Some(0)
    } else {
        None
    }
}

/// A float literal with its point moved `shift` places right, divided by
/// `div`, rounded half away from zero and saturated to `i64`: what
/// `s.parse::<f64>().ok().map(|x| (x * 10^shift / div).round() as i64)`
/// gives, taken on the literal's exact decimal value rather than on the
/// nearest `f64`.
pub open spec fn float_round(s: Seq<char>, shift: int, div: int) -> Option<i64> {
    match special_float(s) {
        Some(v) => Some(v),
        None => match first_match(s, |c: char| is_exp_mark(c)) {
            None => match decimal_parts(s) {
                Some(m) => {
                    let sh = shifted(m.1 + m.2, m.1.len() + shift);
                    Some(round_div(m.0, sh.0, sh.1, div))
                },
                None => None,
            },
            Some(i) => match (decimal_parts(s.take(i)), exponent(s.skip(i + 1))) {
                (Some(m), Some(e)) => {
                    let sh = shifted(m.1 + m.2, m.1.len() + e + shift);
                    Some(round_div(m.0, sh.0, sh.1, div))
                },
                _ => None,
            },
        },
    }
}

pub open spec fn pow10(n: nat) -> int
    decreases n,
{
    if n == 0 {
        1
    } else {
        10 * pow10((n - 1) as nat)
    }
}

proof fn lemma_pow10_grows(m: nat, n: nat)
    requires
        m <= n,
    ensures
        pow10(m) <= pow10(n),
        pow10(m) >= 1,
    decreases n,
{
    if n > m {
        lemma_pow10_grows(m, (n - 1) as nat);
    } else if m > 0 {
        lemma_pow10_grows((m - 1) as nat, (m - 1) as nat);
    }
}

/// Trailing zeros multiply by ten each.
proof fn lemma_value_zeros(d: Seq<char>, m: nat)
    ensures
        digits_value(d + zeros(m as int)) == digits_value(d) * pow10(m),
    decreases m,
{
    if m == 0 {
        assert(d + zeros(0) =~= d);
    } else {
        lemma_value_zeros(d, (m - 1) as nat);
        let t = d + zeros(m as int);
        assert(t.drop_last() =~= d + zeros(m - 1));
        assert(t.last() == '0');
        assert(digit_value('0') == 0);
        assert(digits_value(d) * pow10(m) == 10 * (digits_value(d) * pow10((m - 1) as nat))) by (nonlinear_arith)
            requires
                pow10(m) == 10 * pow10((m - 1) as nat),
        ;
    }
}

/// Digits that are all `0` are worth 0.
proof fn lemma_value_all_zero(d: Seq<char>)
    requires
        forall|j: int| 0 <= j < d.len() ==> #[trigger] d[j] == '0',
    ensures
        digits_value(d) == 0,
    decreases d.len(),
{
    if d.len() > 0 {
        assert(digit_value('0') == 0);
        lemma_value_all_zero(d.drop_last());
    }
}

/// Digits with a nonzero one are worth at least 1.
proof fn lemma_value_positive(d: Seq<char>, k: int)
    requires
        all_digits(d),
        0 <= k < d.len(),
        d[k] != '0',
    ensures
        digits_value(d) >= 1,
    decreases d.len(),
{
    assert(all_digits(d.drop_last())) by {
        assert forall|i: int| 0 <= i < d.drop_last().len() implies is_digit(#[trigger] d.drop_last()[i]) by {
            assert(d.drop_last()[i] == d[i]);
        }
    }
    lemma_digits_nonneg(d.drop_last());
    assert(is_digit(d[d.len() - 1]));
    if k < d.len() - 1 {
        assert(d.drop_last()[k] == d[k]);
        lemma_value_positive(d.drop_last(), k);
    } else {
        assert(digit_value(d.last()) >= 1);
    }
}

/// Far enough right of nonzero digits, the point makes the quotient
/// overflow `i64`.
proof fn lemma_round_huge(neg: bool, d: Seq<char>, p: int, div: int, k: int)
    requires
        all_digits(d),
        0 <= k < d.len(),
        d[k] != '0',
        p >= d.len() + 25,
        1 <= div <= 1024,
    ensures
        round_div(neg, shifted(d, p).0, shifted(d, p).1, div) == (if neg {
            i64::MIN
        } else {
            i64::MAX
        }),
{
    let m = (p - d.len()) as nat;
    lemma_value_zeros(d, m);
    lemma_value_positive(d, k);
    lemma_pow10_grows(25, m);
    assert(pow10(25) == 10000000000000000000000000int) by {
        reveal_with_fuel(pow10, 26);
    }
    let w = digits_value(d + zeros(m as int));
    assert(w >= pow10(m)) by (nonlinear_arith)
        requires
            w == digits_value(d) * pow10(m),
            digits_value(d) >= 1,
            pow10(m) >= 1,
    ;
    assert(w / div >= 10000000000000000000000000int / 1024) by (nonlinear_arith)
        requires
            w >= 10000000000000000000000000int,
            1 <= div <= 1024,
    ;
    assert(shifted(d, p).0 == d + zeros(m as int));
    assert(shifted(d, p).1.len() == 0);
}

/// Zero digits round to 0, wherever the point goes.
proof fn lemma_round_zero(neg: bool, d: Seq<char>, p: int, div: int)
    requires
        forall|j: int| 0 <= j < d.len() ==> #[trigger] d[j] == '0',
        1 <= div <= 1024,
    ensures
        round_div(neg, shifted(d, p).0, shifted(d, p).1, div) == 0,
{
    let sh = shifted(d, p);
    assert forall|j: int| 0 <= j < sh.0.len() implies #[trigger] sh.0[j] == '0' by {
        if p > 0 && p > d.len() && j >= d.len() {
            assert(sh.0[j] == zeros(p - d.len())[j - d.len()]);
        }
    }
    lemma_value_all_zero(sh.0);
    if sh.1.len() > 0 {
        if p <= 0 {
            if -p > 0 {
                assert(sh.1[0] == zeros(-p)[0]);
            } else {
                assert(sh.1[0] == d[0]);
            }
        } else {
            assert(sh.1[0] == d[p]);
        }
        assert(digit_value('0') == 0);
    }
}

/// With the point before a zero digit, the quotient rounds to 0.
proof fn lemma_round_small(neg: bool, d: Seq<char>, p: int, div: int)
    requires
        p <= -1,
        1 <= div <= 1024,
    ensures
        round_div(neg, shifted(d, p).0, shifted(d, p).1, div) == 0,
{
    let sh = shifted(d, p);
    assert(sh.0 =~= Seq::<char>::empty());
    assert(digits_value(sh.0) == 0);
    assert(sh.1[0] == zeros(-p)[0]);
    assert(digit_value('0') == 0);
}


fn special_of(s: &[char]) -> (r: Option<i64>)
    ensures
        r == special_float(s@),
{
    let n = s.len();
    let signed = n > 0 && (s[0] == '+' || s[0] == '-');
    let neg = n > 0 && s[0] == '-';
    let start: usize = if signed {
        1
    } else {
        0
    };
    let body = &s[start..n];
    assert(body@ =~= (if signed {
        s@.drop_first()
    } else {
        s@
    }));
    let low = ascii_lower_of(body);
    if eq_chars(low.as_slice(), chars_of("inf").as_slice()) || eq_chars(
        low.as_slice(),
        chars_of("infinity").as_slice(),
    ) {
        Some(
            if neg {
                i64::MIN
            } else {
                i64::MAX
            },
        )
    } else if eq_chars(low.as_slice(), chars_of("nan").as_slice()) {
        Some(0)
    } else {
        None
    }
}

/// The digits `d` with the point after `p` of them, for `0 <= p`.
fn shifted_of(d: &Vec<char>, p: u128) -> (r: (Vec<char>, Vec<char>))
    requires
        p <= d@.len() + 25,
    ensures
        (r.0@, r.1@) == shifted(d@, p as int),
{
    if p <= d.len() as u128 {
        let q = p as usize;
        let ip = vstd::slice::slice_to_vec(&d.as_slice()[0..q]);
        let fp = vstd::slice::slice_to_vec(&d.as_slice()[q..d.len()]);
        assert(ip@ =~= d@.take(q as int));
        assert(fp@ =~= d@.skip(q as int));
        if q == 0 {
            assert(zeros(0) + d@ =~= d@);
            assert(d@.take(0) =~= Seq::<char>::empty());
            assert(d@.skip(0) =~= d@);
        }
        (ip, fp)
    } else {
        let extra = (p - d.len() as u128) as usize;
        let mut ip = d.clone();
        assert(ip@ =~= d@);
        let mut k: usize = 0;
        while k < extra
            invariant
                k <= extra,
                ip@ == d@ + zeros(k as int),
            decreases extra - k,
        {
            ip.push('0');
            k = k + 1;
            assert(ip@ =~= d@ + zeros(k as int));
        }
        (ip, Vec::new())
    }
}

/// Whether some digit is not `0`.
fn nonzero_at(d: &Vec<char>) -> (r: Option<usize>)
    ensures
        match r {
            Some(k) => k < d@.len() && d@[k as int] != '0',
            None => forall|j: int| 0 <= j < d@.len() ==> #[trigger] d@[j] == '0',
        },
{
    let mut i: usize = 0;
    while i < d.len()
        invariant
            i <= d@.len(),
            forall|j: int| 0 <= j < i ==> #[trigger] d@[j] == '0',
        decreases d@.len() - i,
    {
        if d[i] != '0' {
            return Some(i);
        }
        i = i + 1;
    }
    None
}

/// See [`float_round`].
pub(crate) fn float_round_of(s: &[char], shift: u32, div: u32) -> (r: Option<i64>)
    requires
        shift <= 3,
        1 <= div <= 1024,
    ensures
        r == float_round(s@, shift as int, div as int),
{
    if let Some(v) = special_of(s) {
        return Some(v);
    }
    let mut i: usize = 0;
    while i < s.len() && !(s[i] == 'e' || s[i] == 'E')
        invariant
            i <= s@.len(),
            forall|j: int| 0 <= j < i ==> !is_exp_mark(#[trigger] s@[j]),
        decreases s@.len() - i,
    {
        i = i + 1;
    }
    proof {
        lemma_first_match_at(s@, |c: char| is_exp_mark(c), i as int);
    }
    let limit: u128 = 0x1000_0000_0000_0000_0000_0000;
    let has_exp = i < s.len();
    let mant = &s[0..i];
    assert(mant@ =~= s@.take(i as int));
    if !has_exp {
        assert(mant@ =~= s@);
    }
    let (neg, ip, fp) = match decimal_parts_of(mant) {
        Some(p) => p,
        None => return None,
    };
    let ghost mut e: int = 0;
    let mut eneg = false;
    let mut ev: u128 = 0;
    if has_exp {
        let t = &s[i + 1..s.len()];
        assert(t@ =~= s@.skip(i + 1));
        let tn = t.len();
        let esigned = tn > 0 && (t[0] == '+' || t[0] == '-');
        eneg = tn > 0 && t[0] == '-';
        let from: usize = if esigned {
            1
        } else {
            0
        };
        let ghost body = if esigned {
            t@.drop_first()
        } else {
            t@
        };
        assert(t@.subrange(from as int, tn as int) =~= body);
        if from == tn || !all_digits_of(t, from, tn) {
            return None;
        }
        ev = digits_value_sat(t, from, tn, limit);
        proof {
            e = exponent(t@)->0;
        }
    }
    assert(eneg ==> e <= 0);
    assert(ev <= limit ==> ev == (if eneg { -e } else { e }));
    assert(ev > limit ==> (if eneg { -e } else { e }) > limit);
    let mut d = ip.clone();
    let mut fpc = fp.clone();
    assert(d@ =~= ip@);
    d.append(&mut fpc);
    let ghost dg = ip@ + fp@;
    assert(d@ =~= dg);
    assert(all_digits(dg)) by {
        assert forall|j: int| 0 <= j < dg.len() implies is_digit(#[trigger] dg[j]) by {
            if j < ip@.len() {
                assert(dg[j] == ip@[j]);
            } else {
                assert(dg[j] == fp@[j - ip@.len()]);
            }
        }
    }
    let ghost pt = ip@.len() + e + shift;
    let li = ip.len() as u128;
    let lf = fp.len() as u128;
    let k = shift as u128;
    if !eneg {
        if ev > limit || ev + k >= lf + 25 {
            proof {
                assert(pt >= dg.len() + 25);
            }
            match nonzero_at(&d) {
                Some(z) => {
                    proof {
                        lemma_round_huge(neg, dg, pt, div as int, z as int);
                    }
                    return Some(
                        if neg {
                            i64::MIN
                        } else {
                            i64::MAX
                        },
                    );
                },
                None => {
                    proof {
                        lemma_round_zero(neg, dg, pt, div as int);
                    }
                    return Some(0);
                },
            }
        }
        let p = li + ev + k;
        assert(p as int == pt);
        let (a, b) = shifted_of(&d, p);
        Some(round_div_of(neg, a.as_slice(), b.as_slice(), div))
    } else {
        if ev > limit || ev >= li + k + 1 {
            proof {
                assert(pt <= -1);
                lemma_round_small(neg, dg, pt, div as int);
            }
            return Some(0);
        }
        let p = li + k - ev;
        assert(p as int == pt);
        let (a, b) = shifted_of(&d, p);
        Some(round_div_of(neg, a.as_slice(), b.as_slice(), div))
    }
}

} // verus!
