//! Decimal amounts written as text: an optional sign, digits, and an optional
//! `.` followed by more digits, with at least one digit in all.
use vstd::prelude::*;
use crate::text::{all_digits, digit_pred, is_digit, lemma_run_len, run_len};

verus! {

pub open spec fn sign_len(s: Seq<char>) -> nat {
    if s.len() > 0 && (s[0] == '+' || s[0] == '-') {
        1
    } else {
        0
    }
}

pub open spec fn is_negative(s: Seq<char>) -> bool {
    s.len() > 0 && s[0] == '-'
}

/// The text after the sign.
pub open spec fn magnitude(s: Seq<char>) -> Seq<char> {
    s.skip(sign_len(s) as int)
}

/// Where the whole-number digits end within the magnitude.
pub open spec fn point_at(s: Seq<char>) -> nat {
    run_len(magnitude(s), digit_pred())
}

pub open spec fn int_digits(s: Seq<char>) -> Seq<char> {
    magnitude(s).take(point_at(s) as int)
}

pub open spec fn frac_digits(s: Seq<char>) -> Seq<char> {
    if point_at(s) < magnitude(s).len() {
        magnitude(s).skip((point_at(s) + 1) as int)
    } else {
        Seq::empty()
    }
}

pub open spec fn is_decimal(s: Seq<char>) -> bool {
    let m = magnitude(s);
    let k = point_at(s);
    &&& int_digits(s).len() + frac_digits(s).len() > 0
    &&& (k == m.len() || (m[k as int] == '.' && all_digits(frac_digits(s))))
}

/// The fractional digits are all zero (or there are none).
pub open spec fn frac_is_zero(s: Seq<char>) -> bool {
    forall|i: int| 0 <= i < frac_digits(s).len() ==> #[trigger] frac_digits(s)[i] == '0'
}

/// Where the magnitude starts and where its whole-number digits end, if `v`
/// is a decimal amount.
#[verifier::loop_isolation(false)]
pub fn split_decimal(v: &Vec<char>) -> (r: Option<(usize, usize)>)
    ensures
        r is Some <==> is_decimal(v@),
        match r {
            Some((a, p)) => {
                &&& a == sign_len(v@)
                &&& a <= p <= v.len()
                &&& p - a == point_at(v@)
                &&& int_digits(v@) == v@.subrange(a as int, p as int)
                &&& frac_digits(v@) == if p < v.len() {
                    v@.subrange(p + 1, v.len() as int)
                } else {
                    Seq::empty()
                }
            },
            None => true,
        },
{
    let mut a: usize = 0;
    if v.len() > 0 && (v[0] == '+' || v[0] == '-') {
        a = 1;
    }
    let ghost m = v@.skip(a as int);
    assert(m == magnitude(v@));
    let mut p: usize = a;
    while p < v.len() && ('0' <= v[p] && v[p] <= '9')
        invariant
            a <= p <= v.len(),
            m == v@.skip(a as int),
            forall|j: int| a <= j < p ==> is_digit(#[trigger] v@[j]),
        decreases v.len() - p,
    {
        p += 1;
    }
    proof {
        assert forall|j: int| 0 <= j < p - a implies digit_pred()(#[trigger] m[j]) by {
            assert(m[j] == v@[a + j]);
        }
        if p < v.len() {
            assert(m[p - a] == v@[p as int]);
        }
        lemma_run_len(m, digit_pred(), p - a);
        assert(int_digits(v@) =~= v@.subrange(a as int, p as int));
        if p < v.len() {
            assert(frac_digits(v@) =~= v@.subrange(p + 1, v.len() as int));
        }
    }
    if p == v.len() {
        if p == a {
            return None;
        }
        return Some((a, p));
    }
    if v[p] != '.' {
        return None;
    }
    let mut i: usize = p + 1;
    while i < v.len()
        invariant
            p < i <= v.len(),
            forall|j: int| p < j < i ==> is_digit(#[trigger] v@[j]),
        decreases v.len() - i,
    {
        if !('0' <= v[i] && v[i] <= '9') {
            proof {
                let f = frac_digits(v@);
                assert(f[i - p - 1] == v@[i as int]);
            }
            return None;
        }
        i += 1;
    }
    proof {
        let f = frac_digits(v@);
        assert forall|j: int| 0 <= j < f.len() implies is_digit(#[trigger] f[j]) by {
            assert(f[j] == v@[p + 1 + j]);
        }
    }
    if p == a && p + 1 == v.len() {
        return None;
    }
    Some((a, p))
}

} // verus!
