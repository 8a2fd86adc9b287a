//! The scoring rules, each as a spec function over the text of one field and
//! an executable function proved equal to it.
use vstd::prelude::*;
use crate::decimal::{frac_digits, frac_is_zero, int_digits, is_decimal, is_negative, split_decimal};
use crate::text::{
    chars_of, digit_of, digits_at_most, digits_value, field_range, is_digit, nth_field,
    parse_unsigned, parse_unsigned_at, trimmed_count, trimmed_len,
};

verus! {

/// What `char::is_alphanumeric` says of `c`.
pub uninterp spec fn alphanumeric(c: char) -> bool;

/// Relies on `char::is_alphanumeric`: alphabetic or numeric in Unicode's
/// sense, which among ASCII characters means exactly the letters and digits.
#[verifier::external_body]
fn is_alphanumeric(c: char) -> (r: bool)
    ensures
        r == alphanumeric(c),
        (c as u32) < 0x80 ==> (r <==> (is_digit(c) || ('a' <= c && c <= 'z') || ('A' <= c && c
            <= 'Z'))),
{
    c.is_alphanumeric()
}

/// Number of alphanumeric characters in `s`.
pub open spec fn alnum_count(s: Seq<char>) -> nat
    decreases s.len(),
{
    if s.len() == 0 {
        0
    } else {
        alnum_count(s.drop_last()) + if alphanumeric(s.last()) {
            1nat
        } else {
            0nat
        }
    }
}

/// The total has no fractional part.
pub open spec fn is_round_dollar(s: Seq<char>) -> bool {
    is_decimal(s) && frac_is_zero(s)
}

/// Fractional digit `i` of `s` as a number, zero past the last one.
pub open spec fn frac_digit(s: Seq<char>, i: int) -> nat {
    if i < frac_digits(s).len() {
        digit_of(frac_digits(s)[i])
    } else {
        0
    }
}

/// The size of the amount in cents, rounded half away from zero.
pub open spec fn rounded_cents(s: Seq<char>) -> nat {
    digits_value(int_digits(s)) * 100 + 10 * frac_digit(s, 0) + frac_digit(s, 1) + if frac_digit(
        s,
        2,
    ) >= 5 {
        1nat
    } else {
        0nat
    }
}

/// The total is a multiple of a quarter dollar.
pub open spec fn is_quarter_multiple(s: Seq<char>) -> bool {
    is_decimal(s) && rounded_cents(s) % 25 == 0
}

/// Points for the total: 50 when round, 25 when a multiple of a quarter.
pub open spec fn total_points(s: Seq<char>) -> nat {
    (if is_round_dollar(s) {
        50nat
    } else {
        0nat
    }) + (if is_quarter_multiple(s) {
        25nat
    } else {
        0nat
    })
}

/// Five points for every two items.
pub open spec fn pair_points(n: nat) -> nat {
    5 * (n / 2)
}

/// The trimmed description has a length that is a multiple of three.
pub open spec fn description_fires(d: Seq<char>) -> bool {
    trimmed_len(d) % 3 == 0
}

/// A fifth of the price, rounded up; nothing for a price that is not a
/// decimal amount or is below zero.
pub open spec fn price_points(p: Seq<char>) -> nat {
    if is_decimal(p) && !is_negative(p) {
        let w = digits_value(int_digits(p));
        if w % 5 == 0 && frac_is_zero(p) {
            w / 5
        } else {
            w / 5 + 1
        }
    } else {
        0
    }
}

/// Points that one item earns by its description.
pub open spec fn description_points(d: Seq<char>, p: Seq<char>) -> nat {
    if description_fires(d) {
        price_points(p)
    } else {
        0
    }
}

/// The third `-`-separated field of the date is an odd unsigned number.
pub open spec fn is_odd_date(date: Seq<char>) -> bool {
    match nth_field(date, '-', 2) {
        Some(f) => match parse_unsigned(f, u64::MAX as nat) {
            Some(day) => day % 2 == 1,
            None => false,
        },
        None => false,
    }
}

pub open spec fn day_points(date: Seq<char>) -> nat {
    if is_odd_date(date) {
        6
    } else {
        0
    }
}

/// The time's hour is 14 or 15, or it is 16:00 exactly.
pub open spec fn in_afternoon(time: Seq<char>) -> bool {
    match (nth_field(time, ':', 0), nth_field(time, ':', 1)) {
        (Some(h), Some(m)) => match (
            parse_unsigned(h, u32::MAX as nat),
            parse_unsigned(m, u32::MAX as nat),
        ) {
            (Some(hour), Some(minute)) => hour == 14 || hour == 15 || (hour == 16 && minute == 0),
            _ => false,
        },
        _ => false,
    }
}

pub open spec fn time_points(time: Seq<char>) -> nat {
    if in_afternoon(time) {
        10
    } else {
        0
    }
}

/// Number of alphanumeric characters in `s`.
pub fn alnum_chars(s: &str) -> (r: u64)
    ensures
        r == alnum_count(s@),
{
    let v = chars_of(s);
    let mut n: u64 = 0;
    let mut i: usize = 0;
    assert(v@.take(0) =~= Seq::<char>::empty());
    while i < v.len()
        invariant
            i <= v.len(),
            v@ == s@,
            n <= i,
            n == alnum_count(v@.take(i as int)),
        decreases v.len() - i,
    {
        assert(v@.take(i + 1).drop_last() =~= v@.take(i as int));
        if is_alphanumeric(v[i]) {
            n += 1;
        }
        i += 1;
    }
    assert(v@.take(i as int) =~= v@);
    n
}

/// Whether `v[from..]` holds only `0`.
fn zeros_from(v: &Vec<char>, from: usize) -> (r: bool)
    requires
        from <= v.len(),
    ensures
        r <==> forall|j: int| from <= j < v.len() ==> v@[j] == '0',
{
    let mut i: usize = from;
    while i < v.len()
        invariant
            from <= i <= v.len(),
            forall|j: int| from <= j < i ==> v@[j] == '0',
        decreases v.len() - i,
    {
        if v[i] != '0' {
            return false;
        }
        i += 1;
    }
    true
}

/// Digit `v[p + k]` as a number, zero past the end.
fn digit_or_zero(v: &Vec<char>, p: usize, k: usize) -> (r: u64)
    requires
        p < v.len(),
        forall|j: int| p < j < v.len() ==> is_digit(#[trigger] v@[j]),
        1 <= k,
    ensures
        r == if k < v.len() - p {
            digit_of(v@[p + k])
        } else {
            0
        },
        r <= 9,
{
    if k < v.len() - p {
        (v[p + k] as u32 - '0' as u32) as u64
    } else {
        0
    }
}

/// Round-dollar and quarter-multiple points for a receipt total.
pub fn total_points_of(total: &str) -> (r: u64)
    ensures
        r == total_points(total@),
{
    let v = chars_of(total);
    match split_decimal(&v) {
        None => 0,
        Some((a, p)) => {
            let ghost f = frac_digits(v@);
            let mut zero = true;
            let mut t: u64 = 0;
            if p < v.len() {
                zero = zeros_from(&v, p + 1);
                proof {
                    assert forall|j: int| 0 <= j < f.len() implies #[trigger] f[j] == '0' <==> v@[p
                        + 1 + j] == '0' by {}
                    if !zero {
                        let j = choose|j: int| p + 1 <= j < v.len() && v@[j] != '0';
                        assert(f[j - p - 1] != '0');
                    }
                }
                proof {
                    assert forall|j: int| p < j < v.len() implies is_digit(#[trigger] v@[j]) by {
                        assert(v@[j] == f[j - p - 1]);
                    }
                }
                let d0 = digit_or_zero(&v, p, 1);
                let d1 = digit_or_zero(&v, p, 2);
                let d2 = digit_or_zero(&v, p, 3);
                t = 10 * d0 + d1 + if d2 >= 5 {
                    1
                } else {
                    0
                };
                assert(frac_digit(v@, 0) == d0 && frac_digit(v@, 1) == d1 && frac_digit(v@, 2)
                    == d2);
            } else {
                assert(frac_digit(v@, 0) == 0 && frac_digit(v@, 1) == 0 && frac_digit(v@, 2) == 0);
            }
            proof {
                let w = digits_value(int_digits(v@));
                assert(rounded_cents(v@) == w * 100 + t);
                assert((w * 100 + t) % 25 == t % 25) by (nonlinear_arith);
            }
            let round: u64 = if zero {
                50
            } else {
                0
            };
            let quarter: u64 = if t % 25 == 0 {
                25
            } else {
                0
            };
            round + quarter
        },
    }
}

/// A fifth of the price rounded up, as `price_points`, if it fits in `u64`.
pub fn price_points_of(price: &str) -> (r: Option<u64>)
    ensures
        r == if price_points(price@) <= u64::MAX {
            Some(price_points(price@) as u64)
        } else {
            None::<u64>
        },
{
    let v = chars_of(price);
    match split_decimal(&v) {
        None => Some(0),
        Some((a, p)) => {
            if v[0] == '-' {
                return Some(0);
            }
            assert(!is_negative(v@));
            let ghost wd = int_digits(v@);
            proof {
                assert forall|j: int| 0 <= j < wd.len() implies is_digit(#[trigger] wd[j]) by {
                    crate::text::lemma_run_len_bound(
                        crate::decimal::magnitude(v@),
                        crate::text::digit_pred(),
                    );
                }
            }
            let cap: u128 = 92233720368547758079;
            match digits_at_most(&v, a, p, cap) {
                None => None,
                Some(w) => {
                    let mut zero = true;
                    if p < v.len() {
                        zero = zeros_from(&v, p + 1);
                        proof {
                            let f = frac_digits(v@);
                            if !zero {
                                let j = choose|j: int| p + 1 <= j < v.len() && v@[j] != '0';
                                assert(f[j - p - 1] != '0');
                            }
                        }
                    }
                    let q: u128 = w / 5;
                    if w % 5 == 0 && zero {
                        Some(q as u64)
                    } else if q == 0xFFFF_FFFF_FFFF_FFFF {
                        None
                    } else {
                        Some((q + 1) as u64)
                    }
                },
            }
        },
    }
}

/// Whether the description, trimmed, has a length that is a multiple of three.
pub fn description_counts(desc: &str) -> (r: bool)
    ensures
        r == description_fires(desc@),
{
    let v = chars_of(desc);
    trimmed_count(&v) % 3 == 0
}

/// Whether the day of month, the third `-`-separated field, is odd.
pub fn odd_date(date_str: &str) -> (r: bool)
    ensures
        r == is_odd_date(date_str@),
{
    let v = chars_of(date_str);
    match field_range(&v, '-', 2) {
        Some((lo, hi)) => match parse_unsigned_at(&v, lo, hi, u64::MAX) {
            Some(day) => day % 2 == 1,
            None => false,
        },
        None => false,
    }
}

/// Whether the time falls in the afternoon window: hour 14 or 15, or 16:00.
pub fn time_check(time_str: &str) -> (r: bool)
    ensures
        r == in_afternoon(time_str@),
{
    let v = chars_of(time_str);
    match (field_range(&v, ':', 0), field_range(&v, ':', 1)) {
        (Some((hl, hh)), Some((ml, mh))) => match (
            parse_unsigned_at(&v, hl, hh, 0xFFFF_FFFF),
            parse_unsigned_at(&v, ml, mh, 0xFFFF_FFFF),
        ) {
            (Some(hour), Some(minute)) => hour == 14 || hour == 15 || (hour == 16 && minute == 0),
            _ => false,
        },
        _ => false,
    }
}

} // verus!
