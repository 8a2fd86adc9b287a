//! Character-level helpers: digits, separated fields, unsigned numbers and
//! white space, each specified over `Seq<char>`.
use vstd::prelude::*;

verus! {

broadcast use vstd::string::axiom_spec_iter;

/// The characters of `s`, in order.
pub fn chars_of(s: &str) -> (r: Vec<char>)
    ensures
        r@ == s@,
{
    let mut r: Vec<char> = Vec::new();
    for c in iter: s.chars()
        invariant
            r@ == iter.seq().take(iter.index() as int),
    {
        r.push(c);
    }
    r
}

pub open spec fn is_digit(c: char) -> bool {
    '0' <= c && c <= '9'
}

pub open spec fn digit_of(c: char) -> nat {
    (c as int - '0' as int) as nat
}

pub open spec fn all_digits(s: Seq<char>) -> bool {
    forall|i: int| 0 <= i < s.len() ==> is_digit(#[trigger] s[i])
}

/// The number that the decimal digits `s` write, most significant first.
pub open spec fn digits_value(s: Seq<char>) -> nat
    decreases s.len(),
{
    if s.len() == 0 {
        0
    } else {
        digits_value(s.drop_last()) * 10 + digit_of(s.last())
    }
}

/// Length of the longest prefix of `s` whose characters all satisfy `p`.
pub open spec fn run_len(s: Seq<char>, p: spec_fn(char) -> bool) -> nat
    decreases s.len(),
{
    if s.len() > 0 && p(s[0]) {
        1 + run_len(s.drop_first(), p)
    } else {
        0
    }
}

pub open spec fn digit_pred() -> spec_fn(char) -> bool {
    |c: char| is_digit(c)
}

pub open spec fn other_than(sep: char) -> spec_fn(char) -> bool {
    |c: char| c != sep
}

/// Field `n` (counting from 0) of `s` split at each `sep`, if `s` has that many.
pub open spec fn nth_field(s: Seq<char>, sep: char, n: nat) -> Option<Seq<char>>
    decreases n,
{
    let k = run_len(s, other_than(sep));
    if n == 0 {
        Some(s.take(k as int))
    } else if k == s.len() {
        None
    } else {
        nth_field(s.skip((k + 1) as int), sep, (n - 1) as nat)
    }
}

/// `s` read as an unsigned integer no larger than `max`: an optional `+`
/// followed by at least one decimal digit and nothing else.
pub open spec fn parse_unsigned(s: Seq<char>, max: nat) -> Option<nat> {
    let d = if s.len() > 0 && s[0] == '+' {
        s.drop_first()
    } else {
        s
    };
    if d.len() > 0 && all_digits(d) && digits_value(d) <= max {
        Some(digits_value(d))
    } else {
        None
    }
}

/// Unicode's White_Space property.
pub open spec fn is_white_space(c: char) -> bool {
    let u = c as u32;
    (0x09 <= u && u <= 0x0D) || u == 0x20 || u == 0x85 || u == 0xA0 || u == 0x1680 || (0x2000 <= u
        && u <= 0x200A) || u == 0x2028 || u == 0x2029 || u == 0x202F || u == 0x205F || u == 0x3000
}

pub open spec fn white_pred() -> spec_fn(char) -> bool {
    |c: char| is_white_space(c)
}

/// Number of characters left in `s` once leading and trailing white space
/// is removed.
pub open spec fn trimmed_len(s: Seq<char>) -> nat {
    let lead = run_len(s, white_pred());
    if lead == s.len() {
        0
    } else {
        (s.len() - lead - run_len(s.reverse(), white_pred())) as nat
    }
}

pub proof fn lemma_run_len(s: Seq<char>, p: spec_fn(char) -> bool, k: int)
    requires
        0 <= k <= s.len(),
        forall|i: int| 0 <= i < k ==> p(#[trigger] s[i]),
        k == s.len() || !p(s[k]),
    ensures
        run_len(s, p) == k,
    decreases k,
{
    if k > 0 {
        let t = s.drop_first();
        assert forall|i: int| 0 <= i < k - 1 implies p(#[trigger] t[i]) by {
            assert(t[i] == s[i + 1]);
        }
        lemma_run_len(t, p, k - 1);
    }
}

pub proof fn lemma_run_len_bound(s: Seq<char>, p: spec_fn(char) -> bool)
    ensures
        run_len(s, p) <= s.len(),
        forall|i: int| 0 <= i < run_len(s, p) ==> p(#[trigger] s[i]),
        run_len(s, p) < s.len() ==> !p(s[run_len(s, p) as int]),
    decreases s.len(),
{
    if s.len() > 0 && p(s[0]) {
        let t = s.drop_first();
        lemma_run_len_bound(t, p);
        assert forall|i: int| 0 <= i < run_len(s, p) implies p(#[trigger] s[i]) by {
            if i > 0 {
                assert(s[i] == t[i - 1]);
            }
        }
        if run_len(s, p) < s.len() {
            assert(s[run_len(s, p) as int] == t[run_len(t, p) as int]);
        }
    }
}

/// A value of all-digit text is at least that of any of its prefixes.
pub proof fn lemma_digits_value_prefix(s: Seq<char>, k: int)
    requires
        0 <= k <= s.len(),
    ensures
        digits_value(s.take(k)) <= digits_value(s),
    decreases s.len(),
{
    if k < s.len() {
        assert(s.drop_last().take(k) =~= s.take(k));
        lemma_digits_value_prefix(s.drop_last(), k);
    } else {
        assert(s.take(k) =~= s);
    }
}

/// First index at or after `start` that holds `sep`, or the length of `v`.
pub fn find_sep(v: &Vec<char>, start: usize, sep: char) -> (e: usize)
    requires
        start <= v.len(),
    ensures
        start <= e <= v.len(),
        e - start == run_len(v@.skip(start as int), other_than(sep)),
{
    let mut i: usize = start;
    while i < v.len() && v[i] != sep
        invariant
            start <= i <= v.len(),
            forall|j: int| start <= j < i ==> v@[j] != sep,
        decreases v.len() - i,
    {
        i += 1;
    }
    proof {
        let t = v@.skip(start as int);
        assert forall|j: int| 0 <= j < i - start implies other_than(sep)(#[trigger] t[j]) by {
            assert(t[j] == v@[start + j]);
        }
        if i < v.len() {
            assert(t[i - start] == v@[i as int]);
        }
        lemma_run_len(t, other_than(sep), i - start);
    }
    i
}

/// Bounds of field `n` of `v` split at each `sep`.
pub fn field_range(v: &Vec<char>, sep: char, n: usize) -> (r: Option<(usize, usize)>)
    ensures
        match r {
            Some((a, b)) => a <= b <= v.len() && nth_field(v@, sep, n as nat) == Some(
                v@.subrange(a as int, b as int),
            ),
            None => nth_field(v@, sep, n as nat) is None,
        },
{
    let mut start: usize = 0;
    let mut j: usize = 0;
    assert(v@.skip(0) =~= v@);
    while j < n
        invariant
            start <= v.len(),
            j <= n,
            nth_field(v@, sep, n as nat) == nth_field(v@.skip(start as int), sep, (n - j) as nat),
        decreases n - j,
    {
        let e = find_sep(v, start, sep);
        if e == v.len() {
            return None;
        }
        assert(v@.skip(start as int).skip(e - start + 1) =~= v@.skip(e + 1));
        start = e + 1;
        j += 1;
    }
    let e = find_sep(v, start, sep);
    assert(v@.skip(start as int).take(e - start) =~= v@.subrange(start as int, e as int));
    Some((start, e))
}

/// Value of the digits `v[lo..hi]`, if they are all digits and the value is
/// at most `max`.
pub fn digits_at_most(v: &Vec<char>, lo: usize, hi: usize, max: u128) -> (r: Option<u128>)
    requires
        lo <= hi <= v.len(),
        max <= 0xFFFF_FFFF_FFFF_FFFF_FFFF_FFFF,
    ensures
        ({
            let d = v@.subrange(lo as int, hi as int);
            r == if all_digits(d) && digits_value(d) <= max {
                Some(digits_value(d) as u128)
            } else {
                None::<u128>
            }
        }),
{
    let ghost d = v@.subrange(lo as int, hi as int);
    let mut acc: u128 = 0;
    let mut i: usize = lo;
    assert(d.take(0) =~= Seq::<char>::empty());
    while i < hi
        invariant
            lo <= i <= hi <= v.len(),
            d == v@.subrange(lo as int, hi as int),
            max <= 0xFFFF_FFFF_FFFF_FFFF_FFFF_FFFF,
            all_digits(d.take(i - lo)),
            acc == digits_value(d.take(i - lo)),
            acc <= max,
        decreases hi - i,
    {
        let c = v[i];
        assert(d[i - lo] == c);
        if !('0' <= c && c <= '9') {
            return None;
        }
        let dig = (c as u32 - '0' as u32) as u128;
        assert(d.take(i - lo + 1).drop_last() =~= d.take(i - lo));
        acc = acc * 10 + dig;
        i += 1;
        assert(all_digits(d.take(i - lo)));
        if acc > max {
            proof {
                if all_digits(d) {
                    lemma_digits_value_prefix(d, i - lo);
                }
            }
            return None;
        }
    }
    assert(d.take(hi - lo) =~= d);
    Some(acc)
}

/// `v[lo..hi]` read as an unsigned integer no larger than `max`.
pub fn parse_unsigned_at(v: &Vec<char>, lo: usize, hi: usize, max: u64) -> (r: Option<u64>)
    requires
        lo <= hi <= v.len(),
    ensures
        r == match parse_unsigned(v@.subrange(lo as int, hi as int), max as nat) {
            Some(n) => Some(n as u64),
            None => None::<u64>,
        },
{
    let ghost s = v@.subrange(lo as int, hi as int);
    let mut start: usize = lo;
    if lo < hi && v[lo] == '+' {
        start = lo + 1;
        assert(s.drop_first() =~= v@.subrange(start as int, hi as int));
    }
    if start == hi {
        return None;
    }
    match digits_at_most(v, start, hi, max as u128) {
        Some(n) => Some(n as u64),
        None => None,
    }
}

/// Whether `c` has Unicode's White_Space property.
pub fn white_space(c: char) -> (r: bool)
    ensures
        r == is_white_space(c),
{
    let u = c as u32;
    (0x09 <= u && u <= 0x0D) || u == 0x20 || u == 0x85 || u == 0xA0 || u == 0x1680 || (0x2000 <= u
        && u <= 0x200A) || u == 0x2028 || u == 0x2029 || u == 0x202F || u == 0x205F || u == 0x3000
}

/// Number of characters of `v` once leading and trailing white space is removed.
pub fn trimmed_count(v: &Vec<char>) -> (r: usize)
    ensures
        r == trimmed_len(v@),
{
    let mut lo: usize = 0;
    while lo < v.len() && white_space(v[lo])
        invariant
            lo <= v.len(),
            forall|j: int| 0 <= j < lo ==> is_white_space(#[trigger] v@[j]),
        decreases v.len() - lo,
    {
        lo += 1;
    }
    proof {
        lemma_run_len(v@, white_pred(), lo as int);
    }
    if lo == v.len() {
        return 0;
    }
    let mut hi: usize = v.len();
    while hi > lo && white_space(v[hi - 1])
        invariant
            lo < v.len(),
            lo <= hi <= v.len(),
            !is_white_space(v@[lo as int]),
            forall|j: int| hi <= j < v.len() ==> is_white_space(#[trigger] v@[j]),
        decreases hi,
    {
        hi -= 1;
    }
    proof {
        let rv = v@.reverse();
        let k = v.len() - hi;
        assert forall|i: int| 0 <= i < k implies white_pred()(#[trigger] rv[i]) by {
            assert(rv[i] == v@[v.len() - 1 - i]);
        }
        assert(hi > lo);
        assert(rv[k] == v@[hi - 1]);
        lemma_run_len(rv, white_pred(), k);
    }
    hi - lo
}

} // verus!
