//! The value/unit tokenizer.  A compound left-hand side such as
//! `"1yd 2ft 4.7in"` is cut into value-unit pairs: each pair is an optional
//! minus sign, a maximal run of value characters (digits, `'.'`, `'/'`),
//! then one or more unit groups, a unit group being optional whitespace, one
//! non-digit non-space non-minus character, and at most one digit after it
//! (so `"m2"` and `"in3"` stay attached to their unit).  When no unit group
//! can start after the maximal value run, the run gives characters back one
//! by one, as a backtracking matcher would.

use vstd::prelude::*;
use crate::rational::{Rat, rat_make, rat_div, rat_wf, pow10, Rational};
use crate::text::{
    is_digit_c, is_unit_c, is_value_c, is_ws_c, digit_c, unit_c, value_c, ws_c, str_to_chars,
    string_from_chars, subrange_chars,
};

verus! {

/// End of the maximal run of value characters starting at `i`.
pub open spec fn value_run_end(s: Seq<char>, i: int) -> int
    decreases s.len() - i,
{
    if 0 <= i < s.len() && is_value_c(s[i]) {
        value_run_end(s, i + 1)
    } else {
        i
    }
}

/// End of the maximal run of whitespace starting at `i`.
pub open spec fn ws_run_end(s: Seq<char>, i: int) -> int
    decreases s.len() - i,
{
    if 0 <= i < s.len() && is_ws_c(s[i]) {
        ws_run_end(s, i + 1)
    } else {
        i
    }
}

pub proof fn lemma_value_run_bounds(s: Seq<char>, i: int)
    requires
        0 <= i <= s.len(),
    ensures
        i <= value_run_end(s, i) <= s.len(),
    decreases s.len() - i,
{
    if i < s.len() && is_value_c(s[i]) {
        lemma_value_run_bounds(s, i + 1);
    }
}

pub proof fn lemma_ws_run_bounds(s: Seq<char>, i: int)
    requires
        0 <= i <= s.len(),
    ensures
        i <= ws_run_end(s, i) <= s.len(),
    decreases s.len() - i,
{
    if i < s.len() && is_ws_c(s[i]) {
        lemma_ws_run_bounds(s, i + 1);
    }
}

/// One unit group starting at `p`: optional whitespace, a unit character,
/// at most one digit.  Returns the end of the group, or `None`.
pub open spec fn group_end(s: Seq<char>, p: int) -> Option<int> {
    let q = ws_run_end(s, p);
    if q < s.len() && is_unit_c(s[q]) {
        if q + 1 < s.len() && is_digit_c(s[q + 1]) {
            Some(q + 2)
        } else {
            Some(q + 1)
        }
    } else {
        None
    }
}

pub proof fn lemma_group_end_bounds(s: Seq<char>, p: int)
    requires
        0 <= p <= s.len(),
    ensures
        group_end(s, p) matches Some(q) ==> p < q <= s.len(),
{
    lemma_ws_run_bounds(s, p);
}

/// End of the maximal sequence of unit groups starting at `p`.
pub open spec fn groups_end(s: Seq<char>, p: int) -> int
    decreases s.len() - p,
    when 0 <= p <= s.len()
    via groups_end_dec
{
    match group_end(s, p) {
        Some(q) => groups_end(s, q),
        None => p,
    }
}

#[via_fn]
proof fn groups_end_dec(s: Seq<char>, p: int) {
    lemma_group_end_bounds(s, p);
}

pub proof fn lemma_groups_end_bounds(s: Seq<char>, p: int)
    requires
        0 <= p <= s.len(),
    ensures
        p <= groups_end(s, p) <= s.len(),
    decreases s.len() - p,
{
    lemma_group_end_bounds(s, p);
    match group_end(s, p) {
        Some(q) => {
            lemma_groups_end_bounds(s, q);
        },
        None => {},
    }
}

/// Backtracking over the value run: the largest end `e` in `(j, e0]` at
/// which at least one unit group starts.  Returns the value end and the end
/// of the whole match.
pub open spec fn try_value_end(s: Seq<char>, j: int, e: int) -> Option<(int, int)>
    decreases e - j,
    when j <= e
{
    if e <= j {
        None
    } else if group_end(s, e) is Some {
        Some((e, groups_end(s, e)))
    } else {
        try_value_end(s, j, e - 1)
    }
}

pub proof fn lemma_try_value_end(s: Seq<char>, j: int, e: int)
    requires
        0 <= j <= e <= s.len(),
    ensures
        try_value_end(s, j, e) matches Some(p) ==> j < p.0 <= e && p.1 == groups_end(s, p.0)
            && p.0 < p.1 <= s.len(),
    decreases e - j,
{
    if e <= j {
    } else if group_end(s, e) is Some {
        lemma_group_end_bounds(s, e);
        lemma_groups_end_bounds(s, group_end(s, e)->Some_0);
    } else {
        lemma_try_value_end(s, j, e - 1);
    }
}

/// A whole value-unit pair starting exactly at `i`: optional `'-'`, a
/// backtracked value run, one or more unit groups.  Returns the end of the
/// pair.
pub open spec fn match_at(s: Seq<char>, i: int) -> Option<int>
    recommends
        0 <= i <= s.len(),
{
    let j = if i < s.len() && s[i] == '-' {
        i + 1
    } else {
        i
    };
    let vmax = value_run_end(s, j);
    match try_value_end(s, j, vmax) {
        Some(p) => Some(p.1),
        None => None,
    }
}

pub proof fn lemma_match_at(s: Seq<char>, i: int)
    requires
        0 <= i <= s.len(),
    ensures
        match_at(s, i) matches Some(e) ==> i < e <= s.len(),
{
    let j = if i < s.len() && s[i] == '-' {
        i + 1
    } else {
        i
    };
    lemma_value_run_bounds(s, j);
    lemma_try_value_end(s, j, value_run_end(s, j));
}

/// All value-unit pairs of `s`, scanned left to right: at each position a
/// pair match is tried; on success the scan resumes at its end, otherwise
/// one character further.
pub open spec fn scan_pairs(s: Seq<char>, i: int) -> Seq<(int, int)>
    decreases s.len() - i,
    when 0 <= i <= s.len()
    via scan_pairs_dec
{
    if i >= s.len() {
        Seq::empty()
    } else {
        match match_at(s, i) {
            Some(e) => seq![(i, e)] + scan_pairs(s, e),
            None => scan_pairs(s, i + 1),
        }
    }
}

#[via_fn]
proof fn scan_pairs_dec(s: Seq<char>, i: int) {
    if i < s.len() {
        lemma_match_at(s, i);
    }
}

pub proof fn lemma_scan_pairs_bounds(s: Seq<char>, i: int)
    requires
        0 <= i <= s.len(),
    ensures
        forall|k: int|
            0 <= k < scan_pairs(s, i).len() ==> {
                let p = #[trigger] scan_pairs(s, i)[k];
                i <= p.0 < p.1 <= s.len()
            },
    decreases s.len() - i,
{
    if i < s.len() {
        lemma_match_at(s, i);
        match match_at(s, i) {
            Some(e) => {
                lemma_scan_pairs_bounds(s, e);
                assert forall|k: int| 0 <= k < scan_pairs(s, i).len() implies {
                    let p = #[trigger] scan_pairs(s, i)[k];
                    i <= p.0 < p.1 <= s.len()
                } by {
                    if k > 0 {
                        assert(scan_pairs(s, i)[k] == scan_pairs(s, e)[k - 1]);
                    }
                }
            },
            None => {
                lemma_scan_pairs_bounds(s, i + 1);
                assert forall|k: int| 0 <= k < scan_pairs(s, i).len() implies {
                    let p = #[trigger] scan_pairs(s, i)[k];
                    i <= p.0 < p.1 <= s.len()
                } by {
                    assert(scan_pairs(s, i)[k] == scan_pairs(s, i + 1)[k]);
                }
            },
        }
    }
}

#[verifier::loop_isolation(false)]
fn value_run_end_x(v: &Vec<char>, i: usize) -> (r: usize)
    requires
        i <= v@.len(),
    ensures
        r as int == value_run_end(v@, i as int),
        i <= r <= v@.len(),
{
    let mut p = i;
    while p < v.len() && value_c(v[p])
        invariant
            i <= p <= v@.len(),
            value_run_end(v@, i as int) == value_run_end(v@, p as int),
        decreases v@.len() - p,
    {
        p = p + 1;
    }
    p
}

#[verifier::loop_isolation(false)]
fn ws_run_end_x(v: &Vec<char>, i: usize) -> (r: usize)
    requires
        i <= v@.len(),
    ensures
        r as int == ws_run_end(v@, i as int),
        i <= r <= v@.len(),
{
    let mut p = i;
    while p < v.len() && ws_c(v[p])
        invariant
            i <= p <= v@.len(),
            ws_run_end(v@, i as int) == ws_run_end(v@, p as int),
        decreases v@.len() - p,
    {
        p = p + 1;
    }
    p
}

fn group_end_x(v: &Vec<char>, p: usize) -> (r: Option<usize>)
    requires
        p <= v@.len(),
    ensures
        r matches Some(q) ==> group_end(v@, p as int) == Some(q as int) && p < q <= v@.len(),
        r is None ==> group_end(v@, p as int) is None,
{
    let q = ws_run_end_x(v, p);
    if q < v.len() && unit_c(v[q]) {
        if q + 1 < v.len() && digit_c(v[q + 1]) {
            Some(q + 2)
        } else {
            Some(q + 1)
        }
    } else {
        None
    }
}

#[verifier::loop_isolation(false)]
fn groups_end_x(v: &Vec<char>, p0: usize) -> (r: usize)
    requires
        p0 <= v@.len(),
    ensures
        r as int == groups_end(v@, p0 as int),
        p0 <= r <= v@.len(),
{
    let mut p = p0;
    loop
        invariant
            p0 <= p <= v@.len(),
            groups_end(v@, p0 as int) == groups_end(v@, p as int),
        decreases v@.len() - p,
    {
        match group_end_x(v, p) {
            Some(q) => {
                p = q;
            },
            None => {
                proof {
                    lemma_groups_end_bounds(v@, p as int);
                }
                return p;
            },
        }
    }
}

#[verifier::loop_isolation(false)]
fn match_at_x(v: &Vec<char>, i: usize) -> (r: Option<usize>)
    requires
        i <= v@.len(),
    ensures
        match r {
            Some(e) => match_at(v@, i as int) == Some(e as int) && i < e <= v@.len(),
            None => match_at(v@, i as int) is None,
        },
{
    let j = if i < v.len() && v[i] == '-' {
        i + 1
    } else {
        i
    };
    let vmax = value_run_end_x(v, j);
    let mut e = vmax;
    while e > j
        invariant
            j <= e <= vmax,
            try_value_end(v@, j as int, vmax as int) == try_value_end(v@, j as int, e as int),
        decreases e,
    {
        match group_end_x(v, e) {
            Some(_) => {
                let me = groups_end_x(v, e);
                proof {
                    lemma_try_value_end(v@, j as int, e as int);
                }
                return Some(me);
            },
            None => {
                e = e - 1;
            },
        }
    }
    None
}

/// Scans the whole vector for value-unit pairs, returning their character
/// ranges in input order.
#[verifier::loop_isolation(false)]
pub fn scan_pairs_x(v: &Vec<char>) -> (r: Vec<(usize, usize)>)
    ensures
        r@.map_values(|p: (usize, usize)| (p.0 as int, p.1 as int)) == scan_pairs(v@, 0),
        forall|k: int|
            0 <= k < r@.len() ==> (#[trigger] r@[k]).0 < r@[k].1 && r@[k].1 <= v@.len(),
{
    let mut out: Vec<(usize, usize)> = Vec::new();
    let mut i: usize = 0;
    while i < v.len()
        invariant
            i <= v@.len(),
            scan_pairs(v@, 0) == out@.map_values(|p: (usize, usize)| (p.0 as int, p.1 as int))
                + scan_pairs(v@, i as int),
            forall|k: int|
                0 <= k < out@.len() ==> (#[trigger] out@[k]).0 < out@[k].1 && out@[k].1 <= v@.len(),
        decreases v@.len() - i,
    {
        match match_at_x(v, i) {
            Some(e) => {
                out.push((i, e));
                proof {
                    assert(scan_pairs(v@, 0) =~= out@.map_values(
                        |p: (usize, usize)| (p.0 as int, p.1 as int),
                    ) + scan_pairs(v@, e as int));
                }
                i = e;
            },
            None => {
                i = i + 1;
            },
        }
    }
    proof {
        assert(scan_pairs(v@, i as int) =~= Seq::<(int, int)>::empty());
        assert(scan_pairs(v@, 0) =~= out@.map_values(
            |p: (usize, usize)| (p.0 as int, p.1 as int),
        ));
    }
    out
}

/// `s` with leading whitespace removed.
pub open spec fn trim_start(s: Seq<char>) -> Seq<char>
    decreases s.len(),
{
    if s.len() > 0 && is_ws_c(s[0]) {
        trim_start(s.skip(1))
    } else {
        s
    }
}

/// `s` with trailing whitespace removed.
pub open spec fn trim_end(s: Seq<char>) -> Seq<char>
    decreases s.len(),
{
    if s.len() > 0 && is_ws_c(s[s.len() - 1]) {
        trim_end(s.drop_last())
    } else {
        s
    }
}

/// `s` with whitespace removed from both ends.
pub open spec fn spec_trim(s: Seq<char>) -> Seq<char> {
    trim_end(trim_start(s))
}

/// Removes whitespace from both ends.
#[verifier::loop_isolation(false)]
pub fn trim_chars(v: &Vec<char>) -> (r: Vec<char>)
    ensures
        r@ == spec_trim(v@),
{
    let mut a: usize = 0;
    proof {
        assert(v@.skip(0) =~= v@);
    }
    while a < v.len() && ws_c(v[a])
        invariant
            a <= v@.len(),
            trim_start(v@) == trim_start(v@.skip(a as int)),
        decreases v@.len() - a,
    {
        proof {
            assert(v@.skip(a as int)[0] == v@[a as int]);
            assert(v@.skip(a as int).skip(1) =~= v@.skip(a + 1));
        }
        a = a + 1;
    }
    proof {
        if a < v@.len() {
            assert(v@.skip(a as int)[0] == v@[a as int]);
        }
        assert(trim_start(v@) == v@.skip(a as int));
    }
    let mut t = subrange_chars(v, a, v.len());
    proof {
        assert(t@ =~= v@.skip(a as int));
    }
    while t.len() > 0 && ws_c(t[t.len() - 1])
        invariant
            trim_end(t@) == trim_end(trim_start(v@)),
        decreases t@.len(),
    {
        t.pop();
    }
    t
}

/// First occurrence of `c` in `s` at or after `i`.
pub open spec fn find_char(s: Seq<char>, c: char, i: int) -> Option<int>
    decreases s.len() - i,
    when 0 <= i <= s.len()
{
    if i >= s.len() {
        None
    } else if s[i] == c {
        Some(i)
    } else {
        find_char(s, c, i + 1)
    }
}

pub proof fn lemma_find_char_bounds(s: Seq<char>, c: char, i: int)
    requires
        0 <= i <= s.len(),
    ensures
        find_char(s, c, i) matches Some(k) ==> i <= k < s.len() && s[k] == c,
    decreases s.len() - i,
{
    if i < s.len() && s[i] != c {
        lemma_find_char_bounds(s, c, i + 1);
    }
}

#[verifier::loop_isolation(false)]
pub fn find_char_x(v: &Vec<char>, c: char, i: usize) -> (r: Option<usize>)
    requires
        i <= v@.len(),
    ensures
        r matches Some(k) ==> find_char(v@, c, i as int) == Some(k as int) && i <= k < v@.len(),
        r is None ==> find_char(v@, c, i as int) is None,
{
    let mut p = i;
    while p < v.len()
        invariant
            i <= p <= v@.len(),
            find_char(v@, c, i as int) == find_char(v@, c, p as int),
        decreases v@.len() - p,
    {
        if v[p] == c {
            return Some(p);
        }
        p = p + 1;
    }
    None
}

/// Every character is an ASCII digit.
pub open spec fn all_digits(s: Seq<char>) -> bool {
    forall|i: int| 0 <= i < s.len() ==> is_digit_c(#[trigger] s[i])
}

/// The integer a digit string denotes.
pub open spec fn dec_val(s: Seq<char>) -> int
    decreases s.len(),
{
    if s.len() == 0 {
        0
    } else {
        dec_val(s.drop_last()) * 10 + (s[s.len() - 1] as int - 48)
    }
}

pub proof fn lemma_dec_val_nonneg(s: Seq<char>)
    requires
        all_digits(s),
    ensures
        dec_val(s) >= 0,
    decreases s.len(),
{
    if s.len() > 0 {
        assert(all_digits(s.drop_last())) by {
            assert(forall|i: int|
                0 <= i < s.len() - 1 ==> s.drop_last()[i] == #[trigger] s[i]);
        }
        lemma_dec_val_nonneg(s.drop_last());
    }
}

/// The number a maybe-signed decimal string denotes, or `None` when the
/// text is not a decimal or its digits do not fit in 128 bits or behind 30
/// decimal places.
pub open spec fn spec_parse_decimal(s: Seq<char>) -> Option<Rat> {
    let neg = s.len() > 0 && s[0] == '-';
    let t = if neg {
        s.skip(1)
    } else {
        s
    };
    let body = match find_char(t, '.', 0) {
        None => if t.len() >= 1 && all_digits(t) {
            Some((dec_val(t), 0int))
        } else {
            None
        },
        Some(k) => {
            let ip = t.subrange(0, k);
            let fp = t.subrange(k + 1, t.len() as int);
            if t.len() >= 2 && all_digits(ip) && all_digits(fp) {
                Some((dec_val(ip + fp), fp.len() as int))
            } else {
                None
            }
        },
    };
    match body {
        None => None,
        Some((m, k)) => if m <= i128::MAX && k <= 30 {
            Some(
                rat_make(
                    if neg {
                        -m
                    } else {
                        m
                    },
                    pow10(k as nat) as int,
                ),
            )
        } else {
            None
        },
    }
}

/// The number a value token denotes: a plain decimal, or a two-term
/// fraction `a/b` whose quotient is taken exactly (a zero divisor is a
/// failure, not an infinity).
pub open spec fn spec_parse_value(s: Seq<char>) -> Option<Rat> {
    match find_char(s, '/', 0) {
        None => spec_parse_decimal(s),
        Some(k) => {
            let a = s.subrange(0, k);
            let b = s.subrange(k + 1, s.len() as int);
            if find_char(b, '/', 0) is Some {
                None
            } else {
                match (spec_parse_decimal(a), spec_parse_decimal(b)) {
                    (Some(x), Some(y)) => if y.n != 0 && crate::rational::div_fits(x, y) {
                        Some(rat_div(x, y))
                    } else {
                        None
                    },
                    _ => None,
                }
            }
        },
    }
}

/// First position at or after `i` where a value capture can start: a value
/// character, or a `'-'` directly followed by one.
pub open spec fn value_start(s: Seq<char>, i: int) -> Option<int>
    decreases s.len() - i,
    when 0 <= i <= s.len()
{
    if i >= s.len() {
        None
    } else if is_value_c(s[i]) || (s[i] == '-' && i + 1 < s.len() && is_value_c(s[i + 1])) {
        Some(i)
    } else {
        value_start(s, i + 1)
    }
}

/// What `parse_value_unit` returns: the first value capture of the text and
/// everything after it, trimmed, as the unit text.
pub open spec fn spec_parse_value_unit(s: Seq<char>) -> Option<(Rat, Seq<char>)> {
    match value_start(s, 0) {
        None => None,
        Some(p) => {
            let j = if s[p] == '-' {
                p + 1
            } else {
                p
            };
            let ve = value_run_end(s, j);
            let vstr = s.subrange(p, ve);
            let unit = spec_trim(s.subrange(ve, s.len() as int));
            match spec_parse_value(vstr) {
                Some(val) => Some((val, unit)),
                None => None,
            }
        },
    }
}

/// Parses the digit run `v[from..to]`; `None` when a non-digit appears or
/// the value exceeds 128 bits.
#[verifier::loop_isolation(false)]
pub(crate) fn digits_val_x(v: &Vec<char>, from: usize, to: usize) -> (r: Option<i128>)
    requires
        from <= to <= v@.len(),
    ensures
        ({
            let s = v@.subrange(from as int, to as int);
            match r {
                Some(x) => all_digits(s) && x as int == dec_val(s) && x >= 0,
                None => !all_digits(s) || dec_val(s) > i128::MAX,
            }
        }),
{
    let ghost s = v@.subrange(from as int, to as int);
    let mut acc: i128 = 0;
    let mut i = from;
    while i < to
        invariant
            from <= i <= to,
            0 <= acc,
            all_digits(v@.subrange(from as int, i as int)),
            acc as int == dec_val(v@.subrange(from as int, i as int)),
        decreases to - i,
    {
        let c = v[i];
        if !digit_c(c) {
            proof {
                assert(s[i - from] == v@[i as int]);
                assert(!all_digits(s));
            }
            return None;
        }
        let d = (c as u32) - 48;
        let acc2 = match acc.checked_mul(10) {
            Some(x) => match x.checked_add(d as i128) {
                Some(y) => y,
                None => {
                    proof {
                        lemma_digits_prefix_overflow(v@, from as int, to as int, i as int);
                    }
                    return None;
                },
            },
            None => {
                proof {
                    lemma_digits_prefix_overflow(v@, from as int, to as int, i as int);
                }
                return None;
            },
        };
        proof {
            let pre = v@.subrange(from as int, i as int);
            let pre2 = v@.subrange(from as int, i + 1);
            assert(pre2.drop_last() =~= pre);
            assert(pre2[pre2.len() - 1] == v@[i as int]);
        }
        acc = acc2;
        i = i + 1;
    }
    proof {
        assert(v@.subrange(from as int, to as int) =~= v@.subrange(from as int, i as int));
    }
    Some(acc)
}

/// If the digits up to `i` already exceed the range, the whole run does.
proof fn lemma_digits_prefix_overflow(s: Seq<char>, from: int, to: int, i: int)
    requires
        0 <= from <= i < to <= s.len(),
        all_digits(s.subrange(from, i)),
        is_digit_c(s[i]),
        dec_val(s.subrange(from, i)) * 10 + (s[i] as int - 48) > i128::MAX,
    ensures
        !all_digits(s.subrange(from, to)) || dec_val(s.subrange(from, to)) > i128::MAX,
{
    if all_digits(s.subrange(from, to)) {
        lemma_dec_val_grows(s, from, i + 1, to);
        assert(s.subrange(from, i + 1).drop_last() =~= s.subrange(from, i));
        assert(s.subrange(from, i + 1)[i - from] == s[i]);
    }
}

/// For digit runs, a longer run denotes at least as large a value.
proof fn lemma_dec_val_grows(s: Seq<char>, from: int, mid: int, to: int)
    requires
        0 <= from <= mid <= to <= s.len(),
        all_digits(s.subrange(from, to)),
    ensures
        dec_val(s.subrange(from, mid)) <= dec_val(s.subrange(from, to)),
        dec_val(s.subrange(from, mid)) >= 0,
    decreases to - mid,
{
    assert(all_digits(s.subrange(from, mid))) by {
        assert(forall|q: int|
            0 <= q < mid - from ==> s.subrange(from, mid)[q] == #[trigger] s.subrange(
                from,
                to,
            )[q]);
    }
    lemma_dec_val_nonneg(s.subrange(from, mid));
    if mid < to {
        lemma_dec_val_grows(s, from, mid + 1, to);
        let a = s.subrange(from, mid);
        let b = s.subrange(from, mid + 1);
        assert(b.drop_last() =~= a);
        assert(b[b.len() - 1] == s[mid]);
        assert(is_digit_c(s[mid])) by {
            assert(s.subrange(from, to)[mid - from] == s[mid]);
        }
        assert(dec_val(b) == dec_val(a) * 10 + (s[mid] as int - 48));
        assert(dec_val(a) <= dec_val(a) * 10) by (nonlinear_arith)
            requires
                dec_val(a) >= 0,
        ;
    }
}

/// Digit runs only grow when digits are appended on either side.
proof fn lemma_dec_val_concat_bounds(x: Seq<char>, y: Seq<char>)
    requires
        all_digits(x),
        all_digits(y),
    ensures
        dec_val(x + y) >= dec_val(x),
        dec_val(x + y) >= dec_val(y),
        dec_val(x + y) >= 0,
    decreases y.len(),
{
    lemma_dec_val_nonneg(x);
    lemma_dec_val_nonneg(y);
    if y.len() == 0 {
        assert(x + y =~= x);
    } else {
        let y1 = y.drop_last();
        assert(all_digits(y1)) by {
            assert(forall|i: int| 0 <= i < y1.len() ==> y1[i] == #[trigger] y[i]);
        }
        lemma_dec_val_concat_bounds(x, y1);
        assert((x + y).drop_last() =~= x + y1);
        assert((x + y).last() == y.last());
        assert(dec_val(x + y) == dec_val(x + y1) * 10 + (y.last() as int - 48));
        assert(dec_val(x + y1) * 10 >= dec_val(y1) * 10);
        assert(dec_val(x + y1) * 10 >= dec_val(x + y1));
    }
}

/// Parses a maybe-signed decimal from the whole vector.
#[verifier::loop_isolation(false)]
fn parse_decimal_x(v: &Vec<char>) -> (r: Option<Rational>)
    ensures
        match r {
            Some(x) => spec_parse_decimal(v@) == Some(x@) && x.wf() && rat_wf(x@),
            None => spec_parse_decimal(v@) is None,
        },
{
    let neg = v.len() > 0 && v[0] == '-';
    let start: usize = if neg {
        1
    } else {
        0
    };
    let ghost t = if neg {
        v@.skip(1)
    } else {
        v@
    };
    proof {
        assert(t =~= v@.subrange(start as int, v@.len() as int));
    }
    let (m, fraclen): (i128, usize) = match find_char_x(v, '.', start) {
        None => {
            proof {
                lemma_find_char_shift(v@, '.', start as int);
            }
            if v.len() - start < 1 {
                return None;
            }
            match digits_val_x(v, start, v.len()) {
                Some(x) => (x, 0),
                None => {
                    return None;
                },
            }
        },
        Some(k) => {
            proof {
                lemma_find_char_shift(v@, '.', start as int);
                assert(find_char(t, '.', 0) == Some(k - start));
            }
            if v.len() - start < 2 {
                proof {
                    assert(t.len() < 2);
                }
                return None;
            }
            let ip = match digits_val_x(v, start, k) {
                Some(x) => x,
                None => {
                    proof {
                        lemma_subrange_shift(v@, start as int, k as int);
                        assert(v@.subrange(k + 1, v@.len() as int) =~= t.subrange(
                            k - start + 1,
                            t.len() as int,
                        ));
                        lemma_concat_digits(t, k - start);
                        let ipd = t.subrange(0, k - start);
                        let fpd = t.subrange(k - start + 1, t.len() as int);
                        if all_digits(ipd) && all_digits(fpd) {
                            lemma_dec_val_concat_bounds(ipd, fpd);
                        }
                    }
                    return None;
                },
            };
            let fp_len = v.len() - k - 1;
            let fp = match digits_val_x(v, k + 1, v.len()) {
                Some(x) => x,
                None => {
                    proof {
                        lemma_subrange_shift(v@, start as int, k as int);
                        assert(v@.subrange(k + 1, v@.len() as int) =~= t.subrange(
                            k - start + 1,
                            t.len() as int,
                        ));
                        lemma_concat_digits(t, k - start);
                        let ipd = t.subrange(0, k - start);
                        let fpd = t.subrange(k - start + 1, t.len() as int);
                        if all_digits(ipd) && all_digits(fpd) {
                            lemma_dec_val_concat_bounds(ipd, fpd);
                        }
                    }
                    return None;
                },
            };
            proof {
                lemma_subrange_shift(v@, start as int, k as int);
                assert(v@.subrange(k + 1, v@.len() as int) =~= t.subrange(
                    k - start + 1,
                    t.len() as int,
                ));
            }
            let combined = match combine_digits(v, start, k, v.len(), ip, fp) {
                Some(x) => x,
                None => {
                    return None;
                },
            };
            (combined, fp_len)
        },
    };
    if fraclen > 30 {
        return None;
    }
    let signed_m: i128 = if neg {
        -m
    } else {
        m
    };
    let r = Rational::from_decimal(signed_m, fraclen as u32);
    Some(r)
}

/// Shifting `find_char` across a removed sign character.
proof fn lemma_find_char_shift(s: Seq<char>, c: char, start: int)
    requires
        0 <= start <= s.len(),
    ensures
        ({
            let t = s.subrange(start, s.len() as int);
            &&& (find_char(s, c, start) matches Some(k) ==> find_char(t, c, 0) == Some(k - start))
            &&& (find_char(s, c, start) is None ==> find_char(t, c, 0) is None)
        }),
{
    lemma_find_char_shift_gen(s, c, start, start);
}

proof fn lemma_find_char_shift_gen(s: Seq<char>, c: char, start: int, i: int)
    requires
        0 <= start <= i <= s.len(),
    ensures
        ({
            let t = s.subrange(start, s.len() as int);
            &&& (find_char(s, c, i) matches Some(k) ==> find_char(t, c, i - start) == Some(
                k - start,
            ))
            &&& (find_char(s, c, i) is None ==> find_char(t, c, i - start) is None)
        }),
    decreases s.len() - i,
{
    let t = s.subrange(start, s.len() as int);
    if i < s.len() {
        assert(t[i - start] == s[i]);
        if s[i] != c {
            lemma_find_char_shift_gen(s, c, start, i + 1);
        }
    }
}

proof fn lemma_subrange_shift(s: Seq<char>, start: int, k: int)
    requires
        0 <= start <= k <= s.len(),
    ensures
        s.subrange(start, k) =~= s.subrange(start, s.len() as int).subrange(0, k - start),
{
}

/// For a split at the dot, non-digit text in either part refutes the whole.
proof fn lemma_concat_digits(t: Seq<char>, k: int)
    requires
        0 <= k < t.len(),
    ensures
        all_digits(t.subrange(0, k) + t.subrange(k + 1, t.len() as int)) == (all_digits(
            t.subrange(0, k),
        ) && all_digits(t.subrange(k + 1, t.len() as int))),
{
    let ip = t.subrange(0, k);
    let fp = t.subrange(k + 1, t.len() as int);
    if all_digits(ip + fp) {
        assert(forall|i: int| 0 <= i < ip.len() ==> (ip + fp)[i] == #[trigger] ip[i]);
        assert(forall|i: int|
            0 <= i < fp.len() ==> (ip + fp)[ip.len() + i] == #[trigger] fp[i]);
        assert(all_digits(ip)) by {
            assert(forall|i: int| 0 <= i < ip.len() ==> is_digit_c(#[trigger] ip[i])) by {
                assert(forall|i: int|
                    0 <= i < ip.len() ==> is_digit_c(#[trigger] (ip + fp)[i]));
            }
        }
        assert(all_digits(fp));
    } else {
        if all_digits(ip) && all_digits(fp) {
            assert forall|i: int| 0 <= i < (ip + fp).len() implies is_digit_c(
                #[trigger] (ip + fp)[i],
            ) by {
                if i < ip.len() {
                    assert((ip + fp)[i] == ip[i]);
                } else {
                    assert((ip + fp)[i] == fp[i - ip.len()]);
                }
            }
        }
    }
}

/// `dec_val` of the two digit runs around the dot, combined; `None` when it
/// exceeds 128 bits.
#[verifier::loop_isolation(false)]
fn combine_digits(v: &Vec<char>, start: usize, k: usize, end: usize, ip: i128, fp: i128) -> (r:
    Option<i128>)
    requires
        start <= k < end <= v@.len(),
        all_digits(v@.subrange(start as int, k as int)),
        all_digits(v@.subrange(k + 1, end as int)),
        ip as int == dec_val(v@.subrange(start as int, k as int)),
        fp as int == dec_val(v@.subrange(k + 1, end as int)),
        ip >= 0,
        fp >= 0,
    ensures
        ({
            let joined = v@.subrange(start as int, k as int) + v@.subrange(k + 1, end as int);
            match r {
                Some(x) => x as int == dec_val(joined) && x >= 0,
                None => dec_val(joined) > i128::MAX,
            }
        }),
{
    let ghost ipd = v@.subrange(start as int, k as int);
    let ghost fpd = v@.subrange(k + 1, end as int);
    let mut acc = ip;
    let mut i = k + 1;
    proof {
        assert(ipd + fpd.subrange(0, 0) =~= ipd);
    }
    while i < end
        invariant
            k + 1 <= i <= end,
            acc >= 0,
            acc as int == dec_val(ipd + v@.subrange(k + 1, i as int)),
        decreases end - i,
    {
        let c = v[i];
        proof {
            assert(fpd[i - k - 1] == v@[i as int]);
        }
        let d = (c as u32) - 48;
        let acc2 = match acc.checked_mul(10) {
            Some(x) => match x.checked_add(d as i128) {
                Some(y) => y,
                None => {
                    proof {
                        assert(v@.subrange(k + 1, i as int) =~= fpd.subrange(0, i - k - 1));
                        lemma_joined_overflow(ipd, fpd, i - k - 1, acc as int);
                    }
                    return None;
                },
            },
            None => {
                proof {
                    assert(v@.subrange(k + 1, i as int) =~= fpd.subrange(0, i - k - 1));
                    lemma_joined_overflow(ipd, fpd, i - k - 1, acc as int);
                }
                return None;
            },
        };
        proof {
            let pre = ipd + v@.subrange(k + 1, i as int);
            let pre2 = ipd + v@.subrange(k + 1, i + 1);
            assert(pre2.drop_last() =~= pre);
            assert(pre2[pre2.len() - 1] == v@[i as int]);
        }
        acc = acc2;
        i = i + 1;
    }
    proof {
        assert(ipd + v@.subrange(k + 1, i as int) =~= ipd + fpd);
    }
    Some(acc)
}

proof fn lemma_joined_overflow(ipd: Seq<char>, fpd: Seq<char>, j: int, acc: int)
    requires
        all_digits(ipd),
        all_digits(fpd),
        0 <= j < fpd.len(),
        acc == dec_val(ipd + fpd.subrange(0, j)),
        acc * 10 + (fpd[j] as int - 48) > i128::MAX,
    ensures
        dec_val(ipd + fpd) > i128::MAX,
{
    let s = ipd + fpd;
    assert(all_digits(s)) by {
        assert forall|i: int| 0 <= i < s.len() implies is_digit_c(#[trigger] s[i]) by {
            if i < ipd.len() {
                assert(s[i] == ipd[i]);
            } else {
                assert(s[i] == fpd[i - ipd.len()]);
            }
        }
    }
    assert(ipd + fpd.subrange(0, j + 1) =~= s.subrange(0, ipd.len() + j + 1));
    assert(ipd + fpd.subrange(0, j) =~= s.subrange(0, ipd.len() + j));
    assert((ipd + fpd.subrange(0, j + 1)).drop_last() =~= ipd + fpd.subrange(0, j));
    assert((ipd + fpd.subrange(0, j + 1)).last() == fpd[j]);
    assert(dec_val(s.subrange(0, ipd.len() + j + 1)) > i128::MAX);
    lemma_dec_val_grows(s, 0, ipd.len() + j + 1, s.len() as int);
    assert(s.subrange(0, s.len() as int) =~= s);
}

/// Parses a value token: a decimal or a two-term fraction.
fn parse_value_x(v: &Vec<char>) -> (r: Option<Rational>)
    ensures
        match r {
            Some(x) => spec_parse_value(v@) == Some(x@) && x.wf() && rat_wf(x@),
            None => spec_parse_value(v@) is None,
        },
{
    let n = v.len();
    match find_char_x(v, '/', 0) {
        None => parse_decimal_x(v),
        Some(k) => {
            proof {
                lemma_find_char_bounds(v@, '/', 0);
            }
            match find_char_x(v, '/', k + 1) {
                Some(_) => {
                    proof {
                        lemma_second_slash(v@, k as int);
                    }
                    None
                },
                None => {
                    proof {
                        lemma_second_slash(v@, k as int);
                    }
                    let a = subrange_chars(v, 0, k);
                    let b = subrange_chars(v, k + 1, v.len());
                    let x = match parse_decimal_x(&a) {
                        Some(x) => x,
                        None => {
                            return None;
                        },
                    };
                    let y = match parse_decimal_x(&b) {
                        Some(y) => y,
                        None => {
                            return None;
                        },
                    };
                    x.checked_over(&y)
                },
            }
        },
    }
}

/// A second slash in the remainder means the token has three or more parts.
proof fn lemma_second_slash(s: Seq<char>, k: int)
    requires
        0 <= k < s.len(),
        s[k] == '/',
    ensures
        ({
            let b = s.subrange(k + 1, s.len() as int);
            &&& (find_char(s, '/', k + 1) matches Some(j) ==> find_char(b, '/', 0) == Some(
                j - k - 1,
            ))
            &&& (find_char(s, '/', k + 1) is None ==> find_char(b, '/', 0) is None)
        }),
{
    lemma_second_slash_gen(s, k, k + 1);
}

proof fn lemma_second_slash_gen(s: Seq<char>, k: int, i: int)
    requires
        0 <= k < s.len(),
        k + 1 <= i <= s.len(),
    ensures
        ({
            let b = s.subrange(k + 1, s.len() as int);
            &&& (find_char(s, '/', i) matches Some(j) ==> find_char(b, '/', i - k - 1) == Some(
                j - k - 1,
            ))
            &&& (find_char(s, '/', i) is None ==> find_char(b, '/', i - k - 1) is None)
        }),
    decreases s.len() - i,
{
    let b = s.subrange(k + 1, s.len() as int);
    if i < s.len() {
        assert(b[i - k - 1] == s[i]);
        if s[i] != '/' {
            lemma_second_slash_gen(s, k, i + 1);
        }
    }
}

/// Parses the first value capture of the vector and returns it with the
/// trimmed unit text that follows it.
#[verifier::loop_isolation(false)]
pub fn parse_value_unit_chars(v: &Vec<char>) -> (r: Option<(Rational, Vec<char>)>)
    ensures
        match r {
            Some(p) => spec_parse_value_unit(v@) == Some((p.0@, p.1@)) && p.0.wf() && rat_wf(
                p.0@,
            ),
            None => spec_parse_value_unit(v@) is None,
        },
{
    let mut p: usize = 0;
    let mut found = false;
    while p < v.len() && !found
        invariant
            p <= v@.len(),
            !found ==> value_start(v@, 0) == value_start(v@, p as int),
            found ==> value_start(v@, 0) == Some(p as int) && p < v@.len(),
        decreases v@.len() - p + (if found {
            0int
        } else {
            1int
        }),
    {
        let c = v[p];
        if value_c(c) || (c == '-' && p + 1 < v.len() && value_c(v[p + 1])) {
            found = true;
        } else {
            p = p + 1;
        }
    }
    if !found {
        return None;
    }
    let j = if v[p] == '-' {
        p + 1
    } else {
        p
    };
    let ve = value_run_end_x(v, j);
    proof {
        lemma_value_run_bounds(v@, j as int);
        assert(p <= ve);
    }
    let vstr = subrange_chars(v, p, ve);
    let val = match parse_value_x(&vstr) {
        Some(x) => x,
        None => {
            return None;
        },
    };
    let rest = subrange_chars(v, ve, v.len());
    let unit = trim_chars(&rest);
    Some((val, unit))
}

/// Parses a value-unit pair from free text: the numeric value (a decimal or
/// a simple fraction) and the raw unit text written after it.
pub fn parse_value_unit(value_unit_str: &str) -> (r: Option<(Rational, String)>)
    ensures
        match r {
            Some(p) => spec_parse_value_unit(value_unit_str@) == Some((p.0@, p.1@)) && p.0.wf(),
            None => spec_parse_value_unit(value_unit_str@) is None,
        },
{
    let v = str_to_chars(value_unit_str);
    match parse_value_unit_chars(&v) {
        Some((val, unit)) => Some((val, string_from_chars(&unit))),
        None => None,
    }
}

} // verus!
