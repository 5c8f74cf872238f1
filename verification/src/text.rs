//! Character-level text utilities shared by the tokenizer, the resolver and
//! the renderers: ASCII classification, ASCII lowercasing, and conversions
//! between `&str`, `String` and `Vec<char>`.

use vstd::prelude::*;

verus! {

/// Relies on `String::push` from std: it appends exactly the one character.
pub assume_specification [ String::push ] (s: &mut String, c: char)
    ensures
        final(s)@ == old(s)@.push(c),
;

/// ASCII decimal digit.
pub open spec fn is_digit_c(c: char) -> bool {
    48 <= c as int <= 57
}

/// ASCII whitespace, as the tokenizer understands it.
pub open spec fn is_ws_c(c: char) -> bool {
    c == ' ' || c == '\t' || c == '\n' || c == '\r' || c == '\x0b' || c == '\x0c'
}

/// A character that may appear in a numeric value: digits, `'.'` and `'/'`.
pub open spec fn is_value_c(c: char) -> bool {
    is_digit_c(c) || c == '.' || c == '/'
}

/// A character that may open a unit word: anything but a digit, whitespace
/// or `'-'`.
pub open spec fn is_unit_c(c: char) -> bool {
    !is_digit_c(c) && !is_ws_c(c) && c != '-'
}

/// ASCII lowercasing of one character.
pub open spec fn lower_char(c: char) -> char {
    if 65 <= c as int <= 90 {
        ((c as u8) + 32) as char
    } else {
        c
    }
}

/// ASCII lowercasing of a character sequence.
pub open spec fn lower_seq(s: Seq<char>) -> Seq<char> {
    s.map_values(|c: char| lower_char(c))
}

pub fn digit_c(c: char) -> (r: bool)
    ensures
        r == is_digit_c(c),
{
    let u = c as u32;
    48 <= u && u <= 57
}

pub fn ws_c(c: char) -> (r: bool)
    ensures
        r == is_ws_c(c),
{
    c == ' ' || c == '\t' || c == '\n' || c == '\r' || c == '\x0b' || c == '\x0c'
}

pub fn value_c(c: char) -> (r: bool)
    ensures
        r == is_value_c(c),
{
    digit_c(c) || c == '.' || c == '/'
}

pub fn unit_c(c: char) -> (r: bool)
    ensures
        r == is_unit_c(c),
{
    !digit_c(c) && !ws_c(c) && c != '-'
}

pub fn lower_c(c: char) -> (r: char)
    ensures
        r == lower_char(c),
{
    let u = c as u32;
    if 65 <= u && u <= 90 {
        ((u + 32) as u8) as char
    } else {
        c
    }
}

/// The characters of `s` as a vector.
pub fn str_to_chars(s: &str) -> (r: Vec<char>)
    ensures
        r@ == s@,
{
    let n = s.unicode_len();
    let mut r: Vec<char> = Vec::new();
    let mut i: usize = 0;
    while i < n
        invariant
            i <= n,
            n == s@.len(),
            r@ == s@.subrange(0, i as int),
        decreases n - i,
    {
        r.push(s.get_char(i));
        proof {
            assert(r@ =~= s@.subrange(0, i + 1));
        }
        i = i + 1;
    }
    proof {
        assert(r@ =~= s@);
    }
    r
}

/// A `String` holding exactly the characters of `v`.
pub fn string_from_chars(v: &Vec<char>) -> (r: String)
    ensures
        r@ == v@,
{
    let mut r = String::new();
    let mut i: usize = 0;
    while i < v.len()
        invariant
            i <= v.len(),
            r@ == v@.subrange(0, i as int),
        decreases v.len() - i,
    {
        r.push(v[i]);
        proof {
            assert(r@ =~= v@.subrange(0, i + 1));
        }
        i = i + 1;
    }
    proof {
        assert(r@ =~= v@);
    }
    r
}

/// Exact comparison of a character vector against a string.
pub fn chars_eq_str(v: &Vec<char>, s: &str) -> (r: bool)
    ensures
        r == (v@ == s@),
{
    let n = s.unicode_len();
    if v.len() != n {
        proof {
            assert(v@ != s@) by {
                assert(v@.len() != s@.len());
            }
        }
        return false;
    }
    let mut i: usize = 0;
    while i < n
        invariant
            i <= n,
            n == s@.len(),
            n == v@.len(),
            forall|j: int| 0 <= j < i ==> v@[j] == s@[j],
        decreases n - i,
    {
        if v[i] != s.get_char(i) {
            return false;
        }
        i = i + 1;
    }
    proof {
        assert(v@ =~= s@);
    }
    true
}

/// Case-insensitive (ASCII) comparison of a character vector against a
/// string.
pub fn chars_eq_str_ci(v: &Vec<char>, s: &str) -> (r: bool)
    ensures
        r == (lower_seq(v@) == lower_seq(s@)),
{
    let n = s.unicode_len();
    if v.len() != n {
        proof {
            assert(lower_seq(v@).len() != lower_seq(s@).len());
        }
        return false;
    }
    let mut i: usize = 0;
    while i < n
        invariant
            i <= n,
            n == s@.len(),
            n == v@.len(),
            forall|j: int| 0 <= j < i ==> lower_char(v@[j]) == lower_char(s@[j]),
        decreases n - i,
    {
        if lower_c(v[i]) != lower_c(s.get_char(i)) {
            proof {
                assert(lower_seq(v@)[i as int] != lower_seq(s@)[i as int]);
            }
            return false;
        }
        i = i + 1;
    }
    proof {
        assert(lower_seq(v@) =~= lower_seq(s@));
    }
    true
}

/// Appends every character of `s` to `out`.
pub fn push_str_chars(out: &mut Vec<char>, s: &str)
    ensures
        final(out)@ == old(out)@ + s@,
{
    let n = s.unicode_len();
    let mut i: usize = 0;
    while i < n
        invariant
            i <= n,
            n == s@.len(),
            out@ == old(out)@ + s@.subrange(0, i as int),
        decreases n - i,
    {
        out.push(s.get_char(i));
        proof {
            assert(out@ =~= old(out)@ + s@.subrange(0, i + 1));
        }
        i = i + 1;
    }
    proof {
        assert(out@ =~= old(out)@ + s@);
    }
}

/// Copies `v[from..to]` into a fresh vector.
pub fn subrange_chars(v: &Vec<char>, from: usize, to: usize) -> (r: Vec<char>)
    requires
        from <= to <= v@.len(),
    ensures
        r@ == v@.subrange(from as int, to as int),
{
    let mut r: Vec<char> = Vec::new();
    let mut i: usize = from;
    while i < to
        invariant
            from <= i <= to <= v@.len(),
            r@ == v@.subrange(from as int, i as int),
        decreases to - i,
    {
        r.push(v[i]);
        proof {
            assert(r@ =~= v@.subrange(from as int, i + 1));
        }
        i = i + 1;
    }
    r
}

} // verus!
