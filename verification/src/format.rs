//! Number formatting: a value is rounded half away from zero at a bounded
//! decimal precision and rendered minimally, trailing zeros dropped.

use vstd::prelude::*;
use crate::rational::{Rat, Rational, round_fits, spec_format};
use crate::text::string_from_chars;

verus! {

/// The precision used when the caller gives none.
pub const DEFAULT_PRECISION: i32 = 2;

/// The largest accepted precision; higher requests clamp to it.
pub const MAX_PRECISION: i32 = 14;

/// The effective precision: the default when absent, the default again for
/// a negative request (an out-of-range directive substitutes the default;
/// the caller surfaces the warning), and never above `MAX_PRECISION`.
pub open spec fn spec_clamp_precision(p: Option<i32>) -> int {
    let q = match p {
        None => DEFAULT_PRECISION as int,
        Some(x) => x as int,
    };
    if q < 0 {
        DEFAULT_PRECISION as int
    } else if q > MAX_PRECISION as int {
        MAX_PRECISION as int
    } else {
        q
    }
}

/// Formats `num` at the clamped precision; `None` only when the scaled
/// numerator does not fit in 128 bits.
pub fn format_number(num: &Rational, precision: Option<i32>) -> (r: Option<String>)
    requires
        num.wf(),
    ensures
        r is Some <==> round_fits(num@, spec_clamp_precision(precision) as nat),
        r matches Some(s) ==> s@ == spec_format(num@, spec_clamp_precision(precision) as nat),
{
    let mut prc: i32 = match precision {
        Some(p) => p,
        None => DEFAULT_PRECISION,
    };
    if prc < 0 {
        prc = DEFAULT_PRECISION;
    }
    if prc > MAX_PRECISION {
        prc = MAX_PRECISION;
    }
    match num.format_digits(prc as u32) {
        Some(v) => Some(string_from_chars(&v)),
        None => None,
    }
}

} // verus!
