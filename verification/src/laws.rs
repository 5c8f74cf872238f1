//! The library's general laws, proved once and for all inputs: the
//! temperature formulas invert each other exactly, variant fan-out produces
//! exactly one row per source-variant × target-variant pair, aggregation
//! does not depend on token order, rounding never gets worse at a finer
//! precision, and integer rendering reads back to the same integer.

use vstd::prelude::*;
use crate::catalog::{CatalogV, Scale, UnitV, VariantV, unit_wf, variant_wf};
use crate::convert::{
    f_offset, five_ninths, formula_result, nine_fifths, target_rows, totals_of, totals_rows,
    upsert_total, variants_contrib, key_index,
};
use crate::rational::{
    Rat, abs_int, gcd, rat_add, rat_eq, rat_make, rat_mul, rat_neg, rat_wf, round_half_up, pow10,
    digits_of, digit_char, lemma_add_rep, lemma_mul_rep, lemma_canonical_unique,
    lemma_rat_add_wf, lemma_rat_make_id, lemma_add_exchange,
};
use crate::tokenize::{all_digits, dec_val};
use crate::format::{MAX_PRECISION, spec_clamp_precision};

verus! {

proof fn lemma_small_coprime()
    ensures
        gcd(9, 5) == 1,
        gcd(5, 9) == 1,
        gcd(32, 1) == 1,
        rat_wf(nine_fifths()),
        rat_wf(five_ninths()),
        rat_wf(f_offset()),
        rat_wf(rat_neg(f_offset())),
{
    assert(gcd(9nat, 5nat) == gcd(5nat, 4nat));
    assert(gcd(5nat, 4nat) == gcd(4nat, 1nat));
    assert(gcd(4nat, 1nat) == gcd(1nat, 0nat));
    assert(gcd(1nat, 0nat) == 1);
    assert(gcd(5nat, 9nat) == gcd(9nat, 5nat));
    assert(gcd(32nat, 1nat) == gcd(1nat, 0nat));
    assert(abs_int(9int) == 9nat && abs_int(5int) == 5nat && abs_int(32int) == 32nat
        && abs_int(-32int) == 32nat);
}

/// Formula round trip: converting a Celsius value to Fahrenheit and back —
/// or the other way around — returns exactly the value it started from.
pub proof fn law_formula_round_trip(x: Rat)
    requires
        rat_wf(x),
    ensures
        formula_result(
            Scale::Celsius,
            Scale::Fahrenheit,
            formula_result(Scale::Fahrenheit, Scale::Celsius, x),
        ) == x,
        formula_result(
            Scale::Fahrenheit,
            Scale::Celsius,
            formula_result(Scale::Celsius, Scale::Fahrenheit, x),
        ) == x,
{
    lemma_small_coprime();
    // Celsius -> Fahrenheit -> Celsius
    let y = rat_mul(x, nine_fifths());
    lemma_mul_rep(x, nine_fifths(), x.n, x.d, 9, 5);
    assert(x.d * 5 >= 1);
    let z = rat_add(y, f_offset());
    lemma_add_rep(y, f_offset(), 9 * x.n, 5 * x.d, 32, 1);
    assert(z == formula_result(Scale::Fahrenheit, Scale::Celsius, x));
    assert(z.n * ((5 * x.d) * 1) == ((9 * x.n) * 1 + 32 * (5 * x.d)) * z.d);
    assert(z.n * (5 * x.d) == (9 * x.n + 160 * x.d) * z.d) by (nonlinear_arith)
        requires
            z.n * ((5 * x.d) * 1) == ((9 * x.n) * 1 + 32 * (5 * x.d)) * z.d,
    ;
    let w = rat_add(z, rat_neg(f_offset()));
    lemma_add_rep(z, rat_neg(f_offset()), 9 * x.n + 160 * x.d, 5 * x.d, -32, 1);
    assert(w.n * ((5 * x.d) * 1) == ((9 * x.n + 160 * x.d) * 1 + (-32) * (5 * x.d)) * w.d);
    assert(w.n * (5 * x.d) == (9 * x.n) * w.d) by (nonlinear_arith)
        requires
            w.n * ((5 * x.d) * 1) == ((9 * x.n + 160 * x.d) * 1 + (-32) * (5 * x.d)) * w.d,
    ;
    let u = rat_mul(w, five_ninths());
    lemma_mul_rep(w, five_ninths(), 9 * x.n, 5 * x.d, 5, 9);
    assert(u == formula_result(Scale::Celsius, Scale::Fahrenheit, z));
    assert(u.n * ((5 * x.d) * 9) == ((9 * x.n) * 5) * u.d);
    assert(rat_eq(u, x)) by (nonlinear_arith)
        requires
            u.n * ((5 * x.d) * 9) == ((9 * x.n) * 5) * u.d,
            x.d >= 1,
            u.d >= 1,
    ;
    lemma_canonical_unique(u, x);
    // Fahrenheit -> Celsius -> Fahrenheit
    let a = rat_add(x, rat_neg(f_offset()));
    lemma_add_rep(x, rat_neg(f_offset()), x.n, x.d, -32, 1);
    let b = rat_mul(a, five_ninths());
    assert(a.n * (x.d * 1) == (x.n * 1 + (-32) * x.d) * a.d);
    assert(a.n * x.d == (x.n - 32 * x.d) * a.d) by (nonlinear_arith)
        requires
            a.n * (x.d * 1) == (x.n * 1 + (-32) * x.d) * a.d,
    ;
    lemma_mul_rep(a, five_ninths(), x.n - 32 * x.d, x.d, 5, 9);
    assert(b == formula_result(Scale::Celsius, Scale::Fahrenheit, x));
    assert(b.n * (x.d * 9) == ((x.n - 32 * x.d) * 5) * b.d);
    let c = rat_mul(b, nine_fifths());
    lemma_mul_rep(b, nine_fifths(), (x.n - 32 * x.d) * 5, x.d * 9, 9, 5);
    assert(x.d * 9 >= 1);
    assert(c.n * ((x.d * 9) * 5) == (((x.n - 32 * x.d) * 5) * 9) * c.d);
    assert(c.n * (x.d * 45) == ((x.n - 32 * x.d) * 45) * c.d) by (nonlinear_arith)
        requires
            c.n * ((x.d * 9) * 5) == (((x.n - 32 * x.d) * 5) * 9) * c.d,
    ;
    let e = rat_add(c, f_offset());
    lemma_add_rep(c, f_offset(), (x.n - 32 * x.d) * 45, x.d * 45, 32, 1);
    assert(x.d * 45 >= 1);
    assert(e == formula_result(Scale::Fahrenheit, Scale::Celsius, b));
    assert(e.n * ((x.d * 45) * 1) == (((x.n - 32 * x.d) * 45) * 1 + 32 * (x.d * 45)) * e.d);
    assert(rat_eq(e, x)) by (nonlinear_arith)
        requires
            e.n * ((x.d * 45) * 1) == (((x.n - 32 * x.d) * 45) * 1 + 32 * (x.d * 45)) * e.d,
            x.d >= 1,
            e.d >= 1,
    ;
    lemma_canonical_unique(e, x);
}


proof fn lemma_target_rows_len(
    fam_name: Seq<char>,
    disp: Seq<char>,
    tvars: Seq<VariantV>,
    abbr: Seq<char>,
    label: Seq<char>,
    total: Rat,
    multiple: bool,
    prec: int,
    j: int,
)
    requires
        0 <= j <= tvars.len(),
        target_rows(fam_name, disp, tvars, abbr, label, total, multiple, prec, j) is Some,
    ensures
        target_rows(fam_name, disp, tvars, abbr, label, total, multiple, prec, j)->Some_0.len()
            == tvars.len() - j,
    decreases tvars.len() - j,
{
    if j < tvars.len() {
        lemma_target_rows_len(fam_name, disp, tvars, abbr, label, total, multiple, prec, j + 1);
    }
}

proof fn lemma_totals_rows_len(
    fam_name: Seq<char>,
    disp: Seq<char>,
    tvars: Seq<VariantV>,
    abbr: Seq<char>,
    totals: Seq<(Seq<char>, Rat)>,
    prec: int,
    i: int,
)
    requires
        0 <= i <= totals.len(),
        totals_rows(fam_name, disp, tvars, abbr, totals, prec, i) is Some,
    ensures
        totals_rows(fam_name, disp, tvars, abbr, totals, prec, i)->Some_0.len() == (totals.len()
            - i) * tvars.len(),
    decreases totals.len() - i,
{
    if i < totals.len() {
        lemma_target_rows_len(
            fam_name,
            disp,
            tvars,
            abbr,
            totals[i].0,
            totals[i].1,
            totals.len() > 1,
            prec,
            0,
        );
        lemma_totals_rows_len(fam_name, disp, tvars, abbr, totals, prec, i + 1);
        assert((totals.len() - i) * tvars.len() == tvars.len() + (totals.len() - i - 1)
            * tvars.len()) by (nonlinear_arith);
    } else {
        assert((totals.len() - i) * tvars.len() == 0) by (nonlinear_arith)
            requires
                i == totals.len(),
        ;
    }
}

/// Variant fan-out cardinality: the ratio path yields exactly one result
/// row per (source-variant total) × (target variant) pair — `M` totals
/// against `N` target variants give `M × N` rows.
pub proof fn law_variant_fan_out(
    fam_name: Seq<char>,
    disp: Seq<char>,
    tvars: Seq<VariantV>,
    abbr: Seq<char>,
    totals: Seq<(Seq<char>, Rat)>,
    prec: int,
)
    requires
        totals_rows(fam_name, disp, tvars, abbr, totals, prec, 0) is Some,
    ensures
        totals_rows(fam_name, disp, tvars, abbr, totals, prec, 0)->Some_0.len() == totals.len()
            * tvars.len(),
{
    lemma_totals_rows_len(fam_name, disp, tvars, abbr, totals, prec, 0);
}

proof fn lemma_key_index_absent(m: Seq<(Seq<char>, Rat)>, label: Seq<char>, i: int)
    requires
        0 <= i <= m.len(),
        forall|j: int| i <= j < m.len() ==> (#[trigger] m[j]).0 != label,
    ensures
        key_index(m, label, i) is None,
    decreases m.len() - i,
{
    if i < m.len() {
        lemma_key_index_absent(m, label, i + 1);
    }
}

proof fn lemma_contrib_labels(
    m: Seq<(Seq<char>, Rat)>,
    vars: Seq<VariantV>,
    value: Rat,
    k: int,
)
    requires
        0 <= k <= vars.len(),
        m.len() == k,
        forall|j: int| 0 <= j < k ==> (#[trigger] m[j]).0 == vars[j].label,
        forall|i: int, j: int|
            0 <= i < j < vars.len() ==> (#[trigger] vars[i]).label != (#[trigger] vars[j]).label,
        variants_contrib(m, vars, value, k) is Some,
    ensures
        variants_contrib(m, vars, value, k)->Some_0.len() == vars.len(),
    decreases vars.len() - k,
{
    if k < vars.len() {
        assert(forall|j: int| 0 <= j < k ==> (#[trigger] m[j]).0 != vars[k as int].label);
        lemma_key_index_absent(m, vars[k].label, 0);
        let m2 = m.push((vars[k].label, rat_mul(value, vars[k].ratio)));
        assert(upsert_total(m, vars[k].label, rat_mul(value, vars[k].ratio)) == Some(m2));
        lemma_contrib_labels(m2, vars, value, k + 1);
    }
}

/// A single source token with `M` distinct ratio variants produces exactly
/// `M` source-variant totals, so together with `law_variant_fan_out` a
/// conversion of one `M`-variant unit into an `N`-variant unit yields
/// `M × N` rows.
pub proof fn law_single_source_variant_count(vars: Seq<VariantV>, value: Rat)
    requires
        forall|i: int, j: int|
            0 <= i < j < vars.len() ==> (#[trigger] vars[i]).label != (#[trigger] vars[j]).label,
        variants_contrib(Seq::empty(), vars, value, 0) is Some,
    ensures
        variants_contrib(Seq::empty(), vars, value, 0)->Some_0.len() == vars.len(),
{
    lemma_contrib_labels(Seq::empty(), vars, value, 0);
}

/// `pow10` turns addition of exponents into multiplication.
proof fn lemma_pow10_adds(a: nat, b: nat)
    ensures
        pow10(a + b) == pow10(a) * pow10(b),
    decreases b,
{
    if b == 0 {
        assert(pow10(a + 0) == pow10(a) * 1) by (nonlinear_arith)
            requires
                pow10(a + 0) == pow10(a),
        ;
    } else {
        lemma_pow10_adds(a, (b - 1) as nat);
        assert(a + b >= 1);
        assert(pow10(a + b) == 10 * pow10((a + b - 1) as nat));
        assert(pow10(b) == 10 * pow10((b - 1) as nat));
        assert(10 * (pow10(a) * pow10((b - 1) as nat)) == pow10(a) * (10 * pow10(
            (b - 1) as nat,
        ))) by (nonlinear_arith);
    }
}

/// Rounding half away from zero lands on a nearest multiple: the scaled
/// error is at most half the divisor, and no other integer quotient comes
/// closer.
pub proof fn lemma_round_nearest(x: nat, d: nat, m: int)
    requires
        d >= 1,
    ensures
        2 * abs_int(round_half_up(x, d) * d - x) <= d,
        abs_int(round_half_up(x, d) * d - x) <= abs_int(m * d - x),
{
    let r = round_half_up(x, d) as int;
    vstd::arithmetic::div_mod::lemma_fundamental_div_mod((2 * x + d) as int, (2 * d) as int);
    let rem = (2 * x + d) as int % (2 * d) as int;
    assert(2 * x + d == (2 * d) * r + rem);
    assert(0 <= rem < 2 * d);
    assert(2 * (r * d - x) == d - rem) by (nonlinear_arith)
        requires
            2 * x + d == (2 * d) * r + rem,
    ;
    assert(2 * abs_int(r * d - x) <= d);
    if m != r {
        assert(2 * (m * d - x) == 2 * d * (m - r) + (d - rem)) by (nonlinear_arith)
            requires
                2 * (r * d - x) == d - rem,
    ;
        if m > r {
            assert(2 * d * (m - r) >= 2 * d) by (nonlinear_arith)
                requires
                    m - r >= 1,
                    d >= 1,
            ;
            assert(2 * (m * d - x) >= 2 * d + (d - rem));
            assert(2 * abs_int(m * d - x) >= d);
        } else {
            assert(2 * d * (m - r) <= -2 * (d as int)) by (nonlinear_arith)
                requires
                    m - r <= -1,
                    d >= 1,
            ;
            assert(2 * (m * d - x) <= -2 * (d as int) + (d - rem));
            assert(2 * (m * d - x) <= -(rem + d));
            assert(2 * abs_int(m * d - x) >= d);
        }
        assert(abs_int(r * d - x) <= abs_int(m * d - x));
    }
}

/// Precision monotonicity: rounding the same value at a finer precision
/// never loses more than rounding at a coarser one — the absolute rounding
/// errors, brought to a common scale, only shrink as the precision grows.
pub proof fn law_precision_monotone(n: nat, d: nat, p: nat, q: nat)
    requires
        d >= 1,
        p <= q,
    ensures
        abs_int(round_half_up(n * pow10(q), d) * d - n * pow10(q)) * pow10(p) <= abs_int(
            round_half_up(n * pow10(p), d) * d - n * pow10(p),
        ) * pow10(q),
{
    let t = pow10((q - p) as nat);
    lemma_pow10_adds(p, (q - p) as nat);
    assert(pow10(q) == pow10(p) * t);
    crate::rational::lemma_pow10_mono(0, (q - p) as nat);
    crate::rational::lemma_pow10_mono(0, p);
    let rp = round_half_up(n * pow10(p), d) as int;
    let m = rp * t;
    lemma_round_nearest(n * pow10(q), d, m);
    assert(m * d - n * pow10(q) == t * (rp * d - n * pow10(p))) by (nonlinear_arith)
        requires
            m == rp * t,
            pow10(q) == pow10(p) * t,
    ;
    assert(abs_int(m * d - n * pow10(q)) == t * abs_int(rp * d - n * pow10(p)))
        by (nonlinear_arith)
        requires
            m * d - n * pow10(q) == t * (rp * d - n * pow10(p)),
            t >= 1,
    ;
    let eq_ = abs_int(round_half_up(n * pow10(q), d) * d - n * pow10(q));
    let ep = abs_int(rp * d - n * pow10(p));
    assert(eq_ <= t * ep);
    assert(eq_ * pow10(p) <= (t * ep) * pow10(p)) by (nonlinear_arith)
        requires
            eq_ <= t * ep,
            pow10(p) >= 1,
    ;
    assert((t * ep) * pow10(p) == ep * pow10(q)) by (nonlinear_arith)
        requires
            pow10(q) == pow10(p) * t,
    ;
}

/// A precision request above the maximum clamps to the maximum and a
/// missing or negative one falls back into range: the effective precision
/// always lies between zero and the maximum, and never fails.
pub proof fn law_precision_clamps(p: Option<i32>)
    ensures
        0 <= spec_clamp_precision(p) <= MAX_PRECISION as int,
        (p matches Some(x) ==> (x > MAX_PRECISION ==> spec_clamp_precision(p)
            == MAX_PRECISION as int)),
        (p matches Some(x) ==> (0 <= x <= MAX_PRECISION ==> spec_clamp_precision(p)
            == x as int)),
{
}

/// Rendering a natural number as decimal digits and reading the digits back
/// yields the same number: the core of display/re-parse idempotence.
pub proof fn law_digits_round_trip(m: nat)
    ensures
        all_digits(digits_of(m)),
        dec_val(digits_of(m)) == m,
    decreases m,
{
    if m < 10 {
        let s = digits_of(m);
        assert(s == seq![digit_char(m)]);
        assert(digit_char(m) as int == 48 + m) by {
            assert(((48 + m) as u8) as char as int == 48 + m);
        }
        assert(crate::text::is_digit_c(s[0]));
        assert(s.drop_last() =~= Seq::<char>::empty());
        assert(s.drop_last().len() == 0);
        assert(dec_val(s.drop_last()) == 0);
        assert(s[s.len() - 1] == digit_char(m));
        assert(dec_val(s) == dec_val(s.drop_last()) * 10 + (s[s.len() - 1] as int - 48));
        assert(dec_val(s) == m);
    } else {
        law_digits_round_trip(m / 10);
        let s = digits_of(m);
        let s0 = digits_of(m / 10);
        assert(s == s0.push(digit_char(m % 10)));
        assert(s.drop_last() =~= s0);
        assert(digit_char(m % 10) as int == 48 + (m % 10)) by {
            assert(m % 10 < 10);
            assert(((48 + m % 10) as u8) as char as int == 48 + (m % 10));
        }
        assert(dec_val(s) == dec_val(s0) * 10 + (m % 10));
        vstd::arithmetic::div_mod::lemma_fundamental_div_mod(m as int, 10);
        assert(all_digits(s)) by {
            assert(forall|i: int| 0 <= i < s0.len() ==> s[i] == #[trigger] s0[i]);
            assert(crate::text::is_digit_c(s[s.len() - 1]));
        }
    }
}



/// The contribution of one resolved single-variant token: its value times
/// its unit's ratio.
pub open spec fn contrib_val(cat: CatalogV, fam: int, t: (Rat, int)) -> Rat {
    rat_mul(t.0, cat.families[fam].units[t.1].variants[0].ratio)
}

/// Validity of a resolved token list whose units each carry exactly one,
/// unlabeled ratio variant.
pub open spec fn toks_ok(cat: CatalogV, fam: int, toks: Seq<(Rat, int)>) -> bool {
    &&& 0 <= fam < cat.families.len()
    &&& forall|i: int|
        0 <= i < toks.len() ==> {
            let t = #[trigger] toks[i];
            &&& 0 <= t.1 < cat.families[fam].units.len()
            &&& rat_wf(t.0)
            &&& cat.families[fam].units[t.1].variants.len() == 1
            &&& cat.families[fam].units[t.1].variants[0].label == Seq::<char>::empty()
            &&& variant_wf(cat.families[fam].units[t.1].variants[0])
        }
}

/// The aggregated base-unit value of a token list.
pub open spec fn token_sum(cat: CatalogV, fam: int, toks: Seq<(Rat, int)>) -> Rat
    decreases toks.len(),
{
    if toks.len() == 0 {
        Rat { n: 0, d: 1 }
    } else {
        rat_add(token_sum(cat, fam, toks.drop_last()), contrib_val(cat, fam, toks.last()))
    }
}

proof fn lemma_zero_wf()
    ensures
        rat_wf(Rat { n: 0, d: 1 }),
{
    assert(gcd(0nat, 1nat) == gcd(1nat, 0nat % 1nat));
    vstd::arithmetic::div_mod::lemma_small_mod(0nat, 1nat);
    assert(gcd(0nat, 1nat) == gcd(1nat, 0nat));
    assert(abs_int(0int) == 0nat);
}

proof fn lemma_contrib_wf(cat: CatalogV, fam: int, t: (Rat, int))
    requires
        0 <= fam < cat.families.len(),
        0 <= t.1 < cat.families[fam].units.len(),
        rat_wf(t.0),
        cat.families[fam].units[t.1].variants.len() == 1,
        variant_wf(cat.families[fam].units[t.1].variants[0]),
    ensures
        rat_wf(contrib_val(cat, fam, t)),
{
    let r = cat.families[fam].units[t.1].variants[0].ratio;
    lemma_mul_rep(t.0, r, t.0.n, t.0.d, r.n, r.d);
}

proof fn lemma_toks_ok_drop(cat: CatalogV, fam: int, toks: Seq<(Rat, int)>)
    requires
        toks_ok(cat, fam, toks),
        toks.len() >= 1,
    ensures
        toks_ok(cat, fam, toks.drop_last()),
        toks_ok(cat, fam, toks.skip(1)),
{
    assert(forall|i: int|
        0 <= i < toks.len() - 1 ==> #[trigger] toks.drop_last()[i] == toks[i]);
    assert(forall|i: int|
        0 <= i < toks.len() - 1 ==> #[trigger] toks.skip(1)[i] == toks[i + 1]);
}

proof fn lemma_toks_ok_remove(cat: CatalogV, fam: int, toks: Seq<(Rat, int)>, i: int)
    requires
        toks_ok(cat, fam, toks),
        0 <= i < toks.len(),
    ensures
        toks_ok(cat, fam, toks.remove(i)),
{
    assert(forall|j: int|
        0 <= j < i ==> #[trigger] toks.remove(i)[j] == toks[j]);
    assert(forall|j: int|
        i <= j < toks.len() - 1 ==> #[trigger] toks.remove(i)[j] == toks[j + 1]);
}

proof fn lemma_token_sum_wf(cat: CatalogV, fam: int, toks: Seq<(Rat, int)>)
    requires
        toks_ok(cat, fam, toks),
    ensures
        rat_wf(token_sum(cat, fam, toks)),
    decreases toks.len(),
{
    lemma_zero_wf();
    if toks.len() > 0 {
        lemma_toks_ok_drop(cat, fam, toks);
        lemma_token_sum_wf(cat, fam, toks.drop_last());
        lemma_contrib_wf(cat, fam, toks.last());
        lemma_rat_add_wf(
            token_sum(cat, fam, toks.drop_last()),
            contrib_val(cat, fam, toks.last()),
        );
    }
}

proof fn lemma_token_sum_remove(cat: CatalogV, fam: int, toks: Seq<(Rat, int)>, i: int)
    requires
        toks_ok(cat, fam, toks),
        0 <= i < toks.len(),
    ensures
        token_sum(cat, fam, toks) == rat_add(
            token_sum(cat, fam, toks.remove(i)),
            contrib_val(cat, fam, toks[i]),
        ),
    decreases toks.len(),
{
    if i == toks.len() - 1 {
        assert(toks.remove(i) =~= toks.drop_last());
    } else {
        let d = toks.drop_last();
        let x = toks.last();
        lemma_toks_ok_drop(cat, fam, toks);
        lemma_token_sum_remove(cat, fam, d, i);
        assert(toks.remove(i).drop_last() =~= d.remove(i));
        assert(toks.remove(i).last() == x);
        assert(toks.remove(i).len() == toks.len() - 1 >= 1);
        assert(token_sum(cat, fam, toks.remove(i)) == rat_add(
            token_sum(cat, fam, d.remove(i)),
            contrib_val(cat, fam, x),
        ));
        lemma_toks_ok_remove(cat, fam, d, i);
        lemma_token_sum_wf(cat, fam, d.remove(i));
        lemma_contrib_wf(cat, fam, toks[i]);
        lemma_contrib_wf(cat, fam, x);
        lemma_add_exchange(
            token_sum(cat, fam, d.remove(i)),
            contrib_val(cat, fam, toks[i]),
            contrib_val(cat, fam, x),
        );
        assert(d[i] == toks[i]);
    }
}

proof fn lemma_token_sum_permuted(cat: CatalogV, fam: int, s: Seq<(Rat, int)>, t: Seq<(Rat, int)>)
    requires
        toks_ok(cat, fam, s),
        toks_ok(cat, fam, t),
        s.to_multiset() == t.to_multiset(),
    ensures
        token_sum(cat, fam, s) == token_sum(cat, fam, t),
    decreases t.len(),
{
    broadcast use vstd::seq_lib::group_to_multiset_ensures;
    broadcast use vstd::multiset::group_multiset_axioms;

    assert(s.len() == s.to_multiset().len());
    assert(t.len() == t.to_multiset().len());
    if t.len() == 0 {
        assert(s.len() == 0);
    } else {
        let x = t.last();
        let t0 = t.drop_last();
        assert(t =~= t0.push(x));
        assert(t0.push(x).to_multiset() =~= t0.to_multiset().insert(x));
        assert(s.to_multiset().count(x) == t0.to_multiset().insert(x).count(x));
        assert(s.to_multiset().count(x) > 0);
        assert(s.contains(x));
        let i = choose|i: int| 0 <= i < s.len() && s[i] == x;
        assert(s.remove(i).to_multiset() =~= s.to_multiset().remove(x));
        assert(s.remove(i).to_multiset() =~= t0.to_multiset()) by {
            assert(forall|y: (Rat, int)|
                #[trigger] s.to_multiset().remove(x).count(y) == t0.to_multiset().count(y));
        }
        lemma_toks_ok_remove(cat, fam, s, i);
        lemma_toks_ok_drop(cat, fam, t);
        lemma_token_sum_permuted(cat, fam, s.remove(i), t0);
        lemma_token_sum_remove(cat, fam, s, i);
    }
}

/// The running value the totals loop carries.
pub open spec fn sum_from(cat: CatalogV, fam: int, acc: Rat, toks: Seq<(Rat, int)>) -> Rat
    decreases toks.len(),
{
    if toks.len() == 0 {
        acc
    } else {
        sum_from(cat, fam, rat_add(acc, contrib_val(cat, fam, toks[0])), toks.skip(1))
    }
}

proof fn lemma_sum_from_last(cat: CatalogV, fam: int, acc: Rat, toks: Seq<(Rat, int)>)
    requires
        toks_ok(cat, fam, toks),
        rat_wf(acc),
        toks.len() >= 1,
    ensures
        sum_from(cat, fam, acc, toks) == rat_add(
            sum_from(cat, fam, acc, toks.drop_last()),
            contrib_val(cat, fam, toks.last()),
        ),
    decreases toks.len(),
{
    lemma_toks_ok_drop(cat, fam, toks);
    if toks.len() == 1 {
        assert(toks.skip(1) =~= Seq::<(Rat, int)>::empty());
        assert(toks.drop_last() =~= Seq::<(Rat, int)>::empty());
        assert(toks.last() == toks[0]);
        let acc2 = rat_add(acc, contrib_val(cat, fam, toks[0]));
        assert(sum_from(cat, fam, acc, toks) == sum_from(cat, fam, acc2, toks.skip(1)));
        assert(sum_from(cat, fam, acc2, toks.skip(1)) == acc2);
        assert(sum_from(cat, fam, acc, toks.drop_last()) == acc);
    } else {
        let acc2 = rat_add(acc, contrib_val(cat, fam, toks[0]));
        lemma_contrib_wf(cat, fam, toks[0]);
        lemma_rat_add_wf(acc, contrib_val(cat, fam, toks[0]));
        lemma_sum_from_last(cat, fam, acc2, toks.skip(1));
        assert(toks.skip(1).drop_last() =~= toks.drop_last().skip(1));
        assert(toks.skip(1).last() == toks.last());
        assert(toks.drop_last()[0] == toks[0]);
        assert(sum_from(cat, fam, acc, toks) == sum_from(cat, fam, acc2, toks.skip(1)));
        assert(sum_from(cat, fam, acc2, toks.skip(1)) == rat_add(
            sum_from(cat, fam, acc2, toks.skip(1).drop_last()),
            contrib_val(cat, fam, toks.skip(1).last()),
        ));
        assert(sum_from(cat, fam, acc2, toks.skip(1).drop_last()) == sum_from(
            cat,
            fam,
            acc2,
            toks.drop_last().skip(1),
        ));
        assert(sum_from(cat, fam, acc, toks.drop_last()) == sum_from(
            cat,
            fam,
            acc2,
            toks.drop_last().skip(1),
        ));
        assert(contrib_val(cat, fam, toks.skip(1).last()) == contrib_val(cat, fam, toks.last()));
    }
}

proof fn lemma_token_sum_from(cat: CatalogV, fam: int, toks: Seq<(Rat, int)>)
    requires
        toks_ok(cat, fam, toks),
    ensures
        token_sum(cat, fam, toks) == sum_from(cat, fam, Rat { n: 0, d: 1 }, toks),
    decreases toks.len(),
{
    lemma_zero_wf();
    if toks.len() >= 1 {
        lemma_toks_ok_drop(cat, fam, toks);
        lemma_token_sum_from(cat, fam, toks.drop_last());
        lemma_sum_from_last(cat, fam, Rat { n: 0, d: 1 }, toks);
    }
}

proof fn lemma_totals_acc(cat: CatalogV, fam: int, toks: Seq<(Rat, int)>, acc: Rat)
    requires
        toks_ok(cat, fam, toks),
        rat_wf(acc),
        totals_of(cat, fam, toks, seq![(Seq::<char>::empty(), acc)]) is Some,
    ensures
        totals_of(cat, fam, toks, seq![(Seq::<char>::empty(), acc)]) == Some(
            seq![(Seq::<char>::empty(), sum_from(cat, fam, acc, toks))],
        ),
    decreases toks.len(),
{
    let e = Seq::<char>::empty();
    let m0 = seq![(e, acc)];
    if toks.len() == 0 {
    } else {
        let u = cat.families[fam].units[toks[0].1];
        let vars = u.variants;
        let c = rat_mul(toks[0].0, vars[0].ratio);
        assert(vars.len() == 1 && vars[0].label == e);
        assert(key_index(m0, e, 0) == Some(0int));
        let m1 = m0.update(0, (e, rat_add(acc, c)));
        assert(variants_contrib(m0, vars, toks[0].0, 0) is Some) by {
            assert(totals_of(cat, fam, toks, m0) is Some);
        }
        assert(upsert_total(m0, e, c) == Some(m1));
        assert(variants_contrib(m0, vars, toks[0].0, 0) == Some(m1)) by {
            assert(variants_contrib(m1, vars, toks[0].0, 1) == Some(m1));
        }
        assert(m1 =~= seq![(e, rat_add(acc, c))]);
        lemma_contrib_wf(cat, fam, toks[0]);
        lemma_rat_add_wf(acc, c);
        lemma_toks_ok_drop(cat, fam, toks);
        lemma_totals_acc(cat, fam, toks.skip(1), rat_add(acc, c));
        assert(c == contrib_val(cat, fam, toks[0]));
    }
}

/// Token-order commutativity of aggregation: over units with a single
/// unlabeled ratio variant, two token lists that are permutations of each
/// other and both aggregate without overflow produce exactly the same
/// totals — the base-unit sum does not depend on input order.
pub proof fn law_aggregation_token_order(
    cat: CatalogV,
    fam: int,
    s: Seq<(Rat, int)>,
    t: Seq<(Rat, int)>,
)
    requires
        toks_ok(cat, fam, s),
        toks_ok(cat, fam, t),
        s.to_multiset() == t.to_multiset(),
        totals_of(cat, fam, s, Seq::empty()) is Some,
        totals_of(cat, fam, t, Seq::empty()) is Some,
    ensures
        totals_of(cat, fam, s, Seq::empty()) == totals_of(cat, fam, t, Seq::empty()),
{
    broadcast use vstd::seq_lib::group_to_multiset_ensures;

    assert(s.len() == s.to_multiset().len());
    assert(t.len() == t.to_multiset().len());
    if s.len() == 0 {
        assert(t.len() == 0);
    } else {
        lemma_totals_first(cat, fam, s);
        lemma_totals_first(cat, fam, t);
        lemma_token_sum_permuted(cat, fam, s, t);
        lemma_token_sum_from(cat, fam, s);
        lemma_token_sum_from(cat, fam, t);
    }
}

/// Unfolds the first aggregation step and closes the loop with
/// `lemma_totals_acc`: a nonempty run yields one unlabeled total holding
/// the whole token sum.
proof fn lemma_totals_first(cat: CatalogV, fam: int, toks: Seq<(Rat, int)>)
    requires
        toks_ok(cat, fam, toks),
        toks.len() >= 1,
        totals_of(cat, fam, toks, Seq::empty()) is Some,
    ensures
        totals_of(cat, fam, toks, Seq::empty()) == Some(
            seq![(Seq::<char>::empty(), token_sum(cat, fam, toks))],
        ),
{
    let e = Seq::<char>::empty();
    let u = cat.families[fam].units[toks[0].1];
    let vars = u.variants;
    let c = rat_mul(toks[0].0, vars[0].ratio);
    assert(vars.len() == 1 && vars[0].label == e);
    assert(key_index(Seq::<(Seq<char>, Rat)>::empty(), e, 0) is None);
    let m1 = Seq::<(Seq<char>, Rat)>::empty().push((e, c));
    assert(upsert_total(Seq::empty(), e, c) == Some(m1));
    assert(variants_contrib(Seq::<(Seq<char>, Rat)>::empty(), vars, toks[0].0, 0) == Some(m1))
        by {
        assert(variants_contrib(m1, vars, toks[0].0, 1) == Some(m1));
    }
    assert(m1 =~= seq![(e, c)]);
    lemma_contrib_wf(cat, fam, toks[0]);
    lemma_toks_ok_drop(cat, fam, toks);
    lemma_totals_acc(cat, fam, toks.skip(1), c);
    lemma_token_sum_from(cat, fam, toks);
    // sum_from with the zero seed folds the first contribution into the seed
    lemma_zero_wf();
    let z = Rat { n: 0, d: 1 };
    assert(rat_add(z, c) == c) by {
        crate::rational::lemma_rat_make_wf(c.n, c.d);
        assert(rat_add(z, c) == rat_make(0 * c.d + c.n * 1, 1 * c.d));
        assert(0 * c.d + c.n * 1 == c.n) by (nonlinear_arith);
        assert(1 * c.d == c.d) by (nonlinear_arith);
        lemma_rat_make_id(c);
    }
    assert(sum_from(cat, fam, z, toks) == sum_from(cat, fam, c, toks.skip(1)));
}



/// The unit a resolved token refers to.
pub open spec fn unit_of(cat: CatalogV, fam: int, t: (Rat, int)) -> UnitV {
    cat.families[fam].units[t.1]
}

/// First variant at or after `k` carrying this label.
pub open spec fn label_index(vars: Seq<VariantV>, lbl: Seq<char>, k: int) -> Option<int>
    decreases vars.len() - k,
    when 0 <= k <= vars.len()
{
    if k >= vars.len() {
        None
    } else if vars[k].label == lbl {
        Some(k)
    } else {
        label_index(vars, lbl, k + 1)
    }
}

/// The token's unit carries a variant with this label.
pub open spec fn has_label(cat: CatalogV, fam: int, t: (Rat, int), lbl: Seq<char>) -> bool {
    label_index(unit_of(cat, fam, t).variants, lbl, 0) is Some
}

/// What the token adds to this label's total: its value times the ratio of
/// the variant carrying the label.
pub open spec fn label_part(cat: CatalogV, fam: int, t: (Rat, int), lbl: Seq<char>) -> Rat {
    let vars = unit_of(cat, fam, t).variants;
    match label_index(vars, lbl, 0) {
        Some(vi) => rat_mul(t.0, vars[vi].ratio),
        None => Rat { n: 0, d: 1 },
    }
}

/// The aggregated value of one variant label over a token list.
pub open spec fn label_sum(cat: CatalogV, fam: int, toks: Seq<(Rat, int)>, lbl: Seq<char>) -> Rat
    decreases toks.len(),
{
    if toks.len() == 0 {
        Rat { n: 0, d: 1 }
    } else {
        let r = label_sum(cat, fam, toks.drop_last(), lbl);
        if has_label(cat, fam, toks.last(), lbl) {
            rat_add(r, label_part(cat, fam, toks.last(), lbl))
        } else {
            r
        }
    }
}

/// Some token of the list contributes to this label.
pub open spec fn touches(cat: CatalogV, fam: int, toks: Seq<(Rat, int)>, lbl: Seq<char>) -> bool {
    exists|i: int| 0 <= i < toks.len() && has_label(cat, fam, #[trigger] toks[i], lbl)
}

/// Validity of a resolved token list over ratio-based units of any variant
/// shape.
pub open spec fn toks_ok_multi(cat: CatalogV, fam: int, toks: Seq<(Rat, int)>) -> bool {
    &&& 0 <= fam < cat.families.len()
    &&& forall|i: int|
        0 <= i < toks.len() ==> {
            let t = #[trigger] toks[i];
            &&& 0 <= t.1 < cat.families[fam].units.len()
            &&& rat_wf(t.0)
            &&& unit_wf(unit_of(cat, fam, t))
            &&& unit_of(cat, fam, t).formula is None
        }
}

/// The total stored under a label, if the label is present.
pub open spec fn lookup_total(m: Seq<(Seq<char>, Rat)>, lbl: Seq<char>) -> Option<Rat> {
    match key_index(m, lbl, 0) {
        Some(ix) => Some(m[ix].1),
        None => None,
    }
}

/// Keys occur at most once.
pub open spec fn keys_distinct(m: Seq<(Seq<char>, Rat)>) -> bool {
    forall|i: int, j: int| 0 <= i < j < m.len() ==> (#[trigger] m[i]).0 != (#[trigger] m[j]).0
}

/// All stored totals are well formed.
pub open spec fn totals_wf(m: Seq<(Seq<char>, Rat)>) -> bool {
    forall|i: int| 0 <= i < m.len() ==> rat_wf((#[trigger] m[i]).1)
}

proof fn lemma_key_index_update(m: Seq<(Seq<char>, Rat)>, ix: int, v2: Rat, lbl: Seq<char>, k: int)
    requires
        0 <= ix < m.len(),
        0 <= k <= m.len(),
    ensures
        key_index(m.update(ix, (m[ix].0, v2)), lbl, k) == key_index(m, lbl, k),
    decreases m.len() - k,
{
    let m2 = m.update(ix, (m[ix].0, v2));
    assert(m2.len() == m.len());
    if k < m.len() {
        assert(m2[k].0 == m[k].0);
        lemma_key_index_update(m, ix, v2, lbl, k + 1);
    }
}

proof fn lemma_key_index_push(m: Seq<(Seq<char>, Rat)>, kv: (Seq<char>, Rat), lbl: Seq<char>, k: int)
    requires
        0 <= k <= m.len(),
    ensures
        key_index(m, lbl, k) matches Some(ix) ==> key_index(m.push(kv), lbl, k) == Some(ix),
        key_index(m, lbl, k) is None ==> key_index(m.push(kv), lbl, k) == (if kv.0 == lbl {
            Some(m.len() as int)
        } else {
            None
        }),
    decreases m.len() - k,
{
    let m2 = m.push(kv);
    if k < m.len() {
        assert(m2[k] == m[k]);
        lemma_key_index_push(m, kv, lbl, k + 1);
    } else {
        assert(m2[k] == kv);
        if kv.0 == lbl {
            assert(key_index(m2, lbl, k) == Some(k));
        } else {
            assert(key_index(m2, lbl, k) == key_index(m2, lbl, k + 1));
            assert(key_index(m2, lbl, k + 1) is None);
        }
    }
}

/// What one `upsert_total` does to each label's stored value.
proof fn lemma_upsert_lookup(m: Seq<(Seq<char>, Rat)>, label: Seq<char>, v: Rat, lbl: Seq<char>)
    requires
        keys_distinct(m),
        totals_wf(m),
        rat_wf(v),
        upsert_total(m, label, v) is Some,
    ensures
        ({
            let m2 = upsert_total(m, label, v)->Some_0;
            &&& keys_distinct(m2)
            &&& totals_wf(m2)
            &&& (lbl == label ==> lookup_total(m2, lbl) == (match lookup_total(m, lbl) {
                Some(o) => Some(rat_add(o, v)),
                None => Some(v),
            }))
            &&& (lbl != label ==> lookup_total(m2, lbl) == lookup_total(m, lbl))
        }),
{
    let m2 = upsert_total(m, label, v)->Some_0;
    lemma_key_index_bounds(m, lbl, 0);
    match key_index(m, label, 0) {
        Some(ix) => {
            lemma_key_index_bounds(m, label, 0);
            assert(m2 == m.update(ix, (label, rat_add(m[ix].1, v))));
            assert(m[ix].0 == label);
            assert(m2 == m.update(ix, (m[ix].0, rat_add(m[ix].1, v))));
            lemma_key_index_update(m, ix, rat_add(m[ix].1, v), lbl, 0);
            lemma_rat_add_wf(m[ix].1, v);
            assert(keys_distinct(m2)) by {
                assert(forall|q: int| 0 <= q < m.len() ==> (#[trigger] m2[q]).0 == m[q].0);
            }
            assert(totals_wf(m2)) by {
                assert(forall|q: int|
                    0 <= q < m.len() && q != ix ==> (#[trigger] m2[q]).1 == m[q].1);
            }
            if lbl == label {
                assert(key_index(m2, lbl, 0) == Some(ix));
                assert(lookup_total(m2, lbl) == Some(rat_add(m[ix].1, v)));
            }
        },
        None => {
            assert(m2 == m.push((label, v)));
            lemma_key_index_push(m, (label, v), lbl, 0);
            lemma_key_index_absent_converse(m, label, 0);
            assert(keys_distinct(m2)) by {
                assert(forall|q: int| 0 <= q < m.len() ==> (#[trigger] m2[q]).0 == m[q].0);
                assert(m2[m.len() as int].0 == label);
            }
            assert(totals_wf(m2)) by {
                assert(forall|q: int| 0 <= q < m.len() ==> (#[trigger] m2[q]).1 == m[q].1);
            }
            if lbl == label {
                assert(lookup_total(m2, lbl) == Some(v));
            }
        },
    }
}

proof fn lemma_key_index_bounds(m: Seq<(Seq<char>, Rat)>, lbl: Seq<char>, k: int)
    requires
        0 <= k <= m.len(),
    ensures
        key_index(m, lbl, k) matches Some(ix) ==> k <= ix < m.len() && m[ix].0 == lbl,
    decreases m.len() - k,
{
    if k < m.len() && m[k].0 != lbl {
        lemma_key_index_bounds(m, lbl, k + 1);
    }
}

/// A key that `key_index` misses appears nowhere at or after `k`.
proof fn lemma_key_index_absent_converse(m: Seq<(Seq<char>, Rat)>, lbl: Seq<char>, k: int)
    requires
        0 <= k <= m.len(),
        key_index(m, lbl, k) is None,
    ensures
        forall|j: int| k <= j < m.len() ==> (#[trigger] m[j]).0 != lbl,
    decreases m.len() - k,
{
    if k < m.len() {
        lemma_key_index_absent_converse(m, lbl, k + 1);
    }
}



proof fn lemma_label_index_bounds(vars: Seq<VariantV>, lbl: Seq<char>, k: int)
    requires
        0 <= k <= vars.len(),
    ensures
        label_index(vars, lbl, k) matches Some(vi) ==> k <= vi < vars.len() && vars[vi].label
            == lbl,
    decreases vars.len() - k,
{
    if k < vars.len() && vars[k].label != lbl {
        lemma_label_index_bounds(vars, lbl, k + 1);
    }
}

proof fn lemma_label_index_absent(vars: Seq<VariantV>, lbl: Seq<char>, k: int)
    requires
        0 <= k <= vars.len(),
        forall|j: int| k <= j < vars.len() ==> (#[trigger] vars[j]).label != lbl,
    ensures
        label_index(vars, lbl, k) is None,
    decreases vars.len() - k,
{
    if k < vars.len() {
        lemma_label_index_absent(vars, lbl, k + 1);
    }
}

proof fn lemma_label_part_wf(cat: CatalogV, fam: int, t: (Rat, int), lbl: Seq<char>)
    requires
        0 <= fam < cat.families.len(),
        0 <= t.1 < cat.families[fam].units.len(),
        rat_wf(t.0),
        unit_wf(unit_of(cat, fam, t)),
        unit_of(cat, fam, t).formula is None,
    ensures
        rat_wf(label_part(cat, fam, t, lbl)),
{
    let vars = unit_of(cat, fam, t).variants;
    lemma_label_index_bounds(vars, lbl, 0);
    match label_index(vars, lbl, 0) {
        Some(vi) => {
            let r = vars[vi].ratio;
            lemma_mul_rep(t.0, r, t.0.n, t.0.d, r.n, r.d);
        },
        None => {
            lemma_zero_wf();
        },
    }
}

proof fn lemma_toks_ok_multi_drop(cat: CatalogV, fam: int, toks: Seq<(Rat, int)>)
    requires
        toks_ok_multi(cat, fam, toks),
        toks.len() >= 1,
    ensures
        toks_ok_multi(cat, fam, toks.drop_last()),
        toks_ok_multi(cat, fam, toks.skip(1)),
{
    assert(forall|i: int|
        0 <= i < toks.len() - 1 ==> #[trigger] toks.drop_last()[i] == toks[i]);
    assert(forall|i: int|
        0 <= i < toks.len() - 1 ==> #[trigger] toks.skip(1)[i] == toks[i + 1]);
}

proof fn lemma_toks_ok_multi_remove(cat: CatalogV, fam: int, toks: Seq<(Rat, int)>, i: int)
    requires
        toks_ok_multi(cat, fam, toks),
        0 <= i < toks.len(),
    ensures
        toks_ok_multi(cat, fam, toks.remove(i)),
{
    assert(forall|j: int|
        0 <= j < i ==> #[trigger] toks.remove(i)[j] == toks[j]);
    assert(forall|j: int|
        i <= j < toks.len() - 1 ==> #[trigger] toks.remove(i)[j] == toks[j + 1]);
}

proof fn lemma_label_sum_wf(cat: CatalogV, fam: int, toks: Seq<(Rat, int)>, lbl: Seq<char>)
    requires
        toks_ok_multi(cat, fam, toks),
    ensures
        rat_wf(label_sum(cat, fam, toks, lbl)),
    decreases toks.len(),
{
    lemma_zero_wf();
    if toks.len() > 0 {
        lemma_toks_ok_multi_drop(cat, fam, toks);
        lemma_label_sum_wf(cat, fam, toks.drop_last(), lbl);
        if has_label(cat, fam, toks.last(), lbl) {
            lemma_label_part_wf(cat, fam, toks.last(), lbl);
            lemma_rat_add_wf(
                label_sum(cat, fam, toks.drop_last(), lbl),
                label_part(cat, fam, toks.last(), lbl),
            );
        }
    }
}

proof fn lemma_label_sum_remove(cat: CatalogV, fam: int, toks: Seq<(Rat, int)>, i: int, lbl: Seq<char>)
    requires
        toks_ok_multi(cat, fam, toks),
        0 <= i < toks.len(),
    ensures
        label_sum(cat, fam, toks, lbl) == (if has_label(cat, fam, toks[i], lbl) {
            rat_add(label_sum(cat, fam, toks.remove(i), lbl), label_part(cat, fam, toks[i], lbl))
        } else {
            label_sum(cat, fam, toks.remove(i), lbl)
        }),
    decreases toks.len(),
{
    if i == toks.len() - 1 {
        assert(toks.remove(i) =~= toks.drop_last());
    } else {
        let d = toks.drop_last();
        let x = toks.last();
        lemma_toks_ok_multi_drop(cat, fam, toks);
        lemma_label_sum_remove(cat, fam, d, i, lbl);
        assert(toks.remove(i).drop_last() =~= d.remove(i));
        assert(toks.remove(i).last() == x);
        assert(toks.remove(i).len() == toks.len() - 1 >= 1);
        assert(d[i] == toks[i]);
        lemma_toks_ok_multi_remove(cat, fam, d, i);
        lemma_label_sum_wf(cat, fam, d.remove(i), lbl);
        if has_label(cat, fam, toks[i], lbl) && has_label(cat, fam, x, lbl) {
            lemma_label_part_wf(cat, fam, toks[i], lbl);
            lemma_label_part_wf(cat, fam, x, lbl);
            lemma_add_exchange(
                label_sum(cat, fam, d.remove(i), lbl),
                label_part(cat, fam, toks[i], lbl),
                label_part(cat, fam, x, lbl),
            );
        }
    }
}

proof fn lemma_label_sum_permuted(
    cat: CatalogV,
    fam: int,
    s: Seq<(Rat, int)>,
    t: Seq<(Rat, int)>,
    lbl: Seq<char>,
)
    requires
        toks_ok_multi(cat, fam, s),
        toks_ok_multi(cat, fam, t),
        s.to_multiset() == t.to_multiset(),
    ensures
        label_sum(cat, fam, s, lbl) == label_sum(cat, fam, t, lbl),
    decreases t.len(),
{
    broadcast use vstd::seq_lib::group_to_multiset_ensures;
    broadcast use vstd::multiset::group_multiset_axioms;

    assert(s.len() == s.to_multiset().len());
    assert(t.len() == t.to_multiset().len());
    if t.len() == 0 {
        assert(s.len() == 0);
    } else {
        let x = t.last();
        let t0 = t.drop_last();
        assert(t =~= t0.push(x));
        assert(t0.push(x).to_multiset() =~= t0.to_multiset().insert(x));
        assert(s.to_multiset().count(x) > 0);
        assert(s.contains(x));
        let i = choose|i: int| 0 <= i < s.len() && s[i] == x;
        assert(s.remove(i).to_multiset() =~= s.to_multiset().remove(x));
        assert(s.remove(i).to_multiset() =~= t0.to_multiset()) by {
            assert(forall|y: (Rat, int)|
                #[trigger] s.to_multiset().remove(x).count(y) == t0.to_multiset().count(y));
        }
        lemma_toks_ok_multi_remove(cat, fam, s, i);
        lemma_toks_ok_multi_drop(cat, fam, t);
        lemma_label_sum_permuted(cat, fam, s.remove(i), t0, lbl);
        lemma_label_sum_remove(cat, fam, s, i, lbl);
    }
}

proof fn lemma_touches_transfer(
    cat: CatalogV,
    fam: int,
    s: Seq<(Rat, int)>,
    t: Seq<(Rat, int)>,
    lbl: Seq<char>,
)
    requires
        s.to_multiset() == t.to_multiset(),
        touches(cat, fam, s, lbl),
    ensures
        touches(cat, fam, t, lbl),
{
    broadcast use vstd::seq_lib::group_to_multiset_ensures;
    broadcast use vstd::multiset::group_multiset_axioms;

    let i = choose|i: int| 0 <= i < s.len() && has_label(cat, fam, #[trigger] s[i], lbl);
    let x = s[i];
    assert(s.contains(x));
    assert(s.to_multiset().count(x) > 0);
    assert(t.contains(x));
    let j = choose|j: int| 0 <= j < t.len() && t[j] == x;
    assert(has_label(cat, fam, t[j], lbl));
}

/// One label's stored value, tracked forward through the aggregation loop.
pub open spec fn label_fold(
    cat: CatalogV,
    fam: int,
    o: Option<Rat>,
    toks: Seq<(Rat, int)>,
    lbl: Seq<char>,
) -> Option<Rat>
    decreases toks.len(),
{
    if toks.len() == 0 {
        o
    } else {
        let o2 = if has_label(cat, fam, toks[0], lbl) {
            match o {
                Some(v) => Some(rat_add(v, label_part(cat, fam, toks[0], lbl))),
                None => Some(label_part(cat, fam, toks[0], lbl)),
            }
        } else {
            o
        };
        label_fold(cat, fam, o2, toks.skip(1), lbl)
    }
}

/// What one token's whole variant loop does to one label's stored value.
proof fn lemma_contrib_lookup(
    m: Seq<(Seq<char>, Rat)>,
    vars: Seq<VariantV>,
    value: Rat,
    k: int,
    lbl: Seq<char>,
)
    requires
        0 <= k <= vars.len(),
        keys_distinct(m),
        totals_wf(m),
        rat_wf(value),
        forall|i: int, j: int|
            0 <= i < j < vars.len() ==> (#[trigger] vars[i]).label != (#[trigger] vars[j]).label,
        forall|i: int| 0 <= i < vars.len() ==> variant_wf(#[trigger] vars[i]),
        variants_contrib(m, vars, value, k) is Some,
    ensures
        ({
            let m2 = variants_contrib(m, vars, value, k)->Some_0;
            &&& keys_distinct(m2)
            &&& totals_wf(m2)
            &&& (match label_index(vars, lbl, k) {
                Some(vi) => lookup_total(m2, lbl) == (match lookup_total(m, lbl) {
                    Some(o) => Some(rat_add(o, rat_mul(value, vars[vi].ratio))),
                    None => Some(rat_mul(value, vars[vi].ratio)),
                }),
                None => lookup_total(m2, lbl) == lookup_total(m, lbl),
            })
        }),
    decreases vars.len() - k,
{
    if k < vars.len() {
        let c = rat_mul(value, vars[k].ratio);
        let r = vars[k].ratio;
        lemma_mul_rep(value, r, value.n, value.d, r.n, r.d);
        let m1 = upsert_total(m, vars[k].label, c)->Some_0;
        lemma_upsert_lookup(m, vars[k].label, c, lbl);
        lemma_contrib_lookup(m1, vars, value, k + 1, lbl);
        if vars[k].label == lbl {
            assert(label_index(vars, lbl, k) == Some(k));
            assert(forall|j: int|
                k + 1 <= j < vars.len() ==> (#[trigger] vars[j]).label != lbl);
            lemma_label_index_absent(vars, lbl, k + 1);
        }
    }
}

/// The stored value of one label after aggregating a token list equals the
/// forward fold of that label's contributions.
proof fn lemma_totals_lookup(
    cat: CatalogV,
    fam: int,
    toks: Seq<(Rat, int)>,
    m: Seq<(Seq<char>, Rat)>,
    lbl: Seq<char>,
)
    requires
        toks_ok_multi(cat, fam, toks),
        keys_distinct(m),
        totals_wf(m),
        totals_of(cat, fam, toks, m) is Some,
    ensures
        ({
            let out = totals_of(cat, fam, toks, m)->Some_0;
            &&& keys_distinct(out)
            &&& totals_wf(out)
            &&& lookup_total(out, lbl) == label_fold(cat, fam, lookup_total(m, lbl), toks, lbl)
        }),
    decreases toks.len(),
{
    if toks.len() > 0 {
        let u = unit_of(cat, fam, toks[0]);
        let vars = u.variants;
        assert(unit_wf(u) && u.formula is None);
        assert(variants_contrib(m, vars, toks[0].0, 0) is Some);
        let m1 = variants_contrib(m, vars, toks[0].0, 0)->Some_0;
        lemma_contrib_lookup(m, vars, toks[0].0, 0, lbl);
        lemma_toks_ok_multi_drop(cat, fam, toks);
        lemma_totals_lookup(cat, fam, toks.skip(1), m1, lbl);
        assert(has_label(cat, fam, toks[0], lbl) == (label_index(vars, lbl, 0) is Some));
        lemma_label_index_bounds(vars, lbl, 0);
    }
}

proof fn lemma_label_sum_untouched(cat: CatalogV, fam: int, toks: Seq<(Rat, int)>, lbl: Seq<char>)
    requires
        !touches(cat, fam, toks, lbl),
    ensures
        label_sum(cat, fam, toks, lbl) == (Rat { n: 0, d: 1 }),
    decreases toks.len(),
{
    if toks.len() > 0 {
        assert(!has_label(cat, fam, toks.last(), lbl));
        assert(!touches(cat, fam, toks.drop_last(), lbl)) by {
            if touches(cat, fam, toks.drop_last(), lbl) {
                let i = choose|i: int|
                    0 <= i < toks.drop_last().len() && has_label(
                        cat,
                        fam,
                        #[trigger] toks.drop_last()[i],
                        lbl,
                    );
                assert(toks.drop_last()[i] == toks[i]);
            }
        }
        lemma_label_sum_untouched(cat, fam, toks.drop_last(), lbl);
    }
}

proof fn lemma_add_zero_left(c: Rat)
    requires
        rat_wf(c),
    ensures
        rat_add(Rat { n: 0, d: 1 }, c) == c,
{
    crate::rational::lemma_rat_make_wf(c.n, c.d);
    let z = Rat { n: 0, d: 1 };
    assert(rat_add(z, c) == rat_make(0 * c.d + c.n * 1, 1 * c.d));
    assert(0 * c.d + c.n * 1 == c.n) by (nonlinear_arith);
    assert(1 * c.d == c.d) by (nonlinear_arith);
    lemma_rat_make_id(c);
}

proof fn lemma_label_fold_last(
    cat: CatalogV,
    fam: int,
    o: Option<Rat>,
    toks: Seq<(Rat, int)>,
    lbl: Seq<char>,
)
    requires
        toks.len() >= 1,
    ensures
        label_fold(cat, fam, o, toks, lbl) == ({
            let r = label_fold(cat, fam, o, toks.drop_last(), lbl);
            if has_label(cat, fam, toks.last(), lbl) {
                match r {
                    Some(v) => Some(rat_add(v, label_part(cat, fam, toks.last(), lbl))),
                    None => Some(label_part(cat, fam, toks.last(), lbl)),
                }
            } else {
                r
            }
        }),
    decreases toks.len(),
{
    if toks.len() == 1 {
        assert(toks.skip(1) =~= Seq::<(Rat, int)>::empty());
        assert(toks.drop_last() =~= Seq::<(Rat, int)>::empty());
        assert(toks.last() == toks[0]);
    } else {
        let o2 = if has_label(cat, fam, toks[0], lbl) {
            match o {
                Some(v) => Some(rat_add(v, label_part(cat, fam, toks[0], lbl))),
                None => Some(label_part(cat, fam, toks[0], lbl)),
            }
        } else {
            o
        };
        lemma_label_fold_last(cat, fam, o2, toks.skip(1), lbl);
        assert(toks.skip(1).drop_last() =~= toks.drop_last().skip(1));
        assert(toks.skip(1).last() == toks.last());
        assert(toks.drop_last()[0] == toks[0]);
        assert(label_fold(cat, fam, o, toks, lbl) == label_fold(cat, fam, o2, toks.skip(1), lbl));
        assert(label_fold(cat, fam, o, toks.drop_last(), lbl) == label_fold(
            cat,
            fam,
            o2,
            toks.drop_last().skip(1),
            lbl,
        ));
    }
}

proof fn lemma_label_fold_sum(cat: CatalogV, fam: int, toks: Seq<(Rat, int)>, lbl: Seq<char>)
    requires
        toks_ok_multi(cat, fam, toks),
    ensures
        label_fold(cat, fam, None, toks, lbl) == (if touches(cat, fam, toks, lbl) {
            Some(label_sum(cat, fam, toks, lbl))
        } else {
            None
        }),
    decreases toks.len(),
{
    if toks.len() == 0 {
    } else {
        let d = toks.drop_last();
        let x = toks.last();
        lemma_toks_ok_multi_drop(cat, fam, toks);
        lemma_label_fold_sum(cat, fam, d, lbl);
        lemma_label_fold_last(cat, fam, None, toks, lbl);
        if has_label(cat, fam, x, lbl) {
            assert(touches(cat, fam, toks, lbl)) by {
                assert(has_label(cat, fam, toks[toks.len() - 1], lbl));
            }
            if touches(cat, fam, d, lbl) {
            } else {
                lemma_label_sum_untouched(cat, fam, d, lbl);
                lemma_label_part_wf(cat, fam, x, lbl);
                lemma_add_zero_left(label_part(cat, fam, x, lbl));
            }
        } else {
            assert(touches(cat, fam, toks, lbl) == touches(cat, fam, d, lbl)) by {
                if touches(cat, fam, toks, lbl) {
                    let i = choose|i: int|
                        0 <= i < toks.len() && has_label(cat, fam, #[trigger] toks[i], lbl);
                    assert(i < toks.len() - 1);
                    assert(d[i] == toks[i]);
                }
                if touches(cat, fam, d, lbl) {
                    let i = choose|i: int|
                        0 <= i < d.len() && has_label(cat, fam, #[trigger] d[i], lbl);
                    assert(toks[i] == d[i]);
                }
            }
        }
    }
}

/// Token-order commutativity across regional variants: for any variant
/// label, two token lists that are permutations of each other and both
/// aggregate without overflow store exactly the same total under that
/// label (the labels may merely appear in a different first-use order).
pub proof fn law_token_order_variant_totals(
    cat: CatalogV,
    fam: int,
    s: Seq<(Rat, int)>,
    t: Seq<(Rat, int)>,
    lbl: Seq<char>,
)
    requires
        toks_ok_multi(cat, fam, s),
        toks_ok_multi(cat, fam, t),
        s.to_multiset() == t.to_multiset(),
        totals_of(cat, fam, s, Seq::empty()) is Some,
        totals_of(cat, fam, t, Seq::empty()) is Some,
    ensures
        lookup_total(totals_of(cat, fam, s, Seq::empty())->Some_0, lbl) == lookup_total(
            totals_of(cat, fam, t, Seq::empty())->Some_0,
            lbl,
        ),
{
    let e = Seq::<(Seq<char>, Rat)>::empty();
    assert(key_index(e, lbl, 0) is None);
    assert(lookup_total(e, lbl) is None);
    lemma_totals_lookup(cat, fam, s, e, lbl);
    lemma_totals_lookup(cat, fam, t, e, lbl);
    lemma_label_fold_sum(cat, fam, s, lbl);
    lemma_label_fold_sum(cat, fam, t, lbl);
    if touches(cat, fam, s, lbl) {
        lemma_touches_transfer(cat, fam, s, t, lbl);
        lemma_label_sum_permuted(cat, fam, s, t, lbl);
    } else {
        if touches(cat, fam, t, lbl) {
            lemma_touches_transfer(cat, fam, t, s, lbl);
        }
    }
}


} // verus!
