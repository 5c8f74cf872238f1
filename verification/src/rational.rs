//! Exact rational numbers with sign/magnitude representation.
//!
//! Every value is kept in lowest terms (numerator and denominator coprime,
//! denominator at least one), so equal values have equal representations.
//! The executable operations are checked: they return `None` when an
//! intermediate product or sum does not fit in 128 bits, and otherwise
//! return exactly the mathematical result.

use vstd::prelude::*;
use vstd::arithmetic::div_mod::lemma_fundamental_div_mod;

verus! {

/// Mathematical model of a rational number: a signed numerator over a
/// positive denominator.
pub ghost struct Rat {
    pub n: int,
    pub d: int,
}

/// Absolute value on `int`.
pub open spec fn abs_int(x: int) -> nat {
    if x >= 0 {
        x as nat
    } else {
        (-x) as nat
    }
}

/// Euclid's greatest common divisor on naturals; `gcd(a, 0) == a`.
pub open spec fn gcd(a: nat, b: nat) -> nat
    decreases b,
{
    if b == 0 {
        a
    } else {
        gcd(b, a % b)
    }
}

/// `f` divides `x`.
pub open spec fn divides(f: nat, x: nat) -> bool {
    exists|k: nat| x == #[trigger] (f * k)
}

proof fn lemma_divides_bound(f: nat, x: nat)
    requires
        divides(f, x),
        x > 0,
    ensures
        1 <= f <= x,
{
    let k = choose|k: nat| x == #[trigger] (f * k);
    assert(f * k > 0);
    assert(f >= 1 && k >= 1) by (nonlinear_arith)
        requires
            f * k > 0,
    ;
    assert(f <= f * k) by (nonlinear_arith)
        requires
            k >= 1,
    ;
}

proof fn lemma_divides_mod(f: nat, a: nat, b: nat)
    requires
        b > 0,
        divides(f, a),
        divides(f, b),
    ensures
        divides(f, (a % b) as nat),
{
    let ka = choose|k: nat| a == #[trigger] (f * k);
    let kb = choose|k: nat| b == #[trigger] (f * k);
    lemma_fundamental_div_mod(a as int, b as int);
    let q = a as int / b as int;
    let r = a as int % b as int;
    assert(r == a - q * b);
    assert(0 <= r < b);
    assert(f * ka - q * (f * kb) == f * (ka - q * kb)) by (nonlinear_arith);
    assert(r == f * (ka - q * kb));
    if f == 0 {
        assert(false) by (nonlinear_arith)
            requires
                f == 0nat,
                b == f * kb,
                b > 0,
        ;
    } else {
        let kr = ka - q * kb;
        assert(f * kr >= 0);
        assert(kr >= 0) by (nonlinear_arith)
            requires
                f > 0,
                f * kr >= 0,
        ;
        assert((r % (b as int)) as nat == f * (kr as nat)) by {
            vstd::arithmetic::div_mod::lemma_small_mod(r as nat, b);
            assert(r % (b as int) == r);
        }
        assert(divides(f, (a % b) as nat));
    }
}

proof fn lemma_divides_unmod(f: nat, a: nat, b: nat)
    requires
        b > 0,
        divides(f, b),
        divides(f, (a % b) as nat),
    ensures
        divides(f, a),
{
    let kb = choose|k: nat| b == #[trigger] (f * k);
    let kr = choose|k: nat| (a % b) as nat == #[trigger] (f * k);
    lemma_fundamental_div_mod(a as int, b as int);
    let q = a as int / b as int;
    assert(a == b * q + (a % b) as int);
    assert(q >= 0) by {
        assert(a >= 0 && b > 0);
        vstd::arithmetic::div_mod::lemma_div_pos_is_pos(a as int, b as int);
    }
    assert((f * kb) * q + f * kr == f * (q * kb + kr)) by (nonlinear_arith);
    assert(a == f * (q * kb + kr));
    assert(q * kb + kr >= 0) by (nonlinear_arith)
        requires
            q >= 0,
            kb >= 0,
            kr >= 0,
    ;
    assert(a as nat == f * ((q * kb + kr) as nat));
}

/// The gcd divides both of its arguments, and is positive unless both are zero.
pub proof fn lemma_gcd_divides(a: nat, b: nat)
    ensures
        divides(gcd(a, b), a),
        divides(gcd(a, b), b),
        a > 0 || b > 0 ==> gcd(a, b) > 0,
    decreases b,
{
    if b == 0 {
        assert(a == gcd(a, b) * 1);
        assert(b == gcd(a, b) * 0);
    } else {
        lemma_gcd_divides(b, a % b);
        let g = gcd(b, a % b);
        assert(g > 0);
        lemma_divides_unmod(g, a, b);
    }
}

/// Any common divisor of `a` and `b` divides their gcd.
pub proof fn lemma_gcd_greatest(a: nat, b: nat, f: nat)
    requires
        divides(f, a),
        divides(f, b),
    ensures
        divides(f, gcd(a, b)),
    decreases b,
{
    if b == 0 {
    } else {
        lemma_divides_mod(f, a, b);
        lemma_gcd_greatest(b, a % b, f);
    }
}

/// After dividing both arguments by their gcd, the quotients are coprime.
pub proof fn lemma_gcd_coprime(a: nat, b: nat)
    requires
        a > 0 || b > 0,
    ensures
        gcd(a, b) > 0,
        gcd((a / gcd(a, b)) as nat, (b / gcd(a, b)) as nat) == 1,
{
    let g = gcd(a, b);
    lemma_gcd_divides(a, b);
    let ka = choose|k: nat| a == #[trigger] (g * k);
    let kb = choose|k: nat| b == #[trigger] (g * k);
    assert(a / g == ka as int) by (nonlinear_arith)
        requires
            g > 0,
            a == g * ka,
    ;
    assert(b / g == kb as int) by (nonlinear_arith)
        requires
            g > 0,
            b == g * kb,
    ;
    let e = gcd(ka, kb);
    lemma_gcd_divides(ka, kb);
    if ka == 0 && kb == 0 {
        assert(a == g * 0 && b == g * 0);
        assert(false);
    }
    assert(e > 0);
    let ja = choose|k: nat| ka == #[trigger] (e * k);
    let jb = choose|k: nat| kb == #[trigger] (e * k);
    assert(a == (g * e) * ja) by (nonlinear_arith)
        requires
            a == g * ka,
            ka == e * ja,
    ;
    assert(b == (g * e) * jb) by (nonlinear_arith)
        requires
            b == g * kb,
            kb == e * jb,
    ;
    assert(divides((g * e) as nat, a));
    assert(divides((g * e) as nat, b));
    lemma_gcd_greatest(a, b, (g * e) as nat);
    lemma_divides_bound((g * e) as nat, g);
    assert(g * e <= g);
    assert(e <= 1) by (nonlinear_arith)
        requires
            g > 0,
            e > 0,
            g * e <= g * 1,
    ;
}

/// Executable gcd; `gcd_u128(a, 0) == a`.
pub fn gcd_u128(a: u128, b: u128) -> (r: u128)
    ensures
        r as nat == gcd(a as nat, b as nat),
{
    let mut x = a;
    let mut y = b;
    while y != 0
        invariant
            gcd(x as nat, y as nat) == gcd(a as nat, b as nat),
        decreases y,
    {
        let t = x % y;
        x = y;
        y = t;
    }
    x
}

/// `x` written with an explicit sign and magnitude.
pub open spec fn signed_of(neg: bool, m: nat) -> int {
    if neg {
        -(m as int)
    } else {
        m as int
    }
}

/// A model rational is well-formed when its denominator is positive and it
/// is in lowest terms.
pub open spec fn rat_wf(a: Rat) -> bool {
    a.d >= 1 && gcd(abs_int(a.n), a.d as nat) == 1
}

/// Value equality of two model rationals, by cross-multiplication.
pub open spec fn rat_eq(a: Rat, b: Rat) -> bool {
    a.n * b.d == b.n * a.d
}

/// The fraction `n / d` (for `d > 0`) brought to lowest terms.
pub open spec fn reduce_frac(n: int, d: int) -> Rat {
    if d <= 0 {
        Rat { n: 0, d: 1 }
    } else {
        let g = gcd(abs_int(n), d as nat) as int;
        if g == 0 {
            Rat { n: 0, d: 1 }
        } else {
            Rat { n: n / g, d: d / g }
        }
    }
}

/// The fraction `n / d` (for any `d != 0`) brought to lowest terms with a
/// positive denominator.
pub open spec fn rat_make(n: int, d: int) -> Rat {
    if d < 0 {
        reduce_frac(-n, -d)
    } else {
        reduce_frac(n, d)
    }
}

/// Model addition: the reduced form of the textbook cross-multiplied sum.
pub open spec fn rat_add(a: Rat, b: Rat) -> Rat {
    rat_make(a.n * b.d + b.n * a.d, a.d * b.d)
}

/// Model multiplication.
pub open spec fn rat_mul(a: Rat, b: Rat) -> Rat {
    rat_make(a.n * b.n, a.d * b.d)
}

/// Model division (meaningful only when `b.n != 0`).
pub open spec fn rat_div(a: Rat, b: Rat) -> Rat {
    rat_make(a.n * b.d, a.d * b.n)
}

/// Model negation.
pub open spec fn rat_neg(a: Rat) -> Rat {
    Rat { n: -a.n, d: a.d }
}

/// The intermediates of `a + b` all fit in 128 bits.
pub open spec fn add_fits(a: Rat, b: Rat) -> bool {
    &&& abs_int(a.n) * b.d <= u128::MAX
    &&& abs_int(b.n) * a.d <= u128::MAX
    &&& a.d * b.d <= u128::MAX
    &&& abs_int(a.n * b.d + b.n * a.d) <= u128::MAX
}

/// The intermediates of `a * b` all fit in 128 bits.
pub open spec fn mul_fits(a: Rat, b: Rat) -> bool {
    &&& abs_int(a.n) * abs_int(b.n) <= u128::MAX
    &&& a.d * b.d <= u128::MAX
}

/// The intermediates of `a / b` all fit in 128 bits.
pub open spec fn div_fits(a: Rat, b: Rat) -> bool {
    &&& abs_int(a.n) * b.d <= u128::MAX
    &&& a.d * abs_int(b.n) <= u128::MAX
}

/// The cross products used to compare `a` with `b` fit in 128 bits.
pub open spec fn cmp_fits(a: Rat, b: Rat) -> bool {
    &&& abs_int(a.n) * b.d <= u128::MAX
    &&& abs_int(b.n) * a.d <= u128::MAX
}

/// Total comparison `a >= b`: exact whenever the cross products fit in 128
/// bits; a pair that cannot be cross-multiplied compares as if equal.
pub open spec fn ge_total(a: Rat, b: Rat) -> bool {
    if a.n >= 0 && b.n < 0 {
        true
    } else if a.n < 0 && b.n >= 0 {
        false
    } else if cmp_fits(a, b) {
        a.n * b.d >= b.n * a.d
    } else {
        true
    }
}

proof fn lemma_div_exact(x: nat, g: nat)
    requires
        g >= 1,
        divides(g, x),
    ensures
        x == g * ((x as int / g as int) as nat),
        x > 0 ==> (x as int / g as int) >= 1,
        x == 0 ==> (x as int / g as int) == 0,
        (-(x as int)) / (g as int) == -(x as int / g as int),
{
    let k = choose|k: nat| x == #[trigger] (g * k);
    vstd::arithmetic::div_mod::lemma_div_multiples_vanish(k as int, g as int);
    assert(g * k == g * (k as int));
    assert(x as int / g as int == k);
    vstd::arithmetic::div_mod::lemma_div_multiples_vanish(-(k as int), g as int);
    assert(g * (-(k as int)) == -(x as int)) by (nonlinear_arith)
        requires
            x == g * k,
    ;
    if x > 0 {
        assert(k >= 1) by (nonlinear_arith)
            requires
                g * k > 0,
        ;
    }
}

/// Reduction preserves the value of the fraction and yields a well-formed
/// rational.
pub proof fn lemma_reduce_frac(n: int, d: int)
    requires
        d >= 1,
    ensures
        rat_wf(reduce_frac(n, d)),
        rat_eq(reduce_frac(n, d), Rat { n, d }),
        n > 0 ==> reduce_frac(n, d).n > 0,
        n == 0 ==> reduce_frac(n, d).n == 0,
        n < 0 ==> reduce_frac(n, d).n < 0,
{
    let a = abs_int(n);
    let b = d as nat;
    let g = gcd(a, b);
    lemma_gcd_divides(a, b);
    assert(g >= 1);
    lemma_gcd_coprime(a, b);
    lemma_div_exact(a, g);
    lemma_div_exact(b, g);
    let ka = a as int / g as int;
    let kb = b as int / g as int;
    assert(kb >= 1);
    let r = reduce_frac(n, d);
    if n >= 0 {
        assert(r.n == ka && r.d == kb);
        assert(abs_int(r.n) == ka);
    } else {
        assert(r.n == -ka && r.d == kb);
        assert(abs_int(r.n) == ka);
    }
    assert(gcd(abs_int(r.n), r.d as nat) == 1);
    // value preservation: (n / g) * d == n * (d / g)
    assert(ka * (g as int) * kb == ka * ((g as int) * kb)) by (nonlinear_arith);
    assert(r.n * d == n * r.d) by (nonlinear_arith)
        requires
            a == g * ka,
            b == g * kb,
            n == signed_of(n < 0, a),
            r.n == signed_of(n < 0, ka as nat),
            d == b,
            r.d == kb,
            g >= 1,
    ;
}

/// The gcd is symmetric.
pub proof fn lemma_gcd_comm(a: nat, b: nat)
    ensures
        gcd(a, b) == gcd(b, a),
{
    if a == 0 && b == 0 {
        assert(gcd(0, 0) == 0);
    } else {
        lemma_gcd_divides(a, b);
        lemma_gcd_divides(b, a);
        lemma_gcd_greatest(b, a, gcd(a, b));
        lemma_gcd_greatest(a, b, gcd(b, a));
        lemma_divides_bound(gcd(a, b), gcd(b, a));
        lemma_divides_bound(gcd(b, a), gcd(a, b));
    }
}

/// The gcd scales: `gcd(c*x, c*y) == c * gcd(x, y)`.
pub proof fn lemma_gcd_scale(c: nat, x: nat, y: nat)
    requires
        c > 0,
    ensures
        gcd(c * x, c * y) == c * gcd(x, y),
    decreases y,
{
    if y == 0 {
        assert(c * y == 0);
    } else {
        assert(c * y > 0) by (nonlinear_arith)
            requires
                c > 0,
                y > 0,
        ;
        vstd::arithmetic::div_mod::lemma_truncate_middle(x as int, c as int, y as int);
        assert((c * x) % (c * y) == c * (x % y));
        assert(gcd(c * x, c * y) == gcd(c * y, ((c * x) % (c * y)) as nat));
        lemma_gcd_scale(c, y, x % y);
    }
}

/// Euclid's lemma: a number coprime to `b` that divides `b * c` divides `c`.
pub proof fn lemma_euclid(a: nat, b: nat, c: nat)
    requires
        gcd(a, b) == 1,
        divides(a, b * c),
    ensures
        divides(a, c),
{
    if c == 0 {
        assert(c == a * 0);
        assert(divides(a, 0));
    } else if a == 0 {
        assert(gcd(0, b) == b || b == 0) by {
            if b != 0 {
                assert(gcd(0, b) == gcd(b, 0));
            }
        }
        assert(b == 1);
        assert(b * c == c);
    } else {
        assert(divides(a, a * c)) by {
            assert(a * c == a * c);
        }
        lemma_gcd_greatest(b * c, a * c, a);
        assert(gcd(b * c, a * c) == gcd(c * b, c * a)) by (nonlinear_arith);
        lemma_gcd_scale(c, b, a);
        lemma_gcd_comm(b, a);
        assert(gcd(c * b, c * a) == c * gcd(b, a));
        assert(gcd(b, a) == 1);
        assert(c * gcd(b, a) == c) by (nonlinear_arith)
            requires
                gcd(b, a) == 1,
        ;
        assert(divides(a, c));
    }
}

/// Canonical forms are unique: two well-formed rationals with the same
/// value are the same pair.
pub proof fn lemma_canonical_unique(a: Rat, b: Rat)
    requires
        rat_wf(a),
        rat_wf(b),
        rat_eq(a, b),
    ensures
        a == b,
{
    let na = abs_int(a.n);
    let nb = abs_int(b.n);
    let da = a.d as nat;
    let db = b.d as nat;
    if a.n == 0 {
        assert(b.n * a.d == 0) by (nonlinear_arith)
            requires
                a.n == 0,
                a.n * b.d == b.n * a.d,
        ;
        assert(b.n == 0) by (nonlinear_arith)
            requires
                b.n * a.d == 0,
                a.d >= 1,
        ;
        assert(gcd(0, da) == gcd(da, 0nat % da));
        vstd::arithmetic::div_mod::lemma_small_mod(0, da);
        assert(gcd(0, da) == gcd(da, 0nat) == da);
        assert(gcd(0, db) == gcd(db, 0nat % db));
        vstd::arithmetic::div_mod::lemma_small_mod(0, db);
        assert(gcd(0, db) == gcd(db, 0nat) == db);
        assert(a.d == 1 && b.d == 1);
    } else {
        assert(b.n != 0) by (nonlinear_arith)
            requires
                a.n * b.d == b.n * a.d,
                a.n != 0,
                a.d >= 1,
                b.d >= 1,
        ;
        assert((a.n > 0) == (b.n > 0)) by (nonlinear_arith)
            requires
                a.n * b.d == b.n * a.d,
                a.n != 0,
                b.n != 0,
                a.d >= 1,
                b.d >= 1,
        ;
        assert(na * db == nb * da) by (nonlinear_arith)
            requires
                a.n * b.d == b.n * a.d,
                na == abs_int(a.n),
                nb == abs_int(b.n),
                da == a.d,
                db == b.d,
                (a.n > 0) == (b.n > 0),
        ;
        assert(divides(na, da * nb)) by {
            assert(da * nb == na * db) by (nonlinear_arith)
                requires
                    na * db == nb * da,
            ;
            assert(da * nb == #[trigger] (na * db));
        }
        lemma_euclid(na, da, nb);
        assert(divides(nb, db * na)) by {
            assert(db * na == nb * da) by (nonlinear_arith)
                requires
                    na * db == nb * da,
            ;
            assert(db * na == #[trigger] (nb * da));
        }
        lemma_euclid(nb, db, na);
        assert(na >= 1 && nb >= 1);
        lemma_divides_bound(na, nb);
        lemma_divides_bound(nb, na);
        assert(na == nb);
        assert(da == db) by (nonlinear_arith)
            requires
                na * db == nb * da,
                na == nb,
                na >= 1,
        ;
        assert(abs_int(a.n) == abs_int(b.n) && (a.n > 0) == (b.n > 0));
        assert(a.n == b.n);
    }
}

/// `rat_make` is well formed and value-preserving for any nonzero
/// denominator.
pub proof fn lemma_rat_make_wf(n: int, d: int)
    requires
        d != 0,
    ensures
        rat_wf(rat_make(n, d)),
        rat_make(n, d).n * d == n * rat_make(n, d).d,
{
    if d < 0 {
        lemma_reduce_frac(-n, -d);
        let r = rat_make(n, d);
        assert(r.n * (-d) == (-n) * r.d);
        assert(r.n * d == n * r.d) by (nonlinear_arith)
            requires
                r.n * (-d) == (-n) * r.d,
        ;
    } else {
        lemma_reduce_frac(n, d);
    }
}

/// A well-formed rational is a fixed point of `rat_make`.
pub proof fn lemma_rat_make_id(a: Rat)
    requires
        rat_wf(a),
    ensures
        rat_make(a.n, a.d) == a,
{
    lemma_rat_make_wf(a.n, a.d);
    assert(rat_eq(rat_make(a.n, a.d), a));
    lemma_canonical_unique(rat_make(a.n, a.d), a);
}

/// `rat_add(a, b)` represents the textbook fraction of any fractions its
/// arguments represent.
pub proof fn lemma_add_rep(p: Rat, q: Rat, np: int, dp: int, nq: int, dq: int)
    requires
        rat_wf(p),
        rat_wf(q),
        dp >= 1,
        dq >= 1,
        p.n * dp == np * p.d,
        q.n * dq == nq * q.d,
    ensures
        rat_wf(rat_add(p, q)),
        rat_add(p, q).n * (dp * dq) == (np * dq + nq * dp) * rat_add(p, q).d,
{
    let s = rat_add(p, q);
    let sn = p.n * q.d + q.n * p.d;
    let sd = p.d * q.d;
    assert(sd >= 1) by (nonlinear_arith)
        requires
            sd == p.d * q.d,
            p.d >= 1,
            q.d >= 1,
    ;
    lemma_rat_make_wf(sn, sd);
    assert(s.n * sd == sn * s.d);
    assert(sn * (dp * dq) == (p.n * q.d) * (dp * dq) + (q.n * p.d) * (dp * dq))
        by (nonlinear_arith)
        requires
            sn == p.n * q.d + q.n * p.d,
    ;
    assert((p.n * q.d) * (dp * dq) == (p.n * dp) * (q.d * dq)) by (nonlinear_arith);
    assert((q.n * p.d) * (dp * dq) == (q.n * dq) * (p.d * dp)) by (nonlinear_arith);
    assert((p.n * dp) * (q.d * dq) == (np * p.d) * (q.d * dq)) by (nonlinear_arith)
        requires
            p.n * dp == np * p.d,
    ;
    assert((q.n * dq) * (p.d * dp) == (nq * q.d) * (p.d * dp)) by (nonlinear_arith)
        requires
            q.n * dq == nq * q.d,
    ;
    assert((np * p.d) * (q.d * dq) == (np * dq) * sd) by (nonlinear_arith)
        requires
            sd == p.d * q.d,
    ;
    assert((nq * q.d) * (p.d * dp) == (nq * dp) * sd) by (nonlinear_arith)
        requires
            sd == p.d * q.d,
    ;
    assert((np * dq) * sd + (nq * dp) * sd == (np * dq + nq * dp) * sd) by (nonlinear_arith);
    assert(sn * (dp * dq) == (np * dq + nq * dp) * sd);
    assert(s.n * (dp * dq) == (np * dq + nq * dp) * s.d) by (nonlinear_arith)
        requires
            s.n * sd == sn * s.d,
            sn * (dp * dq) == (np * dq + nq * dp) * sd,
            sd >= 1,
    ;
}

/// `rat_add` of well-formed rationals is well formed.
pub proof fn lemma_rat_add_wf(p: Rat, q: Rat)
    requires
        rat_wf(p),
        rat_wf(q),
    ensures
        rat_wf(rat_add(p, q)),
{
    lemma_add_rep(p, q, p.n, p.d, q.n, q.d);
}

/// `rat_mul(p, q)` represents the product of any fractions its arguments
/// represent.
pub proof fn lemma_mul_rep(p: Rat, q: Rat, np: int, dp: int, nq: int, dq: int)
    requires
        rat_wf(p),
        rat_wf(q),
        dp >= 1,
        dq >= 1,
        p.n * dp == np * p.d,
        q.n * dq == nq * q.d,
    ensures
        rat_wf(rat_mul(p, q)),
        rat_mul(p, q).n * (dp * dq) == (np * nq) * rat_mul(p, q).d,
{
    let s = rat_mul(p, q);
    let sn = p.n * q.n;
    let sd = p.d * q.d;
    assert(sd >= 1) by (nonlinear_arith)
        requires
            sd == p.d * q.d,
            p.d >= 1,
            q.d >= 1,
    ;
    lemma_rat_make_wf(sn, sd);
    assert(s.n * sd == sn * s.d);
    assert(sn * (dp * dq) == (p.n * dp) * (q.n * dq)) by (nonlinear_arith)
        requires
            sn == p.n * q.n,
    ;
    assert((p.n * dp) * (q.n * dq) == (np * p.d) * (nq * q.d)) by (nonlinear_arith)
        requires
            p.n * dp == np * p.d,
            q.n * dq == nq * q.d,
    ;
    assert((np * p.d) * (nq * q.d) == (np * nq) * sd) by (nonlinear_arith)
        requires
            sd == p.d * q.d,
    ;
    assert(sn * (dp * dq) == (np * nq) * sd);
    assert(s.n * (dp * dq) == (np * nq) * s.d) by (nonlinear_arith)
        requires
            s.n * sd == sn * s.d,
            sn * (dp * dq) == (np * nq) * sd,
            sd >= 1,
    ;
}

/// Adding two values to a common base in either order gives the same
/// canonical result.
pub proof fn lemma_add_exchange(a: Rat, x: Rat, y: Rat)
    requires
        rat_wf(a),
        rat_wf(x),
        rat_wf(y),
    ensures
        rat_add(rat_add(a, x), y) == rat_add(rat_add(a, y), x),
{
    let l1 = rat_add(a, x);
    let l2 = rat_add(rat_add(a, x), y);
    let r1 = rat_add(a, y);
    let r2 = rat_add(rat_add(a, y), x);
    assert(a.d * x.d >= 1 && a.d * y.d >= 1) by (nonlinear_arith)
        requires
            a.d >= 1,
            x.d >= 1,
            y.d >= 1,
    ;
    lemma_add_rep(a, x, a.n, a.d, x.n, x.d);
    lemma_add_rep(l1, y, a.n * x.d + x.n * a.d, a.d * x.d, y.n, y.d);
    lemma_add_rep(a, y, a.n, a.d, y.n, y.d);
    lemma_add_rep(r1, x, a.n * y.d + y.n * a.d, a.d * y.d, x.n, x.d);
    let nl = (a.n * x.d + x.n * a.d) * y.d + y.n * (a.d * x.d);
    let nr = (a.n * y.d + y.n * a.d) * x.d + x.n * (a.d * y.d);
    let dd = (a.d * x.d) * y.d;
    assert(nl == a.n * (x.d * y.d) + x.n * (a.d * y.d) + y.n * (a.d * x.d))
        by (nonlinear_arith)
        requires
            nl == (a.n * x.d + x.n * a.d) * y.d + y.n * (a.d * x.d),
    ;
    assert(nr == a.n * (x.d * y.d) + y.n * (a.d * x.d) + x.n * (a.d * y.d))
        by (nonlinear_arith)
        requires
            nr == (a.n * y.d + y.n * a.d) * x.d + x.n * (a.d * y.d),
    ;
    assert(nl == nr);
    assert((a.d * x.d) * y.d == (a.d * y.d) * x.d) by (nonlinear_arith);
    assert(dd >= 1) by (nonlinear_arith)
        requires
            dd == (a.d * x.d) * y.d,
            a.d >= 1,
            x.d >= 1,
            y.d >= 1,
    ;
    assert(rat_eq(l2, r2)) by (nonlinear_arith)
        requires
            l2.n * dd == nl * l2.d,
            r2.n * dd == nr * r2.d,
            nl == nr,
            dd >= 1,
            l2.d >= 1,
            r2.d >= 1,
    ;
    lemma_canonical_unique(l2, r2);
}

/// An exact rational number, kept in lowest terms.
#[derive(Clone, Copy, PartialEq, Eq, Structural, Debug)]
pub struct Rational {
    neg: bool,
    num: u128,
    den: u128,
}

impl View for Rational {
    type V = Rat;

    closed spec fn view(&self) -> Rat {
        Rat { n: signed_of(self.neg, self.num as nat), d: self.den as int }
    }
}

impl Rational {
    /// The representation invariant: positive denominator, lowest terms, and
    /// no negative zero.
    pub closed spec fn wf(&self) -> bool {
        &&& self.den >= 1
        &&& gcd(self.num as nat, self.den as nat) == 1
        &&& (self.num == 0 ==> !self.neg)
    }

    pub proof fn lemma_wf_view(&self)
        requires
            self.wf(),
        ensures
            rat_wf(self@),
    {
        assert(abs_int(self@.n) == self.num as nat);
    }

    /// Builds the canonical representation of `signed_of(neg, num) / den`.
    fn reduce_parts(neg: bool, num: u128, den: u128) -> (r: Rational)
        requires
            den >= 1,
        ensures
            r.wf(),
            rat_wf(r@),
            r@ == rat_make(signed_of(neg, num as nat), den as int),
    {
        let g = gcd_u128(num, den);
        proof {
            lemma_gcd_divides(num as nat, den as nat);
            lemma_gcd_coprime(num as nat, den as nat);
            lemma_div_exact(num as nat, g as nat);
            lemma_div_exact(den as nat, g as nat);
        }
        let nn = num / g;
        let dd = den / g;
        let r = Rational { neg: if nn == 0 { false } else { neg }, num: nn, den: dd };
        proof {
            let sn = signed_of(neg, num as nat);
            let target = rat_make(sn, den as int);
            assert(abs_int(sn) == num as nat);
            if nn == 0 {
                assert(num as nat == g as nat * (nn as nat));
                assert(num == 0) by (nonlinear_arith)
                    requires
                        num as nat == g as nat * (nn as nat),
                        nn == 0,
                ;
                assert(target.n == 0 && target.d == dd);
                assert(r@ == target);
            } else {
                if neg {
                    assert(target.n == -(nn as int) && target.d == dd);
                } else {
                    assert(target.n == nn as int && target.d == dd);
                }
                assert(r@ == target);
            }
            r.lemma_wf_view();
        }
        r
    }

    /// The rational `0`.
    pub fn zero() -> (r: Rational)
        ensures
            r.wf(),
            rat_wf(r@),
            r@ == (Rat { n: 0, d: 1 }),
    {
        let r = Rational { neg: false, num: 0, den: 1 };
        proof {
            reveal_with_fuel(gcd, 3);
            r.lemma_wf_view();
        }
        r
    }

    /// The rational `v / 1`.
    pub fn from_int(v: i64) -> (r: Rational)
        ensures
            r.wf(),
            rat_wf(r@),
            r@ == (Rat { n: v as int, d: 1 }),
    {
        let neg = v < 0;
        let m: u128 = if v >= 0 {
            v as u128
        } else {
            ((-(v + 1)) as u128) + 1
        };
        let r = Rational { neg: if m == 0 { false } else { neg }, num: m, den: 1 };
        proof {
            reveal_with_fuel(gcd, 3);
            assert(m as nat % 1nat == 0nat);
            r.lemma_wf_view();
        }
        r
    }

    /// The rational `n / d`, reduced; `None` exactly when `d == 0`.
    pub fn new(n: i128, d: i128) -> (r: Option<Rational>)
        ensures
            r is Some <==> d != 0,
            d != 0 ==> {
                let v = r->Some_0;
                v.wf() && rat_wf(v@) && v@ == rat_make(n as int, d as int)
            },
    {
        if d == 0 {
            return None;
        }
        let neg = (n < 0) != (d < 0);
        let num: u128 = if n >= 0 {
            n as u128
        } else {
            ((-(n + 1)) as u128) + 1
        };
        let den: u128 = if d >= 0 {
            d as u128
        } else {
            ((-(d + 1)) as u128) + 1
        };
        let r = Self::reduce_parts(neg, num, den);
        proof {
            let sn = signed_of(neg, num as nat);
            if d < 0 {
                assert(sn == -(n as int) && den as int == -(d as int));
            } else {
                assert(sn == n as int && den as int == d as int);
            }
        }
        Some(r)
    }

    /// The rational `mant / 10^scale`, reduced.
    pub fn from_decimal(mant: i128, scale: u32) -> (r: Rational)
        requires
            scale <= 30,
        ensures
            r.wf(),
            rat_wf(r@),
            r@ == rat_make(mant as int, pow10(scale as nat) as int),
            mant > 0 ==> r@.n > 0,
            mant == 0 ==> r@.n == 0,
            mant < 0 ==> r@.n < 0,
    {
        proof {
            reveal_with_fuel(pow10, 32);
            assert(pow10(30) == 1000000000000000000000000000000nat);
            lemma_pow10_mono(scale as nat, 30);
        }
        let p10 = match pow10_u128(scale) {
            Some(x) => x,
            None => {
                proof {
                    assert(false);
                }
                1
            },
        };
        let r = match Rational::new(mant, p10 as i128) {
            Some(x) => x,
            None => {
                proof {
                    lemma_pow10_mono(0, scale as nat);
                    assert(false);
                }
                Rational::zero()
            },
        };
        proof {
            lemma_pow10_mono(0, scale as nat);
            lemma_reduce_frac(mant as int, pow10(scale as nat) as int);
        }
        r
    }

    /// True when the value is negative.
    pub fn is_negative(&self) -> (r: bool)
        requires
            self.wf(),
        ensures
            r == (self@.n < 0),
    {
        proof {
            if self.neg {
                assert(self.num > 0);
            }
        }
        self.neg
    }

    /// True when the value is zero.
    pub fn is_zero(&self) -> (r: bool)
        requires
            self.wf(),
        ensures
            r == (self@.n == 0),
    {
        self.num == 0
    }

    /// Checked addition; exact when the 128-bit intermediates fit.
    pub fn checked_plus(&self, o: &Rational) -> (r: Option<Rational>)
        requires
            self.wf(),
            o.wf(),
        ensures
            r is Some <==> add_fits(self@, o@),
            r matches Some(v) ==> v.wf() && rat_wf(v@) && v@ == rat_add(self@, o@),
    {
        proof {
            self.lemma_wf_view();
            o.lemma_wf_view();
        }
        proof {
            assert(abs_int(self@.n) == self.num as nat);
            assert(abs_int(o@.n) == o.num as nat);
        }
        let c1 = match self.num.checked_mul(o.den) {
            Some(x) => x,
            None => {
                return None;
            },
        };
        let c2 = match o.num.checked_mul(self.den) {
            Some(x) => x,
            None => {
                return None;
            },
        };
        let dd = match self.den.checked_mul(o.den) {
            Some(x) => x,
            None => {
                return None;
            },
        };
        proof {
            assert(dd >= 1) by (nonlinear_arith)
                requires
                    dd == self.den * o.den,
                    self.den >= 1,
                    o.den >= 1,
            ;
        }
        proof {
            lemma_mag_product(self.neg, self.num, o.den, self@.n, o@.d);
            lemma_mag_product(o.neg, o.num, self.den, o@.n, self@.d);
            assert(c1 as nat == abs_int(self@.n * o@.d));
            assert(c2 as nat == abs_int(o@.n * self@.d));
        }
        let ghost nsum: int = self@.n * o@.d + o@.n * self@.d;
        if self.neg == o.neg {
            let s = match c1.checked_add(c2) {
                Some(x) => x,
                None => {
                    proof {
                        assert(abs_int(nsum) == c1 + c2);
                    }
                    return None;
                },
            };
            proof {
                assert(signed_of(self.neg, s as nat) == nsum);
                assert(abs_int(nsum) == s);
            }
            Some(Self::reduce_parts(self.neg, s, dd))
        } else {
            if c1 >= c2 {
                proof {
                    assert(signed_of(self.neg, (c1 - c2) as nat) == nsum);
                    assert(abs_int(nsum) == c1 - c2);
                }
                Some(Self::reduce_parts(self.neg, c1 - c2, dd))
            } else {
                proof {
                    assert(signed_of(o.neg, (c2 - c1) as nat) == nsum);
                    assert(abs_int(nsum) == c2 - c1);
                }
                Some(Self::reduce_parts(o.neg, c2 - c1, dd))
            }
        }
    }

    /// Checked multiplication; exact when the 128-bit intermediates fit.
    pub fn checked_times(&self, o: &Rational) -> (r: Option<Rational>)
        requires
            self.wf(),
            o.wf(),
        ensures
            r is Some <==> mul_fits(self@, o@),
            r matches Some(v) ==> v.wf() && rat_wf(v@) && v@ == rat_mul(self@, o@),
    {
        proof {
            self.lemma_wf_view();
            o.lemma_wf_view();
        }
        proof {
            assert(abs_int(self@.n) == self.num as nat);
            assert(abs_int(o@.n) == o.num as nat);
            assert(abs_int(self@.n) * abs_int(o@.n) == self.num as nat * o.num as nat);
        }
        let c = match self.num.checked_mul(o.num) {
            Some(x) => x,
            None => {
                return None;
            },
        };
        let dd = match self.den.checked_mul(o.den) {
            Some(x) => x,
            None => {
                return None;
            },
        };
        proof {
            assert(dd >= 1) by (nonlinear_arith)
                requires
                    dd == self.den * o.den,
                    self.den >= 1,
                    o.den >= 1,
            ;
            let na = self@.n;
            let nb = o@.n;
            if self.neg {
                if o.neg {
                    assert(na * nb == (self.num as int) * (o.num as int)) by (nonlinear_arith)
                        requires
                            na == -(self.num as int),
                            nb == -(o.num as int),
                    ;
                } else {
                    assert(na * nb == -((self.num as int) * (o.num as int))) by (nonlinear_arith)
                        requires
                            na == -(self.num as int),
                            nb == o.num as int,
                    ;
                }
            } else {
                if o.neg {
                    assert(na * nb == -((self.num as int) * (o.num as int))) by (nonlinear_arith)
                        requires
                            na == self.num as int,
                            nb == -(o.num as int),
                    ;
                }
            }
            assert(signed_of(self.neg != o.neg, c as nat) == na * nb);
        }
        Some(Self::reduce_parts(self.neg != o.neg, c, dd))
    }

    /// Checked division; exact when the divisor is nonzero and the 128-bit
    /// intermediates fit.
    pub fn checked_over(&self, o: &Rational) -> (r: Option<Rational>)
        requires
            self.wf(),
            o.wf(),
        ensures
            r is Some <==> o@.n != 0 && div_fits(self@, o@),
            r matches Some(v) ==> v.wf() && rat_wf(v@) && v@ == rat_div(self@, o@),
    {
        proof {
            self.lemma_wf_view();
            o.lemma_wf_view();
        }
        proof {
            assert(abs_int(self@.n) == self.num as nat);
            assert(abs_int(o@.n) == o.num as nat);
        }
        if o.num == 0 {
            return None;
        }
        let c = match self.num.checked_mul(o.den) {
            Some(x) => x,
            None => {
                return None;
            },
        };
        let dd = match self.den.checked_mul(o.num) {
            Some(x) => x,
            None => {
                proof {
                    assert(self@.d * abs_int(o@.n) == self.den as nat * o.num as nat);
                }
                return None;
            },
        };
        proof {
            assert(self@.d * abs_int(o@.n) == self.den as nat * o.num as nat);
            assert(dd >= 1) by (nonlinear_arith)
                requires
                    dd == self.den * o.num,
                    self.den >= 1,
                    o.num >= 1,
            ;
        }
        let neg = self.neg != o.neg;
        let r = Self::reduce_parts(neg, c, dd);
        proof {
            let nn = self@.n * o@.d;
            let nd = self@.d * o@.n;
            if self.neg {
                assert(nn == -((self.num as int) * (o.den as int))) by (nonlinear_arith)
                    requires
                        nn == self@.n * o@.d,
                        self@.n == -(self.num as int),
                        o@.d == o.den as int,
                ;
            } else {
                assert(nn == (self.num as int) * (o.den as int)) by (nonlinear_arith)
                    requires
                        nn == self@.n * o@.d,
                        self@.n == self.num as int,
                        o@.d == o.den as int,
                ;
            }
            assert(signed_of(self.neg, c as nat) == nn);
            if o.neg {
                assert(nd == -((self.den as int) * (o.num as int))) by (nonlinear_arith)
                    requires
                        nd == self@.d * o@.n,
                        o@.n == -(o.num as int),
                        self@.d == self.den as int,
                ;
                assert(nd == -(dd as int));
                assert(rat_div(self@, o@) == reduce_frac(-nn, dd as int));
                assert(signed_of(neg, c as nat) == -nn);
                assert(r@ == rat_div(self@, o@));
            } else {
                assert(nd == (self.den as int) * (o.num as int)) by (nonlinear_arith)
                    requires
                        nd == self@.d * o@.n,
                        o@.n == o.num as int,
                        self@.d == self.den as int,
                ;
                assert(nd == dd as int);
                assert(rat_div(self@, o@) == reduce_frac(nn, dd as int));
                assert(signed_of(neg, c as nat) == nn);
                assert(r@ == rat_div(self@, o@));
            }
        }
        Some(r)
    }

    /// Negation; always exact.
    pub fn negated(&self) -> (r: Rational)
        requires
            self.wf(),
        ensures
            r.wf(),
            rat_wf(r@),
            r@ == rat_neg(self@),
    {
        let r = Rational {
            neg: if self.num == 0 {
                false
            } else {
                !self.neg
            },
            num: self.num,
            den: self.den,
        };
        proof {
            r.lemma_wf_view();
        }
        r
    }

    /// `self >= o` as `ge_total` describes: exact by cross-multiplication,
    /// except that a pair whose cross products do not both fit in 128 bits
    /// compares as if equal.
    pub fn ge_or_unordered(&self, o: &Rational) -> (r: bool)
        requires
            self.wf(),
            o.wf(),
        ensures
            r == ge_total(self@, o@),
    {
        proof {
            self.lemma_wf_view();
            o.lemma_wf_view();
            assert(abs_int(self@.n) == self.num as nat);
            assert(abs_int(o@.n) == o.num as nat);
        }
        match (self.neg, o.neg) {
            (false, true) => true,
            (true, false) => false,
            (false, false) => {
                match (self.num.checked_mul(o.den), o.num.checked_mul(self.den)) {
                    (Some(c1), Some(c2)) => {
                        proof {
                            assert(self@.n * o@.d == (self.num as int) * (o.den as int))
                                by (nonlinear_arith)
                                requires
                                    self@.n == self.num as int,
                                    o@.d == o.den as int,
                            ;
                            assert(o@.n * self@.d == (o.num as int) * (self.den as int))
                                by (nonlinear_arith)
                                requires
                                    o@.n == o.num as int,
                                    self@.d == self.den as int,
                            ;
                        }
                        c1 >= c2
                    },
                    _ => true,
                }
            },
            (true, true) => {
                match (self.num.checked_mul(o.den), o.num.checked_mul(self.den)) {
                    (Some(c1), Some(c2)) => {
                        proof {
                            assert(self.num > 0 && o.num > 0);
                            assert(self@.n * o@.d == -((self.num as int) * (o.den as int)))
                                by (nonlinear_arith)
                                requires
                                    self@.n == -(self.num as int),
                                    o@.d == o.den as int,
                            ;
                            assert(o@.n * self@.d == -((o.num as int) * (self.den as int)))
                                by (nonlinear_arith)
                                requires
                                    o@.n == -(o.num as int),
                                    self@.d == self.den as int,
                            ;
                        }
                        c1 <= c2
                    },
                    _ => true,
                }
            },
        }
    }
}

/// `10 ^ k`.
pub open spec fn pow10(k: nat) -> nat
    decreases k,
{
    if k == 0 {
        1
    } else {
        10 * pow10((k - 1) as nat)
    }
}

/// The decimal digit character for `v` (meaningful for `v < 10`).
pub open spec fn digit_char(v: nat) -> char {
    ((48 + v) as u8) as char
}

/// The decimal digits of `m`, most significant first, without leading zeros
/// (`0` is rendered as a single `'0'`).
pub open spec fn digits_of(m: nat) -> Seq<char>
    decreases m,
{
    if m < 10 {
        seq![digit_char(m)]
    } else {
        digits_of(m / 10).push(digit_char(m % 10))
    }
}

/// The low `k` decimal digits of `m`, zero padded to exactly `k` characters.
pub open spec fn padded_digits(m: nat, k: nat) -> Seq<char>
    decreases k,
{
    if k == 0 {
        Seq::empty()
    } else {
        padded_digits(m / 10, (k - 1) as nat).push(digit_char(m % 10))
    }
}

/// `s` with its trailing `'0'` characters removed.
pub open spec fn trim_zeros(s: Seq<char>) -> Seq<char>
    decreases s.len(),
{
    if s.len() > 0 && s[s.len() - 1] == '0' {
        trim_zeros(s.drop_last())
    } else {
        s
    }
}

/// The minimal decimal rendering of the number `±(m / 10^k)`: integer part,
/// then the fractional digits with trailing zeros dropped, and no `'.'` when
/// nothing remains behind it.
pub open spec fn render_scaled(neg: bool, m: nat, k: nat) -> Seq<char> {
    let ip = m / pow10(k);
    let fr = trim_zeros(padded_digits(m % pow10(k), k));
    let core = if fr.len() == 0 {
        digits_of(ip)
    } else {
        digits_of(ip) + seq!['.'] + fr
    };
    if neg && m > 0 {
        seq!['-'] + core
    } else {
        core
    }
}

/// `x / d` rounded half away from zero for nonnegative `x` (`d >= 1`).
pub open spec fn round_half_up(x: nat, d: nat) -> nat {
    ((2 * x + d) / (2 * d)) as nat
}

/// `v` rounded to `p` decimal places (half away from zero) and rendered
/// minimally.
pub open spec fn spec_format(v: Rat, p: nat) -> Seq<char> {
    render_scaled(v.n < 0, round_half_up(abs_int(v.n) * pow10(p), v.d as nat), p)
}

/// `d` with all factors `f` divided out.
pub open spec fn strip_factor(d: nat, f: nat) -> nat
    decreases d,
    via strip_factor_dec
{
    if 2 <= f && 1 <= d && d % f == 0 {
        strip_factor(d / f, f)
    } else {
        d
    }
}

#[via_fn]
proof fn strip_factor_dec(d: nat, f: nat) {
    if 2 <= f && 1 <= d && d % f == 0 {
        vstd::arithmetic::div_mod::lemma_div_is_strictly_smaller(d as int, f as int);
    }
}

/// The multiplicity of the factor `f` in `d`.
pub open spec fn exp_factor(d: nat, f: nat) -> nat
    decreases d,
    via exp_factor_dec
{
    if 2 <= f && 1 <= d && d % f == 0 {
        1 + exp_factor(d / f, f)
    } else {
        0
    }
}

#[via_fn]
proof fn exp_factor_dec(d: nat, f: nat) {
    if 2 <= f && 1 <= d && d % f == 0 {
        vstd::arithmetic::div_mod::lemma_div_is_strictly_smaller(d as int, f as int);
    }
}

/// `d` has no prime factors other than 2 and 5, so `1 / d` terminates as a
/// decimal.
pub open spec fn is_ten_smooth(d: nat) -> bool {
    strip_factor(strip_factor(d, 2), 5) == 1
}

/// A scale `k` with `d | 10^k` for a ten-smooth `d`.
pub open spec fn smooth_scale(d: nat) -> nat {
    let e2 = exp_factor(d, 2);
    let e5 = exp_factor(strip_factor(d, 2), 5);
    if e2 >= e5 {
        e2
    } else {
        e5
    }
}

/// The exact rendering path applies: the denominator is ten-smooth and the
/// scaled numerator fits in 128 bits.
pub open spec fn exact_render_fits(v: Rat) -> bool {
    &&& is_ten_smooth(v.d as nat)
    &&& pow10(smooth_scale(v.d as nat)) <= u128::MAX
    &&& abs_int(v.n) * pow10(smooth_scale(v.d as nat)) <= u128::MAX
}

/// The rounding path at scale `p` fits in 128 bits.
pub open spec fn round_fits(v: Rat, p: nat) -> bool {
    &&& pow10(p) <= u128::MAX
    &&& abs_int(v.n) * pow10(p) <= u128::MAX
    &&& 2 * (abs_int(v.n) * pow10(p)) + v.d <= u128::MAX
    &&& 2 * v.d <= u128::MAX
}

/// How a rational value is displayed in full: exactly when its denominator
/// is ten-smooth and the digits fit, otherwise rounded to `FULL_SCALE`
/// decimal places.
pub open spec fn spec_render_value(v: Rat) -> Seq<char> {
    if exact_render_fits(v) {
        render_scaled(
            v.n < 0,
            (abs_int(v.n) * pow10(smooth_scale(v.d as nat)) / v.d as nat) as nat,
            smooth_scale(v.d as nat),
        )
    } else {
        spec_format(v, FULL_SCALE as nat)
    }
}

/// The scale used to display a value whose denominator is not ten-smooth.
pub const FULL_SCALE: u32 = 14;

/// Relates the magnitude product of a sign/magnitude pair with the signed
/// product: `|sn| * pd == |sn * pd|` for a positive `pd`.
proof fn lemma_mag_product(neg: bool, m: u128, p: u128, sn: int, pd: int)
    requires
        sn == signed_of(neg, m as nat),
        pd == p as int,
    ensures
        m as nat * p as nat == abs_int(sn * pd),
        signed_of(neg, (m as nat * p as nat) as nat) == sn * pd,
{
    assert(m as nat * p as nat == abs_int(sn * pd) && signed_of(
        neg,
        (m as nat * p as nat) as nat,
    ) == sn * pd) by (nonlinear_arith)
        requires
            sn == signed_of(neg, m as nat),
            pd == p as int,
    ;
}

/// `10^e <= m` whenever `e` is the multiplicity of a factor of `m`; used to
/// bound the factor-counting loop.
proof fn lemma_exp_factor_bound(d: nat, f: nat)
    requires
        1 <= d <= u128::MAX,
        2 <= f,
    ensures
        exp_factor(d, f) <= 127,
{
    lemma_exp_factor_pow(d, f);
    let e = exp_factor(d, f);
    if e > 127 {
        if e > 128 {
            vstd::arithmetic::power2::lemma_pow2_strictly_increases(128, e);
        }
        vstd::arithmetic::power2::lemma2_to64_rest();
        vstd::arithmetic::power2::lemma_pow2_adds(64, 64);
        assert(vstd::arithmetic::power2::pow2(128) == 0x10000000000000000 * 0x10000000000000000)
            by (nonlinear_arith)
            requires
                vstd::arithmetic::power2::pow2(128) == vstd::arithmetic::power2::pow2(64)
                    * vstd::arithmetic::power2::pow2(64),
                vstd::arithmetic::power2::pow2(64) == 0x10000000000000000,
        ;
        assert(false);
    }
}

proof fn lemma_exp_factor_pow(d: nat, f: nat)
    requires
        1 <= d,
        2 <= f,
    ensures
        vstd::arithmetic::power2::pow2(exp_factor(d, f)) <= d,
    decreases d,
{
    vstd::arithmetic::power2::lemma_pow2_pos(exp_factor(d, f));
    if d % f == 0 {
        let d2 = d / f;
        vstd::arithmetic::div_mod::lemma_fundamental_div_mod(d as int, f as int);
        assert(d2 >= 1) by (nonlinear_arith)
            requires
                d >= 1,
                f >= 2,
                d == f * (d / f),
                d2 == d / f,
        ;
        assert(d2 < d) by {
            vstd::arithmetic::div_mod::lemma_div_is_strictly_smaller(d as int, f as int);
        }
        lemma_exp_factor_pow(d2, f);
        assert(exp_factor(d, f) == 1 + exp_factor(d2, f));
        vstd::arithmetic::power2::lemma_pow2_unfold(exp_factor(d, f));
        assert(vstd::arithmetic::power2::pow2(exp_factor(d, f)) == 2
            * vstd::arithmetic::power2::pow2(exp_factor(d2, f)));
        assert(d2 <= d / 2) by {
            vstd::arithmetic::div_mod::lemma_div_is_ordered_by_denominator(d as int, 2, f as int);
        }
        assert(2 * (d / 2) <= d) by {
            vstd::arithmetic::div_mod::lemma_fundamental_div_mod(d as int, 2);
        }
        assert(vstd::arithmetic::power2::pow2(exp_factor(d, f)) <= d);
    } else {
        assert(exp_factor(d, f) == 0);
        vstd::arithmetic::power2::lemma2_to64();
    }
}

/// Divides all factors `f` out of `d`, returning the residue and the count.
fn split_factor(d0: u128, f: u128) -> (r: (u128, u32))
    requires
        1 <= d0,
        2 <= f,
    ensures
        r.0 as nat == strip_factor(d0 as nat, f as nat),
        r.1 as nat == exp_factor(d0 as nat, f as nat),
        r.0 >= 1,
{
    let mut d = d0;
    let mut c: u32 = 0;
    proof {
        lemma_exp_factor_bound(d0 as nat, f as nat);
    }
    while d % f == 0
        invariant
            1 <= d,
            2 <= f,
            strip_factor(d0 as nat, f as nat) == strip_factor(d as nat, f as nat),
            exp_factor(d0 as nat, f as nat) == c + exp_factor(d as nat, f as nat),
            exp_factor(d0 as nat, f as nat) <= 127,
        decreases d,
    {
        proof {
            vstd::arithmetic::div_mod::lemma_fundamental_div_mod(d as int, f as int);
            assert(d / f >= 1) by (nonlinear_arith)
                requires
                    d >= 1,
                    f >= 2,
                    d == f * (d / f),
            ;
            vstd::arithmetic::div_mod::lemma_div_is_strictly_smaller(d as int, f as int);
            assert(exp_factor(d as nat, f as nat) == 1 + exp_factor((d / f) as nat, f as nat));
        }
        d = d / f;
        c = c + 1;
    }
    (d, c)
}

/// `10^k` as a `u128`, or `None` when it does not fit.
fn pow10_u128(k: u32) -> (r: Option<u128>)
    ensures
        r matches Some(x) ==> x as nat == pow10(k as nat),
        r is Some <==> pow10(k as nat) <= u128::MAX,
{
    let mut acc: u128 = 1;
    let mut i: u32 = 0;
    while i < k
        invariant
            i <= k,
            acc as nat == pow10(i as nat),
        decreases k - i,
    {
        acc = match acc.checked_mul(10) {
            Some(x) => x,
            None => {
                proof {
                    lemma_pow10_mono((i + 1) as nat, k as nat);
                }
                return None;
            },
        };
        i = i + 1;
    }
    Some(acc)
}

/// `pow10` is positive.
pub proof fn lemma_pow10_pos(k: nat)
    ensures
        pow10(k) >= 1,
    decreases k,
{
    if k > 0 {
        lemma_pow10_pos((k - 1) as nat);
    }
}

/// `pow10` is monotone.
pub proof fn lemma_pow10_mono(i: nat, j: nat)
    requires
        i <= j,
    ensures
        pow10(i) <= pow10(j),
        pow10(i) >= 1,
    decreases j,
{
    lemma_pow10_pos(i);
    if i < j {
        lemma_pow10_mono(i, (j - 1) as nat);
        lemma_pow10_pos((j - 1) as nat);
    }
}

fn digit_char_of(m: u128) -> (c: char)
    requires
        m < 10,
    ensures
        c == digit_char(m as nat),
{
    (48 + m as u8) as char
}

/// The decimal digits of `m`, most significant first.
fn digits_u128(m: u128) -> (v: Vec<char>)
    ensures
        v@ == digits_of(m as nat),
    decreases m,
{
    if m < 10 {
        let mut v: Vec<char> = Vec::new();
        v.push(digit_char_of(m));
        proof {
            assert(v@ =~= digits_of(m as nat));
        }
        v
    } else {
        let mut v = digits_u128(m / 10);
        v.push(digit_char_of(m % 10));
        v
    }
}

/// The low `k` decimal digits of `m`, zero padded to `k` characters.
fn padded_u128(m: u128, k: u32) -> (v: Vec<char>)
    ensures
        v@ == padded_digits(m as nat, k as nat),
    decreases k,
{
    if k == 0 {
        let v: Vec<char> = Vec::new();
        proof {
            assert(v@ =~= padded_digits(m as nat, 0));
        }
        v
    } else {
        let mut v = padded_u128(m / 10, k - 1);
        v.push(digit_char_of(m % 10));
        v
    }
}

/// Removes trailing `'0'` characters.
fn trim_zeros_vec(v: &mut Vec<char>)
    ensures
        final(v)@ == trim_zeros(old(v)@),
{
    while v.len() > 0 && v[v.len() - 1] == '0'
        invariant
            trim_zeros(v@) == trim_zeros(old(v)@),
        decreases v.len(),
    {
        v.pop();
    }
}

/// Builds the decimal string for `±(m / 10^k)`.
fn render_scaled_vec(neg: bool, m: u128, p10: u128, k: u32) -> (v: Vec<char>)
    requires
        p10 as nat == pow10(k as nat),
    ensures
        v@ == render_scaled(neg, m as nat, k as nat),
{
    proof {
        lemma_pow10_mono(0, k as nat);
    }
    let ip = m / p10;
    let fp = m % p10;
    let mut out: Vec<char> = Vec::new();
    if neg && m > 0 {
        out.push('-');
    }
    let mut digs = digits_u128(ip);
    let ghost digs0 = digs@;
    let mut fr = padded_u128(fp, k);
    trim_zeros_vec(&mut fr);
    let ghost fr0 = fr@;
    out.append(&mut digs);
    if fr.len() > 0 {
        out.push('.');
        out.append(&mut fr);
        proof {
            assert(out@ =~= render_scaled(neg, m as nat, k as nat));
        }
    } else {
        proof {
            assert(out@ =~= render_scaled(neg, m as nat, k as nat));
        }
    }
    out
}

impl Rational {
    /// The value rounded to `p` decimal places, half away from zero, rendered
    /// minimally; `None` when the scaled numerator does not fit in 128 bits.
    pub fn format_digits(&self, p: u32) -> (r: Option<Vec<char>>)
        requires
            self.wf(),
        ensures
            r is Some <==> round_fits(self@, p as nat),
            r matches Some(v) ==> v@ == spec_format(self@, p as nat),
    {
        proof {
            assert(abs_int(self@.n) == self.num as nat);
        }
        let p10 = match pow10_u128(p) {
            Some(x) => x,
            None => {
                return None;
            },
        };
        let x = match self.num.checked_mul(p10) {
            Some(x) => x,
            None => {
                return None;
            },
        };
        let t = match x.checked_mul(2) {
            Some(t) => match t.checked_add(self.den) {
                Some(t2) => t2,
                None => {
                    return None;
                },
            },
            None => {
                return None;
            },
        };
        let d2 = match self.den.checked_mul(2) {
            Some(x) => x,
            None => {
                return None;
            },
        };
        let q = t / d2;
        proof {
            if self.neg {
                assert(self.num > 0);
                assert(self@.n < 0);
            } else {
                assert(self@.n >= 0);
            }
            assert(q as nat == round_half_up((self.num as nat * pow10(p as nat)) as nat,
                self.den as nat));
        }
        Some(render_scaled_vec(self.neg, q, p10, p))
    }

    /// The value rendered in full: exactly when the denominator is ten-smooth
    /// and the digits fit in 128 bits, otherwise rounded to `FULL_SCALE`
    /// places; `None` when neither path fits.
    pub fn render_digits(&self) -> (r: Option<Vec<char>>)
        requires
            self.wf(),
        ensures
            r is Some <==> exact_render_fits(self@) || round_fits(self@, FULL_SCALE as nat),
            r matches Some(v) ==> v@ == spec_render_value(self@),
    {
        proof {
            assert(abs_int(self@.n) == self.num as nat);
            if self.neg {
                assert(self.num > 0);
            }
        }
        let (s1, e2) = split_factor(self.den, 2);
        let (s2, e5) = split_factor(s1, 5);
        if s2 == 1 {
            let k = if e2 >= e5 {
                e2
            } else {
                e5
            };
            proof {
                assert(k as nat == smooth_scale(self@.d as nat));
            }
            if let Some(p10) = pow10_u128(k) {
                if let Some(x) = self.num.checked_mul(p10) {
                    let m = x / self.den;
                    proof {
                        assert(exact_render_fits(self@));
                        assert(m as nat == (abs_int(self@.n) * pow10(smooth_scale(
                            self@.d as nat,
                        )) / self@.d as nat) as nat);
                    }
                    return Some(render_scaled_vec(self.neg, m, p10, k));
                }
            }
        }
        proof {
            assert(!exact_render_fits(self@));
        }
        self.format_digits(FULL_SCALE)
    }
}

} // verus!
