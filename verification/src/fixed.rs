//! Saturating fixed-point arithmetic in millionths.
//!
//! A value `x` of this numeric domain stands for the real number
//! `x / SCALE`. All operations truncate toward zero and saturate at the
//! `i64` range, so they are total and their results are stated exactly.

use vstd::prelude::*;

verus! {

/// Number of fixed-point units that stand for 1.0.
pub const SCALE: i64 = 1_000_000;

/// Saturation of a mathematical integer to the `i64` range.
pub open spec fn sat64(x: int) -> int {
    if x > i64::MAX {
        i64::MAX as int
    } else if x < i64::MIN {
        i64::MIN as int
    } else {
        x
    }
}

/// Magnitude of a mathematical integer.
pub open spec fn abs_int(x: int) -> int {
    if x >= 0 {
        x
    } else {
        -x
    }
}

/// Division truncated toward zero; the divisor must be positive.
pub open spec fn div_trunc(n: int, d: int) -> int
    recommends
        d > 0,
{
    if n >= 0 {
        n / d
    } else {
        -((-n) / d)
    }
}

/// Saturating sum.
pub open spec fn sat_add_spec(a: int, b: int) -> int {
    sat64(a + b)
}

/// Saturating difference.
pub open spec fn sat_sub_spec(a: int, b: int) -> int {
    sat64(a - b)
}

/// Saturating negation.
pub open spec fn sat_neg_spec(a: int) -> int {
    sat64(-a)
}

/// Fixed-point product `a * b / SCALE`, truncated toward zero and saturated.
pub open spec fn fx_mul_spec(a: int, b: int) -> int {
    sat64(div_trunc(a * b, SCALE as int))
}

/// Fixed-point quotient `a * SCALE / b`, truncated toward zero and
/// saturated; the divisor must be positive.
pub open spec fn fx_div_spec(a: int, b: int) -> int
    recommends
        b > 0,
{
    sat64(div_trunc(a * (SCALE as int), b))
}

/// Clamp to a closed interval.
pub open spec fn clamp_spec(x: int, lo: int, hi: int) -> int
    recommends
        lo <= hi,
{
    if x < lo {
        lo
    } else if x > hi {
        hi
    } else {
        x
    }
}

/// Saturating addition on `i64`.
pub fn sat_add(a: i64, b: i64) -> (r: i64)
    ensures
        r == sat_add_spec(a as int, b as int),
{
    let s: i128 = a as i128 + b as i128;
    if s > i64::MAX as i128 {
        i64::MAX
    } else if s < i64::MIN as i128 {
        i64::MIN
    } else {
        s as i64
    }
}

/// Saturating subtraction on `i64`.
pub fn sat_sub(a: i64, b: i64) -> (r: i64)
    ensures
        r == sat_sub_spec(a as int, b as int),
{
    let s: i128 = a as i128 - b as i128;
    if s > i64::MAX as i128 {
        i64::MAX
    } else if s < i64::MIN as i128 {
        i64::MIN
    } else {
        s as i64
    }
}

/// Saturating negation on `i64`.
pub fn sat_neg(a: i64) -> (r: i64)
    ensures
        r == sat_neg_spec(a as int),
{
    if a == i64::MIN {
        i64::MAX
    } else {
        -a
    }
}

/// Magnitude of an `i64`, wide enough to hold `-i64::MIN`.
pub fn abs_u64(a: i64) -> (r: u64)
    ensures
        r == abs_int(a as int),
{
    if a >= 0 {
        a as u64
    } else if a == i64::MIN {
        9_223_372_036_854_775_808u64
    } else {
        (-a) as u64
    }
}

/// Clamp an `i64` to a closed interval.
pub fn clamp(x: i64, lo: i64, hi: i64) -> (r: i64)
    requires
        lo <= hi,
    ensures
        r == clamp_spec(x as int, lo as int, hi as int),
{
    if x < lo {
        lo
    } else if x > hi {
        hi
    } else {
        x
    }
}

/// The magnitude of a product is the product of the magnitudes.
pub proof fn lemma_abs_mul(x: int, y: int)
    ensures
        abs_int(x * y) == abs_int(x) * abs_int(y),
{
    if x >= 0 && y >= 0 {
        assert(x * y >= 0) by (nonlinear_arith)
            requires
                x >= 0 && y >= 0,
        ;
    } else if x >= 0 && y < 0 {
        assert(x * y <= 0 && x * (-y) == -(x * y)) by (nonlinear_arith)
            requires
                x >= 0 && y < 0,
        ;
    } else if x < 0 && y >= 0 {
        assert(x * y <= 0 && (-x) * y == -(x * y)) by (nonlinear_arith)
            requires
                x < 0 && y >= 0,
        ;
    } else {
        assert(x * y >= 0 && (-x) * (-y) == x * y) by (nonlinear_arith)
            requires
                x < 0 && y < 0,
        ;
    }
}

/// Truncated division of a non-negative numerator agrees with the
/// mathematical (Euclidean) quotient.
pub proof fn lemma_div_trunc_nonneg(n: int, d: int)
    requires
        n >= 0,
        d > 0,
    ensures
        div_trunc(n, d) == n / d,
        div_trunc(n, d) >= 0,
{
    vstd::arithmetic::div_mod::lemma_div_pos_is_pos(n, d);
}

/// Truncated division is monotone in the numerator.
pub proof fn lemma_div_trunc_ordered(x: int, y: int, d: int)
    requires
        x <= y,
        d > 0,
    ensures
        div_trunc(x, d) <= div_trunc(y, d),
{
    if x >= 0 {
        vstd::arithmetic::div_mod::lemma_div_is_ordered(x, y, d);
    } else if y >= 0 {
        vstd::arithmetic::div_mod::lemma_div_pos_is_pos(-x, d);
        vstd::arithmetic::div_mod::lemma_div_pos_is_pos(y, d);
    } else {
        vstd::arithmetic::div_mod::lemma_div_is_ordered(-y, -x, d);
    }
}

/// Chooses the sign of a non-negative magnitude and saturates to `i64`.
fn sign_sat(neg: bool, q: u128) -> (r: i64)
    ensures
        neg ==> r == sat64(-(q as int)),
        !neg ==> r == sat64(q as int),
{
    if neg {
        if q >= 9_223_372_036_854_775_808u128 {
            i64::MIN
        } else {
            -(q as i64)
        }
    } else {
        if q > i64::MAX as u128 {
            i64::MAX
        } else {
            q as i64
        }
    }
}

/// Saturating fixed-point multiplication on `i64`.
pub fn fx_mul(a: i64, b: i64) -> (r: i64)
    ensures
        r == fx_mul_spec(a as int, b as int),
{
    let neg: bool = (a < 0) != (b < 0);
    let aa: u128 = abs_u64(a) as u128;
    let bb: u128 = abs_u64(b) as u128;
    proof {
        assert(aa * bb <= 9_223_372_036_854_775_808 * 9_223_372_036_854_775_808) by (nonlinear_arith)
            requires
                0 <= aa <= 9_223_372_036_854_775_808 && 0 <= bb <= 9_223_372_036_854_775_808,
        ;
        lemma_abs_mul(a as int, b as int);
    }
    let p: u128 = aa * bb;
    let q: u128 = p / (SCALE as u128);
    proof {
        let prod = (a as int) * (b as int);
        lemma_div_trunc_nonneg(abs_int(prod), SCALE as int);
        if prod >= 0 {
            assert(q == div_trunc(prod, SCALE as int));
        } else {
            assert(q == (-prod) / (SCALE as int));
            assert(div_trunc(prod, SCALE as int) == -(q as int));
        }
        if a < 0 && b < 0 {
            assert(prod >= 0) by (nonlinear_arith)
                requires
                    a < 0 && b < 0 && prod == (a as int) * (b as int),
            ;
        }
        if (a < 0) != (b < 0) {
            assert(prod <= 0) by (nonlinear_arith)
                requires
                    ((a < 0 && b >= 0) || (a >= 0 && b < 0)) && prod == (a as int) * (b as int),
            ;
        }
        if a >= 0 && b >= 0 {
            assert(prod >= 0) by (nonlinear_arith)
                requires
                    a >= 0 && b >= 0 && prod == (a as int) * (b as int),
            ;
        }
    }
    sign_sat(neg, q)
}

/// Saturating fixed-point division on `i64`; the divisor must be positive.
pub fn fx_div(a: i64, b: i64) -> (r: i64)
    requires
        b > 0,
    ensures
        r == fx_div_spec(a as int, b as int),
{
    let aa: u128 = abs_u64(a) as u128;
    proof {
        assert(aa * (SCALE as u128) <= 9_223_372_036_854_775_808 * 1_000_000) by (nonlinear_arith)
            requires
                0 <= aa <= 9_223_372_036_854_775_808,
        ;
        lemma_abs_mul(a as int, SCALE as int);
        assert(abs_int(SCALE as int) == SCALE as int);
    }
    let num: u128 = aa * (SCALE as u128);
    let q: u128 = num / (b as u128);
    proof {
        let scaled = (a as int) * (SCALE as int);
        lemma_div_trunc_nonneg(abs_int(scaled), b as int);
        if a >= 0 {
            assert(scaled >= 0) by (nonlinear_arith)
                requires
                    a >= 0 && scaled == (a as int) * (SCALE as int),
            ;
            assert(q == div_trunc(scaled, b as int));
        } else {
            assert(scaled < 0) by (nonlinear_arith)
                requires
                    a < 0 && scaled == (a as int) * (SCALE as int),
            ;
            assert(q == (-scaled) / (b as int));
            assert(div_trunc(scaled, b as int) == -(q as int));
        }
    }
    sign_sat(a < 0, q)
}

/// A fixed-point quotient of a non-negative value by a positive one is
/// non-negative.
pub proof fn lemma_fx_div_nonneg(a: int, b: int)
    requires
        a >= 0,
        b > 0,
    ensures
        fx_div_spec(a, b) >= 0,
{
    vstd::arithmetic::mul::lemma_mul_nonnegative(a, SCALE as int);
    lemma_div_trunc_nonneg(a * (SCALE as int), b);
}

/// A fixed-point product of non-negative values is non-negative.
pub proof fn lemma_fx_mul_nonneg(a: int, b: int)
    requires
        a >= 0,
        b >= 0,
    ensures
        fx_mul_spec(a, b) >= 0,
{
    vstd::arithmetic::mul::lemma_mul_nonnegative(a, b);
    lemma_div_trunc_nonneg(a * b, SCALE as int);
}

/// A fixed-point product of a non-positive and a non-negative value is
/// non-positive.
pub proof fn lemma_fx_mul_nonpos(a: int, b: int)
    requires
        a <= 0,
        b >= 0,
    ensures
        fx_mul_spec(a, b) <= 0,
{
    assert(a * b <= 0) by (nonlinear_arith)
        requires
            a <= 0 && b >= 0,
    ;
    if a * b < 0 {
        vstd::arithmetic::div_mod::lemma_div_pos_is_pos(-(a * b), SCALE as int);
    }
}

/// A fixed-point product with a non-negative left factor is monotone in
/// the right factor.
pub proof fn lemma_fx_mul_mono_right(c: int, x: int, y: int)
    requires
        c >= 0,
        x <= y,
    ensures
        fx_mul_spec(c, x) <= fx_mul_spec(c, y),
{
    vstd::arithmetic::mul::lemma_mul_inequality(x, y, c);
    assert(x * c == c * x && y * c == c * y) by (nonlinear_arith);
    lemma_div_trunc_ordered(c * x, c * y, SCALE as int);
}

/// Fixed-point value of exp(-1).
pub const INV_E: i64 = 367_879;

/// Alternating-series approximation of exp(-f / SCALE) for a fractional
/// argument `0 <= f < SCALE`, in fixed point.
pub open spec fn exp_frac_spec(f: int) -> int
    recommends
        0 <= f < SCALE,
{
    let s = SCALE as int;
    let t2 = (f * f) / s;
    let t3 = (t2 * f) / s;
    let t4 = (t3 * f) / s;
    s - f + t2 / 2 - t3 / 6 + t4 / 24
}

/// `k` repeated fixed-point multiplications of `p` by exp(-1).
pub open spec fn decay_pow_spec(p: int, k: nat) -> int
    decreases k,
{
    if k == 0 {
        p
    } else {
        (decay_pow_spec(p, (k - 1) as nat) * (INV_E as int)) / (SCALE as int)
    }
}

/// Fixed-point approximation of exp(-x / SCALE) for `x >= 0`: the
/// fractional part goes through the series, each whole unit through one
/// multiplication by exp(-1).
pub open spec fn exp_neg_spec(x: int) -> int
    recommends
        x >= 0,
{
    decay_pow_spec(exp_frac_spec(x % (SCALE as int)), (x / (SCALE as int)) as nat)
}

/// Bounds for the series terms and the series value on a fractional argument.
pub proof fn lemma_exp_frac_bounds(f: int)
    requires
        0 <= f < SCALE,
    ensures
        0 < exp_frac_spec(f) <= SCALE,
{
    let s = SCALE as int;
    let t2 = (f * f) / s;
    let t3 = (t2 * f) / s;
    let t4 = (t3 * f) / s;
    vstd::arithmetic::mul::lemma_mul_nonnegative(f, f);
    vstd::arithmetic::div_mod::lemma_div_pos_is_pos(f * f, s);
    vstd::arithmetic::mul::lemma_mul_inequality(f, s, f);
    vstd::arithmetic::div_mod::lemma_div_is_ordered(f * f, s * f, s);
    vstd::arithmetic::div_mod::lemma_div_multiples_vanish(f, s);
    assert(t2 <= f);
    vstd::arithmetic::mul::lemma_mul_nonnegative(t2, f);
    vstd::arithmetic::div_mod::lemma_div_pos_is_pos(t2 * f, s);
    vstd::arithmetic::mul::lemma_mul_inequality(f, s, t2);
    assert(t2 * f == f * t2 && s * t2 == t2 * s) by (nonlinear_arith);
    vstd::arithmetic::div_mod::lemma_div_is_ordered(t2 * f, s * t2, s);
    vstd::arithmetic::div_mod::lemma_div_multiples_vanish(t2, s);
    assert(t3 <= t2);
    vstd::arithmetic::mul::lemma_mul_nonnegative(t3, f);
    vstd::arithmetic::div_mod::lemma_div_pos_is_pos(t3 * f, s);
    vstd::arithmetic::mul::lemma_mul_inequality(f, s, t3);
    assert(t3 * f == f * t3 && s * t3 == t3 * s) by (nonlinear_arith);
    vstd::arithmetic::div_mod::lemma_div_is_ordered(t3 * f, s * t3, s);
    vstd::arithmetic::div_mod::lemma_div_multiples_vanish(t3, s);
    assert(t4 <= t3);
    // upper bound: t2 / 2 + t4 / 24 <= f
    vstd::arithmetic::div_mod::lemma_div_is_ordered(t2, f, 2);
    vstd::arithmetic::div_mod::lemma_div_is_ordered(t4, f, 24);
    vstd::arithmetic::div_mod::lemma_div_is_ordered_by_denominator(f, 2, 24);
    assert(2 * (f / 2) <= f);
    // lower bound: t3 / 6 <= t2 / 2
    vstd::arithmetic::div_mod::lemma_div_is_ordered(t3, t2, 6);
    vstd::arithmetic::div_mod::lemma_div_is_ordered_by_denominator(t2, 2, 6);
    vstd::arithmetic::div_mod::lemma_div_pos_is_pos(t4, 24);
}

/// The repeated decay stays within `[0, p]`.
pub proof fn lemma_decay_pow_bounds(p: int, k: nat)
    requires
        0 <= p <= SCALE,
    ensures
        0 <= decay_pow_spec(p, k) <= p,
    decreases k,
{
    if k > 0 {
        lemma_decay_pow_bounds(p, (k - 1) as nat);
        let q = decay_pow_spec(p, (k - 1) as nat);
        vstd::arithmetic::mul::lemma_mul_nonnegative(q, INV_E as int);
        vstd::arithmetic::div_mod::lemma_div_pos_is_pos(q * (INV_E as int), SCALE as int);
        vstd::arithmetic::mul::lemma_mul_inequality(INV_E as int, SCALE as int, q);
        assert(q * (INV_E as int) == (INV_E as int) * q && q * (SCALE as int) == (SCALE as int) * q)
            by (nonlinear_arith);
        vstd::arithmetic::div_mod::lemma_div_is_ordered(
            q * (INV_E as int),
            (SCALE as int) * q,
            SCALE as int,
        );
        vstd::arithmetic::div_mod::lemma_div_multiples_vanish(q, SCALE as int);
    }
}

/// Once the repeated decay reaches zero it stays there.
pub proof fn lemma_decay_pow_zero(p: int, i: nat, k: nat)
    requires
        decay_pow_spec(p, i) == 0,
        i <= k,
    ensures
        decay_pow_spec(p, k) == 0,
    decreases k - i,
{
    if k > i {
        lemma_decay_pow_zero(p, i, (k - 1) as nat);
    }
}

/// The approximation of exp(-x / SCALE) lies within `[0, SCALE]`.
pub proof fn lemma_exp_neg_bounds(x: int)
    requires
        x >= 0,
    ensures
        0 <= exp_neg_spec(x) <= SCALE,
{
    let s = SCALE as int;
    vstd::arithmetic::div_mod::lemma_mod_bound(x, s);
    lemma_exp_frac_bounds(x % s);
    vstd::arithmetic::div_mod::lemma_div_pos_is_pos(x, s);
    lemma_decay_pow_bounds(exp_frac_spec(x % s), (x / s) as nat);
}

/// Saturating fixed-point approximation of exp(-x / SCALE) for `x >= 0`.
pub fn exp_neg(x: i64) -> (r: i64)
    requires
        x >= 0,
    ensures
        r == exp_neg_spec(x as int),
        0 <= r <= SCALE,
{
    let xu: u64 = x as u64;
    let n: u64 = xu / 1_000_000;
    let f: u64 = xu % 1_000_000;
    proof {
        assert(f * f < 1_000_000_000_000) by (nonlinear_arith)
            requires
                0 <= f < 1_000_000,
        ;
    }
    let t2: u64 = (f * f) / 1_000_000;
    proof {
        lemma_exp_frac_bounds(f as int);
        assert(t2 * f < 1_000_000_000_000) by (nonlinear_arith)
            requires
                0 <= t2 < 1_000_000 && 0 <= f < 1_000_000,
        ;
    }
    let t3: u64 = (t2 * f) / 1_000_000;
    proof {
        assert(t3 * f < 1_000_000_000_000) by (nonlinear_arith)
            requires
                0 <= t3 < 1_000_000 && 0 <= f < 1_000_000,
        ;
    }
    let t4: u64 = (t3 * f) / 1_000_000;
    let mut p: u64 = 1_000_000 - f + t2 / 2 + t4 / 24 - t3 / 6;
    proof {
        assert(p == exp_frac_spec(f as int));
        assert(p == decay_pow_spec(exp_frac_spec(f as int), 0));
    }
    let mut i: u64 = 0;
    while i < n && p != 0
        invariant
            i <= n,
            0 <= p <= 1_000_000,
            p == decay_pow_spec(exp_frac_spec(f as int), i as nat),
        decreases n - i,
    {
        proof {
            vstd::arithmetic::mul::lemma_mul_inequality(p as int, 1_000_000, 367_879);
            vstd::arithmetic::mul::lemma_mul_inequality(367_879, 1_000_000, p as int);
            assert(p * 367_879 == 367_879 * (p as int) && 1_000_000 * (p as int) == p * 1_000_000)
                by (nonlinear_arith);
            vstd::arithmetic::div_mod::lemma_div_is_ordered(
                (p as int) * 367_879,
                1_000_000 * (p as int),
                1_000_000,
            );
            vstd::arithmetic::div_mod::lemma_div_multiples_vanish(p as int, 1_000_000);
        }
        p = (p * 367_879) / 1_000_000;
        i = i + 1;
    }
    proof {
        if p == 0 && i < n {
            lemma_decay_pow_zero(exp_frac_spec(f as int), i as nat, n as nat);
        }
        lemma_exp_neg_bounds(x as int);
    }
    p as i64
}

} // verus!
