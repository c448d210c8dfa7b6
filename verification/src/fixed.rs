//! Fixed-point scalars and the few arithmetic helpers the minimiser needs.
//!
//! A real number `r` is represented by the `i64` closest to `r * SCALE`,
//! so one fixed-point unit is one nanounit of the quantity being measured.
//! Division helpers truncate toward zero, mirroring how quotients of
//! like-signed magnitudes behave.

use vstd::prelude::*;

verus! {

/// Fixed-point units per 1.0.
pub const SCALE: i64 = 1_000_000_000;

/// Absolute convergence tolerance on the abscissa: 1e-5 in fixed-point units.
pub const XATOL: i64 = 10_000;

/// One third of `XATOL`, the constant part of the per-iteration tolerance.
pub const XATOL_THIRD: i64 = 3_333;

/// Numerator of the golden mean (3 - sqrt 5) / 2 at denominator `GOLDEN_DEN`.
pub const GOLDEN_NUM: i64 = 381_966_011;

/// Denominator of the golden-mean ratio.
pub const GOLDEN_DEN: i64 = 1_000_000_000;

/// Numerator of sqrt(2.2e-16), the relative tolerance factor, at denominator `SQEPS_DEN`.
pub const SQEPS_NUM: i64 = 14_832;

/// Denominator of the relative tolerance factor.
pub const SQEPS_DEN: i64 = 1_000_000_000_000;

/// Hard cap on objective evaluations in one minimisation run.
pub const MAXFUN: u64 = 500;

/// Largest abscissa magnitude the minimiser accepts (1000.0 in real units).
pub const XBOUND: i64 = 1_000_000_000_000;

/// Largest objective magnitude the minimiser accepts from the supplied function.
pub const FBOUND: i64 = 1_000_000_000_000;

/// Largest magnitude a supplied logarithm closure may return (10.0 in real units).
pub const LOG_BOUND: i64 = 10_000_000_000;

/// Largest number of mutually exclusive other outcomes in one market.
pub const MAX_OUTCOMES: usize = 99;

/// Absolute value over the mathematical integers.
pub open spec fn iabs(x: int) -> int {
    if x >= 0 {
        x
    } else {
        -x
    }
}

/// Division truncating toward zero (the quotient both `i128` and `u128`
/// hardware division produce once signs are peeled off).
pub open spec fn tdiv(p: int, q: int) -> int {
    if p >= 0 {
        p / q
    } else {
        -((-p) / q)
    }
}

/// Absolute value of an `i64` that is known not to be the minimum value.
pub fn abs_i64(x: i64) -> (r: i64)
    requires
        x > i64::MIN,
    ensures
        r == iabs(x as int),
{
    if x >= 0 {
        x
    } else {
        -x
    }
}

/// Truncating division of a wide intermediate by a positive divisor.
pub fn tdiv_i128(p: i128, q: i128) -> (r: i128)
    requires
        q > 0,
        p > i128::MIN,
    ensures
        r as int == tdiv(p as int, q as int),
        iabs(r as int) <= iabs(p as int),
{
    proof {
        if p >= 0 {
            vstd::arithmetic::div_mod::lemma_div_nonincreasing(p as int, q as int);
            vstd::arithmetic::div_mod::lemma_div_pos_is_pos(p as int, q as int);
        } else {
            vstd::arithmetic::div_mod::lemma_div_nonincreasing(-(p as int), q as int);
            vstd::arithmetic::div_mod::lemma_div_pos_is_pos(-(p as int), q as int);
        }
    }
    if p >= 0 {
        ((p as u128) / (q as u128)) as i128
    } else {
        -((((-p) as u128) / (q as u128)) as i128)
    }
}

/// Multiplying a nonnegative value by a ratio at most one never increases it.
proof fn lemma_muldiv_le(e: int, n: int, d: int)
    requires
        0 <= e,
        0 <= n <= d,
        0 < d,
    ensures
        0 <= e * n / d <= e,
{
    vstd::arithmetic::mul::lemma_mul_nonnegative(e, n);
    vstd::arithmetic::div_mod::lemma_div_pos_is_pos(e * n, d);
    vstd::arithmetic::mul::lemma_mul_inequality(n, d, e);
    assert(e * n == n * e && e * d == d * e) by (nonlinear_arith);
    vstd::arithmetic::div_mod::lemma_div_is_ordered(e * n, e * d, d);
    vstd::arithmetic::div_mod::lemma_div_multiples_vanish(e, d);
}

/// The golden-section fraction of a step: `e * (3 - sqrt 5) / 2`, truncated.
pub fn golden_of(e: i64) -> (r: i64)
    requires
        -2 * XBOUND <= e <= 2 * XBOUND,
    ensures
        r as int == tdiv(e as int * GOLDEN_NUM as int, GOLDEN_DEN as int),
        e >= 0 ==> 0 <= r <= e,
        e < 0 ==> e <= r <= 0,
{
    if e >= 0 {
        let wide: u128 = (e as u128) * 381_966_011;
        let quot: u128 = wide / 1_000_000_000;
        proof {
            lemma_muldiv_le(e as int, GOLDEN_NUM as int, GOLDEN_DEN as int);
        }
        quot as i64
    } else {
        let mag: i64 = -e;
        let wide: u128 = (mag as u128) * 381_966_011;
        let quot: u128 = wide / 1_000_000_000;
        proof {
            lemma_muldiv_le(mag as int, GOLDEN_NUM as int, GOLDEN_DEN as int);
        }
        -(quot as i64)
    }
}

/// The per-iteration tolerance: a relative term of sqrt(2.2e-16) times the
/// incumbent magnitude plus a third of the absolute tolerance.
pub open spec fn spec_tol1(xf: int) -> int {
    iabs(xf) * (SQEPS_NUM as int) / (SQEPS_DEN as int) + XATOL_THIRD as int
}

/// Computes `spec_tol1` for an in-range incumbent.
pub fn tol1_of(xf: i64) -> (r: i64)
    requires
        -XBOUND <= xf <= XBOUND,
    ensures
        r as int == spec_tol1(xf as int),
        XATOL_THIRD <= r <= 20_000,
{
    let mag: i64 = abs_i64(xf);
    let wide: u128 = (mag as u128) * 14_832;
    let quot: u128 = wide / 1_000_000_000_000;
    proof {
        lemma_muldiv_le(mag as int, SQEPS_NUM as int, SQEPS_DEN as int);
        vstd::arithmetic::div_mod::lemma_div_is_ordered(
            mag as int * SQEPS_NUM as int,
            XBOUND as int * SQEPS_NUM as int,
            SQEPS_DEN as int,
        );
        vstd::arithmetic::mul::lemma_mul_inequality(mag as int, XBOUND as int, SQEPS_NUM as int);
        assert(mag as int * SQEPS_NUM as int == SQEPS_NUM as int * mag as int)
            by (nonlinear_arith);
        vstd::arithmetic::div_mod::lemma_div_multiples_vanish(SQEPS_NUM as int, SQEPS_DEN as int);
        assert(XBOUND as int * SQEPS_NUM as int == SQEPS_DEN as int * SQEPS_NUM as int);
    }
    (quot as i64) + 3_333
}

/// Bounds on two factors bound their product.
pub proof fn lemma_mul_abs_bound(x: int, y: int, bx: int, by: int)
    requires
        -bx <= x <= bx,
        -by <= y <= by,
    ensures
        -(bx * by) <= x * y <= bx * by,
{
    assert(-(bx * by) <= x * y <= bx * by) by (nonlinear_arith)
        requires
            -bx <= x <= bx,
            -by <= y <= by,
    ;
}

/// A quotient truncated toward zero stays between any bounds that sandwich
/// the exact quotient: if `q * lo < p < q * hi` with `lo <= 0 <= hi`, then
/// `lo <= tdiv(p, q) <= hi`.
pub proof fn lemma_tdiv_in_range(p: int, q: int, lo: int, hi: int)
    requires
        q > 0,
        lo <= 0,
        hi >= 0,
        q * lo < p,
        p < q * hi,
    ensures
        lo <= tdiv(p, q) <= hi,
{
    if p >= 0 {
        vstd::arithmetic::div_mod::lemma_div_pos_is_pos(p, q);
        vstd::arithmetic::div_mod::lemma_fundamental_div_mod(p, q);
        assert(q * (p / q) <= p);
        assert(p / q < hi) by (nonlinear_arith)
            requires
                q > 0,
                q * (p / q) <= p,
                p < q * hi,
        ;
    } else {
        vstd::arithmetic::div_mod::lemma_div_pos_is_pos(-p, q);
        vstd::arithmetic::div_mod::lemma_fundamental_div_mod(-p, q);
        assert(q * ((-p) / q) <= -p);
        assert((-p) / q < -lo) by (nonlinear_arith)
            requires
                q > 0,
                q * ((-p) / q) <= -p,
                q * lo < p,
        ;
    }
}

/// Truncating division is monotone in the dividend for a positive divisor.
pub proof fn lemma_tdiv_monotone(p1: int, p2: int, q: int)
    requires
        q > 0,
        p1 <= p2,
    ensures
        tdiv(p1, q) <= tdiv(p2, q),
{
    if p1 >= 0 {
        vstd::arithmetic::div_mod::lemma_div_is_ordered(p1, p2, q);
    } else if p2 < 0 {
        vstd::arithmetic::div_mod::lemma_div_is_ordered(-p2, -p1, q);
    } else {
        vstd::arithmetic::div_mod::lemma_div_pos_is_pos(-p1, q);
        vstd::arithmetic::div_mod::lemma_div_pos_is_pos(p2, q);
    }
}

} // verus!
