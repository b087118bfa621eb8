//! Fixed-point per-unit arithmetic.
//!
//! Every electrical quantity in this crate is an `i64` count of
//! nano per-unit: `UNIT` counts stand for 1.0 pu.  Multiplication and
//! division rescale by `UNIT` and truncate toward zero, mirroring the
//! rounding of an ordinary integer division.

use vstd::prelude::*;

verus! {

/// Number of counts in 1.0 per-unit.
pub const UNIT: i64 = 1_000_000_000;

/// Counts of degrees per radian: truncation of (180 / pi) * UNIT.
pub const RAD_TO_DEG: i64 = 57_295_779_513;

/// Counts of radians per degree: truncation of (pi / 180) * UNIT.
pub const DEG_TO_RAD: i64 = 17_453_292;

/// Magnitude of a mathematical integer.
pub open spec fn iabs(a: int) -> int {
    if a < 0 {
        -a
    } else {
        a
    }
}

/// Division truncating toward zero, the rounding of `/` on machine
/// integers (both factors' magnitudes divided, sign reattached).
pub open spec fn tdiv(x: int, d: int) -> int
    recommends
        d != 0,
{
    if (x < 0) == (d < 0) {
        iabs(x) / iabs(d)
    } else {
        -(iabs(x) / iabs(d))
    }
}

/// Fixed-point product: (a * b) / UNIT, truncated toward zero.
pub open spec fn fx_mul(a: int, b: int) -> int {
    tdiv(a * b, UNIT as int)
}

/// Fixed-point quotient: (a * UNIT) / b, truncated toward zero.
pub open spec fn fx_div(a: int, b: int) -> int
    recommends
        b != 0,
{
    tdiv(a * UNIT, b)
}

proof fn lemma_abs_mul(a: int, b: int)
    ensures
        iabs(a * b) == iabs(a) * iabs(b),
{
    assert(iabs(a * b) == iabs(a) * iabs(b)) by (nonlinear_arith);
}

/// The product of two `i64` values fits comfortably in an `i128`.
proof fn lemma_i64_prod_fits(a: int, b: int)
    requires
        i64::MIN as int <= a <= i64::MAX as int,
        i64::MIN as int <= b <= i64::MAX as int,
    ensures
        iabs(a * b) <= 0x4000_0000_0000_0000_0000_0000_0000_0000,
{
    lemma_abs_mul(a, b);
    assert(iabs(a) * iabs(b) <= 0x4000_0000_0000_0000_0000_0000_0000_0000) by (nonlinear_arith)
        requires
            0 <= iabs(a) <= 0x8000_0000_0000_0000,
            0 <= iabs(b) <= 0x8000_0000_0000_0000,
    ;
}

/// Numerator monotonicity of division on magnitudes.
proof fn lemma_div_mono_num(x: int, y: int, d: int)
    requires
        0 <= x <= y,
        0 < d,
    ensures
        x / d <= y / d,
{
    vstd::arithmetic::div_mod::lemma_div_is_ordered(x, y, d);
}

/// A magnitude does not grow under division by a positive integer.
proof fn lemma_div_shrinks(x: int, d: int)
    requires
        0 <= x,
        1 <= d,
    ensures
        0 <= x / d <= x,
{
    vstd::arithmetic::div_mod::lemma_div_is_ordered_by_denominator(x, 1, d);
    vstd::arithmetic::div_mod::lemma_div_by_multiple(x, 1);
    vstd::arithmetic::div_mod::lemma_div_pos_is_pos(x, d);
}

/// Bound on a truncating division from a bound on its dividend.
pub proof fn lemma_tdiv_bound(x: int, d: int, xb: int)
    requires
        d != 0,
        iabs(x) <= xb,
    ensures
        iabs(tdiv(x, d)) <= xb / iabs(d),
        iabs(tdiv(x, d)) <= xb,
{
    lemma_div_mono_num(iabs(x), xb, iabs(d));
    lemma_div_shrinks(iabs(x), iabs(d));
    lemma_div_shrinks(xb, iabs(d));
    vstd::arithmetic::div_mod::lemma_div_pos_is_pos(iabs(x), iabs(d));
}

/// Bound on a fixed-point product from bounds on its factors.
pub proof fn lemma_fx_mul_bound(a: int, b: int, ab: int, bb: int)
    requires
        iabs(a) <= ab,
        iabs(b) <= bb,
    ensures
        iabs(fx_mul(a, b)) <= ab * bb / (UNIT as int),
        iabs(fx_mul(a, b)) <= ab * bb,
{
    lemma_abs_mul(a, b);
    assert(iabs(a) * iabs(b) <= ab * bb) by (nonlinear_arith)
        requires
            0 <= iabs(a) <= ab,
            0 <= iabs(b) <= bb,
    ;
    lemma_tdiv_bound(a * b, UNIT as int, ab * bb);
}

/// Bound on a fixed-point quotient from a bound on the dividend and a
/// lower bound on the divisor's magnitude.
pub proof fn lemma_fx_div_bound(a: int, b: int, ab: int, db: int)
    requires
        iabs(a) <= ab,
        1 <= db <= iabs(b),
    ensures
        iabs(fx_div(a, b)) <= ab * (UNIT as int) / db,
{
    lemma_abs_mul(a, UNIT as int);
    assert(iabs(a) * (UNIT as int) <= ab * (UNIT as int)) by (nonlinear_arith)
        requires
            0 <= iabs(a) <= ab,
    ;
    lemma_tdiv_bound(a * (UNIT as int), b, ab * (UNIT as int));
    vstd::arithmetic::div_mod::lemma_div_is_ordered_by_denominator(
        ab * (UNIT as int),
        db,
        iabs(b),
    );
}

/// Discharge `fxmul`'s fitting obligation from factor bounds.
pub proof fn lemma_fx_mul_fits(a: int, b: int, ab: int, bb: int)
    requires
        iabs(a) <= ab,
        iabs(b) <= bb,
        ab * bb / (UNIT as int) <= i64::MAX as int,
    ensures
        iabs(a * b) / (UNIT as int) <= i64::MAX as int,
{
    lemma_abs_mul(a, b);
    assert(iabs(a) * iabs(b) <= ab * bb) by (nonlinear_arith)
        requires
            0 <= iabs(a) <= ab,
            0 <= iabs(b) <= bb,
    ;
    lemma_div_mono_num(iabs(a * b), ab * bb, UNIT as int);
}

/// Discharge `fxdiv`'s fitting obligation from a dividend bound and
/// a divisor magnitude floor.
pub proof fn lemma_fx_div_fits(a: int, b: int, ab: int, db: int)
    requires
        iabs(a) <= ab,
        1 <= db <= iabs(b),
        ab * (UNIT as int) / db <= i64::MAX as int,
    ensures
        iabs(a) * (UNIT as int) / iabs(b) <= i64::MAX as int,
{
    assert(iabs(a) * (UNIT as int) <= ab * (UNIT as int));
    lemma_div_mono_num(iabs(a) * (UNIT as int), ab * (UNIT as int), iabs(b));
    vstd::arithmetic::div_mod::lemma_div_is_ordered_by_denominator(
        ab * (UNIT as int),
        db,
        iabs(b),
    );
}

/// A fixed-point square is never negative.
pub proof fn lemma_fx_square_nonneg(a: int)
    ensures
        a * a >= 0,
        fx_mul(a, a) >= 0,
{
    assert(a * a >= 0) by (nonlinear_arith);
    vstd::arithmetic::div_mod::lemma_div_pos_is_pos(iabs(a * a), UNIT as int);
}

/// Fixed-point multiplication: returns (a * b) / UNIT truncated
/// toward zero.  The caller must show the result fits in an `i64`.
pub fn fxmul(a: i64, b: i64) -> (r: i64)
    requires
        iabs(a as int * b as int) / (UNIT as int) <= i64::MAX as int,
    ensures
        r as int == fx_mul(a as int, b as int),
{
    proof {
        lemma_i64_prod_fits(a as int, b as int);
        lemma_abs_mul(a as int, b as int);
    }
    let p: i128 = (a as i128) * (b as i128);
    let q: i128 = if p < 0 {
        -((-p) / (UNIT as i128))
    } else {
        p / (UNIT as i128)
    };
    q as i64
}

/// Fixed-point division: returns (a * UNIT) / b truncated toward
/// zero.  The caller must show the result fits in an `i64`.
pub fn fxdiv(a: i64, b: i64) -> (r: i64)
    requires
        b != 0,
        iabs(a as int) * (UNIT as int) / iabs(b as int) <= i64::MAX as int,
    ensures
        r as int == fx_div(a as int, b as int),
{
    proof {
        lemma_i64_prod_fits(a as int, UNIT as int);
        lemma_abs_mul(a as int, UNIT as int);
    }
    let n: i128 = (a as i128) * (UNIT as i128);
    let na: i128 = if n < 0 {
        -n
    } else {
        n
    };
    let nb: i128 = if b < 0 {
        -(b as i128)
    } else {
        b as i128
    };
    let q: i128 = na / nb;
    if (n < 0) == (b < 0) {
        q as i64
    } else {
        proof {
            lemma_tdiv_bound(a as int * UNIT as int, b as int, iabs(a as int) * (UNIT as int));
        }
        (-q) as i64
    }
}

/// Fixed-point multiplication with a magnitude cap: `None` exactly
/// when the product's magnitude exceeds `lim`.
pub fn fxmul_check(a: i64, b: i64, lim: i64) -> (r: Option<i64>)
    requires
        0 <= lim,
    ensures
        match r {
            Some(v) => v as int == fx_mul(a as int, b as int) && iabs(v as int) <= lim as int,
            None => iabs(fx_mul(a as int, b as int)) > lim as int,
        },
{
    proof {
        lemma_i64_prod_fits(a as int, b as int);
        lemma_abs_mul(a as int, b as int);
    }
    let p: i128 = (a as i128) * (b as i128);
    let q: i128 = if p < 0 {
        -((-p) / (UNIT as i128))
    } else {
        p / (UNIT as i128)
    };
    if q > lim as i128 || q < -(lim as i128) {
        None
    } else {
        Some(q as i64)
    }
}

/// Fixed-point division with a magnitude cap: `None` exactly when the
/// quotient's magnitude exceeds `lim`.
pub fn fxdiv_check(a: i64, b: i64, lim: i64) -> (r: Option<i64>)
    requires
        b != 0,
        0 <= lim,
    ensures
        match r {
            Some(v) => v as int == fx_div(a as int, b as int) && iabs(v as int) <= lim as int,
            None => iabs(fx_div(a as int, b as int)) > lim as int,
        },
{
    proof {
        lemma_i64_prod_fits(a as int, UNIT as int);
        lemma_abs_mul(a as int, UNIT as int);
    }
    let n: i128 = (a as i128) * (UNIT as i128);
    let na: i128 = if n < 0 {
        -n
    } else {
        n
    };
    let nb: i128 = if b < 0 {
        -(b as i128)
    } else {
        b as i128
    };
    let q: i128 = na / nb;
    let s: i128 = if (n < 0) == (b < 0) {
        q
    } else {
        -q
    };
    if s > lim as i128 || s < -(lim as i128) {
        None
    } else {
        Some(s as i64)
    }
}

} // verus!
