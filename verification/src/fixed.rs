//! Saturating fixed-point arithmetic on `i64` values.
//!
//! Every physical quantity in this crate (length, velocity, force, energy,
//! temperature, pressure, time) is stored as an `i64` counting millionths of
//! the corresponding physical unit, and every operation saturates at
//! `MAXF` so that no computation can overflow, no matter how extreme the
//! configuration.  Each executable operation carries an exact contract over
//! the mathematical integers.

use vstd::prelude::*;
use vstd::arithmetic::div_mod::{lemma_div_is_ordered, lemma_div_nonincreasing};

verus! {

/// Fixed-point fraction steps per physical unit.
pub const SCALE: i64 = 1_000_000;

/// Saturation bound of every fixed-point quantity.
pub const MAXF: i64 = 1_000_000_000_000_000_000;

/// Saturation of an unbounded integer into `[-MAXF, MAXF]`.
pub open spec fn clip(v: int) -> int {
    if v > MAXF as int {
        MAXF as int
    } else if v < -(MAXF as int) {
        -(MAXF as int)
    } else {
        v
    }
}

/// Whether a fixed-point value is within the saturation bound.
pub open spec fn in_range(v: int) -> bool {
    -(MAXF as int) <= v <= MAXF as int
}

/// Saturating addition: the fixed-point sum of `a` and `b`.
pub open spec fn s_add(a: int, b: int) -> int {
    clip(a + b)
}

/// Saturating subtraction.
pub open spec fn s_sub(a: int, b: int) -> int {
    clip(a - b)
}

/// Saturating fixed-point product: `a * b` rescaled back by `SCALE`,
/// rounded toward minus infinity.
pub open spec fn s_mul(a: int, b: int) -> int {
    clip((a * b) / (SCALE as int))
}

/// Saturating fixed-point quotient: `a / b` kept in fixed-point form,
/// rounded toward minus infinity.  Meaningful for positive `b` only.
pub open spec fn s_div(a: int, b: int) -> int
    recommends
        b > 0,
{
    clip((a * (SCALE as int)) / b)
}

/// Quotient of a division by a positive integer count (no rescaling),
/// rounded toward minus infinity.
pub open spec fn s_quot(a: int, b: int) -> int
    recommends
        b > 0,
{
    a / b
}

/// For a nonpositive dividend and a positive divisor, the floor quotient
/// does not go below the dividend.
proof fn lemma_neg_div_ge(p: int, d: int)
    requires
        0 < d,
        p <= 0,
    ensures
        p <= p / d,
{
    let q = p / d;
    let r = p % d;
    vstd::arithmetic::div_mod::lemma_fundamental_div_mod(p, d);
    assert(p <= q) by (nonlinear_arith)
        requires
            0 < d,
            p <= 0,
            p == d * q + r,
            0 <= r < d,
    ;
}

/// A floor quotient by a positive divisor stays between the dividend's
/// bounds, for a symmetric bound `m`.
pub proof fn lemma_div_range(p: int, d: int, m: int)
    requires
        0 < d,
        0 <= m,
        -m <= p <= m,
    ensures
        -m <= p / d <= m,
{
    lemma_div_is_ordered(p, m, d);
    lemma_div_nonincreasing(m, d);
    lemma_div_is_ordered(-m, p, d);
    lemma_neg_div_ge(-m, d);
}

/// Saturating addition of two fixed-point values.
pub fn sat_add(a: i64, b: i64) -> (r: i64)
    requires
        in_range(a as int),
        in_range(b as int),
    ensures
        r as int == s_add(a as int, b as int),
        in_range(r as int),
{
    let s = a + b;
    if s > MAXF {
        MAXF
    } else if s < -MAXF {
        -MAXF
    } else {
        s
    }
}

/// Saturating subtraction of two fixed-point values.
pub fn sat_sub(a: i64, b: i64) -> (r: i64)
    requires
        in_range(a as int),
        in_range(b as int),
    ensures
        r as int == s_sub(a as int, b as int),
        in_range(r as int),
{
    let s = a - b;
    if s > MAXF {
        MAXF
    } else if s < -MAXF {
        -MAXF
    } else {
        s
    }
}

/// Saturating fixed-point multiplication.
pub fn sat_mul(a: i64, b: i64) -> (r: i64)
    requires
        in_range(a as int),
        in_range(b as int),
    ensures
        r as int == s_mul(a as int, b as int),
        in_range(r as int),
{
    let pa: i128 = a as i128;
    let pb: i128 = b as i128;
    proof {
        assert(-1000000000000000000000000000000000000int <= pa * pb
            <= 1000000000000000000000000000000000000int) by (nonlinear_arith)
            requires
                -(MAXF as int) <= pa <= MAXF as int,
                -(MAXF as int) <= pb <= MAXF as int,
        ;
    }
    let p: i128 = pa * pb;
    proof {
        lemma_div_range(p as int, SCALE as int, 1000000000000000000000000000000000000int);
    }
    let q: i128 = p.checked_div_euclid(1_000_000).unwrap();
    if q > MAXF as i128 {
        MAXF
    } else if q < -(MAXF as i128) {
        -MAXF
    } else {
        q as i64
    }
}

/// Saturating fixed-point division by a positive fixed-point value.
pub fn sat_div(a: i64, b: i64) -> (r: i64)
    requires
        in_range(a as int),
        0 < b,
    ensures
        r as int == s_div(a as int, b as int),
        in_range(r as int),
{
    proof {
        assert(-1000000000000000000000000int <= (a as int) * (SCALE as int)
            <= 1000000000000000000000000int) by (nonlinear_arith)
            requires
                -(MAXF as int) <= a as int <= MAXF as int,
                SCALE == 1_000_000i64,
        ;
    }
    let pa: i128 = (a as i128) * (SCALE as i128);
    proof {
        lemma_div_range(pa as int, b as int, 1000000000000000000000000int);
    }
    let q: i128 = pa.checked_div_euclid(b as i128).unwrap();
    if q > MAXF as i128 {
        MAXF
    } else if q < -(MAXF as i128) {
        -MAXF
    } else {
        q as i64
    }
}

/// Floor division of a fixed-point value by a positive integer count.
pub fn quot(a: i64, b: i64) -> (r: i64)
    requires
        0 < b,
    ensures
        r as int == s_quot(a as int, b as int),
{
    proof {
        if a >= 0 {
            lemma_div_nonincreasing(a as int, b as int);
            vstd::arithmetic::div_mod::lemma_div_pos_is_pos(a as int, b as int);
        } else {
            lemma_neg_div_ge(a as int, b as int);
            lemma_div_is_ordered(a as int, 0, b as int);
        }
    }
    let r = a.checked_div_euclid(b).unwrap();
    r
}

/// Saturating raw product (no rescaling): for a count times a
/// fixed-point value.
pub open spec fn s_mul_raw(a: int, b: int) -> int {
    clip(a * b)
}

/// Saturating raw multiplication.
pub fn sat_mul_raw(a: i64, b: i64) -> (r: i64)
    ensures
        r as int == s_mul_raw(a as int, b as int),
        in_range(r as int),
{
    proof {
        assert(-0x40000000000000000000000000000000int <= (a as int) * (b as int)
            <= 0x40000000000000000000000000000000int) by (nonlinear_arith)
            requires
                i64::MIN <= a as int <= i64::MAX,
                i64::MIN <= b as int <= i64::MAX,
        ;
    }
    let p: i128 = (a as i128) * (b as i128);
    if p > MAXF as i128 {
        MAXF
    } else if p < -(MAXF as i128) {
        -MAXF
    } else {
        p as i64
    }
}

/// Clamps a fixed-point value into the closed interval `[lo, hi]`.
pub fn clamp_fix(x: i64, lo: i64, hi: i64) -> (r: i64)
    requires
        lo <= hi,
    ensures
        r as int == s_clamp(x as int, lo as int, hi as int),
{
    if x < lo {
        lo
    } else if x > hi {
        hi
    } else {
        x
    }
}

/// Clamping into `[lo, hi]`.
pub open spec fn s_clamp(x: int, lo: int, hi: int) -> int
    recommends
        lo <= hi,
{
    if x < lo {
        lo
    } else if x > hi {
        hi
    } else {
        x
    }
}

/// Fixed-point reciprocal of Euler's number.
pub const INV_E: i64 = 367_879;

/// `exp(-1)^k` in fixed point, by repeated saturating multiplication.
pub open spec fn s_inv_e_pow(k: int) -> int
    decreases k,
{
    if k <= 0 {
        SCALE as int
    } else {
        s_mul(s_inv_e_pow(k - 1), INV_E as int)
    }
}

/// The quintic Taylor approximation of `exp(-f)` for a fractional
/// fixed-point argument `f` in `[0, SCALE)`, clamped into `[0, SCALE]`.
pub open spec fn s_exp_frac_neg(f: int) -> int {
    let f2 = s_mul(f, f);
    let f3 = s_mul(f2, f);
    let f4 = s_mul(f3, f);
    let f5 = s_mul(f4, f);
    s_clamp(
        SCALE as int - f + f2 / 2 - f3 / 6 + f4 / 24 - f5 / 120,
        0,
        SCALE as int,
    )
}

/// `exp(-z)` for a nonnegative fixed-point argument: the integer part
/// handled by powers of `exp(-1)`, the fraction by a Taylor polynomial;
/// one for a nonpositive argument, zero beyond fourteen (where the
/// true value is below the fixed-point resolution).
pub open spec fn s_exp_neg(z: int) -> int {
    if z <= 0 {
        SCALE as int
    } else if z >= 14_000_000 {
        0
    } else {
        s_mul(s_inv_e_pow(z / (SCALE as int)), s_exp_frac_neg(z % (SCALE as int)))
    }
}

/// A saturating fixed-point product of two values in `[0, SCALE]` stays
/// in `[0, SCALE]`.
pub proof fn lemma_s_mul_unit_range(a: int, b: int)
    requires
        0 <= a <= SCALE as int,
        0 <= b <= SCALE as int,
    ensures
        0 <= s_mul(a, b) <= SCALE as int,
{
    assert(0 <= a * b <= (SCALE as int) * (SCALE as int)) by (nonlinear_arith)
        requires
            0 <= a <= SCALE as int,
            0 <= b <= SCALE as int,
    ;
    vstd::arithmetic::div_mod::lemma_div_pos_is_pos(a * b, SCALE as int);
    lemma_div_is_ordered(a * b, (SCALE as int) * (SCALE as int), SCALE as int);
    assert(((SCALE as int) * (SCALE as int)) / (SCALE as int) == SCALE as int);
}

/// `exp(-z)` for a fixed-point argument, in `[0, SCALE]`.
pub fn exp_neg(z: i64) -> (r: i64)
    requires
        in_range(z as int),
    ensures
        r as int == s_exp_neg(z as int),
        0 <= r <= SCALE,
{
    if z <= 0 {
        return SCALE;
    }
    if z >= 14_000_000 {
        return 0;
    }
    let k: i64 = z / SCALE;
    let f: i64 = z % SCALE;
    let mut e_int: i64 = SCALE;
    let mut kk: i64 = 0;
    while kk < k
        invariant
            0 <= kk <= k <= 13,
            0 <= e_int <= SCALE,
            e_int as int == s_inv_e_pow(kk as int),
        decreases k - kk,
    {
        proof {
            lemma_s_mul_unit_range(e_int as int, INV_E as int);
        }
        e_int = sat_mul(e_int, INV_E);
        kk = kk + 1;
    }
    let f2 = sat_mul(f, f);
    let f3 = sat_mul(f2, f);
    let f4 = sat_mul(f3, f);
    let f5 = sat_mul(f4, f);
    let val = SCALE - f + quot(f2, 2) - quot(f3, 6) + quot(f4, 24) - quot(f5, 120);
    let e_frac = clamp_fix(val, 0, SCALE);
    proof {
        lemma_s_mul_unit_range(e_int as int, e_frac as int);
    }
    sat_mul(e_int, e_frac)
}

/// The velocity or length scale `exp(z)` clamped into `[1/2, 3/2]`:
/// outside the window where the clamp saturates anyway, a quartic
/// Taylor polynomial of the exponential.
pub open spec fn s_exp_clamped(z: int) -> int {
    if z <= -405_465 {
        500_000
    } else if z >= 405_465 {
        1_500_000
    } else {
        let z2 = s_mul(z, z);
        let z3 = s_mul(z2, z);
        let z4 = s_mul(z3, z);
        s_clamp(SCALE as int + z + z2 / 2 + z3 / 6 + z4 / 24, 500_000, 1_500_000)
    }
}

/// `exp(z)` clamped into `[1/2, 3/2]`, the robustness clamp shared by
/// the extended-system coupling schemes.
pub fn exp_clamped(z: i64) -> (r: i64)
    requires
        in_range(z as int),
    ensures
        r as int == s_exp_clamped(z as int),
        500_000 <= r <= 1_500_000,
{
    if z <= -405_465 {
        500_000
    } else if z >= 405_465 {
        1_500_000
    } else {
        let z2 = sat_mul(z, z);
        let z3 = sat_mul(z2, z);
        let z4 = sat_mul(z3, z);
        let val = SCALE + z + quot(z2, 2) + quot(z3, 6) + quot(z4, 24);
        clamp_fix(val, 500_000, 1_500_000)
    }
}

/// Whether `r` is the floor of the square root of `x`.
pub open spec fn is_sqrt(x: int, r: int) -> bool {
    r >= 0 && r * r <= x && x < (r + 1) * (r + 1)
}

/// The floor of the square root of a nonnegative integer.
pub open spec fn fsqrt(x: int) -> int
    recommends
        x >= 0,
{
    choose|r: int| is_sqrt(x, r)
}

/// Any two nonnegative integers whose squares bracket `x` the same way
/// are equal, so `fsqrt` is pinned down by its defining property.
pub proof fn lemma_fsqrt_unique(x: int, r: int)
    requires
        r >= 0,
        r * r <= x,
        x < (r + 1) * (r + 1),
    ensures
        fsqrt(x) == r,
{
    assert(is_sqrt(x, r));
    let w = choose|w: int| is_sqrt(x, w);
    assert(is_sqrt(x, w));
    assert(w == r) by (nonlinear_arith)
        requires
            r >= 0,
            r * r <= x,
            x < (r + 1) * (r + 1),
            w >= 0,
            w * w <= x,
            x < (w + 1) * (w + 1),
    ;
}

/// Every nonnegative integer has an integer square-root floor, so the
/// defining property of `fsqrt` actually holds of it.
pub proof fn lemma_fsqrt_is_sqrt(x: int)
    requires
        0 <= x,
    ensures
        is_sqrt(x, fsqrt(x)),
    decreases x,
{
    if x == 0 {
        assert(is_sqrt(0, 0));
    } else {
        lemma_fsqrt_is_sqrt(x - 1);
        let r = fsqrt(x - 1);
        assert(is_sqrt(x - 1, r));
        if (r + 1) * (r + 1) <= x {
            assert(is_sqrt(x, r + 1)) by (nonlinear_arith)
                requires
                    r >= 0,
                    r * r <= x - 1,
                    x - 1 < (r + 1) * (r + 1),
                    (r + 1) * (r + 1) <= x,
            ;
        } else {
            assert(is_sqrt(x, r));
        }
    }
}

/// Integer square root by bisection.
pub fn isqrt(x: i64) -> (r: i64)
    requires
        0 <= x,
    ensures
        0 <= r,
        r * r <= x,
        x < (r + 1) * (r + 1),
        r as int == fsqrt(x as int),
{
    let mut lo: i64 = 0;
    let mut hi: i64 = 3_037_000_500;
    proof {
        assert((3_037_000_500i64 as int) * (3_037_000_500i64 as int) > i64::MAX as int);
    }
    while lo + 1 < hi
        invariant
            0 <= lo < hi <= 3_037_000_500,
            lo * lo <= x,
            (hi as int) * (hi as int) > x as int,
        decreases hi - lo,
    {
        let mid: i64 = lo + (hi - lo) / 2;
        proof {
            assert((mid as int) * (mid as int) <= 3_037_000_500int * 3_037_000_500int)
                by (nonlinear_arith)
                requires
                    0 <= mid as int <= 3_037_000_500int,
            ;
        }
        let sq: i128 = (mid as i128) * (mid as i128);
        if sq <= x as i128 {
            lo = mid;
        } else {
            hi = mid;
        }
    }
    proof {
        lemma_fsqrt_unique(x as int, lo as int);
    }
    lo
}

/// Integer square root of a wide nonnegative value, by bisection.
/// Covers every argument below `10^38`, which is ample for a sum of
/// three squared `i64` components.
pub fn isqrt_wide(x: u128) -> (r: u128)
    requires
        x < 100_000_000_000_000_000_000_000_000_000_000_000_000u128,
    ensures
        r * r <= x,
        x < (r + 1) * (r + 1),
        r as int == fsqrt(x as int),
{
    let mut lo: u128 = 0;
    let mut hi: u128 = 10_000_000_000_000_000_000;
    while lo + 1 < hi
        invariant
            0 <= lo < hi <= 10_000_000_000_000_000_000,
            lo * lo <= x,
            (hi as int) * (hi as int) > x as int,
        decreases hi - lo,
    {
        let mid: u128 = lo + (hi - lo) / 2;
        proof {
            assert((mid as int) * (mid as int)
                <= 10_000_000_000_000_000_000int * 10_000_000_000_000_000_000int)
                by (nonlinear_arith)
                requires
                    0 <= mid as int <= 10_000_000_000_000_000_000int,
            ;
        }
        let sq: u128 = mid * mid;
        if sq <= x {
            lo = mid;
        } else {
            hi = mid;
        }
    }
    proof {
        lemma_fsqrt_unique(x as int, lo as int);
    }
    lo
}

/// Whether `r` is the floor of the cube root of `x`.
pub open spec fn is_cbrt(x: int, r: int) -> bool {
    r >= 0 && r * r * r <= x && x < (r + 1) * (r + 1) * (r + 1)
}

/// The floor of the cube root of a nonnegative integer.
pub open spec fn fcbrt(x: int) -> int
    recommends
        x >= 0,
{
    choose|r: int| is_cbrt(x, r)
}

/// The defining property pins `fcbrt` down.
pub proof fn lemma_fcbrt_unique(x: int, r: int)
    requires
        r >= 0,
        r * r * r <= x,
        x < (r + 1) * (r + 1) * (r + 1),
    ensures
        fcbrt(x) == r,
{
    assert(is_cbrt(x, r));
    let w = choose|w: int| is_cbrt(x, w);
    assert(is_cbrt(x, w));
    assert(w == r) by (nonlinear_arith)
        requires
            r >= 0,
            r * r * r <= x,
            x < (r + 1) * (r + 1) * (r + 1),
            w >= 0,
            w * w * w <= x,
            x < (w + 1) * (w + 1) * (w + 1),
    ;
}

/// Integer cube root of a nonnegative value, by bisection.
pub fn icbrt(x: i64) -> (r: i64)
    requires
        0 <= x,
    ensures
        0 <= r,
        r * r * r <= x,
        x < (r + 1) * (r + 1) * (r + 1),
        r as int == fcbrt(x as int),
{
    let mut lo: i64 = 0;
    let mut hi: i64 = 2_097_152;
    proof {
        assert((2_097_152i64 as int) * (2_097_152i64 as int) * (2_097_152i64 as int)
            > i64::MAX as int);
    }
    while lo + 1 < hi
        invariant
            0 <= lo < hi <= 2_097_152,
            lo * lo * lo <= x,
            (hi as int) * (hi as int) * (hi as int) > x as int,
        decreases hi - lo,
    {
        let mid: i64 = lo + (hi - lo) / 2;
        proof {
            assert(0 <= (mid as int) * (mid as int) <= 2_097_152int * 2_097_152int
                && 0 <= (mid as int) * (mid as int) * (mid as int)
                    <= 2_097_152int * 2_097_152int * 2_097_152int) by (nonlinear_arith)
                requires
                    0 <= mid as int <= 2_097_152int,
            ;
        }
        let cb: i128 = (mid as i128) * (mid as i128) * (mid as i128);
        if cb <= x as i128 {
            lo = mid;
        } else {
            hi = mid;
        }
    }
    proof {
        lemma_fcbrt_unique(x as int, lo as int);
    }
    lo
}

} // verus!
