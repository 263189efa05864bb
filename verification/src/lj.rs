//! The Lennard-Jones and hard-sphere pair potentials and the
//! Lennard-Jones force magnitude, in saturating fixed-point form.

use vstd::prelude::*;
use vstd::arithmetic::div_mod::{
    lemma_div_is_ordered, lemma_div_multiples_vanish, lemma_div_multiples_vanish_quotient,
    lemma_fundamental_div_mod,
};
use crate::fixed::{clip, in_range, s_add, s_div, s_mul, s_sub, sat_add, sat_div, sat_mul,
    sat_sub, MAXF, SCALE};

verus! {

/// The fixed-point constant four.
pub const FOUR_FIX: i64 = 4_000_000;

/// The fixed-point constant twenty-four.
pub const TWENTY_FOUR_FIX: i64 = 24_000_000;

/// `(sigma / r)^6` in fixed point, built exactly as the executable code
/// builds it: `s = sigma/r`, `s2 = s*s`, `s6 = s2*(s2*s2)`.
pub open spec fn s_sr6(r: int, sigma: int) -> int
    recommends
        r > 0,
{
    let s = s_div(sigma, r);
    let s2 = s_mul(s, s);
    s_mul(s2, s_mul(s2, s2))
}

/// `(sigma / r)^12` in fixed point: the square of `s_sr6`.
pub open spec fn s_sr12(r: int, sigma: int) -> int
    recommends
        r > 0,
{
    s_mul(s_sr6(r, sigma), s_sr6(r, sigma))
}

/// The Lennard-Jones pair potential `4 eps ((sigma/r)^12 - (sigma/r)^6)`
/// in fixed point; zero at or below the singularity floor `r <= 0`.
pub open spec fn s_lj_potential(r: int, sigma: int, eps: int) -> int {
    if r <= 0 {
        0
    } else {
        s_mul(FOUR_FIX as int, s_mul(eps, s_sub(s_sr12(r, sigma), s_sr6(r, sigma))))
    }
}

/// The Lennard-Jones force magnitude along the separation direction,
/// `24 eps (2 (sigma/r)^12 - (sigma/r)^6) / r`, positive when repulsive;
/// zero at or below the singularity floor.
pub open spec fn s_lj_force(r: int, sigma: int, eps: int) -> int {
    if r <= 0 {
        0
    } else {
        let t = s_sub(s_add(s_sr12(r, sigma), s_sr12(r, sigma)), s_sr6(r, sigma));
        s_div(s_mul(TWENTY_FOUR_FIX as int, s_mul(eps, t)), r)
    }
}

/// The Lennard-Jones pair potential at separation `r`.
pub fn lennard_jones_potential(r: i64, sigma: i64, eps: i64) -> (u: i64)
    requires
        in_range(r as int),
        in_range(sigma as int),
        in_range(eps as int),
    ensures
        u as int == s_lj_potential(r as int, sigma as int, eps as int),
        in_range(u as int),
{
    if r <= 0 {
        return 0;
    }
    let s = sat_div(sigma, r);
    let s2 = sat_mul(s, s);
    let s6 = sat_mul(s2, sat_mul(s2, s2));
    let s12 = sat_mul(s6, s6);
    sat_mul(FOUR_FIX, sat_mul(eps, sat_sub(s12, s6)))
}

/// The Lennard-Jones force magnitude at separation `r`: positive values
/// push the pair apart.
pub fn lennard_jones_force_scalar(r: i64, sigma: i64, eps: i64) -> (f: i64)
    requires
        in_range(r as int),
        in_range(sigma as int),
        in_range(eps as int),
    ensures
        f as int == s_lj_force(r as int, sigma as int, eps as int),
        in_range(f as int),
{
    if r <= 0 {
        return 0;
    }
    let s = sat_div(sigma, r);
    let s2 = sat_mul(s, s);
    let s6 = sat_mul(s2, sat_mul(s2, s2));
    let s12 = sat_mul(s6, s6);
    let t = sat_sub(sat_add(s12, s12), s6);
    sat_div(sat_mul(TWENTY_FOUR_FIX, sat_mul(eps, t)), r)
}

/// The Lennard-Jones force magnitude; the singularity guard of
/// `lennard_jones_force_scalar` already covers every separation below
/// one fixed-point step, so the two agree everywhere.
pub fn lennard_jones_force(r: i64, sigma: i64, epsilon: i64) -> (f: i64)
    requires
        in_range(r as int),
        in_range(sigma as int),
        in_range(epsilon as int),
    ensures
        f as int == s_lj_force(r as int, sigma as int, epsilon as int),
        in_range(f as int),
{
    lennard_jones_force_scalar(r, sigma, epsilon)
}

/// The hard-sphere pair potential: a saturated barrier inside the
/// sphere diameter, zero outside, and zero at the singularity floor.
pub open spec fn s_hard_sphere(r: int, sigma: int) -> int {
    if r <= 0 {
        0
    } else if r < sigma {
        MAXF as int
    } else {
        0
    }
}

/// The hard-sphere pair potential at separation `r`; the saturation
/// bound stands in for the infinite barrier.
pub fn hard_sphere_potential(r: i64, sigma: i64) -> (u: i64)
    ensures
        u as int == s_hard_sphere(r as int, sigma as int),
        in_range(u as int),
{
    if r <= 0 {
        0
    } else if r < sigma {
        MAXF
    } else {
        0
    }
}

/// At separation exactly `sigma` the fixed-point `(sigma/r)` powers are
/// exactly one, so the Lennard-Jones potential vanishes exactly, for
/// every well depth.
pub proof fn lemma_lj_potential_zero_at_sigma(sigma: int, eps: int)
    requires
        0 < sigma <= MAXF as int,
        in_range(eps),
    ensures
        s_lj_potential(sigma, sigma, eps) == 0,
{
    let sc = SCALE as int;
    lemma_div_multiples_vanish(sc, sigma);
    assert(sigma * sc == sc * sigma) by (nonlinear_arith);
    assert(s_div(sigma, sigma) == sc);
    assert(sc * sc == 1_000_000_000_000int) by (nonlinear_arith)
        requires
            sc == 1_000_000int,
    ;
    assert(s_mul(sc, sc) == sc);
    assert(s_sr6(sigma, sigma) == sc);
    assert(s_sr12(sigma, sigma) == sc);
    assert(s_sub(sc, sc) == 0);
    assert(s_mul(eps, 0) == 0) by {
        assert(eps * 0 == 0) by (nonlinear_arith);
    }
    assert(s_mul(FOUR_FIX as int, 0) == 0) by {
        assert((FOUR_FIX as int) * 0 == 0) by (nonlinear_arith);
    }
}

/// A quotient by a positive divisor is at least `c` when the dividend
/// is at least `c` times the divisor.
proof fn lemma_quot_ge(x: int, c: int, d: int)
    requires
        0 < d,
        c * d <= x,
    ensures
        c <= x / d,
{
    lemma_div_is_ordered(c * d, x, d);
    lemma_div_multiples_vanish(c, d);
    assert(c * d == d * c) by (nonlinear_arith);
}

/// A quotient by a positive divisor is at most `c` when the dividend
/// is at most `c` times the divisor.
proof fn lemma_quot_le(x: int, c: int, d: int)
    requires
        0 < d,
        x <= c * d,
    ensures
        x / d <= c,
{
    lemma_div_is_ordered(x, c * d, d);
    lemma_div_multiples_vanish(c, d);
    assert(c * d == d * c) by (nonlinear_arith);
}

/// Bounds on a saturating fixed-point product from bounds on the raw
/// product.
proof fn lemma_smul_bounds(a: int, b: int, lo: int, hi: int)
    requires
        -(MAXF as int) <= lo <= hi <= MAXF as int,
        lo * (SCALE as int) <= a * b <= hi * (SCALE as int),
    ensures
        lo <= s_mul(a, b) <= hi,
{
    lemma_quot_ge(a * b, lo, SCALE as int);
    lemma_quot_le(a * b, hi, SCALE as int);
}

/// Bounds on a saturating fixed-point quotient from bounds on the
/// cross products.
proof fn lemma_sdiv_bounds(a: int, b: int, lo: int, hi: int)
    requires
        0 < b,
        -(MAXF as int) <= lo <= hi <= MAXF as int,
        lo * b <= a * (SCALE as int) <= hi * b,
    ensures
        lo <= s_div(a, b) <= hi,
{
    lemma_quot_ge(a * (SCALE as int), lo, b);
    lemma_quot_le(a * (SCALE as int), hi, b);
}

/// In the repulsive regime -- a separation at or inside the mixed
/// diameter, with a nonzero well depth, away from the deep-overlap
/// saturation floor -- the Lennard-Jones force is strictly positive:
/// the pair is pushed apart, and its virial contribution `r . F` is
/// nonnegative.
pub proof fn lemma_lj_force_repulsive(r: int, sigma: int, eps: int)
    requires
        0 < r <= 20_000_000,
        r <= sigma <= 90 * r,
        1 <= eps <= MAXF as int,
    ensures
        s_lj_force(r, sigma, eps) >= 1,
{
    let sc = SCALE as int;
    let s = s_div(sigma, r);
    assert(sc * r <= sigma * sc <= (90 * sc) * r) by (nonlinear_arith)
        requires
            r <= sigma <= 90 * r,
            0 < r,
            sc == 1_000_000int,
    ;
    lemma_sdiv_bounds(sigma, r, sc, 90 * sc);
    let s2 = s_mul(s, s);
    assert(sc * sc <= s * s <= 8_100_000_000int * sc) by (nonlinear_arith)
        requires
            sc <= s <= 90 * sc,
            sc == 1_000_000int,
    ;
    lemma_smul_bounds(s, s, sc, 8_100_000_000int);
    let s4 = s_mul(s2, s2);
    assert(sc * sc <= s2 * s2 <= 65_610_000_000_000int * sc) by (nonlinear_arith)
        requires
            sc <= s2 <= 8_100_000_000int,
            sc == 1_000_000int,
    ;
    lemma_smul_bounds(s2, s2, sc, 65_610_000_000_000int);
    let s6 = s_mul(s2, s4);
    assert(sc * sc <= s2 * s4 <= 531_441_000_000_000_000int * sc) by (nonlinear_arith)
        requires
            sc <= s2 <= 8_100_000_000int,
            sc <= s4 <= 65_610_000_000_000int,
            sc == 1_000_000int,
    ;
    lemma_smul_bounds(s2, s4, sc, 531_441_000_000_000_000int);
    let s12 = s_mul(s6, s6);
    assert(s6 * sc <= s6 * s6) by (nonlinear_arith)
        requires
            sc <= s6,
            sc == 1_000_000int,
    ;
    lemma_quot_ge(s6 * s6, s6, sc);
    assert(s6 <= s12 <= MAXF as int);
    let u = s_add(s12, s12);
    let t = s_sub(u, s6);
    assert(sc <= t <= MAXF as int);
    let e1 = s_mul(eps, t);
    assert(1 * sc <= eps * t) by (nonlinear_arith)
        requires
            1 <= eps,
            sc <= t,
            sc == 1_000_000int,
    ;
    lemma_quot_ge(eps * t, 1, sc);
    assert(1 <= e1 <= MAXF as int);
    let tf = TWENTY_FOUR_FIX as int;
    let f2 = s_mul(tf, e1);
    assert(24 * sc <= tf * e1) by (nonlinear_arith)
        requires
            1 <= e1,
            tf == 24_000_000int,
            sc == 1_000_000int,
    ;
    lemma_quot_ge(tf * e1, 24, sc);
    assert(24 <= f2 <= MAXF as int);
    assert(1 * r <= f2 * sc) by (nonlinear_arith)
        requires
            24 <= f2,
            0 < r <= 20_000_000int,
            sc == 1_000_000int,
    ;
    lemma_quot_ge(f2 * sc, 1, r);
    assert(s_lj_force(r, sigma, eps) == clip((f2 * sc) / r));
}

/// In the attractive well -- a separation between two and five mixed
/// diameters, with a well depth of at least one -- the Lennard-Jones
/// force is strictly negative: the pair is pulled together, and its
/// virial contribution `r . F` is nonpositive.
pub proof fn lemma_lj_force_attractive(r: int, sigma: int, eps: int)
    requires
        SCALE as int <= sigma <= 100_000_000int,
        2 * sigma <= r <= 5 * sigma,
        SCALE as int <= eps <= MAXF as int,
    ensures
        s_lj_force(r, sigma, eps) <= -1,
{
    let sc = SCALE as int;
    let s = s_div(sigma, r);
    assert(0 < r) by (nonlinear_arith)
        requires
            2 * sigma <= r,
            sc <= sigma,
            sc == 1_000_000int,
    ;
    assert(200_000 * r <= sigma * sc && sigma * sc <= 500_000 * r) by (nonlinear_arith)
        requires
            2 * sigma <= r <= 5 * sigma,
            sc == 1_000_000int,
    ;
    lemma_sdiv_bounds(sigma, r, 200_000int, 500_000int);
    let s2 = s_mul(s, s);
    assert(40_000int * sc <= s * s <= 250_000int * sc) by (nonlinear_arith)
        requires
            200_000int <= s <= 500_000int,
            sc == 1_000_000int,
    ;
    lemma_smul_bounds(s, s, 40_000int, 250_000int);
    let s4 = s_mul(s2, s2);
    assert(1_600int * sc <= s2 * s2 <= 62_500int * sc) by (nonlinear_arith)
        requires
            40_000int <= s2 <= 250_000int,
            sc == 1_000_000int,
    ;
    lemma_smul_bounds(s2, s2, 1_600int, 62_500int);
    let s6 = s_mul(s2, s4);
    assert(64int * sc <= s2 * s4 <= 15_625int * sc) by (nonlinear_arith)
        requires
            40_000int <= s2 <= 250_000int,
            1_600int <= s4 <= 62_500int,
            sc == 1_000_000int,
    ;
    lemma_smul_bounds(s2, s4, 64int, 15_625int);
    let s12 = s_mul(s6, s6);
    assert(0 <= s6 * s6 <= 15_625int * s6) by (nonlinear_arith)
        requires
            64int <= s6 <= 15_625int,
    ;
    vstd::arithmetic::div_mod::lemma_div_pos_is_pos(s6 * s6, sc);
    lemma_div_multiples_vanish_quotient(15_625int, s6, 64int);
    assert((15_625int * s6) / (15_625int * 64int) == s6 / 64int);
    lemma_div_is_ordered(s6 * s6, 15_625int * s6, sc);
    assert(15_625int * 64int == sc);
    assert(0 <= s12 <= s6 / 64int);
    let q = s6 / 64int;
    let rr = s6 % 64int;
    lemma_fundamental_div_mod(s6, 64int);
    lemma_quot_ge(s6, 1, 64int);
    assert(1 <= q);
    let u = s_add(s12, s12);
    assert(u == 2 * s12);
    let t = s_sub(u, s6);
    assert(2 * s12 - s6 <= -62) by (nonlinear_arith)
        requires
            0 <= s12 <= q,
            1 <= q,
            s6 == 64int * q + rr,
            0 <= rr < 64int,
    ;
    assert(-(MAXF as int) <= t <= -62);
    let e1 = s_mul(eps, t);
    assert(eps * t <= (-62) * sc) by (nonlinear_arith)
        requires
            sc <= eps,
            t <= -62,
            sc == 1_000_000int,
    ;
    lemma_quot_le(eps * t, -62, sc);
    assert(-(MAXF as int) <= e1 <= -62);
    let tf = TWENTY_FOUR_FIX as int;
    let f2 = s_mul(tf, e1);
    assert(tf * e1 <= (-1_488int) * sc) by (nonlinear_arith)
        requires
            e1 <= -62,
            tf == 24_000_000int,
            sc == 1_000_000int,
    ;
    lemma_quot_le(tf * e1, -1_488int, sc);
    assert(-(MAXF as int) <= f2 <= -1_488int);
    assert(f2 * sc <= (-1int) * r) by (nonlinear_arith)
        requires
            f2 <= -1_488int,
            0 < r <= 500_000_000int,
            sc == 1_000_000int,
    ;
    lemma_quot_le(f2 * sc, -1, r);
    assert(s_lj_force(r, sigma, eps) == clip((f2 * sc) / r));
}

} // verus!
