//! Three-component fixed-point vectors.

use vstd::prelude::*;
use crate::fixed::{
    clip, fsqrt, in_range, isqrt_wide, s_add, s_mul, s_sub, sat_add, sat_mul, sat_sub, MAXF,
    SCALE,
};

verus! {

/// A mathematical (specification-level) 3-vector of unbounded integers.
pub ghost struct V3 {
    pub x: int,
    pub y: int,
    pub z: int,
}

/// Component-wise saturating sum.
pub open spec fn v3_add(a: V3, b: V3) -> V3 {
    V3 { x: s_add(a.x, b.x), y: s_add(a.y, b.y), z: s_add(a.z, b.z) }
}

/// Component-wise saturating difference.
pub open spec fn v3_sub(a: V3, b: V3) -> V3 {
    V3 { x: s_sub(a.x, b.x), y: s_sub(a.y, b.y), z: s_sub(a.z, b.z) }
}

/// Scaling of each component by a fixed-point factor.
pub open spec fn v3_scale(a: V3, f: int) -> V3 {
    V3 { x: s_mul(a.x, f), y: s_mul(a.y, f), z: s_mul(a.z, f) }
}

/// The component-wise negation.
pub open spec fn v3_neg(a: V3) -> V3 {
    V3 { x: clip(-a.x), y: clip(-a.y), z: clip(-a.z) }
}

/// The zero vector.
pub open spec fn v3_zero() -> V3 {
    V3 { x: 0, y: 0, z: 0 }
}

/// Whether every component is within the saturation bound.
pub open spec fn v3_in_range(a: V3) -> bool {
    in_range(a.x) && in_range(a.y) && in_range(a.z)
}

/// A fixed-point 3-vector: position, velocity or force of one particle.
#[derive(Clone, Copy, Debug, PartialEq, Eq, Structural)]
pub struct Vec3 {
    pub x: i64,
    pub y: i64,
    pub z: i64,
}

impl Vec3 {
    /// The mathematical value of this vector.
    pub open spec fn v(self) -> V3 {
        V3 { x: self.x as int, y: self.y as int, z: self.z as int }
    }

    /// Whether every component is within the saturation bound.
    pub open spec fn wf(self) -> bool {
        v3_in_range(self.v())
    }

    /// The zero vector.
    pub fn zero() -> (r: Vec3)
        ensures
            r.v() == v3_zero(),
            r.wf(),
    {
        Vec3 { x: 0, y: 0, z: 0 }
    }

    /// Builds a vector from its components.
    pub fn new(x: i64, y: i64, z: i64) -> (r: Vec3)
        ensures
            r.x == x && r.y == y && r.z == z,
    {
        Vec3 { x, y, z }
    }

    /// Component-wise saturating sum.
    pub fn plus(self, o: Vec3) -> (r: Vec3)
        requires
            self.wf(),
            o.wf(),
        ensures
            r.v() == v3_add(self.v(), o.v()),
            r.wf(),
    {
        Vec3 { x: sat_add(self.x, o.x), y: sat_add(self.y, o.y), z: sat_add(self.z, o.z) }
    }

    /// Component-wise saturating difference.
    pub fn minus(self, o: Vec3) -> (r: Vec3)
        requires
            self.wf(),
            o.wf(),
        ensures
            r.v() == v3_sub(self.v(), o.v()),
            r.wf(),
    {
        Vec3 { x: sat_sub(self.x, o.x), y: sat_sub(self.y, o.y), z: sat_sub(self.z, o.z) }
    }

    /// Scales every component by a fixed-point factor.
    pub fn scaled(self, f: i64) -> (r: Vec3)
        requires
            self.wf(),
            in_range(f as int),
        ensures
            r.v() == v3_scale(self.v(), f as int),
            r.wf(),
    {
        Vec3 { x: sat_mul(self.x, f), y: sat_mul(self.y, f), z: sat_mul(self.z, f) }
    }

    /// The component-wise negation.
    pub fn negated(self) -> (r: Vec3)
        requires
            self.wf(),
        ensures
            r.v() == v3_neg(self.v()),
            r.wf(),
    {
        Vec3 { x: -self.x, y: -self.y, z: -self.z }
    }
}

/// The raw (unscaled) sum of squared components.
pub open spec fn s_norm2_raw(a: V3) -> int {
    a.x * a.x + a.y * a.y + a.z * a.z
}

/// The fixed-point squared length of a vector: the raw sum of squares
/// rescaled back by `SCALE`, saturated.
pub open spec fn s_norm2(a: V3) -> int {
    clip(s_norm2_raw(a) / (SCALE as int))
}

/// The fixed-point length of a vector: the integer square root of the
/// raw sum of squares (the two `SCALE` factors cancel), saturated.
pub open spec fn s_norm(a: V3) -> int {
    clip(fsqrt(s_norm2_raw(a)))
}

/// The fixed-point dot product, saturated.
pub open spec fn s_dot(a: V3, b: V3) -> int {
    clip((a.x * b.x + a.y * b.y + a.z * b.z) / (SCALE as int))
}

impl Vec3 {
    /// The raw sum of squared components, exact in `i128`.
    fn norm2_raw(self) -> (r: i128)
        requires
            self.wf(),
        ensures
            r as int == s_norm2_raw(self.v()),
            0 <= r <= 3_000_000_000_000_000_000_000_000_000_000_000_000i128,
    {
        proof {
            lemma_sq_bound(self.x as int);
            lemma_sq_bound(self.y as int);
            lemma_sq_bound(self.z as int);
        }
        let xx: i128 = (self.x as i128) * (self.x as i128);
        let yy: i128 = (self.y as i128) * (self.y as i128);
        let zz: i128 = (self.z as i128) * (self.z as i128);
        xx + yy + zz
    }

    /// The fixed-point squared length.
    pub fn norm2_fix(self) -> (r: i64)
        requires
            self.wf(),
        ensures
            r as int == s_norm2(self.v()),
            0 <= r <= MAXF,
    {
        let n2 = self.norm2_raw();
        proof {
            crate::fixed::lemma_div_range(
                n2 as int,
                SCALE as int,
                3_000_000_000_000_000_000_000_000_000_000_000_000int,
            );
            vstd::arithmetic::div_mod::lemma_div_pos_is_pos(n2 as int, SCALE as int);
        }
        let q: i128 = n2.checked_div_euclid(1_000_000).unwrap();
        if q > MAXF as i128 {
            MAXF
        } else {
            q as i64
        }
    }

    /// The fixed-point length.
    pub fn norm_fix(self) -> (r: i64)
        requires
            self.wf(),
        ensures
            r as int == s_norm(self.v()),
            0 <= r <= MAXF,
    {
        let n2 = self.norm2_raw();
        let root: u128 = isqrt_wide(n2 as u128);
        if root > MAXF as u128 {
            MAXF
        } else {
            root as i64
        }
    }

    /// The fixed-point dot product.
    pub fn dot_fix(self, o: Vec3) -> (r: i64)
        requires
            self.wf(),
            o.wf(),
        ensures
            r as int == s_dot(self.v(), o.v()),
            in_range(r as int),
    {
        proof {
            lemma_prod_bound(self.x as int, o.x as int);
            lemma_prod_bound(self.y as int, o.y as int);
            lemma_prod_bound(self.z as int, o.z as int);
        }
        let xx: i128 = (self.x as i128) * (o.x as i128);
        let yy: i128 = (self.y as i128) * (o.y as i128);
        let zz: i128 = (self.z as i128) * (o.z as i128);
        let p: i128 = xx + yy + zz;
        proof {
            crate::fixed::lemma_div_range(
                p as int,
                SCALE as int,
                3_000_000_000_000_000_000_000_000_000_000_000_000int,
            );
        }
        let q: i128 = p.checked_div_euclid(1_000_000).unwrap();
        if q > MAXF as i128 {
            MAXF
        } else if q < -(MAXF as i128) {
            -MAXF
        } else {
            q as i64
        }
    }
}

/// The square of a saturation-bounded value is bounded by the square of
/// the bound.
proof fn lemma_sq_bound(a: int)
    requires
        -(MAXF as int) <= a <= MAXF as int,
    ensures
        0 <= a * a <= 1_000_000_000_000_000_000_000_000_000_000_000_000int,
{
    assert(0 <= a * a <= 1_000_000_000_000_000_000_000_000_000_000_000_000int)
        by (nonlinear_arith)
        requires
            -1_000_000_000_000_000_000int <= a <= 1_000_000_000_000_000_000int,
    ;
}

/// The product of two saturation-bounded values is bounded by the square
/// of the bound.
proof fn lemma_prod_bound(a: int, b: int)
    requires
        -(MAXF as int) <= a <= MAXF as int,
        -(MAXF as int) <= b <= MAXF as int,
    ensures
        -1_000_000_000_000_000_000_000_000_000_000_000_000int <= a * b
            <= 1_000_000_000_000_000_000_000_000_000_000_000_000int,
{
    assert(-1_000_000_000_000_000_000_000_000_000_000_000_000int <= a * b
        <= 1_000_000_000_000_000_000_000_000_000_000_000_000int) by (nonlinear_arith)
        requires
            -1_000_000_000_000_000_000int <= a <= 1_000_000_000_000_000_000int,
            -1_000_000_000_000_000_000int <= b <= 1_000_000_000_000_000_000int,
    ;
}

} // verus!
