//! Particles and the velocity-Verlet position / velocity updates.

use vstd::prelude::*;
use crate::fixed::{in_range, quot, s_div, s_mul, s_quot, sat_div, sat_mul, MAXF};
use crate::vec3::{s_norm, s_norm2, v3_add, v3_sub, V3, Vec3};

verus! {

/// Per-particle Lennard-Jones parameters, with the atom count that the
/// parameter set was built for.
#[derive(Clone, Copy, Debug, PartialEq, Eq, Structural)]
pub struct LJParameters {
    pub epsilon: i64,
    pub sigma: i64,
    pub number_of_atoms: i32,
}

impl LJParameters {
    /// Whether the parameters are physically meaningful: a nonnegative
    /// well depth and a nonnegative diameter, both within range.
    pub open spec fn wf(self) -> bool {
        0 <= self.epsilon <= MAXF as int && 0 <= self.sigma <= MAXF as int
    }
}

/// A point particle: identity, state vectors, mass, charge and
/// Lennard-Jones parameters.  The force accumulator is reset and fully
/// recomputed every step.
#[derive(Clone, Copy, Debug, PartialEq, Eq, Structural)]
pub struct Particle {
    pub id: usize,
    pub position: Vec3,
    pub velocity: Vec3,
    pub force: Vec3,
    pub lj_parameters: LJParameters,
    pub mass: i64,
    pub energy: i64,
    pub atom_type: i64,
    pub charge: i64,
}

/// Acceleration of a particle: force over mass, component-wise.
pub open spec fn s_accel(f: V3, m: int) -> V3
    recommends
        m > 0,
{
    V3 { x: s_div(f.x, m), y: s_div(f.y, m), z: s_div(f.z, m) }
}

/// Halving of each component (floor).
pub open spec fn v3_half(a: V3) -> V3 {
    V3 { x: s_quot(a.x, 2), y: s_quot(a.y, 2), z: s_quot(a.z, 2) }
}

/// Scaling of each component by the fixed-point factor `dt`.
pub open spec fn v3_times(a: V3, dt: int) -> V3 {
    V3 { x: s_mul(a.x, dt), y: s_mul(a.y, dt), z: s_mul(a.z, dt) }
}

/// The velocity-Verlet position update: `x + v dt + a dt^2 / 2` for
/// acceleration `a = f / m`.
pub open spec fn s_drift(p: V3, v: V3, f: V3, m: int, dt: int) -> V3
    recommends
        m > 0,
{
    let a = s_accel(f, m);
    v3_add(p, v3_add(v3_times(v, dt), v3_half(v3_times(v3_times(a, dt), dt))))
}

/// A velocity half-kick: `v + a dt / 2`.
pub open spec fn s_half_kick(v: V3, a: V3, dt: int) -> V3 {
    v3_add(v, v3_half(v3_times(a, dt)))
}

/// The fixed-point kinetic energy of one particle: `m |v|^2 / 2`.
pub open spec fn s_kinetic(p: Particle) -> int {
    s_quot(s_mul(p.mass as int, s_norm2(p.velocity.v())), 2)
}

impl Particle {
    /// Whether the particle is well-formed: every state vector within
    /// the saturation bound, and a positive mass.
    pub open spec fn wf(self) -> bool {
        &&& self.position.wf()
        &&& self.velocity.wf()
        &&& self.force.wf()
        &&& self.lj_parameters.wf()
        &&& 0 < self.mass <= MAXF as int
        &&& in_range(self.energy as int)
        &&& in_range(self.charge as int)
        &&& in_range(self.atom_type as int)
    }

    /// The acceleration currently stored on the particle.
    pub fn accel(&self) -> (r: Vec3)
        requires
            self.wf(),
        ensures
            r.v() == s_accel(self.force.v(), self.mass as int),
            r.wf(),
    {
        Vec3 {
            x: sat_div(self.force.x, self.mass),
            y: sat_div(self.force.y, self.mass),
            z: sat_div(self.force.z, self.mass),
        }
    }

    /// The fixed-point distance to another particle (no periodic images).
    pub fn distance(&self, other: &Particle) -> (r: i64)
        requires
            self.wf(),
            other.wf(),
        ensures
            r as int == s_norm(v3_sub(self.position.v(), other.position.v())),
            0 <= r,
    {
        self.position.minus(other.position).norm_fix()
    }

    /// The velocity-Verlet position update from the forces currently
    /// stored on the particle.  Velocity and force are untouched.
    pub fn update_position_verlet(&mut self, dt: i64)
        requires
            old(self).wf(),
            in_range(dt as int),
        ensures
            final(self).position.v() == s_drift(
                old(self).position.v(),
                old(self).velocity.v(),
                old(self).force.v(),
                old(self).mass as int,
                dt as int,
            ),
            final(self).position.wf(),
            final(self).velocity == old(self).velocity,
            final(self).force == old(self).force,
            final(self).mass == old(self).mass,
            final(self).lj_parameters == old(self).lj_parameters,
            final(self).id == old(self).id,
            final(self).energy == old(self).energy,
            final(self).atom_type == old(self).atom_type,
            final(self).charge == old(self).charge,
            final(self).wf(),
    {
        let a = self.accel();
        let vdt = self.velocity.scaled(dt);
        let adt = a.scaled(dt).scaled(dt);
        let half_adt2 = Vec3 { x: quot(adt.x, 2), y: quot(adt.y, 2), z: quot(adt.z, 2) };
        self.position = self.position.plus(vdt.plus(half_adt2));
    }

    /// The velocity-Verlet velocity half-kick from a given acceleration.
    /// Position and force are untouched.
    pub fn update_velocity_verlet(&mut self, a_new: Vec3, dt: i64)
        requires
            old(self).wf(),
            a_new.wf(),
            in_range(dt as int),
        ensures
            final(self).velocity.v() == s_half_kick(
                old(self).velocity.v(),
                a_new.v(),
                dt as int,
            ),
            final(self).velocity.wf(),
            final(self).position == old(self).position,
            final(self).force == old(self).force,
            final(self).mass == old(self).mass,
            final(self).lj_parameters == old(self).lj_parameters,
            final(self).id == old(self).id,
            final(self).energy == old(self).energy,
            final(self).atom_type == old(self).atom_type,
            final(self).charge == old(self).charge,
            final(self).wf(),
    {
        let adt = a_new.scaled(dt);
        let half = Vec3 { x: quot(adt.x, 2), y: quot(adt.y, 2), z: quot(adt.z, 2) };
        self.velocity = self.velocity.plus(half);
    }

    /// The fixed-point kinetic energy `m |v|^2 / 2` of this particle.
    pub fn kinetic_energy(&self) -> (r: i64)
        requires
            self.wf(),
        ensures
            r as int == s_kinetic(*self),
            0 <= r <= MAXF,
    {
        let v2 = self.velocity.norm2_fix();
        proof {
            assert(self.mass as int * v2 as int >= 0) by (nonlinear_arith)
                requires
                    self.mass as int > 0,
                    v2 as int >= 0,
            ;
            vstd::arithmetic::div_mod::lemma_div_pos_is_pos(
                self.mass as int * v2 as int,
                crate::fixed::SCALE as int,
            );
        }
        let mv2 = sat_mul(self.mass, v2);
        proof {
            vstd::arithmetic::div_mod::lemma_div_pos_is_pos(mv2 as int, 2);
            crate::fixed::lemma_div_range(mv2 as int, 2, MAXF as int);
        }
        let r = quot(mv2, 2);
        r
    }
}

/// Whether every particle of a sequence is well-formed.
pub open spec fn all_wf(s: Seq<Particle>) -> bool {
    forall|i: int| 0 <= i < s.len() ==> #[trigger] s[i].wf()
}

} // verus!
