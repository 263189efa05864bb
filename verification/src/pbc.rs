//! Periodic boundary conditions: the cubic simulation box, coordinate
//! wrapping and the minimum-image convention.

use vstd::prelude::*;
use vstd::arithmetic::div_mod::{
    lemma_fundamental_div_mod, lemma_mod_multiples_basic, lemma_small_mod,
};
use crate::fixed::in_range;
use crate::particle::{all_wf, Particle};
use crate::vec3::{V3, Vec3};

verus! {

/// Largest accepted box edge length (two thousand physical units), chosen
/// so that a squared minimum-image separation still fits the fixed-point
/// saturation bound exactly.
pub const LEN_MAX: i64 = 2_000_000_000;

/// Whether `l` is a valid box edge length.
pub open spec fn valid_length(l: int) -> bool {
    0 < l <= LEN_MAX as int
}

/// The wrapped image of coordinate `x` in `[0, l)`: the Euclidean
/// remainder of `x` by `l`.
pub open spec fn s_wrap(x: int, l: int) -> int
    recommends
        l > 0,
{
    x % l
}

/// The minimum-image representative of a separation component `d` for a
/// box of edge `l`: the unique value congruent to `d` modulo `l` that
/// lies in `[-l/2, l/2)` (bounds taken over the rationals, i.e.
/// `-l <= 2r < l`).
pub open spec fn s_min_image(d: int, l: int) -> int
    recommends
        l > 0,
{
    let m = d % l;
    if 2 * m < l {
        m
    } else {
        m - l
    }
}

/// The cubic simulation box: a single scalar edge length, mutated only
/// by a barostat step.
#[derive(Clone, Copy, Debug, PartialEq, Eq, Structural)]
pub struct SimulationBox {
    pub length: i64,
}

impl SimulationBox {
    /// Whether the box is well-formed.
    pub open spec fn wf(self) -> bool {
        valid_length(self.length as int)
    }

    /// Builds a box, rejecting a non-positive or oversized edge length.
    pub fn new(length: i64) -> (r: Option<SimulationBox>)
        ensures
            match r {
                Some(b) => b.wf() && b.length == length,
                None => !valid_length(length as int),
            },
    {
        if 0 < length && length <= LEN_MAX {
            Some(SimulationBox { length })
        } else {
            None
        }
    }
}

/// Wraps a coordinate into the periodic interval `[0, l)`.  Defined for
/// every coordinate, negative ones included.
pub fn wrap_coordinate(x: i64, l: i64) -> (r: i64)
    requires
        0 < l,
    ensures
        r as int == s_wrap(x as int, l as int),
        0 <= r < l,
{
    let r = x.checked_rem_euclid(l).unwrap();
    r
}

/// Wrapping an already wrapped coordinate is a no-op.
pub proof fn lemma_wrap_idempotent(x: int, l: int)
    requires
        0 < l,
    ensures
        s_wrap(s_wrap(x, l), l) == s_wrap(x, l),
{
    let m = x % l;
    assert(0 <= m < l);
    lemma_small_mod(m as nat, l as nat);
}

/// The minimum-image separation component: congruent to `d` modulo the
/// box edge `l` and lying in `[-l/2, l/2)`.
pub fn minimum_image(d: i64, l: i64) -> (r: i64)
    requires
        valid_length(l as int),
    ensures
        r as int == s_min_image(d as int, l as int),
        -(l as int) <= 2 * r < l as int,
        (d - r) % (l as int) == 0,
        -(l as int) < r < l as int,
        in_range(r as int),
{
    let m = wrap_coordinate(d, l);
    proof {
        lemma_fundamental_div_mod(d as int, l as int);
        let q = (d as int) / (l as int);
        assert(d as int - m as int == (l as int) * q);
        lemma_mod_multiples_basic(q, l as int);
        lemma_mod_multiples_basic(q + 1, l as int);
        assert((q + 1) * (l as int) == q * (l as int) + l as int) by (nonlinear_arith);
        assert((l as int) * q == q * (l as int)) by (nonlinear_arith);
    }
    if 2 * m < l {
        m
    } else {
        m - l
    }
}

/// Two coordinates wrapped into the same box differ by less than one box
/// edge, so their raw difference is a valid minimum-image input.
pub proof fn lemma_wrapped_difference_small(a: int, b: int, l: int)
    requires
        0 < l,
        0 <= a < l,
        0 <= b < l,
    ensures
        -l < a - b < l,
{
}

/// The wrapped image of a position: each component wrapped into `[0, l)`.
pub open spec fn s_wrap_pos(p: V3, l: int) -> V3
    recommends
        l > 0,
{
    V3 { x: s_wrap(p.x, l), y: s_wrap(p.y, l), z: s_wrap(p.z, l) }
}

/// The minimum-image representative of each component of a separation
/// vector.
pub open spec fn s_min_image_vec(d: V3, l: int) -> V3
    recommends
        l > 0,
{
    V3 { x: s_min_image(d.x, l), y: s_min_image(d.y, l), z: s_min_image(d.z, l) }
}

/// The minimum-image convention applied to a separation vector: every
/// component is replaced by its nearest periodic image.
pub fn minimum_image_convention(rij: Vec3, box_length: i64) -> (r: Vec3)
    requires
        valid_length(box_length as int),
    ensures
        r.v() == s_min_image_vec(rij.v(), box_length as int),
        r.wf(),
{
    Vec3 {
        x: minimum_image(rij.x, box_length),
        y: minimum_image(rij.y, box_length),
        z: minimum_image(rij.z, box_length),
    }
}

/// Wrapping an already wrapped position a second time is a no-op.
pub proof fn lemma_wrap_pos_idempotent(p: V3, l: int)
    requires
        0 < l,
    ensures
        s_wrap_pos(s_wrap_pos(p, l), l) == s_wrap_pos(p, l),
{
    lemma_wrap_idempotent(p.x, l);
    lemma_wrap_idempotent(p.y, l);
    lemma_wrap_idempotent(p.z, l);
}

/// Wraps every particle position into `[0, l)^3`; velocities, forces and
/// every other field are untouched.
pub fn pbc_update(particles: &mut Vec<Particle>, box_length: i64)
    requires
        all_wf(old(particles)@),
        valid_length(box_length as int),
    ensures
        final(particles)@.len() == old(particles)@.len(),
        all_wf(final(particles)@),
        forall|k: int|
            0 <= k < old(particles)@.len() ==> (#[trigger] final(particles)@[k]).position.v()
                == s_wrap_pos(old(particles)@[k].position.v(), box_length as int),
        forall|k: int|
            0 <= k < old(particles)@.len() ==> {
                let np = #[trigger] final(particles)@[k];
                let op = old(particles)@[k];
                np.velocity == op.velocity && np.force == op.force && np.mass == op.mass
                    && np.lj_parameters == op.lj_parameters && np.id == op.id && np.energy
                    == op.energy && np.atom_type == op.atom_type && np.charge == op.charge
            },
{
    let n = particles.len();
    let mut i: usize = 0;
    while i < n
        invariant
            n == particles@.len(),
            n == old(particles)@.len(),
            i <= n,
            valid_length(box_length as int),
            all_wf(particles@),
            forall|k: int|
                0 <= k < i ==> (#[trigger] particles@[k]).position.v() == s_wrap_pos(
                    old(particles)@[k].position.v(),
                    box_length as int,
                ),
            forall|k: int| i <= k < n ==> (#[trigger] particles@[k]) == old(particles)@[k],
            forall|k: int|
                0 <= k < i ==> {
                    let np = #[trigger] particles@[k];
                    let op = old(particles)@[k];
                    np.velocity == op.velocity && np.force == op.force && np.mass == op.mass
                        && np.lj_parameters == op.lj_parameters && np.id == op.id && np.energy
                        == op.energy && np.atom_type == op.atom_type && np.charge == op.charge
                },
        decreases n - i,
    {
        let ghost pre = particles@;
        let p = Vec3 {
            x: wrap_coordinate(particles[i].position.x, box_length),
            y: wrap_coordinate(particles[i].position.y, box_length),
            z: wrap_coordinate(particles[i].position.z, box_length),
        };
        particles[i].position = p;
        proof {
            assert(particles@ =~= pre.update(i as int, particles@[i as int]));
            assert(particles@[i as int].position == p);
            assert(particles@[i as int].velocity == pre[i as int].velocity);
            assert(particles@[i as int].force == pre[i as int].force);
            assert(particles@[i as int].mass == pre[i as int].mass);
            assert(particles@[i as int].lj_parameters == pre[i as int].lj_parameters);
            assert(p.wf());
            assert forall|k: int| 0 <= k < particles@.len() implies (
            #[trigger] particles@[k]).wf() by {
                assert(pre[k].wf());
                if k != i as int {
                    assert(particles@[k] == pre[k]);
                }
            }
        }
        i += 1;
    }
}

} // verus!
