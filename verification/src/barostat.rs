//! Pressure coupling: Berendsen weak coupling and the Nose-Hoover
//! strain-rate scheme, both rescaling the box edge and the particle
//! coordinates isotropically.

use vstd::prelude::*;
use crate::fixed::{
    clamp_fix, exp_clamped, fcbrt, icbrt, in_range, s_add, s_clamp, s_div, s_exp_clamped, s_mul,
    s_sub, sat_add, sat_div, sat_mul, sat_sub, MAXF, SCALE,
};
use crate::forces::{s_pressure, compute_pressure_particles, COUNT_MAX};
use crate::particle::{all_wf, Particle};
use crate::pbc::{valid_length, LEN_MAX};
use crate::thermostat::same_but_velocity;
use crate::vec3::{v3_scale, V3, Vec3};

verus! {

/// The pressure-coupling choice of a run.
pub enum BarostatCoupling {
    /// No pressure coupling.
    Disabled,
    /// Deterministic weak coupling toward a target pressure, with
    /// relaxation time `tau_p` and an isothermal compressibility.
    Berendsen { target_pressure: i64, tau_p: i64, compressibility: i64 },
    /// Extended-system strain rate with the given barostat mass.
    NoseHoover { target_pressure: i64, barostat_mass: i64 },
}

/// Whether a pressure-coupling choice's parameters are within the
/// fixed-point range.
pub open spec fn barostat_coupling_wf(c: BarostatCoupling) -> bool {
    match c {
        BarostatCoupling::Disabled => true,
        BarostatCoupling::Berendsen { target_pressure, tau_p, compressibility } => in_range(
            target_pressure as int,
        ) && in_range(tau_p as int) && in_range(compressibility as int),
        BarostatCoupling::NoseHoover { target_pressure, barostat_mass } => in_range(
            target_pressure as int,
        ) && in_range(barostat_mass as int),
    }
}

/// Whether `post`, the box edge and the strain rate are `pre` after one
/// step of the selected pressure coupling: the exact clamped rescale
/// for an applicable step, and no change at all otherwise or for a
/// disabled coupling.
pub open spec fn barostat_coupling_post(
    pre: Seq<Particle>,
    post: Seq<Particle>,
    box_pre: int,
    box_post: int,
    c: BarostatCoupling,
    dt: int,
    eta_pre: int,
    eta_post: int,
) -> bool {
    match c {
        BarostatCoupling::Disabled => post == pre && box_post == box_pre && eta_post == eta_pre,
        BarostatCoupling::Berendsen { target_pressure, tau_p, compressibility } => eta_post
            == eta_pre && if !s_barostat_berendsen_applies(
            box_pre,
            tau_p as int,
            dt,
            compressibility as int,
        ) {
            post == pre && box_post == box_pre
        } else {
            let p = s_pressure(pre, box_pre);
            let ls = s_length_scale(
                s_berendsen_volume_scale(
                    p,
                    target_pressure as int,
                    tau_p as int,
                    dt,
                    compressibility as int,
                ),
            );
            &&& box_post == s_rescaled_box(box_pre, ls)
            &&& post.len() == pre.len()
            &&& forall|k: int|
                0 <= k < pre.len() ==> same_but_position(#[trigger] post[k], pre[k])
                    && post[k].position.v() == v3_scale(pre[k].position.v(), ls)
        },
        BarostatCoupling::NoseHoover { target_pressure, barostat_mass } => if !s_barostat_nh_applies(
            pre.len() as int,
            box_pre,
            barostat_mass as int,
            dt,
        ) {
            post == pre && box_post == box_pre && eta_post == eta_pre
        } else {
            let p = s_pressure(pre, box_pre);
            let neta = s_nose_hoover_eta(eta_pre, p, target_pressure as int, barostat_mass as int, dt);
            let ls = crate::fixed::s_exp_clamped(crate::fixed::s_mul(neta, dt));
            &&& eta_post == neta
            &&& box_post == s_rescaled_box(box_pre, ls)
            &&& post.len() == pre.len()
            &&& forall|k: int|
                0 <= k < pre.len() ==> same_but_pos_vel(#[trigger] post[k], pre[k])
                    && post[k].position.v() == v3_scale(pre[k].position.v(), ls)
                    && post[k].velocity.v() == v3_div(pre[k].velocity.v(), ls)
        },
    }
}

/// Whether two particles agree on every field except position.
pub open spec fn same_but_position(a: Particle, b: Particle) -> bool {
    a.velocity == b.velocity && a.force == b.force && a.mass == b.mass && a.lj_parameters
        == b.lj_parameters && a.id == b.id && a.energy == b.energy && a.atom_type == b.atom_type
        && a.charge == b.charge
}

/// Whether two particles agree on every field except position and
/// velocity.
pub open spec fn same_but_pos_vel(a: Particle, b: Particle) -> bool {
    a.force == b.force && a.mass == b.mass && a.lj_parameters == b.lj_parameters && a.id == b.id
        && a.energy == b.energy && a.atom_type == b.atom_type && a.charge == b.charge
}

/// Scales every particle position by the fixed-point factor `ls`;
/// every other field is untouched.
pub fn scale_positions(particles: &mut Vec<Particle>, ls: i64)
    requires
        all_wf(old(particles)@),
        in_range(ls as int),
    ensures
        final(particles)@.len() == old(particles)@.len(),
        all_wf(final(particles)@),
        forall|k: int|
            0 <= k < old(particles)@.len() ==> same_but_position(
                #[trigger] final(particles)@[k],
                old(particles)@[k],
            ),
        forall|k: int|
            0 <= k < old(particles)@.len() ==> (#[trigger] final(particles)@[k]).position.v()
                == v3_scale(old(particles)@[k].position.v(), ls as int),
{
    let n = particles.len();
    let mut i: usize = 0;
    while i < n
        invariant
            n == particles@.len(),
            n == old(particles)@.len(),
            i <= n,
            in_range(ls as int),
            all_wf(particles@),
            forall|k: int|
                0 <= k < i ==> same_but_position(#[trigger] particles@[k], old(particles)@[k])
                    && particles@[k].position.v() == v3_scale(
                    old(particles)@[k].position.v(),
                    ls as int,
                ),
            forall|k: int| i <= k < n ==> #[trigger] particles@[k] == old(particles)@[k],
        decreases n - i,
    {
        proof {
            assert(particles@[i as int].wf());
        }
        let ghost pre = particles@;
        let np = particles[i].position.scaled(ls);
        particles[i].position = np;
        proof {
            assert forall|k: int| 0 <= k < n implies (#[trigger] particles@[k]).wf() by {
                assert(pre[k].wf());
                if k != i as int {
                    assert(particles@[k] == pre[k]);
                } else {
                    assert(particles@[k].position.wf());
                    assert(particles@[k].velocity == pre[k].velocity);
                    assert(particles@[k].force == pre[k].force);
                    assert(particles@[k].mass == pre[k].mass);
                    assert(particles@[k].lj_parameters == pre[k].lj_parameters);
                    assert(particles@[k].energy == pre[k].energy);
                    assert(particles@[k].charge == pre[k].charge);
                    assert(particles@[k].atom_type == pre[k].atom_type);
                }
            }
        }
        i += 1;
    }
}

/// Divides every particle velocity by the positive fixed-point factor
/// `ls`; every other field is untouched.
pub fn divide_velocities(particles: &mut Vec<Particle>, ls: i64)
    requires
        all_wf(old(particles)@),
        0 < ls,
    ensures
        final(particles)@.len() == old(particles)@.len(),
        all_wf(final(particles)@),
        forall|k: int|
            0 <= k < old(particles)@.len() ==> same_but_velocity(
                #[trigger] final(particles)@[k],
                old(particles)@[k],
            ),
        forall|k: int|
            0 <= k < old(particles)@.len() ==> (#[trigger] final(particles)@[k]).velocity.v()
                == v3_div(old(particles)@[k].velocity.v(), ls as int),
{
    let n = particles.len();
    let mut i: usize = 0;
    while i < n
        invariant
            n == particles@.len(),
            n == old(particles)@.len(),
            i <= n,
            0 < ls,
            all_wf(particles@),
            forall|k: int|
                0 <= k < i ==> same_but_velocity(#[trigger] particles@[k], old(particles)@[k])
                    && particles@[k].velocity.v() == v3_div(
                    old(particles)@[k].velocity.v(),
                    ls as int,
                ),
            forall|k: int| i <= k < n ==> #[trigger] particles@[k] == old(particles)@[k],
        decreases n - i,
    {
        proof {
            assert(particles@[i as int].wf());
        }
        let ghost pre = particles@;
        let v = particles[i].velocity;
        let nv = Vec3 { x: sat_div(v.x, ls), y: sat_div(v.y, ls), z: sat_div(v.z, ls) };
        particles[i].velocity = nv;
        proof {
            assert forall|k: int| 0 <= k < n implies (#[trigger] particles@[k]).wf() by {
                assert(pre[k].wf());
                if k != i as int {
                    assert(particles@[k] == pre[k]);
                } else {
                    assert(particles@[k].velocity.wf());
                    assert(particles@[k].position == pre[k].position);
                    assert(particles@[k].force == pre[k].force);
                    assert(particles@[k].mass == pre[k].mass);
                    assert(particles@[k].lj_parameters == pre[k].lj_parameters);
                    assert(particles@[k].energy == pre[k].energy);
                    assert(particles@[k].charge == pre[k].charge);
                    assert(particles@[k].atom_type == pre[k].atom_type);
                }
            }
        }
        i += 1;
    }
}

/// Component-wise fixed-point division by a positive factor.
pub open spec fn v3_div(a: V3, d: int) -> V3
    recommends
        d > 0,
{
    V3 { x: s_div(a.x, d), y: s_div(a.y, d), z: s_div(a.z, d) }
}

/// The Berendsen barostat's volume scale:
/// `1 - (dt / tau_p) compressibility (P_target - P)`, clamped into
/// `[1/2, 3/2]`.
pub open spec fn s_berendsen_volume_scale(p: int, p0: int, tau_p: int, dt: int, comp: int) -> int
    recommends
        tau_p > 0,
{
    s_clamp(
        s_sub(SCALE as int, s_mul(s_div(dt, tau_p), s_mul(comp, s_sub(p0, p)))),
        500_000,
        1_500_000,
    )
}

/// The length scale is the cube root of a volume scale (the fixed-point
/// form needs two extra `SCALE` factors under the root).
pub open spec fn s_length_scale(vscale: int) -> int
    recommends
        0 <= vscale,
{
    fcbrt(vscale * (SCALE as int) * (SCALE as int))
}

/// A rescaled box edge, floored at one fixed-point step and capped at
/// the largest accepted edge so that the box stays usable.
pub open spec fn s_rescaled_box(l: int, ls: int) -> int {
    s_clamp(s_mul(l, ls), 1, LEN_MAX as int)
}

/// Whether a Berendsen barostat step does anything.
pub open spec fn s_barostat_berendsen_applies(l: int, tau_p: int, dt: int, comp: int) -> bool {
    tau_p > 0 && dt > 0 && comp > 0 && valid_length(l)
}

/// One Berendsen barostat step: measures the virial-route pressure,
/// forms the clamped volume scale, and multiplies the box edge and
/// every particle position by its cube root; a no-op when any coupling
/// parameter is not positive or the box edge is degenerate.
pub fn apply_barostat_berendsen_particles(
    particles: &mut Vec<Particle>,
    box_length: &mut i64,
    target_pressure: i64,
    tau_p: i64,
    dt: i64,
    compressibility: i64,
)
    requires
        all_wf(old(particles)@),
        old(particles)@.len() <= COUNT_MAX,
        in_range(target_pressure as int),
        in_range(tau_p as int),
        in_range(dt as int),
        in_range(compressibility as int),
        in_range(*old(box_length) as int),
    ensures
        final(particles)@.len() == old(particles)@.len(),
        all_wf(final(particles)@),
        !s_barostat_berendsen_applies(
            *old(box_length) as int,
            tau_p as int,
            dt as int,
            compressibility as int,
        ) ==> final(particles)@ == old(particles)@ && *final(box_length) == *old(box_length),
        s_barostat_berendsen_applies(
            *old(box_length) as int,
            tau_p as int,
            dt as int,
            compressibility as int,
        ) ==> {
            let p = s_pressure(old(particles)@, *old(box_length) as int);
            let ls = s_length_scale(
                s_berendsen_volume_scale(
                    p,
                    target_pressure as int,
                    tau_p as int,
                    dt as int,
                    compressibility as int,
                ),
            );
            &&& *final(box_length) as int == s_rescaled_box(*old(box_length) as int, ls)
            &&& valid_length(*final(box_length) as int)
            &&& forall|k: int|
                0 <= k < old(particles)@.len() ==> same_but_position(
                    #[trigger] final(particles)@[k],
                    old(particles)@[k],
                ) && final(particles)@[k].position.v() == v3_scale(
                    old(particles)@[k].position.v(),
                    ls,
                )
        },
{
    if tau_p <= 0 || dt <= 0 || compressibility <= 0 || *box_length <= 0 || *box_length
        > LEN_MAX {
        return ;
    }
    let p = compute_pressure_particles(particles, *box_length);
    let raw = sat_sub(SCALE, sat_mul(sat_div(dt, tau_p), sat_mul(
        compressibility,
        sat_sub(target_pressure, p),
    )));
    let vscale = clamp_fix(raw, 500_000, 1_500_000);
    proof {
        assert(0 <= (vscale as int) * 1_000_000_000_000int
            <= 1_500_000_000_000_000_000int) by (nonlinear_arith)
            requires
                500_000 <= vscale as int <= 1_500_000,
        ;
        assert((vscale as int) * 1_000_000_000_000int == (vscale as int) * (SCALE as int) * (
        SCALE as int)) by (nonlinear_arith)
            requires
                SCALE == 1_000_000i64,
        ;
    }
    let wide_i: i128 = (vscale as i128) * 1_000_000_000_000;
    let wide: i64 = wide_i as i64;
    let ls = icbrt(wide);
    proof {
        assert(in_range(ls as int)) by (nonlinear_arith)
            requires
                0 <= ls as int,
                (ls as int) * (ls as int) * (ls as int) <= wide as int,
                wide as int <= 1_500_000_000_000_000_000int,
                MAXF == 1_000_000_000_000_000_000i64,
        ;
    }
    let nl = clamp_fix(sat_mul(*box_length, ls), 1, LEN_MAX);
    *box_length = nl;
    scale_positions(particles, ls);
}

/// The Nose-Hoover strain-rate update: `eta + dt (P - P0) / W`.
pub open spec fn s_nose_hoover_eta(eta: int, p: int, p0: int, w: int, dt: int) -> int
    recommends
        w > 0,
{
    s_add(eta, s_mul(s_div(s_sub(p, p0), w), dt))
}

/// Whether a Nose-Hoover barostat step does anything.
pub open spec fn s_barostat_nh_applies(nparticles: int, l: int, w: int, dt: int) -> bool {
    nparticles > 0 && valid_length(l) && w > 0 && dt > 0
}

/// One Nose-Hoover barostat step: advances the persistent strain rate
/// `eta` from the measured pressure, then scales the box edge and every
/// position by the clamped exponential length scale and divides every
/// velocity by it, keeping the reduced kinetic state consistent with
/// the volume change; a no-op on an empty system, a degenerate box or
/// a non-positive mass or time step.
pub fn apply_barostat_nose_hoover_particles(
    particles: &mut Vec<Particle>,
    box_length: &mut i64,
    target_pressure: i64,
    barostat_mass: i64,
    dt: i64,
    eta: &mut i64,
)
    requires
        all_wf(old(particles)@),
        old(particles)@.len() <= COUNT_MAX,
        in_range(target_pressure as int),
        in_range(barostat_mass as int),
        in_range(dt as int),
        in_range(*old(box_length) as int),
        in_range(*old(eta) as int),
    ensures
        final(particles)@.len() == old(particles)@.len(),
        all_wf(final(particles)@),
        in_range(*final(eta) as int),
        !s_barostat_nh_applies(
            old(particles)@.len() as int,
            *old(box_length) as int,
            barostat_mass as int,
            dt as int,
        ) ==> final(particles)@ == old(particles)@ && *final(box_length) == *old(box_length)
            && *final(eta) == *old(eta),
        s_barostat_nh_applies(
            old(particles)@.len() as int,
            *old(box_length) as int,
            barostat_mass as int,
            dt as int,
        ) ==> {
            let p = s_pressure(old(particles)@, *old(box_length) as int);
            let neta = s_nose_hoover_eta(
                *old(eta) as int,
                p,
                target_pressure as int,
                barostat_mass as int,
                dt as int,
            );
            let ls = s_exp_clamped(s_mul(neta, dt as int));
            &&& *final(eta) as int == neta
            &&& *final(box_length) as int == s_rescaled_box(*old(box_length) as int, ls)
            &&& valid_length(*final(box_length) as int)
            &&& forall|k: int|
                0 <= k < old(particles)@.len() ==> same_but_pos_vel(
                    #[trigger] final(particles)@[k],
                    old(particles)@[k],
                ) && final(particles)@[k].position.v() == v3_scale(
                    old(particles)@[k].position.v(),
                    ls,
                ) && final(particles)@[k].velocity.v() == v3_div(
                    old(particles)@[k].velocity.v(),
                    ls,
                )
        },
{
    if particles.len() == 0 || *box_length <= 0 || *box_length > LEN_MAX || barostat_mass <= 0
        || dt <= 0 {
        return ;
    }
    let p = compute_pressure_particles(particles, *box_length);
    let neta = sat_add(*eta, sat_mul(sat_div(sat_sub(p, target_pressure), barostat_mass), dt));
    *eta = neta;
    let ls = exp_clamped(sat_mul(neta, dt));
    let nl = clamp_fix(sat_mul(*box_length, ls), 1, LEN_MAX);
    *box_length = nl;
    let ghost mid = particles@;
    scale_positions(particles, ls);
    let ghost scaled = particles@;
    divide_velocities(particles, ls);
    proof {
        assert forall|k: int| 0 <= k < old(particles)@.len() implies same_but_pos_vel(
            (#[trigger] particles@[k]),
            old(particles)@[k],
        ) && particles@[k].position.v() == v3_scale(
            old(particles)@[k].position.v(),
            ls as int,
        ) && particles@[k].velocity.v() == v3_div(
            old(particles)@[k].velocity.v(),
            ls as int,
        ) by {
            assert(same_but_position(scaled[k], mid[k]));
            assert(scaled[k].position.v() == v3_scale(mid[k].position.v(), ls as int));
            assert(same_but_velocity(particles@[k], scaled[k]));
            assert(particles@[k].velocity.v() == v3_div(scaled[k].velocity.v(), ls as int));
        }
    }
}

} // verus!
