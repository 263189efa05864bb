//! Temperature coupling: Berendsen weak coupling, plain velocity
//! rescaling, Andersen stochastic collisions and the Nose-Hoover
//! friction scheme, selected by a tagged coupling variant.
//!
//! Invalid coupling parameters make a scheme a no-op rather than an
//! error: a long-running simulation degrades gracefully.

use vstd::prelude::*;
use crate::fixed::{
    clamp_fix, clip, exp_clamped, exp_neg, fsqrt, in_range, isqrt, s_add, s_clamp, s_div,
    s_exp_clamped, s_exp_neg, s_mul, s_mul_raw, s_sub, sat_add, sat_div, sat_mul, sat_mul_raw,
    sat_sub, MAXF, SCALE,
};
use crate::forces::{s_temperature, compute_temperature_particles, COUNT_MAX};
use crate::particle::{all_wf, Particle};
use crate::vec3::{v3_scale, Vec3};

verus! {

/// The temperature-coupling choice of a run.
pub enum ThermostatCoupling {
    /// No temperature coupling.
    Disabled,
    /// Deterministic weak coupling toward a target temperature with
    /// relaxation time `tau`.
    Berendsen { target_temperature: i64, tau: i64 },
    /// Stochastic velocity resampling at the given collision frequency.
    Andersen { target_temperature: i64, collision_frequency: i64 },
    /// Extended-system friction with the given thermostat mass.
    NoseHoover { target_temperature: i64, thermostat_mass: i64 },
}

/// Whether two particles agree on every field except velocity.
pub open spec fn same_but_velocity(a: Particle, b: Particle) -> bool {
    a.position == b.position && a.force == b.force && a.mass == b.mass && a.lj_parameters
        == b.lj_parameters && a.id == b.id && a.energy == b.energy && a.atom_type == b.atom_type
        && a.charge == b.charge
}

/// Scales every particle velocity by the fixed-point factor `lambda`;
/// every other field is untouched.
pub fn scale_velocities(particles: &mut Vec<Particle>, lambda: i64)
    requires
        all_wf(old(particles)@),
        in_range(lambda as int),
    ensures
        final(particles)@.len() == old(particles)@.len(),
        all_wf(final(particles)@),
        forall|k: int|
            0 <= k < old(particles)@.len() ==> same_but_velocity(
                #[trigger] final(particles)@[k],
                old(particles)@[k],
            ),
        forall|k: int|
            0 <= k < old(particles)@.len() ==> (#[trigger] final(particles)@[k]).velocity.v()
                == v3_scale(old(particles)@[k].velocity.v(), lambda as int),
{
    let n = particles.len();
    let mut i: usize = 0;
    while i < n
        invariant
            n == particles@.len(),
            n == old(particles)@.len(),
            i <= n,
            in_range(lambda as int),
            all_wf(particles@),
            forall|k: int|
                0 <= k < i ==> same_but_velocity(#[trigger] particles@[k], old(particles)@[k])
                    && particles@[k].velocity.v() == v3_scale(
                    old(particles)@[k].velocity.v(),
                    lambda as int,
                ),
            forall|k: int| i <= k < n ==> #[trigger] particles@[k] == old(particles)@[k],
        decreases n - i,
    {
        proof {
            assert(particles@[i as int].wf());
        }
        let ghost pre = particles@;
        let nv = particles[i].velocity.scaled(lambda);
        particles[i].velocity = nv;
        proof {
            assert forall|k: int| 0 <= k < n implies (#[trigger] particles@[k]).wf() by {
                assert(pre[k].wf());
                if k != i as int {
                    assert(particles@[k] == pre[k]);
                } else {
                    assert(particles@[k].velocity.wf());
                    assert(particles@[k].position == pre[k].position);
                    assert(particles@[k].force == pre[k].force);
                    assert(particles@[k].mass == pre[k].mass);
                    assert(particles@[k].lj_parameters == pre[k].lj_parameters);
                    assert(particles@[k].energy == pre[k].energy);
                    assert(particles@[k].charge == pre[k].charge);
                    assert(particles@[k].atom_type == pre[k].atom_type);
                }
            }
        }
        i += 1;
    }
}

/// The Berendsen velocity scale factor: with temperature ratio
/// `x = (dt / tau)(T0 / T - 1)` clamped into `[-0.9, 10]`, the square
/// root of `1 + x` floored at one fixed-point step.
pub open spec fn s_berendsen_lambda(t: int, t0: int, tau: int, dt: int) -> int
    recommends
        t > 0,
        tau > 0,
{
    let x = s_mul(s_div(dt, tau), s_sub(s_div(t0, t), SCALE as int));
    let xc = s_clamp(x, -900_000, 10_000_000);
    let arg = if SCALE as int + xc < 1 {
        1
    } else {
        SCALE as int + xc
    };
    clip(fsqrt(arg * (SCALE as int)))
}

/// Whether a Berendsen step does anything: all coupling parameters
/// positive and a positive current temperature (at `3 N` degrees of
/// freedom).
pub open spec fn s_berendsen_applies(ps: Seq<Particle>, t0: int, tau: int, dt: int) -> bool {
    tau > 0 && dt > 0 && t0 > 0 && s_temperature(ps, 3 * ps.len() as int) > 0
}

/// One Berendsen weak-coupling step: measures the temperature at `3 N`
/// degrees of freedom and scales every velocity by the Berendsen
/// factor; a no-op when any coupling parameter or the temperature is
/// not positive.
pub fn apply_thermostat_berendsen_particles(
    particles: &mut Vec<Particle>,
    target_temperature: i64,
    tau: i64,
    dt: i64,
)
    requires
        all_wf(old(particles)@),
        old(particles)@.len() <= COUNT_MAX,
        in_range(target_temperature as int),
        in_range(tau as int),
        in_range(dt as int),
    ensures
        final(particles)@.len() == old(particles)@.len(),
        all_wf(final(particles)@),
        !s_berendsen_applies(
            old(particles)@,
            target_temperature as int,
            tau as int,
            dt as int,
        ) ==> final(particles)@ == old(particles)@,
        s_berendsen_applies(
            old(particles)@,
            target_temperature as int,
            tau as int,
            dt as int,
        ) ==> {
            let lambda = s_berendsen_lambda(
                s_temperature(old(particles)@, 3 * old(particles)@.len() as int),
                target_temperature as int,
                tau as int,
                dt as int,
            );
            forall|k: int|
                0 <= k < old(particles)@.len() ==> same_but_velocity(
                    #[trigger] final(particles)@[k],
                    old(particles)@[k],
                ) && final(particles)@[k].velocity.v() == v3_scale(
                    old(particles)@[k].velocity.v(),
                    lambda,
                )
        },
{
    let dof: usize = 3 * particles.len();
    let t = compute_temperature_particles(particles, dof);
    if tau <= 0 || dt <= 0 || t <= 0 || target_temperature <= 0 {
        return ;
    }
    let ratio = sat_div(target_temperature, t);
    let x = sat_mul(sat_div(dt, tau), sat_sub(ratio, SCALE));
    let xc = clamp_fix(x, -900_000, 10_000_000);
    let arg = if SCALE + xc < 1 {
        1
    } else {
        SCALE + xc
    };
    let lambda = isqrt(sat_mul_raw(arg, SCALE));
    proof {
        assert(s_mul_raw(arg as int, SCALE as int) == arg as int * SCALE as int);
        crate::fixed::lemma_fsqrt_unique(arg as int * SCALE as int, lambda as int);
        assert(lambda as int <= MAXF as int) by (nonlinear_arith)
            requires
                0 <= lambda as int,
                (lambda as int) * (lambda as int) <= arg as int * SCALE as int,
                arg as int <= 11_000_000,
                SCALE == 1_000_000i64,
        ;
    }
    scale_velocities(particles, lambda);
}

/// The plain velocity-rescaling factor `sqrt(T0 / T)`.
pub open spec fn s_simple_lambda(t: int, t0: int) -> int
    recommends
        t > 0,
{
    clip(fsqrt(s_div(t0, t) * (SCALE as int)))
}

/// One plain velocity-rescaling step toward a target temperature,
/// measured at `3 N` degrees of freedom; a no-op when the current or
/// target temperature is not positive.
pub fn apply_thermostat_particles(particles: &mut Vec<Particle>, target_temperature: i64)
    requires
        all_wf(old(particles)@),
        old(particles)@.len() <= COUNT_MAX,
        0 <= target_temperature <= MAXF,
    ensures
        final(particles)@.len() == old(particles)@.len(),
        all_wf(final(particles)@),
        ({
            let t = s_temperature(old(particles)@, 3 * old(particles)@.len() as int);
            if t <= 0 {
                final(particles)@ == old(particles)@
            } else {
                forall|k: int|
                    0 <= k < old(particles)@.len() ==> same_but_velocity(
                        #[trigger] final(particles)@[k],
                        old(particles)@[k],
                    ) && final(particles)@[k].velocity.v() == v3_scale(
                        old(particles)@[k].velocity.v(),
                        s_simple_lambda(t, target_temperature as int),
                    )
            }
        }),
{
    let dof: usize = 3 * particles.len();
    let t = compute_temperature_particles(particles, dof);
    if t <= 0 {
        return ;
    }
    let ratio = sat_div(target_temperature, t);
    proof {
        vstd::arithmetic::div_mod::lemma_div_pos_is_pos(
            (target_temperature as int) * (SCALE as int),
            t as int,
        );
        assert((target_temperature as int) * (SCALE as int) >= 0) by (nonlinear_arith)
            requires
                target_temperature as int >= 0,
        ;
        assert(0 <= (ratio as int) * (SCALE as int) <= 1_000_000_000_000_000_000_000_000int)
            by (nonlinear_arith)
            requires
                0 <= ratio as int <= MAXF as int,
                SCALE == 1_000_000i64,
        ;
    }
    let wide: u128 = (ratio as u128) * (SCALE as u128);
    let root = crate::fixed::isqrt_wide(wide);
    let lambda: i64 = if root > MAXF as u128 {
        MAXF
    } else {
        root as i64
    };
    scale_velocities(particles, lambda);
}

/// The Nose-Hoover friction update:
/// `xi + dt ((T / T0) - 1) (dof / Q)`.
pub open spec fn s_nose_hoover_xi(xi: int, t: int, t0: int, q: int, dt: int, dof: int) -> int
    recommends
        t0 > 0,
        q > 0,
{
    s_add(xi, s_mul(s_mul(s_sub(s_div(t, t0), SCALE as int), s_div(clip(dof * SCALE), q)), dt))
}

/// The Nose-Hoover velocity scale: `exp(-xi dt)` clamped into
/// `[1/2, 3/2]`.
pub open spec fn s_nose_hoover_scale(xi: int, dt: int) -> int {
    s_exp_clamped(clip(-s_mul(xi, dt)))
}

/// Whether a Nose-Hoover thermostat step does anything.
pub open spec fn s_nose_hoover_applies(ps: Seq<Particle>, t0: int, q: int, dt: int) -> bool {
    ps.len() > 0 && t0 > 0 && q > 0 && dt > 0 && s_temperature(ps, 3 * ps.len() as int) > 0
}

/// One Nose-Hoover thermostat step: advances the persistent friction
/// variable `xi` from the measured temperature (at `3 N` degrees of
/// freedom) and applies the clamped exponential damping to every
/// velocity; a no-op when the system is empty or any parameter or the
/// temperature is not positive.
pub fn apply_thermostat_nose_hoover_particles(
    particles: &mut Vec<Particle>,
    target_temperature: i64,
    thermostat_mass: i64,
    dt: i64,
    xi: &mut i64,
)
    requires
        all_wf(old(particles)@),
        old(particles)@.len() <= COUNT_MAX,
        in_range(target_temperature as int),
        in_range(thermostat_mass as int),
        in_range(dt as int),
        in_range(*old(xi) as int),
    ensures
        final(particles)@.len() == old(particles)@.len(),
        all_wf(final(particles)@),
        in_range(*final(xi) as int),
        !s_nose_hoover_applies(
            old(particles)@,
            target_temperature as int,
            thermostat_mass as int,
            dt as int,
        ) ==> final(particles)@ == old(particles)@ && *final(xi) == *old(xi),
        s_nose_hoover_applies(
            old(particles)@,
            target_temperature as int,
            thermostat_mass as int,
            dt as int,
        ) ==> {
            let t = s_temperature(old(particles)@, 3 * old(particles)@.len() as int);
            let nxi = s_nose_hoover_xi(
                *old(xi) as int,
                t,
                target_temperature as int,
                thermostat_mass as int,
                dt as int,
                3 * old(particles)@.len() as int,
            );
            &&& *final(xi) as int == nxi
            &&& forall|k: int|
                0 <= k < old(particles)@.len() ==> same_but_velocity(
                    #[trigger] final(particles)@[k],
                    old(particles)@[k],
                ) && final(particles)@[k].velocity.v() == v3_scale(
                    old(particles)@[k].velocity.v(),
                    s_nose_hoover_scale(nxi, dt as int),
                )
        },
{
    if particles.len() == 0 || target_temperature <= 0 || thermostat_mass <= 0 || dt <= 0 {
        return ;
    }
    let dof: usize = 3 * particles.len();
    let t = compute_temperature_particles(particles, dof);
    if t <= 0 {
        return ;
    }
    let dof_fix = sat_mul_raw(dof as i64, SCALE);
    let xi_dot = sat_mul(
        sat_mul(sat_sub(sat_div(t, target_temperature), SCALE), sat_div(dof_fix, thermostat_mass)),
        dt,
    );
    let nxi = sat_add(*xi, xi_dot);
    *xi = nxi;
    let scale = exp_clamped(sat_sub(0, sat_mul(nxi, dt)));
    proof {
        assert(s_sub(0, s_mul(nxi as int, dt as int)) == clip(
            -s_mul(nxi as int, dt as int),
        ));
    }
    scale_velocities(particles, scale);
}

/// The Andersen per-particle collision probability for one step:
/// `1 - exp(-collision_frequency dt)`.
pub open spec fn s_andersen_probability(nu: int, dt: int) -> int {
    s_sub(SCALE as int, s_exp_neg(s_mul(nu, dt)))
}

/// The Andersen per-particle collision probability for one step.
pub fn andersen_collision_probability(collision_frequency: i64, dt: i64) -> (p: i64)
    requires
        in_range(collision_frequency as int),
        in_range(dt as int),
    ensures
        p as int == s_andersen_probability(collision_frequency as int, dt as int),
        0 <= p <= SCALE,
{
    let z = sat_mul(collision_frequency, dt);
    let e = exp_neg(z);
    sat_sub(SCALE, e)
}

/// Whether an Andersen step does anything.
pub open spec fn s_andersen_applies(t0: int, nu: int, dt: int) -> bool {
    dt > 0 && nu > 0 && t0 > 0
}

/// Whether `post` is a legal outcome of one Andersen collision sweep
/// over `pre` toward target `t0`: every particle keeps every field but
/// velocity, and each velocity is either exactly its old value or a
/// full Maxwell-Boltzmann resample at that particle's scale
/// `sqrt(t0 / mass)`.  This holds of every draw sequence.
pub open spec fn andersen_post(pre: Seq<Particle>, post: Seq<Particle>, t0: int) -> bool {
    &&& post.len() == pre.len()
    &&& forall|k: int|
        0 <= k < pre.len() ==> same_but_velocity(#[trigger] post[k], pre[k]) && (post[k].velocity
            == pre[k].velocity || crate::rng::is_mb_resample(
            post[k].velocity,
            crate::rng::s_mb_sigma(t0, pre[k].mass as int),
        ))
}

/// One Andersen collision sweep: every particle collides with the heat
/// bath with probability `1 - exp(-collision_frequency dt)`, discarding
/// its velocity for a fresh Maxwell-Boltzmann sample at the target
/// temperature; a no-op when any parameter is not positive.  Positions,
/// forces and every other field are untouched, whatever the draws.
pub fn apply_andersen_collisions(
    particles: &mut Vec<Particle>,
    target_temperature: i64,
    collision_frequency: i64,
    dt: i64,
    rng: &mut rand::rngs::StdRng,
)
    requires
        all_wf(old(particles)@),
        0 <= target_temperature <= MAXF,
        in_range(collision_frequency as int),
        in_range(dt as int),
    ensures
        final(particles)@.len() == old(particles)@.len(),
        all_wf(final(particles)@),
        andersen_post(old(particles)@, final(particles)@, target_temperature as int),
        !s_andersen_applies(
            target_temperature as int,
            collision_frequency as int,
            dt as int,
        ) ==> final(particles)@ == old(particles)@,
{
    if dt <= 0 || collision_frequency <= 0 || target_temperature <= 0 {
        return ;
    }
    let ghost t0 = target_temperature as int;
    let p_coll = andersen_collision_probability(collision_frequency, dt);
    let n = particles.len();
    let mut i: usize = 0;
    while i < n
        invariant
            n == particles@.len(),
            n == old(particles)@.len(),
            i <= n,
            t0 == target_temperature as int,
            0 <= target_temperature <= MAXF,
            all_wf(particles@),
            forall|k: int|
                0 <= k < n ==> same_but_velocity(#[trigger] particles@[k], old(particles)@[k]) && (
                particles@[k].velocity == old(particles)@[k].velocity
                    || crate::rng::is_mb_resample(
                    particles@[k].velocity,
                    crate::rng::s_mb_sigma(t0, old(particles)@[k].mass as int),
                )),
        decreases n - i,
    {
        let draw = crate::rng::next_random_u64(rng) % 1_000_000;
        if (draw as i64) < p_coll {
            proof {
                assert(particles@[i as int].wf());
            }
            let mass = particles[i].mass;
            let sigma = crate::rng::maxwell_boltzmann_sigma(target_temperature, mass);
            let gx = crate::rng::standard_normal_fix(rng);
            let gy = crate::rng::standard_normal_fix(rng);
            let gz = crate::rng::standard_normal_fix(rng);
            let ghost pre = particles@;
            let nv = Vec3 { x: sat_mul(gx, sigma), y: sat_mul(gy, sigma), z: sat_mul(gz, sigma) };
            particles[i].velocity = nv;
            proof {
                assert(nv.x as int == crate::fixed::s_mul(gx as int, sigma as int));
                assert(nv.y as int == crate::fixed::s_mul(gy as int, sigma as int));
                assert(nv.z as int == crate::fixed::s_mul(gz as int, sigma as int));
                assert(crate::rng::is_scaled_gaussian(nv.x as int, sigma as int));
                assert(crate::rng::is_scaled_gaussian(nv.y as int, sigma as int));
                assert(crate::rng::is_scaled_gaussian(nv.z as int, sigma as int));
                assert(crate::rng::is_mb_resample(nv, crate::rng::s_mb_sigma(t0, mass as int)));
                assert forall|k: int| 0 <= k < n implies (#[trigger] particles@[k]).wf()
                    && same_but_velocity(particles@[k], old(particles)@[k]) && (
                particles@[k].velocity == old(particles)@[k].velocity
                    || crate::rng::is_mb_resample(
                    particles@[k].velocity,
                    crate::rng::s_mb_sigma(t0, old(particles)@[k].mass as int),
                )) by {
                    assert(pre[k].wf());
                    assert(same_but_velocity(pre[k], old(particles)@[k]));
                    if k != i as int {
                        assert(particles@[k] == pre[k]);
                    } else {
                        assert(particles@[k].velocity.wf());
                        assert(particles@[k].position == pre[k].position);
                        assert(particles@[k].force == pre[k].force);
                        assert(particles@[k].mass == pre[k].mass);
                        assert(particles@[k].lj_parameters == pre[k].lj_parameters);
                        assert(particles@[k].energy == pre[k].energy);
                        assert(particles@[k].charge == pre[k].charge);
                        assert(particles@[k].atom_type == pre[k].atom_type);
                        assert(old(particles)@[k].mass == mass);
                    }
                }
            }
        }
        i += 1;
    }
}

/// Andersen coupling marched over a time span: collision sweeps at
/// intervals of `dt` until time `t_max` is reached; a no-op for a
/// non-positive time step or span.
pub fn apply_thermostat_andersen_particles(
    particles: &mut Vec<Particle>,
    target_temperature: i64,
    dt: i64,
    t_max: i64,
    collision_frequency: i64,
    rng: &mut rand::rngs::StdRng,
)
    requires
        all_wf(old(particles)@),
        0 <= target_temperature <= MAXF,
        in_range(collision_frequency as int),
        in_range(dt as int),
        in_range(t_max as int),
    ensures
        final(particles)@.len() == old(particles)@.len(),
        all_wf(final(particles)@),
        forall|k: int|
            0 <= k < old(particles)@.len() ==> same_but_velocity(
                #[trigger] final(particles)@[k],
                old(particles)@[k],
            ),
{
    if dt <= 0 {
        return ;
    }
    let mut remaining: i64 = t_max;
    while remaining > 0
        invariant
            remaining <= MAXF,
            0 < dt <= MAXF,
            0 <= target_temperature <= MAXF,
            in_range(collision_frequency as int),
            particles@.len() == old(particles)@.len(),
            all_wf(particles@),
            forall|k: int|
                0 <= k < old(particles)@.len() ==> same_but_velocity(
                    #[trigger] particles@[k],
                    old(particles)@[k],
                ),
        decreases remaining,
    {
        apply_andersen_collisions(particles, target_temperature, collision_frequency, dt, rng);
        remaining = if remaining > dt {
            remaining - dt
        } else {
            0
        };
    }
}

/// The first Andersen half step per particle: the position advanced by
/// `v dt + a dt^2 / 2` and the velocity by `a dt / 2`, both from the
/// acceleration of the forces stored before the step.
pub open spec fn s_andersen_first_half(ps: Seq<Particle>, dt: int) -> Seq<Particle> {
    ps.map_values(
        |p: Particle|
            Particle {
                position: crate::molecule::v3_to_vec(
                    crate::particle::s_drift(
                        p.position.v(),
                        p.velocity.v(),
                        p.force.v(),
                        p.mass as int,
                        dt,
                    ),
                ),
                velocity: crate::molecule::v3_to_vec(
                    crate::particle::s_half_kick(
                        p.velocity.v(),
                        crate::particle::s_accel(p.force.v(), p.mass as int),
                        dt,
                    ),
                ),
                ..p
            },
    )
}

/// The half-kick every particle receives in the second Andersen half
/// step, from the forces stored on it.
pub open spec fn s_second_half_kick(ps: Seq<Particle>, dt: int) -> Seq<Particle> {
    ps.map_values(
        |p: Particle|
            Particle {
                velocity: crate::molecule::v3_to_vec(
                    crate::particle::s_half_kick(
                        p.velocity.v(),
                        crate::particle::s_accel(p.force.v(), p.mass as int),
                        dt,
                    ),
                ),
                ..p
            },
    )
}

/// One half of an Andersen-coupled velocity-Verlet step: the first
/// call (switch one) drifts positions and half-kicks from the stored
/// forces, exactly `s_andersen_first_half`; the second call (switch
/// two) recomputes forces at the current positions, applies the second
/// half-kick from them, and then the collision sweep.  Forces must be
/// recomputed between the two calls' kicks, which the second call does
/// itself.  Any other switch value changes nothing.
pub fn run_md_andersen_particles(
    particles: &mut Vec<Particle>,
    dt: i64,
    box_length: i64,
    temp: i64,
    nu: i64,
    switch: i64,
    rng: &mut rand::rngs::StdRng,
)
    requires
        all_wf(old(particles)@),
        old(particles)@.len() <= COUNT_MAX,
        crate::pbc::valid_length(box_length as int),
        in_range(dt as int),
        0 <= temp <= MAXF,
        in_range(nu as int),
    ensures
        final(particles)@.len() == old(particles)@.len(),
        all_wf(final(particles)@),
        switch == 1 ==> final(particles)@ == s_andersen_first_half(old(particles)@, dt as int),
        switch == 2 ==> {
            let kicked = s_second_half_kick(
                crate::driver::s_forces_assigned(old(particles)@, box_length as int),
                dt as int,
            );
            &&& andersen_post(kicked, final(particles)@, temp as int)
            &&& !s_andersen_applies(temp as int, nu as int, dt as int) ==> final(particles)@
                == kicked
        },
        switch != 1 && switch != 2 ==> final(particles)@ == old(particles)@,
{
    let n = particles.len();
    if switch == 1 {
        let mut i: usize = 0;
        while i < n
            invariant
                n == particles@.len(),
                n == old(particles)@.len(),
                i <= n,
                in_range(dt as int),
                all_wf(particles@),
                forall|k: int|
                    0 <= k < i ==> #[trigger] particles@[k] == s_andersen_first_half(
                        old(particles)@,
                        dt as int,
                    )[k],
                forall|k: int| i <= k < n ==> #[trigger] particles@[k] == old(particles)@[k],
            decreases n - i,
        {
            proof {
                assert(particles@[i as int].wf());
            }
            let mut p = particles[i];
            let a_old = p.accel();
            p.update_position_verlet(dt);
            p.update_velocity_verlet(a_old, dt);
            particles[i] = p;
            proof {
                assert(particles@[i as int] == s_andersen_first_half(
                    old(particles)@,
                    dt as int,
                )[i as int]);
                assert forall|k: int| 0 <= k < n implies (#[trigger] particles@[k]).wf() by {}
            }
            i += 1;
        }
        proof {
            assert(particles@ =~= s_andersen_first_half(old(particles)@, dt as int));
        }
    } else if switch == 2 {
        crate::forces::compute_forces_particles(particles, box_length);
        proof {
            assert(particles@ =~= crate::driver::s_forces_assigned(
                old(particles)@,
                box_length as int,
            ));
        }
        let ghost forced = particles@;
        let mut i: usize = 0;
        while i < n
            invariant
                n == particles@.len(),
                n == forced.len(),
                i <= n,
                in_range(dt as int),
                all_wf(particles@),
                forall|k: int|
                    0 <= k < i ==> #[trigger] particles@[k] == s_second_half_kick(
                        forced,
                        dt as int,
                    )[k],
                forall|k: int| i <= k < n ==> #[trigger] particles@[k] == forced[k],
            decreases n - i,
        {
            proof {
                assert(particles@[i as int].wf());
            }
            let mut p = particles[i];
            let a_new = p.accel();
            p.update_velocity_verlet(a_new, dt);
            particles[i] = p;
            proof {
                assert(particles@[i as int] == s_second_half_kick(forced, dt as int)[i as int]);
                assert forall|k: int| 0 <= k < n implies (#[trigger] particles@[k]).wf() by {}
            }
            i += 1;
        }
        proof {
            assert(particles@ =~= s_second_half_kick(forced, dt as int));
        }
        apply_andersen_collisions(particles, temp, nu, dt, rng);
    }
}

/// Whether `post` is `pre` after one plain velocity-rescaling step
/// toward `t0`: untouched when the measured temperature is not
/// positive, otherwise every velocity scaled by `sqrt(t0 / T)`.
pub open spec fn simple_rescale_post(pre: Seq<Particle>, post: Seq<Particle>, t0: int) -> bool {
    let t = s_temperature(pre, 3 * pre.len() as int);
    post.len() == pre.len() && if t <= 0 {
        post == pre
    } else {
        forall|k: int|
            0 <= k < pre.len() ==> same_but_velocity(#[trigger] post[k], pre[k])
                && post[k].velocity.v() == crate::vec3::v3_scale(
                pre[k].velocity.v(),
                s_simple_lambda(t, t0),
            )
    }
}

/// Whether `post` is `pre` after one Berendsen step toward `t0`.
pub open spec fn berendsen_post(
    pre: Seq<Particle>,
    post: Seq<Particle>,
    t0: int,
    tau: int,
    dt: int,
) -> bool {
    post.len() == pre.len() && if !s_berendsen_applies(pre, t0, tau, dt) {
        post == pre
    } else {
        forall|k: int|
            0 <= k < pre.len() ==> same_but_velocity(#[trigger] post[k], pre[k])
                && post[k].velocity.v() == crate::vec3::v3_scale(
                pre[k].velocity.v(),
                s_berendsen_lambda(s_temperature(pre, 3 * pre.len() as int), t0, tau, dt),
            )
    }
}

/// Whether `post` and the friction value are `pre` after one
/// Nose-Hoover thermostat step.
pub open spec fn nose_hoover_post(
    pre: Seq<Particle>,
    post: Seq<Particle>,
    t0: int,
    q: int,
    dt: int,
    xi_pre: int,
    xi_post: int,
) -> bool {
    post.len() == pre.len() && if !s_nose_hoover_applies(pre, t0, q, dt) {
        post == pre && xi_post == xi_pre
    } else {
        let t = s_temperature(pre, 3 * pre.len() as int);
        let nxi = s_nose_hoover_xi(xi_pre, t, t0, q, dt, 3 * pre.len() as int);
        &&& xi_post == nxi
        &&& forall|k: int|
            0 <= k < pre.len() ==> same_but_velocity(#[trigger] post[k], pre[k])
                && post[k].velocity.v() == crate::vec3::v3_scale(
                pre[k].velocity.v(),
                s_nose_hoover_scale(nxi, dt),
            )
    }
}

/// Whether `post` and the friction value are a legal outcome of one
/// step of the selected coupling over `pre`: the exact scaling for the
/// deterministic variants, the outcome-independent resample form for
/// Andersen, and no change at all for a disabled coupling.
pub open spec fn thermostat_coupling_post(
    pre: Seq<Particle>,
    post: Seq<Particle>,
    c: ThermostatCoupling,
    dt: int,
    xi_pre: int,
    xi_post: int,
) -> bool {
    match c {
        ThermostatCoupling::Disabled => post == pre && xi_post == xi_pre,
        ThermostatCoupling::Berendsen { target_temperature, tau } => berendsen_post(
            pre,
            post,
            target_temperature as int,
            tau as int,
            dt,
        ) && xi_post == xi_pre,
        ThermostatCoupling::Andersen { target_temperature, collision_frequency } => {
            let t0 = if target_temperature < 0 {
                0int
            } else {
                target_temperature as int
            };
            &&& andersen_post(pre, post, t0)
            &&& !s_andersen_applies(t0, collision_frequency as int, dt) ==> post == pre
            &&& xi_post == xi_pre
        },
        ThermostatCoupling::NoseHoover { target_temperature, thermostat_mass } => nose_hoover_post(
            pre,
            post,
            target_temperature as int,
            thermostat_mass as int,
            dt,
            xi_pre,
            xi_post,
        ),
    }
}

/// One thermostat step of the selected coupling variant.  Whatever the
/// variant, the particle count is preserved, positions and forces are
/// untouched, and the friction variable moves only under Nose-Hoover.
pub fn apply_thermostat_coupling(
    particles: &mut Vec<Particle>,
    coupling: &ThermostatCoupling,
    dt: i64,
    xi: &mut i64,
    rng: &mut rand::rngs::StdRng,
)
    requires
        all_wf(old(particles)@),
        old(particles)@.len() <= COUNT_MAX,
        in_range(dt as int),
        in_range(*old(xi) as int),
        coupling_wf(*coupling),
    ensures
        final(particles)@.len() == old(particles)@.len(),
        all_wf(final(particles)@),
        in_range(*final(xi) as int),
        forall|k: int|
            0 <= k < old(particles)@.len() ==> same_but_velocity(
                #[trigger] final(particles)@[k],
                old(particles)@[k],
            ),
        thermostat_coupling_post(
            old(particles)@,
            final(particles)@,
            *coupling,
            dt as int,
            *old(xi) as int,
            *final(xi) as int,
        ),
        coupling is Disabled ==> final(particles)@ == old(particles)@,
        !(coupling is NoseHoover) ==> *final(xi) == *old(xi),
{
    match coupling {
        ThermostatCoupling::Disabled => {},
        ThermostatCoupling::Berendsen { target_temperature, tau } => {
            apply_thermostat_berendsen_particles(particles, *target_temperature, *tau, dt);
        },
        ThermostatCoupling::Andersen { target_temperature, collision_frequency } => {
            let t0 = if *target_temperature < 0 {
                0
            } else {
                *target_temperature
            };
            apply_andersen_collisions(particles, t0, *collision_frequency, dt, rng);
        },
        ThermostatCoupling::NoseHoover { target_temperature, thermostat_mass } => {
            apply_thermostat_nose_hoover_particles(
                particles,
                *target_temperature,
                *thermostat_mass,
                dt,
                xi,
            );
        },
    }
}

/// Whether a coupling choice's parameters are within the fixed-point
/// range.
pub open spec fn coupling_wf(c: ThermostatCoupling) -> bool {
    match c {
        ThermostatCoupling::Disabled => true,
        ThermostatCoupling::Berendsen { target_temperature, tau } => in_range(
            target_temperature as int,
        ) && in_range(tau as int),
        ThermostatCoupling::Andersen { target_temperature, collision_frequency } => in_range(
            target_temperature as int,
        ) && in_range(collision_frequency as int),
        ThermostatCoupling::NoseHoover { target_temperature, thermostat_mass } => in_range(
            target_temperature as int,
        ) && in_range(thermostat_mass as int),
    }
}

/// Berendsen coupling is monotone: when the system is hotter than the
/// target the velocity scale is at most one, when it is colder the
/// scale is at least one, and in either case the scale never falls
/// below the square root of the lower clamp bound.  Repeated steps
/// therefore drive the temperature toward the target without
/// overshooting past the clamp bounds.
pub proof fn lemma_berendsen_monotone(t: int, t0: int, tau: int, dt: int)
    requires
        0 < t <= MAXF as int,
        0 < t0 <= MAXF as int,
        0 < dt <= tau,
        tau <= MAXF as int,
    ensures
        t0 < t ==> s_berendsen_lambda(t, t0, tau, dt) <= SCALE as int,
        t0 > t ==> s_berendsen_lambda(t, t0, tau, dt) >= SCALE as int,
        s_berendsen_lambda(t, t0, tau, dt) >= 316_227,
{
    let sc = SCALE as int;
    let ratio = s_div(t0, t);
    let dtau = s_div(dt, tau);
    // dtau lies in [0, SCALE].
    vstd::arithmetic::div_mod::lemma_div_pos_is_pos(dt * sc, tau);
    assert(dt * sc >= 0) by (nonlinear_arith)
        requires
            dt > 0,
            sc > 0,
    ;
    assert(dt * sc <= tau * sc) by (nonlinear_arith)
        requires
            dt <= tau,
            sc > 0,
    ;
    vstd::arithmetic::div_mod::lemma_div_is_ordered(dt * sc, tau * sc, tau);
    vstd::arithmetic::div_mod::lemma_div_multiples_vanish(sc, tau);
    assert(tau * sc == sc * tau) by (nonlinear_arith);
    assert(0 <= dtau <= sc);
    // The ratio is nonnegative.
    vstd::arithmetic::div_mod::lemma_div_pos_is_pos(t0 * sc, t);
    assert(t0 * sc >= 0) by (nonlinear_arith)
        requires
            t0 > 0,
            sc > 0,
    ;
    let x = s_mul(dtau, s_sub(ratio, sc));
    let xc = s_clamp(x, -900_000, 10_000_000);
    if t0 < t {
        // The temperature ratio is below one.
        assert(t0 * sc <= (t - 1) * sc) by (nonlinear_arith)
            requires
                t0 <= t - 1,
                sc > 0,
        ;
        vstd::arithmetic::div_mod::lemma_div_is_ordered(t0 * sc, (t - 1) * sc, t);
        vstd::arithmetic::div_mod::lemma_hoist_over_denominator(-sc, sc, t as nat);
        assert((-sc) / t + sc == (-sc + sc * t) / t);
        assert(-sc + sc * t == (t - 1) * sc) by (nonlinear_arith);
        crate::grid::lemma_neg_div_le_neg_one(-sc, t);
        assert((t0 * sc) / t <= sc - 1);
        assert(0 <= ratio <= sc - 1);
        let d = s_sub(ratio, sc);
        assert(-sc <= d <= -1);
        // x is in [-SCALE, 0].
        assert(dtau * d <= 0 && dtau * d >= -(sc * sc)) by (nonlinear_arith)
            requires
                0 <= dtau <= sc,
                -sc <= d <= -1,
        ;
        vstd::arithmetic::div_mod::lemma_div_is_ordered(dtau * d, 0, sc);
        vstd::arithmetic::div_mod::lemma_div_is_ordered(-(sc * sc), dtau * d, sc);
        vstd::arithmetic::div_mod::lemma_div_multiples_vanish(-sc, sc);
        assert(-(sc * sc) == sc * (-sc)) by (nonlinear_arith);
        assert((0int) / sc == 0);
        assert(-sc <= x <= 0);
        assert(-900_000 <= xc <= 0);
    } else if t0 > t {
        // The temperature ratio is at least one.
        assert(t0 * sc >= t * sc) by (nonlinear_arith)
            requires
                t0 >= t,
                sc > 0,
        ;
        vstd::arithmetic::div_mod::lemma_div_is_ordered(t * sc, t0 * sc, t);
        vstd::arithmetic::div_mod::lemma_div_multiples_vanish(sc, t);
        assert(t * sc == sc * t) by (nonlinear_arith);
        assert((t0 * sc) / t >= sc);
        assert(ratio >= sc);
        let d = s_sub(ratio, sc);
        assert(d >= 0);
        assert(dtau * d >= 0) by (nonlinear_arith)
            requires
                dtau >= 0,
                d >= 0,
        ;
        vstd::arithmetic::div_mod::lemma_div_pos_is_pos(dtau * d, sc);
        assert(x >= 0);
        assert(0 <= xc <= 10_000_000);
    }
    assert(-900_000 <= xc <= 10_000_000);
    let arg = if sc + xc < 1 {
        1
    } else {
        sc + xc
    };
    assert(100_000 <= arg <= 11_000_000);
    assert(100_000 * sc <= arg * sc <= 11_000_000 * sc) by (nonlinear_arith)
        requires
            100_000 <= arg <= 11_000_000,
            sc == 1_000_000int,
    ;
    crate::fixed::lemma_fsqrt_is_sqrt(arg * sc);
    let root = fsqrt(arg * sc);
    assert(root >= 316_227 && root <= 3_316_625) by (nonlinear_arith)
        requires
            root >= 0,
            root * root <= arg * sc,
            arg * sc < (root + 1) * (root + 1),
            100_000_000_000int <= arg * sc <= 11_000_000_000_000int,
    ;
    assert(s_berendsen_lambda(t, t0, tau, dt) == clip(root));
    if t0 < t {
        assert(arg <= sc);
        assert(root <= sc) by (nonlinear_arith)
            requires
                root >= 0,
                root * root <= arg * sc,
                arg <= sc,
                sc == 1_000_000int,
        ;
    }
    if t0 > t {
        assert(arg >= sc);
        assert(root >= sc) by (nonlinear_arith)
            requires
                root >= 0,
                arg * sc < (root + 1) * (root + 1),
                arg >= sc,
                sc == 1_000_000int,
        ;
    }
}

} // verus!
