//! Seedable randomness for velocity initialization and stochastic
//! coupling.
//!
//! The engine draws all randomness from one generator handed in by the
//! caller; built from a seed (rand's `SeedableRng::seed_from_u64` is a
//! fixed, documented expansion), the same seed and the same
//! configuration give the same trajectory bit for bit.  Gaussian
//! deviates are built from uniform draws by the twelve-term
//! central-limit construction, entirely in verified fixed-point code.

use vstd::prelude::*;
use crate::fixed::{clip, fsqrt, isqrt_wide, s_div, s_mul, sat_div, sat_mul, MAXF, SCALE};
use crate::particle::Particle;
use crate::vec3::Vec3;

verus! {

/// The Maxwell-Boltzmann velocity scale for one component at the given
/// temperature and mass: `sqrt(temperature / mass)` in fixed point.
pub open spec fn s_mb_sigma(temperature: int, mass: int) -> int
    recommends
        mass > 0,
{
    clip(fsqrt(s_div(temperature, mass) * (SCALE as int)))
}

/// Whether one velocity component has the form of a Maxwell-Boltzmann
/// resample: a bounded approximately-standard-normal deviate scaled by
/// `sigma`.  (The deviate is a sum of twelve uniform draws on `[0, 1)`
/// recentred by six, so it lies in `[-6, 6]`.)
pub open spec fn is_scaled_gaussian(c: int, sigma: int) -> bool {
    exists|g: int| -6_000_000 <= g <= 6_000_000 && c == #[trigger] s_mul(g, sigma)
}

/// Whether a velocity vector has the form of a full Maxwell-Boltzmann
/// resample at scale `sigma`: every component an independent bounded
/// deviate times `sigma`.
pub open spec fn is_mb_resample(v: Vec3, sigma: int) -> bool {
    is_scaled_gaussian(v.x as int, sigma) && is_scaled_gaussian(v.y as int, sigma)
        && is_scaled_gaussian(v.z as int, sigma)
}

/// Verus-visible declaration of rand's standard generator type.
#[verifier::external_type_specification]
#[verifier::external_body]
pub struct ExStdRng(rand::rngs::StdRng);

/// Relies on rand_core's `RngCore::next_u64` for one draw from the
/// generator; nothing can be promised of a random value.
#[verifier::external_body]
pub(crate) fn next_random_u64(rng: &mut rand::rngs::StdRng) -> u64 {
    rand::RngCore::next_u64(rng)
}

/// One uniform fixed-point draw in `[0, SCALE)`.
fn uniform_fix(rng: &mut rand::rngs::StdRng) -> (r: i64)
    ensures
        0 <= r < SCALE,
{
    let u = next_random_u64(rng);
    (u % 1_000_000) as i64
}

/// One approximately standard-normal fixed-point draw: the sum of
/// twelve uniform draws on `[0, 1)`, recentred by six, which has mean
/// zero and unit variance.  The result lies in `[-6, 6]`.
pub fn standard_normal_fix(rng: &mut rand::rngs::StdRng) -> (r: i64)
    ensures
        -6_000_000 <= r <= 6_000_000,
{
    let mut sum: i64 = 0;
    let mut k: usize = 0;
    while k < 12
        invariant
            k <= 12,
            0 <= sum <= k * 1_000_000,
        decreases 12 - k,
    {
        let u = uniform_fix(rng);
        sum = sum + u;
        k += 1;
    }
    sum - 6_000_000
}

/// The Maxwell-Boltzmann standard deviation for one velocity component:
/// `sqrt(temperature / mass)` (the fixed-point scale factors cancel
/// inside the wide square root).
pub fn maxwell_boltzmann_sigma(temperature: i64, mass: i64) -> (r: i64)
    requires
        0 <= temperature <= MAXF,
        0 < mass <= MAXF,
    ensures
        r as int == s_mb_sigma(temperature as int, mass as int),
        0 <= r <= MAXF,
{
    let ratio = sat_div(temperature, mass);
    proof {
        vstd::arithmetic::div_mod::lemma_div_pos_is_pos(
            (temperature as int) * (SCALE as int),
            mass as int,
        );
        assert((temperature as int) * (SCALE as int) >= 0) by (nonlinear_arith)
            requires
                temperature as int >= 0,
        ;
        assert((ratio as int) * (SCALE as int) <= 1_000_000_000_000_000_000_000_000int)
            by (nonlinear_arith)
            requires
                0 <= ratio as int <= MAXF as int,
                SCALE == 1_000_000i64,
        ;
    }
    let wide: u128 = (ratio as u128) * (SCALE as u128);
    let root = isqrt_wide(wide);
    if root > MAXF as u128 {
        MAXF
    } else {
        root as i64
    }
}

impl Particle {
    /// Resamples this particle's velocity from the Maxwell-Boltzmann
    /// distribution at the given temperature and mass: each component
    /// is an independent Gaussian deviate scaled by
    /// `sqrt(temperature / mass)`.  Every other field is untouched.
    pub fn maxwellboltzmannvelocity(
        &mut self,
        temp: i64,
        mass: i64,
        _v_max: i64,
        rng: &mut rand::rngs::StdRng,
    )
        requires
            old(self).wf(),
            0 <= temp <= MAXF,
            0 < mass <= MAXF,
        ensures
            final(self).wf(),
            final(self).position == old(self).position,
            final(self).force == old(self).force,
            final(self).mass == old(self).mass,
            final(self).lj_parameters == old(self).lj_parameters,
            final(self).id == old(self).id,
            final(self).energy == old(self).energy,
            final(self).atom_type == old(self).atom_type,
            final(self).charge == old(self).charge,
            final(self).velocity.wf(),
            is_mb_resample(final(self).velocity, s_mb_sigma(temp as int, mass as int)),
    {
        let sigma_mb = maxwell_boltzmann_sigma(temp, mass);
        let gx = standard_normal_fix(rng);
        let gy = standard_normal_fix(rng);
        let gz = standard_normal_fix(rng);
        let nv = Vec3 {
            x: sat_mul(gx, sigma_mb),
            y: sat_mul(gy, sigma_mb),
            z: sat_mul(gz, sigma_mb),
        };
        proof {
            assert(nv.x as int == s_mul(gx as int, sigma_mb as int));
            assert(nv.y as int == s_mul(gy as int, sigma_mb as int));
            assert(nv.z as int == s_mul(gz as int, sigma_mb as int));
            assert(is_scaled_gaussian(nv.x as int, sigma_mb as int));
            assert(is_scaled_gaussian(nv.y as int, sigma_mb as int));
            assert(is_scaled_gaussian(nv.z as int, sigma_mb as int));
        }
        self.velocity = nv;
    }
}

} // verus!
