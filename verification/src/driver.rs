//! The simulation driver: initial-state construction, the
//! velocity-Verlet step, ensemble-level temperature and energy
//! readings, thermostat dispatch over whole ensembles, and the
//! fixed-step production loop emitting the per-step scalar record
//! series.

use vstd::prelude::*;
use crate::fixed::{in_range, s_add, sat_add, MAXF, SCALE};
use crate::forces::{
    compute_pressure_particles, compute_forces_particles, kinetic_energy_total, s_forces_total,
    s_ke_acc, s_temperature, s_total_energy, s_zeroed, zero_forces, COUNT_MAX,
};
use crate::molecule::{
    apply_bonded_forces_and_energy, s_bond_energy_acc, s_bonds_applied, v3_to_vec, Bond, System,
};
use crate::particle::{all_wf, s_accel, s_half_kick, v3_times, Particle};
use crate::pbc::{pbc_update, s_wrap_pos, valid_length};
use crate::thermostat::{
    apply_thermostat_berendsen_particles, apply_thermostat_coupling, apply_thermostat_particles,
    berendsen_post, coupling_wf, simple_rescale_post, ThermostatCoupling,
};
use crate::vec3::{v3_add, Vec3};

verus! {

/// The simulation state: bare particles or a set of molecular systems.
pub enum InitOutput {
    Particles(Vec<Particle>),
    Systems(Vec<System>),
}

/// Which kind of initial state to build.
pub enum InitMode {
    Atoms,
    Molecules,
}

/// The running energy summary of a production run.
#[derive(Clone, Copy, Debug, PartialEq, Eq, Structural)]
pub struct SimulationSummary {
    pub energy: i64,
}

/// One per-step scalar record: the time-series contract with the
/// post-processing collaborators.
#[derive(Clone, Copy, Debug, PartialEq, Eq, Structural)]
pub struct StepRecord {
    pub kinetic_energy: i64,
    pub potential_energy: i64,
    pub total_energy: i64,
    pub temperature: i64,
    pub pressure: i64,
}

/// Whether a simulation state is well-formed.
pub open spec fn init_output_wf(s: InitOutput) -> bool {
    match s {
        InitOutput::Particles(ps) => all_wf(ps@) && ps@.len() <= COUNT_MAX as int,
        InitOutput::Systems(ss) => all_systems_wf(ss@),
    }
}

/// Whether every system of a sequence is well-formed and small enough.
pub open spec fn all_systems_wf(ss: Seq<System>) -> bool {
    ss.len() <= COUNT_MAX as int && forall|i: int|
        0 <= i < ss.len() ==> (#[trigger] ss[i]).wf() && ss[i].atoms@.len() <= COUNT_MAX as int
}

/// The particle sequence after the first velocity half-kick of a step,
/// from the forces of the previous step.
pub open spec fn s_half_kicked(ps: Seq<Particle>, dt: int) -> Seq<Particle> {
    ps.map_values(
        |p: Particle|
            Particle {
                velocity: v3_to_vec(
                    s_half_kick(p.velocity.v(), s_accel(p.force.v(), p.mass as int), dt),
                ),
                ..p
            },
    )
}

/// The particle sequence after the position drift `x += v dt`.
pub open spec fn s_drifted(ps: Seq<Particle>, dt: int) -> Seq<Particle> {
    ps.map_values(
        |p: Particle|
            Particle {
                position: v3_to_vec(v3_add(p.position.v(), v3_times(p.velocity.v(), dt))),
                ..p
            },
    )
}

/// The particle sequence with every position wrapped into the box.
pub open spec fn s_wrapped_seq(ps: Seq<Particle>, l: int) -> Seq<Particle> {
    ps.map_values(
        |p: Particle| Particle { position: v3_to_vec(s_wrap_pos(p.position.v(), l)), ..p },
    )
}

/// The particle sequence with every force accumulator replaced by the
/// full Lennard-Jones pair force at the current positions.
pub open spec fn s_forces_assigned(ps: Seq<Particle>, l: int) -> Seq<Particle> {
    Seq::new(ps.len(), |k: int| Particle { force: v3_to_vec(s_forces_total(ps, l, k)), ..ps[k] })
}

/// One full velocity-Verlet step at fixed volume: half-kick from the
/// previous step's forces, position drift, periodic wrap, full force
/// recomputation at the new positions, and the second half-kick from
/// the new forces.  The force recomputation stands strictly between
/// the two half-kicks, so each kick consumes forces that match the
/// positions in effect at that kick.
pub open spec fn s_nve_step(ps: Seq<Particle>, l: int, dt: int) -> Seq<Particle> {
    let kicked = s_half_kicked(ps, dt);
    let drifted = s_drifted(kicked, dt);
    let wrapped = s_wrapped_seq(drifted, l);
    let forced = s_forces_assigned(wrapped, l);
    s_half_kicked(forced, dt)
}

/// Applies the first (or second) velocity half-kick to every particle
/// from the forces currently stored on it.
pub fn half_kick_all(particles: &mut Vec<Particle>, dt: i64)
    requires
        all_wf(old(particles)@),
        in_range(dt as int),
    ensures
        final(particles)@ == s_half_kicked(old(particles)@, dt as int),
        all_wf(final(particles)@),
        final(particles)@.len() == old(particles)@.len(),
{
    let n = particles.len();
    let mut i: usize = 0;
    while i < n
        invariant
            n == particles@.len(),
            n == old(particles)@.len(),
            i <= n,
            in_range(dt as int),
            all_wf(particles@),
            forall|k: int|
                0 <= k < i ==> #[trigger] particles@[k] == s_half_kicked(old(particles)@, dt as int)[k],
            forall|k: int| i <= k < n ==> #[trigger] particles@[k] == old(particles)@[k],
        decreases n - i,
    {
        proof {
            assert(particles@[i as int].wf());
        }
        let ghost pre = particles@;
        let a = particles[i].accel();
        let mut p = particles[i];
        p.update_velocity_verlet(a, dt);
        particles[i] = p;
        proof {
            assert(particles@[i as int] == s_half_kicked(old(particles)@, dt as int)[i as int]);
            assert forall|k: int| 0 <= k < n implies (#[trigger] particles@[k]).wf() by {
                if k != i as int {
                    assert(particles@[k] == pre[k]);
                    assert(pre[k].wf());
                }
            }
        }
        i += 1;
    }
    proof {
        assert(particles@ =~= s_half_kicked(old(particles)@, dt as int));
    }
}

/// Drifts every position by `v dt` at the current (half-kicked)
/// velocities.
pub fn drift_all(particles: &mut Vec<Particle>, dt: i64)
    requires
        all_wf(old(particles)@),
        in_range(dt as int),
    ensures
        final(particles)@ == s_drifted(old(particles)@, dt as int),
        all_wf(final(particles)@),
        final(particles)@.len() == old(particles)@.len(),
{
    let n = particles.len();
    let mut i: usize = 0;
    while i < n
        invariant
            n == particles@.len(),
            n == old(particles)@.len(),
            i <= n,
            in_range(dt as int),
            all_wf(particles@),
            forall|k: int|
                0 <= k < i ==> #[trigger] particles@[k] == s_drifted(old(particles)@, dt as int)[k],
            forall|k: int| i <= k < n ==> #[trigger] particles@[k] == old(particles)@[k],
        decreases n - i,
    {
        proof {
            assert(particles@[i as int].wf());
        }
        let ghost pre = particles@;
        let step = particles[i].velocity.scaled(dt);
        let np = particles[i].position.plus(step);
        particles[i].position = np;
        proof {
            assert(particles@[i as int] == s_drifted(old(particles)@, dt as int)[i as int]);
            assert forall|k: int| 0 <= k < n implies (#[trigger] particles@[k]).wf() by {
                if k != i as int {
                    assert(particles@[k] == pre[k]);
                    assert(pre[k].wf());
                } else {
                    assert(particles@[k].position.wf());
                    assert(particles@[k].velocity == pre[k].velocity);
                    assert(particles@[k].force == pre[k].force);
                    assert(particles@[k].mass == pre[k].mass);
                    assert(particles@[k].lj_parameters == pre[k].lj_parameters);
                    assert(particles@[k].energy == pre[k].energy);
                    assert(particles@[k].charge == pre[k].charge);
                    assert(particles@[k].atom_type == pre[k].atom_type);
                }
            }
        }
        i += 1;
    }
    proof {
        assert(particles@ =~= s_drifted(old(particles)@, dt as int));
    }
}

/// One velocity-Verlet step on a bare particle array, exactly the
/// five-stage sequence of `s_nve_step`.
pub fn nve_step_particles(particles: &mut Vec<Particle>, dt: i64, box_length: i64)
    requires
        all_wf(old(particles)@),
        valid_length(box_length as int),
        in_range(dt as int),
    ensures
        final(particles)@ == s_nve_step(old(particles)@, box_length as int, dt as int),
        all_wf(final(particles)@),
        final(particles)@.len() == old(particles)@.len(),
{
    half_kick_all(particles, dt);
    drift_all(particles, dt);
    let ghost before_wrap = particles@;
    pbc_update(particles, box_length);
    proof {
        assert(particles@ =~= s_wrapped_seq(before_wrap, box_length as int));
    }
    let ghost wrapped = particles@;
    compute_forces_particles(particles, box_length);
    proof {
        assert(particles@ =~= crate::driver::s_forces_assigned(wrapped, box_length as int));
    }
    half_kick_all(particles, dt);
}

/// The harmonic bond force field applied on top of freshly zeroed
/// force accumulators, returning the total bond energy.
pub fn compute_forces_system(atoms: &mut Vec<Particle>, bonds: &Vec<Bond>, box_length: i64) -> (e:
    i64)
    requires
        all_wf(old(atoms)@),
        valid_length(box_length as int),
        forall|t: int|
            0 <= t < bonds@.len() ==> (#[trigger] bonds@[t]).wf() && bonds@[t].atom1 < old(
                atoms,
            )@.len() && bonds@[t].atom2 < old(atoms)@.len(),
    ensures
        final(atoms)@.len() == old(atoms)@.len(),
        all_wf(final(atoms)@),
        final(atoms)@ == s_bonds_applied(
            s_zeroed(old(atoms)@),
            bonds@,
            box_length as int,
            bonds@.len() as int,
        ),
        e as int == s_bond_energy_acc(
            s_zeroed(old(atoms)@),
            bonds@,
            box_length as int,
            bonds@.len() as int,
        ),
{
    zero_forces(atoms);
    apply_bonded_forces_and_energy(atoms, bonds, box_length)
}

/// An element-wise copy of a vector of copyable values.
fn copied_vec<T: Copy>(v: &Vec<T>) -> (r: Vec<T>)
    ensures
        r@ == v@,
{
    let mut r: Vec<T> = Vec::new();
    let n = v.len();
    let mut i: usize = 0;
    while i < n
        invariant
            n == v@.len(),
            i <= n,
            r@ == v@.take(i as int),
        decreases n - i,
    {
        r.push(v[i]);
        proof {
            assert(r@ =~= v@.take(i as int + 1));
        }
        i += 1;
    }
    proof {
        assert(r@ =~= v@);
    }
    r
}

/// A field-by-field copy of a molecular system.
pub fn clone_system(s: &System) -> (r: System)
    ensures
        r.atoms@ == s.atoms@,
        r.bonds@ == s.bonds@,
        r.angles@ == s.angles@,
        r.dihedrals@ == s.dihedrals@,
        r.impropers@ == s.impropers@,
{
    System {
        atoms: copied_vec(&s.atoms),
        bonds: copied_vec(&s.bonds),
        angles: copied_vec(&s.angles),
        dihedrals: copied_vec(&s.dihedrals),
        impropers: copied_vec(&s.impropers),
    }
}

/// Builds the requested number of independent copies of a molecular
/// system as a simulation state.
pub fn create_systems(system: &System, number_of_molecules: i32) -> (r: InitOutput)
    ensures
        r is Systems,
        r->Systems_0@.len() == if number_of_molecules <= 0 {
            0int
        } else {
            number_of_molecules as int
        },
        forall|i: int|
            0 <= i < r->Systems_0@.len() ==> (#[trigger] r->Systems_0@[i]).atoms@ == system.atoms@
                && r->Systems_0@[i].bonds@ == system.bonds@,
{
    let mut molecules: Vec<System> = Vec::new();
    let mut made: i32 = 0;
    while made < number_of_molecules
        invariant
            0 <= made,
            number_of_molecules > 0 ==> made <= number_of_molecules,
            number_of_molecules <= 0 ==> made == 0,
            molecules@.len() == made as int,
            forall|i: int|
                0 <= i < molecules@.len() ==> (#[trigger] molecules@[i]).atoms@ == system.atoms@
                    && molecules@[i].bonds@ == system.bonds@,
        decreases number_of_molecules - made,
    {
        molecules.push(clone_system(system));
        made = made + 1;
    }
    InitOutput::Systems(molecules)
}

/// Whether an initial configuration is accepted: a representable atom
/// count, a nonnegative temperature, a positive mass and a positive
/// box extent.
pub open spec fn s_init_valid(n: int, temp: int, mass: int, box_dim_max: int) -> bool {
    0 <= n <= COUNT_MAX as int && 0 <= temp <= MAXF as int && 0 < mass <= MAXF as int && 0
        < box_dim_max <= crate::pbc::LEN_MAX as int
}

/// The fixed shape of one freshly initialized particle: identity by
/// index, the configured mass, default unit Lennard-Jones parameters,
/// a zero force accumulator, a position inside `[0, box_dim_max)` on
/// every axis, zero energy, type and charge, and a Maxwell-Boltzmann
/// resampled velocity at scale `sqrt(temp / mass)`.
pub open spec fn init_particle_ok(p: Particle, k: int, temp: int, mass: int, box_dim_max: int)
    -> bool {
    &&& p.id as int == k
    &&& p.mass as int == mass
    &&& p.force.v() == crate::vec3::v3_zero()
    &&& p.lj_parameters == (crate::particle::LJParameters {
        epsilon: 1_000_000i64,
        sigma: 1_000_000i64,
        number_of_atoms: 3i32,
    })
    &&& 0 <= p.position.x < box_dim_max
    &&& 0 <= p.position.y < box_dim_max
    &&& 0 <= p.position.z < box_dim_max
    &&& p.energy == 0
    &&& p.atom_type == 0
    &&& p.charge == 0
    &&& crate::rng::is_mb_resample(p.velocity, crate::rng::s_mb_sigma(temp, mass))
}

/// Builds the initial simulation state: `number_of_atoms` particles
/// placed uniformly at random in the box with Maxwell-Boltzmann
/// velocities at the given temperature, or that many copies of the
/// two-atom hydrogen system.  An invalid configuration is reported as
/// a constructed error value and the run never starts.
pub fn create_atoms_with_set_positions_and_velocities(
    number_of_atoms: i64,
    temp: i64,
    mass: i64,
    v_max: i64,
    box_dim_max: i64,
    use_atom: bool,
    rng: &mut rand::rngs::StdRng,
) -> (r: Result<InitOutput, String>)
    ensures
        r is Ok <==> s_init_valid(
            number_of_atoms as int,
            temp as int,
            mass as int,
            box_dim_max as int,
        ),
        r is Ok ==> init_output_wf(r->Ok_0) && (!use_atom ==> r->Ok_0 is Particles
            && r->Ok_0->Particles_0@.len() == number_of_atoms as int) && (use_atom
            ==> r->Ok_0 is Systems && r->Ok_0->Systems_0@.len() == number_of_atoms as int),
        r is Ok && !use_atom ==> forall|k: int|
            0 <= k < number_of_atoms as int ==> init_particle_ok(
                #[trigger] r->Ok_0->Particles_0@[k],
                k,
                temp as int,
                mass as int,
                box_dim_max as int,
            ),
        r is Ok && use_atom ==> forall|i: int|
            0 <= i < number_of_atoms as int ==> crate::molecule::is_h2_template(
                #[trigger] r->Ok_0->Systems_0@[i],
            ),
{
    if !(0 <= number_of_atoms && number_of_atoms <= COUNT_MAX as i64) || !(0 <= temp && temp
        <= MAXF) || !(0 < mass && mass <= MAXF) || !(0 < box_dim_max && box_dim_max
        <= crate::pbc::LEN_MAX) {
        return Err("invalid initial configuration".to_string());
    }
    if !use_atom {
        let mut vector_positions: Vec<Particle> = Vec::new();
        let mut index: i64 = 0;
        while index < number_of_atoms
            invariant
                0 <= index <= number_of_atoms <= COUNT_MAX as i64,
                0 <= temp <= MAXF,
                0 < mass <= MAXF,
                0 < box_dim_max <= crate::pbc::LEN_MAX,
                vector_positions@.len() == index as int,
                all_wf(vector_positions@),
                forall|k: int|
                    0 <= k < index as int ==> init_particle_ok(
                        #[trigger] vector_positions@[k],
                        k,
                        temp as int,
                        mass as int,
                        box_dim_max as int,
                    ),
            decreases number_of_atoms - index,
        {
            let px = random_coordinate(rng, box_dim_max);
            let py = random_coordinate(rng, box_dim_max);
            let pz = random_coordinate(rng, box_dim_max);
            let mut particle = Particle {
                id: index as usize,
                position: Vec3 { x: px, y: py, z: pz },
                velocity: Vec3 { x: 0, y: 0, z: 0 },
                force: Vec3 { x: 0, y: 0, z: 0 },
                lj_parameters: crate::particle::LJParameters {
                    epsilon: SCALE,
                    sigma: SCALE,
                    number_of_atoms: 3,
                },
                mass,
                energy: 0,
                atom_type: 0,
                charge: 0,
            };
            particle.maxwellboltzmannvelocity(temp, mass, v_max, rng);
            proof {
                assert(init_particle_ok(
                    particle,
                    index as int,
                    temp as int,
                    mass as int,
                    box_dim_max as int,
                ));
            }
            vector_positions.push(particle);
            index = index + 1;
        }
        Ok(InitOutput::Particles(vector_positions))
    } else {
        let mut vector_system_positions: Vec<System> = Vec::new();
        let mut index: i64 = 0;
        while index < number_of_atoms
            invariant
                0 <= index <= number_of_atoms <= COUNT_MAX as i64,
                vector_system_positions@.len() == index as int,
                all_systems_wf(vector_system_positions@),
                forall|i: int|
                    0 <= i < index as int ==> crate::molecule::is_h2_template(
                        #[trigger] vector_system_positions@[i],
                    ),
            decreases number_of_atoms - index,
        {
            let h2_system = crate::molecule::make_h2_system();
            vector_system_positions.push(h2_system);
            index = index + 1;
        }
        Ok(InitOutput::Systems(vector_system_positions))
    }
}

/// One uniform random coordinate in `[0, extent)`.
fn random_coordinate(rng: &mut rand::rngs::StdRng, extent: i64) -> (r: i64)
    requires
        0 < extent,
    ensures
        0 <= r < extent,
{
    let u = crate::rng::next_random_u64(rng);
    (u % (extent as u64)) as i64
}

/// One velocity-Verlet step of the whole state: for bare particles the
/// exact five-stage sequence of `s_nve_step`; for molecular systems the
/// same sequence per system with bonded instead of nonbonded forces.
pub fn run_verlet_update_nve(state: &mut InitOutput, dt: i64, box_length: i64)
    requires
        init_output_wf(*old(state)),
        valid_length(box_length as int),
        in_range(dt as int),
    ensures
        init_output_wf(*final(state)),
        (*old(state)) is Particles ==> (*final(state)) is Particles
            && (*final(state))->Particles_0@ == s_nve_step(
            (*old(state))->Particles_0@,
            box_length as int,
            dt as int,
        ),
        (*old(state)) is Systems ==> (*final(state)) is Systems
            && (*final(state))->Systems_0@.len() == (*old(state))->Systems_0@.len()
            && forall|q: int|
            0 <= q < (*old(state))->Systems_0@.len() ==> {
                let pre = (*old(state))->Systems_0@[q];
                let post = (#[trigger] (*final(state))->Systems_0@[q]);
                &&& post.atoms@ == s_system_step(pre, box_length as int, dt as int)
                &&& post.bonds@ == pre.bonds@
                &&& post.angles@ == pre.angles@
                &&& post.dihedrals@ == pre.dihedrals@
                &&& post.impropers@ == pre.impropers@
            },
{
    match state {
        InitOutput::Particles(particles) => {
            nve_step_particles(particles, dt, box_length);
        },
        InitOutput::Systems(systems) => {
            let n = systems.len();
            let mut i: usize = 0;
            while i < n
                invariant
                    n == systems@.len(),
                    n == old(state)->Systems_0@.len(),
                    i <= n,
                    valid_length(box_length as int),
                    in_range(dt as int),
                    all_systems_wf(systems@),
                    forall|q: int|
                        i as int <= q < n ==> #[trigger] systems@[q] == old(
                            state,
                        )->Systems_0@[q],
                    forall|q: int|
                        0 <= q < i as int ==> {
                            let pre = old(state)->Systems_0@[q];
                            let post = (#[trigger] systems@[q]);
                            &&& post.atoms@ == s_system_step(pre, box_length as int, dt as int)
                            &&& post.bonds@ == pre.bonds@
                            &&& post.angles@ == pre.angles@
                            &&& post.dihedrals@ == pre.dihedrals@
                            &&& post.impropers@ == pre.impropers@
                        },
                decreases n - i,
            {
                proof {
                    assert(systems@[i as int].wf());
                }
                let ghost pre_seq = systems@;
                let mut sys = systems.remove(i);
                nve_step_system(&mut sys, dt, box_length);
                let ghost newsys = sys;
                systems.insert(i, sys);
                proof {
                    lemma_remove_insert_is_update(pre_seq, i as int, newsys);
                    assert(systems@ =~= pre_seq.update(i as int, newsys));
                    assert forall|q: int| 0 <= q < n implies (#[trigger] systems@[q]).wf()
                        && systems@[q].atoms@.len() <= COUNT_MAX as int by {
                        if q != i as int {
                            assert(systems@[q] == pre_seq[q]);
                            assert(pre_seq[q].wf());
                        }
                    }
                }
                i += 1;
            }
        },
    }
}

/// One velocity-Verlet step of a molecular system: the atoms after the
/// half-kick from the stored forces, the drift, the periodic wrap, the
/// harmonic bond forces rebuilt on zeroed accumulators, and the second
/// half-kick from them.
pub open spec fn s_system_step(sys: System, l: int, dt: int) -> Seq<Particle> {
    let kicked = s_half_kicked(sys.atoms@, dt);
    let drifted = s_drifted(kicked, dt);
    let wrapped = s_wrapped_seq(drifted, l);
    let forced = s_bonds_applied(s_zeroed(wrapped), sys.bonds@, l, sys.bonds@.len() as int);
    s_half_kicked(forced, dt)
}

/// One velocity-Verlet step of a molecular system: half-kick, drift,
/// wrap, bonded force recomputation, half-kick, exactly the five-stage
/// sequence of `s_system_step`; the bonded-term lists are untouched.
pub fn nve_step_system(sys: &mut System, dt: i64, box_length: i64)
    requires
        old(sys).wf(),
        valid_length(box_length as int),
        in_range(dt as int),
        old(sys).atoms@.len() <= COUNT_MAX as int,
    ensures
        final(sys).wf(),
        final(sys).atoms@.len() == old(sys).atoms@.len(),
        final(sys).atoms@ == s_system_step(*old(sys), box_length as int, dt as int),
        final(sys).bonds@ == old(sys).bonds@,
        final(sys).angles@ == old(sys).angles@,
        final(sys).dihedrals@ == old(sys).dihedrals@,
        final(sys).impropers@ == old(sys).impropers@,
{
    half_kick_all(&mut sys.atoms, dt);
    drift_all(&mut sys.atoms, dt);
    let ghost before_wrap = sys.atoms@;
    pbc_update(&mut sys.atoms, box_length);
    proof {
        assert(sys.atoms@ =~= s_wrapped_seq(before_wrap, box_length as int));
    }
    let _bond_energy = compute_forces_system(&mut sys.atoms, &sys.bonds, box_length);
    half_kick_all(&mut sys.atoms, dt);
}

/// The accumulated kinetic energy of the first `i` systems.
pub open spec fn s_systems_ke(ss: Seq<System>, i: int) -> int
    decreases i,
{
    if i <= 0 {
        0
    } else {
        s_add(s_systems_ke(ss, i - 1), s_ke_acc(ss[i - 1].atoms@, ss[i - 1].atoms@.len() as int))
    }
}

/// The total atom count of the first `i` systems.
pub open spec fn s_systems_atom_count(ss: Seq<System>, i: int) -> int
    decreases i,
{
    if i <= 0 {
        0
    } else {
        s_systems_atom_count(ss, i - 1) + ss[i - 1].atoms@.len()
    }
}

/// The accumulated pair potential energy of the first `i` systems,
/// each system's sites interacting only among themselves.
pub open spec fn s_systems_pe(ss: Seq<System>, l: int, i: int) -> int
    decreases i,
{
    if i <= 0 {
        0
    } else {
        s_add(s_systems_pe(ss, l, i - 1), s_total_energy(ss[i - 1].atoms@, l))
    }
}

/// The instantaneous temperature of a whole state for a configured
/// degrees-of-freedom count: `2 KE / dof`, zero for a zero count or an
/// empty ensemble.
pub open spec fn s_state_temperature(s: InitOutput, dof: int) -> int {
    match s {
        InitOutput::Particles(ps) => s_temperature(ps@, dof),
        InitOutput::Systems(ss) => if dof <= 0 {
            0
        } else if s_systems_atom_count(ss@, ss@.len() as int) == 0 {
            0
        } else {
            crate::fixed::clip((2 * s_systems_ke(ss@, ss@.len() as int)) / dof)
        },
    }
}

/// The instantaneous temperature of the state, from its total kinetic
/// energy and the configured degrees-of-freedom count.
pub fn compute_temperature(state: &mut InitOutput, dof: usize) -> (t: i64)
    requires
        init_output_wf(*old(state)),
    ensures
        *final(state) == *old(state),
        t as int == s_state_temperature(*old(state), dof as int),
        0 <= t <= MAXF,
{
    match state {
        InitOutput::Particles(p) => crate::forces::compute_temperature_particles(p, dof),
        InitOutput::Systems(systems) => {
            if dof == 0 {
                return 0;
            }
            let n = systems.len();
            let ghost ss0 = systems@;
            let mut total_ke: i64 = 0;
            let mut total_atoms: u64 = 0;
            let mut i: usize = 0;
            while i < n
                invariant
                    n == systems@.len(),
                    systems@ == ss0,
                    all_systems_wf(ss0),
                    i <= n,
                    n <= COUNT_MAX,
                    0 <= total_ke <= MAXF,
                    total_ke as int == s_systems_ke(ss0, i as int),
                    total_atoms as int == s_systems_atom_count(ss0, i as int),
                    total_atoms <= (i as u64) * 1_000_000_000u64,
                decreases n - i,
            {
                proof {
                    assert(systems@[i as int].wf());
                    assert(systems@[i as int].atoms@.len() <= COUNT_MAX as int);
                }
                let ke = kinetic_energy_total(&systems[i].atoms);
                total_ke = sat_add(total_ke, ke);
                proof {
                    assert((i as u64) * 1_000_000_000u64 <= (n as u64) * 1_000_000_000u64
                        && (i as u64 + 1) * 1_000_000_000u64 == (i as u64) * 1_000_000_000u64
                        + 1_000_000_000u64 && (n as u64) * 1_000_000_000u64
                        <= 1_000_000_000_000_000_000u64) by (nonlinear_arith)
                        requires
                            0 <= i as int <= n as int,
                            n as int <= 1_000_000_000int,
                    ;
                }
                total_atoms = total_atoms + (systems[i].atoms.len() as u64);
                i += 1;
            }
            if total_atoms == 0 {
                return 0;
            }
            let twice: u64 = 2 * (total_ke as u64);
            let t: u64 = twice / (dof as u64);
            proof {
                vstd::arithmetic::div_mod::lemma_div_pos_is_pos(2 * total_ke as int, dof as int);
                crate::fixed::lemma_div_range(2 * total_ke as int, dof as int, 2 * MAXF as int);
            }
            if t > MAXF as u64 {
                MAXF
            } else {
                t as i64
            }
        },
    }
}

/// Removing an element and inserting a replacement at the same
/// position is an update of that position.
proof fn lemma_remove_insert_is_update<T>(s: Seq<T>, i: int, x: T)
    requires
        0 <= i < s.len(),
    ensures
        s.remove(i).insert(i, x) =~= s.update(i, x),
{
}

/// One plain velocity-rescaling thermostat step over the whole state:
/// bare particles are rescaled as one ensemble, molecular systems each
/// independently.
pub fn apply_thermostat(state: &mut InitOutput, target_temperature: i64)
    requires
        init_output_wf(*old(state)),
        0 <= target_temperature <= MAXF,
    ensures
        init_output_wf(*final(state)),
        (*old(state)) is Particles ==> (*final(state)) is Particles && simple_rescale_post(
            (*old(state))->Particles_0@,
            (*final(state))->Particles_0@,
            target_temperature as int,
        ),
        (*old(state)) is Systems ==> (*final(state)) is Systems
            && (*final(state))->Systems_0@.len() == (*old(state))->Systems_0@.len()
            && forall|q: int|
            0 <= q < (*old(state))->Systems_0@.len() ==> {
                let pre = (*old(state))->Systems_0@[q];
                let post = (#[trigger] (*final(state))->Systems_0@[q]);
                &&& simple_rescale_post(pre.atoms@, post.atoms@, target_temperature as int)
                &&& post.bonds@ == pre.bonds@
                &&& post.angles@ == pre.angles@
                &&& post.dihedrals@ == pre.dihedrals@
                &&& post.impropers@ == pre.impropers@
            },
{
    match state {
        InitOutput::Particles(particles) => {
            apply_thermostat_particles(particles, target_temperature);
        },
        InitOutput::Systems(systems) => {
            let n = systems.len();
            let mut i: usize = 0;
            while i < n
                invariant
                    n == systems@.len(),
                    n == old(state)->Systems_0@.len(),
                    i <= n,
                    0 <= target_temperature <= MAXF,
                    all_systems_wf(systems@),
                    forall|q: int|
                        i as int <= q < n ==> #[trigger] systems@[q] == old(
                            state,
                        )->Systems_0@[q],
                    forall|q: int|
                        0 <= q < i as int ==> {
                            let pre = old(state)->Systems_0@[q];
                            let post = (#[trigger] systems@[q]);
                            &&& simple_rescale_post(
                                pre.atoms@,
                                post.atoms@,
                                target_temperature as int,
                            )
                            &&& post.bonds@ == pre.bonds@
                            &&& post.angles@ == pre.angles@
                            &&& post.dihedrals@ == pre.dihedrals@
                            &&& post.impropers@ == pre.impropers@
                        },
                decreases n - i,
            {
                proof {
                    assert(systems@[i as int].wf());
                }
                let ghost pre_seq = systems@;
                let mut sys = systems.remove(i);
                apply_thermostat_particles(&mut sys.atoms, target_temperature);
                let ghost newsys = sys;
                systems.insert(i, sys);
                proof {
                    lemma_remove_insert_is_update(pre_seq, i as int, newsys);
                    assert(systems@ =~= pre_seq.update(i as int, newsys));
                    assert forall|q: int| 0 <= q < n implies (#[trigger] systems@[q]).wf()
                        && systems@[q].atoms@.len() <= COUNT_MAX as int by {
                        if q != i as int {
                            assert(systems@[q] == pre_seq[q]);
                            assert(pre_seq[q].wf());
                        }
                    }
                }
                i += 1;
            }
        },
    }
}

/// One Berendsen weak-coupling step over the whole state: bare
/// particles as one ensemble, molecular systems each independently.
pub fn apply_thermostat_berendsen(
    state: &mut InitOutput,
    target_temperature: i64,
    tau: i64,
    dt: i64,
)
    requires
        init_output_wf(*old(state)),
        in_range(target_temperature as int),
        in_range(tau as int),
        in_range(dt as int),
    ensures
        init_output_wf(*final(state)),
        (*old(state)) is Particles ==> (*final(state)) is Particles && berendsen_post(
            (*old(state))->Particles_0@,
            (*final(state))->Particles_0@,
            target_temperature as int,
            tau as int,
            dt as int,
        ),
        (*old(state)) is Systems ==> (*final(state)) is Systems
            && (*final(state))->Systems_0@.len() == (*old(state))->Systems_0@.len()
            && forall|q: int|
            0 <= q < (*old(state))->Systems_0@.len() ==> {
                let pre = (*old(state))->Systems_0@[q];
                let post = (#[trigger] (*final(state))->Systems_0@[q]);
                &&& berendsen_post(
                    pre.atoms@,
                    post.atoms@,
                    target_temperature as int,
                    tau as int,
                    dt as int,
                )
                &&& post.bonds@ == pre.bonds@
                &&& post.angles@ == pre.angles@
                &&& post.dihedrals@ == pre.dihedrals@
                &&& post.impropers@ == pre.impropers@
            },
{
    match state {
        InitOutput::Particles(particles) => {
            apply_thermostat_berendsen_particles(particles, target_temperature, tau, dt);
        },
        InitOutput::Systems(systems) => {
            let n = systems.len();
            let mut i: usize = 0;
            while i < n
                invariant
                    n == systems@.len(),
                    n == old(state)->Systems_0@.len(),
                    i <= n,
                    in_range(target_temperature as int),
                    in_range(tau as int),
                    in_range(dt as int),
                    all_systems_wf(systems@),
                    forall|q: int|
                        i as int <= q < n ==> #[trigger] systems@[q] == old(
                            state,
                        )->Systems_0@[q],
                    forall|q: int|
                        0 <= q < i as int ==> {
                            let pre = old(state)->Systems_0@[q];
                            let post = (#[trigger] systems@[q]);
                            &&& berendsen_post(
                                pre.atoms@,
                                post.atoms@,
                                target_temperature as int,
                                tau as int,
                                dt as int,
                            )
                            &&& post.bonds@ == pre.bonds@
                            &&& post.angles@ == pre.angles@
                            &&& post.dihedrals@ == pre.dihedrals@
                            &&& post.impropers@ == pre.impropers@
                        },
                decreases n - i,
            {
                proof {
                    assert(systems@[i as int].wf());
                }
                let ghost pre_seq = systems@;
                let mut sys = systems.remove(i);
                apply_thermostat_berendsen_particles(&mut sys.atoms, target_temperature, tau, dt);
                let ghost newsys = sys;
                systems.insert(i, sys);
                proof {
                    lemma_remove_insert_is_update(pre_seq, i as int, newsys);
                    assert(systems@ =~= pre_seq.update(i as int, newsys));
                    assert forall|q: int| 0 <= q < n implies (#[trigger] systems@[q]).wf()
                        && systems@[q].atoms@.len() <= COUNT_MAX as int by {
                        if q != i as int {
                            assert(systems@[q] == pre_seq[q]);
                            assert(pre_seq[q].wf());
                        }
                    }
                }
                i += 1;
            }
        },
    }
}

/// The total kinetic plus pair potential energy of a whole state.
pub open spec fn s_state_total_energy(s: InitOutput, l: int) -> int {
    match s {
        InitOutput::Particles(ps) => s_add(
            s_ke_acc(ps@, ps@.len() as int),
            s_total_energy(ps@, l),
        ),
        InitOutput::Systems(ss) => s_add(
            s_systems_ke(ss@, ss@.len() as int),
            s_systems_pe(ss@, l, ss@.len() as int),
        ),
    }
}

/// The total kinetic plus Lennard-Jones potential energy of the state;
/// the state itself is untouched.  (The record series carries the
/// value; nothing is written anywhere.)
pub fn compute_total_energy_and_print(state: &mut InitOutput, box_length: i64) -> (e: i64)
    requires
        init_output_wf(*old(state)),
        valid_length(box_length as int),
    ensures
        *final(state) == *old(state),
        e as int == s_state_total_energy(*old(state), box_length as int),
        in_range(e as int),
{
    match state {
        InitOutput::Particles(particles) => {
            let ke = kinetic_energy_total(particles);
            let pe = crate::forces::pair_energy_total(particles, box_length);
            sat_add(ke, pe)
        },
        InitOutput::Systems(systems) => {
            let n = systems.len();
            let ghost ss0 = systems@;
            let mut ke: i64 = 0;
            let mut pe: i64 = 0;
            let mut i: usize = 0;
            while i < n
                invariant
                    n == systems@.len(),
                    systems@ == ss0,
                    all_systems_wf(ss0),
                    i <= n,
                    valid_length(box_length as int),
                    in_range(ke as int),
                    in_range(pe as int),
                    ke as int == s_systems_ke(ss0, i as int),
                    pe as int == s_systems_pe(ss0, box_length as int, i as int),
                decreases n - i,
            {
                proof {
                    assert(systems@[i as int].wf());
                }
                let k = kinetic_energy_total(&systems[i].atoms);
                ke = sat_add(ke, k);
                let p = crate::forces::pair_energy_total(&systems[i].atoms, box_length);
                pe = sat_add(pe, p);
                i += 1;
            }
            sat_add(ke, pe)
        },
    }
}

/// One scalar record of the current particle ensemble.
/// The five diagnostics of a particle ensemble at box edge `l`, as the
/// record the step loop emits: kinetic and pair potential energy,
/// their saturating sum, temperature at `3 N` degrees of freedom, and
/// the virial-route pressure.
pub open spec fn s_step_record(ps: Seq<Particle>, l: int) -> StepRecord {
    let ke = s_ke_acc(ps, ps.len() as int);
    let pe = s_total_energy(ps, l);
    StepRecord {
        kinetic_energy: ke as i64,
        potential_energy: pe as i64,
        total_energy: s_add(ke, pe) as i64,
        temperature: s_temperature(ps, 3 * ps.len() as int) as i64,
        pressure: crate::forces::s_pressure(ps, l) as i64,
    }
}

fn record_particles(particles: &Vec<Particle>, box_length: i64) -> (r: StepRecord)
    requires
        all_wf(particles@),
        particles@.len() <= COUNT_MAX,
        valid_length(box_length as int),
    ensures
        r == s_step_record(particles@, box_length as int),
        r.kinetic_energy as int == s_ke_acc(particles@, particles@.len() as int),
        r.potential_energy as int == s_total_energy(particles@, box_length as int),
        r.total_energy as int == s_add(r.kinetic_energy as int, r.potential_energy as int),
        r.temperature as int == s_temperature(particles@, 3 * particles@.len() as int),
        r.pressure as int == crate::forces::s_pressure(particles@, box_length as int),
{
    let ke = kinetic_energy_total(particles);
    let pe = crate::forces::pair_energy_total(particles, box_length);
    let te = sat_add(ke, pe);
    let dof: usize = 3 * particles.len();
    let t = crate::forces::compute_temperature_particles(particles, dof);
    let p = compute_pressure_particles(particles, box_length);
    StepRecord { kinetic_energy: ke, potential_energy: pe, total_energy: te, temperature: t, pressure: p }
}

/// The particle sequence after `k` velocity-Verlet steps from forces
/// matching the initial positions.
pub open spec fn s_nve_iter(ps: Seq<Particle>, l: int, dt: int, k: int) -> Seq<Particle>
    decreases k,
{
    if k <= 0 {
        s_forces_assigned(ps, l)
    } else {
        s_nve_step(s_nve_iter(ps, l, dt, k - 1), l, dt)
    }
}

/// Runs a fixed number of velocity-Verlet steps on a bare particle
/// ensemble with the selected temperature coupling applied after each
/// step, and returns the per-step scalar record series.  Forces are
/// evaluated once before the loop so that the first half-kick consumes
/// forces matching the initial positions.  Without temperature
/// coupling the run is exactly the iterated velocity-Verlet step.
pub fn run_md_nve_particles(
    particles: &mut Vec<Particle>,
    number_of_steps: i32,
    dt: i64,
    box_length: i64,
    thermostat: &ThermostatCoupling,
    rng: &mut rand::rngs::StdRng,
) -> (records: Vec<StepRecord>)
    requires
        all_wf(old(particles)@),
        old(particles)@.len() <= COUNT_MAX,
        valid_length(box_length as int),
        in_range(dt as int),
        coupling_wf(*thermostat),
    ensures
        all_wf(final(particles)@),
        final(particles)@.len() == old(particles)@.len(),
        records@.len() == if number_of_steps <= 0 {
            0int
        } else {
            number_of_steps as int
        },
        (*thermostat) is Disabled ==> final(particles)@ == s_nve_iter(
            old(particles)@,
            box_length as int,
            dt as int,
            if number_of_steps <= 0 {
                0int
            } else {
                number_of_steps as int
            },
        ),
        (*thermostat) is Disabled ==> forall|st: int|
            0 <= st < records@.len() ==> #[trigger] records@[st] == s_step_record(
                s_nve_iter(old(particles)@, box_length as int, dt as int, st + 1),
                box_length as int,
            ),
{
    compute_forces_particles(particles, box_length);
    proof {
        assert(particles@ =~= s_forces_assigned(old(particles)@, box_length as int));
    }
    let mut xi: i64 = 0;
    let mut records: Vec<StepRecord> = Vec::new();
    let mut step: i32 = 0;
    while step < number_of_steps
        invariant
            0 <= step,
            number_of_steps > 0 ==> step <= number_of_steps,
            number_of_steps <= 0 ==> step == 0,
            records@.len() == step as int,
            all_wf(particles@),
            particles@.len() == old(particles)@.len(),
            particles@.len() <= COUNT_MAX,
            valid_length(box_length as int),
            in_range(dt as int),
            in_range(xi as int),
            coupling_wf(*thermostat),
            (*thermostat) is Disabled ==> particles@ == s_nve_iter(
                old(particles)@,
                box_length as int,
                dt as int,
                step as int,
            ),
            (*thermostat) is Disabled ==> forall|st: int|
                0 <= st < step as int ==> #[trigger] records@[st] == s_step_record(
                    s_nve_iter(old(particles)@, box_length as int, dt as int, st + 1),
                    box_length as int,
                ),
        decreases number_of_steps - step,
    {
        nve_step_particles(particles, dt, box_length);
        apply_thermostat_coupling(particles, thermostat, dt, &mut xi, rng);
        let r = record_particles(particles, box_length);
        records.push(r);
        step = step + 1;
    }
    records
}

/// Whether two systems have the same bonded topology and atom count:
/// what a production run never changes.
pub open spec fn same_topology(a: System, b: System) -> bool {
    a.atoms@.len() == b.atoms@.len() && a.bonds@ == b.bonds@ && a.angles@ == b.angles@
        && a.dihedrals@ == b.dihedrals@ && a.impropers@ == b.impropers@
}

/// Runs a fixed number of velocity-Verlet steps on a set of molecular
/// systems, each coupled independently, and returns the per-step
/// scalar record series (the pressure entry is reported for particle
/// ensembles only and is zero here).  Atom counts and every bonded
/// list are preserved, and each record's total energy is the
/// saturating sum of its kinetic and potential entries.
pub fn run_md_nve_systems(
    systems: &mut Vec<System>,
    number_of_steps: i32,
    dt: i64,
    box_length: i64,
    thermostat: &ThermostatCoupling,
    rng: &mut rand::rngs::StdRng,
) -> (records: Vec<StepRecord>)
    requires
        all_systems_wf(old(systems)@),
        valid_length(box_length as int),
        in_range(dt as int),
        coupling_wf(*thermostat),
    ensures
        all_systems_wf(final(systems)@),
        final(systems)@.len() == old(systems)@.len(),
        forall|q: int|
            0 <= q < old(systems)@.len() ==> same_topology(
                #[trigger] final(systems)@[q],
                old(systems)@[q],
            ),
        records@.len() == if number_of_steps <= 0 {
            0int
        } else {
            number_of_steps as int
        },
        forall|st: int|
            0 <= st < records@.len() ==> (#[trigger] records@[st]).total_energy as int == s_add(
                records@[st].kinetic_energy as int,
                records@[st].potential_energy as int,
            ) && records@[st].pressure == 0,
{
    let n = systems.len();
    let mut i: usize = 0;
    while i < n
        invariant
            n == systems@.len(),
            n == old(systems)@.len(),
            i <= n,
            valid_length(box_length as int),
            all_systems_wf(systems@),
            forall|q: int|
                0 <= q < n ==> same_topology(#[trigger] systems@[q], old(systems)@[q]),
        decreases n - i,
    {
        proof {
            assert(systems@[i as int].wf());
        }
        let ghost pre_seq = systems@;
        let mut sys = systems.remove(i);
        let _e = compute_forces_system(&mut sys.atoms, &sys.bonds, box_length);
        let ghost newsys = sys;
        systems.insert(i, sys);
        proof {
            lemma_remove_insert_is_update(pre_seq, i as int, newsys);
            assert(systems@ =~= pre_seq.update(i as int, newsys));
            assert forall|q: int| 0 <= q < n implies (#[trigger] systems@[q]).wf()
                && systems@[q].atoms@.len() <= COUNT_MAX as int && same_topology(
                systems@[q],
                old(systems)@[q],
            ) by {
                assert(same_topology(pre_seq[q], old(systems)@[q]));
                if q != i as int {
                    assert(systems@[q] == pre_seq[q]);
                    assert(pre_seq[q].wf());
                }
            }
        }
        i += 1;
    }
    let mut xi: i64 = 0;
    let mut records: Vec<StepRecord> = Vec::new();
    let mut step: i32 = 0;
    while step < number_of_steps
        invariant
            0 <= step,
            number_of_steps > 0 ==> step <= number_of_steps,
            number_of_steps <= 0 ==> step == 0,
            records@.len() == step as int,
            all_systems_wf(systems@),
            systems@.len() == old(systems)@.len(),
            systems@.len() <= COUNT_MAX,
            valid_length(box_length as int),
            in_range(dt as int),
            in_range(xi as int),
            coupling_wf(*thermostat),
            forall|q: int|
                0 <= q < old(systems)@.len() ==> same_topology(
                    #[trigger] systems@[q],
                    old(systems)@[q],
                ),
            forall|st: int|
                0 <= st < step as int ==> (#[trigger] records@[st]).total_energy as int == s_add(
                    records@[st].kinetic_energy as int,
                    records@[st].potential_energy as int,
                ) && records@[st].pressure == 0,
        decreases number_of_steps - step,
    {
        let m = systems.len();
        let mut j: usize = 0;
        while j < m
            invariant
                m == systems@.len(),
                m == old(systems)@.len(),
                j <= m,
                valid_length(box_length as int),
                in_range(dt as int),
                in_range(xi as int),
                coupling_wf(*thermostat),
                all_systems_wf(systems@),
                forall|q: int|
                    0 <= q < m ==> same_topology(#[trigger] systems@[q], old(systems)@[q]),
            decreases m - j,
        {
            proof {
                assert(systems@[j as int].wf());
            }
            let ghost pre_seq = systems@;
            let mut sys = systems.remove(j);
            nve_step_system(&mut sys, dt, box_length);
            apply_thermostat_coupling(&mut sys.atoms, thermostat, dt, &mut xi, rng);
            let ghost newsys = sys;
            systems.insert(j, sys);
            proof {
                lemma_remove_insert_is_update(pre_seq, j as int, newsys);
                assert(systems@ =~= pre_seq.update(j as int, newsys));
                assert forall|q: int| 0 <= q < m implies (#[trigger] systems@[q]).wf()
                    && systems@[q].atoms@.len() <= COUNT_MAX as int && same_topology(
                    systems@[q],
                    old(systems)@[q],
                ) by {
                    assert(same_topology(pre_seq[q], old(systems)@[q]));
                    if q != j as int {
                        assert(systems@[q] == pre_seq[q]);
                        assert(pre_seq[q].wf());
                    }
                }
            }
            j += 1;
        }
        let mut ke: i64 = 0;
        let mut pe: i64 = 0;
        let mut atom_count: u64 = 0;
        let mut q: usize = 0;
        while q < m
            invariant
                m == systems@.len(),
                m <= COUNT_MAX,
                q <= m,
                valid_length(box_length as int),
                all_systems_wf(systems@),
                in_range(ke as int),
                0 <= ke,
                in_range(pe as int),
                atom_count <= (q as u64) * 1_000_000_000u64,
            decreases m - q,
        {
            proof {
                assert(systems@[q as int].wf());
                assert(systems@[q as int].atoms@.len() <= COUNT_MAX as int);
                assert((q as u64) * 1_000_000_000u64 <= (m as u64) * 1_000_000_000u64
                    && (q as u64 + 1) * 1_000_000_000u64 == (q as u64) * 1_000_000_000u64
                    + 1_000_000_000u64 && (m as u64) * 1_000_000_000u64
                    <= 1_000_000_000_000_000_000u64) by (nonlinear_arith)
                    requires
                        0 <= q as int <= m as int,
                        m as int <= 1_000_000_000int,
                ;
            }
            let k = kinetic_energy_total(&systems[q].atoms);
            ke = sat_add(ke, k);
            let p = crate::forces::pair_energy_total(&systems[q].atoms, box_length);
            pe = sat_add(pe, p);
            atom_count = atom_count + (systems[q].atoms.len() as u64);
            q += 1;
        }
        let te = sat_add(ke, pe);
        let temperature: i64 = if atom_count == 0 {
            0
        } else {
            let t: u64 = (2 * (ke as u64)) / (3 * atom_count);
            proof {
                vstd::arithmetic::div_mod::lemma_div_pos_is_pos(
                    2 * ke as int,
                    3 * atom_count as int,
                );
                crate::fixed::lemma_div_range(
                    2 * ke as int,
                    3 * atom_count as int,
                    2 * MAXF as int,
                );
            }
            if t > MAXF as u64 {
                MAXF
            } else {
                t as i64
            }
        };
        records.push(
            StepRecord {
                kinetic_energy: ke,
                potential_energy: pe,
                total_energy: te,
                temperature,
                pressure: 0,
            },
        );
        step = step + 1;
    }
    records
}

/// Runs a fixed number of steps on either kind of state.
pub fn run_md_nve(
    state: &mut InitOutput,
    number_of_steps: i32,
    dt: i64,
    box_length: i64,
    thermostat: &ThermostatCoupling,
    rng: &mut rand::rngs::StdRng,
) -> (records: Vec<StepRecord>)
    requires
        init_output_wf(*old(state)),
        valid_length(box_length as int),
        in_range(dt as int),
        coupling_wf(*thermostat),
    ensures
        init_output_wf(*final(state)),
        records@.len() == if number_of_steps <= 0 {
            0int
        } else {
            number_of_steps as int
        },
        (*old(state)) is Particles ==> (*final(state)) is Particles
            && (*final(state))->Particles_0@.len() == (*old(state))->Particles_0@.len()
            && ((*thermostat) is Disabled ==> (*final(state))->Particles_0@ == s_nve_iter(
            (*old(state))->Particles_0@,
            box_length as int,
            dt as int,
            if number_of_steps <= 0 {
                0int
            } else {
                number_of_steps as int
            },
        ) && forall|st: int|
            0 <= st < records@.len() ==> #[trigger] records@[st] == s_step_record(
                s_nve_iter(
                    (*old(state))->Particles_0@,
                    box_length as int,
                    dt as int,
                    st + 1,
                ),
                box_length as int,
            )),
        (*old(state)) is Systems ==> (*final(state)) is Systems
            && (*final(state))->Systems_0@.len() == (*old(state))->Systems_0@.len() && (forall|
            q: int,
        |
            0 <= q < (*old(state))->Systems_0@.len() ==> same_topology(
                (#[trigger] (*final(state))->Systems_0@[q]),
                (*old(state))->Systems_0@[q],
            )) && forall|st: int|
            0 <= st < records@.len() ==> (#[trigger] records@[st]).total_energy as int == s_add(
                records@[st].kinetic_energy as int,
                records@[st].potential_energy as int,
            ) && records@[st].pressure == 0,
{
    match state {
        InitOutput::Particles(particles) => run_md_nve_particles(
            particles,
            number_of_steps,
            dt,
            box_length,
            thermostat,
            rng,
        ),
        InitOutput::Systems(systems) => run_md_nve_systems(
            systems,
            number_of_steps,
            dt,
            box_length,
            thermostat,
            rng,
        ),
    }
}

/// Whether `post` is a legal outcome of one full driver step from
/// `pre`: some intermediate ensemble is the thermostat coupling's
/// outcome on the velocity-Verlet step of the old state, and the final
/// ensemble, box edge and strain rate are the barostat coupling's
/// outcome on that intermediate.  Both coupling outcomes are exact for
/// the deterministic variants.
pub open spec fn driver_step_post(pre: SimulationDriver, post: SimulationDriver) -> bool {
    exists|mid: Seq<Particle>, xi2: i64|
        {
            &&& #[trigger] crate::thermostat::thermostat_coupling_post(
                s_nve_step(
                    pre.particles@,
                    pre.simulation_box.length as int,
                    pre.dt as int,
                ),
                mid,
                pre.thermostat,
                pre.dt as int,
                pre.xi as int,
                xi2 as int,
            )
            &&& post.xi == xi2
            &&& crate::barostat::barostat_coupling_post(
                mid,
                post.particles@,
                pre.simulation_box.length as int,
                post.simulation_box.length as int,
                pre.barostat,
                pre.dt as int,
                pre.eta as int,
                post.eta as int,
            )
        }
}

/// The full per-run driver: the particle ensemble, the box, the cell
/// grid, both coupling choices, the time step and the persistent
/// extended-system variables, stepped a fixed number of times.
pub struct SimulationDriver {
    pub particles: Vec<Particle>,
    pub simulation_box: crate::pbc::SimulationBox,
    pub grid: crate::grid::SpatialGrid,
    pub thermostat: ThermostatCoupling,
    pub barostat: crate::barostat::BarostatCoupling,
    pub dt: i64,
    pub xi: i64,
    pub eta: i64,
}

impl SimulationDriver {
    /// Whether the driver state is well-formed.
    pub open spec fn wf(&self) -> bool {
        &&& all_wf(self.particles@)
        &&& self.particles@.len() <= COUNT_MAX
        &&& self.simulation_box.wf()
        &&& self.grid.wf()
        &&& in_range(self.dt as int)
        &&& in_range(self.xi as int)
        &&& in_range(self.eta as int)
        &&& coupling_wf(self.thermostat)
        &&& crate::barostat::barostat_coupling_wf(self.barostat)
    }

    /// Builds a driver, rejecting a degenerate box edge, cell
    /// subdivision, time step or particle count as a constructed error
    /// value: the one fatal configuration check, made before any
    /// stepping.
    pub fn new(
        particles: Vec<Particle>,
        box_length: i64,
        cell_subdivisions: usize,
        thermostat: ThermostatCoupling,
        barostat: crate::barostat::BarostatCoupling,
        dt: i64,
    ) -> (r: Result<SimulationDriver, String>)
        requires
            all_wf(particles@),
            coupling_wf(thermostat),
            crate::barostat::barostat_coupling_wf(barostat),
        ensures
            r is Ok <==> valid_length(box_length as int) && 1 <= cell_subdivisions
                <= crate::grid::GRID_MAX && 0 < dt <= MAXF && particles@.len() <= COUNT_MAX,
            r is Ok ==> r->Ok_0.wf() && r->Ok_0.particles@ == particles@
                && r->Ok_0.simulation_box.length == box_length && r->Ok_0.dt == dt,
    {
        if !(0 < box_length && box_length <= crate::pbc::LEN_MAX) {
            return Err("box edge length out of range".to_string());
        }
        if !(1 <= cell_subdivisions && cell_subdivisions <= crate::grid::GRID_MAX) {
            return Err("cell subdivision count out of range".to_string());
        }
        if !(0 < dt && dt <= MAXF) {
            return Err("time step out of range".to_string());
        }
        if particles.len() > COUNT_MAX {
            return Err("particle count out of range".to_string());
        }
        let grid = match crate::grid::SpatialGrid::new(cell_subdivisions) {
            Some(g) => g,
            None => {
                return Err("cell subdivision count out of range".to_string());
            },
        };
        Ok(
            SimulationDriver {
                particles,
                simulation_box: crate::pbc::SimulationBox { length: box_length },
                grid,
                thermostat,
                barostat,
                dt,
                xi: 0,
                eta: 0,
            },
        )
    }

    /// One full driver step: rebuild the cell grid from the current
    /// positions, recompute forces, integrate one velocity-Verlet
    /// step, apply the temperature and pressure couplings, and return
    /// the diagnostics record of the resulting state.  After the step
    /// the grid partitions the particle indices by the positions the
    /// forces were built from.
    pub fn step(&mut self, rng: &mut rand::rngs::StdRng) -> (r: StepRecord)
        requires
            old(self).wf(),
        ensures
            final(self).wf(),
            final(self).particles@.len() == old(self).particles@.len(),
            crate::grid::partitions(
                final(self).grid.view_cells(),
                old(self).particles@,
                old(self).simulation_box.length as int,
                final(self).grid.n as int,
            ),
            final(self).grid.n == old(self).grid.n,
            final(self).thermostat == old(self).thermostat,
            final(self).barostat == old(self).barostat,
            final(self).dt == old(self).dt,
            driver_step_post(*old(self), *final(self)),
            r == s_step_record(
                final(self).particles@,
                final(self).simulation_box.length as int,
            ),
    {
        let l = self.simulation_box.length;
        self.grid.assign(&self.particles, l);
        nve_step_particles(&mut self.particles, self.dt, l);
        apply_thermostat_coupling(&mut self.particles, &self.thermostat, self.dt, &mut self.xi, rng);
        let ghost mid = self.particles@;
        let ghost xi2 = self.xi;
        match self.barostat {
            crate::barostat::BarostatCoupling::Disabled => {},
            crate::barostat::BarostatCoupling::Berendsen {
                target_pressure,
                tau_p,
                compressibility,
            } => {
                let mut bl = self.simulation_box.length;
                crate::barostat::apply_barostat_berendsen_particles(
                    &mut self.particles,
                    &mut bl,
                    target_pressure,
                    tau_p,
                    self.dt,
                    compressibility,
                );
                self.simulation_box.length = bl;
            },
            crate::barostat::BarostatCoupling::NoseHoover { target_pressure, barostat_mass } => {
                let mut bl = self.simulation_box.length;
                let mut eta = self.eta;
                crate::barostat::apply_barostat_nose_hoover_particles(
                    &mut self.particles,
                    &mut bl,
                    target_pressure,
                    barostat_mass,
                    self.dt,
                    &mut eta,
                );
                self.eta = eta;
                self.simulation_box.length = bl;
            },
        }
        proof {
            assert(crate::thermostat::thermostat_coupling_post(
                s_nve_step(
                    old(self).particles@,
                    old(self).simulation_box.length as int,
                    old(self).dt as int,
                ),
                mid,
                old(self).thermostat,
                old(self).dt as int,
                old(self).xi as int,
                xi2 as int,
            ));
            assert(crate::barostat::barostat_coupling_post(
                mid,
                self.particles@,
                old(self).simulation_box.length as int,
                self.simulation_box.length as int,
                old(self).barostat,
                old(self).dt as int,
                old(self).eta as int,
                self.eta as int,
            ));
        }
        record_particles(&self.particles, self.simulation_box.length)
    }

    /// Runs the fixed step count and returns the record series: one
    /// record per step, each internally consistent (the total energy
    /// entry is the saturating sum of the kinetic and potential
    /// entries, since each record is the diagnostics of the state the
    /// step produced).
    pub fn run(&mut self, number_of_steps: i32, rng: &mut rand::rngs::StdRng) -> (records: Vec<
        StepRecord,
    >)
        requires
            old(self).wf(),
        ensures
            final(self).wf(),
            records@.len() == if number_of_steps <= 0 {
                0int
            } else {
                number_of_steps as int
            },
            forall|st: int|
                0 <= st < records@.len() ==> (#[trigger] records@[st]).total_energy as int
                    == s_add(
                    records@[st].kinetic_energy as int,
                    records@[st].potential_energy as int,
                ),
    {
        let mut records: Vec<StepRecord> = Vec::new();
        let mut step: i32 = 0;
        while step < number_of_steps
            invariant
                0 <= step,
                number_of_steps > 0 ==> step <= number_of_steps,
                number_of_steps <= 0 ==> step == 0,
                records@.len() == step as int,
                self.wf(),
                forall|st: int|
                    0 <= st < step as int ==> (#[trigger] records@[st]).total_energy as int
                        == s_add(
                        records@[st].kinetic_energy as int,
                        records@[st].potential_energy as int,
                    ),
            decreases number_of_steps - step,
        {
            let r = self.step(rng);
            proof {
                crate::forces::lemma_ke_acc_in_range(
                    self.particles@,
                    self.particles@.len() as int,
                );
                crate::forces::lemma_energy_acc_in_range(
                    self.particles@,
                    self.simulation_box.length as int,
                    self.particles@.len() as int,
                    self.particles@.len() as int + 1,
                );
            }
            records.push(r);
            step = step + 1;
        }
        records
    }
}

/// Whether two particles agree on every field except position and the
/// force accumulator: what an energy minimizer may touch.
pub open spec fn same_but_pos_force(a: Particle, b: Particle) -> bool {
    a.velocity == b.velocity && a.mass == b.mass && a.lj_parameters == b.lj_parameters && a.id
        == b.id && a.energy == b.energy && a.atom_type == b.atom_type && a.charge == b.charge
}

/// Steepest-descent energy minimization: repeatedly recomputes forces,
/// stops once the largest force component is below the tolerance, and
/// otherwise moves every particle along its force by the step size,
/// rewrapping positions each round.  Only positions and force
/// accumulators are modified; velocities, masses, charges and
/// Lennard-Jones parameters are untouched.
pub fn minimize_steepest_descent_particles(
    particles: &mut Vec<Particle>,
    box_length: i64,
    step_size: i64,
    max_iters: usize,
    force_tol: i64,
)
    requires
        all_wf(old(particles)@),
        valid_length(box_length as int),
        in_range(step_size as int),
        0 <= force_tol,
    ensures
        all_wf(final(particles)@),
        final(particles)@.len() == old(particles)@.len(),
        forall|k: int|
            0 <= k < old(particles)@.len() ==> same_but_pos_force(
                #[trigger] final(particles)@[k],
                old(particles)@[k],
            ),
{
    let mut iter: usize = 0;
    while iter < max_iters
        invariant
            iter <= max_iters,
            all_wf(particles@),
            particles@.len() == old(particles)@.len(),
            valid_length(box_length as int),
            in_range(step_size as int),
            forall|k: int|
                0 <= k < old(particles)@.len() ==> same_but_pos_force(
                    #[trigger] particles@[k],
                    old(particles)@[k],
                ),
        decreases max_iters - iter,
    {
        let ghost round_pre = particles@;
        compute_forces_particles(particles, box_length);
        proof {
            assert forall|k: int| 0 <= k < old(particles)@.len() implies same_but_pos_force(
                #[trigger] particles@[k],
                old(particles)@[k],
            ) by {
                assert(crate::forces::same_but_force(particles@[k], round_pre[k]));
                assert(same_but_pos_force(round_pre[k], old(particles)@[k]));
            }
        }
        let n = particles.len();
        let mut max_f: i64 = 0;
        let mut k: usize = 0;
        while k < n
            invariant
                n == particles@.len(),
                k <= n,
                all_wf(particles@),
                0 <= max_f,
            decreases n - k,
        {
            proof {
                assert(particles@[k as int].wf());
            }
            let f = particles[k].force;
            let ax = if f.x < 0 { -f.x } else { f.x };
            let ay = if f.y < 0 { -f.y } else { f.y };
            let az = if f.z < 0 { -f.z } else { f.z };
            if ax > max_f { max_f = ax; }
            if ay > max_f { max_f = ay; }
            if az > max_f { max_f = az; }
            k += 1;
        }
        if max_f < force_tol {
            return ;
        }
        let mut q: usize = 0;
        while q < n
            invariant
                n == particles@.len(),
                n == old(particles)@.len(),
                q <= n,
                all_wf(particles@),
                in_range(step_size as int),
                forall|k: int|
                    0 <= k < n ==> same_but_pos_force(
                        #[trigger] particles@[k],
                        old(particles)@[k],
                    ),
            decreases n - q,
        {
            proof {
                assert(particles@[q as int].wf());
            }
            let ghost pre = particles@;
            let shift = particles[q].force.scaled(step_size);
            let np = particles[q].position.plus(shift);
            particles[q].position = np;
            proof {
                assert forall|w: int| 0 <= w < n implies (#[trigger] particles@[w]).wf()
                    && same_but_pos_force(particles@[w], old(particles)@[w]) by {
                    assert(pre[w].wf());
                    assert(same_but_pos_force(pre[w], old(particles)@[w]));
                    if w != q as int {
                        assert(particles@[w] == pre[w]);
                    } else {
                        assert(particles@[w].position.wf());
                        assert(particles@[w].velocity == pre[w].velocity);
                        assert(particles@[w].force == pre[w].force);
                        assert(particles@[w].mass == pre[w].mass);
                        assert(particles@[w].lj_parameters == pre[w].lj_parameters);
                        assert(particles@[w].energy == pre[w].energy);
                        assert(particles@[w].charge == pre[w].charge);
                        assert(particles@[w].atom_type == pre[w].atom_type);
                    }
                }
            }
            q += 1;
        }
        let ghost wrap_pre = particles@;
        pbc_update(particles, box_length);
        proof {
            assert forall|k: int| 0 <= k < old(particles)@.len() implies same_but_pos_force(
                #[trigger] particles@[k],
                old(particles)@[k],
            ) by {
                assert(same_but_pos_force(wrap_pre[k], old(particles)@[k]));
            }
        }
        iter += 1;
    }
}

} // verus!
