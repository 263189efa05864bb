use rand::rngs::StdRng;
use rand::SeedableRng;
use sang_md::barostat::BarostatCoupling;
use sang_md::driver::{
    compute_temperature, compute_total_energy_and_print, create_atoms_with_set_positions_and_velocities,
    create_systems, run_md_nve, run_md_nve_particles, InitOutput, SimulationDriver,
};
use sang_md::fixed::SCALE;
use sang_md::forces::{compute_forces_particles, compute_pressure_particles, pair_virial_between};
use sang_md::molecule::make_h2_system;
use sang_md::particle::{LJParameters, Particle};
use sang_md::thermostat::ThermostatCoupling;
use sang_md::vec3::Vec3;

fn lj_particle(id: usize, x: i64, y: i64, z: i64, vx: i64) -> Particle {
    Particle {
        id,
        position: Vec3 { x, y, z },
        velocity: Vec3 { x: vx, y: 0, z: 0 },
        force: Vec3 { x: 0, y: 0, z: 0 },
        lj_parameters: LJParameters { epsilon: SCALE, sigma: SCALE, number_of_atoms: 1 },
        mass: SCALE,
        energy: 0,
        atom_type: 0,
        charge: 0,
    }
}

#[test]
fn nve_total_energy_stays_within_one_percent() {
    // Two particles released from rest near the potential minimum, no
    // thermostat, a thousand steps at a small time step.
    let l = 10_000_000i64;
    let mut particles = vec![
        lj_particle(0, 4_400_000, 5_000_000, 5_000_000, 0),
        lj_particle(1, 5_600_000, 5_000_000, 5_000_000, 0),
    ];
    let mut rng = StdRng::seed_from_u64(1);
    let records = run_md_nve_particles(
        &mut particles,
        1000,
        1_000,
        l,
        &ThermostatCoupling::Disabled,
        &mut rng,
    );
    assert_eq!(records.len(), 1000);
    let e0 = records[0].total_energy;
    assert!(e0 != 0);
    let tolerance = e0.abs() / 100;
    for r in &records {
        assert!(
            (r.total_energy - e0).abs() <= tolerance,
            "energy drifted from {} to {}",
            e0,
            r.total_energy
        );
    }
}

#[test]
fn pair_virial_is_positive_when_repulsive_and_negative_in_the_well() {
    let l = 20_000_000i64;
    // Separation below 2^(1/6) sigma: repulsive, positive virial.
    let a = lj_particle(0, 5_000_000, 5_000_000, 5_000_000, 0);
    let b = lj_particle(1, 6_000_000, 5_000_000, 5_000_000, 0);
    assert!(pair_virial_between(&a, &b, l) > 0);
    // Separation in the attractive well: negative virial.
    let c = lj_particle(1, 7_500_000, 5_000_000, 5_000_000, 0);
    assert!(pair_virial_between(&a, &c, l) < 0);
}

#[test]
fn pressure_carries_the_virial_sign() {
    let l = 10_000_000i64;
    // An overlapping pair pressurizes the box beyond the kinetic term.
    let close = vec![
        lj_particle(0, 5_000_000, 5_000_000, 5_000_000, 0),
        lj_particle(1, 5_900_000, 5_000_000, 5_000_000, 0),
    ];
    let apart = vec![
        lj_particle(0, 2_000_000, 5_000_000, 5_000_000, 0),
        lj_particle(1, 4_500_000, 5_000_000, 5_000_000, 0),
    ];
    assert!(compute_pressure_particles(&close, l) > 0);
    assert!(compute_pressure_particles(&apart, l) < 0);
}

#[test]
fn forces_obey_newtons_third_law() {
    let l = 10_000_000i64;
    let mut particles = vec![
        lj_particle(0, 4_500_000, 5_000_000, 5_000_000, 0),
        lj_particle(1, 5_500_000, 5_000_000, 5_000_000, 0),
    ];
    compute_forces_particles(&mut particles, l);
    assert_eq!(particles[0].force.x, -particles[1].force.x);
    assert_ne!(particles[0].force.x, 0);
    assert_eq!(particles[0].force.y, 0);
}

#[test]
fn initializer_rejects_invalid_configurations() {
    let mut rng = StdRng::seed_from_u64(3);
    assert!(create_atoms_with_set_positions_and_velocities(
        -1, 300_000_000, 30_000_000, 10_000_000, 10_000_000, false, &mut rng
    ).is_err());
    assert!(create_atoms_with_set_positions_and_velocities(
        10, 300_000_000, 0, 10_000_000, 10_000_000, false, &mut rng
    ).is_err());
    assert!(create_atoms_with_set_positions_and_velocities(
        10, 300_000_000, 30_000_000, 10_000_000, 0, false, &mut rng
    ).is_err());
    let ok = create_atoms_with_set_positions_and_velocities(
        10, 300_000_000, 30_000_000, 10_000_000, 10_000_000, false, &mut rng
    );
    match ok {
        Ok(InitOutput::Particles(ps)) => assert_eq!(ps.len(), 10),
        _ => panic!("expected a particle state"),
    }
}

#[test]
fn initializer_builds_molecular_states_on_request() {
    let mut rng = StdRng::seed_from_u64(4);
    let out = create_atoms_with_set_positions_and_velocities(
        3, 300_000_000, 30_000_000, 10_000_000, 10_000_000, true, &mut rng
    );
    match out {
        Ok(InitOutput::Systems(ss)) => {
            assert_eq!(ss.len(), 3);
            assert_eq!(ss[0].atoms.len(), 2);
        },
        _ => panic!("expected a molecular state"),
    }
}

#[test]
fn berenden_pull_towards_target() {
    let t0 = 300_000_000i64;
    let mut rng = StdRng::seed_from_u64(2024);
    let mut new_simulation_md = match create_atoms_with_set_positions_and_velocities(
        10, 300_000_000, 30_000_000, 10_000_000, 10_000_000, false, &mut rng
    ) {
        Ok(atoms) => atoms,
        Err(e) => {
            panic!("Failed to create atoms: {}", e);
        },
    };
    let coupling = ThermostatCoupling::Berendsen { target_temperature: t0, tau: 100_000 };
    let _records = run_md_nve(&mut new_simulation_md, 1000, 5_000, 10_000_000, &coupling, &mut rng);
    let dof = 30;
    let t = compute_temperature(&mut new_simulation_md, dof);
    println!("Temperature is {}, and target is {}", t, t0);
    assert!((t - t0).abs() < 5_000_000, "Temperature should approach target");
}

#[test]
fn run_md_emits_one_record_per_step() {
    let mut rng = StdRng::seed_from_u64(5);
    let mut state = InitOutput::Systems(vec![make_h2_system(), make_h2_system()]);
    let records = run_md_nve(&mut state, 25, 1_000, 10_000_000, &ThermostatCoupling::Disabled, &mut rng);
    assert_eq!(records.len(), 25);
}

#[test]
fn total_energy_reading_sums_kinetic_and_potential() {
    let mut state = InitOutput::Particles(vec![
        lj_particle(0, 1_000_000, 5_000_000, 5_000_000, 1_000_000),
        lj_particle(1, 6_000_000, 5_000_000, 5_000_000, 0),
    ]);
    // Far apart: only the kinetic term remains, KE = 1/2 * 1 * 1 = 0.5.
    let e = compute_total_energy_and_print(&mut state, 10_000_000);
    assert!((e - 500_000).abs() < 3_000, "energy was {}", e);
}

#[test]
fn temperature_reading_matches_the_equipartition_formula() {
    // One particle of mass 2 at speed 1: KE = 1, dof = 3, T = 2/3.
    let mut p = lj_particle(0, 1_000_000, 1_000_000, 1_000_000, 1_000_000);
    p.mass = 2_000_000;
    let mut state = InitOutput::Particles(vec![p]);
    let t = compute_temperature(&mut state, 3);
    assert_eq!(t, 666_666);
}

#[test]
fn create_systems_replicates_the_template() {
    let h2 = make_h2_system();
    let out = create_systems(&h2, 4);
    match out {
        InitOutput::Systems(ss) => {
            assert_eq!(ss.len(), 4);
            assert_eq!(ss[2].atoms.len(), 2);
            assert_eq!(ss[2].bonds.len(), 1);
        },
        _ => panic!("expected systems"),
    }
}

#[test]
fn driver_rejects_bad_configuration_and_runs_good_ones() {
    let particles = vec![
        lj_particle(0, 4_400_000, 5_000_000, 5_000_000, 0),
        lj_particle(1, 5_600_000, 5_000_000, 5_000_000, 0),
    ];
    assert!(SimulationDriver::new(
        particles.clone(), 10_000_000, 0, ThermostatCoupling::Disabled,
        BarostatCoupling::Disabled, 1_000
    ).is_err());
    assert!(SimulationDriver::new(
        particles.clone(), 0, 3, ThermostatCoupling::Disabled,
        BarostatCoupling::Disabled, 1_000
    ).is_err());
    let mut driver = SimulationDriver::new(
        particles, 10_000_000, 3, ThermostatCoupling::Disabled,
        BarostatCoupling::Disabled, 1_000
    ).expect("valid configuration accepted");
    let mut rng = StdRng::seed_from_u64(8);
    let records = driver.run(10, &mut rng);
    assert_eq!(records.len(), 10);
    assert!(driver.simulation_box.length > 0);
}

#[test]
fn identical_seeds_give_identical_trajectories() {
    let mut rng_a = StdRng::seed_from_u64(77);
    let mut rng_b = StdRng::seed_from_u64(77);
    let make = |rng: &mut StdRng| {
        create_atoms_with_set_positions_and_velocities(
            5, 300_000_000, 30_000_000, 10_000_000, 10_000_000, false, rng
        ).expect("valid configuration")
    };
    let mut sa = make(&mut rng_a);
    let mut sb = make(&mut rng_b);
    let coupling = ThermostatCoupling::Andersen {
        target_temperature: 300_000_000,
        collision_frequency: 10_000_000,
    };
    let ra = run_md_nve(&mut sa, 20, 1_000, 10_000_000, &coupling, &mut rng_a);
    let rb = run_md_nve(&mut sb, 20, 1_000, 10_000_000, &coupling, &mut rng_b);
    assert_eq!(ra, rb);
}

#[test]
fn minimizer_relaxes_an_overlapping_pair() {
    let l = 10_000_000i64;
    let mut particles = vec![
        lj_particle(0, 5_000_000, 5_000_000, 5_000_000, 0),
        lj_particle(1, 5_950_000, 5_000_000, 5_000_000, 0),
    ];
    let e_before = {
        let mut state = InitOutput::Particles(particles.clone());
        compute_total_energy_and_print(&mut state, l)
    };
    sang_md::driver::minimize_steepest_descent_particles(&mut particles, l, 10, 200, 1_000);
    let e_after = {
        let mut state = InitOutput::Particles(particles.clone());
        compute_total_energy_and_print(&mut state, l)
    };
    assert!(e_after < e_before, "energy went from {} to {}", e_before, e_after);
}

#[test]
fn ensembles_carry_their_coupling_parameters() {
    let nvt = sang_md::ensembles::Ensemble::Nvt(sang_md::ensembles::ThermostatOption {
        target_temperature: 300_000_000,
        relaxation_time: 100_000,
    });
    let npt = sang_md::ensembles::Ensemble::Npt(sang_md::ensembles::BarostatOptions {
        target_pressure: 1_000_000,
    });
    assert!(matches!(nvt, sang_md::ensembles::Ensemble::Nvt(o) if o.relaxation_time == 100_000));
    assert!(matches!(npt, sang_md::ensembles::Ensemble::Npt(o) if o.target_pressure == 1_000_000));
    assert!(matches!(sang_md::ensembles::Ensemble::Nve, sang_md::ensembles::Ensemble::Nve));
}

#[test]
fn test_double_loop() {
    let lj_params = LJParameters { epsilon: SCALE, sigma: SCALE, number_of_atoms: 2 };
    let a = lj_particle(0, 4_000_000, 5_000_000, 5_000_000, 0);
    let mut b = lj_particle(1, 6_000_000, 5_000_000, 5_000_000, 0);
    b.lj_parameters = lj_params;
    let mut particles = vec![a, b];
    compute_forces_particles(&mut particles, 10_000_000);
    assert_eq!(particles[0].force.x, -particles[1].force.x);
}

#[test]
fn test_lennard_jones() {
    let lj_params_new = LJParameters { epsilon: SCALE, sigma: SCALE, number_of_atoms: 10 };
    assert_eq!(lj_params_new.number_of_atoms, 10);
}
