use rand::rngs::StdRng;
use rand::SeedableRng;
use sang_md::barostat::{apply_barostat_berendsen_particles, apply_barostat_nose_hoover_particles};
use sang_md::fixed::SCALE;
use sang_md::forces::compute_temperature_particles;
use sang_md::particle::{LJParameters, Particle};
use sang_md::thermostat::{
    andersen_collision_probability, apply_andersen_collisions,
    apply_thermostat_berendsen_particles, apply_thermostat_nose_hoover_particles,
};
use sang_md::vec3::Vec3;

fn make_particle(vx: i64, x: i64) -> Particle {
    Particle {
        id: 0,
        position: Vec3 { x, y: 0, z: 0 },
        velocity: Vec3 { x: vx, y: 0, z: 0 },
        force: Vec3 { x: 0, y: 0, z: 0 },
        lj_parameters: LJParameters { epsilon: SCALE, sigma: SCALE, number_of_atoms: 1 },
        mass: SCALE,
        energy: 0,
        atom_type: 1,
        charge: 0,
    }
}

#[test]
fn nose_hoover_thermostat_updates_xi_and_velocities() {
    let mut particles = vec![make_particle(5_000_000, 1_000_000), make_particle(
        -5_000_000,
        2_000_000,
    )];
    let mut xi: i64 = 0;
    let v_before = particles[0].velocity;

    apply_thermostat_nose_hoover_particles(&mut particles, SCALE, 10_000_000, 10_000, &mut xi);

    assert_ne!(xi, 0);
    assert_ne!(particles[0].velocity, v_before);
}

#[test]
fn nose_hoover_barostat_scales_box_and_positions() {
    let mut particles = vec![make_particle(1_000_000, 1_000_000), make_particle(
        -1_000_000,
        2_000_000,
    )];
    let mut box_length: i64 = 10_000_000;
    let mut eta: i64 = 0;

    apply_barostat_nose_hoover_particles(
        &mut particles,
        &mut box_length,
        100_000,
        5_000_000,
        10_000,
        &mut eta,
    );

    assert!(box_length > 0);
    assert_ne!(eta, 0);
    assert!(particles[0].position.x > 0);
}

#[test]
fn berendsen_drives_temperature_down_to_target_without_overshoot() {
    // T = 400 at 3 N degrees of freedom: two unit-mass particles whose
    // squared speeds sum to 2400.
    let v = 34_641_016i64;  // sqrt(1200) in fixed point
    let mut particles = vec![make_particle(v, 1_000_000), make_particle(-v, 2_000_000)];
    let t_target = 300_000_000i64;
    let tau = 100_000i64;  // 0.1
    let dt = 10_000i64;  // 0.01
    let mut t = compute_temperature_particles(&particles, 3 * particles.len());
    assert!((t - 400_000_000).abs() < 1_000_000, "start temperature was {}", t);
    for _ in 0..300 {
        apply_thermostat_berendsen_particles(&mut particles, t_target, tau, dt);
        let t_next = compute_temperature_particles(&particles, 3 * particles.len());
        assert!(t_next <= t, "temperature rose from {} to {}", t, t_next);
        assert!(t_next >= t_target - 1_000_000, "overshot: {}", t_next);
        t = t_next;
    }
    assert!((t - t_target).abs() < 2_000_000, "final temperature was {}", t);
}

#[test]
fn berendsen_is_a_no_op_on_invalid_parameters() {
    let mut particles = vec![make_particle(5_000_000, 1_000_000)];
    let before = particles.clone();
    apply_thermostat_berendsen_particles(&mut particles, 300_000_000, 0, 10_000);
    assert_eq!(particles, before);
    apply_thermostat_berendsen_particles(&mut particles, 300_000_000, 100_000, -1);
    assert_eq!(particles, before);
    apply_thermostat_berendsen_particles(&mut particles, -5, 100_000, 10_000);
    assert_eq!(particles, before);
}

#[test]
fn andersen_probability_matches_the_exponential() {
    // nu dt = 1: p = 1 - exp(-1).
    assert_eq!(andersen_collision_probability(SCALE, SCALE), 1_000_000 - 367_879);
    // Invalid windows saturate sensibly.
    assert_eq!(andersen_collision_probability(0, SCALE), 0);
    assert_eq!(andersen_collision_probability(20_000_000, SCALE), 1_000_000);
}

#[test]
fn andersen_is_reproducible_for_identical_seeds() {
    let mut a = vec![make_particle(5_000_000, 1_000_000), make_particle(-5_000_000, 2_000_000)];
    let mut b = a.clone();
    let mut rng_a = StdRng::seed_from_u64(42);
    let mut rng_b = StdRng::seed_from_u64(42);
    // A high collision frequency so that resampling certainly happens.
    apply_andersen_collisions(&mut a, 300_000_000, 50_000_000, 100_000, &mut rng_a);
    apply_andersen_collisions(&mut b, 300_000_000, 50_000_000, 100_000, &mut rng_b);
    assert_eq!(a, b);
    assert_ne!(a[0].velocity, make_particle(5_000_000, 1_000_000).velocity);
}

#[test]
fn andersen_keeps_positions_and_forces() {
    let mut particles = vec![make_particle(5_000_000, 1_000_000)];
    let before = particles[0];
    let mut rng = StdRng::seed_from_u64(7);
    apply_andersen_collisions(&mut particles, 300_000_000, 50_000_000, 100_000, &mut rng);
    assert_eq!(particles[0].position, before.position);
    assert_eq!(particles[0].force, before.force);
    assert_eq!(particles[0].mass, before.mass);
}

#[test]
fn maxwell_boltzmann_is_reproducible_for_identical_seeds() {
    let mut p1 = make_particle(0, 1_000_000);
    let mut p2 = make_particle(0, 1_000_000);
    let mut rng_a = StdRng::seed_from_u64(1234);
    let mut rng_b = StdRng::seed_from_u64(1234);
    p1.maxwellboltzmannvelocity(300_000_000, 30_000_000, 10_000_000, &mut rng_a);
    p2.maxwellboltzmannvelocity(300_000_000, 30_000_000, 10_000_000, &mut rng_b);
    assert_eq!(p1.velocity, p2.velocity);

    let mut rng_c = StdRng::seed_from_u64(99);
    let mut p3 = make_particle(0, 1_000_000);
    p3.maxwellboltzmannvelocity(300_000_000, 30_000_000, 10_000_000, &mut rng_c);
    assert_ne!(p3.velocity, p1.velocity);
}

#[test]
fn berendsen_barostat_scales_box_toward_target_pressure() {
    let mut particles = vec![make_particle(1_000_000, 2_000_000), make_particle(
        -1_000_000,
        7_000_000,
    )];
    let mut box_length: i64 = 10_000_000;
    // A target pressure far above the current one shrinks the box.
    apply_barostat_berendsen_particles(
        &mut particles,
        &mut box_length,
        50_000_000_000,
        100_000,
        10_000,
        1_000_000,
    );
    assert!(box_length < 10_000_000);
    assert!(box_length > 0);
    assert!(particles[0].position.x < 2_000_000);
}

#[test]
fn berendsen_barostat_is_a_no_op_on_invalid_parameters() {
    let mut particles = vec![make_particle(1_000_000, 2_000_000)];
    let before = particles.clone();
    let mut box_length: i64 = 10_000_000;
    apply_barostat_berendsen_particles(&mut particles, &mut box_length, 1, 0, 10_000, 1_000_000);
    assert_eq!(particles, before);
    assert_eq!(box_length, 10_000_000);
}

#[test]
fn andersen_march_resamples_over_the_time_span() {
    let mut particles = vec![make_particle(5_000_000, 1_000_000)];
    let before = particles[0].velocity;
    let mut rng = StdRng::seed_from_u64(11);
    sang_md::thermostat::apply_thermostat_andersen_particles(
        &mut particles,
        300_000_000,
        100_000,
        1_000_000,
        50_000_000,
        &mut rng,
    );
    assert_ne!(particles[0].velocity, before);
    assert_eq!(particles[0].position.x, 1_000_000);
}

#[test]
fn andersen_half_steps_advance_positions_then_velocities() {
    let l = 10_000_000i64;
    let mut particles = vec![
        make_particle(1_000_000, 4_400_000),
        make_particle(-1_000_000, 5_600_000),
    ];
    let x_before = particles[0].position.x;
    let mut rng = StdRng::seed_from_u64(12);
    sang_md::thermostat::run_md_andersen_particles(
        &mut particles, 1_000, l, 300_000_000, 1_000_000, 1, &mut rng,
    );
    assert_ne!(particles[0].position.x, x_before);
    sang_md::thermostat::run_md_andersen_particles(
        &mut particles, 1_000, l, 300_000_000, 1_000_000, 2, &mut rng,
    );
    assert_ne!(particles[0].force.x, 0);
}
