use sang_md::fixed::{exp_neg, isqrt, SCALE};
use sang_md::grid::SpatialGrid;
use sang_md::lj::{hard_sphere_potential, lennard_jones_force, lennard_jones_force_scalar,
    lennard_jones_potential};
use sang_md::particle::{LJParameters, Particle};
use sang_md::pbc::{minimum_image, minimum_image_convention, wrap_coordinate, SimulationBox};
use sang_md::vec3::Vec3;

fn unit_particle(id: usize, x: i64, y: i64, z: i64) -> Particle {
    Particle {
        id,
        position: Vec3 { x, y, z },
        velocity: Vec3 { x: 0, y: 0, z: 0 },
        force: Vec3 { x: 0, y: 0, z: 0 },
        lj_parameters: LJParameters { epsilon: SCALE, sigma: SCALE, number_of_atoms: 1 },
        mass: SCALE,
        energy: 0,
        atom_type: 0,
        charge: 0,
    }
}

#[test]
fn wrap_handles_negative_and_large_coordinates() {
    assert_eq!(wrap_coordinate(23_500_000, 10_000_000), 3_500_000);
    assert_eq!(wrap_coordinate(-3_000_000, 10_000_000), 7_000_000);
    assert_eq!(wrap_coordinate(0, 10_000_000), 0);
}

#[test]
fn wrap_is_idempotent() {
    let l = 10_000_000;
    for &x in &[-23_456_789i64, -1, 0, 1, 9_999_999, 10_000_000, 123_456_789] {
        let once = wrap_coordinate(x, l);
        assert_eq!(wrap_coordinate(once, l), once);
    }
}

#[test]
fn minimum_image_lies_in_half_open_window() {
    let l = 10_000_000i64;
    assert_eq!(minimum_image(7_000_000, l), -3_000_000);
    assert_eq!(minimum_image(-7_000_000, l), 3_000_000);
    // Exactly half the box maps to the lower end of the window.
    assert_eq!(minimum_image(5_000_000, l), -5_000_000);
    for &d in &[-19_999_999i64, -5_000_000, -1, 0, 1, 4_999_999, 5_000_000, 19_999_999] {
        let m = minimum_image(d, l);
        assert!(-l <= 2 * m && 2 * m < l);
        assert_eq!((d - m).rem_euclid(l), 0);
    }
}

#[test]
fn minimum_image_convention_applies_per_component() {
    let r = minimum_image_convention(Vec3 { x: 7_000_000, y: -7_000_000, z: 1 }, 10_000_000);
    assert_eq!(r, Vec3 { x: -3_000_000, y: 3_000_000, z: 1 });
}

#[test]
fn simulation_box_rejects_degenerate_lengths() {
    assert!(SimulationBox::new(0).is_none());
    assert!(SimulationBox::new(-5).is_none());
    assert!(SimulationBox::new(10_000_000).is_some());
}

#[test]
fn grid_assign_puts_every_particle_in_exactly_one_cell() {
    let l = 10_000_000i64;
    let mut grid = SpatialGrid::new(3).expect("subdivision accepted");
    let mut particles = Vec::new();
    for i in 0..20usize {
        let x = ((i as i64) * 7_919_113) % l;
        let y = ((i as i64) * 104_729_331 + 13) % l;
        let z = ((i as i64) * 1_299_709 + 777_777) % l;
        particles.push(unit_particle(i, x, y, z));
    }
    grid.assign(&particles, l);
    assert_eq!(grid.cells.len(), 27);
    let mut seen = vec![0usize; particles.len()];
    for cell in &grid.cells {
        for &idx in cell {
            seen[idx] += 1;
        }
    }
    for (idx, &count) in seen.iter().enumerate() {
        assert_eq!(count, 1, "particle {} is listed {} times", idx, count);
    }
}

#[test]
fn grid_rejects_degenerate_subdivision() {
    assert!(SpatialGrid::new(0).is_none());
    assert!(SpatialGrid::new(1).is_some());
}

#[test]
fn lj_potential_is_exactly_zero_at_sigma() {
    assert_eq!(lennard_jones_potential(SCALE, SCALE, SCALE), 0);
    assert_eq!(lennard_jones_potential(2_500_000, 2_500_000, 700_000), 0);
}

#[test]
fn lj_force_is_exact_at_sigma_and_tiny_at_the_minimum() {
    // At r == sigma the magnitude is exactly 24 eps.
    assert_eq!(lennard_jones_force_scalar(SCALE, SCALE, SCALE), 24_000_000);
    assert_eq!(lennard_jones_force(SCALE, SCALE, SCALE), 24_000_000);
    // At the potential minimum r = 2^(1/6) sigma the force magnitude
    // vanishes up to fixed-point resolution.
    let r_min = 1_122_462i64;
    let f = lennard_jones_force_scalar(r_min, SCALE, SCALE);
    assert!(f.abs() < 50_000, "force at the minimum was {}", f);
}

#[test]
fn lj_force_signs_bracket_the_minimum() {
    // Repulsive inside the diameter, attractive in the well.
    assert!(lennard_jones_force_scalar(900_000, SCALE, SCALE) > 0);
    assert!(lennard_jones_force_scalar(2_500_000, SCALE, SCALE) < 0);
}

#[test]
fn lj_singularity_floor_returns_zero() {
    assert_eq!(lennard_jones_potential(0, SCALE, SCALE), 0);
    assert_eq!(lennard_jones_force_scalar(0, SCALE, SCALE), 0);
    assert_eq!(lennard_jones_force_scalar(-5, SCALE, SCALE), 0);
}

#[test]
fn hard_sphere_is_a_barrier_inside_the_diameter() {
    assert_eq!(hard_sphere_potential(500_000, SCALE), 1_000_000_000_000_000_000);
    assert_eq!(hard_sphere_potential(SCALE, SCALE), 0);
    assert_eq!(hard_sphere_potential(2_000_000, SCALE), 0);
    assert_eq!(hard_sphere_potential(0, SCALE), 0);
}

#[test]
fn integer_square_root_is_exact_on_squares() {
    assert_eq!(isqrt(0), 0);
    assert_eq!(isqrt(1), 1);
    assert_eq!(isqrt(9_000_000_000_000), 3_000_000);
    assert_eq!(isqrt(9_000_000_000_001), 3_000_000);
    assert_eq!(isqrt(8_999_999_999_999), 2_999_999);
}

#[test]
fn exp_neg_matches_the_closed_form_at_one() {
    // exp(-1) in fixed point via the integer-part table: 367879.
    assert_eq!(exp_neg(SCALE), 367_879);
    assert_eq!(exp_neg(0), SCALE);
    assert_eq!(exp_neg(20_000_000), 0);
}

#[test]
fn celled_energy_agrees_with_the_all_pairs_oracle() {
    // A loose lattice of twelve particles: every pair is in the
    // attractive tail, far from the saturation bound, so the two
    // summation orders agree exactly when the cell cutoff covers the
    // whole grid.
    let l = 10_000_000i64;
    let mut particles = Vec::new();
    let mut id = 0usize;
    for ix in 0..3i64 {
        for iy in 0..2i64 {
            for iz in 0..2i64 {
                particles.push(unit_particle(
                    id,
                    ix * 2_500_000 + 1_000_000,
                    iy * 2_500_000 + 1_500_000,
                    iz * 2_500_000 + 2_000_000,
                ));
                id += 1;
            }
        }
    }
    let mut grid = SpatialGrid::new(3).expect("subdivision accepted");
    grid.assign(&particles, l);
    let celled = sang_md::forces::site_site_energy_celled(&particles, &grid, l, 6);
    let mut oracle_input = particles.clone();
    let brute = sang_md::forces::site_site_energy_calculation(&mut oracle_input, l);
    assert_eq!(celled, brute);
    assert!(celled != 0);
}

#[test]
fn neighbor_cell_pairs_are_canonical_and_complete() {
    let grid = SpatialGrid::new(2).expect("subdivision accepted");
    // A cutoff of two cells reaches every pair of a 2x2x2 grid.
    let pairs = grid.neighbor_cell_pairs(2);
    assert_eq!(pairs.len(), 8 * 9 / 2);
    for &(a, b) in &pairs {
        assert!(a <= b && b < 8);
    }
    // A zero cutoff keeps only each cell with itself.
    let tight = grid.neighbor_cell_pairs(0);
    assert_eq!(tight.len(), 8);
    for &(a, b) in &tight {
        assert_eq!(a, b);
    }
}
