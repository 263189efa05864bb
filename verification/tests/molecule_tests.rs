use sang_md::fixed::SCALE;
use sang_md::molecule::{apply_bonded_forces_and_energy, bond_distance, compute_bond_force, Atom,
    Bond, make_h2_system};
use sang_md::particle::{LJParameters, Particle};
use sang_md::vec3::Vec3;

fn plain_atom(id: usize, x: i64, y: i64, z: i64, atom_type: usize, mass: i64, charge: i64) -> Atom {
    Atom {
        id,
        position: Vec3 { x, y, z },
        velocity: Vec3 { x: 0, y: 0, z: 0 },
        force: Vec3 { x: 0, y: 0, z: 0 },
        atom_type,
        mass,
        charge,
    }
}

fn site(id: usize, x: i64) -> Particle {
    Particle {
        id,
        position: Vec3 { x, y: 0, z: 0 },
        velocity: Vec3 { x: 0, y: 0, z: 0 },
        force: Vec3 { x: 0, y: 0, z: 0 },
        lj_parameters: LJParameters { epsilon: SCALE, sigma: SCALE, number_of_atoms: 1 },
        mass: SCALE,
        energy: 0,
        atom_type: 0,
        charge: 0,
    }
}

#[test]
fn test_atom() {
    let test_atom = plain_atom(1, 1_000_000, 2_000_000, 3_000_000, 0, 12_010_000, -3_000_000);
    assert_eq!(test_atom.id, 1);
}

#[test]
fn molecule_test_atom() {
    let test_atom = plain_atom(1, 1_000_000, 2_000_000, 3_000_000, 0, 12_010_000, -3_000_000);
    assert_eq!(test_atom.id, 1);
}

#[test]
fn test_bond_distance_happy() {
    let atom1 = plain_atom(0, 0, 0, 0, 1, 1_000_000, 0);
    let atom2 = plain_atom(1, 3_000_000, 0, 0, 1, 1_000_000, 0);
    let dist = bond_distance(&atom1, &atom2);
    assert_eq!(dist, 3_000_000);
}

#[test]
fn molecule_test_bond_distance_happy() {
    let atom1 = plain_atom(0, 0, 0, 0, 1, 1_000_000, 0);
    let atom2 = plain_atom(1, 3_000_000, 0, 0, 1, 1_000_000, 0);
    let dist = bond_distance(&atom1, &atom2);
    assert_eq!(dist, 3_000_000);
}

#[test]
fn bond_energy_is_harmonic_in_the_stretch() {
    // k = 100, r0 = 0.74, r = 1.0: E = k (r - r0)^2 / 2 = 3.38.
    let mut atoms = vec![site(0, 0), site(1, 1_000_000)];
    let bond = Bond { atom1: 0, atom2: 1, k: 100_000_000, r0: 740_000 };
    let e = compute_bond_force(&mut atoms, &bond, 10_000_000);
    assert_eq!(e, 3_380_000);
    // Stretched past its rest length, the bond pulls the pair together.
    assert!(atoms[0].force.x > 0);
    assert!(atoms[1].force.x < 0);
    assert_eq!(atoms[0].force.x, -atoms[1].force.x);
}

#[test]
fn bond_at_rest_length_carries_no_force_and_no_energy() {
    let mut atoms = vec![site(0, 0), site(1, 740_000)];
    let bond = Bond { atom1: 0, atom2: 1, k: 100_000_000, r0: 740_000 };
    let e = compute_bond_force(&mut atoms, &bond, 10_000_000);
    assert_eq!(e, 0);
    assert_eq!(atoms[0].force.x, 0);
    assert_eq!(atoms[1].force.x, 0);
}

#[test]
fn bonded_sweep_accumulates_every_bond() {
    let mut atoms = vec![site(0, 0), site(1, 1_000_000), site(2, 2_000_000)];
    let bonds = vec![
        Bond { atom1: 0, atom2: 1, k: 100_000_000, r0: 740_000 },
        Bond { atom1: 1, atom2: 2, k: 100_000_000, r0: 740_000 },
    ];
    let e = apply_bonded_forces_and_energy(&mut atoms, &bonds, 10_000_000);
    assert_eq!(e, 2 * 3_380_000);
    // The middle atom sits symmetrically and feels no net force.
    assert_eq!(atoms[1].force.x, 0);
}

#[test]
fn h2_template_is_a_stretched_diatomic() {
    let s = make_h2_system();
    assert_eq!(s.atoms.len(), 2);
    assert_eq!(s.bonds.len(), 1);
    assert_eq!(s.bonds[0].r0, 740_000);
    assert_eq!(s.bonds[0].k, 100_000_000);
    assert_eq!(s.atoms[1].position.x - s.atoms[0].position.x, 790_000);
}

#[test]
fn coulomb_sum_uses_the_reference_separation() {
    // Two unit charges one length unit apart: q1 q2 / (4 pi) / r = 1/12.56.
    let mut a = site(0, 0);
    let mut b = site(1, 1_000_000);
    a.charge = 1_000_000;
    b.charge = 1_000_000;
    let mut atoms = vec![a, b];
    let e = sang_md::molecule::compute_electostatic_bond_short_force(&mut atoms, 10_000_000);
    // 1 / 12.56 = 0.079617..., floored at fixed-point resolution.
    assert_eq!(e, 79_617);
}

#[test]
fn coulomb_sum_is_empty_below_two_atoms() {
    let mut atoms = vec![site(0, 0)];
    let e = sang_md::molecule::compute_electostatic_bond_short_force(&mut atoms, 10_000_000);
    assert_eq!(e, 0);
}
