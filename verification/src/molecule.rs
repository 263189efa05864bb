//! Molecular topologies: atoms, bonded terms and the harmonic bond
//! force evaluator.
//!
//! Bond forces are evaluated in closed form.  Angle, dihedral and
//! improper terms are carried here as data; their evaluation rests on
//! trigonometric functions over floating-point values, which this crate
//! does not compute itself.

use vstd::prelude::*;
use crate::fixed::{in_range, quot, s_div, s_mul, s_quot, s_sub, sat_mul, sat_sub, MAXF};
use crate::particle::{all_wf, LJParameters, Particle};
use crate::pbc::{s_min_image_vec, valid_length, minimum_image_convention};
use crate::vec3::{s_norm, v3_add, v3_sub, v3_zero, V3, Vec3};

verus! {

/// A minimal two-atom harmonic bond.
#[derive(Clone, Copy, Debug, PartialEq, Eq, Structural)]
pub struct SimpleBond {
    pub i: usize,
    pub j: usize,
    pub k: i64,
    pub r0: i64,
}

/// An atom: state vectors, a type tag, mass and charge.
#[derive(Clone, Copy, Debug, PartialEq, Eq, Structural)]
pub struct Atom {
    pub id: usize,
    pub position: Vec3,
    pub velocity: Vec3,
    pub force: Vec3,
    pub atom_type: usize,
    pub mass: i64,
    pub charge: i64,
}

impl Atom {
    /// Whether the atom's state vectors are within the saturation bound
    /// and its mass is positive.
    pub open spec fn wf(self) -> bool {
        &&& self.position.wf()
        &&& self.velocity.wf()
        &&& self.force.wf()
        &&& 0 < self.mass <= MAXF as int
        &&& in_range(self.charge as int)
    }
}

/// A harmonic bond between two atoms of a system, by index.
#[derive(Clone, Copy, Debug, PartialEq, Eq, Structural)]
pub struct Bond {
    pub atom1: usize,
    pub atom2: usize,
    pub k: i64,
    pub r0: i64,
}

impl Bond {
    /// Whether the force constant and rest length are within range.
    pub open spec fn wf(self) -> bool {
        0 <= self.k <= MAXF as int && 0 <= self.r0 <= MAXF as int
    }
}

/// A harmonic angle between three atoms of a system, by index.
#[derive(Clone, Copy, Debug, PartialEq, Eq, Structural)]
pub struct Angle {
    pub atom1: usize,
    pub atom2: usize,
    pub atom3: usize,
    pub k: i64,
    pub theta0: i64,
}

/// A periodic dihedral over four atoms of a system, by index.
#[derive(Clone, Copy, Debug, PartialEq, Eq, Structural)]
pub struct Dihedral {
    pub atom1: usize,
    pub atom2: usize,
    pub atom3: usize,
    pub atom4: usize,
    pub k: i64,
    pub multiplicity: usize,
    pub phase: i64,
}

/// A harmonic improper torsion over four atoms of a system, by index.
#[derive(Clone, Copy, Debug, PartialEq, Eq, Structural)]
pub struct Improper {
    pub atom1: usize,
    pub atom2: usize,
    pub atom3: usize,
    pub atom4: usize,
    pub k: i64,
    pub psi0: i64,
}

/// Nonbonded parameters of one atom type.
#[derive(Clone, Copy, Debug, PartialEq, Eq, Structural)]
pub struct NonBondedType {
    pub mass: i64,
    pub charge: i64,
    pub sigma: i64,
    pub epsilon: i64,
}

/// A force field: the bonded parameter tables.
#[derive(Clone, Debug)]
pub struct ForceField {
    pub bond_types: Vec<Bond>,
    pub angle_types: Vec<Angle>,
}

/// A reusable molecular template: names, positions and bond tuples
/// `(i, j, k, r0)`.
#[derive(Clone, Debug)]
pub struct MoleculeTemplate {
    pub name: String,
    pub atom_types: Vec<String>,
    pub positions: Vec<Vec3>,
    pub bonds: Vec<(usize, usize, i64, i64)>,
    pub exclusion_1_4_scale: Option<i64>,
}

/// One molecular system: an atom array and its bonded-term lists, with
/// bonded terms referring to atoms by index.
#[derive(Clone, Debug)]
pub struct System {
    pub atoms: Vec<Particle>,
    pub bonds: Vec<Bond>,
    pub angles: Vec<Angle>,
    pub dihedrals: Vec<Dihedral>,
    pub impropers: Vec<Improper>,
}

impl System {
    /// Whether every atom is well-formed and every bond refers to
    /// existing atoms with parameters in range.
    pub open spec fn wf(self) -> bool {
        &&& all_wf(self.atoms@)
        &&& forall|t: int|
            0 <= t < self.bonds@.len() ==> (#[trigger] self.bonds@[t]).wf()
                && self.bonds@[t].atom1 < self.atoms@.len() && self.bonds@[t].atom2
                < self.atoms@.len()
    }
}

/// The distance between two atoms, with no periodic imaging.
pub fn bond_distance(a1: &Atom, a2: &Atom) -> (r: i64)
    requires
        a1.wf(),
        a2.wf(),
    ensures
        r as int == s_norm(v3_sub(a1.position.v(), a2.position.v())),
        0 <= r,
{
    a1.position.minus(a2.position).norm_fix()
}

/// The harmonic energy of a bond at minimum-image separation `r`:
/// `k (r - r0)^2 / 2`.
pub open spec fn s_bond_energy(ai: V3, aj: V3, k: int, r0: int, l: int) -> int
    recommends
        l > 0,
{
    let r = s_norm(s_min_image_vec(v3_sub(aj, ai), l));
    let dr = s_sub(r, r0);
    s_quot(s_mul(k, s_mul(dr, dr)), 2)
}

/// The force a bond puts on its second atom (the first receives the
/// negation): `-k (r - r0)` along the minimum-image separation, so a
/// stretched bond pulls the pair back together; zero at the
/// singularity floor.
pub open spec fn s_bond_force(ai: V3, aj: V3, k: int, r0: int, l: int) -> V3
    recommends
        l > 0,
{
    let sep = s_min_image_vec(v3_sub(aj, ai), l);
    let r = s_norm(sep);
    if r <= 0 {
        v3_zero()
    } else {
        let f = clip_neg(s_mul(k, s_sub(r, r0)));
        V3 { x: s_mul(s_div(sep.x, r), f), y: s_mul(s_div(sep.y, r), f), z: s_mul(
            s_div(sep.z, r),
            f,
        ) }
    }
}

/// The saturating negation.
pub open spec fn clip_neg(v: int) -> int {
    crate::fixed::clip(0 - v)
}

/// Adds the harmonic force of one bond onto the two referenced atoms
/// (action on the second, reaction on the first) and returns the bond
/// energy.  Every field but the two force accumulators is untouched.
pub fn compute_bond_force(atoms: &mut Vec<Particle>, bond: &Bond, box_length: i64) -> (e: i64)
    requires
        all_wf(old(atoms)@),
        valid_length(box_length as int),
        bond.wf(),
        bond.atom1 < old(atoms)@.len(),
        bond.atom2 < old(atoms)@.len(),
    ensures
        final(atoms)@.len() == old(atoms)@.len(),
        all_wf(final(atoms)@),
        e as int == s_bond_energy(
            old(atoms)@[bond.atom1 as int].position.v(),
            old(atoms)@[bond.atom2 as int].position.v(),
            bond.k as int,
            bond.r0 as int,
            box_length as int,
        ),
        in_range(e as int),
        final(atoms)@ == bond_step(old(atoms)@, *bond, box_length as int),
{
    let i = bond.atom1;
    let j = bond.atom2;
    let a = atoms[i];
    let b = atoms[j];
    proof {
        assert(atoms@[i as int].wf());
        assert(atoms@[j as int].wf());
    }
    let sep = minimum_image_convention(b.position.minus(a.position), box_length);
    let r = sep.norm_fix();
    let dr = sat_sub(r, bond.r0);
    let kd = sat_mul(bond.k, dr);
    let f_mag = sat_sub(0, kd);
    let e = quot(sat_mul(bond.k, sat_mul(dr, dr)), 2);
    proof {
        crate::fixed::lemma_div_range(
            crate::fixed::s_mul(bond.k as int, crate::fixed::s_mul(dr as int, dr as int)),
            2,
            MAXF as int,
        );
    }
    if r > 0 {
        let f_vec = Vec3 {
            x: sat_mul(crate::fixed::sat_div(sep.x, r), f_mag),
            y: sat_mul(crate::fixed::sat_div(sep.y, r), f_mag),
            z: sat_mul(crate::fixed::sat_div(sep.z, r), f_mag),
        };
        let ghost pre = atoms@;
        let nf_j = atoms[j].force.plus(f_vec);
        atoms[j].force = nf_j;
        let nf_i = atoms[i].force.minus(f_vec);
        atoms[i].force = nf_i;
        proof {
            assert(atoms@ =~= bond_step(pre, *bond, box_length as int));
            assert forall|q: int| 0 <= q < atoms@.len() implies (#[trigger] atoms@[q]).wf() by {
                assert(pre[q].wf());
                if q != i as int && q != j as int {
                    assert(atoms@[q] == pre[q]);
                } else {
                    assert(atoms@[q].position == pre[q].position);
                    assert(atoms@[q].velocity == pre[q].velocity);
                    assert(atoms@[q].mass == pre[q].mass);
                    assert(atoms@[q].lj_parameters == pre[q].lj_parameters);
                    assert(atoms@[q].energy == pre[q].energy);
                    assert(atoms@[q].charge == pre[q].charge);
                    assert(atoms@[q].atom_type == pre[q].atom_type);
                    assert(atoms@[q].force.wf());
                }
            }
        }
        e
    } else {
        proof {
            assert(atoms@ =~= bond_step(old(atoms)@, *bond, box_length as int));
        }
        e
    }
}

/// The force-accumulator update one bond performs on an atom array:
/// action added to the second atom, reaction subtracted from the first.
pub open spec fn bond_step(ps: Seq<Particle>, b: Bond, l: int) -> Seq<Particle>
    recommends
        l > 0,
        b.atom1 < ps.len(),
        b.atom2 < ps.len(),
{
    let i = b.atom1 as int;
    let j = b.atom2 as int;
    let fv = s_bond_force(ps[i].position.v(), ps[j].position.v(), b.k as int, b.r0 as int, l);
    let r = s_norm(s_min_image_vec(v3_sub(ps[j].position.v(), ps[i].position.v()), l));
    if r <= 0 {
        ps
    } else {
        let ps1 = ps.update(
            j,
            Particle { force: v3_to_vec(v3_add(ps[j].force.v(), fv)), ..ps[j] },
        );
        ps1.update(i, Particle { force: v3_to_vec(v3_sub(ps1[i].force.v(), fv)), ..ps1[i] })
    }
}

/// An in-range mathematical vector as a concrete `Vec3`.
pub open spec fn v3_to_vec(a: V3) -> Vec3 {
    Vec3 { x: a.x as i64, y: a.y as i64, z: a.z as i64 }
}

/// The atom array after the first `t` bonds of `bs` have deposited
/// their forces, in order.
pub open spec fn s_bonds_applied(ps: Seq<Particle>, bs: Seq<Bond>, l: int, t: int) -> Seq<Particle>
    decreases t,
{
    if t <= 0 {
        ps
    } else {
        bond_step(s_bonds_applied(ps, bs, l, t - 1), bs[t - 1], l)
    }
}

/// The accumulated energy of the first `t` bonds, evaluated over the
/// fixed positions of `ps` (bond forces never move atoms).
pub open spec fn s_bond_energy_acc(ps: Seq<Particle>, bs: Seq<Bond>, l: int, t: int) -> int
    decreases t,
{
    if t <= 0 {
        0
    } else {
        crate::fixed::s_add(
            s_bond_energy_acc(ps, bs, l, t - 1),
            s_bond_energy(
                ps[bs[t - 1].atom1 as int].position.v(),
                ps[bs[t - 1].atom2 as int].position.v(),
                bs[t - 1].k as int,
                bs[t - 1].r0 as int,
                l,
            ),
        )
    }
}

/// Applies every bond's harmonic force to the atom array and returns
/// the total bond energy.
#[verifier::loop_isolation(false)]
pub fn apply_bonded_forces_and_energy(
    atoms: &mut Vec<Particle>,
    bonds: &Vec<Bond>,
    box_length: i64,
) -> (e: i64)
    requires
        all_wf(old(atoms)@),
        valid_length(box_length as int),
        forall|t: int|
            0 <= t < bonds@.len() ==> (#[trigger] bonds@[t]).wf() && bonds@[t].atom1 < old(
                atoms,
            )@.len() && bonds@[t].atom2 < old(atoms)@.len(),
    ensures
        final(atoms)@.len() == old(atoms)@.len(),
        all_wf(final(atoms)@),
        final(atoms)@ == s_bonds_applied(
            old(atoms)@,
            bonds@,
            box_length as int,
            bonds@.len() as int,
        ),
        e as int == s_bond_energy_acc(
            old(atoms)@,
            bonds@,
            box_length as int,
            bonds@.len() as int,
        ),
        in_range(e as int),
{
    let ghost ps0 = old(atoms)@;
    let ghost l = box_length as int;
    let nb = bonds.len();
    let mut e: i64 = 0;
    let mut t: usize = 0;
    while t < nb
        invariant
            t <= nb,
            atoms@.len() == ps0.len(),
            all_wf(atoms@),
            atoms@ == s_bonds_applied(ps0, bonds@, l, t as int),
            e as int == s_bond_energy_acc(ps0, bonds@, l, t as int),
            in_range(e as int),
        decreases nb - t,
    {
        let b = bonds[t];
        proof {
            lemma_bonds_applied_same_positions(ps0, bonds@, l, t as int);
        }
        let eb = compute_bond_force(atoms, &b, box_length);
        proof {
            assert(s_bond_energy(
                atoms@[b.atom1 as int].position.v(),
                atoms@[b.atom2 as int].position.v(),
                b.k as int,
                b.r0 as int,
                l,
            ) == s_bond_energy(
                ps0[b.atom1 as int].position.v(),
                ps0[b.atom2 as int].position.v(),
                b.k as int,
                b.r0 as int,
                l,
            ));
        }
        e = crate::fixed::sat_add(e, eb);
        t += 1;
    }
    e
}

/// Applying bonds changes force accumulators only: every position (and
/// every other field) is that of the original array.
pub proof fn lemma_bonds_applied_same_positions(
    ps: Seq<Particle>,
    bs: Seq<Bond>,
    l: int,
    t: int,
)
    requires
        0 <= t,
        forall|q: int|
            0 <= q < bs.len() ==> (#[trigger] bs[q]).atom1 < ps.len() && bs[q].atom2 < ps.len(),
        t <= bs.len(),
    ensures
        s_bonds_applied(ps, bs, l, t).len() == ps.len(),
        forall|q: int|
            0 <= q < ps.len() ==> crate::forces::same_but_force(
                #[trigger] s_bonds_applied(ps, bs, l, t)[q],
                ps[q],
            ),
    decreases t,
{
    if t > 0 {
        lemma_bonds_applied_same_positions(ps, bs, l, t - 1);
        let prev = s_bonds_applied(ps, bs, l, t - 1);
        let cur = s_bonds_applied(ps, bs, l, t);
        assert forall|q: int| 0 <= q < ps.len() implies crate::forces::same_but_force(
            #[trigger] cur[q],
            ps[q],
        ) by {
            assert(crate::forces::same_but_force(prev[q], ps[q]));
        }
    }
}

/// The fixed-point constant `4 pi` at the reference permittivity used
/// by the short-range Coulomb sum, with pi taken to two digits.
pub const FOUR_PI_EPS_FIX: i64 = 12_560_000;

/// One short-range Coulomb contribution: `q_i q_j / (4 pi eps_0)`
/// over the reference separation; zero at the singularity floor.
pub open spec fn s_pair_coulomb(qi: int, qj: int, r01: int) -> int {
    if r01 <= 0 {
        0
    } else {
        s_div(s_div(s_mul(qi, qj), FOUR_PI_EPS_FIX as int), r01)
    }
}

/// The flat accumulator of short-range Coulomb contributions over the
/// double loop's unordered pairs, all divided by the reference
/// separation of the first two atoms.
pub open spec fn s_coulomb_acc(ps: Seq<Particle>, r01: int, i: int, j: int) -> int
    decreases i, j,
{
    if i < 0 {
        0
    } else if i == 0 && j <= i + 1 {
        0
    } else if j <= i + 1 {
        s_coulomb_acc(ps, r01, i - 1, ps.len() as int)
    } else {
        crate::fixed::s_add(
            s_coulomb_acc(ps, r01, i, j - 1),
            s_pair_coulomb(ps[i].charge as int, ps[j - 1].charge as int, r01),
        )
    }
}

/// The short-range real-space Coulomb energy over all distinct pairs:
/// every pair's charge product divided by the separation of the first
/// two atoms, which serves as the short-range reference distance; with
/// fewer than two atoms the sum is empty.
pub fn compute_electostatic_bond_short_force(atoms: &mut Vec<Particle>, _box_length: i64) -> (e:
    i64)
    requires
        all_wf(old(atoms)@),
    ensures
        final(atoms)@ == old(atoms)@,
        old(atoms)@.len() >= 2 ==> e as int == s_coulomb_acc(
            old(atoms)@,
            s_norm(v3_sub(old(atoms)@[0].position.v(), old(atoms)@[1].position.v())),
            old(atoms)@.len() as int,
            old(atoms)@.len() as int + 1,
        ),
        old(atoms)@.len() < 2 ==> e == 0,
        in_range(e as int),
{
    let n = atoms.len();
    if n < 2 {
        return 0;
    }
    proof {
        assert(atoms@[0].wf());
        assert(atoms@[1].wf());
    }
    let ghost ps0 = atoms@;
    let r01 = atoms[0].position.minus(atoms[1].position).norm_fix();
    let mut acc: i64 = 0;
    let mut i: usize = 0;
    while i < n
        invariant
            n == atoms@.len(),
            atoms@ == ps0,
            all_wf(ps0),
            i <= n,
            r01 as int == s_norm(v3_sub(ps0[0].position.v(), ps0[1].position.v())),
            0 <= r01,
            in_range(acc as int),
            acc as int == s_coulomb_acc(ps0, r01 as int, i as int, i as int + 1),
        decreases n - i,
    {
        let mut j: usize = i + 1;
        while j < n
            invariant
                n == atoms@.len(),
                atoms@ == ps0,
                all_wf(ps0),
                i < n,
                i + 1 <= j <= n,
                r01 as int == s_norm(v3_sub(ps0[0].position.v(), ps0[1].position.v())),
                0 <= r01,
                in_range(acc as int),
                acc as int == s_coulomb_acc(ps0, r01 as int, i as int, j as int),
            decreases n - j,
        {
            proof {
                assert(atoms@[i as int].wf());
                assert(atoms@[j as int].wf());
            }
            let contribution = if r01 > 0 {
                crate::fixed::sat_div(
                    crate::fixed::sat_div(
                        sat_mul(atoms[i].charge, atoms[j].charge),
                        FOUR_PI_EPS_FIX,
                    ),
                    r01,
                )
            } else {
                0
            };
            acc = crate::fixed::sat_add(acc, contribution);
            j += 1;
        }
        i += 1;
    }
    acc
}

/// Adds the harmonic force of one bond between two particles of an
/// ensemble and returns the bond energy; the same evaluation as
/// `compute_bond_force`, under the name the nonbonded module's callers
/// use.
pub fn apply_bond_force(particles: &mut Vec<Particle>, b: &Bond, box_length: i64) -> (e: i64)
    requires
        all_wf(old(particles)@),
        valid_length(box_length as int),
        b.wf(),
        b.atom1 < old(particles)@.len(),
        b.atom2 < old(particles)@.len(),
    ensures
        final(particles)@.len() == old(particles)@.len(),
        all_wf(final(particles)@),
        e as int == s_bond_energy(
            old(particles)@[b.atom1 as int].position.v(),
            old(particles)@[b.atom2 as int].position.v(),
            b.k as int,
            b.r0 as int,
            box_length as int,
        ),
        in_range(e as int),
        final(particles)@ == bond_step(old(particles)@, *b, box_length as int),
{
    compute_bond_force(particles, b, box_length)
}

/// The exact content of the two-atom hydrogen template: two unit-mass
/// atoms on the x axis, the rest separation of 0.74 stretched by 0.05,
/// opposite y velocities, zero forces, and one stiff harmonic bond.
pub open spec fn is_h2_template(s: System) -> bool {
    &&& s.atoms@.len() == 2
    &&& s.atoms@[0] == (Particle {
        id: 0,
        position: (Vec3 { x: -395_000i64, y: 0i64, z: 0i64 }),
        velocity: (Vec3 { x: 1_000_000i64, y: 1_000_000i64, z: 1_000_000i64 }),
        force: (Vec3 { x: 0i64, y: 0i64, z: 0i64 }),
        lj_parameters: (LJParameters {
            epsilon: 1_000_000i64,
            sigma: 1_000_000i64,
            number_of_atoms: 3i32,
        }),
        mass: 1_000_000i64,
        energy: 0i64,
        atom_type: 0i64,
        charge: 0i64,
    })
    &&& s.atoms@[1] == (Particle {
        id: 1,
        position: (Vec3 { x: 395_000i64, y: 0i64, z: 0i64 }),
        velocity: (Vec3 { x: 1_000_000i64, y: -1_000_000i64, z: 1_000_000i64 }),
        force: (Vec3 { x: 0i64, y: 0i64, z: 0i64 }),
        lj_parameters: (LJParameters {
            epsilon: 1_000_000i64,
            sigma: 1_000_000i64,
            number_of_atoms: 3i32,
        }),
        mass: 1_000_000i64,
        energy: 0i64,
        atom_type: 0i64,
        charge: 0i64,
    })
    &&& s.bonds@.len() == 1
    &&& s.bonds@[0] == (Bond { atom1: 0, atom2: 1, k: 100_000_000i64, r0: 740_000i64 })
    &&& s.angles@.len() == 0
    &&& s.dihedrals@.len() == 0
    &&& s.impropers@.len() == 0
}

/// A diatomic hydrogen molecule: two unit-mass atoms a stretched bond
/// length apart, joined by one stiff harmonic bond, pinned field by
/// field by `is_h2_template`.
pub fn make_h2_system() -> (s: System)
    ensures
        s.wf(),
        is_h2_template(s),
{
    let lj = LJParameters { epsilon: 1_000_000, sigma: 1_000_000, number_of_atoms: 3 };
    let a0 = Particle {
        id: 0,
        position: Vec3 { x: -370_000 - 25_000, y: 0, z: 0 },
        velocity: Vec3 { x: 1_000_000, y: 1_000_000, z: 1_000_000 },
        force: Vec3::zero(),
        lj_parameters: lj,
        mass: 1_000_000,
        energy: 0,
        atom_type: 0,
        charge: 0,
    };
    let a1 = Particle {
        id: 1,
        position: Vec3 { x: 370_000 + 25_000, y: 0, z: 0 },
        velocity: Vec3 { x: 1_000_000, y: -1_000_000, z: 1_000_000 },
        force: Vec3::zero(),
        lj_parameters: lj,
        mass: 1_000_000,
        energy: 0,
        atom_type: 0,
        charge: 0,
    };
    let mut atoms: Vec<Particle> = Vec::new();
    atoms.push(a0);
    atoms.push(a1);
    let mut bonds: Vec<Bond> = Vec::new();
    bonds.push(Bond { atom1: 0, atom2: 1, k: 100_000_000, r0: 740_000 });
    let s = System { atoms, bonds, angles: Vec::new(), dihedrals: Vec::new(), impropers: Vec::new() };
    proof {
        assert forall|q: int| 0 <= q < s.atoms@.len() implies (#[trigger] s.atoms@[q]).wf() by {
        }
    }
    s
}

} // verus!
