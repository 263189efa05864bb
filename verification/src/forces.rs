//! Nonbonded force, energy, temperature, virial and pressure evaluation
//! for point particles under the minimum-image convention.
//!
//! The pairwise evaluator enumerates every unordered particle pair with
//! a double loop; a pair at exactly zero separation is a numerical
//! singularity and contributes nothing, never an error.

use vstd::prelude::*;
use crate::fixed::{
    clip, fsqrt, in_range, isqrt_wide, quot, s_add, s_div, s_mul, s_mul_raw, s_quot, sat_add,
    sat_mul_raw, MAXF, SCALE,
};
use crate::lj::{s_lj_force, s_lj_potential, lennard_jones_force_scalar, lennard_jones_potential};
use crate::particle::{all_wf, s_kinetic, LJParameters, Particle};
use crate::pbc::{s_min_image_vec, valid_length, minimum_image_convention};
use crate::vec3::{s_dot, s_norm, v3_add, v3_sub, v3_zero, V3, Vec3};

verus! {

/// Largest accepted particle count.
pub const COUNT_MAX: usize = 1_000_000_000;

/// The Lorentz-Berthelot mixed diameter: the arithmetic mean of the two
/// particle diameters.
pub open spec fn s_mix_sigma(a: LJParameters, b: LJParameters) -> int {
    s_quot(s_add(a.sigma as int, b.sigma as int), 2)
}

/// The Lorentz-Berthelot mixed well depth: the geometric mean of the
/// two particle well depths (the `SCALE` factors of the fixed-point
/// values cancel under the square root).
pub open spec fn s_mix_epsilon(a: LJParameters, b: LJParameters) -> int {
    clip(fsqrt((a.epsilon as int) * (b.epsilon as int)))
}

/// The minimum-image separation vector from `a` to `b`.
pub open spec fn s_pair_sep(ap: V3, bp: V3, l: int) -> V3
    recommends
        l > 0,
{
    s_min_image_vec(v3_sub(bp, ap), l)
}

/// The Lennard-Jones force vector that the pair exerts on the second
/// particle (the first receives its negation); zero for a pair at
/// exactly zero separation.
pub open spec fn s_pair_force(ap: V3, bp: V3, alj: LJParameters, blj: LJParameters, l: int) -> V3
    recommends
        l > 0,
{
    let sep = s_pair_sep(ap, bp, l);
    let r = s_norm(sep);
    if r <= 0 {
        v3_zero()
    } else {
        let f = s_lj_force(r, s_mix_sigma(alj, blj), s_mix_epsilon(alj, blj));
        V3 { x: s_mul(s_div(sep.x, r), f), y: s_mul(s_div(sep.y, r), f), z: s_mul(
            s_div(sep.z, r),
            f,
        ) }
    }
}

/// The Lennard-Jones pair energy under minimum-image separation.
pub open spec fn s_pair_energy(ap: V3, bp: V3, alj: LJParameters, blj: LJParameters, l: int) -> int
    recommends
        l > 0,
{
    let r = s_norm(s_pair_sep(ap, bp, l));
    s_lj_potential(r, s_mix_sigma(alj, blj), s_mix_epsilon(alj, blj))
}

/// The pair's virial contribution: the dot product of the minimum-image
/// separation with the pair force.
pub open spec fn s_pair_virial(ap: V3, bp: V3, alj: LJParameters, blj: LJParameters, l: int) -> int
    recommends
        l > 0,
{
    s_dot(s_pair_sep(ap, bp, l), s_pair_force(ap, bp, alj, blj, l))
}

/// The mixed diameter of two particles' parameters.
pub fn mix_sigma(a: &LJParameters, b: &LJParameters) -> (r: i64)
    requires
        a.wf(),
        b.wf(),
    ensures
        r as int == s_mix_sigma(*a, *b),
        0 <= r <= MAXF,
{
    proof {
        vstd::arithmetic::div_mod::lemma_div_pos_is_pos(
            s_add(a.sigma as int, b.sigma as int),
            2,
        );
        crate::fixed::lemma_div_range(s_add(a.sigma as int, b.sigma as int), 2, MAXF as int);
    }
    quot(sat_add(a.sigma, b.sigma), 2)
}

/// The mixed well depth of two particles' parameters.
pub fn mix_epsilon(a: &LJParameters, b: &LJParameters) -> (r: i64)
    requires
        a.wf(),
        b.wf(),
    ensures
        r as int == s_mix_epsilon(*a, *b),
        0 <= r <= MAXF,
{
    proof {
        assert(0 <= (a.epsilon as int) * (b.epsilon as int)
            <= 1_000_000_000_000_000_000_000_000_000_000_000_000int) by (nonlinear_arith)
            requires
                0 <= a.epsilon as int <= 1_000_000_000_000_000_000int,
                0 <= b.epsilon as int <= 1_000_000_000_000_000_000int,
        ;
    }
    let prod: u128 = (a.epsilon as u128) * (b.epsilon as u128);
    let root = isqrt_wide(prod);
    if root > MAXF as u128 {
        MAXF
    } else {
        root as i64
    }
}

/// The pair force on the second particle, computed from the two
/// particles' positions and Lennard-Jones parameters.
pub fn pair_force_between(a: &Particle, b: &Particle, box_length: i64) -> (r: Vec3)
    requires
        a.wf(),
        b.wf(),
        valid_length(box_length as int),
    ensures
        r.v() == s_pair_force(
            a.position.v(),
            b.position.v(),
            a.lj_parameters,
            b.lj_parameters,
            box_length as int,
        ),
        r.wf(),
{
    let sep = minimum_image_convention(b.position.minus(a.position), box_length);
    let rr = sep.norm_fix();
    if rr <= 0 {
        return Vec3::zero();
    }
    let sg = mix_sigma(&a.lj_parameters, &b.lj_parameters);
    let ep = mix_epsilon(&a.lj_parameters, &b.lj_parameters);
    let f = lennard_jones_force_scalar(rr, sg, ep);
    Vec3 {
        x: crate::fixed::sat_mul(crate::fixed::sat_div(sep.x, rr), f),
        y: crate::fixed::sat_mul(crate::fixed::sat_div(sep.y, rr), f),
        z: crate::fixed::sat_mul(crate::fixed::sat_div(sep.z, rr), f),
    }
}

/// The pair energy of two particles.
pub fn pair_energy_between(a: &Particle, b: &Particle, box_length: i64) -> (r: i64)
    requires
        a.wf(),
        b.wf(),
        valid_length(box_length as int),
    ensures
        r as int == s_pair_energy(
            a.position.v(),
            b.position.v(),
            a.lj_parameters,
            b.lj_parameters,
            box_length as int,
        ),
        in_range(r as int),
{
    let sep = minimum_image_convention(b.position.minus(a.position), box_length);
    let rr = sep.norm_fix();
    let sg = mix_sigma(&a.lj_parameters, &b.lj_parameters);
    let ep = mix_epsilon(&a.lj_parameters, &b.lj_parameters);
    lennard_jones_potential(rr, sg, ep)
}

/// The pair virial of two particles.
pub fn pair_virial_between(a: &Particle, b: &Particle, box_length: i64) -> (r: i64)
    requires
        a.wf(),
        b.wf(),
        valid_length(box_length as int),
    ensures
        r as int == s_pair_virial(
            a.position.v(),
            b.position.v(),
            a.lj_parameters,
            b.lj_parameters,
            box_length as int,
        ),
        in_range(r as int),
{
    let sep = minimum_image_convention(b.position.minus(a.position), box_length);
    let f = pair_force_between(a, b, box_length);
    sep.dot_fix(f)
}

/// The flat accumulator of pair energies, in the order the double loop
/// visits unordered pairs: all pairs `(a, b)` with `a < i`, then the
/// pairs `(i, b)` with `b < j`.
pub open spec fn s_energy_acc(ps: Seq<Particle>, l: int, i: int, j: int) -> int
    decreases i, j,
{
    if i < 0 {
        0
    } else if i == 0 && j <= i + 1 {
        0
    } else if j <= i + 1 {
        s_energy_acc(ps, l, i - 1, ps.len() as int)
    } else {
        s_add(
            s_energy_acc(ps, l, i, j - 1),
            s_pair_energy(
                ps[i].position.v(),
                ps[j - 1].position.v(),
                ps[i].lj_parameters,
                ps[j - 1].lj_parameters,
                l,
            ),
        )
    }
}

/// The total Lennard-Jones energy over all unordered pairs, accumulated
/// in double-loop order with saturating addition.
pub open spec fn s_total_energy(ps: Seq<Particle>, l: int) -> int {
    s_energy_acc(ps, l, ps.len() as int, ps.len() as int + 1)
}

/// The flat accumulator of pair virials, in double-loop order.
pub open spec fn s_virial_acc(ps: Seq<Particle>, l: int, i: int, j: int) -> int
    decreases i, j,
{
    if i < 0 {
        0
    } else if i == 0 && j <= i + 1 {
        0
    } else if j <= i + 1 {
        s_virial_acc(ps, l, i - 1, ps.len() as int)
    } else {
        s_add(
            s_virial_acc(ps, l, i, j - 1),
            s_pair_virial(
                ps[i].position.v(),
                ps[j - 1].position.v(),
                ps[i].lj_parameters,
                ps[j - 1].lj_parameters,
                l,
            ),
        )
    }
}

/// The total virial over all unordered pairs.
pub open spec fn s_total_virial(ps: Seq<Particle>, l: int) -> int {
    s_virial_acc(ps, l, ps.len() as int, ps.len() as int + 1)
}

/// The accumulated kinetic energy of the first `i` particles.
pub open spec fn s_ke_acc(ps: Seq<Particle>, i: int) -> int
    decreases i,
{
    if i <= 0 {
        0
    } else {
        s_add(s_ke_acc(ps, i - 1), s_kinetic(ps[i - 1]))
    }
}

/// Accumulated kinetic energy stays within the saturation bound.
pub proof fn lemma_ke_acc_in_range(ps: Seq<Particle>, i: int)
    ensures
        in_range(s_ke_acc(ps, i)),
    decreases i,
{
    if i > 0 {
        lemma_ke_acc_in_range(ps, i - 1);
    }
}

/// The accumulated pair energy stays within the saturation bound.
pub proof fn lemma_energy_acc_in_range(ps: Seq<Particle>, l: int, i: int, j: int)
    ensures
        in_range(s_energy_acc(ps, l, i, j)),
    decreases i, j,
{
    if i < 0 {
    } else if i == 0 && j <= i + 1 {
    } else if j <= i + 1 {
        lemma_energy_acc_in_range(ps, l, i - 1, ps.len() as int);
    } else {
        lemma_energy_acc_in_range(ps, l, i, j - 1);
    }
}

/// The instantaneous temperature for a degrees-of-freedom count `dof`:
/// `2 KE / dof`, zero for a degenerate count.
pub open spec fn s_temperature(ps: Seq<Particle>, dof: int) -> int {
    if dof <= 0 {
        0
    } else {
        clip((2 * s_ke_acc(ps, ps.len() as int)) / dof)
    }
}

/// The total Lennard-Jones energy over all distinct pairs.
pub fn pair_energy_total(particles: &Vec<Particle>, box_length: i64) -> (e: i64)
    requires
        all_wf(particles@),
        valid_length(box_length as int),
    ensures
        e as int == s_total_energy(particles@, box_length as int),
        in_range(e as int),
{
    let n = particles.len();
    let ghost ps0 = particles@;
    let ghost l = box_length as int;
    let mut acc: i64 = 0;
    let mut i: usize = 0;
    while i < n
        invariant
            n == particles@.len(),
            particles@ == ps0,
            all_wf(ps0),
            valid_length(l),
            l == box_length as int,
            i <= n,
            in_range(acc as int),
            acc as int == s_energy_acc(ps0, l, i as int, i as int + 1),
        decreases n - i,
    {
        let mut j: usize = i + 1;
        while j < n
            invariant
                n == particles@.len(),
                particles@ == ps0,
                all_wf(ps0),
                valid_length(l),
                l == box_length as int,
                i < n,
                i + 1 <= j <= n,
                in_range(acc as int),
                acc as int == s_energy_acc(ps0, l, i as int, j as int),
            decreases n - j,
        {
            let a = particles[i];
            let b = particles[j];
            let pot = pair_energy_between(&a, &b, box_length);
            acc = sat_add(acc, pot);
            j += 1;
        }
        i += 1;
    }
    acc
}

/// The total Lennard-Jones energy over all distinct pairs (site-site
/// sum); the particle array is untouched.
pub fn site_site_energy_calculation(particles: &mut Vec<Particle>, box_length: i64) -> (e: i64)
    requires
        all_wf(old(particles)@),
        valid_length(box_length as int),
    ensures
        *final(particles) == *old(particles),
        e as int == s_total_energy(old(particles)@, box_length as int),
        in_range(e as int),
{
    pair_energy_total(particles, box_length)
}

/// The accumulated pair energy among the occupants of one cell, over
/// the in-cell double loop's visiting order: all pairs with first
/// position below `i`, then `(i, b)` for `b` below `j`.
pub open spec fn s_cell_self_acc(ps: Seq<Particle>, la: Seq<usize>, l: int, i: int, j: int) -> int
    decreases i, j,
{
    if i < 0 {
        0
    } else if i == 0 && j <= i + 1 {
        0
    } else if j <= i + 1 {
        s_cell_self_acc(ps, la, l, i - 1, la.len() as int)
    } else {
        s_add(
            s_cell_self_acc(ps, la, l, i, j - 1),
            s_pair_energy(
                ps[la[i] as int].position.v(),
                ps[la[j - 1] as int].position.v(),
                ps[la[i] as int].lj_parameters,
                ps[la[j - 1] as int].lj_parameters,
                l,
            ),
        )
    }
}

/// The total pair energy among one cell's occupants.
pub open spec fn s_cell_self_total(ps: Seq<Particle>, la: Seq<usize>, l: int) -> int {
    s_cell_self_acc(ps, la, l, la.len() as int, la.len() as int + 1)
}

/// The accumulated pair energy across two distinct cells, row-major
/// over the occupant lists: all rows below `i`, then row `i` up to
/// column `j`.
pub open spec fn s_cell_cross_acc(
    ps: Seq<Particle>,
    la: Seq<usize>,
    lb: Seq<usize>,
    l: int,
    i: int,
    j: int,
) -> int
    decreases i, j,
{
    if i < 0 {
        0
    } else if i == 0 && j <= 0 {
        0
    } else if j <= 0 {
        s_cell_cross_acc(ps, la, lb, l, i - 1, lb.len() as int)
    } else {
        s_add(
            s_cell_cross_acc(ps, la, lb, l, i, j - 1),
            s_pair_energy(
                ps[la[i] as int].position.v(),
                ps[lb[j - 1] as int].position.v(),
                ps[la[i] as int].lj_parameters,
                ps[lb[j - 1] as int].lj_parameters,
                l,
            ),
        )
    }
}

/// The total pair energy across two distinct cells.
pub open spec fn s_cell_cross_total(ps: Seq<Particle>, la: Seq<usize>, lb: Seq<usize>, l: int)
    -> int {
    s_cell_cross_acc(ps, la, lb, l, la.len() as int, 0)
}

/// The energy contribution of one cell pair: the in-cell sum for a
/// cell paired with itself, the cross sum otherwise.
pub open spec fn s_cell_block(
    ps: Seq<Particle>,
    cells: Seq<Seq<usize>>,
    pr: (usize, usize),
    l: int,
) -> int {
    if pr.0 == pr.1 {
        s_cell_self_total(ps, cells[pr.0 as int], l)
    } else {
        s_cell_cross_total(ps, cells[pr.0 as int], cells[pr.1 as int], l)
    }
}

/// The accumulated block energies of the first `k` cell pairs.
pub open spec fn s_celled_acc(
    ps: Seq<Particle>,
    cells: Seq<Seq<usize>>,
    prs: Seq<(usize, usize)>,
    l: int,
    k: int,
) -> int
    decreases k,
{
    if k <= 0 {
        0
    } else {
        s_add(s_celled_acc(ps, cells, prs, l, k - 1), s_cell_block(ps, cells, prs[k - 1], l))
    }
}

/// The cell-path total energy: the block energies of every canonical
/// close cell pair, accumulated in enumeration order.
pub open spec fn s_celled_energy(
    ps: Seq<Particle>,
    cells: Seq<Seq<usize>>,
    n: int,
    rc: int,
    l: int,
) -> int {
    let prs = crate::grid::s_close_pairs(n, rc);
    s_celled_acc(ps, cells, prs, l, prs.len() as int)
}

/// The production nonbonded energy path over the cell decomposition:
/// enumerates the deduplicated cell pairs within the cell cutoff and
/// sums the Lennard-Jones energy over the occupants of each pair, each
/// in-cell pair once and each cross-cell pair once, exactly the
/// `s_celled_energy` fold.  The all-pairs sum of
/// `site_site_energy_calculation` is the reference oracle for this
/// path: with a cutoff covering the whole grid the two visit the same
/// pairs, grouped differently, so away from the saturation bound they
/// agree exactly.
pub fn site_site_energy_celled(
    particles: &Vec<Particle>,
    grid: &crate::grid::SpatialGrid,
    box_length: i64,
    cutoff_cells: usize,
) -> (e: i64)
    requires
        all_wf(particles@),
        valid_length(box_length as int),
        grid.wf(),
        crate::grid::partitions(
            grid.view_cells(),
            particles@,
            box_length as int,
            grid.n as int,
        ),
        cutoff_cells <= 3 * crate::grid::GRID_MAX,
    ensures
        e as int == s_celled_energy(
            particles@,
            grid.view_cells(),
            grid.n as int,
            cutoff_cells as int,
            box_length as int,
        ),
        in_range(e as int),
{
    let pairs = grid.neighbor_cell_pairs(cutoff_cells);
    let npairs = pairs.len();
    let ghost cellview = grid.view_cells();
    let ghost prs = pairs@;
    let ghost ps0 = particles@;
    let ghost l = box_length as int;
    let mut e: i64 = 0;
    let mut k: usize = 0;
    while k < npairs
        invariant
            npairs == pairs@.len(),
            prs == pairs@,
            k <= npairs,
            all_wf(particles@),
            particles@ == ps0,
            l == box_length as int,
            valid_length(l),
            grid.wf(),
            cellview == grid.view_cells(),
            crate::grid::partitions(cellview, ps0, l, grid.n as int),
            forall|q: int|
                0 <= q < pairs@.len() ==> (#[trigger] pairs@[q]).0 <= pairs@[q].1 && (
                pairs@[q].1 as int) < (grid.n * grid.n * grid.n) as int,
            in_range(e as int),
            e as int == s_celled_acc(ps0, cellview, prs, l, k as int),
        decreases npairs - k,
    {
        let (c1, c2) = pairs[k];
        proof {
            assert(cellview.len() == (grid.n as int) * (grid.n as int) * (grid.n as int));
            assert(0 <= (grid.n as int) * (grid.n as int) * (grid.n as int)
                == (grid.n * grid.n * grid.n) as int) by (nonlinear_arith)
                requires
                    1 <= (grid.n as int) && (grid.n as int) <= 64,
                    (grid.n * grid.n * grid.n) as int == (grid.n as int) * (grid.n as int) * (
                    grid.n as int),
            ;
            assert((c1 as int) < cellview.len() && (c2 as int) < cellview.len());
        }
        let la = grid.cells[c1].len();
        let lb = grid.cells[c2].len();
        let mut sub: i64 = 0;
        if c1 == c2 {
            let ghost lseq = cellview[c1 as int];
            let mut ai: usize = 0;
            while ai < la
                invariant
                    la == lseq.len(),
                    lseq == cellview[c1 as int],
                    (c1 as int) < cellview.len(),
                    cellview == grid.view_cells(),
                    particles@ == ps0,
                    l == box_length as int,
                    ai <= la,
                    all_wf(ps0),
                    valid_length(l),
                    crate::grid::partitions(cellview, ps0, l, grid.n as int),
                    in_range(sub as int),
                    sub as int == s_cell_self_acc(ps0, lseq, l, ai as int, ai as int + 1),
                decreases la - ai,
            {
                let mut bi: usize = ai + 1;
                while bi < la
                    invariant
                        la == lseq.len(),
                        lseq == cellview[c1 as int],
                        (c1 as int) < cellview.len(),
                        cellview == grid.view_cells(),
                        particles@ == ps0,
                        l == box_length as int,
                        ai < la,
                        ai + 1 <= bi <= la,
                        all_wf(ps0),
                        valid_length(l),
                        crate::grid::partitions(cellview, ps0, l, grid.n as int),
                        in_range(sub as int),
                        sub as int == s_cell_self_acc(ps0, lseq, l, ai as int, bi as int),
                    decreases la - bi,
                {
                    let i = grid.cells[c1][ai];
                    let j = grid.cells[c1][bi];
                    proof {
                        assert(cellview[c1 as int][ai as int] == i);
                        assert(cellview[c1 as int][bi as int] == j);
                        assert((i as int) < ps0.len());
                        assert((j as int) < ps0.len());
                        assert(ps0[i as int].wf());
                        assert(ps0[j as int].wf());
                    }
                    let a = particles[i];
                    let b = particles[j];
                    let pot = pair_energy_between(&a, &b, box_length);
                    sub = sat_add(sub, pot);
                    bi += 1;
                }
                ai += 1;
            }
        } else {
            let ghost aseq = cellview[c1 as int];
            let ghost bseq = cellview[c2 as int];
            let mut ai: usize = 0;
            while ai < la
                invariant
                    la == aseq.len(),
                    lb == bseq.len(),
                    aseq == cellview[c1 as int],
                    bseq == cellview[c2 as int],
                    (c1 as int) < cellview.len(),
                    (c2 as int) < cellview.len(),
                    cellview == grid.view_cells(),
                    particles@ == ps0,
                    l == box_length as int,
                    ai <= la,
                    all_wf(ps0),
                    valid_length(l),
                    crate::grid::partitions(cellview, ps0, l, grid.n as int),
                    in_range(sub as int),
                    sub as int == s_cell_cross_acc(ps0, aseq, bseq, l, ai as int, 0),
                decreases la - ai,
            {
                let mut bi: usize = 0;
                while bi < lb
                    invariant
                        la == aseq.len(),
                        lb == bseq.len(),
                        aseq == cellview[c1 as int],
                        bseq == cellview[c2 as int],
                        (c1 as int) < cellview.len(),
                        (c2 as int) < cellview.len(),
                        cellview == grid.view_cells(),
                        particles@ == ps0,
                        l == box_length as int,
                        ai < la,
                        bi <= lb,
                        all_wf(ps0),
                        valid_length(l),
                        crate::grid::partitions(cellview, ps0, l, grid.n as int),
                        in_range(sub as int),
                        sub as int == s_cell_cross_acc(ps0, aseq, bseq, l, ai as int, bi as int),
                    decreases lb - bi,
                {
                    let i = grid.cells[c1][ai];
                    let j = grid.cells[c2][bi];
                    proof {
                        assert(cellview[c1 as int][ai as int] == i);
                        assert(cellview[c2 as int][bi as int] == j);
                        assert((i as int) < ps0.len());
                        assert((j as int) < ps0.len());
                        assert(ps0[i as int].wf());
                        assert(ps0[j as int].wf());
                    }
                    let a = particles[i];
                    let b = particles[j];
                    let pot = pair_energy_between(&a, &b, box_length);
                    sub = sat_add(sub, pot);
                    bi += 1;
                }
                ai += 1;
            }
        }
        proof {
            assert(sub as int == s_cell_block(ps0, cellview, prs[k as int], l));
        }
        e = sat_add(e, sub);
        k += 1;
    }
    e
}

/// The total virial over all distinct pairs; the particle array is
/// untouched.
pub fn compute_virial_particles(particles: &Vec<Particle>, box_length: i64) -> (w: i64)
    requires
        all_wf(particles@),
        valid_length(box_length as int),
    ensures
        w as int == s_total_virial(particles@, box_length as int),
        in_range(w as int),
{
    let n = particles.len();
    let ghost ps0 = particles@;
    let ghost l = box_length as int;
    let mut acc: i64 = 0;
    let mut i: usize = 0;
    while i < n
        invariant
            n == particles@.len(),
            particles@ == ps0,
            all_wf(ps0),
            valid_length(l),
            l == box_length as int,
            i <= n,
            in_range(acc as int),
            acc as int == s_virial_acc(ps0, l, i as int, i as int + 1),
        decreases n - i,
    {
        let mut j: usize = i + 1;
        while j < n
            invariant
                n == particles@.len(),
                particles@ == ps0,
                all_wf(ps0),
                valid_length(l),
                l == box_length as int,
                i < n,
                i + 1 <= j <= n,
                in_range(acc as int),
                acc as int == s_virial_acc(ps0, l, i as int, j as int),
            decreases n - j,
        {
            let a = particles[i];
            let b = particles[j];
            let wij = pair_virial_between(&a, &b, box_length);
            acc = sat_add(acc, wij);
            j += 1;
        }
        i += 1;
    }
    acc
}

/// The total kinetic energy of a particle set, accumulated with
/// saturating addition.
pub fn kinetic_energy_total(particles: &Vec<Particle>) -> (ke: i64)
    requires
        all_wf(particles@),
    ensures
        ke as int == s_ke_acc(particles@, particles@.len() as int),
        0 <= ke <= MAXF,
{
    let n = particles.len();
    let ghost ps0 = particles@;
    let mut ke: i64 = 0;
    let mut i: usize = 0;
    while i < n
        invariant
            n == particles@.len(),
            particles@ == ps0,
            all_wf(ps0),
            i <= n,
            0 <= ke <= MAXF,
            ke as int == s_ke_acc(ps0, i as int),
        decreases n - i,
    {
        let p = particles[i];
        let k = p.kinetic_energy();
        ke = sat_add(ke, k);
        i += 1;
    }
    ke
}

/// The instantaneous temperature of a particle set from its kinetic
/// energy and a degrees-of-freedom count; zero when `dof` is zero.
pub fn compute_temperature_particles(particles: &Vec<Particle>, dof: usize) -> (t: i64)
    requires
        all_wf(particles@),
    ensures
        t as int == s_temperature(particles@, dof as int),
        0 <= t <= MAXF,
{
    if dof == 0 {
        return 0;
    }
    let ke = kinetic_energy_total(particles);
    let twice: u64 = 2 * (ke as u64);
    let t: u64 = twice / (dof as u64);
    proof {
        vstd::arithmetic::div_mod::lemma_div_pos_is_pos(2 * ke as int, dof as int);
        crate::fixed::lemma_div_range(2 * ke as int, dof as int, 2 * MAXF as int);
    }
    if t > MAXF as u64 {
        MAXF
    } else {
        t as i64
    }
}

/// The box volume in fixed-point form: `(l / SCALE)^3 * SCALE`, i.e.
/// the raw cube rescaled by `SCALE^2`.
pub open spec fn s_volume(l: int) -> int {
    (l * l * l) / ((SCALE as int) * (SCALE as int))
}

/// The instantaneous virial-route pressure
/// `(N T + sum of r . F over pairs) / (3 V)`, with temperature taken at
/// `3 N` degrees of freedom; zero for a box below the volume
/// resolution.
pub open spec fn s_pressure(ps: Seq<Particle>, l: int) -> int {
    let vol = s_volume(l);
    if vol <= 0 {
        0
    } else {
        let t = s_temperature(ps, 3 * ps.len() as int);
        let nt = s_mul_raw(ps.len() as int, t);
        s_div(s_add(nt, s_total_virial(ps, l)), s_mul_raw(3, vol))
    }
}

/// The instantaneous pressure of a particle set via the virial route.
pub fn compute_pressure_particles(particles: &Vec<Particle>, box_length: i64) -> (p: i64)
    requires
        all_wf(particles@),
        valid_length(box_length as int),
        particles@.len() <= COUNT_MAX,
    ensures
        p as int == s_pressure(particles@, box_length as int),
        in_range(p as int),
{
    let lw: i128 = box_length as i128;
    proof {
        assert(0 < lw as int * lw as int * lw as int
            <= 8_000_000_000_000_000_000_000_000_000int
            && 0 < lw as int * lw as int <= 4_000_000_000_000_000_000int) by (nonlinear_arith)
            requires
                0 < lw as int <= 2_000_000_000int,
        ;
        crate::fixed::lemma_div_range(
            lw as int * lw as int * lw as int,
            1_000_000_000_000int,
            8_000_000_000_000_000_000_000_000_000int,
        );
        vstd::arithmetic::div_mod::lemma_div_pos_is_pos(
            lw as int * lw as int * lw as int,
            1_000_000_000_000int,
        );
    }
    let cube: i128 = lw * lw * lw;
    let volw: i128 = cube.checked_div_euclid(1_000_000_000_000).unwrap();
    if volw <= 0 {
        return 0;
    }
    proof {
        assert(volw <= 8_000_000_000_000_000i128) by {
            crate::fixed::lemma_div_range(
                cube as int,
                1_000_000_000_000int,
                8_000_000_000_000_000_000_000_000_000int,
            );
            vstd::arithmetic::div_mod::lemma_div_is_ordered(
                cube as int,
                8_000_000_000_000_000_000_000_000_000int,
                1_000_000_000_000int,
            );
        }
    }
    let vol: i64 = volw as i64;
    let dof: usize = 3 * particles.len();
    let t = compute_temperature_particles(particles, dof);
    let nt = sat_mul_raw(particles.len() as i64, t);
    let w = compute_virial_particles(particles, box_length);
    let total = sat_add(nt, w);
    let denom = sat_mul_raw(3, vol);
    crate::fixed::sat_div(total, denom)
}

/// The same particle sequence with every force accumulator zeroed.
pub open spec fn s_zeroed(ps: Seq<Particle>) -> Seq<Particle> {
    ps.map_values(|p: Particle| Particle { force: Vec3 { x: 0, y: 0, z: 0 }, ..p })
}

/// Resets every force accumulator to zero; every other field is
/// untouched.
pub fn zero_forces(particles: &mut Vec<Particle>)
    requires
        all_wf(old(particles)@),
    ensures
        final(particles)@ == s_zeroed(old(particles)@),
        all_wf(final(particles)@),
        final(particles)@.len() == old(particles)@.len(),
{
    let n = particles.len();
    let mut i: usize = 0;
    while i < n
        invariant
            n == particles@.len(),
            n == old(particles)@.len(),
            i <= n,
            all_wf(particles@),
            forall|k: int|
                0 <= k < i ==> #[trigger] particles@[k] == s_zeroed(old(particles)@)[k],
            forall|k: int| i <= k < n ==> #[trigger] particles@[k] == old(particles)@[k],
        decreases n - i,
    {
        proof {
            assert(particles@[i as int].wf());
        }
        let ghost pre = particles@;
        particles[i].force = Vec3 { x: 0, y: 0, z: 0 };
        proof {
            assert forall|k: int| 0 <= k < n implies (#[trigger] particles@[k]).wf() by {
                assert(pre[k].wf());
                if k != i as int {
                    assert(particles@[k] == pre[k]);
                } else {
                    assert(particles@[k].force.wf());
                    assert(particles@[k].position == pre[k].position);
                    assert(particles@[k].velocity == pre[k].velocity);
                    assert(particles@[k].mass == pre[k].mass);
                    assert(particles@[k].lj_parameters == pre[k].lj_parameters);
                }
            }
            assert(particles@[i as int] == s_zeroed(old(particles)@)[i as int]);
        }
        i += 1;
    }
    proof {
        assert(particles@ =~= s_zeroed(old(particles)@));
    }
}

/// A separation component times its own force component never points
/// against a nonnegative force magnitude: the per-component virial
/// contribution is nonnegative.
proof fn lemma_component_virial_nonneg(c: int, r: int, f: int)
    requires
        0 < r,
        in_range(c),
        0 <= f,
    ensures
        c * s_mul(s_div(c, r), f) >= 0,
{
    let sc = SCALE as int;
    vstd::arithmetic::div_mod::lemma_div_of0(r);
    vstd::arithmetic::div_mod::lemma_div_of0(sc);
    let u = s_div(c, r);
    let fv = s_mul(u, f);
    if c >= 0 {
        assert(c * sc >= 0) by (nonlinear_arith)
            requires
                c >= 0,
                sc > 0,
        ;
        vstd::arithmetic::div_mod::lemma_div_pos_is_pos(c * sc, r);
        assert(u >= 0);
        assert(u * f >= 0) by (nonlinear_arith)
            requires
                u >= 0,
                f >= 0,
        ;
        vstd::arithmetic::div_mod::lemma_div_pos_is_pos(u * f, sc);
        assert(fv >= 0);
        assert(c * fv >= 0) by (nonlinear_arith)
            requires
                c >= 0,
                fv >= 0,
        ;
    } else {
        assert(c * sc <= 0) by (nonlinear_arith)
            requires
                c < 0,
                sc > 0,
        ;
        vstd::arithmetic::div_mod::lemma_div_is_ordered(c * sc, 0, r);
        assert(u <= 0);
        assert(u * f <= 0) by (nonlinear_arith)
            requires
                u <= 0,
                f >= 0,
        ;
        vstd::arithmetic::div_mod::lemma_div_is_ordered(u * f, 0, sc);
        assert(fv <= 0);
        assert(c * fv >= 0) by (nonlinear_arith)
            requires
                c < 0,
                fv <= 0,
        ;
    }
}

/// The mirror image: against a nonpositive force magnitude every
/// per-component virial contribution is nonpositive.
proof fn lemma_component_virial_nonpos(c: int, r: int, f: int)
    requires
        0 < r,
        in_range(c),
        f <= 0,
    ensures
        c * s_mul(s_div(c, r), f) <= 0,
{
    let sc = SCALE as int;
    vstd::arithmetic::div_mod::lemma_div_of0(r);
    vstd::arithmetic::div_mod::lemma_div_of0(sc);
    let u = s_div(c, r);
    let fv = s_mul(u, f);
    if c >= 0 {
        assert(c * sc >= 0) by (nonlinear_arith)
            requires
                c >= 0,
                sc > 0,
        ;
        vstd::arithmetic::div_mod::lemma_div_pos_is_pos(c * sc, r);
        assert(u >= 0);
        assert(u * f <= 0) by (nonlinear_arith)
            requires
                u >= 0,
                f <= 0,
        ;
        vstd::arithmetic::div_mod::lemma_div_is_ordered(u * f, 0, sc);
        assert(fv <= 0);
        assert(c * fv <= 0) by (nonlinear_arith)
            requires
                c >= 0,
                fv <= 0,
        ;
    } else {
        assert(c * sc <= 0) by (nonlinear_arith)
            requires
                c < 0,
                sc > 0,
        ;
        vstd::arithmetic::div_mod::lemma_div_is_ordered(c * sc, 0, r);
        assert(u <= 0);
        assert(u * f >= 0) by (nonlinear_arith)
            requires
                u <= 0,
                f <= 0,
        ;
        vstd::arithmetic::div_mod::lemma_div_pos_is_pos(u * f, sc);
        assert(fv >= 0);
        assert(c * fv <= 0) by (nonlinear_arith)
            requires
                c < 0,
                fv >= 0,
        ;
    }
}

/// A pair in the repulsive regime -- separated at or inside the mixed
/// diameter, away from the deep-overlap saturation floor, with a
/// nonzero mixed well depth -- contributes a nonnegative virial.
pub proof fn lemma_pair_virial_repulsive(
    ap: V3,
    bp: V3,
    alj: LJParameters,
    blj: LJParameters,
    l: int,
)
    requires
        valid_length(l),
        0 < s_norm(s_pair_sep(ap, bp, l)) <= 20_000_000,
        s_norm(s_pair_sep(ap, bp, l)) <= s_mix_sigma(alj, blj),
        s_mix_sigma(alj, blj) <= 90 * s_norm(s_pair_sep(ap, bp, l)),
        1 <= s_mix_epsilon(alj, blj),
    ensures
        s_pair_virial(ap, bp, alj, blj, l) >= 0,
{
    let sep = s_pair_sep(ap, bp, l);
    let r = s_norm(sep);
    crate::lj::lemma_lj_force_repulsive(r, s_mix_sigma(alj, blj), s_mix_epsilon(alj, blj));
    let f = crate::lj::s_lj_force(r, s_mix_sigma(alj, blj), s_mix_epsilon(alj, blj));
    lemma_component_virial_nonneg(sep.x, r, f);
    lemma_component_virial_nonneg(sep.y, r, f);
    lemma_component_virial_nonneg(sep.z, r, f);
    let fv = s_pair_force(ap, bp, alj, blj, l);
    let total = sep.x * fv.x + sep.y * fv.y + sep.z * fv.z;
    assert(total >= 0);
    vstd::arithmetic::div_mod::lemma_div_pos_is_pos(total, SCALE as int);
}

/// A pair in the attractive well -- separated by two to five mixed
/// diameters, with a mixed well depth of at least one -- contributes a
/// nonpositive virial.
pub proof fn lemma_pair_virial_attractive(
    ap: V3,
    bp: V3,
    alj: LJParameters,
    blj: LJParameters,
    l: int,
)
    requires
        valid_length(l),
        SCALE as int <= s_mix_sigma(alj, blj) <= 100_000_000int,
        2 * s_mix_sigma(alj, blj) <= s_norm(s_pair_sep(ap, bp, l)),
        s_norm(s_pair_sep(ap, bp, l)) <= 5 * s_mix_sigma(alj, blj),
        SCALE as int <= s_mix_epsilon(alj, blj) <= MAXF as int,
    ensures
        s_pair_virial(ap, bp, alj, blj, l) <= 0,
{
    let sep = s_pair_sep(ap, bp, l);
    let r = s_norm(sep);
    crate::lj::lemma_lj_force_attractive(r, s_mix_sigma(alj, blj), s_mix_epsilon(alj, blj));
    let f = crate::lj::s_lj_force(r, s_mix_sigma(alj, blj), s_mix_epsilon(alj, blj));
    assert(0 < r) by (nonlinear_arith)
        requires
            2 * s_mix_sigma(alj, blj) <= r,
            SCALE as int <= s_mix_sigma(alj, blj),
            SCALE == 1_000_000i64,
    ;
    lemma_component_virial_nonpos(sep.x, r, f);
    lemma_component_virial_nonpos(sep.y, r, f);
    lemma_component_virial_nonpos(sep.z, r, f);
    let fv = s_pair_force(ap, bp, alj, blj, l);
    let total = sep.x * fv.x + sep.y * fv.y + sep.z * fv.z;
    assert(total <= 0);
    vstd::arithmetic::div_mod::lemma_div_is_ordered(total, 0, SCALE as int);
    vstd::arithmetic::div_mod::lemma_div_of0(SCALE as int);
}

/// Whether two particles agree on every field except the force
/// accumulator.
pub open spec fn same_but_force(a: Particle, b: Particle) -> bool {
    a.position == b.position && a.velocity == b.velocity && a.mass == b.mass && a.lj_parameters
        == b.lj_parameters && a.id == b.id && a.energy == b.energy && a.atom_type == b.atom_type
        && a.charge == b.charge
}

/// The force accumulated on particle `k` after the double loop has
/// handed it the contributions of every partner below `m`, in ascending
/// partner order: for a partner above `k` the pair force is subtracted
/// (action), for one below `k` it is added (reaction).
pub open spec fn s_force_on_upto(ps: Seq<Particle>, l: int, k: int, m: int) -> V3
    decreases m,
{
    if m <= 0 {
        v3_zero()
    } else if m - 1 == k {
        s_force_on_upto(ps, l, k, m - 1)
    } else if k < m - 1 {
        v3_sub(
            s_force_on_upto(ps, l, k, m - 1),
            s_pair_force(
                ps[k].position.v(),
                ps[m - 1].position.v(),
                ps[k].lj_parameters,
                ps[m - 1].lj_parameters,
                l,
            ),
        )
    } else {
        v3_add(
            s_force_on_upto(ps, l, k, m - 1),
            s_pair_force(
                ps[m - 1].position.v(),
                ps[k].position.v(),
                ps[m - 1].lj_parameters,
                ps[k].lj_parameters,
                l,
            ),
        )
    }
}

/// The total pair force on particle `k`: every partner's contribution,
/// with Newton's third law built in.
pub open spec fn s_forces_total(ps: Seq<Particle>, l: int, k: int) -> V3 {
    s_force_on_upto(ps, l, k, ps.len() as int)
}

/// Zeroes every force accumulator and then accumulates the
/// Lennard-Jones pair force of every unordered pair onto both partners,
/// action on one and reaction on the other.  Positions, velocities and
/// all other fields are untouched.
#[verifier::loop_isolation(false)]
pub fn compute_forces_particles(particles: &mut Vec<Particle>, box_length: i64)
    requires
        all_wf(old(particles)@),
        valid_length(box_length as int),
    ensures
        final(particles)@.len() == old(particles)@.len(),
        all_wf(final(particles)@),
        forall|k: int|
            0 <= k < old(particles)@.len() ==> same_but_force(
                #[trigger] final(particles)@[k],
                old(particles)@[k],
            ),
        forall|k: int|
            0 <= k < old(particles)@.len() ==> (#[trigger] final(particles)@[k]).force.v()
                == s_forces_total(old(particles)@, box_length as int, k),
{
    let n = particles.len();
    let ghost ps0 = old(particles)@;
    let ghost l = box_length as int;
    let mut idx: usize = 0;
    while idx < n
        invariant
            idx <= n,
            particles@.len() == n,
            all_wf(particles@),
            forall|k: int|
                0 <= k < n ==> same_but_force(#[trigger] particles@[k], ps0[k]),
            forall|k: int|
                0 <= k < idx ==> (#[trigger] particles@[k]).force.v() == v3_zero(),
        decreases n - idx,
    {
        let ghost pre = particles@;
        particles[idx].force = Vec3::zero();
        proof {
            assert forall|k: int| 0 <= k < n implies (#[trigger] particles@[k]).wf()
                && same_but_force(particles@[k], ps0[k]) by {
                if k != idx as int {
                    assert(particles@[k] == pre[k]);
                    assert(pre[k].wf() && same_but_force(pre[k], ps0[k]));
                } else {
                    assert(particles@[k].position == pre[k].position);
                    assert(particles@[k].velocity == pre[k].velocity);
                    assert(particles@[k].mass == pre[k].mass);
                    assert(particles@[k].lj_parameters == pre[k].lj_parameters);
                    assert(particles@[k].id == pre[k].id);
                    assert(particles@[k].energy == pre[k].energy);
                    assert(particles@[k].atom_type == pre[k].atom_type);
                    assert(particles@[k].charge == pre[k].charge);
                    assert(particles@[k].force.wf());
                    assert(pre[k].wf() && same_but_force(pre[k], ps0[k]));
                }
            }
        }
        idx += 1;
    }
    let mut i: usize = 0;
    while i < n
        invariant
            i <= n,
            particles@.len() == n,
            all_wf(particles@),
            forall|k: int|
                0 <= k < n ==> same_but_force(#[trigger] particles@[k], ps0[k]),
            forall|k: int|
                0 <= k < i ==> (#[trigger] particles@[k]).force.v() == s_force_on_upto(
                    ps0,
                    l,
                    k,
                    n as int,
                ),
            forall|k: int|
                i <= k < n ==> (#[trigger] particles@[k]).force.v() == s_force_on_upto(
                    ps0,
                    l,
                    k,
                    i as int,
                ),
        decreases n - i,
    {
        let mut j: usize = i + 1;
        proof {
            assert(s_force_on_upto(ps0, l, i as int, i as int + 1) == s_force_on_upto(
                ps0,
                l,
                i as int,
                i as int,
            ));
        }
        while j < n
            invariant
                i < n,
                i + 1 <= j <= n,
                particles@.len() == n,
                all_wf(particles@),
                forall|k: int|
                    0 <= k < n ==> same_but_force(#[trigger] particles@[k], ps0[k]),
                forall|k: int|
                    0 <= k < i ==> (#[trigger] particles@[k]).force.v() == s_force_on_upto(
                        ps0,
                        l,
                        k,
                        n as int,
                    ),
                particles@[i as int].force.v() == s_force_on_upto(ps0, l, i as int, j as int),
                forall|k: int|
                    i < k < j ==> (#[trigger] particles@[k]).force.v() == s_force_on_upto(
                        ps0,
                        l,
                        k,
                        i as int + 1,
                    ),
                forall|k: int|
                    j <= k < n ==> (#[trigger] particles@[k]).force.v() == s_force_on_upto(
                        ps0,
                        l,
                        k,
                        i as int,
                    ),
            decreases n - j,
        {
            let a = particles[i];
            let b = particles[j];
            let f_vec = pair_force_between(&a, &b, box_length);
            let ghost fspec = s_pair_force(
                ps0[i as int].position.v(),
                ps0[j as int].position.v(),
                ps0[i as int].lj_parameters,
                ps0[j as int].lj_parameters,
                l,
            );
            proof {
                assert(a.position == ps0[i as int].position);
                assert(a.lj_parameters == ps0[i as int].lj_parameters);
                assert(b.position == ps0[j as int].position);
                assert(b.lj_parameters == ps0[j as int].lj_parameters);
                assert(f_vec.v() == fspec);
            }
            let ghost pre = particles@;
            let nf_i = particles[i].force.minus(f_vec);
            particles[i].force = nf_i;
            let nf_j = particles[j].force.plus(f_vec);
            particles[j].force = nf_j;
            proof {
                assert(particles@[j as int].force == nf_j);
                assert(particles@[i as int].force == nf_i);
                assert forall|k: int| 0 <= k < n && k != i as int && k != j as int implies
                    #[trigger] particles@[k] == pre[k] by {}
                assert(s_force_on_upto(ps0, l, i as int, j as int + 1) == v3_sub(
                    s_force_on_upto(ps0, l, i as int, j as int),
                    fspec,
                ));
                assert(nf_i.v() == v3_sub(pre[i as int].force.v(), f_vec.v()));
                assert(particles@[i as int].force.v() == s_force_on_upto(
                    ps0,
                    l,
                    i as int,
                    j as int + 1,
                ));
                assert(s_force_on_upto(ps0, l, j as int, i as int + 1) == v3_add(
                    s_force_on_upto(ps0, l, j as int, i as int),
                    fspec,
                ));
                assert(nf_j.v() == v3_add(pre[j as int].force.v(), f_vec.v()));
                assert(particles@[j as int].force.v() == s_force_on_upto(
                    ps0,
                    l,
                    j as int,
                    i as int + 1,
                ));
                assert forall|k: int| 0 <= k < n implies (#[trigger] particles@[k]).wf()
                    && same_but_force(particles@[k], ps0[k]) by {
                    assert(pre[k].wf() && same_but_force(pre[k], ps0[k]));
                    if k != i as int && k != j as int {
                        assert(particles@[k] == pre[k]);
                    } else {
                        assert(particles@[k].position == pre[k].position);
                        assert(particles@[k].velocity == pre[k].velocity);
                        assert(particles@[k].mass == pre[k].mass);
                        assert(particles@[k].lj_parameters == pre[k].lj_parameters);
                        assert(particles@[k].id == pre[k].id);
                        assert(particles@[k].energy == pre[k].energy);
                        assert(particles@[k].atom_type == pre[k].atom_type);
                        assert(particles@[k].charge == pre[k].charge);
                        assert(particles@[k].force.wf());
                    }
                }
            }
            j += 1;
        }
        i += 1;
    }
}

} // verus!
