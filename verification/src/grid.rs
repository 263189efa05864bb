//! The cell grid: partitions particle indices into `n^3` cubic cells of
//! the periodic box, rebuilt from scratch on every step.

use vstd::prelude::*;
use vstd::arithmetic::div_mod::{
    lemma_div_is_ordered, lemma_div_pos_is_pos, lemma_fundamental_div_mod,
    lemma_hoist_over_denominator,
};
use crate::particle::Particle;
use crate::pbc::{s_wrap, valid_length, wrap_coordinate};
use crate::vec3::V3;

verus! {

/// Largest accepted subdivision count per axis.
pub const GRID_MAX: usize = 64;

/// The cell coordinate of a wrapped coordinate along one axis:
/// `floor(wrap(x) * n / l)`, always in `[0, n)`.
pub open spec fn s_cell_coord(x: int, l: int, n: int) -> int
    recommends
        0 < l,
        0 < n,
{
    (s_wrap(x, l) * n) / l
}

/// The flattened cell index of a position, in `[0, n^3)`.
pub open spec fn s_cell_of(p: V3, l: int, n: int) -> int
    recommends
        0 < l,
        0 < n,
{
    let cx = s_cell_coord(p.x, l, n);
    let cy = s_cell_coord(p.y, l, n);
    let cz = s_cell_coord(p.z, l, n);
    (cx * n + cy) * n + cz
}

/// A negative value divided by a positive divisor gives a quotient of
/// at most minus one.
pub proof fn lemma_neg_div_le_neg_one(x: int, d: int)
    requires
        x < 0,
        0 < d,
    ensures
        x / d <= -1,
{
    let q = x / d;
    let r = x % d;
    lemma_fundamental_div_mod(x, d);
    assert(q <= -1) by (nonlinear_arith)
        requires
            0 < d,
            x < 0,
            x == d * q + r,
            0 <= r < d,
    ;
}

/// The cell coordinate lies in `[0, n)`.
pub proof fn lemma_cell_coord_bound(x: int, l: int, n: int)
    requires
        0 < l,
        0 < n,
    ensures
        0 <= s_cell_coord(x, l, n) < n,
{
    let m = s_wrap(x, l);
    assert(0 <= m < l);
    assert(m * n >= 0) by (nonlinear_arith)
        requires
            m >= 0,
            n > 0,
    ;
    lemma_div_pos_is_pos(m * n, l);
    assert(m * n <= l * n - n) by (nonlinear_arith)
        requires
            m <= l - 1,
            n > 0,
    ;
    lemma_div_is_ordered(m * n, l * n - n, l);
    lemma_hoist_over_denominator(-n, n, l as nat);
    assert((-n) / l + n == (-n + n * l) / l);
    assert(-n + n * l == l * n - n) by (nonlinear_arith);
    lemma_neg_div_le_neg_one(-n, l);
}

/// The flattened cell index lies in `[0, n^3)`.
pub proof fn lemma_cell_of_bound(p: V3, l: int, n: int)
    requires
        0 < l,
        0 < n,
    ensures
        0 <= s_cell_of(p, l, n) < n * n * n,
{
    let cx = s_cell_coord(p.x, l, n);
    let cy = s_cell_coord(p.y, l, n);
    let cz = s_cell_coord(p.z, l, n);
    lemma_cell_coord_bound(p.x, l, n);
    lemma_cell_coord_bound(p.y, l, n);
    lemma_cell_coord_bound(p.z, l, n);
    assert(0 <= (cx * n + cy) * n + cz < n * n * n) by (nonlinear_arith)
        requires
            0 <= cx < n,
            0 <= cy < n,
            0 <= cz < n,
    ;
}

/// Whether `cells` is a correct occupancy table for the first `m`
/// particles of `ps`: every listed index is a particle below `m` that
/// belongs to that cell, every particle below `m` is listed in its home
/// cell, and every list is strictly increasing.
pub open spec fn partitions_upto(
    cells: Seq<Seq<usize>>,
    ps: Seq<Particle>,
    l: int,
    n: int,
    m: int,
) -> bool {
    &&& cells.len() == n * n * n
    &&& forall|c: int, k: int|
        0 <= c < cells.len() && 0 <= k < cells[c].len() ==> (#[trigger] cells[c][k]) < m
            && s_cell_of(ps[cells[c][k] as int].position.v(), l, n) == c
    &&& forall|i: int|
        0 <= i < m ==> #[trigger] cells[s_cell_of(ps[i].position.v(), l, n)].contains(i as usize)
    &&& forall|c: int, k1: int, k2: int|
        0 <= c < cells.len() && 0 <= k1 < k2 < cells[c].len() ==> (#[trigger] cells[c][k1])
            < (#[trigger] cells[c][k2])
}

/// Whether `cells` is a correct occupancy table for all of `ps`.
pub open spec fn partitions(cells: Seq<Seq<usize>>, ps: Seq<Particle>, l: int, n: int) -> bool {
    partitions_upto(cells, ps, l, n, ps.len() as int)
}

/// The spatial grid: a subdivision count and, after `assign`, one list
/// of particle indices per cell.
pub struct SpatialGrid {
    pub n: usize,
    pub cells: Vec<Vec<usize>>,
}

impl SpatialGrid {
    /// The per-cell occupancy lists as mathematical sequences.
    pub open spec fn view_cells(&self) -> Seq<Seq<usize>> {
        self.cells@.map_values(|v: Vec<usize>| v@)
    }

    /// Whether the subdivision count is accepted.
    pub open spec fn wf(&self) -> bool {
        1 <= self.n <= GRID_MAX
    }

    /// Builds a grid with `n` cells per axis and no occupancy yet;
    /// rejects the degenerate subdivision `n == 0` and oversized counts.
    pub fn new(n: usize) -> (r: Option<SpatialGrid>)
        ensures
            match r {
                Some(g) => g.wf() && g.n == n,
                None => !(1 <= n <= GRID_MAX),
            },
    {
        if 1 <= n && n <= GRID_MAX {
            Some(SpatialGrid { n, cells: Vec::new() })
        } else {
            None
        }
    }

    /// The flattened cell index of a position.
    pub fn cell_index(&self, p: &crate::vec3::Vec3, box_length: i64) -> (c: usize)
        requires
            self.wf(),
            valid_length(box_length as int),
        ensures
            c as int == s_cell_of(p.v(), box_length as int, self.n as int),
            c < self.n * self.n * self.n,
    {
        let n64 = self.n as i64;
        let cx = cell_coord(p.x, box_length, n64);
        let cy = cell_coord(p.y, box_length, n64);
        let cz = cell_coord(p.z, box_length, n64);
        proof {
            lemma_cell_of_bound(p.v(), box_length as int, self.n as int);
            assert(0 <= (cx as int) * (self.n as int)
                && (cx as int) * (self.n as int) <= 64 * 64
                && 0 <= (cx as int) * (self.n as int) + (cy as int)
                && (cx as int) * (self.n as int) + (cy as int) <= 64 * 64 + 64
                && 0 <= ((cx as int) * (self.n as int) + (cy as int)) * (self.n as int)
                && ((cx as int) * (self.n as int) + (cy as int)) * (self.n as int)
                    <= (64 * 64 + 64) * 64
                && ((cx as int) * (self.n as int) + (cy as int)) * (self.n as int) + (cz as int)
                    <= 64 * 64 * 64) by (nonlinear_arith)
                requires
                    0 <= (cx as int) && (cx as int) < (self.n as int),
                    0 <= (cy as int) && (cy as int) < (self.n as int),
                    0 <= (cz as int) && (cz as int) < (self.n as int),
                    (self.n as int) <= 64,
            ;
        }
        (cx * self.n + cy) * self.n + cz
    }

    /// Clears every cell and reassigns each particle index to the cell
    /// its wrapped position falls in.  Afterwards the occupancy lists
    /// partition the particle indices: each index appears in its home
    /// cell and nowhere else.
    pub fn assign(&mut self, particles: &Vec<Particle>, box_length: i64)
        requires
            old(self).wf(),
            valid_length(box_length as int),
        ensures
            final(self).wf(),
            final(self).n == old(self).n,
            partitions(
                final(self).view_cells(),
                particles@,
                box_length as int,
                final(self).n as int,
            ),
    {
        let n = self.n;
        proof {
            assert(0 <= (n as int) * (n as int) <= 64 * 64
                && 0 <= (n as int) * (n as int) * (n as int) <= 64 * 64 * 64) by (nonlinear_arith)
                requires
                    1 <= (n as int) && (n as int) <= 64,
            ;
        }
        let ncells: usize = n * n * n;
        let mut cells: Vec<Vec<usize>> = Vec::new();
        while cells.len() < ncells
            invariant
                cells.len() <= ncells,
                ncells == n * n * n,
                forall|c: int| 0 <= c < cells.len() ==> (#[trigger] cells@[c])@.len() == 0,
            decreases ncells - cells.len(),
        {
            cells.push(Vec::new());
        }
        let ghost l = box_length as int;
        let ghost nn = n as int;
        let mut i: usize = 0;
        while i < particles.len()
            invariant
                1 <= n <= GRID_MAX,
                ncells == n * n * n,
                l == box_length as int,
                nn == n as int,
                cells.len() == ncells,
                i <= particles.len(),
                valid_length(box_length as int),
                self.wf(),
                self.n == n,
                partitions_upto(
                    cells@.map_values(|v: Vec<usize>| v@),
                    particles@,
                    box_length as int,
                    n as int,
                    i as int,
                ),
            decreases particles.len() - i,
        {
            let ghost prev = cells@.map_values(|v: Vec<usize>| v@);
            let ci = self.cell_index(&particles[i].position, box_length);
            cells[ci].push(i);
            proof {
                let cur = cells@.map_values(|v: Vec<usize>| v@);
                assert(cur =~= prev.update(ci as int, prev[ci as int].push(i)));
                let home = s_cell_of(particles@[i as int].position.v(), l, nn);
                assert(home == ci as int);
                assert forall|c: int, k: int|
                    0 <= c < cur.len() && 0 <= k < cur[c].len() implies (#[trigger] cur[c][k])
                    < i + 1 && s_cell_of(
                    particles@[cur[c][k] as int].position.v(),
                    l,
                    nn,
                ) == c by {
                    if c == ci as int {
                        if k < prev[c].len() {
                            assert(cur[c][k] == prev[c][k]);
                        } else {
                            assert(cur[c][k] == i);
                        }
                    } else {
                        assert(cur[c][k] == prev[c][k]);
                    }
                }
                assert forall|j: int| 0 <= j < i + 1 implies #[trigger] cur[s_cell_of(
                    particles@[j].position.v(),
                    l,
                    nn,
                )].contains(j as usize) by {
                    let hj = s_cell_of(particles@[j].position.v(), l, nn);
                    lemma_cell_of_bound(particles@[j].position.v(), l, nn);
                    assert(0 <= hj < prev.len());
                    if j < i {
                        assert(prev[hj].contains(j as usize));
                        let k = choose|k: int|
                            0 <= k < prev[hj].len() && prev[hj][k] == j as usize;
                        if hj == ci as int {
                            assert(cur[hj] == prev[hj].push(i));
                            assert(cur[hj][k] == j as usize);
                        } else {
                            assert(cur[hj] == prev[hj]);
                            assert(cur[hj][k] == j as usize);
                        }
                        assert(cur[hj].contains(j as usize));
                    } else {
                        assert(hj == ci as int);
                        assert(cur[hj] == prev[hj].push(i));
                        assert(cur[hj][prev[hj].len() as int] == i);
                        assert(cur[hj].contains(i));
                    }
                }
                assert forall|c: int, k1: int, k2: int|
                    0 <= c < cur.len() && 0 <= k1 < k2 < cur[c].len() implies (#[trigger] cur[c][k1])
                    < (#[trigger] cur[c][k2]) by {
                    if c == ci as int && k2 == prev[c].len() {
                        assert(cur[c][k1] == prev[c][k1]);
                        assert(prev[c][k1] < i);
                    } else {
                        assert(cur[c][k1] == prev[c][k1]);
                        assert(cur[c][k2] == prev[c][k2]);
                    }
                }
            }
            i += 1;
        }
        self.cells = cells;
    }
}

/// The cell coordinate of one raw coordinate along one axis.
fn cell_coord(x: i64, l: i64, n: i64) -> (c: usize)
    requires
        valid_length(l as int),
        1 <= n <= GRID_MAX as i64,
    ensures
        c as int == s_cell_coord(x as int, l as int, n as int),
        c < n as usize,
{
    let m = wrap_coordinate(x, l);
    proof {
        assert((m as int) * (n as int) <= 2_000_000_000int * 64int) by (nonlinear_arith)
            requires
                0 <= (m as int) && (m as int) <= 2_000_000_000int,
                0 <= (n as int) && (n as int) <= 64int,
        ;
        assert((m as int) * (n as int) >= 0) by (nonlinear_arith)
            requires
                0 <= m as int,
                0 <= n as int,
        ;
    }
    let prod: u64 = (m as u64) * (n as u64);
    let q: u64 = prod / (l as u64);
    proof {
        lemma_cell_coord_bound(x as int, l as int, n as int);
    }
    q as usize
}

/// The distance between two cell coordinates along one axis, in cell
/// units, under the periodic wrap of the grid.
pub open spec fn s_axis_cell_dist(a: int, b: int, n: int) -> int
    recommends
        0 < n,
{
    let d = if a >= b {
        a - b
    } else {
        b - a
    };
    if d <= n - d {
        d
    } else {
        n - d
    }
}

/// Whether the centers of two (flattened) cells lie within `rc` cells
/// of each other, by squared periodic distance in cell units.
pub open spec fn s_cell_pair_close(c1: int, c2: int, n: int, rc: int) -> bool
    recommends
        0 < n,
{
    let x1 = c1 / (n * n);
    let y1 = (c1 / n) % n;
    let z1 = c1 % n;
    let x2 = c2 / (n * n);
    let y2 = (c2 / n) % n;
    let z2 = c2 % n;
    let dx = s_axis_cell_dist(x1, x2, n);
    let dy = s_axis_cell_dist(y1, y2, n);
    let dz = s_axis_cell_dist(z1, z2, n);
    dx * dx + dy * dy + dz * dz <= rc * rc
}

/// The canonical close-pair list built in the enumeration's own order:
/// all pairs with first cell below `c1`, then the pairs `(c1, b)` with
/// `b` below `c2`, keeping exactly those within the cutoff.
pub open spec fn s_close_pairs_upto(ncells: int, n: int, rc: int, c1: int, c2: int) -> Seq<
    (usize, usize),
>
    decreases c1, c2,
{
    if c1 < 0 {
        Seq::empty()
    } else if c2 <= c1 {
        if c1 == 0 {
            Seq::empty()
        } else {
            s_close_pairs_upto(ncells, n, rc, c1 - 1, ncells)
        }
    } else {
        let prev = s_close_pairs_upto(ncells, n, rc, c1, c2 - 1);
        if s_cell_pair_close(c1, c2 - 1, n, rc) {
            prev.push((c1 as usize, (c2 - 1) as usize))
        } else {
            prev
        }
    }
}

/// The full canonical list of close cell pairs of an `n`-per-axis grid
/// at cell cutoff `rc`.
pub open spec fn s_close_pairs(n: int, rc: int) -> Seq<(usize, usize)> {
    s_close_pairs_upto(n * n * n, n, rc, n * n * n, n * n * n)
}

/// The periodic axis distance of two cell coordinates, in cell units.
fn axis_cell_dist(a: usize, b: usize, n: usize) -> (r: usize)
    requires
        0 < n <= GRID_MAX,
        a < n,
        b < n,
    ensures
        r as int == s_axis_cell_dist(a as int, b as int, n as int),
        r <= n,
{
    let d = if a >= b {
        a - b
    } else {
        b - a
    };
    if d <= n - d {
        d
    } else {
        n - d
    }
}

impl SpatialGrid {
    /// Enumerates every unordered pair of cells whose centers lie
    /// within `cutoff_cells` cells of each other, each pair exactly
    /// once under its canonical (nondecreasing) index order: a pair is
    /// listed if and only if it is canonical, in range and close.
    pub fn neighbor_cell_pairs(&self, cutoff_cells: usize) -> (out: Vec<(usize, usize)>)
        requires
            self.wf(),
            cutoff_cells <= 3 * GRID_MAX,
        ensures
            out@ == s_close_pairs(self.n as int, cutoff_cells as int),
            forall|k: int|
                0 <= k < out@.len() ==> (#[trigger] out@[k]).0 <= out@[k].1 && (out@[k].1 as int)
                    < (self.n * self.n * self.n) as int && s_cell_pair_close(
                    out@[k].0 as int,
                    out@[k].1 as int,
                    self.n as int,
                    cutoff_cells as int,
                ),
            forall|c1: int, c2: int|
                0 <= c1 <= c2 < (self.n * self.n * self.n) as int && s_cell_pair_close(
                    c1,
                    c2,
                    self.n as int,
                    cutoff_cells as int,
                ) ==> #[trigger] out@.contains((c1 as usize, c2 as usize)),
    {
        let n = self.n;
        proof {
            assert(0 <= (n as int) * (n as int) <= 64 * 64
                && 0 <= (n as int) * (n as int) * (n as int) <= 64 * 64 * 64) by (nonlinear_arith)
                requires
                    1 <= (n as int) && (n as int) <= 64,
            ;
        }
        let ncells: usize = n * n * n;
        let ghost nn = n as int;
        let ghost rc = cutoff_cells as int;
        let mut out: Vec<(usize, usize)> = Vec::new();
        let mut c1: usize = 0;
        while c1 < ncells
            invariant
                ncells == n * n * n,
                1 <= n <= GRID_MAX,
                nn == n as int,
                rc == cutoff_cells as int,
                rc <= 3 * GRID_MAX,
                c1 <= ncells,
                forall|k: int|
                    0 <= k < out@.len() ==> (#[trigger] out@[k]).0 <= out@[k].1 && (
                    out@[k].1 as int) < ncells as int && s_cell_pair_close(
                        out@[k].0 as int,
                        out@[k].1 as int,
                        nn,
                        rc,
                    ),
                forall|a: int, b: int|
                    0 <= a <= b < ncells as int && a < c1 as int && s_cell_pair_close(a, b, nn, rc)
                        ==> #[trigger] out@.contains((a as usize, b as usize)),
                out@ == s_close_pairs_upto(ncells as int, nn, rc, c1 as int, c1 as int),
            decreases ncells - c1,
        {
            let mut c2: usize = c1;
            while c2 < ncells
                invariant
                    ncells == n * n * n,
                    1 <= n <= GRID_MAX,
                    nn == n as int,
                    rc == cutoff_cells as int,
                    rc <= 3 * GRID_MAX,
                    c1 < ncells,
                    c1 <= c2 <= ncells,
                    forall|k: int|
                        0 <= k < out@.len() ==> (#[trigger] out@[k]).0 <= out@[k].1 && (
                        out@[k].1 as int) < ncells as int && s_cell_pair_close(
                            out@[k].0 as int,
                            out@[k].1 as int,
                            nn,
                            rc,
                        ),
                    forall|a: int, b: int|
                        0 <= a <= b < ncells as int && a < c1 as int && s_cell_pair_close(
                            a,
                            b,
                            nn,
                            rc,
                        ) ==> #[trigger] out@.contains((a as usize, b as usize)),
                    forall|b: int|
                        c1 as int <= b < c2 as int && s_cell_pair_close(c1 as int, b, nn, rc)
                            ==> #[trigger] out@.contains((c1, b as usize)),
                    out@ == s_close_pairs_upto(ncells as int, nn, rc, c1 as int, c2 as int),
                decreases ncells - c2,
            {
                let ghost pre = out@;
                proof {
                    assert(0 < (n as int) * (n as int) <= 64 * 64) by (nonlinear_arith)
                        requires
                            1 <= (n as int) && (n as int) <= 64,
                    ;
                }
                let nsq = n * n;
                let x1 = c1 / nsq;
                let y1 = (c1 / n) % n;
                let z1 = c1 % n;
                let x2 = c2 / nsq;
                let y2 = (c2 / n) % n;
                let z2 = c2 % n;
                proof {
                    lemma_flat_coords_in_range(c1 as int, nn);
                    lemma_flat_coords_in_range(c2 as int, nn);
                }
                let dx = axis_cell_dist(x1, x2, n);
                let dy = axis_cell_dist(y1, y2, n);
                let dz = axis_cell_dist(z1, z2, n);
                proof {
                    assert((dx as int) * (dx as int) <= 64 * 64
                        && (dy as int) * (dy as int) <= 64 * 64
                        && (dz as int) * (dz as int) <= 64 * 64
                        && (cutoff_cells as int) * (cutoff_cells as int) <= 192 * 192)
                        by (nonlinear_arith)
                        requires
                            0 <= (dx as int) && (dx as int) <= 64,
                            0 <= (dy as int) && (dy as int) <= 64,
                            0 <= (dz as int) && (dz as int) <= 64,
                            0 <= (cutoff_cells as int) && (cutoff_cells as int) <= 192,
                    ;
                }
                if dx * dx + dy * dy + dz * dz <= cutoff_cells * cutoff_cells {
                    out.push((c1, c2));
                    proof {
                        assert(out@[pre.len() as int] == (c1, c2));
                        assert forall|b: int|
                            c1 as int <= b < c2 as int + 1 && s_cell_pair_close(
                                c1 as int,
                                b,
                                nn,
                                rc,
                            ) implies #[trigger] out@.contains((c1, b as usize)) by {
                            if b < c2 as int {
                                assert(pre.contains((c1, b as usize)));
                                let k = choose|k: int|
                                    0 <= k < pre.len() && pre[k] == (c1, b as usize);
                                assert(out@[k] == (c1, b as usize));
                            } else {
                                assert(out@[pre.len() as int] == (c1, b as usize));
                            }
                        }
                        assert forall|a: int, b: int|
                            0 <= a <= b < ncells as int && a < c1 as int && s_cell_pair_close(
                                a,
                                b,
                                nn,
                                rc,
                            ) implies #[trigger] out@.contains((a as usize, b as usize)) by {
                            assert(pre.contains((a as usize, b as usize)));
                            let k = choose|k: int|
                                0 <= k < pre.len() && pre[k] == (a as usize, b as usize);
                            assert(out@[k] == (a as usize, b as usize));
                        }
                    }
                } else {
                    proof {
                        assert(!s_cell_pair_close(c1 as int, c2 as int, nn, rc));
                    }
                }
                c2 += 1;
            }
            c1 += 1;
        }
        out
    }
}

/// The three axis coordinates read back from a flattened cell index
/// all lie in `[0, n)`.
proof fn lemma_flat_coords_in_range(c: int, n: int)
    requires
        0 < n,
        0 <= c,
    ensures
        0 <= c / (n * n),
        0 <= (c / n) % n < n,
        0 <= c % n < n,
        c < n * n * n ==> c / (n * n) < n,
{
    assert(0 < n * n) by (nonlinear_arith)
        requires
            0 < n,
    ;
    lemma_div_pos_is_pos(c, n * n);
    lemma_div_pos_is_pos(c, n);
    if c < n * n * n {
        assert(c <= (n * n) * n - 1) by (nonlinear_arith)
            requires
                c < n * n * n,
        ;
        lemma_div_is_ordered(c, (n * n) * n - 1, n * n);
        lemma_hoist_over_denominator(-1, n, (n * n) as nat);
        assert((-1) / (n * n) + n == (-1 + n * (n * n)) / (n * n));
        assert(-1 + n * (n * n) == (n * n) * n - 1) by (nonlinear_arith);
        lemma_neg_div_le_neg_one(-1, n * n);
    }
}

/// Every particle index appears in its home cell and in no other cell,
/// and only once in its home cell: the grid partitions the indices.
pub proof fn lemma_partition_unique(
    cells: Seq<Seq<usize>>,
    ps: Seq<Particle>,
    l: int,
    n: int,
    i: usize,
)
    requires
        0 < l,
        0 < n,
        partitions(cells, ps, l, n),
        (i as int) < ps.len(),
    ensures
        forall|c: int|
            0 <= c < cells.len() ==> (#[trigger] cells[c].contains(i) <==> c == s_cell_of(
                ps[i as int].position.v(),
                l,
                n,
            )),
        forall|k1: int, k2: int|
            #![trigger cells[s_cell_of(ps[i as int].position.v(), l, n)][k1],
                cells[s_cell_of(ps[i as int].position.v(), l, n)][k2]]
            {
                let home = cells[s_cell_of(ps[i as int].position.v(), l, n)];
                0 <= k1 < home.len() && 0 <= k2 < home.len() && home[k1] == i && home[k2] == i
                    ==> k1 == k2
            },
{
    let home = s_cell_of(ps[i as int].position.v(), l, n);
    lemma_cell_of_bound(ps[i as int].position.v(), l, n);
    assert(0 <= home < cells.len());
    let j: int = i as int;
    assert(cells[s_cell_of(ps[j].position.v(), l, n)].contains(j as usize));
    assert forall|c: int| 0 <= c < cells.len() implies (#[trigger] cells[c].contains(i) <==> c
        == home) by {
        if cells[c].contains(i) {
            let k = choose|k: int| 0 <= k < cells[c].len() && cells[c][k] == i;
            assert(s_cell_of(ps[cells[c][k] as int].position.v(), l, n) == c);
        }
    }
    assert forall|k1: int, k2: int|
        0 <= k1 < cells[home].len() && 0 <= k2 < cells[home].len() && cells[home][k1] == i
            && cells[home][k2] == i implies k1 == k2 by {
        if k1 < k2 {
            assert(cells[home][k1] < cells[home][k2]);
        }
        if k2 < k1 {
            assert(cells[home][k2] < cells[home][k1]);
        }
    }
}

} // verus!
