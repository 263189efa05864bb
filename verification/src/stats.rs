//! Scalar-series helpers for the post-processing collaborators, and
//! the error taxonomy of the pull-trajectory reader.

use vstd::prelude::*;
use crate::fixed::{in_range, s_add, s_mul, s_mul_raw, s_quot, sat_add, sat_mul, sat_mul_raw};

verus! {

/// The accumulated lag product of the first `m` usable positions:
/// `sum of series[i] * series[i + lag]` over `i < m`, in saturating
/// fixed point.
pub open spec fn s_autocorr_acc(series: Seq<i64>, lag: int, m: int) -> int
    decreases m,
{
    if m <= 0 {
        0
    } else {
        s_add(
            s_autocorr_acc(series, lag, m - 1),
            s_mul(series[m - 1] as int, series[m - 1 + lag] as int),
        )
    }
}

/// The raw (lag `k`) autocorrelation sum of a fixed-point scalar
/// series: the saturating sum of `series[i] * series[i + lag]` over
/// every position where both samples exist.
pub fn autocorrelation_function(series: &Vec<i64>, lag: usize) -> (c: i64)
    requires
        forall|i: int| 0 <= i < series@.len() ==> in_range(#[trigger] series@[i] as int),
    ensures
        lag <= series@.len() ==> c as int == s_autocorr_acc(
            series@,
            lag as int,
            series@.len() - lag,
        ),
        lag > series@.len() ==> c == 0,
        in_range(c as int),
{
    let n = series.len();
    if lag > n {
        return 0;
    }
    let mut acc: i64 = 0;
    let mut j: usize = lag;
    while j < n
        invariant
            n == series@.len(),
            lag <= j <= n,
            forall|q: int| 0 <= q < series@.len() ==> in_range(#[trigger] series@[q] as int),
            in_range(acc as int),
            acc as int == s_autocorr_acc(series@, lag as int, j - lag),
        decreases n - j,
    {
        let prod = sat_mul(series[j - lag], series[j]);
        acc = sat_add(acc, prod);
        j += 1;
    }
    acc
}

/// The number of separations among the first `m` that fall in bin `b`
/// of width `w`: a separation `d` falls in bin `d / w` when it is
/// nonnegative.
pub open spec fn s_bin_count(ds: Seq<i64>, w: int, b: int, m: int) -> int
    decreases m,
{
    if m <= 0 {
        0
    } else {
        s_bin_count(ds, w, b, m - 1) + if ds[m - 1] >= 0 && s_quot(ds[m - 1] as int, w) == b {
            1int
        } else {
            0int
        }
    }
}

/// A bin count never exceeds the number of separations counted.
proof fn lemma_bin_count_le(ds: Seq<i64>, w: int, b: int, m: int)
    requires
        0 <= m <= ds.len(),
    ensures
        0 <= s_bin_count(ds, w, b, m) <= m,
    decreases m,
{
    if m > 0 {
        lemma_bin_count_le(ds, w, b, m - 1);
    }
}

/// The radial distribution histogram: given the fixed-point pair
/// separations of a configuration, counts how many fall into each of
/// `n_bins` bins of width `bin_width`.  Negative separations and
/// separations at or beyond the last bin are left out.
pub fn radial_distribution_function(distances: &Vec<i64>, bin_width: i64, n_bins: usize) -> (h:
    Vec<u64>)
    requires
        0 < bin_width,
        distances@.len() < 0xffff_ffff_ffff_ffffu64,
    ensures
        h@.len() == n_bins,
        forall|b: int|
            0 <= b < n_bins ==> #[trigger] h@[b] as int == s_bin_count(
                distances@,
                bin_width as int,
                b,
                distances@.len() as int,
            ),
{
    let mut h: Vec<u64> = Vec::new();
    while h.len() < n_bins
        invariant
            h@.len() <= n_bins,
            forall|b: int| 0 <= b < h@.len() ==> #[trigger] h@[b] == 0,
        decreases n_bins - h.len(),
    {
        h.push(0);
    }
    let n = distances.len();
    let mut i: usize = 0;
    while i < n
        invariant
            n == distances@.len(),
            i <= n,
            0 < bin_width,
            h@.len() == n_bins,
            forall|b: int|
                0 <= b < n_bins ==> #[trigger] h@[b] as int == s_bin_count(
                    distances@,
                    bin_width as int,
                    b,
                    i as int,
                ),
        decreases n - i,
    {
        let ghost hpre = h@;
        let d = distances[i];
        if d >= 0 {
            let bin = crate::fixed::quot(d, bin_width);
            proof {
                vstd::arithmetic::div_mod::lemma_div_pos_is_pos(d as int, bin_width as int);
            }
            if (bin as u64) < (n_bins as u64) {
                let bu = bin as usize;
                proof {
                    lemma_bin_count_le(distances@, bin_width as int, bu as int, i as int);
                }
                let cur = h[bu];
                h.set(bu, cur + 1);
                proof {
                    assert forall|b: int| 0 <= b < n_bins implies #[trigger] h@[b] as int
                        == s_bin_count(distances@, bin_width as int, b, i as int + 1) by {
                        if b != bu as int {
                            assert(h@[b] == hpre[b]);
                        }
                    }
                }
            } else {
                proof {
                    assert forall|b: int| 0 <= b < n_bins implies #[trigger] h@[b] as int
                        == s_bin_count(distances@, bin_width as int, b, i as int + 1) by {
                        assert(s_quot(d as int, bin_width as int) != b);
                    }
                }
            }
        } else {
            proof {
                assert forall|b: int| 0 <= b < n_bins implies #[trigger] h@[b] as int
                    == s_bin_count(distances@, bin_width as int, b, i as int + 1) by {}
            }
        }
        i += 1;
    }
    h
}

/// The outer product of two integer vectors: entry `(i, j)` is the
/// saturated raw product `a[i] * b[j]`.
pub fn outer_product(a: &Vec<i64>, b: &Vec<i64>, default_value: i64) -> (r: Vec<Vec<i64>>)
    ensures
        r@.len() == a@.len(),
        forall|i: int| 0 <= i < a@.len() ==> (#[trigger] r@[i])@.len() == b@.len(),
        forall|i: int, j: int|
            0 <= i < a@.len() && 0 <= j < b@.len() ==> (#[trigger] r@[i]@[j]) as int == s_mul_raw(
                a@[i] as int,
                b@[j] as int,
            ),
{
    let mut r: Vec<Vec<i64>> = Vec::new();
    let na = a.len();
    let nb = b.len();
    let mut i: usize = 0;
    while i < na
        invariant
            na == a@.len(),
            nb == b@.len(),
            i <= na,
            r@.len() == i as int,
            forall|q: int| 0 <= q < i ==> (#[trigger] r@[q])@.len() == nb,
            forall|q: int, j: int|
                0 <= q < i && 0 <= j < nb ==> (#[trigger] r@[q]@[j]) as int == s_mul_raw(
                    a@[q] as int,
                    b@[j] as int,
                ),
        decreases na - i,
    {
        let mut row: Vec<i64> = Vec::new();
        while row.len() < nb
            invariant
                nb == b@.len(),
                row@.len() <= nb,
            decreases nb - row.len(),
        {
            row.push(default_value);
        }
        let mut j: usize = 0;
        while j < nb
            invariant
                na == a@.len(),
                nb == b@.len(),
                i < na,
                j <= nb,
                row@.len() == nb,
                forall|q: int|
                    0 <= q < j ==> (#[trigger] row@[q]) as int == s_mul_raw(
                        a@[i as int] as int,
                        b@[q] as int,
                    ),
            decreases nb - j,
        {
            row.set(j, sat_mul_raw(a[i], b[j]));
            j += 1;
        }
        r.push(row);
        i += 1;
    }
    r
}

/// What can go wrong while reading and reducing pull-trajectory data:
/// an unreadable file, a malformed row, an unparsable number, or an
/// empty work series handed to an estimator.
#[derive(Debug)]
pub enum JarzynskiError {
    Io { path: String },
    InvalidColumns { path: String, line: usize },
    InvalidNumber { path: String, line: usize },
    EmptyWorkVector,
}

impl JarzynskiError {
    /// A short fixed description of the error kind.
    pub fn kind_message(&self) -> (r: &'static str)
        ensures
            (self is Io) ==> r@ == "could not read the pull file"@,
            (self is InvalidColumns) ==> r@ == "a pull row does not have five columns"@,
            (self is InvalidNumber) ==> r@ == "a pull row holds an unparsable number"@,
            (self is EmptyWorkVector) ==> r@ == "no work values were provided"@,
    {
        match self {
            JarzynskiError::Io { .. } => "could not read the pull file",
            JarzynskiError::InvalidColumns { .. } => "a pull row does not have five columns",
            JarzynskiError::InvalidNumber { .. } => "a pull row holds an unparsable number",
            JarzynskiError::EmptyWorkVector => "no work values were provided",
        }
    }
}

} // verus!
