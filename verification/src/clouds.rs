//! The cloud density grid and the sun-occlusion darkening factor.
//!
//! Each cell's density is a pure function of one raw coherent-noise
//! magnitude handed in as a fixed-point value: magnitudes below the cutoff
//! collapse to exactly zero, the rest are remapped linearly onto
//! [0, SCALE] and clamped there. Columns are independent, so the grid is
//! rebuilt by mapping the verified column transform over the raw columns
//! in parallel.

use vstd::prelude::*;
use vstd::arithmetic::div_mod::lemma_div_is_ordered;
use rayon::iter::{IntoParallelRefIterator, ParallelIterator};
use crate::fixed::{abs_capped, spec_abs_capped, spec_clamp};

verus! {

/// The density of one cell from one raw noise magnitude: zero below the
/// cutoff of 0.6, then `(|raw| - 0.6) / 0.6` clamped to [0, 1], all in
/// fixed point. The magnitude is capped at the remap's upper bound 1.2,
/// which is where the remap reaches 1, so the cap and the clamp agree.
pub open spec fn spec_density(raw: int) -> int {
    let a = spec_abs_capped(raw, 12000);
    if a < 6000 {
        0
    } else {
        (a - 6000) * 10000 / 6000
    }
}

/// A whole raw column turned into densities.
pub open spec fn spec_column(s: Seq<i64>) -> Seq<u32> {
    s.map_values(|v: i64| spec_density(v as int) as u32)
}

/// Densities after thresholding and remapping always lie in [0, SCALE].
pub proof fn lemma_density_range(raw: int)
    ensures
        0 <= spec_density(raw) <= 10000,
        -6000 < raw < 6000 ==> spec_density(raw) == 0,
{
    let a = spec_abs_capped(raw, 12000);
    if a >= 6000 {
        lemma_div_is_ordered(0, (a - 6000) * 10000, 6000);
        lemma_div_is_ordered((a - 6000) * 10000, 60000000int, 6000);
        assert(60000000int / 6000 == 10000);
    }
}

/// The density of one cell. A raw magnitude below the cutoff yields
/// exactly zero; every result lies in [0, SCALE].
pub fn density_fp(raw: i64) -> (r: u32)
    ensures
        r == spec_density(raw as int),
        r <= 10000,
        -6000 < raw < 6000 ==> r == 0,
{
    proof {
        lemma_density_range(raw as int);
    }
    let a = abs_capped(raw, 12000);
    if a < 6000 {
        0
    } else {
        ((a - 6000) * 10000 / 6000) as u32
    }
}

/// One raw column mapped through the density transform.
pub fn column_densities(col: &Vec<i64>) -> (r: Vec<u32>)
    ensures
        r@ == spec_column(col@),
{
    let mut r: Vec<u32> = Vec::new();
    let mut j: usize = 0;
    while j < col.len()
        invariant
            j <= col@.len(),
            r@ == spec_column(col@.subrange(0, j as int)),
        decreases col@.len() - j,
    {
        let d = density_fp(col[j]);
        r.push(d);
        proof {
            assert(col@.subrange(0, j + 1) == col@.subrange(0, j as int).push(col@[j as int]));
            assert(spec_column(col@.subrange(0, j + 1)) =~= spec_column(
                col@.subrange(0, j as int),
            ).push(spec_density(col@[j as int] as int) as u32));
        }
        j = j + 1;
    }
    proof {
        assert(col@.subrange(0, col@.len() as int) == col@);
    }
    r
}

/// Relies on rayon's parallel iterators: `par_iter().map(..).collect()`
/// over a `Vec` applies the closure to every element and collects the
/// results into a `Vec` in the source order. The closure only calls the
/// verified `column_densities`, one independent task per column.
#[verifier::external_body]
fn par_columns(raw: &Vec<Vec<i64>>) -> (r: Vec<Vec<u32>>)
    ensures
        r@.len() == raw@.len(),
        forall|i: int| 0 <= i < raw@.len() ==> #[trigger] r@[i]@ == spec_column(raw@[i]@),
{
    raw.par_iter().map(column_densities).collect()
}

/// The per-frame cloud layer: a square grid of fixed-point densities in
/// [0, SCALE], row-major, regenerated wholesale every frame.
pub struct DensityGrid {
    pub cells: Vec<Vec<u32>>,
}

impl DensityGrid {
    /// Square, with every density in [0, SCALE].
    pub open spec fn wf(self) -> bool {
        forall|i: int|
            0 <= i < self.cells@.len() ==> (#[trigger] self.cells@[i]@.len()
                == self.cells@.len() && forall|j: int|
                0 <= j < self.cells@[i]@.len() ==> #[trigger] self.cells@[i]@[j] <= 10000)
    }

    /// The all-zero grid of a given side length.
    pub fn zeros(n: usize) -> (g: DensityGrid)
        ensures
            g.wf(),
            g.cells@.len() == n,
            forall|i: int|
                0 <= i < n ==> (#[trigger] g.cells@[i]@.len() == n && forall|j: int|
                    0 <= j < n ==> #[trigger] g.cells@[i]@[j] == 0),
    {
        let mut cells: Vec<Vec<u32>> = Vec::new();
        let mut i: usize = 0;
        while i < n
            invariant
                i <= n,
                cells@.len() == i,
                forall|k: int|
                    0 <= k < i ==> (#[trigger] cells@[k]@.len() == n && forall|j: int|
                        0 <= j < n ==> #[trigger] cells@[k]@[j] == 0),
            decreases n - i,
        {
            let mut row: Vec<u32> = Vec::new();
            let mut j: usize = 0;
            while j < n
                invariant
                    j <= n,
                    row@.len() == j,
                    forall|l: int| 0 <= l < j ==> #[trigger] row@[l] == 0,
                decreases n - j,
            {
                row.push(0);
                j = j + 1;
            }
            cells.push(row);
            i = i + 1;
        }
        DensityGrid { cells }
    }

    /// Rebuild the whole grid from a square matrix of raw noise
    /// magnitudes, columns computed in parallel.
    pub fn from_raw(raw: &Vec<Vec<i64>>) -> (g: DensityGrid)
        requires
            forall|i: int| 0 <= i < raw@.len() ==> #[trigger] raw@[i]@.len() == raw@.len(),
        ensures
            g.wf(),
            g.cells@.len() == raw@.len(),
            forall|i: int|
                0 <= i < raw@.len() ==> #[trigger] g.cells@[i]@ == spec_column(raw@[i]@),
    {
        let cells = par_columns(raw);
        proof {
            assert forall|i: int| 0 <= i < cells@.len() implies #[trigger] cells@[i]@.len()
                == cells@.len() && forall|j: int|
                0 <= j < cells@[i]@.len() ==> #[trigger] cells@[i]@[j] <= 10000 by {
                assert(cells@[i]@ == spec_column(raw@[i]@));
                assert forall|j: int| 0 <= j < cells@[i]@.len() implies #[trigger] cells@[i]@[j]
                    <= 10000 by {
                    lemma_density_range(raw@[i]@[j] as int);
                }
            }
        }
        DensityGrid { cells }
    }
}

/// Whether a cell's screen position lies within `r` of the center:
/// Euclidean circle-point containment, all in pixels times SCALE.
pub open spec fn spec_in_disc(px: int, py: int, cx: int, cy: int, r: int) -> bool {
    (px - cx) * (px - cx) + (py - cy) * (py - cy) <= r * r
}

/// Circle-point collision on fixed-point screen coordinates.
pub fn collide_circle_point(px: i64, py: i64, cx: i64, cy: i64, r: i64) -> (b: bool)
    requires
        -200_000_000_000 <= px <= 200_000_000_000,
        -200_000_000_000 <= py <= 200_000_000_000,
        -200_000_000_000 <= cx <= 200_000_000_000,
        -200_000_000_000 <= cy <= 200_000_000_000,
        0 <= r <= 200_000_000_000,
    ensures
        b == spec_in_disc(px as int, py as int, cx as int, cy as int, r as int),
{
    let dx: i128 = (px as i128) - (cx as i128);
    let dy: i128 = (py as i128) - (cy as i128);
    let rr: i128 = r as i128;
    proof {
        assert(dx * dx <= 160000000000000000000000 && dx * dx >= 0) by (nonlinear_arith)
            requires
                -400_000_000_000 <= dx <= 400_000_000_000,
        ;
        assert(dy * dy <= 160000000000000000000000 && dy * dy >= 0) by (nonlinear_arith)
            requires
                -400_000_000_000 <= dy <= 400_000_000_000,
        ;
        assert(rr * rr <= 160000000000000000000000 && rr * rr >= 0) by (nonlinear_arith)
            requires
                0 <= rr <= 400_000_000_000,
        ;
    }
    dx * dx + dy * dy <= rr * rr
}

/// The summed coverage of a row prefix: densities of the first `n` cells
/// of row `x` whose rasterized position lies within the sun's disc.
pub open spec fn spec_row_coverage(
    row: Seq<u32>,
    x: int,
    n: nat,
    sx: int,
    sy: int,
    r: int,
    cell: int,
) -> int
    decreases n,
{
    if n == 0 {
        0
    } else {
        spec_row_coverage(row, x, (n - 1) as nat, sx, sy, r, cell) + if spec_in_disc(
            x * cell * 10000,
            (n - 1) * cell * 10000,
            sx,
            sy,
            r,
        ) {
            row[n - 1] as int
        } else {
            0
        }
    }
}

/// The summed coverage of the first `n` rows of the grid.
pub open spec fn spec_coverage(
    g: Seq<Seq<u32>>,
    n: nat,
    sx: int,
    sy: int,
    r: int,
    cell: int,
) -> int
    decreases n,
{
    if n == 0 {
        0
    } else {
        spec_coverage(g, (n - 1) as nat, sx, sy, r, cell) + spec_row_coverage(
            g[n - 1],
            n - 1,
            g[n - 1].len(),
            sx,
            sy,
            r,
            cell,
        )
    }
}

proof fn lemma_row_coverage_bound(
    row: Seq<u32>,
    x: int,
    n: nat,
    sx: int,
    sy: int,
    r: int,
    cell: int,
)
    requires
        n <= row.len(),
        forall|j: int| 0 <= j < row.len() ==> #[trigger] row[j] <= 10000,
    ensures
        0 <= spec_row_coverage(row, x, n, sx, sy, r, cell) <= n * 10000,
    decreases n,
{
    if n > 0 {
        lemma_row_coverage_bound(row, x, (n - 1) as nat, sx, sy, r, cell);
    }
}

proof fn lemma_coverage_bound(g: Seq<Seq<u32>>, n: nat, sx: int, sy: int, r: int, cell: int)
    requires
        n <= g.len(),
        forall|i: int|
            0 <= i < g.len() ==> (#[trigger] g[i].len() == g.len() && forall|j: int|
                0 <= j < g[i].len() ==> #[trigger] g[i][j] <= 10000),
    ensures
        0 <= spec_coverage(g, n, sx, sy, r, cell) <= n * g.len() * 10000,
    decreases n,
{
    if n > 0 {
        lemma_coverage_bound(g, (n - 1) as nat, sx, sy, r, cell);
        lemma_row_coverage_bound(g[n - 1], n - 1, g[n - 1].len(), sx, sy, r, cell);
        assert((n - 1) * g.len() * 10000 + g.len() * 10000 == n * g.len() * 10000)
            by (nonlinear_arith);
    }
}

/// Sum the densities of every cell whose rasterized screen position lies
/// within the sun's disc: cell (x, y) sits at pixel (x * cell, y * cell).
pub fn coverage_sum(g: &DensityGrid, sx: i64, sy: i64, r: i64, cell: i64) -> (sum: i64)
    requires
        g.wf(),
        g.cells@.len() <= 10000,
        1 <= cell <= 1000,
        -5_000_000_000 <= sx <= 5_000_000_000,
        -5_000_000_000 <= sy <= 5_000_000_000,
        0 <= r <= 1_000_000_000,
    ensures
        sum == spec_coverage(
            g.cells@.map_values(|row: Vec<u32>| row@),
            g.cells@.len() as nat,
            sx as int,
            sy as int,
            r as int,
            cell as int,
        ),
        0 <= sum,
{
    let ghost gs = g.cells@.map_values(|row: Vec<u32>| row@);
    let n = g.cells.len();
    let mut sum: i64 = 0;
    let mut x: usize = 0;
    proof {
        lemma_coverage_bound(gs, 0, sx as int, sy as int, r as int, cell as int);
    }
    while x < n
        invariant
            g.wf(),
            gs == g.cells@.map_values(|row: Vec<u32>| row@),
            n == g.cells@.len(),
            n <= 10000,
            x <= n,
            1 <= cell <= 1000,
            -5_000_000_000 <= sx <= 5_000_000_000,
            -5_000_000_000 <= sy <= 5_000_000_000,
            0 <= r <= 1_000_000_000,
            sum == spec_coverage(gs, x as nat, sx as int, sy as int, r as int, cell as int),
            0 <= sum <= x * 10000 * 10000,
        decreases n - x,
    {
        let row_len = g.cells[x].len();
        let mut y: usize = 0;
        let mut row_sum: i64 = 0;
        while y < row_len
            invariant
                g.wf(),
                gs == g.cells@.map_values(|row: Vec<u32>| row@),
                n == g.cells@.len(),
                n <= 10000,
                x < n,
                row_len == g.cells@[x as int]@.len(),
                row_len == n,
                y <= row_len,
                1 <= cell <= 1000,
                -5_000_000_000 <= sx <= 5_000_000_000,
                -5_000_000_000 <= sy <= 5_000_000_000,
                0 <= r <= 1_000_000_000,
                row_sum == spec_row_coverage(
                    gs[x as int],
                    x as int,
                    y as nat,
                    sx as int,
                    sy as int,
                    r as int,
                    cell as int,
                ),
                0 <= row_sum <= y * 10000,
            decreases row_len - y,
        {
            let d = g.cells[x][y];
            proof {
                assert(0 <= (x as int) * cell <= 10000000) by (nonlinear_arith)
                    requires
                        0 <= x <= 10000,
                        1 <= cell <= 1000,
                ;
                assert(0 <= (y as int) * cell <= 10000000) by (nonlinear_arith)
                    requires
                        0 <= y <= 10000,
                        1 <= cell <= 1000,
                ;
            }
            let px: i64 = (x as i64) * cell * 10000;
            let py: i64 = (y as i64) * cell * 10000;
            if collide_circle_point(px, py, sx, sy, r) {
                row_sum = row_sum + (d as i64);
            }
            proof {
                assert(gs[x as int][y as int] == g.cells@[x as int]@[y as int]);
            }
            y = y + 1;
        }
        sum = sum + row_sum;
        proof {
            assert((x + 1) * 10000 * 10000 == x * 10000 * 10000 + 100000000) by (nonlinear_arith);
            assert(row_sum <= 100000000) by (nonlinear_arith)
                requires
                    row_sum <= row_len * 10000,
                    row_len <= 10000,
            ;
        }
        x = x + 1;
    }
    sum
}

/// The darkening factor for a summed coverage: the linear map of
/// [0, 120] onto [0, 0.4], clamped outside that domain, in fixed point
/// (coverage 120 is 1200000; factor 0.4 is 4000).
pub open spec fn spec_darken_factor(sum: int) -> int {
    spec_clamp(sum / 300, 0, 4000)
}

/// The clamped darkening factor: 0 at or below zero coverage, 0.4 from
/// coverage 120 up, linear in between.
pub fn darken_factor(sum: i64) -> (f: i64)
    ensures
        f == spec_darken_factor(sum as int),
        0 <= f <= 4000,
        sum <= 0 ==> f == 0,
        sum >= 1200000 ==> f == 4000,
{
    if sum <= 0 {
        proof {
            if sum < 0 {
                lemma_div_is_ordered(sum as int, 0, 300);
            }
        }
        0
    } else {
        let q = sum / 300;
        proof {
            lemma_div_is_ordered(0, sum as int, 300);
            if sum >= 1200000 {
                lemma_div_is_ordered(1200000, sum as int, 300);
            }
        }
        if q > 4000 {
            4000
        } else {
            q
        }
    }
}

} // verus!
