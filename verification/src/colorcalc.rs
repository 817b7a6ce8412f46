//! The weighted color-quantization engine.
//!
//! [`ColorData`] accumulates a dense histogram over the full 8-bit RGB cube.
//! [`ColorCalc`] extracts one weighted point per distinct observed color and
//! refines a centroid array by weighted k-means++ seeding and Lloyd
//! iteration with restarts. Every step is specified exactly, so a whole run
//! is a mathematical function of the histogram, the requested color count
//! and the random seed.

use rayon::iter::{IntoParallelRefMutIterator, ParallelIterator};
use vstd::prelude::*;

use crate::colors::{color_wf, dist2, max_dist2, Color, SCALE};
use crate::rng::{below128_spec, below64_spec, rng_step, Rng64};

verus! {

/// Number of cells of the dense histogram: one per 8-bit RGB triple.
pub const HIST_CELLS: usize = 256 * 256 * 256;

/// The histogram cell of an RGB triple, in scan order: red varies slowest.
pub open spec fn cell_of(r: int, g: int, b: int) -> int {
    r * 65536 + g * 256 + b
}

/// A pixel count, one more unless the count is saturated.
pub open spec fn bump(c: u64) -> u64 {
    if c == u64::MAX {
        c
    } else {
        (c + 1) as u64
    }
}

/// The histogram `cs` after accumulating every pixel of `px` in order.
pub open spec fn hist_add(cs: Seq<u64>, px: Seq<(u8, u8, u8)>) -> Seq<u64>
    decreases px.len(),
{
    if px.len() == 0 {
        cs
    } else {
        let prev = hist_add(cs, px.drop_last());
        let p = px.last();
        let i = cell_of(p.0 as int, p.1 as int, p.2 as int);
        prev.update(i, bump(prev[i]))
    }
}

pub proof fn lemma_hist_add_len(cs: Seq<u64>, px: Seq<(u8, u8, u8)>)
    requires
        cs.len() == HIST_CELLS,
    ensures
        hist_add(cs, px).len() == cs.len(),
    decreases px.len(),
{
    if px.len() > 0 {
        lemma_hist_add_len(cs, px.drop_last());
    }
}

/// A dense pixel-count table over every possible 8-bit RGB triple.
pub struct ColorData {
    counts: Vec<u64>,
}

impl View for ColorData {
    type V = Seq<u64>;

    closed spec fn view(&self) -> Seq<u64> {
        self.counts@
    }
}

impl ColorData {
    /// A histogram with every cell zero.
    pub fn new() -> (h: ColorData)
        ensures
            h@.len() == HIST_CELLS,
            forall|i: int| 0 <= i < h@.len() ==> h@[i] == 0,
    {
        let counts: Vec<u64> = vec![0u64; HIST_CELLS];
        ColorData { counts }
    }

    /// Accumulate one decoded image: every pixel raises its cell's count by
    /// one (saturating at the counter's limit).
    pub fn add(&mut self, pixels: &Vec<(u8, u8, u8)>)
        requires
            old(self)@.len() == HIST_CELLS,
        ensures
            final(self)@ == hist_add(old(self)@, pixels@),
            final(self)@.len() == HIST_CELLS,
    {
        proof {
            lemma_hist_add_len(self@, pixels@);
        }
        let ghost cs0: Seq<u64> = self@;
        let n: usize = pixels.len();
        for i in 0..n
            invariant
                pixels@.len() == n,
                cs0.len() == HIST_CELLS,
                self@ == hist_add(cs0, pixels@.take(i as int)),
                self@.len() == HIST_CELLS,
        {
            proof {
                lemma_hist_add_len(cs0, pixels@.take(i as int));
            }
            let p: (u8, u8, u8) = pixels[i];
            let idx: usize = (p.0 as usize) * 65536 + (p.1 as usize) * 256 + (p.2 as usize);
            let c: u64 = self.counts[idx];
            if c < u64::MAX {
                self.counts[idx] = c + 1;
            }
            proof {
                assert(pixels@.take(i + 1).drop_last() =~= pixels@.take(i as int));
                assert(self@ == hist_add(cs0, pixels@.take(i + 1)));
            }
        }
        proof {
            assert(pixels@.take(n as int) =~= pixels@);
        }
    }
}

/// One distinct observed color: its fixed-point coordinates, the cluster it
/// is currently assigned to, its pixel weight, and the cached squared
/// distance to the nearest centroid chosen so far during seeding.
#[derive(Clone, Copy, Debug, PartialEq, Eq, Structural)]
pub struct ColorPoint {
    pub color: Color,
    pub segment: usize,
    pub count: u64,
    pub distance: u64,
}

/// A weighted point is well-formed: its color is normalized and its weight
/// is positive.
pub open spec fn pt_wf(p: ColorPoint) -> bool {
    color_wf(p.color) && p.count > 0
}

/// The point extracted from a nonzero histogram cell.
pub open spec fn pt_of_cell(idx: int, cnt: u64) -> ColorPoint {
    ColorPoint {
        color: Color {
            r: ((idx / 65536) * 65536) as u32,
            g: (((idx / 256) % 256) * 65536) as u32,
            b: ((idx % 256) * 65536) as u32,
        },
        segment: 0,
        count: cnt,
        distance: u64::MAX,
    }
}

/// The weighted points of the first `n` cells of histogram `cs`, in scan
/// order: one point per nonzero cell.
pub open spec fn extract(cs: Seq<u64>, n: int) -> Seq<ColorPoint>
    decreases n,
{
    if n <= 0 {
        Seq::empty()
    } else if cs[n - 1] > 0 {
        extract(cs, n - 1).push(pt_of_cell(n - 1, cs[n - 1]))
    } else {
        extract(cs, n - 1)
    }
}

pub proof fn lemma_extract_wf(cs: Seq<u64>, n: int)
    requires
        0 <= n <= 0x100_0000,
    ensures
        extract(cs, n).len() <= n,
        forall|i: int| 0 <= i < extract(cs, n).len() ==> pt_wf(#[trigger] extract(cs, n)[i]),
        forall|i: int| 0 <= i < extract(cs, n).len() ==> (#[trigger] extract(cs, n)[i]).segment == 0,
    decreases n,
{
    if n > 0 {
        lemma_extract_wf(cs, n - 1);
        if cs[n - 1] > 0 {
            let m = n - 1;
            assert(0 <= m / 65536 <= 255) by (nonlinear_arith)
                requires 0 <= m < 0x100_0000;
            assert(0 <= m / 256 % 256 <= 255) by (nonlinear_arith)
                requires 0 <= m;
            assert(0 <= m % 256 <= 255) by (nonlinear_arith)
                requires 0 <= m;
            assert(pt_wf(pt_of_cell(m, cs[m])));
        }
    }
}

/// The requested color count clamped to `[1, 256]` and then to the number
/// of distinct colors `u`.
pub open spec fn resolve_k(k: int, u: int) -> int {
    let c = if k > 256 {
        256int
    } else if k < 1 {
        1int
    } else {
        k
    };
    if c > u {
        u
    } else {
        c
    }
}

/// Count of nonzero cells among the first `n` cells of `cs`.
pub open spec fn nonzero_cells(cs: Seq<u64>, n: int) -> int
    decreases n,
{
    if n <= 0 {
        0
    } else if cs[n - 1] > 0 {
        nonzero_cells(cs, n - 1) + 1
    } else {
        nonzero_cells(cs, n - 1)
    }
}

/// The index a strict-improvement scan over `cents[i..]` ends on, having
/// reached `best` so far.
pub open spec fn argmin_from(cents: Seq<Color>, c: Color, i: int, best: int) -> int
    decreases cents.len() - i,
{
    if i >= cents.len() {
        best
    } else {
        let better = if dist2(cents[i], c) < dist2(cents[best], c) {
            i
        } else {
            best
        };
        argmin_from(cents, c, i + 1, better)
    }
}

/// The cluster a point is assigned to: the lowest centroid index at minimum
/// distance, except that the point's current cluster wins exact ties.
pub open spec fn new_seg(cents: Seq<Color>, p: ColorPoint) -> int {
    argmin_from(cents, p.color, 0, p.segment as int)
}

/// One point after an assignment step.
pub open spec fn assign_pt(cents: Seq<Color>, p: ColorPoint) -> ColorPoint {
    ColorPoint { segment: new_seg(cents, p) as usize, ..p }
}

/// The whole point set after an assignment step.
pub open spec fn assign_pts(cents: Seq<Color>, pts: Seq<ColorPoint>) -> Seq<ColorPoint> {
    Seq::new(pts.len(), |i: int| assign_pt(cents, pts[i]))
}

/// How many of the first `n` points an assignment step moves.
pub open spec fn moved_count(cents: Seq<Color>, pts: Seq<ColorPoint>, n: int) -> int
    decreases n,
{
    if n <= 0 {
        0
    } else {
        moved_count(cents, pts, n - 1) + if new_seg(cents, pts[n - 1]) != pts[n - 1].segment as int {
            1int
        } else {
            0int
        }
    }
}

pub proof fn lemma_moved_count_bound(cents: Seq<Color>, pts: Seq<ColorPoint>, n: int)
    ensures
        0 <= moved_count(cents, pts, n) <= if n >= 0 { n } else { 0 },
    decreases n,
{
    if n > 0 {
        lemma_moved_count_bound(cents, pts, n - 1);
    }
}

proof fn lemma_argmin_from_props(cents: Seq<Color>, c: Color, i: int, best: int)
    requires
        0 <= best < cents.len(),
        0 <= i <= cents.len(),
    ensures
        0 <= argmin_from(cents, c, i, best) < cents.len(),
        dist2(cents[argmin_from(cents, c, i, best)], c) <= dist2(cents[best], c),
        forall|j: int|
            i <= j < cents.len() ==> dist2(cents[argmin_from(cents, c, i, best)], c) <= dist2(
                #[trigger] cents[j],
                c,
            ),
    decreases cents.len() - i,
{
    if i < cents.len() {
        let better = if dist2(cents[i], c) < dist2(cents[best], c) {
            i
        } else {
            best
        };
        lemma_argmin_from_props(cents, c, i + 1, better);
    }
}

proof fn lemma_argmin_from_stable(cents: Seq<Color>, c: Color, i: int, best: int)
    requires
        0 <= best < cents.len(),
        0 <= i <= cents.len(),
        forall|j: int| i <= j < cents.len() ==> dist2(cents[best], c) <= dist2(#[trigger] cents[j], c),
    ensures
        argmin_from(cents, c, i, best) == best,
    decreases cents.len() - i,
{
    if i < cents.len() {
        lemma_argmin_from_stable(cents, c, i + 1, best);
    }
}

/// After any assignment step, every point's cluster index is a valid index
/// into the centroid array, and its distance to that centroid is at most its
/// distance to every other centroid.
pub proof fn lemma_assignment_nearest(cents: Seq<Color>, p: ColorPoint)
    requires
        cents.len() > 0,
        (p.segment as int) < cents.len(),
    ensures
        0 <= new_seg(cents, p) < cents.len(),
        forall|j: int|
            0 <= j < cents.len() ==> dist2(cents[new_seg(cents, p)], p.color) <= dist2(
                #[trigger] cents[j],
                p.color,
            ),
{
    lemma_argmin_from_props(cents, p.color, 0, p.segment as int);
}

/// After a completed assignment step, every point's cluster index is a
/// valid index into the centroid array and no other centroid is strictly
/// closer to it.
pub proof fn lemma_assignment_step_nearest(cents: Seq<Color>, pts: Seq<ColorPoint>)
    requires
        0 < cents.len() <= usize::MAX,
        forall|i: int| 0 <= i < pts.len() ==> (#[trigger] pts[i]).segment < cents.len(),
    ensures
        assign_pts(cents, pts).len() == pts.len(),
        forall|i: int|
            0 <= i < pts.len() ==> (#[trigger] assign_pts(cents, pts)[i]).segment < cents.len(),
        forall|i: int, j: int|
            0 <= i < pts.len() && 0 <= j < cents.len() ==> dist2(
                cents[(#[trigger] assign_pts(cents, pts)[i]).segment as int],
                assign_pts(cents, pts)[i].color,
            ) <= dist2(#[trigger] cents[j], assign_pts(cents, pts)[i].color),
{
    let stepped = assign_pts(cents, pts);
    assert forall|i: int| 0 <= i < pts.len() implies (#[trigger] stepped[i]).segment < cents.len()
        && forall|j: int|
        0 <= j < cents.len() ==> dist2(cents[stepped[i].segment as int], stepped[i].color) <= dist2(
            #[trigger] cents[j],
            stepped[i].color,
        ) by {
        lemma_assignment_nearest(cents, pts[i]);
        assert(stepped[i] == assign_pt(cents, pts[i]));
    }
}

/// Assigning twice against one centroid array moves nothing the second
/// time: the first assignment already put every point at its nearest
/// centroid, and a point at minimum distance keeps its cluster.
pub proof fn lemma_assign_idempotent(cents: Seq<Color>, pts: Seq<ColorPoint>)
    requires
        0 < cents.len() <= usize::MAX,
        forall|i: int| 0 <= i < pts.len() ==> (#[trigger] pts[i]).segment < cents.len(),
    ensures
        moved_count(cents, assign_pts(cents, pts), assign_pts(cents, pts).len() as int) == 0,
{
    let once = assign_pts(cents, pts);
    assert forall|i: int| 0 <= i < once.len() implies new_seg(cents, #[trigger] once[i])
        == once[i].segment as int by {
        let p = pts[i];
        lemma_assignment_nearest(cents, p);
        let s = new_seg(cents, p);
        assert(once[i] == assign_pt(cents, p));
        assert(once[i].segment as int == s);
        lemma_argmin_from_stable(cents, p.color, 0, s);
    }
    lemma_moved_zero(cents, once, once.len() as int);
}

proof fn lemma_moved_zero(cents: Seq<Color>, pts: Seq<ColorPoint>, n: int)
    requires
        n <= pts.len(),
        forall|i: int| 0 <= i < pts.len() ==> new_seg(cents, #[trigger] pts[i]) == pts[i].segment as int,
    ensures
        moved_count(cents, pts, n) == 0,
    decreases n,
{
    if n > 0 {
        lemma_moved_zero(cents, pts, n - 1);
    }
}

/// Move one point to its nearest centroid; 1 if it changed cluster, else 0.
fn assign_point(p: &mut ColorPoint, cents: &Vec<Color>) -> (ch: u64)
    requires
        cents@.len() > 0,
        old(p).segment < cents@.len(),
        color_wf(old(p).color),
        forall|j: int| 0 <= j < cents@.len() ==> color_wf(#[trigger] cents@[j]),
    ensures
        *final(p) == assign_pt(cents@, *old(p)),
        ch == if new_seg(cents@, *old(p)) != old(p).segment as int {
            1int
        } else {
            0int
        },
{
    let c: Color = p.color;
    let mut best: usize = p.segment;
    let mut min_dist: u64 = cents[best].distance_squared(c);
    let mut i: usize = 0;
    while i < cents.len()
        invariant
            cents@.len() > 0,
            i <= cents@.len(),
            best < cents@.len(),
            color_wf(c),
            forall|j: int| 0 <= j < cents@.len() ==> color_wf(#[trigger] cents@[j]),
            min_dist == dist2(cents@[best as int], c),
            argmin_from(cents@, c, i as int, best as int) == new_seg(cents@, *old(p)),
            *p == *old(p),
        decreases cents@.len() - i,
    {
        let d: u64 = cents[i].distance_squared(c);
        if d < min_dist {
            min_dist = d;
            best = i;
        }
        i = i + 1;
    }
    if best != p.segment {
        p.segment = best;
        1
    } else {
        p.segment = best;
        0
    }
}

/// Assign every point to its nearest centroid and count the moves.
///
/// Relies on rayon's `par_iter_mut`, `map` and `sum`: the closure is applied
/// exactly once to each element in place, and the returned sum is the sum of
/// the closure's results. All per-point work is the verified
/// `assign_point`.
#[verifier::external_body]
fn par_assign(points: &mut Vec<ColorPoint>, cents: &Vec<Color>) -> (moved: u64)
    requires
        cents@.len() > 0,
        old(points)@.len() <= 0x100_0000,
        forall|i: int| 0 <= i < old(points)@.len() ==> (#[trigger] old(points)@[i]).segment < cents@.len(),
        forall|i: int| 0 <= i < old(points)@.len() ==> color_wf((#[trigger] old(points)@[i]).color),
        forall|j: int| 0 <= j < cents@.len() ==> color_wf(#[trigger] cents@[j]),
    ensures
        final(points)@ == assign_pts(cents@, old(points)@),
        moved == moved_count(cents@, old(points)@, old(points)@.len() as int),
{
    points.par_iter_mut().map(|p| assign_point(p, cents)).sum()
}

/// Total pixel weight assigned to cluster `j` among the first `n` points.
pub open spec fn wsum(pts: Seq<ColorPoint>, j: int, n: int) -> int
    decreases n,
{
    if n <= 0 {
        0
    } else {
        wsum(pts, j, n - 1) + if pts[n - 1].segment as int == j {
            pts[n - 1].count as int
        } else {
            0int
        }
    }
}

/// Weighted red-channel sum of cluster `j` among the first `n` points.
pub open spec fn csum_r(pts: Seq<ColorPoint>, j: int, n: int) -> int
    decreases n,
{
    if n <= 0 {
        0
    } else {
        csum_r(pts, j, n - 1) + if pts[n - 1].segment as int == j {
            pts[n - 1].count * pts[n - 1].color.r
        } else {
            0int
        }
    }
}

/// Weighted green-channel sum of cluster `j` among the first `n` points.
pub open spec fn csum_g(pts: Seq<ColorPoint>, j: int, n: int) -> int
    decreases n,
{
    if n <= 0 {
        0
    } else {
        csum_g(pts, j, n - 1) + if pts[n - 1].segment as int == j {
            pts[n - 1].count * pts[n - 1].color.g
        } else {
            0int
        }
    }
}

/// Weighted blue-channel sum of cluster `j` among the first `n` points.
pub open spec fn csum_b(pts: Seq<ColorPoint>, j: int, n: int) -> int
    decreases n,
{
    if n <= 0 {
        0
    } else {
        csum_b(pts, j, n - 1) + if pts[n - 1].segment as int == j {
            pts[n - 1].count * pts[n - 1].color.b
        } else {
            0int
        }
    }
}

/// Cluster `j`'s recomputed centroid: the weighted mean color of its
/// points, rounded down to fixed-point units; a cluster with no assigned
/// weight keeps its previous centroid.
pub open spec fn recompute_cent(pts: Seq<ColorPoint>, cents: Seq<Color>, j: int) -> Color {
    let n = pts.len() as int;
    let w = wsum(pts, j, n);
    if w == 0 {
        cents[j]
    } else {
        Color {
            r: (csum_r(pts, j, n) / w) as u32,
            g: (csum_g(pts, j, n) / w) as u32,
            b: (csum_b(pts, j, n) / w) as u32,
        }
    }
}

/// The whole centroid array after one recomputation.
pub open spec fn recompute_cents(pts: Seq<ColorPoint>, cents: Seq<Color>) -> Seq<Color> {
    Seq::new(cents.len(), |j: int| recompute_cent(pts, cents, j))
}

/// The convergence metric of one recomputation: the summed movement (in
/// channel units, rounded down) of the first `n` centroids with weight.
pub open spec fn dist_total(pts: Seq<ColorPoint>, cents: Seq<Color>, n: int) -> int
    decreases n,
{
    if n <= 0 {
        0
    } else {
        dist_total(pts, cents, n - 1) + if wsum(pts, n - 1, pts.len() as int) > 0 {
            crate::colors::sqrt_floor(dist2(cents[n - 1], recompute_cent(pts, cents, n - 1)))
        } else {
            0int
        }
    }
}

/// Bounds of the per-cluster sums, used both for overflow-freedom and for
/// the convexity law.
pub proof fn lemma_sums_bounds(pts: Seq<ColorPoint>, j: int, n: int)
    requires
        0 <= n <= pts.len(),
        forall|i: int| 0 <= i < pts.len() ==> pt_wf(#[trigger] pts[i]),
    ensures
        0 <= wsum(pts, j, n) <= n * (u64::MAX as int),
        0 <= csum_r(pts, j, n) <= wsum(pts, j, n) * (SCALE as int),
        0 <= csum_g(pts, j, n) <= wsum(pts, j, n) * (SCALE as int),
        0 <= csum_b(pts, j, n) <= wsum(pts, j, n) * (SCALE as int),
    decreases n,
{
    if n > 0 {
        lemma_sums_bounds(pts, j, n - 1);
        if pts[n - 1].segment as int == j {
            let c = pts[n - 1].count as int;
            let w0 = wsum(pts, j, n - 1);
            assert(c * (pts[n - 1].color.r as int) <= c * (SCALE as int)) by (nonlinear_arith)
                requires c >= 0, pts[n - 1].color.r <= SCALE;
            assert(c * (pts[n - 1].color.g as int) <= c * (SCALE as int)) by (nonlinear_arith)
                requires c >= 0, pts[n - 1].color.g <= SCALE;
            assert(c * (pts[n - 1].color.b as int) <= c * (SCALE as int)) by (nonlinear_arith)
                requires c >= 0, pts[n - 1].color.b <= SCALE;
            assert(c * (pts[n - 1].color.r as int) >= 0) by (nonlinear_arith)
                requires c >= 0, pts[n - 1].color.r >= 0;
            assert(c * (pts[n - 1].color.g as int) >= 0) by (nonlinear_arith)
                requires c >= 0, pts[n - 1].color.g >= 0;
            assert(c * (pts[n - 1].color.b as int) >= 0) by (nonlinear_arith)
                requires c >= 0, pts[n - 1].color.b >= 0;
            assert((w0 + c) * (SCALE as int) == w0 * (SCALE as int) + c * (SCALE as int))
                by (nonlinear_arith);
        }
    }
}

/// Recomputation is a convex combination: when every point's color is
/// normalized, no recomputed centroid component leaves `[0, SCALE]`.
pub proof fn lemma_recompute_in_range(pts: Seq<ColorPoint>, cents: Seq<Color>, j: int)
    requires
        0 <= j < cents.len(),
        forall|i: int| 0 <= i < pts.len() ==> pt_wf(#[trigger] pts[i]),
        color_wf(cents[j]),
    ensures
        color_wf(recompute_cent(pts, cents, j)),
{
    let n = pts.len() as int;
    let w = wsum(pts, j, n);
    lemma_sums_bounds(pts, j, n);
    if w != 0 {
        lemma_div_in_range(csum_r(pts, j, n), w, SCALE as int);
        lemma_div_in_range(csum_g(pts, j, n), w, SCALE as int);
        lemma_div_in_range(csum_b(pts, j, n), w, SCALE as int);
    }
}

proof fn lemma_movement_bound(d: int, s: int, n: int)
    by (nonlinear_arith)
    requires
        d >= 0,
        s > 0,
        d * d <= n,
        n <= 3 * s * s,
    ensures
        d <= 2 * s,
{
}

proof fn lemma_div_in_range(a: int, w: int, m: int)
    by (nonlinear_arith)
    requires
        w > 0,
        m >= 0,
        0 <= a <= w * m,
    ensures
        0 <= a / w <= m,
{
}

/// The point set with the distance caches of indices `from..` tightened
/// against a newly chosen centroid color `c`.
pub open spec fn upd_dists(pts: Seq<ColorPoint>, from: int, c: Color) -> Seq<ColorPoint> {
    Seq::new(
        pts.len(),
        |i: int|
            if i >= from && dist2(pts[i].color, c) < pts[i].distance {
                ColorPoint { distance: dist2(pts[i].color, c) as u64, ..pts[i] }
            } else {
                pts[i]
            },
    )
}

/// Sum of the cached distances of indices `from..n`.
pub open spec fn sum_dists(pts: Seq<ColorPoint>, from: int, n: int) -> int
    decreases n - from,
{
    if n <= from {
        0
    } else {
        sum_dists(pts, from, n - 1) + pts[n - 1].distance
    }
}

/// The first index at or after `i` where the running cache sum (starting at
/// `acc`) exceeds the draw `rnd`; the last point when none does.
pub open spec fn pick_from(pts: Seq<ColorPoint>, i: int, acc: int, rnd: int) -> int
    decreases pts.len() - i,
{
    if i >= pts.len() {
        pts.len() - 1
    } else if acc + pts[i].distance > rnd {
        i
    } else {
        pick_from(pts, i + 1, acc + pts[i].distance, rnd)
    }
}

/// A sequence with the entries at `i` and `j` exchanged.
pub open spec fn seq_swap<A>(s: Seq<A>, i: int, j: int) -> Seq<A> {
    s.update(i, s[j]).update(j, s[i])
}

/// One seeding round, with the centroid of round `ci - 1` sitting at index
/// `ci - 1`: tighten the caches of the remaining points against it, draw a
/// value below their cache sum, walk to the picked point, and swap it into
/// position `ci`.
pub open spec fn seed_round(pts: Seq<ColorPoint>, s: u64, ci: int) -> (Seq<ColorPoint>, u64) {
    let c = pts[ci - 1].color;
    let pts1 = upd_dists(pts, ci, c);
    let total = sum_dists(pts1, ci, pts1.len() as int);
    let rnd = below128_spec(s, total as u128);
    let pick = pick_from(pts1, ci, 0, rnd);
    (seq_swap(pts1, ci, pick), rng_step(rng_step(s)))
}

/// The seeding state after the uniform first pick and rounds `1..r`.
pub open spec fn seed_upto(pts: Seq<ColorPoint>, s: u64, r: int) -> (Seq<ColorPoint>, u64)
    decreases r,
{
    if r <= 1 {
        let j = below64_spec(s, pts.len() as u64);
        (seq_swap(pts, 0, j as int), rng_step(s))
    } else {
        let prev = seed_upto(pts, s, r - 1);
        seed_round(prev.0, prev.1, r - 1)
    }
}

pub proof fn lemma_pick_from_range(pts: Seq<ColorPoint>, i: int, acc: int, rnd: int)
    requires
        0 <= i < pts.len(),
    ensures
        i <= pick_from(pts, i, acc, rnd) < pts.len(),
    decreases pts.len() - i,
{
    if !(acc + pts[i].distance > rnd) {
        if i + 1 < pts.len() {
            lemma_pick_from_range(pts, i + 1, acc + pts[i].distance, rnd);
        } else {
            assert(pick_from(pts, i + 1, acc + pts[i].distance, rnd) == pts.len() - 1);
        }
    }
}

/// A seeding round permutes the points and tightens caches: colors, weights
/// and cluster indices are preserved pointwise up to the swap.
pub proof fn lemma_round_preserves(pts: Seq<ColorPoint>, s: u64, ci: int, k: int)
    requires
        1 <= ci < pts.len(),
        forall|m: int| 0 <= m < pts.len() ==> pt_wf(#[trigger] pts[m]),
        forall|m: int| 0 <= m < pts.len() ==> (#[trigger] pts[m]).segment < k,
    ensures
        seed_round(pts, s, ci).0.len() == pts.len(),
        forall|m: int|
            0 <= m < pts.len() ==> pt_wf(#[trigger] seed_round(pts, s, ci).0[m]),
        forall|m: int|
            0 <= m < pts.len() ==> (#[trigger] seed_round(pts, s, ci).0[m]).segment < k,
{
    let c = pts[ci - 1].color;
    let pts1 = upd_dists(pts, ci, c);
    let total = sum_dists(pts1, ci, pts1.len() as int);
    let rnd = below128_spec(s, total as u128);
    let pick = pick_from(pts1, ci, 0, rnd);
    lemma_pick_from_range(pts1, ci, 0, rnd);
    let r = seq_swap(pts1, ci, pick);
    assert(seed_round(pts, s, ci).0 == r);
    assert forall|m: int| 0 <= m < pts.len() implies pt_wf(#[trigger] r[m]) && (r[m]).segment
        < k by {
        assert(pt_wf(pts1[m]) && pts1[m].segment < k);
        assert(pt_wf(pts1[ci]) && pts1[ci].segment < k);
        assert(pt_wf(pts1[pick]) && pts1[pick].segment < k);
    }
}

/// How many independent seeding attempts one run makes.
pub const ATTEMPTS: usize = 5;

/// The step cap of one attempt.
pub const MAX_STEPS: usize = 1000;

/// Zero distinct colors were observed: no centroid can be seeded.
#[derive(Clone, Copy, Debug, PartialEq, Eq, Structural)]
pub enum QuantizeError {
    DegenerateInput,
}

/// One progress report: which attempt and step it describes, how many
/// points that step moved, the step's total centroid movement (in
/// fixed-point channel units), and the engine's step counters for the
/// completion projection.
#[derive(Clone, Copy, Debug, PartialEq, Eq, Structural)]
pub struct ProgressUpdate {
    pub attempt: u32,
    pub step: u32,
    pub points_moved: u64,
    pub distance: u64,
    pub steps_done: u32,
    pub steps_estimated: u32,
}

/// The report published for step `step` of attempt `attempt`, with `passed`
/// steps completed in earlier attempts: the first attempt projects the full
/// step budget; later ones extrapolate the remaining attempts linearly at
/// the average pace so far.
pub open spec fn stats_of(attempt: int, step: int, passed: int, moved: u64, td: u64) -> ProgressUpdate {
    let done = if attempt == 0 {
        step
    } else {
        passed + step
    };
    let total = if attempt == 0 {
        5000int
    } else {
        passed + passed / attempt * (5 - attempt)
    };
    ProgressUpdate {
        attempt: attempt as u32,
        step: step as u32,
        points_moved: moved,
        distance: td,
        steps_done: done as u32,
        steps_estimated: total as u32,
    }
}

/// The whole engine state a run threads along: the quantizer's fields, the
/// random source's state, the steps completed in finished attempts, and the
/// reports published so far.
#[verifier::ext_equal]
pub struct EngineModel {
    pub pts: Seq<ColorPoint>,
    pub cents: Seq<Color>,
    pub td: u64,
    pub moved: u64,
    pub rng: u64,
    pub passed: int,
    pub reports: Seq<ProgressUpdate>,
}

/// The rest of attempt `a` from step `s` on: assign; if nothing moved,
/// report and stop without recomputing; otherwise recompute and continue,
/// reporting once at the step cap.
pub open spec fn attempt_from(m: EngineModel, a: int, s: int) -> EngineModel
    decreases 1000 - s,
{
    if s >= 1000 {
        EngineModel {
            passed: m.passed + 1000,
            reports: m.reports.push(stats_of(a, 999, m.passed, m.moved, m.td)),
            ..m
        }
    } else {
        let mv = moved_count(m.cents, m.pts, m.pts.len() as int) as u64;
        let m2 = EngineModel { pts: assign_pts(m.cents, m.pts), moved: mv, ..m };
        if mv == 0 {
            EngineModel {
                passed: m2.passed + s,
                reports: m2.reports.push(stats_of(a, s, m2.passed, m2.moved, m2.td)),
                ..m2
            }
        } else {
            let m3 = EngineModel {
                cents: recompute_cents(m2.pts, m2.cents),
                td: dist_total(m2.pts, m2.cents, m2.cents.len() as int) as u64,
                ..m2
            };
            attempt_from(m3, a, s + 1)
        }
    }
}

/// One whole attempt: fresh seeding, then the iteration from step 0.
pub open spec fn run_attempt(m: EngineModel, a: int) -> EngineModel {
    let seeded = seed_upto(m.pts, m.rng, m.cents.len() as int);
    let m1 = EngineModel {
        pts: seeded.0,
        rng: seeded.1,
        cents: Seq::new(m.cents.len(), |i: int| seeded.0[i].color),
        ..m
    };
    attempt_from(m1, a, 0)
}

/// The engine state after the first `a` attempts.
pub open spec fn run_upto(m: EngineModel, a: int) -> EngineModel
    decreases a,
{
    if a <= 0 {
        m
    } else {
        run_attempt(run_upto(m, a - 1), a - 1)
    }
}

/// The engine model assembled from a quantizer, a random-source state, a
/// passed-steps counter and the reports published so far.
pub open spec fn model_of(c: ColorCalc, rng: u64, passed: int, reports: Seq<ProgressUpdate>) -> EngineModel {
    EngineModel {
        pts: c.pts(),
        cents: c.cents(),
        td: c.td(),
        moved: c.moved(),
        rng: rng,
        passed: passed,
        reports: reports,
    }
}

/// An attempt whose assignment step moves no point stops at that step:
/// recomputation does not run, the centroids stay exactly as the assignment
/// left them, and one converged report is published.
pub proof fn lemma_converged_attempt_stops(m: EngineModel, a: int, s: int)
    requires
        0 <= s < 1000,
        moved_count(m.cents, m.pts, m.pts.len() as int) == 0,
    ensures
        attempt_from(m, a, s).cents == m.cents,
        attempt_from(m, a, s).pts == assign_pts(m.cents, m.pts),
        attempt_from(m, a, s).td == m.td,
        attempt_from(m, a, s).moved == 0,
        attempt_from(m, a, s).passed == m.passed + s,
        attempt_from(m, a, s).reports == m.reports.push(stats_of(a, s, m.passed, 0, m.td)),
{
}

/// Determinism: a whole run is the mathematical function `run_upto` of the
/// extracted point set, the centroid count and the random seed, so two runs
/// from equal states produce equal seeding, centroids and reports.
pub proof fn lemma_run_deterministic(m1: EngineModel, m2: EngineModel)
    requires
        m1 == m2,
    ensures
        run_upto(m1, ATTEMPTS as int) == run_upto(m2, ATTEMPTS as int),
{
}

/// The quantizer: the weighted point set and the centroid array, refined
/// toward a palette by seeding, assignment and recomputation.
pub struct ColorCalc {
    points: Vec<ColorPoint>,
    centroids: Vec<Color>,
    total_distance: u64,
    points_changed: u64,
    /// Number of distinct colors observed in the adjustable histogram.
    pub unique_colors: u64,
    /// Number of distinct colors observed in the fixed histogram.
    pub fixed_colors: u64,
}

impl ColorCalc {
    /// The weighted point set.
    pub closed spec fn pts(self) -> Seq<ColorPoint> {
        self.points@
    }

    /// The centroid array.
    pub closed spec fn cents(self) -> Seq<Color> {
        self.centroids@
    }

    /// The number of distinct adjustable colors, as the contracts see it.
    pub closed spec fn unique(self) -> u64 {
        self.unique_colors
    }

    /// The number of distinct fixed colors, as the contracts see it.
    pub closed spec fn fixed(self) -> u64 {
        self.fixed_colors
    }

    /// Total centroid movement of the last recomputation, in channel units.
    pub closed spec fn td(self) -> u64 {
        self.total_distance
    }

    /// Number of points the last assignment step moved.
    pub closed spec fn moved(self) -> u64 {
        self.points_changed
    }

    /// The structural invariant of the quantizer.
    pub closed spec fn wf(self) -> bool {
        &&& self.points@.len() <= 0x100_0000
        &&& forall|i: int| 0 <= i < self.points@.len() ==> pt_wf(#[trigger] self.points@[i])
        &&& forall|i: int|
            0 <= i < self.points@.len() ==> (#[trigger] self.points@[i]).segment
                < self.centroids@.len()
        &&& forall|j: int| 0 <= j < self.centroids@.len() ==> color_wf(#[trigger] self.centroids@[j])
        &&& self.centroids@.len() <= self.points@.len()
        &&& self.centroids@.len() <= 256
        &&& self.points@.len() > 0 ==> self.centroids@.len() > 0
        &&& self.unique_colors == self.points@.len()
        &&& self.points_changed <= self.points@.len()
    }

    /// Build the point set from the adjustable histogram and size the
    /// centroid array by clamping the requested count.
    pub fn new(color_count: i32, adjustable_colors: ColorData, fixed_colors: ColorData) -> (calc:
        ColorCalc)
        requires
            adjustable_colors@.len() == HIST_CELLS,
            fixed_colors@.len() == HIST_CELLS,
        ensures
            calc.pts() == extract(adjustable_colors@, HIST_CELLS as int),
            calc.unique() == calc.pts().len(),
            calc.cents().len() == resolve_k(color_count as int, calc.pts().len() as int),
            forall|j: int| 0 <= j < calc.cents().len() ==> #[trigger] calc.cents()[j] == Color::black_spec(),
            calc.fixed() == nonzero_cells(fixed_colors@, HIST_CELLS as int),
            calc.td() == 0 && calc.moved() == 0,
            calc.wf(),
    {
        let mut points: Vec<ColorPoint> = Vec::new();
        let mut idx: usize = 0;
        while idx < HIST_CELLS
            invariant
                adjustable_colors@.len() == HIST_CELLS,
                idx <= HIST_CELLS,
                points@ == extract(adjustable_colors@, idx as int),
            decreases HIST_CELLS - idx,
        {
            let cnt: u64 = adjustable_colors.counts[idx];
            if cnt > 0 {
                let r: u8 = (idx / 65536) as u8;
                let g: u8 = ((idx / 256) % 256) as u8;
                let b: u8 = (idx % 256) as u8;
                assert(idx / 65536 < 256) by (nonlinear_arith)
                    requires idx < 0x100_0000usize;
                let color: Color = Color::new(r, g, b);
                points.push(ColorPoint { color, segment: 0, count: cnt, distance: u64::MAX });
                assert(points@ == extract(adjustable_colors@, idx + 1));
            }
            idx = idx + 1;
        }

        let unique: usize = points.len();

        let clamped: usize = if color_count > 256 {
            256
        } else if color_count < 1 {
            1
        } else {
            color_count as usize
        };
        let k: usize = if clamped > unique {
            unique
        } else {
            clamped
        };

        let mut centroids: Vec<Color> = Vec::new();
        let mut j: usize = 0;
        while j < k
            invariant
                j <= k,
                centroids@.len() == j,
                forall|i: int| 0 <= i < j ==> #[trigger] centroids@[i] == Color::black_spec(),
            decreases k - j,
        {
            centroids.push(Color::black());
            j = j + 1;
        }

        let mut fixed: u64 = 0;
        let mut fi: usize = 0;
        while fi < HIST_CELLS
            invariant
                fixed_colors@.len() == HIST_CELLS,
                fi <= HIST_CELLS,
                fixed == nonzero_cells(fixed_colors@, fi as int),
                fixed <= fi,
            decreases HIST_CELLS - fi,
        {
            if fixed_colors.counts[fi] > 0 {
                fixed = fixed + 1;
            }
            fi = fi + 1;
        }

        proof {
            lemma_extract_wf(adjustable_colors@, HIST_CELLS as int);
        }

        ColorCalc {
            points,
            centroids,
            total_distance: 0,
            points_changed: 0,
            unique_colors: unique as u64,
            fixed_colors: fixed,
        }
    }

    /// One seeding round, the centroid of the previous round sitting at
    /// `ci - 1`: tighten the remaining points' caches against it, draw a
    /// value below their sum, walk to the picked point, and swap it into
    /// position `ci`.
    #[verifier::rlimit(100)]
    fn seed_round_at(&mut self, rng: &mut Rng64, ci: usize)
        requires
            1 <= ci,
            (ci as int) < old(self).cents().len(),
            old(self).cents().len() <= old(self).pts().len(),
            old(self).pts().len() <= 0x100_0000,
            forall|m: int| 0 <= m < old(self).pts().len() ==> pt_wf(#[trigger] old(self).pts()[m]),
        ensures
            (final(self).pts(), final(rng)@) == seed_round(old(self).pts(), old(rng)@, ci as int),
            final(self).cents() == old(self).cents(),
            final(self).td() == old(self).td(),
            final(self).moved() == old(self).moved(),
            final(self).unique() == old(self).unique(),
            final(self).fixed() == old(self).fixed(),
    {
        let ghost pts_r = self.points@;
        let ghost s_r = rng@;
        let n: usize = self.points.len();
        let cent_color: Color = self.points[ci - 1].color;

        let mut total: u128 = 0;
        let mut i: usize = ci;
        while i < n
            invariant
                ci <= i <= n,
                ci >= 1,
                n <= 0x100_0000,
                n == self.points@.len(),
                n == pts_r.len(),
                max_dist2() == 837_840_745_267_200,
                color_wf(cent_color),
                self.centroids@ == old(self).cents(),
                self.total_distance == old(self).td(),
                self.points_changed == old(self).moved(),
                self.unique_colors == old(self).unique(),
                self.fixed_colors == old(self).fixed(),
                rng@ == s_r,
                forall|m: int| 0 <= m < n ==> pt_wf(#[trigger] self.points@[m]),
                forall|m: int|
                    0 <= m < i ==> #[trigger] self.points@[m] == upd_dists(
                        pts_r,
                        ci as int,
                        cent_color,
                    )[m],
                forall|m: int| i <= m < n ==> #[trigger] self.points@[m] == pts_r[m],
                total == sum_dists(upd_dists(pts_r, ci as int, cent_color), ci as int, i as int),
                total <= (i as int) * max_dist2(),
            decreases n - i,
        {
            let mut p: ColorPoint = self.points[i];
            let d: u64 = p.color.distance_squared(cent_color);
            if d < p.distance {
                p.distance = d;
                self.points[i] = p;
            }
            proof {
                assert(((i as int) + 1) * max_dist2() == (i as int) * max_dist2() + max_dist2())
                    by (nonlinear_arith);
            }
            total = total + (p.distance as u128);
            i = i + 1;
        }
        let ghost pts1 = upd_dists(pts_r, ci as int, cent_color);
        proof {
            assert(self.points@ =~= pts1);
        }

        let rnd: u128 = rng.below_u128(total);

        let mut next: usize = n - 1;
        let mut acc: u128 = 0;
        let mut i2: usize = ci;
        while i2 < n
            invariant_except_break
                ci <= i2 <= n,
                ci < n,
                n == self.points@.len(),
                self.points@ == pts1,
                max_dist2() == 837_840_745_267_200,
                self.centroids@ == old(self).cents(),
                self.total_distance == old(self).td(),
                self.points_changed == old(self).moved(),
                self.unique_colors == old(self).unique(),
                self.fixed_colors == old(self).fixed(),
                rng@ == rng_step(rng_step(s_r)),
                acc == sum_dists(pts1, ci as int, i2 as int),
                acc <= rnd,
                rnd <= total,
                total <= 0x100_0000 * max_dist2(),
                next == n - 1,
                pick_from(pts1, ci as int, 0, rnd as int) == pick_from(
                    pts1,
                    i2 as int,
                    acc as int,
                    rnd as int,
                ),
            ensures
                self.points@ == pts1,
                n == self.points@.len(),
                self.centroids@ == old(self).cents(),
                self.total_distance == old(self).td(),
                self.points_changed == old(self).moved(),
                self.unique_colors == old(self).unique(),
                self.fixed_colors == old(self).fixed(),
                rng@ == rng_step(rng_step(s_r)),
                ci <= next < n,
                next == pick_from(pts1, ci as int, 0, rnd as int),
            decreases n - i2,
        {
            let d: u64 = self.points[i2].distance;
            if acc + (d as u128) > rnd {
                next = i2;
                break ;
            }
            acc = acc + (d as u128);
            i2 = i2 + 1;
        }

        let pn: ColorPoint = self.points[next];
        let pc: ColorPoint = self.points[ci];
        self.points[ci] = pn;
        self.points[next] = pc;
        proof {
            assert(self.points@ =~= seq_swap(pts1, ci as int, next as int));
            assert(total == sum_dists(pts1, ci as int, pts1.len() as int) as u128);
            assert((self.points@, rng@) == seed_round(pts_r, s_r, ci as int));
        }
    }

    /// Seed the centroid array: the first centroid is a uniformly random
    /// point; each further one is drawn with probability proportional to the
    /// cached squared distance to the nearest centroid chosen so far. Chosen
    /// points are swapped into the front of the point array.
    pub fn init_centroids(&mut self, rng: &mut Rng64)
        requires
            old(self).wf(),
            old(self).pts().len() > 0,
        ensures
            (final(self).pts(), final(rng)@) == seed_upto(
                old(self).pts(),
                old(rng)@,
                old(self).cents().len() as int,
            ),
            final(self).cents() == Seq::new(
                old(self).cents().len(),
                |i: int| final(self).pts()[i].color,
            ),
            final(self).td() == old(self).td(),
            final(self).moved() == old(self).moved(),
            final(self).unique() == old(self).unique(),
            final(self).fixed() == old(self).fixed(),
            final(self).wf(),
    {
        let ghost pts0 = self.points@;
        let ghost s0 = rng@;
        let n: usize = self.points.len();
        let k: usize = self.centroids.len();

        let j: usize = rng.below_u64(n as u64) as usize;
        let pj: ColorPoint = self.points[j];
        let p0: ColorPoint = self.points[0];
        self.points[0] = pj;
        self.points[j] = p0;
        proof {
            assert(self.points@ =~= seq_swap(pts0, 0, j as int));
        }

        let mut ci: usize = 1;
        while ci < k
            invariant
                1 <= ci <= k,
                k <= n,
                n <= 0x100_0000,
                n == self.points@.len(),
                k == self.centroids@.len(),
                self.centroids@ == old(self).cents(),
                self.total_distance == old(self).td(),
                self.points_changed == old(self).moved(),
                self.unique_colors == old(self).unique(),
                self.fixed_colors == old(self).fixed(),
                forall|j2: int| 0 <= j2 < k ==> color_wf(#[trigger] self.centroids@[j2]),
                (self.points@, rng@) == seed_upto(pts0, s0, ci as int),
                forall|m: int| 0 <= m < n ==> pt_wf(#[trigger] self.points@[m]),
                forall|m: int| 0 <= m < n ==> (#[trigger] self.points@[m]).segment < k,
            decreases k - ci,
        {
            let ghost pts_r = self.points@;
            let ghost s_r = rng@;
            self.seed_round_at(rng, ci);
            proof {
                lemma_round_preserves(pts_r, s_r, ci as int, k as int);
                assert((self.points@, rng@) == seed_upto(pts0, s0, (ci + 1) as int));
            }
            ci = ci + 1;
        }

        let mut t: usize = 0;
        while t < k
            invariant
                t <= k,
                k <= n,
                n == self.points@.len(),
                k == self.centroids@.len(),
                (self.points@, rng@) == seed_upto(pts0, s0, k as int),
                self.total_distance == old(self).td(),
                self.points_changed == old(self).moved(),
                self.unique_colors == old(self).unique(),
                self.fixed_colors == old(self).fixed(),
                forall|m: int| 0 <= m < n ==> pt_wf(#[trigger] self.points@[m]),
                forall|m: int| 0 <= m < n ==> (#[trigger] self.points@[m]).segment < k,
                forall|m: int| t <= m < k ==> color_wf(#[trigger] self.centroids@[m]),
                forall|m: int|
                    0 <= m < t ==> #[trigger] self.centroids@[m] == self.points@[m].color,
            decreases k - t,
        {
            self.centroids[t] = self.points[t].color;
            t = t + 1;
        }
        proof {
            if k == 1 {
                assert((self.points@, rng@) == seed_upto(pts0, s0, 1));
            }
            assert(self.centroids@ =~= Seq::new(
                old(self).cents().len(),
                |i: int| self.points@[i].color,
            ));
        }
    }

    /// One assignment step: move every point to its nearest centroid, in
    /// parallel, and record how many points changed cluster.
    pub fn calc_segments(&mut self)
        requires
            old(self).wf(),
            old(self).pts().len() > 0,
        ensures
            final(self).pts() == assign_pts(old(self).cents(), old(self).pts()),
            final(self).cents() == old(self).cents(),
            final(self).moved() == moved_count(
                old(self).cents(),
                old(self).pts(),
                old(self).pts().len() as int,
            ),
            final(self).td() == old(self).td(),
            final(self).unique() == old(self).unique(),
            final(self).fixed() == old(self).fixed(),
            final(self).wf(),
    {
        let moved: u64 = par_assign(&mut self.points, &self.centroids);
        self.points_changed = moved;
        proof {
            let cents = old(self).cents();
            let pts0 = old(self).pts();
            lemma_moved_count_bound(cents, pts0, pts0.len() as int);
            assert forall|i: int| 0 <= i < self.points@.len() implies pt_wf(
                #[trigger] self.points@[i],
            ) && (self.points@[i]).segment < self.centroids@.len() by {
                lemma_assignment_nearest(cents, pts0[i]);
                assert(self.points@[i] == assign_pt(cents, pts0[i]));
            }
        }
    }

    /// One recomputation step: replace every weighted cluster's centroid by
    /// the weighted mean color of its points and record the total movement.
    pub fn calc_centroids(&mut self)
        requires
            old(self).wf(),
        ensures
            final(self).cents() == recompute_cents(old(self).pts(), old(self).cents()),
            final(self).pts() == old(self).pts(),
            final(self).td() == dist_total(
                old(self).pts(),
                old(self).cents(),
                old(self).cents().len() as int,
            ),
            final(self).moved() == old(self).moved(),
            final(self).unique() == old(self).unique(),
            final(self).fixed() == old(self).fixed(),
            final(self).wf(),
    {
        let k: usize = self.centroids.len();
        let n: usize = self.points.len();
        let mut ws: Vec<u128> = vec![0u128; k];
        let mut rs: Vec<u128> = vec![0u128; k];
        let mut gs: Vec<u128> = vec![0u128; k];
        let mut bs: Vec<u128> = vec![0u128; k];

        let ghost pts = self.points@;
        let mut i: usize = 0;
        while i < n
            invariant
                self == old(self),
                old(self).wf(),
                pts == self.points@,
                n == pts.len(),
                k == self.centroids@.len(),
                i <= n,
                ws@.len() == k && rs@.len() == k && gs@.len() == k && bs@.len() == k,
                forall|j: int| 0 <= j < k ==> #[trigger] ws@[j] == wsum(pts, j, i as int),
                forall|j: int| 0 <= j < k ==> #[trigger] rs@[j] == csum_r(pts, j, i as int),
                forall|j: int| 0 <= j < k ==> #[trigger] gs@[j] == csum_g(pts, j, i as int),
                forall|j: int| 0 <= j < k ==> #[trigger] bs@[j] == csum_b(pts, j, i as int),
            decreases n - i,
        {
            proof {
                assert forall|j: int| 0 <= j < k implies wsum(pts, j, i as int) <= (i as int) * (
                u64::MAX as int) && 0 <= wsum(pts, j, i as int) && 0 <= csum_r(pts, j, i as int)
                    <= wsum(pts, j, i as int) * (SCALE as int) && 0 <= csum_g(pts, j, i as int)
                    <= wsum(pts, j, i as int) * (SCALE as int) && 0 <= csum_b(pts, j, i as int)
                    <= wsum(pts, j, i as int) * (SCALE as int) by {
                    lemma_sums_bounds(pts, j, i as int);
                }
            }
            let p: ColorPoint = self.points[i];
            let j: usize = p.segment;
            proof {
                assert(wsum(pts, j as int, i as int) * (SCALE as int) <= ((i as int) * (
                u64::MAX as int)) * (SCALE as int)) by (nonlinear_arith)
                    requires
                        0 <= wsum(pts, j as int, i as int) <= (i as int) * (u64::MAX as int),
                        SCALE > 0,
                ;
                assert((p.count as int) * (p.color.r as int) <= (u64::MAX as int) * (SCALE as int))
                    by (nonlinear_arith)
                    requires 0 <= p.count <= u64::MAX, 0 <= p.color.r <= SCALE;
                assert((p.count as int) * (p.color.g as int) <= (u64::MAX as int) * (SCALE as int))
                    by (nonlinear_arith)
                    requires 0 <= p.count <= u64::MAX, 0 <= p.color.g <= SCALE;
                assert((p.count as int) * (p.color.b as int) <= (u64::MAX as int) * (SCALE as int))
                    by (nonlinear_arith)
                    requires 0 <= p.count <= u64::MAX, 0 <= p.color.b <= SCALE;
                assert((p.count as int) * (p.color.r as int) >= 0) by (nonlinear_arith)
                    requires p.count >= 0, p.color.r >= 0;
                assert((p.count as int) * (p.color.g as int) >= 0) by (nonlinear_arith)
                    requires p.count >= 0, p.color.g >= 0;
                assert((p.count as int) * (p.color.b as int) >= 0) by (nonlinear_arith)
                    requires p.count >= 0, p.color.b >= 0;
            }
            let wj: u128 = ws[j];
            ws[j] = wj + p.count as u128;
            let rj: u128 = rs[j];
            rs[j] = rj + (p.count as u128) * (p.color.r as u128);
            let gj: u128 = gs[j];
            gs[j] = gj + (p.count as u128) * (p.color.g as u128);
            let bj: u128 = bs[j];
            bs[j] = bj + (p.count as u128) * (p.color.b as u128);
            i = i + 1;
        }

        let ghost cents0 = self.centroids@;
        self.total_distance = 0;
        let mut j: usize = 0;
        while j < k
            invariant
                old(self).wf(),
                pts == self.points@,
                cents0 == old(self).cents(),
                n == pts.len(),
                k == cents0.len(),
                k == self.centroids@.len(),
                j <= k,
                k <= 256,
                self.points@ == old(self).pts(),
                self.points_changed == old(self).moved(),
                self.unique_colors == old(self).unique_colors,
                self.fixed_colors == old(self).fixed_colors,
                ws@.len() == k && rs@.len() == k && gs@.len() == k && bs@.len() == k,
                forall|jj: int| 0 <= jj < k ==> #[trigger] ws@[jj] == wsum(pts, jj, n as int),
                forall|jj: int| 0 <= jj < k ==> #[trigger] rs@[jj] == csum_r(pts, jj, n as int),
                forall|jj: int| 0 <= jj < k ==> #[trigger] gs@[jj] == csum_g(pts, jj, n as int),
                forall|jj: int| 0 <= jj < k ==> #[trigger] bs@[jj] == csum_b(pts, jj, n as int),
                forall|jj: int|
                    0 <= jj < j ==> #[trigger] self.centroids@[jj] == recompute_cent(
                        pts,
                        cents0,
                        jj,
                    ),
                forall|jj: int| j <= jj < k ==> #[trigger] self.centroids@[jj] == cents0[jj],
                self.total_distance == dist_total(pts, cents0, j as int),
                self.total_distance <= (j as int) * 2 * (SCALE as int),
            decreases k - j,
        {
            proof {
                lemma_sums_bounds(pts, j as int, n as int);
            }
            if ws[j] != 0 {
                let w: u128 = ws[j];
                proof {
                    lemma_div_in_range(csum_r(pts, j as int, n as int), w as int, SCALE as int);
                    lemma_div_in_range(csum_g(pts, j as int, n as int), w as int, SCALE as int);
                    lemma_div_in_range(csum_b(pts, j as int, n as int), w as int, SCALE as int);
                }
                let nc: Color = Color {
                    r: (rs[j] / w) as u32,
                    g: (gs[j] / w) as u32,
                    b: (bs[j] / w) as u32,
                };
                assert(nc == recompute_cent(pts, cents0, j as int));
                let oc: Color = self.centroids[j];
                let d: u64 = oc.distance(nc);
                proof {
                    crate::colors::lemma_dist2_bounds(oc, nc);
                    crate::colors::lemma_sqrt_floor_bounds(dist2(oc, nc));
                    lemma_movement_bound(d as int, SCALE as int, dist2(oc, nc));
                }
                proof {
                    assert(((j as int) + 1) * 2 * (SCALE as int) == (j as int) * 2 * (SCALE as int)
                        + 2 * (SCALE as int)) by (nonlinear_arith);
                    assert((j as int) * 2 * (SCALE as int) <= 256 * 2 * (SCALE as int))
                        by (nonlinear_arith)
                        requires 0 <= j < 256;
                }
                self.total_distance = self.total_distance + d;
                self.centroids[j] = nc;
            }
            proof {
                assert(((j as int) + 1) * 2 * (SCALE as int) == (j as int) * 2 * (SCALE as int) + 2
                    * (SCALE as int)) by (nonlinear_arith);
            }
            j = j + 1;
        }
        proof {
            assert(self.centroids@ =~= recompute_cents(old(self).pts(), old(self).cents()));
            assert forall|jj: int| 0 <= jj < k implies color_wf(#[trigger] self.centroids@[jj]) by {
                lemma_recompute_in_range(pts, cents0, jj);
            }
        }
    }

    /// The report for `step` of `attempt`, with `passed` steps completed in
    /// earlier attempts, carrying the engine's current movement counters.
    pub fn update_stats(&self, attempt: usize, step: usize, passed: usize) -> (u: ProgressUpdate)
        requires
            attempt < 5,
            step < 1000,
            passed <= 5000,
        ensures
            u == stats_of(attempt as int, step as int, passed as int, self.moved(), self.td()),
    {
        let step_current: usize = if attempt == 0 {
            step
        } else {
            passed + step
        };
        let steps_total: usize = if attempt == 0 {
            5 * 1000
        } else {
            proof {
                assert(passed / attempt <= passed) by (nonlinear_arith)
                    requires attempt >= 1, passed >= 0;
                assert(passed / attempt * (5 - attempt) <= 20000) by (nonlinear_arith)
                    requires 1 <= attempt < 5, 0 <= passed / attempt <= 5000;
            }
            passed + passed / attempt * (5 - attempt)
        };
        ProgressUpdate {
            attempt: attempt as u32,
            step: step as u32,
            points_moved: self.points_changed,
            distance: self.total_distance,
            steps_done: step_current as u32,
            steps_estimated: steps_total as u32,
        }
    }

    /// One full run: five independent attempts, each a fresh seeding
    /// followed by assignment and recomputation until an assignment moves no
    /// point or the step cap is reached. The returned reports are the
    /// mandatory per-attempt termination reports; the palette is the
    /// centroid array the last attempt leaves behind.
    pub fn run(&mut self, rng: &mut Rng64) -> (r: Result<Vec<ProgressUpdate>, QuantizeError>)
        requires
            old(self).wf(),
        ensures
            r is Err <==> old(self).unique() == 0,
            r is Err ==> *final(self) == *old(self) && final(rng)@ == old(rng)@ && r
                == Err::<Vec<ProgressUpdate>, QuantizeError>(QuantizeError::DegenerateInput),
            r is Ok ==> ({
                let m = run_upto(model_of(*old(self), old(rng)@, 0, Seq::empty()), ATTEMPTS as int);
                &&& final(self).pts() == m.pts
                &&& final(self).cents() == m.cents
                &&& final(self).td() == m.td
                &&& final(self).moved() == m.moved
                &&& final(rng)@ == m.rng
                &&& (r->Ok_0)@ == m.reports
                &&& final(self).unique() == old(self).unique()
                &&& final(self).fixed() == old(self).fixed()
                &&& final(self).wf()
            }),
    {
        if self.unique_colors == 0 {
            return Err(QuantizeError::DegenerateInput);
        }
        let ghost m0 = model_of(*self, rng@, 0, Seq::empty());
        let mut reports: Vec<ProgressUpdate> = Vec::new();
        let mut steps_passed: usize = 0;
        let mut a: usize = 0;
        while a < ATTEMPTS
            invariant
                a <= ATTEMPTS,
                self.wf(),
                self.pts().len() > 0,
                steps_passed <= (a as int) * 1000,
                self.unique_colors == old(self).unique(),
                self.fixed_colors == old(self).fixed(),
                model_of(*self, rng@, steps_passed as int, reports@) == run_upto(m0, a as int),
            decreases ATTEMPTS - a,
        {
            let ghost m_a = run_upto(m0, a as int);
            self.init_centroids(rng);
            let ghost m1 = model_of(*self, rng@, steps_passed as int, reports@);
            proof {
                let seeded = seed_upto(m_a.pts, m_a.rng, m_a.cents.len() as int);
                assert(m1 =~= EngineModel {
                    pts: seeded.0,
                    rng: seeded.1,
                    cents: Seq::new(m_a.cents.len(), |i: int| seeded.0[i].color),
                    ..m_a
                });
            }

            let mut st: usize = 0;
            let mut converged: bool = false;
            while st < MAX_STEPS
                invariant_except_break
                    st < MAX_STEPS,
                    !converged,
                    self.wf(),
                    self.pts().len() > 0,
                    steps_passed <= (a as int) * 1000,
                    a < ATTEMPTS,
                    self.unique_colors == old(self).unique(),
                    self.fixed_colors == old(self).fixed(),
                    attempt_from(
                        model_of(*self, rng@, steps_passed as int, reports@),
                        a as int,
                        st as int,
                    ) == attempt_from(m1, a as int, 0),
                ensures
                    self.wf(),
                    self.pts().len() > 0,
                    self.unique_colors == old(self).unique(),
                    self.fixed_colors == old(self).fixed(),
                    converged ==> steps_passed <= (a as int) * 1000 + 999,
                    converged ==> model_of(*self, rng@, steps_passed as int, reports@)
                        == attempt_from(m1, a as int, 0),
                    !converged ==> steps_passed <= (a as int) * 1000 && attempt_from(
                        model_of(*self, rng@, steps_passed as int, reports@),
                        a as int,
                        1000,
                    ) == attempt_from(m1, a as int, 0),
                decreases MAX_STEPS - st,
            {
                let ghost m_s = model_of(*self, rng@, steps_passed as int, reports@);
                self.calc_segments();
                if self.points_changed == 0 {
                    let u: ProgressUpdate = self.update_stats(a, st, steps_passed);
                    reports.push(u);
                    steps_passed = steps_passed + st;
                    converged = true;
                    proof {
                        assert(model_of(*self, rng@, steps_passed as int, reports@) =~= attempt_from(
                            m_s,
                            a as int,
                            st as int,
                        ));
                    }
                    break ;
                }
                self.calc_centroids();
                proof {
                    let m3 = model_of(*self, rng@, steps_passed as int, reports@);
                    assert(attempt_from(m_s, a as int, st as int) == attempt_from(
                        m3,
                        a as int,
                        st as int + 1,
                    ));
                }
                if st == MAX_STEPS - 1 {
                    proof {
                        assert(attempt_from(
                            model_of(*self, rng@, steps_passed as int, reports@),
                            a as int,
                            1000,
                        ) == attempt_from(m1, a as int, 0));
                    }
                    break ;
                }
                st = st + 1;
            }
            if !converged {
                let u: ProgressUpdate = self.update_stats(a, MAX_STEPS - 1, steps_passed);
                reports.push(u);
                steps_passed = steps_passed + MAX_STEPS;
                proof {
                    assert(model_of(*self, rng@, steps_passed as int, reports@) =~= attempt_from(
                        m1,
                        a as int,
                        0,
                    ));
                }
            }
            proof {
                assert(model_of(*self, rng@, steps_passed as int, reports@) == run_upto(
                    m0,
                    a as int + 1,
                ));
            }
            a = a + 1;
        }
        Ok(reports)
    }

    /// The palette: the current centroid array.
    pub fn palette(&self) -> (r: &Vec<Color>)
        ensures
            r@ == self.cents(),
    {
        &self.centroids
    }

    /// The number of points (distinct observed colors).
    pub fn point_count(&self) -> (n: usize)
        ensures
            n == self.pts().len(),
    {
        self.points.len()
    }

    /// The weighted point at index `i`.
    pub fn point(&self, i: usize) -> (p: ColorPoint)
        requires
            i < self.pts().len(),
        ensures
            p == self.pts()[i as int],
    {
        self.points[i]
    }

    /// How many points the last assignment step moved.
    pub fn points_moved(&self) -> (r: u64)
        ensures
            r == self.moved(),
    {
        self.points_changed
    }

    /// The total centroid movement of the last recomputation, in channel
    /// units.
    pub fn last_distance(&self) -> (r: u64)
        ensures
            r == self.td(),
    {
        self.total_distance
    }
}

} // verus!
