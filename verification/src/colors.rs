//! Fixed-point color samples.
//!
//! A color channel is stored in units of `1/SCALE`, where `SCALE` is chosen
//! so that an 8-bit channel value `v` maps exactly to `v * 65536` and the
//! whole normalized range `[0, 1]` maps to `[0, SCALE]`. All distance
//! arithmetic on colors is exact integer arithmetic.

use vstd::prelude::*;

verus! {

/// One normalized channel unit: an 8-bit channel `v` is stored as
/// `v * 65536`, so the full channel range `[0, 255]` spans `[0, SCALE]`.
pub const SCALE: u32 = 255 * 65536;

/// A color with three fixed-point channels, each in `[0, SCALE]`.
#[derive(Clone, Copy, Debug, PartialEq, Eq, Structural)]
pub struct Color {
    pub r: u32,
    pub g: u32,
    pub b: u32,
}

/// Every channel lies in the normalized range `[0, SCALE]`.
pub open spec fn color_wf(c: Color) -> bool {
    c.r <= SCALE && c.g <= SCALE && c.b <= SCALE
}

/// Squared Euclidean distance between two colors, in squared channel units.
pub open spec fn dist2(a: Color, b: Color) -> int {
    (a.r - b.r) * (a.r - b.r) + (a.g - b.g) * (a.g - b.g) + (a.b - b.b) * (a.b - b.b)
}

/// The largest value `dist2` can take on well-formed colors.
pub open spec fn max_dist2() -> int {
    3 * (SCALE as int) * (SCALE as int)
}

pub proof fn lemma_dist2_bounds(a: Color, b: Color)
    requires
        color_wf(a),
        color_wf(b),
    ensures
        0 <= dist2(a, b) <= max_dist2(),
{
    lemma_sq_diff_bound(a.r as int, b.r as int, SCALE as int);
    lemma_sq_diff_bound(a.g as int, b.g as int, SCALE as int);
    lemma_sq_diff_bound(a.b as int, b.b as int, SCALE as int);
}

proof fn lemma_sq_diff_bound(x: int, y: int, m: int)
    by (nonlinear_arith)
    requires
        0 <= x <= m,
        0 <= y <= m,
    ensures
        0 <= (x - y) * (x - y) <= m * m,
{
}

/// Floor of the square root of a non-negative integer.
pub open spec fn sqrt_floor(n: int) -> int
    decreases n,
{
    if n <= 0 {
        0
    } else {
        let s = sqrt_floor(n - 1);
        if (s + 1) * (s + 1) <= n {
            s + 1
        } else {
            s
        }
    }
}

pub proof fn lemma_sqrt_floor_bounds(n: int)
    requires
        n >= 0,
    ensures
        0 <= sqrt_floor(n),
        sqrt_floor(n) * sqrt_floor(n) <= n,
        n < (sqrt_floor(n) + 1) * (sqrt_floor(n) + 1),
    decreases n,
{
    if n > 0 {
        lemma_sqrt_floor_bounds(n - 1);
        let s = sqrt_floor(n - 1);
        assert((s + 1) * (s + 1) < (s + 2) * (s + 2)) by (nonlinear_arith)
            requires s >= 0;
    }
}

pub proof fn lemma_sqrt_floor_unique(n: int, r: int)
    requires
        n >= 0,
        r >= 0,
        r * r <= n,
        n < (r + 1) * (r + 1),
    ensures
        r == sqrt_floor(n),
{
    lemma_sqrt_floor_bounds(n);
    let s = sqrt_floor(n);
    if r < s {
        assert((r + 1) * (r + 1) <= s * s) by (nonlinear_arith)
            requires 0 <= r, r < s;
    }
    if s < r {
        assert((s + 1) * (s + 1) <= r * r) by (nonlinear_arith)
            requires 0 <= s, s < r;
    }
}

/// Floor of the square root, computed by binary search.
pub fn isqrt(n: u64) -> (r: u64)
    ensures
        r * r <= n < (r + 1) * (r + 1),
        r == sqrt_floor(n as int),
{
    let mut lo: u64 = 0;
    let mut hi: u64 = 0x1_0000_0000;
    assert((hi as int) * (hi as int) > n) by (nonlinear_arith)
        requires hi == 0x1_0000_0000u64, n <= u64::MAX;
    while lo + 1 < hi
        invariant
            lo < hi <= 0x1_0000_0000,
            (lo as int) * (lo as int) <= n,
            (hi as int) * (hi as int) > n,
        decreases hi - lo,
    {
        let mid: u64 = lo + (hi - lo) / 2;
        assert((mid as int) * (mid as int) <= 0x1_0000_0000_0000_0000) by (nonlinear_arith)
            requires mid <= 0x1_0000_0000u64;
        let sq: u128 = (mid as u128) * (mid as u128);
        if sq <= n as u128 {
            lo = mid;
        } else {
            hi = mid;
        }
    }
    proof {
        lemma_sqrt_floor_unique(n as int, lo as int);
    }
    lo
}

impl Color {
    /// The origin of the color cube, as a spec value.
    pub open spec fn black_spec() -> Color {
        Color { r: 0, g: 0, b: 0 }
    }

    /// The fixed-point image of an 8-bit RGB triple.
    pub fn new(r: u8, g: u8, b: u8) -> (c: Color)
        ensures
            c.r == r as int * 65536,
            c.g == g as int * 65536,
            c.b == b as int * 65536,
            color_wf(c),
    {
        Color { r: (r as u32) * 65536, g: (g as u32) * 65536, b: (b as u32) * 65536 }
    }

    /// The origin of the color cube.
    pub fn black() -> (c: Color)
        ensures
            c == Color::black_spec(),
            color_wf(c),
    {
        Color { r: 0, g: 0, b: 0 }
    }

    /// Exact squared Euclidean distance to `other`.
    pub fn distance_squared(&self, other: Color) -> (d: u64)
        requires
            color_wf(*self),
            color_wf(other),
        ensures
            d == dist2(*self, other),
            d <= max_dist2(),
    {
        proof {
            lemma_dist2_bounds(*self, other);
        }
        let dr: u64 = if self.r >= other.r { (self.r - other.r) as u64 } else { (other.r - self.r) as u64 };
        let dg: u64 = if self.g >= other.g { (self.g - other.g) as u64 } else { (other.g - self.g) as u64 };
        let db: u64 = if self.b >= other.b { (self.b - other.b) as u64 } else { (other.b - self.b) as u64 };
        proof {
            assert((dr as int) * (dr as int) <= (SCALE as int) * (SCALE as int)) by (nonlinear_arith)
                requires dr <= SCALE;
            assert((dg as int) * (dg as int) <= (SCALE as int) * (SCALE as int)) by (nonlinear_arith)
                requires dg <= SCALE;
            assert((db as int) * (db as int) <= (SCALE as int) * (SCALE as int)) by (nonlinear_arith)
                requires db <= SCALE;
            assert((dr as int) * (dr as int) == (self.r - other.r) * (self.r - other.r)) by (nonlinear_arith)
                requires dr == self.r - other.r || dr == other.r - self.r;
            assert((dg as int) * (dg as int) == (self.g - other.g) * (self.g - other.g)) by (nonlinear_arith)
                requires dg == self.g - other.g || dg == other.g - self.g;
            assert((db as int) * (db as int) == (self.b - other.b) * (self.b - other.b)) by (nonlinear_arith)
                requires db == self.b - other.b || db == other.b - self.b;
        }
        dr * dr + dg * dg + db * db
    }

    /// Euclidean distance to `other`, rounded down to channel units.
    pub fn distance(&self, other: Color) -> (d: u64)
        requires
            color_wf(*self),
            color_wf(other),
        ensures
            d == sqrt_floor(dist2(*self, other)),
    {
        isqrt(self.distance_squared(other))
    }
}

} // verus!
