//! Geometry kernel: fixed-point points, parity-based polygon membership,
//! squared distances, nearest-vertex lookup and perpendicular offsets.

use vstd::prelude::*;

verus! {

/// One whole unit of the fixed-point scales used for time steps, direction
/// components, mass and friction.
pub const FP: i64 = 65536;

/// Largest coordinate magnitude the geometry kernel accepts; keeps every
/// intermediate product comfortably inside `i64`/`i128`.
pub const COORD_LIMIT: i64 = 10_000_000;

/// A 2D coordinate in fixed-point world units; a plain value with no identity.
#[derive(Clone, Copy, PartialEq, Eq, Structural, Debug)]
pub struct Point {
    pub x: i64,
    pub y: i64,
}

impl Point {
    pub fn new(x: i64, y: i64) -> (r: Point)
        ensures
            r.x == x,
            r.y == y,
    {
        Point { x, y }
    }
}

/// Cap on the distances the sensor reports; a computed distance saturates
/// here instead of overflowing.
pub const DIST_LIMIT: i64 = 1_000_000_000;

/// A heading direction as a fixed-point unit vector: the cosine and sine of
/// the angle, each scaled by [`FP`]. Callers that work with angles evaluate
/// the trigonometry and hand the pair in.
#[derive(Clone, Copy, PartialEq, Eq, Structural, Debug)]
pub struct Dir {
    pub c: i64,
    pub s: i64,
}

/// A direction is a unit vector up to the rounding of its components:
/// both stay within one fixed-point unit and the squared norm is within a
/// rounding margin of one.
pub open spec fn dir_ok(d: Dir) -> bool {
    &&& -FP <= d.c <= FP
    &&& -FP <= d.s <= FP
    &&& FP * FP - 3 * FP <= d.c * d.c + d.s * d.s <= FP * FP + 3 * FP
}

/// Both coordinates of `p` lie within `lim` in magnitude.
pub open spec fn in_bounds(p: Point, lim: int) -> bool {
    -lim <= p.x <= lim && -lim <= p.y <= lim
}

/// Every vertex of `s` lies within `lim` in magnitude.
pub open spec fn poly_in_bounds(s: Seq<Point>, lim: int) -> bool {
    forall|i: int| 0 <= i < s.len() ==> in_bounds(s[i], lim)
}

/// Division that truncates toward zero, as the hardware does; defined for a
/// positive divisor.
pub open spec fn div_trunc(a: int, b: int) -> int
    recommends
        b > 0,
{
    if a >= 0 {
        a / b
    } else {
        -((-a) / b)
    }
}

/// Truncating division on `i64`, proved against [`div_trunc`].
pub fn div_trunc_i64(a: i64, b: i64) -> (r: i64)
    requires
        b > 0,
        a > i64::MIN,
    ensures
        r == div_trunc(a as int, b as int),
{
    if a >= 0 {
        let q: u64 = (a as u64) / (b as u64);
        assert(q <= a);
        q as i64
    } else {
        let na: u64 = (-a) as u64;
        let q: u64 = na / (b as u64);
        assert(q <= na);
        -(q as i64)
    }
}

/// Truncating division on `i128`, proved against [`div_trunc`].
pub fn div_trunc_i128(a: i128, b: i128) -> (r: i128)
    requires
        b > 0,
        a > i128::MIN,
    ensures
        r == div_trunc(a as int, b as int),
{
    if a >= 0 {
        let q: u128 = (a as u128) / (b as u128);
        assert(q <= a);
        q as i128
    } else {
        let na: u128 = (-a) as u128;
        let q: u128 = na / (b as u128);
        assert(q <= na);
        -(q as i128)
    }
}

/// `v` pulled into the closed interval `[lo, hi]`.
pub open spec fn clamp_spec(v: int, lo: int, hi: int) -> int
    recommends
        lo <= hi,
{
    if v < lo {
        lo
    } else if v > hi {
        hi
    } else {
        v
    }
}

/// Saturating narrowing of an `i128` into `[lo, hi]`.
pub fn clamp_i128(v: i128, lo: i64, hi: i64) -> (r: i64)
    requires
        lo <= hi,
    ensures
        r == clamp_spec(v as int, lo as int, hi as int),
{
    if v < lo as i128 {
        lo
    } else if v > hi as i128 {
        hi
    } else {
        v as i64
    }
}

/// The integer square root, rounded down.
pub open spec fn sqrt_floor(n: int) -> int
    decreases n,
{
    if n < 1 {
        0
    } else {
        let r = sqrt_floor(n - 1);
        if (r + 1) * (r + 1) <= n {
            r + 1
        } else {
            r
        }
    }
}

pub proof fn lemma_sqrt_floor(n: int)
    requires
        n >= 0,
    ensures
        sqrt_floor(n) >= 0,
        sqrt_floor(n) * sqrt_floor(n) <= n,
        n < (sqrt_floor(n) + 1) * (sqrt_floor(n) + 1),
    decreases n,
{
    if n >= 1 {
        lemma_sqrt_floor(n - 1);
        let r = sqrt_floor(n - 1);
        if (r + 1) * (r + 1) <= n {
            assert((r + 1) * (r + 1) + 1 <= (r + 2) * (r + 2)) by (nonlinear_arith)
                requires
                    r >= 0,
            ;
        }
    }
}

/// A nonnegative `r` with `r*r <= n < (r+1)*(r+1)` is the floor square root.
pub proof fn lemma_sqrt_floor_unique(n: int, r: int)
    requires
        n >= 0,
        r >= 0,
        r * r <= n,
        n < (r + 1) * (r + 1),
    ensures
        r == sqrt_floor(n),
{
    lemma_sqrt_floor(n);
    let s = sqrt_floor(n);
    if r < s {
        assert((r + 1) * (r + 1) <= s * s) by (nonlinear_arith)
            requires
                0 <= r < s,
        ;
        assert(false);
    }
    if s < r {
        assert((s + 1) * (s + 1) <= r * r) by (nonlinear_arith)
            requires
                0 <= s < r,
        ;
        assert(false);
    }
}

/// Integer square root of a `u64`, by bisection.
pub fn isqrt(n: u64) -> (r: u64)
    ensures
        r == sqrt_floor(n as int),
        r <= 4_294_967_296,
{
    let mut lo: u64 = 0;
    let mut hi: u64 = 4_294_967_296;
    assert((hi as int) * (hi as int) > n as int) by (nonlinear_arith)
        requires
            hi == 4_294_967_296 && n <= u64::MAX,
    ;
    while hi - lo > 1
        invariant
            lo < hi <= 4_294_967_296,
            (lo as int) * (lo as int) <= n as int,
            (hi as int) * (hi as int) > n as int,
        decreases hi - lo,
    {
        let mid: u64 = lo + (hi - lo) / 2;
        proof {
            lemma_mul_bound(mid as int, mid as int, 4_294_967_296);
        }
        if (mid as u128) * (mid as u128) <= n as u128 {
            lo = mid;
        } else {
            hi = mid;
        }
    }
    proof {
        lemma_sqrt_floor_unique(n as int, lo as int);
    }
    lo
}

/// The squared Euclidean distance between two points.
pub open spec fn dist_sq(a: Point, b: Point) -> int {
    (b.x - a.x) * (b.x - a.x) + (b.y - a.y) * (b.y - a.y)
}

/// A product of two values bounded by `b` is bounded by `b*b`.
pub proof fn lemma_mul_bound(x: int, y: int, b: int)
    requires
        -b <= x <= b,
        -b <= y <= b,
        b >= 0,
    ensures
        -(b * b) <= x * y <= b * b,
{
    assert(-(b * b) <= x * y <= b * b) by (nonlinear_arith)
        requires
            -b <= x <= b,
            -b <= y <= b,
            b >= 0,
    ;
}

impl Point {
    /// The Euclidean length of the vector, rounded down.
    pub fn length(&self) -> (r: i64)
        requires
            in_bounds(*self, COORD_LIMIT as int),
        ensures
            r == sqrt_floor(self.x * self.x + self.y * self.y),
            0 <= r <= 15_000_000,
    {
        proof {
            lemma_mul_bound(self.x as int, self.x as int, 10_000_000);
            lemma_mul_bound(self.y as int, self.y as int, 10_000_000);
            assert(self.x * self.x >= 0 && self.y * self.y >= 0) by (nonlinear_arith);
        }
        let s: u64 = (self.x * self.x + self.y * self.y) as u64;
        let r: u64 = isqrt(s);
        proof {
            lemma_sqrt_floor(s as int);
            if sqrt_floor(s as int) > 15_000_000 {
                assert(15_000_001 * 15_000_001 <= sqrt_floor(s as int) * sqrt_floor(s as int))
                    by (nonlinear_arith)
                    requires
                        sqrt_floor(s as int) >= 15_000_001,
                ;
            }
        }
        r as i64
    }

    /// The scalar projection of the vector onto the forward axis of the
    /// heading `d` (forward is the heading turned a quarter turn
    /// counterclockwise), truncated to whole world units.
    pub fn length_project(&self, d: &Dir) -> (r: i64)
        requires
            in_bounds(*self, COORD_LIMIT as int),
            dir_ok(*d),
        ensures
            r == div_trunc(self.y * d.c - self.x * d.s, FP as int),
    {
        proof {
            lemma_mul_bound(self.y as int, d.c as int, 10_000_000);
            lemma_mul_bound(self.x as int, d.s as int, 10_000_000);
        }
        div_trunc_i64(self.y * d.c - self.x * d.s, FP)
    }
}

/// Squared distance between two in-bounds points, exactly.
pub fn dist_sq_ex(a: &Point, b: &Point) -> (r: i64)
    requires
        in_bounds(*a, COORD_LIMIT as int),
        in_bounds(*b, COORD_LIMIT as int),
    ensures
        r == dist_sq(*a, *b),
        0 <= r <= 800_000_000_000_000,
{
    let dx: i64 = b.x - a.x;
    let dy: i64 = b.y - a.y;
    proof {
        lemma_mul_bound(dx as int, dx as int, 20_000_000);
        lemma_mul_bound(dy as int, dy as int, 20_000_000);
        assert((dx as int) * (dx as int) >= 0) by (nonlinear_arith);
        assert((dy as int) * (dy as int) >= 0) by (nonlinear_arith);
    }
    dx * dx + dy * dy
}

/// The Euclidean distance between two points, rounded down to whole world
/// units.
pub fn distance(p1: &Point, p2: &Point) -> (r: i64)
    requires
        in_bounds(*p1, COORD_LIMIT as int),
        in_bounds(*p2, COORD_LIMIT as int),
    ensures
        r == sqrt_floor(dist_sq(*p1, *p2)),
        0 <= r <= 30_000_000,
{
    let ds: i64 = dist_sq_ex(p1, p2);
    let r: u64 = isqrt(ds as u64);
    proof {
        lemma_sqrt_floor(ds as int);
        if sqrt_floor(ds as int) > 30_000_000 {
            assert(30_000_001 * 30_000_001 <= sqrt_floor(ds as int) * sqrt_floor(ds as int))
                by (nonlinear_arith)
                requires
                    sqrt_floor(ds as int) >= 30_000_001,
            ;
        }
    }
    r as i64
}

/// Sum of rounded-down distances from vertex `i` to every vertex from `j`
/// on.
pub open spec fn row_dist_sum(s: Seq<Point>, i: int, j: int) -> int
    decreases s.len() - j,
{
    if j >= s.len() || j < 0 {
        0
    } else {
        sqrt_floor(dist_sq(s[i], s[j])) + row_dist_sum(s, i, j + 1)
    }
}

/// Sum of rounded-down distances over every unordered vertex pair whose
/// first index is at least `i`.
pub open spec fn pair_dist_sum(s: Seq<Point>, i: int) -> int
    decreases s.len() - i,
{
    if i >= s.len() || i < 0 {
        0
    } else {
        row_dist_sum(s, i, i + 1) + pair_dist_sum(s, i + 1)
    }
}

/// Number of unordered vertex pairs whose first index is at least `i`.
pub open spec fn pair_count(s: Seq<Point>, i: int) -> int
    decreases s.len() - i,
{
    if i >= s.len() || i < 0 {
        0
    } else {
        (s.len() - i - 1) + pair_count(s, i + 1)
    }
}

proof fn lemma_dist_floor_bound(a: Point, b: Point)
    requires
        in_bounds(a, COORD_LIMIT as int),
        in_bounds(b, COORD_LIMIT as int),
    ensures
        0 <= sqrt_floor(dist_sq(a, b)) <= 30_000_000,
{
    lemma_mul_bound(b.x - a.x, b.x - a.x, 20_000_000);
    lemma_mul_bound(b.y - a.y, b.y - a.y, 20_000_000);
    assert((b.x - a.x) * (b.x - a.x) >= 0 && (b.y - a.y) * (b.y - a.y) >= 0) by (nonlinear_arith);
    lemma_sqrt_floor(dist_sq(a, b));
    let r = sqrt_floor(dist_sq(a, b));
    if r > 30_000_000 {
        assert(30_000_001 * 30_000_001 <= r * r) by (nonlinear_arith)
            requires
                r >= 30_000_001,
        ;
    }
}

proof fn lemma_row_sum_bound(s: Seq<Point>, i: int, j: int)
    requires
        poly_in_bounds(s, COORD_LIMIT as int),
        0 <= i < s.len(),
        0 <= j,
    ensures
        0 <= row_dist_sum(s, i, j) <= (if j <= s.len() {
            (s.len() - j) * 30_000_000
        } else {
            0
        }),
    decreases s.len() - j,
{
    if j < s.len() {
        lemma_row_sum_bound(s, i, j + 1);
        lemma_dist_floor_bound(s[i], s[j]);
        assert((s.len() - j) * 30_000_000 == 30_000_000 + (s.len() - j - 1) * 30_000_000)
            by (nonlinear_arith);
    }
}

proof fn lemma_pair_sum_bound(s: Seq<Point>, i: int)
    requires
        poly_in_bounds(s, COORD_LIMIT as int),
        0 <= i,
    ensures
        0 <= pair_dist_sum(s, i) <= pair_count(s, i) * 30_000_000,
        pair_count(s, i) >= 0,
    decreases s.len() - i,
{
    if i < s.len() {
        lemma_pair_sum_bound(s, i + 1);
        lemma_row_sum_bound(s, i, i + 1);
        assert(((s.len() - i - 1) + pair_count(s, i + 1)) * 30_000_000 == (s.len() - i - 1)
            * 30_000_000 + pair_count(s, i + 1) * 30_000_000) by (nonlinear_arith);
    }
}

proof fn lemma_pair_count_upper(s: Seq<Point>, i: int)
    requires
        0 <= i,
    ensures
        0 <= pair_count(s, i) <= (if i <= s.len() {
            (s.len() - i) * s.len()
        } else {
            0
        }),
    decreases s.len() - i,
{
    if i < s.len() {
        lemma_pair_count_upper(s, i + 1);
        assert((s.len() - i - 1) + (s.len() - i - 1) * s.len() <= (s.len() - i) * s.len())
            by (nonlinear_arith)
            requires
                0 <= i < s.len(),
        ;
    }
}

/// The mean rounded-down distance over all unordered vertex pairs,
/// truncated to whole world units.
pub fn average_distance(points: &Vec<Point>) -> (r: i64)
    requires
        2 <= points@.len() <= 1_000_000,
        poly_in_bounds(points@, COORD_LIMIT as int),
    ensures
        r == pair_dist_sum(points@, 0) / pair_count(points@, 0),
{
    let n: usize = points.len();
    let mut npairs: u128 = 0;
    let mut i: usize = n;
    while i > 0
        invariant
            n == points@.len(),
            2 <= n <= 1_000_000,
            i <= n,
            npairs == pair_count(points@, i as int),
        decreases i,
    {
        proof {
            lemma_pair_count_upper(points@, (i - 1) as int);
            assert((points@.len() - (i - 1)) * points@.len() <= 1_000_000_000_000)
                by (nonlinear_arith)
                requires
                    0 <= points@.len() - (i - 1) <= 1_000_000 && points@.len() <= 1_000_000,
            ;
        }
        i = i - 1;
        npairs = npairs + ((n - i - 1) as u128);
    }
    let mut acc: u128 = 0;
    proof {
        lemma_pair_sum_bound(points@, 0);
        lemma_pair_count_upper(points@, 0);
        assert(points@.len() * points@.len() <= 1_000_000_000_000) by (nonlinear_arith)
            requires
                0 <= points@.len() <= 1_000_000,
        ;
        assert(pair_count(points@, 0) * 30_000_000 <= 30_000_000_000_000_000_000)
            by (nonlinear_arith)
            requires
                0 <= pair_count(points@, 0) <= 1_000_000_000_000,
        ;
    }
    for a in 0..n
        invariant
            n == points@.len(),
            2 <= n <= 1_000_000,
            poly_in_bounds(points@, COORD_LIMIT as int),
            acc == pair_dist_sum(points@, 0) - pair_dist_sum(points@, a as int),
            0 <= pair_dist_sum(points@, 0) <= 30_000_000_000_000_000_000,
            acc <= pair_dist_sum(points@, 0),
    {
        proof {
            lemma_pair_sum_bound(points@, a as int);
            lemma_pair_sum_bound(points@, a + 1);
            lemma_row_sum_bound(points@, a as int, a + 1);
            assert((points@.len() - (a + 1)) * 30_000_000 <= 30_000_000_000_000)
                by (nonlinear_arith)
                requires
                    0 <= points@.len() - (a + 1) <= 1_000_000,
            ;
        }
        let mut row: u128 = 0;
        for b in (a + 1)..n
            invariant
                n == points@.len(),
                a < n,
                poly_in_bounds(points@, COORD_LIMIT as int),
                row == row_dist_sum(points@, a as int, a + 1) - row_dist_sum(
                    points@,
                    a as int,
                    b as int,
                ),
                0 <= row_dist_sum(points@, a as int, a + 1) <= 30_000_000_000_000,
                row <= row_dist_sum(points@, a as int, a + 1),
        {
            proof {
                lemma_row_sum_bound(points@, a as int, b as int);
                lemma_row_sum_bound(points@, a as int, b + 1);
                lemma_dist_floor_bound(points@[a as int], points@[b as int]);
            }
            let ds: i64 = dist_sq_ex(&points[a], &points[b]);
            let d: u64 = isqrt(ds as u64);
            row = row + (d as u128);
        }
        acc = acc + row;
    }
    proof {
        lemma_pair_sum_bound(points@, 1);
        assert(pair_count(points@, 0) >= 1);
        let np = pair_count(points@, 0);
        assert(np * 30_000_000 == 30_000_000 * np) by (nonlinear_arith);
        vstd::arithmetic::div_mod::lemma_div_is_ordered(acc as int, np * 30_000_000, np);
        vstd::arithmetic::div_mod::lemma_div_is_ordered(0, acc as int, np);
        vstd::arithmetic::div_mod::lemma_div_multiples_vanish(30_000_000, np);
    }
    (acc / npairs) as i64
}

/// The even-odd crossing condition for the edge `a -> b` against a rightward
/// ray from `p`: the edge straddles `p`'s horizontal line and the crossing
/// point lies strictly to the right of `p`. Exact rational comparison,
/// written with cross-multiplication.
pub open spec fn edge_crosses(a: Point, b: Point, p: Point) -> bool {
    if (a.y > p.y) != (b.y > p.y) {
        if b.y > a.y {
            (p.x - a.x) * (b.y - a.y) < (b.x - a.x) * (p.y - a.y)
        } else {
            (p.x - a.x) * (b.y - a.y) > (b.x - a.x) * (p.y - a.y)
        }
    } else {
        false
    }
}

/// Number of crossing edges among the first `n` edges of the closed loop `s`
/// (edge `i` joins vertex `i` to vertex `(i+1) % len`).
pub open spec fn crossings(s: Seq<Point>, p: Point, n: int) -> int
    decreases n,
{
    if n <= 0 {
        0
    } else {
        crossings(s, p, n - 1) + if edge_crosses(s[n - 1], s[n % s.len() as int], p) {
            1int
        } else {
            0int
        }
    }
}

/// Even-odd (parity) membership: `p` is inside when a rightward ray crosses
/// an odd number of edges.
pub open spec fn pip_spec(s: Seq<Point>, p: Point) -> bool {
    crossings(s, p, s.len() as int) % 2 == 1
}

/// Parity ray-crossing membership test, iterated over the closed loop with
/// wraparound indexing.
pub fn point_in_polygon(point: &Point, polygon: &Vec<Point>) -> (r: bool)
    requires
        in_bounds(*point, 3 * COORD_LIMIT as int),
        poly_in_bounds(polygon@, COORD_LIMIT as int),
    ensures
        r == pip_spec(polygon@, *point),
{
    let n: usize = polygon.len();
    let mut count: usize = 0;
    for i in 0..n
        invariant
            n == polygon@.len(),
            in_bounds(*point, 3 * COORD_LIMIT as int),
            poly_in_bounds(polygon@, COORD_LIMIT as int),
            count <= i,
            count == crossings(polygon@, *point, i as int),
    {
        let a: Point = polygon[i];
        let b: Point = polygon[(i + 1) % n];
        proof {
            lemma_mul_bound(point.x - a.x, b.y - a.y, 40_000_000);
            lemma_mul_bound(b.x - a.x, point.y - a.y, 40_000_000);
        }
        let straddles: bool = (a.y > point.y) != (b.y > point.y);
        if straddles {
            let lhs: i64 = (point.x - a.x) * (b.y - a.y);
            let rhs: i64 = (b.x - a.x) * (point.y - a.y);
            let crossed: bool = if b.y > a.y {
                lhs < rhs
            } else {
                lhs > rhs
            };
            if crossed {
                count += 1;
            }
        }
    }
    count % 2 == 1
}

proof fn lemma_no_crossings_outside_band(s: Seq<Point>, p: Point, n: int)
    requires
        0 <= n <= s.len(),
        (forall|i: int| 0 <= i < s.len() ==> s[i].y < p.y) || (forall|i: int|
            0 <= i < s.len() ==> s[i].y > p.y),
    ensures
        crossings(s, p, n) == 0,
    decreases n,
{
    if n > 0 {
        lemma_no_crossings_outside_band(s, p, n - 1);
    }
}

/// A point whose height lies strictly outside the polygon's vertical span —
/// in particular any point far outside its bounding box — is reported
/// outside by the parity test.
pub proof fn lemma_point_far_outside(s: Seq<Point>, p: Point)
    requires
        (forall|i: int| 0 <= i < s.len() ==> s[i].y < p.y) || (forall|i: int|
            0 <= i < s.len() ==> s[i].y > p.y),
    ensures
        !pip_spec(s, p),
{
    lemma_no_crossings_outside_band(s, p, s.len() as int);
}

/// `i` is the first vertex of `s` at minimal squared distance from `p`.
pub open spec fn is_closest(s: Seq<Point>, p: Point, i: int) -> bool {
    &&& 0 <= i < s.len()
    &&& forall|j: int| 0 <= j < s.len() ==> dist_sq(p, s[i]) <= dist_sq(p, s[j])
    &&& forall|j: int| 0 <= j < i ==> dist_sq(p, s[j]) > dist_sq(p, s[i])
}

/// Index of the polygon vertex nearest to `point` (first one on ties).
pub fn closest_index(point: &Point, polygon: &Vec<Point>) -> (r: usize)
    requires
        polygon@.len() >= 1,
        in_bounds(*point, COORD_LIMIT as int),
        poly_in_bounds(polygon@, COORD_LIMIT as int),
    ensures
        is_closest(polygon@, *point, r as int),
{
    let mut best: usize = 0;
    let mut best_d: i64 = dist_sq_ex(point, &polygon[0]);
    let n: usize = polygon.len();
    for i in 1..n
        invariant
            n == polygon@.len(),
            n >= 1,
            in_bounds(*point, COORD_LIMIT as int),
            poly_in_bounds(polygon@, COORD_LIMIT as int),
            best < i,
            best_d == dist_sq(*point, polygon@[best as int]),
            forall|j: int| 0 <= j < i ==> best_d <= dist_sq(*point, polygon@[j]),
            forall|j: int| 0 <= j < best ==> dist_sq(*point, polygon@[j]) > best_d,
    {
        let d: i64 = dist_sq_ex(point, &polygon[i]);
        if d < best_d {
            best = i;
            best_d = d;
        }
    }
    best
}

/// Where the perpendicular offset construction sends the vertex `p`, given
/// its neighbours `p1` and `p2`: `p` moved by `d` at right angles to the
/// chord `p1 -> p2`, with the offset components rounded toward zero. A
/// degenerate zero-length chord moves straight down, matching a zero tangent
/// angle.
pub open spec fn perp_point(p1: Point, p: Point, p2: Point, d: int) -> Point {
    let dx = p2.x - p1.x;
    let dy = p2.y - p1.y;
    if dx == 0 && dy == 0 {
        Point { x: p.x, y: (p.y - d) as i64 }
    } else {
        let l = sqrt_floor(dx * dx + dy * dy);
        Point {
            x: (p.x + div_trunc(d * dy, l)) as i64,
            y: (p.y - div_trunc(d * dx, l)) as i64,
        }
    }
}

/// The floor square root of a positive number is at least 1.
pub proof fn lemma_sqrt_floor_pos(n: int)
    requires
        n >= 1,
    ensures
        sqrt_floor(n) >= 1,
{
    lemma_sqrt_floor(n);
    let s = sqrt_floor(n);
    if s == 0 {
        assert(n < (s + 1) * (s + 1));
        assert((s + 1) * (s + 1) == 1) by (nonlinear_arith)
            requires
                s == 0,
        ;
    }
}

/// Truncating division by `l` of a product `d * dy` with `dy` no longer
/// than `l` stays within `d` in magnitude.
pub proof fn lemma_perp_component_bound(d: int, dy: int, l: int)
    requires
        d >= 0,
        l >= 1,
        dy * dy < (l + 1) * (l + 1),
    ensures
        -d <= div_trunc(d * dy, l) <= d,
{
    assert(-l <= dy <= l) by (nonlinear_arith)
        requires
            l >= 1 && dy * dy < (l + 1) * (l + 1),
    ;
    assert(l * d == d * l) by (nonlinear_arith);
    vstd::arithmetic::div_mod::lemma_div_multiples_vanish(d, l);
    if d * dy >= 0 {
        assert(d * dy <= d * l) by (nonlinear_arith)
            requires
                dy <= l && d >= 0,
        ;
        vstd::arithmetic::div_mod::lemma_div_is_ordered(d * dy, d * l, l);
        vstd::arithmetic::div_mod::lemma_div_is_ordered(0, d * dy, l);
    } else {
        let a = -(d * dy);
        assert(a == d * (-dy) && a <= d * l) by (nonlinear_arith)
            requires
                a == -(d * dy) && -dy <= l && d >= 0,
        ;
        vstd::arithmetic::div_mod::lemma_div_is_ordered(a, d * l, l);
        vstd::arithmetic::div_mod::lemma_div_is_ordered(0, a, l);
    }
}

/// Move `p` perpendicular to the chord `p1 -> p2` by `d` world units.
pub fn move_perp(p1: &Point, p: &Point, p2: &Point, d: i64) -> (r: Point)
    requires
        in_bounds(*p1, COORD_LIMIT as int),
        in_bounds(*p, COORD_LIMIT as int),
        in_bounds(*p2, COORD_LIMIT as int),
        0 <= d <= COORD_LIMIT,
    ensures
        r == perp_point(*p1, *p, *p2, d as int),
        in_bounds(r, 3 * COORD_LIMIT as int),
{
    let dx: i64 = p2.x - p1.x;
    let dy: i64 = p2.y - p1.y;
    if dx == 0 && dy == 0 {
        Point { x: p.x, y: p.y - d }
    } else {
        proof {
            lemma_mul_bound(dx as int, dx as int, 20_000_000);
            lemma_mul_bound(dy as int, dy as int, 20_000_000);
            assert(dx * dx >= 0 && dy * dy >= 0 && dx * dx + dy * dy >= 1) by (nonlinear_arith)
                requires
                    !(dx == 0 && dy == 0),
            ;
            lemma_sqrt_floor_pos(dx * dx + dy * dy);
            lemma_mul_bound(d as int, dy as int, 20_000_000);
            lemma_mul_bound(d as int, dx as int, 20_000_000);
        }
        let s: u64 = (dx * dx + dy * dy) as u64;
        let l: u64 = isqrt(s);
        let li: i64 = l as i64;
        proof {
            lemma_sqrt_floor(s as int);
            assert(dy * dy <= s && dx * dx <= s);
        }
        let ox: i64 = div_trunc_i64(d * dy, li);
        let oy: i64 = div_trunc_i64(d * dx, li);
        proof {
            lemma_perp_component_bound(d as int, dy as int, li as int);
            lemma_perp_component_bound(d as int, dx as int, li as int);
        }
        Point { x: p.x + ox, y: p.y - oy }
    }
}

/// A product of values bounded by `bx` and `by` is bounded by `bx * by`.
pub proof fn lemma_mul_bound2(x: int, y: int, bx: int, by: int)
    requires
        -bx <= x <= bx,
        -by <= y <= by,
        bx >= 0,
        by >= 0,
    ensures
        -(bx * by) <= x * y <= bx * by,
{
    assert(-(bx * by) <= x * y <= bx * by) by (nonlinear_arith)
        requires
            -bx <= x <= bx,
            -by <= y <= by,
            bx >= 0,
            by >= 0,
    ;
}

/// Truncating division by `b` of a value within `c * b` stays within `c`.
pub proof fn lemma_div_trunc_ratio(a: int, b: int, c: int)
    requires
        b >= 1,
        c >= 0,
        -(c * b) <= a <= c * b,
    ensures
        -c <= div_trunc(a, b) <= c,
{
    vstd::arithmetic::div_mod::lemma_div_multiples_vanish(c, b);
    assert(b * c == c * b) by (nonlinear_arith);
    if a >= 0 {
        vstd::arithmetic::div_mod::lemma_div_is_ordered(a, c * b, b);
        vstd::arithmetic::div_mod::lemma_div_is_ordered(0, a, b);
    } else {
        vstd::arithmetic::div_mod::lemma_div_is_ordered(-a, c * b, b);
        vstd::arithmetic::div_mod::lemma_div_is_ordered(0, -a, b);
    }
}

pub(crate) proof fn lemma_trunc_scaled(a: int, l: int)
    requires
        l >= 1,
    ensures
        div_trunc(a, l) * div_trunc(a, l) * (l * l) <= a * a,
        div_trunc(a, l) * div_trunc(a, l) * (l * l) >= a * a - 2 * (if a >= 0 {
            a
        } else {
            -a
        }) * l,
{
    let aa = if a >= 0 { a } else { -a };
    let q = aa / l;
    vstd::arithmetic::div_mod::lemma_fundamental_div_mod(aa, l);
    vstd::arithmetic::div_mod::lemma_mod_bound(aa, l);
    assert(q * l <= aa && q * l >= aa - l + 1 && q >= 0) by (nonlinear_arith)
        requires
            aa == l * q + aa % l && 0 <= aa % l < l && l >= 1 && aa >= 0,
    ;
    assert(div_trunc(a, l) == q || div_trunc(a, l) == -q);
    assert(div_trunc(a, l) * div_trunc(a, l) == q * q) by (nonlinear_arith)
        requires
            div_trunc(a, l) == q || div_trunc(a, l) == -q,
    ;
    assert(q * q * (l * l) == (q * l) * (q * l)) by (nonlinear_arith);
    assert((q * l) * (q * l) <= aa * aa) by (nonlinear_arith)
        requires
            0 <= q * l <= aa,
    ;
    if aa >= l {
        assert((q * l) * (q * l) >= (aa - l) * (aa - l)) by (nonlinear_arith)
            requires
                q * l >= aa - l + 1 && aa - l >= 0,
        ;
        assert((aa - l) * (aa - l) >= aa * aa - 2 * aa * l) by (nonlinear_arith)
            requires
                l >= 1,
        ;
    } else {
        assert(aa * aa - 2 * aa * l <= 0) by (nonlinear_arith)
            requires
                0 <= aa < l,
        ;
        assert((q * l) * (q * l) >= 0) by (nonlinear_arith);
    }
    assert(aa * aa == a * a) by (nonlinear_arith)
        requires
            aa == (if a >= 0 { a } else { -a }),
    ;
}

/// The dual-offset tolerance: the offset vertex lands at distance `d`
/// from the original up to the rounding of the offset components. For any
/// nonzero neighbour chord the squared distance exceeds `(d - 3)^2` and
/// stays under `(2d)^2`; when the chord is at least as long as `d` the
/// upper bound tightens to `(d + 1)^2`.
pub proof fn lemma_perp_offset_distance(p1: Point, p: Point, p2: Point, d: int)
    requires
        !(p2.x - p1.x == 0 && p2.y - p1.y == 0),
        in_bounds(p1, COORD_LIMIT as int),
        in_bounds(p2, COORD_LIMIT as int),
        in_bounds(p, COORD_LIMIT as int),
        5 <= d <= COORD_LIMIT,
    ensures
        (d - 3) * (d - 3) < dist_sq(p, perp_point(p1, p, p2, d)),
        dist_sq(p, perp_point(p1, p, p2, d)) < 4 * (d * d),
        d <= sqrt_floor(
            (p2.x - p1.x) * (p2.x - p1.x) + (p2.y - p1.y) * (p2.y - p1.y),
        ) ==> dist_sq(p, perp_point(p1, p, p2, d)) < (d + 1) * (d + 1),
{
    let dx = p2.x - p1.x;
    let dy = p2.y - p1.y;
    let s = dx * dx + dy * dy;
    assert(dx * dx >= 0 && dy * dy >= 0 && s >= 1) by (nonlinear_arith)
        requires
            s == dx * dx + dy * dy && !(dx == 0 && dy == 0),
    ;
    let l = sqrt_floor(s);
    lemma_sqrt_floor(s);
    lemma_sqrt_floor_pos(s);
    assert(-l <= dx <= l && -l <= dy <= l) by (nonlinear_arith)
        requires
            dx * dx <= s && dy * dy <= s && s < (l + 1) * (l + 1) && l >= 1,
    ;
    let ox = div_trunc(d * dy, l);
    let oy = div_trunc(d * dx, l);
    lemma_perp_component_bound(d, dy, l);
    lemma_perp_component_bound(d, dx, l);
    let q = perp_point(p1, p, p2, d);
    assert(q.x == p.x + ox && q.y == p.y - oy);
    assert(dist_sq(p, q) == ox * ox + oy * oy) by (nonlinear_arith)
        requires
            q.x - p.x == ox && q.y - p.y == -oy,
    ;
    lemma_trunc_scaled(d * dy, l);
    lemma_trunc_scaled(d * dx, l);
    let ady = if d * dy >= 0 { d * dy } else { -(d * dy) };
    let adx = if d * dx >= 0 { d * dx } else { -(d * dx) };
    assert(ady <= d * l && adx <= d * l) by (nonlinear_arith)
        requires
            -l <= dy <= l && -l <= dx <= l && d >= 0 && ady == (if d * dy >= 0 {
                d * dy
            } else {
                -(d * dy)
            }) && adx == (if d * dx >= 0 {
                d * dx
            } else {
                -(d * dx)
            }),
    ;
    // combined upper bound, with the chord estimate and cancellation of l*l
    assert((ox * ox + oy * oy) * (l * l) <= (d * dy) * (d * dy) + (d * dx) * (d * dx))
        by (nonlinear_arith)
        requires
            ox * ox * (l * l) <= (d * dy) * (d * dy) && oy * oy * (l * l) <= (d * dx) * (d * dx),
    ;
    assert((d * dy) * (d * dy) + (d * dx) * (d * dx) == d * d * s) by (nonlinear_arith)
        requires
            s == dx * dx + dy * dy,
    ;
    assert(d * d * s < 4 * (d * d) * (l * l)) by (nonlinear_arith)
        requires
            s < (l + 1) * (l + 1) && l >= 1 && d >= 5,
    ;
    assert(ox * ox + oy * oy < 4 * (d * d)) by (nonlinear_arith)
        requires
            (ox * ox + oy * oy) * (l * l) < 4 * (d * d) * (l * l) && l >= 1,
    ;
    if d <= l {
        assert(d * d * s < (d + 1) * (d + 1) * (l * l)) by (nonlinear_arith)
            requires
                s < (l + 1) * (l + 1) && 5 <= d <= l,
        ;
        assert(ox * ox + oy * oy < (d + 1) * (d + 1)) by (nonlinear_arith)
            requires
                (ox * ox + oy * oy) * (l * l) < (d + 1) * (d + 1) * (l * l) && l >= 1,
        ;
    }
    // combined lower bound
    assert((ox * ox + oy * oy) * (l * l) >= d * d * s - 2 * (ady + adx) * l) by (nonlinear_arith)
        requires
            ox * ox * (l * l) >= (d * dy) * (d * dy) - 2 * ady * l && oy * oy * (l * l) >= (d
                * dx) * (d * dx) - 2 * adx * l && (d * dy) * (d * dy) + (d * dx) * (d * dx) == d
                * d * s,
    ;
    assert(d * d * s - 2 * (ady + adx) * l > (d - 3) * (d - 3) * (l * l)) by (nonlinear_arith)
        requires
            s >= l * l && ady <= d * l && adx <= d * l && 5 <= d && l >= 1,
    ;
    assert(ox * ox + oy * oy > (d - 3) * (d - 3)) by (nonlinear_arith)
        requires
            (ox * ox + oy * oy) * (l * l) > (d - 3) * (d - 3) * (l * l) && l >= 1,
    ;
}

/// The rotation identity: a vector's projections onto a direction and its
/// perpendicular account for the whole product of the squared norms.
pub(crate) proof fn lemma_lagrange(x: int, y: int, c: int, s: int)
    ensures
        (y * c - x * s) * (y * c - x * s) + (x * c + y * s) * (x * c + y * s) == (x * x + y * y)
            * (c * c + s * s),
{
    let a = y * c;
    let b = x * s;
    let e = x * c;
    let f = y * s;
    assert((a - b) * (a - b) == a * a - 2 * (a * b) + b * b) by (nonlinear_arith);
    assert((e + f) * (e + f) == e * e + 2 * (e * f) + f * f) by (nonlinear_arith);
    assert((y * c) * (x * s) == (x * c) * (y * s)) by (nonlinear_arith);
    assert((y * c) * (y * c) == (y * y) * (c * c)) by (nonlinear_arith);
    assert((x * s) * (x * s) == (x * x) * (s * s)) by (nonlinear_arith);
    assert((x * c) * (x * c) == (x * x) * (c * c)) by (nonlinear_arith);
    assert((y * s) * (y * s) == (y * y) * (s * s)) by (nonlinear_arith);
    assert((x * x + y * y) * (c * c + s * s) == (x * x) * (c * c) + (x * x) * (s * s) + (y * y)
        * (c * c) + (y * y) * (s * s)) by (nonlinear_arith);
}

/// The forward projection never exceeds the vector's own length, within
/// the rounding tolerance of the fixed-point scales (Cauchy-Schwarz, with
/// the direction's norm pinned near one by `dir_ok`).
pub proof fn lemma_projection_bounded(v: Point, d: Dir)
    requires
        in_bounds(v, COORD_LIMIT as int),
        dir_ok(d),
    ensures
        -(sqrt_floor(v.x * v.x + v.y * v.y) + 600) <= div_trunc(
            v.y * d.c - v.x * d.s,
            FP as int,
        ) <= sqrt_floor(v.x * v.x + v.y * v.y) + 600,
{
    let n = v.y * d.c - v.x * d.s;
    let m = v.x * d.c + v.y * d.s;
    let svv = v.x * v.x + v.y * v.y;
    let ncc = d.c * d.c + d.s * d.s;
    lemma_lagrange(v.x as int, v.y as int, d.c as int, d.s as int);
    assert(m * m >= 0) by (nonlinear_arith);
    assert(svv >= 0) by (nonlinear_arith)
        requires
            svv == v.x * v.x + v.y * v.y,
    ;
    assert(n * n <= svv * ncc);
    lemma_sqrt_floor(svv);
    let len = sqrt_floor(svv);
    if len > 15_000_000 {
        lemma_mul_bound(v.x as int, v.x as int, 10_000_000);
        lemma_mul_bound(v.y as int, v.y as int, 10_000_000);
        assert(15_000_001 * 15_000_001 <= len * len) by (nonlinear_arith)
            requires
                len >= 15_000_001,
        ;
        assert(false);
    }
    assert(svv * ncc <= svv * ((FP + 2) * (FP + 2))) by (nonlinear_arith)
        requires
            svv >= 0 && ncc <= (FP + 2) * (FP + 2),
    ;
    assert(svv * ((FP + 2) * (FP + 2)) < ((len + 1) * (FP + 2)) * ((len + 1) * (FP + 2)))
        by (nonlinear_arith)
        requires
            svv < (len + 1) * (len + 1) && FP == 65536,
    ;
    assert(-((len + 1) * (FP + 2)) < n < (len + 1) * (FP + 2)) by (nonlinear_arith)
        requires
            n * n < ((len + 1) * (FP + 2)) * ((len + 1) * (FP + 2)) && (len + 1) * (FP + 2) > 0,
    ;
    assert((len + 1) * (FP + 2) <= (len + 600) * FP) by (nonlinear_arith)
        requires
            0 <= len <= 15_000_000 && FP == 65536,
    ;
    lemma_div_trunc_ratio(n, FP as int, len + 600);
}

/// Truncating division shrinks magnitudes: `|div_trunc(a, b)| <= |a|`.
pub proof fn lemma_div_trunc_bounded(a: int, b: int, m: int)
    requires
        b >= 1,
        -m <= a <= m,
        m >= 0,
    ensures
        -m <= div_trunc(a, b) <= m,
{
    if a >= 0 {
        assert(0 <= a / b <= a) by (nonlinear_arith)
            requires
                a >= 0 && b >= 1,
        ;
    } else {
        assert(0 <= (-a) / b <= -a) by (nonlinear_arith)
            requires
                a < 0 && b >= 1,
        ;
    }
}

} // verus!

