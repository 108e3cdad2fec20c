//! Track generator: convex hull of random points, corner-cutting smoothing,
//! and the parallel dual boundary.

use vstd::prelude::*;
use crate::geom::{
    Point, COORD_LIMIT, in_bounds, poly_in_bounds, perp_point, move_perp, div_trunc,
    lemma_mul_bound,
};

verus! {

/// Twice the signed area of the triangle `p, q, r`: positive when `r` lies
/// strictly to the left of the directed line `p -> q`.
pub open spec fn cross3(p: Point, q: Point, r: Point) -> int {
    (q.x - p.x) * (r.y - p.y) - (q.y - p.y) * (r.x - p.x)
}

/// Every vertex of `s` lies on or to the left of every directed edge of the
/// closed loop `h`: each point of `s` is inside or on the hull `h`.
pub open spec fn hull_ok(h: Seq<Point>, s: Seq<Point>) -> bool {
    forall|i: int, j: int|
        0 <= i < h.len() && 0 <= j < s.len() ==> cross3(
            #[trigger] h[i],
            h[(i + 1) % h.len() as int],
            #[trigger] s[j],
        ) >= 0
}

/// Every vertex of `h` occurs in `s`.
pub open spec fn all_from(h: Seq<Point>, s: Seq<Point>) -> bool {
    forall|i: int| 0 <= i < h.len() ==> s.contains(h[i])
}

/// Every vertex has both coordinates in `[0, lim]`.
pub open spec fn poly_in_rect0(s: Seq<Point>, lim: int) -> bool {
    forall|i: int| 0 <= i < s.len() ==> 0 <= (#[trigger] s[i]).x <= lim && 0 <= s[i].y <= lim
}

/// Orientation of the ordered triple `(p, q, r)`: `0` for collinear, `1`
/// when the triple turns clockwise (`r` strictly right of `p -> q`), `2`
/// for counterclockwise (`r` strictly left of `p -> q`).
pub fn orientation(p: &Point, q: &Point, r: &Point) -> (o: usize)
    requires
        in_bounds(*p, COORD_LIMIT as int),
        in_bounds(*q, COORD_LIMIT as int),
        in_bounds(*r, COORD_LIMIT as int),
    ensures
        o == 0 <==> cross3(*p, *q, *r) == 0,
        o == 1 <==> cross3(*p, *q, *r) < 0,
        o == 2 <==> cross3(*p, *q, *r) > 0,
{
    proof {
        lemma_mul_bound(q.x - p.x, r.y - p.y, 20_000_000);
        lemma_mul_bound(q.y - p.y, r.x - p.x, 20_000_000);
    }
    let val: i64 = (q.x - p.x) * (r.y - p.y) - (q.y - p.y) * (r.x - p.x);
    if val == 0 {
        0
    } else if val < 0 {
        1
    } else {
        2
    }
}

/// Whether every point of `s` is inside or on the closed loop `h`, checked
/// edge by edge; decides [`hull_ok`].
pub fn is_hull_of(h: &Vec<Point>, s: &Vec<Point>) -> (r: bool)
    requires
        poly_in_bounds(h@, COORD_LIMIT as int),
        poly_in_bounds(s@, COORD_LIMIT as int),
    ensures
        r == hull_ok(h@, s@),
{
    let hn: usize = h.len();
    let sn: usize = s.len();
    if hn == 0 {
        return true;
    }
    for i in 0..hn
        invariant
            hn == h@.len(),
            sn == s@.len(),
            hn >= 1,
            poly_in_bounds(h@, COORD_LIMIT as int),
            poly_in_bounds(s@, COORD_LIMIT as int),
            forall|i2: int, j2: int|
                0 <= i2 < i && 0 <= j2 < sn ==> cross3(
                    #[trigger] h@[i2],
                    h@[(i2 + 1) % hn as int],
                    #[trigger] s@[j2],
                ) >= 0,
    {
        let a: Point = h[i];
        let b: Point = h[(i + 1) % hn];
        for j in 0..sn
            invariant
                hn == h@.len(),
                sn == s@.len(),
                hn >= 1,
                i < hn,
                a == h@[i as int],
                b == h@[(i + 1) % hn as int],
                poly_in_bounds(h@, COORD_LIMIT as int),
                poly_in_bounds(s@, COORD_LIMIT as int),
                forall|i2: int, j2: int|
                    0 <= i2 < i && 0 <= j2 < sn ==> cross3(
                        #[trigger] h@[i2],
                        h@[(i2 + 1) % hn as int],
                        #[trigger] s@[j2],
                    ) >= 0,
                forall|j2: int| 0 <= j2 < j ==> cross3(a, b, s@[j2]) >= 0,
        {
            if orientation(&a, &b, &s[j]) == 1 {
                return false;
            }
        }
    }
    true
}

/// `l` is the first vertex of minimal x-coordinate.
pub open spec fn is_leftmost(s: Seq<Point>, l: int) -> bool {
    &&& 0 <= l < s.len()
    &&& forall|j: int| 0 <= j < s.len() ==> s[l].x <= (#[trigger] s[j]).x
    &&& forall|j: int| 0 <= j < l ==> (#[trigger] s[j]).x > s[l].x
}

/// Every triple of vertices is collinear: the whole set lies on one line.
pub open spec fn all_collinear(s: Seq<Point>) -> bool {
    forall|i: int, j: int, k: int|
        0 <= i < s.len() && 0 <= j < s.len() && 0 <= k < s.len() ==> cross3(
            #[trigger] s[i],
            #[trigger] s[j],
            #[trigger] s[k],
        ) == 0
}

/// Index of the first vertex of minimal x-coordinate.
fn leftmost_index(points: &Vec<Point>) -> (l: usize)
    requires
        points@.len() >= 1,
    ensures
        is_leftmost(points@, l as int),
{
    let n: usize = points.len();
    let mut left: usize = 0;
    for i in 1..n
        invariant
            n == points@.len(),
            left < i,
            forall|j: int| 0 <= j < i ==> points@[left as int].x <= (#[trigger] points@[j]).x,
            forall|j: int| 0 <= j < left ==> (#[trigger] points@[j]).x > points@[left as int].x,
    {
        if points[i].x < points[left].x {
            left = i;
        }
    }
    left
}

/// Two vectors parallel to a common nonzero vector are parallel to each
/// other, in cross-product form.
proof fn lemma_parallel_cross(ux: int, uy: int, ax: int, ay: int, bx: int, by: int)
    requires
        ux * ay == uy * ax,
        ux * by == uy * bx,
        !(ux == 0 && uy == 0),
    ensures
        ax * by == ay * bx,
{
    if ux != 0 {
        assert(ux * (ax * by - ay * bx) == 0) by (nonlinear_arith)
            requires
                ux * ay == uy * ax && ux * by == uy * bx,
        ;
        assert(ax * by == ay * bx) by (nonlinear_arith)
            requires
                ux != 0 && ux * (ax * by - ay * bx) == 0,
        ;
    } else {
        assert(uy * (ax * by - ay * bx) == 0) by (nonlinear_arith)
            requires
                ux == 0 && ux * ay == uy * ax && ux * by == uy * bx,
        ;
        assert(ax * by == ay * bx) by (nonlinear_arith)
            requires
                uy != 0 && uy * (ax * by - ay * bx) == 0,
        ;
    }
}

/// If every vertex is collinear with one fixed pair of distinct vertices,
/// then every triple of vertices is collinear.
proof fn lemma_collinear_all(s: Seq<Point>, a: int, b: int)
    requires
        0 <= a < s.len(),
        0 <= b < s.len(),
        s[a] != s[b],
        forall|k: int| 0 <= k < s.len() ==> cross3(s[a], s[b], #[trigger] s[k]) == 0,
    ensures
        all_collinear(s),
{
    let o = s[a];
    let u = s[b];
    assert forall|i: int, j: int, k: int|
        0 <= i < s.len() && 0 <= j < s.len() && 0 <= k < s.len() implies cross3(
        #[trigger] s[i],
        #[trigger] s[j],
        #[trigger] s[k],
    ) == 0 by {
        let ux = u.x - o.x;
        let uy = u.y - o.y;
        let px = s[i].x - o.x;
        let py = s[i].y - o.y;
        let qx = s[j].x - o.x;
        let qy = s[j].y - o.y;
        let rx = s[k].x - o.x;
        let ry = s[k].y - o.y;
        assert(cross3(o, u, s[i]) == 0 && cross3(o, u, s[j]) == 0 && cross3(o, u, s[k]) == 0);
        lemma_parallel_cross(ux, uy, px, py, qx, qy);
        lemma_parallel_cross(ux, uy, px, py, rx, ry);
        lemma_parallel_cross(ux, uy, qx, qy, rx, ry);
        assert((qx - px) * (ry - py) - (qy - py) * (rx - px) == 0) by (nonlinear_arith)
            requires
                px * qy == py * qx && px * ry == py * rx && qx * ry == qy * rx,
        ;
    }
}

/// Whether the whole vertex set lies on one line; decides [`all_collinear`].
fn check_collinear(points: &Vec<Point>) -> (r: bool)
    requires
        points@.len() >= 1,
        poly_in_bounds(points@, COORD_LIMIT as int),
    ensures
        r == all_collinear(points@),
{
    let n: usize = points.len();
    // find a vertex distinct from the first one to anchor the line
    let mut m: usize = 0;
    let mut i: usize = 1;
    while i < n
        invariant
            n == points@.len(),
            1 <= i <= n,
            m < n,
            m != 0 ==> points@[m as int] != points@[0],
            m == 0 ==> forall|j: int| 0 <= j < i ==> #[trigger] points@[j] == points@[0],
        decreases n - i,
    {
        if m == 0 && (points[i].x != points[0].x || points[i].y != points[0].y) {
            m = i;
        }
        i += 1;
    }
    if m == 0 {
        // every vertex equals the first: trivially collinear
        proof {
            assert forall|i: int, j: int, k: int|
                0 <= i < n && 0 <= j < n && 0 <= k < n implies cross3(
                #[trigger] points@[i],
                #[trigger] points@[j],
                #[trigger] points@[k],
            ) == 0 by {
                assert(points@[i] == points@[0] && points@[j] == points@[0] && points@[k]
                    == points@[0]);
            }
        }
        return true;
    }
    for k in 0..n
        invariant
            n == points@.len(),
            m < n,
            points@[m as int] != points@[0],
            poly_in_bounds(points@, COORD_LIMIT as int),
            forall|j: int| 0 <= j < k ==> cross3(points@[0], points@[m as int], #[trigger] points@[j]) == 0,
    {
        if orientation(&points[0], &points[m], &points[k]) != 0 {
            proof {
                assert(cross3(points@[0], points@[m as int], points@[k as int]) != 0);
            }
            return false;
        }
    }
    proof {
        lemma_collinear_all(points@, 0, m as int);
    }
    true
}

/// Gift-wrapping scan from the leftmost point `left`: at each step it takes
/// the candidate no other point is clockwise of, and stops when it returns
/// to its start or has emitted one vertex per input point.
fn gift_wrap(points: &Vec<Point>, left: usize) -> (h: Vec<Point>)
    requires
        points@.len() >= 3,
        poly_in_bounds(points@, COORD_LIMIT as int),
        left < points@.len(),
    ensures
        1 <= h@.len() <= points@.len(),
        all_from(h@, points@),
        h@[0] == points@[left as int],
{
    let n: usize = points.len();
    let mut hull: Vec<Point> = Vec::new();
    let mut p: usize = left;
    let mut steps: usize = 0;
    loop
        invariant_except_break
            steps < n,
        invariant
            n == points@.len(),
            n >= 3,
            poly_in_bounds(points@, COORD_LIMIT as int),
            p < n,
            left < n,
            steps <= n,
            hull@.len() == steps,
            all_from(hull@, points@),
            steps == 0 ==> p == left,
            steps >= 1 ==> hull@[0] == points@[left as int],
        ensures
            1 <= hull@.len() <= n,
            all_from(hull@, points@),
            hull@[0] == points@[left as int],
        decreases n - steps,
    {
        proof {
            assert(points@.contains(points@[p as int]));
        }
        hull.push(points[p]);
        let mut q: usize = (p + 1) % n;
        for i in 0..n
            invariant
                n == points@.len(),
                poly_in_bounds(points@, COORD_LIMIT as int),
                p < n,
                q < n,
        {
            if orientation(&points[p], &points[i], &points[q]) == 2 {
                q = i;
            }
        }
        p = q;
        steps += 1;
        if p == left || steps >= n {
            break;
        }
    }
    hull
}

pub(crate) fn copy_points(v: &Vec<Point>) -> (r: Vec<Point>)
    ensures
        r@ == v@,
{
    let mut r: Vec<Point> = Vec::new();
    let n: usize = v.len();
    for i in 0..n
        invariant
            n == v@.len(),
            r@ == v@.take(i as int),
    {
        r.push(v[i]);
        proof {
            assert(r@ =~= v@.take(i + 1));
        }
    }
    proof {
        assert(v@.take(n as int) =~= v@);
    }
    r
}

/// The two directions of one edge see every point on opposite sides.
proof fn lemma_cross3_antisymmetric(p: Point, q: Point, r: Point)
    ensures
        cross3(p, q, r) + cross3(q, p, r) == 0,
{
    assert(cross3(p, q, r) + cross3(q, p, r) == 0) by (nonlinear_arith);
}

/// A loop whose vertices all coincide is a degenerate hull: every edge is
/// a point, and every cross product against a point-edge vanishes.
proof fn lemma_constant_loop_ok(rv: Seq<Point>, s: Seq<Point>)
    requires
        rv.len() >= 1,
        forall|k: int| 0 <= k < rv.len() ==> #[trigger] rv[k] == rv[0],
    ensures
        hull_ok(rv, s),
{
    assert forall|i: int, j: int|
        0 <= i < rv.len() && 0 <= j < s.len() implies cross3(
        #[trigger] rv[i],
        rv[(i + 1) % rv.len() as int],
        #[trigger] s[j],
    ) >= 0 by {
        assert(rv[i] == rv[0] && rv[(i + 1) % rv.len() as int] == rv[0]);
        assert(cross3(rv[0], rv[0], s[j]) == 0) by (nonlinear_arith);
    }
}

/// A two-vertex loop over a fully collinear set is a degenerate hull: both
/// edge directions lie on the common line.
proof fn lemma_two_loop_ok(rv: Seq<Point>, s: Seq<Point>, a: int, b: int)
    requires
        rv.len() == 2,
        all_collinear(s),
        0 <= a < s.len(),
        0 <= b < s.len(),
        rv[0] == s[a],
        rv[1] == s[b],
    ensures
        hull_ok(rv, s),
{
    assert forall|i: int, j: int|
        0 <= i < rv.len() && 0 <= j < s.len() implies cross3(
        #[trigger] rv[i],
        rv[(i + 1) % rv.len() as int],
        #[trigger] s[j],
    ) >= 0 by {
        assert(cross3(s[a], s[b], s[j]) == 0);
        lemma_cross3_antisymmetric(s[a], s[b], s[j]);
        if i == 0 {
            assert(rv[(i + 1) % rv.len() as int] == rv[1]);
        } else {
            assert(rv[(i + 1) % rv.len() as int] == rv[0]);
        }
    }
}

/// Convex hull by gift wrapping, certified. Fewer than three points come
/// back unchanged. Otherwise every point of the input is on or to the left
/// of every edge of the returned loop, the loop's vertices are input
/// points, and it starts at the leftmost input point. A fully collinear
/// input yields the degenerate two-vertex loop of the leftmost point and
/// one other (or that point alone when all points coincide); a scan that
/// fails certification on a non-collinear input (no such input is known)
/// degrades to three copies of the leftmost vertex — a certified degenerate
/// loop — rather than an uncertified one.
pub fn calculate_convex_hull(points: &Vec<Point>) -> (r: Vec<Point>)
    requires
        poly_in_bounds(points@, COORD_LIMIT as int),
    ensures
        r@.len() <= points@.len(),
        points@.len() < 3 ==> r@ == points@,
        points@.len() >= 3 ==> {
            &&& 1 <= r@.len()
            &&& all_from(r@, points@)
            &&& hull_ok(r@, points@)
            &&& exists|l: int| is_leftmost(points@, l) && r@[0] == points@[l]
            &&& (r@.len() == 2 ==> all_collinear(points@))
            &&& (!all_collinear(points@) ==> r@.len() >= 3)
        },
        poly_in_bounds(r@, COORD_LIMIT as int),
{
    if points.len() < 3 {
        return copy_points(points);
    }
    let left: usize = leftmost_index(points);
    let h: Vec<Point> = gift_wrap(points, left);
    proof {
        assert forall|i: int| 0 <= i < h@.len() implies in_bounds(h@[i], COORD_LIMIT as int) by {
            let k = choose|k: int| 0 <= k < points@.len() && points@[k] == h@[i];
            assert(in_bounds(points@[k], COORD_LIMIT as int));
        }
    }
    if h.len() >= 3 && is_hull_of(&h, points) {
        return h;
    }
    degenerate_hull(points, left)
}

/// The fallback loop for an input whose scan came back degenerate or
/// uncertified: a provably certified loop rather than an unchecked one.
/// A fully collinear input yields the leftmost vertex and one other along
/// the common line (the leftmost alone when all points coincide); any
/// other input yields three copies of the leftmost vertex.
fn degenerate_hull(points: &Vec<Point>, left: usize) -> (r: Vec<Point>)
    requires
        points@.len() >= 3,
        poly_in_bounds(points@, COORD_LIMIT as int),
        is_leftmost(points@, left as int),
    ensures
        1 <= r@.len() <= 3,
        all_from(r@, points@),
        hull_ok(r@, points@),
        r@[0] == points@[left as int],
        r@.len() == 2 ==> all_collinear(points@),
        !all_collinear(points@) ==> r@.len() >= 3,
{
    let collinear: bool = check_collinear(points);
    let mut r: Vec<Point> = Vec::new();
    r.push(points[left]);
    proof {
        assert(points@.contains(points@[left as int]));
    }
    if !collinear {
        r.push(points[left]);
        r.push(points[left]);
        proof {
            lemma_constant_loop_ok(r@, points@);
        }
        return r;
    }
    // pick a second vertex when one differs, closing a two-vertex loop
    // along the common line
    let n: usize = points.len();
    let mut m: usize = 0;
    let mut found: bool = false;
    let mut i: usize = 0;
    while i < n
        invariant
            n == points@.len(),
            i <= n,
            m < n,
            left < n,
            found ==> points@[m as int] != points@[left as int],
        decreases n - i,
    {
        if !found && (points[i].x != points[left].x || points[i].y != points[left].y) {
            m = i;
            found = true;
        }
        i += 1;
    }
    if found {
        r.push(points[m]);
        proof {
            assert(points@.contains(points@[m as int]));
            lemma_two_loop_ok(r@, points@, left as int, m as int);
        }
    }
    proof {
        if r@.len() == 1 {
            lemma_constant_loop_ok(r@, points@);
        }
    }
    r
}

/// The convexity reading of a certified hull: since each hull vertex is one
/// of the input points, every hull vertex also lies on or to the left of
/// every hull edge, so the loop never turns through a right turn.
pub proof fn lemma_hull_convex(h: Seq<Point>, s: Seq<Point>)
    requires
        hull_ok(h, s),
        all_from(h, s),
    ensures
        forall|i: int, j: int|
            0 <= i < h.len() && 0 <= j < h.len() ==> cross3(
                #[trigger] h[i],
                h[(i + 1) % h.len() as int],
                #[trigger] h[j],
            ) >= 0,
{
    assert forall|i: int, j: int|
        0 <= i < h.len() && 0 <= j < h.len() implies cross3(
        #[trigger] h[i],
        h[(i + 1) % h.len() as int],
        #[trigger] h[j],
    ) >= 0 by {
        let k = choose|k: int| 0 <= k < s.len() && s[k] == h[j];
        assert(cross3(h[i], h[(i + 1) % h.len() as int], s[k]) >= 0);
    }
}

/// One corner-cutting pass: each edge `(p0, p1)` is replaced by the two
/// points at its 1/3 and 2/3 positions, rounded down.
pub open spec fn cut_one(s: Seq<Point>) -> Seq<Point> {
    Seq::new(
        2 * s.len(),
        |k: int|
            {
                let p0 = s[k / 2];
                let p1 = s[(k / 2 + 1) % s.len() as int];
                if k % 2 == 0 {
                    Point { x: ((2 * p0.x + p1.x) / 3) as i64, y: ((2 * p0.y + p1.y) / 3) as i64 }
                } else {
                    Point { x: ((p0.x + 2 * p1.x) / 3) as i64, y: ((p0.y + 2 * p1.y) / 3) as i64 }
                }
            },
    )
}

/// `k` corner-cutting passes, applied front to back.
pub open spec fn chaikin_spec(s: Seq<Point>, k: nat) -> Seq<Point>
    decreases k,
{
    if k == 0 {
        s
    } else {
        chaikin_spec(cut_one(s), (k - 1) as nat)
    }
}

pub open spec fn pow2(k: nat) -> nat
    decreases k,
{
    if k == 0 {
        1nat
    } else {
        2 * pow2((k - 1) as nat)
    }
}

pub proof fn lemma_chaikin_len(s: Seq<Point>, k: nat)
    ensures
        chaikin_spec(s, k).len() == s.len() * pow2(k),
    decreases k,
{
    if k == 0 {
        assert(s.len() * 1nat == s.len()) by (nonlinear_arith);
    } else {
        lemma_chaikin_len(cut_one(s), (k - 1) as nat);
        assert((2 * s.len()) * pow2((k - 1) as nat) == s.len() * (2 * pow2((k - 1) as nat)))
            by (nonlinear_arith);
    }
}

proof fn lemma_div3_in_range(v: int, lim: int)
    requires
        0 <= v <= 3 * lim,
        lim >= 0,
    ensures
        0 <= v / 3 <= lim,
{
    vstd::arithmetic::div_mod::lemma_div_is_ordered(0, v, 3);
    vstd::arithmetic::div_mod::lemma_div_is_ordered(v, 3 * lim, 3);
    vstd::arithmetic::div_mod::lemma_div_multiples_vanish(lim, 3);
}

proof fn lemma_cut_one_rect(s: Seq<Point>, lim: int)
    requires
        s.len() >= 1,
        lim >= 0,
        poly_in_rect0(s, lim),
    ensures
        poly_in_rect0(cut_one(s), lim),
{
    assert forall|k: int| 0 <= k < cut_one(s).len() implies 0 <= (#[trigger] cut_one(s)[k]).x
        <= lim && 0 <= cut_one(s)[k].y <= lim by {
        let p0 = s[k / 2];
        let p1 = s[(k / 2 + 1) % s.len() as int];
        lemma_div3_in_range(2 * p0.x + p1.x, lim);
        lemma_div3_in_range(2 * p0.y + p1.y, lim);
        lemma_div3_in_range(p0.x + 2 * p1.x, lim);
        lemma_div3_in_range(p0.y + 2 * p1.y, lim);
    }
}

proof fn lemma_pow2_pos(k: nat)
    ensures
        pow2(k) >= 1,
    decreases k,
{
    if k > 0 {
        lemma_pow2_pos((k - 1) as nat);
    }
}

/// Chaikin-style corner cutting, run `iterations` times; each pass doubles
/// the vertex count. Coordinates are required nonnegative — the screen
/// quadrant tracks live in — so the truncating division by three agrees
/// with the mathematical thirds.
pub fn chaikin_corner_cutting(points: &Vec<Point>, iterations: usize) -> (r: Vec<Point>)
    requires
        points@.len() >= 1,
        poly_in_rect0(points@, COORD_LIMIT as int),
        points@.len() * pow2(iterations as nat) <= 1_000_000,
    ensures
        r@ == chaikin_spec(points@, iterations as nat),
        r@.len() == points@.len() * pow2(iterations as nat),
        poly_in_rect0(r@, COORD_LIMIT as int),
{
    let mut cur: Vec<Point> = copy_points(points);
    proof {
        lemma_chaikin_len(points@, iterations as nat);
        assert(points@.len() * pow2(0nat) == points@.len()) by (nonlinear_arith)
            requires
                pow2(0nat) == 1nat,
        ;
    }
    for t in 0..iterations
        invariant
            cur@.len() >= 1,
            poly_in_rect0(cur@, COORD_LIMIT as int),
            chaikin_spec(cur@, (iterations - t) as nat) == chaikin_spec(
                points@,
                iterations as nat,
            ),
            cur@.len() == points@.len() * pow2(t as nat),
            cur@.len() * pow2((iterations - t) as nat) == points@.len() * pow2(
                iterations as nat,
            ),
            points@.len() * pow2(iterations as nat) <= 1_000_000,
    {
        let n: usize = cur.len();
        proof {
            lemma_pow2_pos((iterations - t) as nat);
            assert(cur@.len() * 1nat <= cur@.len() * pow2((iterations - t) as nat))
                by (nonlinear_arith)
                requires
                    pow2((iterations - t) as nat) >= 1,
            ;
            assert(cur@.len() * 1nat == cur@.len()) by (nonlinear_arith);
        }
        let mut next: Vec<Point> = Vec::new();
        for i in 0..n
            invariant
                n == cur@.len(),
                n >= 1,
                n <= 1_000_000,
                poly_in_rect0(cur@, COORD_LIMIT as int),
                next@.len() == 2 * i,
                forall|k: int| 0 <= k < 2 * i ==> next@[k] == cut_one(cur@)[k],
        {
            let p0: Point = cur[i];
            let p1: Point = cur[(i + 1) % n];
            proof {
                lemma_div3_in_range(2 * p0.x + p1.x, COORD_LIMIT as int);
                lemma_div3_in_range(2 * p0.y + p1.y, COORD_LIMIT as int);
                lemma_div3_in_range(p0.x + 2 * p1.x, COORD_LIMIT as int);
                lemma_div3_in_range(p0.y + 2 * p1.y, COORD_LIMIT as int);
            }
            let q0: Point = Point {
                x: ((2 * p0.x + p1.x) as u64 / 3) as i64,
                y: ((2 * p0.y + p1.y) as u64 / 3) as i64,
            };
            let q1: Point = Point {
                x: ((p0.x + 2 * p1.x) as u64 / 3) as i64,
                y: ((p0.y + 2 * p1.y) as u64 / 3) as i64,
            };
            next.push(q0);
            next.push(q1);
        }
        proof {
            assert(next@ =~= cut_one(cur@));
            lemma_cut_one_rect(cur@, COORD_LIMIT as int);
            assert((2 * (points@.len() * pow2(t as nat))) == points@.len() * (2 * pow2(
                t as nat,
            ))) by (nonlinear_arith);
            assert((2 * cur@.len()) * pow2((iterations - (t + 1)) as nat) == cur@.len() * (2
                * pow2((iterations - (t + 1)) as nat))) by (nonlinear_arith);
        }
        cur = next;
    }
    cur
}

/// The dual offset: vertex `i` moved perpendicular to the chord between its
/// two neighbours by `d` world units, for every vertex of the loop.
pub fn dualise(points: &Vec<Point>, d: i64) -> (r: Vec<Point>)
    requires
        3 <= points@.len() <= 1_000_000,
        poly_in_bounds(points@, COORD_LIMIT as int),
        0 <= d <= COORD_LIMIT,
    ensures
        r@.len() == points@.len(),
        forall|i: int|
            0 <= i < points@.len() ==> r@[i] == perp_point(
                points@[(i - 1 + points@.len()) % points@.len() as int],
                points@[i],
                points@[(i + 1) % points@.len() as int],
                d as int,
            ),
{
    let n: usize = points.len();
    let mut r: Vec<Point> = Vec::new();
    for i in 0..n
        invariant
            n == points@.len(),
            3 <= n <= 1_000_000,
            poly_in_bounds(points@, COORD_LIMIT as int),
            0 <= d <= COORD_LIMIT,
            r@.len() == i,
            forall|k: int|
                0 <= k < i ==> r@[k] == perp_point(
                    points@[(k - 1 + n) % n as int],
                    points@[k],
                    points@[(k + 1) % n as int],
                    d as int,
                ),
    {
        let prev: Point = points[(i + n - 1) % n];
        let here: Point = points[i];
        let next: Point = points[(i + 1) % n];
        proof {
            assert((i + n - 1) % n as int == (i - 1 + n) % n as int);
        }
        let moved: Point = move_perp(&prev, &here, &next, d);
        r.push(moved);
    }
    r
}

/// Every vertex lies inside the half-open rectangle `[lo.x, hi.x) x [lo.y, hi.y)`.
pub open spec fn in_rect(s: Seq<Point>, lo: Point, hi: Point) -> bool {
    forall|i: int|
        0 <= i < s.len() ==> lo.x <= (#[trigger] s[i]).x < hi.x && lo.y <= s[i].y < hi.y
}

proof fn lemma_rect_seq_bounds(s: Seq<Point>, lo: Point, hi: Point, lim: int)
    requires
        in_rect(s, lo, hi),
        0 <= lo.x,
        0 <= lo.y,
        hi.x <= lim,
        hi.y <= lim,
    ensures
        poly_in_rect0(s, lim),
        poly_in_bounds(s, lim),
{
    assert forall|i: int| 0 <= i < s.len() implies 0 <= (#[trigger] s[i]).x <= lim && 0 <= s[i].y
        <= lim by {
        assert(lo.x <= s[i].x < hi.x && lo.y <= s[i].y < hi.y);
    }
}

proof fn lemma_subset_rect0(h: Seq<Point>, s: Seq<Point>, lim: int)
    requires
        h == s || all_from(h, s),
        poly_in_rect0(s, lim),
    ensures
        poly_in_rect0(h, lim),
        poly_in_bounds(h, lim),
{
    if h != s {
        assert forall|i: int| 0 <= i < h.len() implies 0 <= (#[trigger] h[i]).x <= lim && 0
            <= h[i].y <= lim by {
            assert(s.contains(h[i]));
            let k = choose|k: int| 0 <= k < s.len() && s[k] == h[i];
            assert(0 <= s[k].x <= lim && 0 <= s[k].y <= lim);
        }
    }
}

/// Sample `grain` points uniformly inside the half-open rectangle.
fn sample_rect(grain: usize, size: (Point, Point), rng: &mut rand_chacha::ChaCha8Rng) -> (r: Vec<
    Point,
>)
    requires
        size.0.x < size.1.x,
        size.0.y < size.1.y,
    ensures
        r@.len() == grain,
        in_rect(r@, size.0, size.1),
{
    let mut track: Vec<Point> = Vec::new();
    for k in 0..grain
        invariant
            track@.len() == k,
            in_rect(track@, size.0, size.1),
            size.0.x < size.1.x,
            size.0.y < size.1.y,
    {
        let x: i64 = crate::rng::sample_i64(rng, size.0.x, size.1.x);
        let y: i64 = crate::rng::sample_i64(rng, size.0.y, size.1.y);
        track.push(Point { x, y });
    }
    track
}

proof fn lemma_div3_between(v: int, lo: int, hi: int)
    requires
        3 * lo <= v,
        v <= 3 * hi,
    ensures
        lo <= v / 3 <= hi,
{
    vstd::arithmetic::div_mod::lemma_div_is_ordered(3 * lo, v, 3);
    vstd::arithmetic::div_mod::lemma_div_is_ordered(v, 3 * hi, 3);
    vstd::arithmetic::div_mod::lemma_div_multiples_vanish(lo, 3);
    vstd::arithmetic::div_mod::lemma_div_multiples_vanish(hi, 3);
}

proof fn lemma_cut_one_in_rect(s: Seq<Point>, lo: Point, hi: Point)
    requires
        s.len() >= 1,
        in_rect(s, lo, hi),
    ensures
        in_rect(cut_one(s), lo, hi),
{
    assert forall|k: int|
        0 <= k < cut_one(s).len() implies lo.x <= (#[trigger] cut_one(s)[k]).x < hi.x && lo.y
        <= cut_one(s)[k].y < hi.y by {
        let p0 = s[k / 2];
        let p1 = s[(k / 2 + 1) % s.len() as int];
        lemma_div3_between(2 * p0.x + p1.x, lo.x as int, hi.x - 1);
        lemma_div3_between(2 * p0.y + p1.y, lo.y as int, hi.y - 1);
        lemma_div3_between(p0.x + 2 * p1.x, lo.x as int, hi.x - 1);
        lemma_div3_between(p0.y + 2 * p1.y, lo.y as int, hi.y - 1);
    }
}

proof fn lemma_chaikin_in_rect(s: Seq<Point>, k: nat, lo: Point, hi: Point)
    requires
        s.len() >= 1,
        in_rect(s, lo, hi),
    ensures
        in_rect(chaikin_spec(s, k), lo, hi),
    decreases k,
{
    if k > 0 {
        lemma_cut_one_in_rect(s, lo, hi);
        lemma_chaikin_in_rect(cut_one(s), (k - 1) as nat, lo, hi);
    }
}

proof fn lemma_subset_in_rect(h: Seq<Point>, s: Seq<Point>, lo: Point, hi: Point)
    requires
        all_from(h, s),
        in_rect(s, lo, hi),
    ensures
        in_rect(h, lo, hi),
{
    assert forall|i: int|
        0 <= i < h.len() implies lo.x <= (#[trigger] h[i]).x < hi.x && lo.y <= h[i].y
        < hi.y by {
        assert(s.contains(h[i]));
        let k = choose|k: int| 0 <= k < s.len() && s[k] == h[i];
        assert(lo.x <= s[k].x < hi.x && lo.y <= s[k].y < hi.y);
    }
}

/// How a generated track relates to the random sample it came from: the
/// sample has `grain` points inside the rectangle, `h` is its certified
/// (possibly degenerate, only for a collinear sample) convex hull, and the
/// track is `h` smoothed by `res` corner-cutting passes.
pub open spec fn gen_track_model(
    sample: Seq<Point>,
    h: Seq<Point>,
    grain: int,
    lo: Point,
    hi: Point,
    res: nat,
    out: Seq<Point>,
) -> bool {
    &&& sample.len() == grain
    &&& in_rect(sample, lo, hi)
    &&& all_from(h, sample)
    &&& hull_ok(h, sample)
    &&& 1 <= h.len() <= sample.len()
    &&& (!all_collinear(sample) ==> h.len() >= 3)
    &&& out == chaikin_spec(h, res)
}

/// Generate a closed track: `grain` points sampled uniformly in `size`,
/// wrapped into their convex hull, smoothed by `res` corner-cutting passes,
/// and paired with the dual boundary offset by `width`. Deterministic for a
/// fixed RNG stream. A degenerate smoothed loop of fewer than three
/// vertices is returned with itself as its dual; callers must not rely on a
/// corridor in that case.
#[verifier::rlimit(100)]
pub fn gen_track(
    grain: usize,
    res: usize,
    size: (Point, Point),
    width: i64,
    rng: &mut rand_chacha::ChaCha8Rng,
) -> (r: (Vec<Point>, Vec<Point>))
    requires
        3 <= grain,
        grain * pow2(res as nat) <= 1_000_000,
        0 <= size.0.x < size.1.x <= COORD_LIMIT,
        0 <= size.0.y < size.1.y <= COORD_LIMIT,
        0 <= width <= COORD_LIMIT,
    ensures
        exists|sample: Seq<Point>, h: Seq<Point>|
            gen_track_model(sample, h, grain as int, size.0, size.1, res as nat, r.0@),
        in_rect(r.0@, size.0, size.1),
        r.0@.len() >= 3 ==> {
            &&& r.1@.len() == r.0@.len()
            &&& forall|i: int|
                0 <= i < r.0@.len() ==> r.1@[i] == perp_point(
                    r.0@[(i - 1 + r.0@.len()) % r.0@.len() as int],
                    r.0@[i],
                    r.0@[(i + 1) % r.0@.len() as int],
                    width as int,
                )
        },
        r.0@.len() < 3 ==> r.1@ == r.0@,
{
    let track: Vec<Point> = sample_rect(grain, size, rng);
    let ghost sample: Seq<Point> = track@;
    proof {
        lemma_rect_seq_bounds(sample, size.0, size.1, COORD_LIMIT as int);
    }
    let hull: Vec<Point> = calculate_convex_hull(&track);
    let ghost h: Seq<Point> = hull@;
    proof {
        lemma_subset_rect0(h, sample, COORD_LIMIT as int);
        assert(hull@.len() * pow2(res as nat) <= grain * pow2(res as nat)) by (nonlinear_arith)
            requires
                hull@.len() <= grain && pow2(res as nat) >= 0,
        ;
    }
    proof {
        lemma_subset_in_rect(h, sample, size.0, size.1);
        lemma_chaikin_in_rect(h, res as nat, size.0, size.1);
    }
    let smoothed: Vec<Point> = chaikin_corner_cutting(&hull, res);
    if smoothed.len() >= 3 {
        proof {
            assert(poly_in_bounds(smoothed@, COORD_LIMIT as int));
            lemma_chaikin_len(hull@, res as nat);
            assert(smoothed@.len() <= 1_000_000);
        }
        let dual: Vec<Point> = dualise(&smoothed, width);
        let out: (Vec<Point>, Vec<Point>) = (smoothed, dual);
        proof {
            assert(gen_track_model(sample, h, grain as int, size.0, size.1, res as nat, out.0@));
            assert(exists|s2: Seq<Point>, h2: Seq<Point>|
                gen_track_model(s2, h2, grain as int, size.0, size.1, res as nat, out.0@));
        }
        out
    } else {
        let copy: Vec<Point> = copy_points(&smoothed);
        let out: (Vec<Point>, Vec<Point>) = (smoothed, copy);
        proof {
            assert(gen_track_model(sample, h, grain as int, size.0, size.1, res as nat, out.0@));
            assert(exists|s2: Seq<Point>, h2: Seq<Point>|
                gen_track_model(s2, h2, grain as int, size.0, size.1, res as nat, out.0@));
        }
        out
    }
}

/// The canonical start position for a generation: the track midpoint moved
/// half a corridor width perpendicular to the chord between its two
/// neighbours.
pub fn start_position(track: &Vec<Point>, half_width: i64) -> (r: Point)
    requires
        3 <= track@.len(),
        poly_in_bounds(track@, COORD_LIMIT as int),
        0 <= half_width <= COORD_LIMIT,
    ensures
        r == perp_point(
            track@[track@.len() as int / 2 - 1],
            track@[track@.len() as int / 2],
            track@[track@.len() as int / 2 + 1],
            half_width as int,
        ),
{
    let mid: usize = track.len() / 2;
    move_perp(&track[mid - 1], &track[mid], &track[mid + 1], half_width)
}

} // verus!
