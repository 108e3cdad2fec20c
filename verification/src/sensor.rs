//! Sensor array: a fan of rays cast from the vehicle against both track
//! boundaries, with nearest-hit semantics and a documented sentinel for
//! rays that hit nothing.

use vstd::prelude::*;
use crate::geom::{
    Point, Dir, FP, COORD_LIMIT, DIST_LIMIT, in_bounds, poly_in_bounds, dir_ok, div_trunc,
    clamp_spec, clamp_i128, div_trunc_i128, lemma_mul_bound,
};

verus! {

/// Distance reported for a ray that hits neither boundary: saturated,
/// far above every real hit, which stays below [`DIST_LIMIT`].
pub const SENTINEL_DIST: i64 = 1_000_000_000_000;

/// Coordinate of the sentinel hit point, far outside any play field the
/// geometry kernel accepts.
pub const SENTINEL_COORD: i64 = -100_000_000;

/// The hit point handed out for a ray that hits nothing.
pub open spec fn sentinel_point() -> Point {
    Point { x: SENTINEL_COORD, y: SENTINEL_COORD }
}

/// One ray's result: a hit with its point and distance, or a miss. The
/// numeric sentinel encoding is applied only at the boundary that hands
/// values to the controller.
#[derive(Clone, Copy, PartialEq, Eq, Structural, Debug)]
pub enum RayHit {
    Hit { point: Point, dist: i64 },
    Miss,
}

/// Denominator of the parametric ray/segment solution for the edge
/// `a -> b`: zero exactly when ray and edge are parallel.
pub open spec fn edge_den(d: Dir, a: Point, b: Point) -> int {
    d.s * (b.x - a.x) - d.c * (b.y - a.y)
}

/// Numerator of the parametric ray/segment solution.
pub open spec fn edge_num(o: Point, a: Point, b: Point) -> int {
    (a.y - o.y) * (b.x - a.x) - (a.x - o.x) * (b.y - a.y)
}

/// The accepted intersection of the ray from `o` along `d` with the edge
/// `a -> b`, as an exact rational parameter `n / m` with `m > 0`: the
/// parameter must be nonnegative and the hit point must fall inside the
/// edge's bounding box; parallel edges yield nothing, so the guarded
/// division can never divide by zero.
pub open spec fn edge_hit(o: Point, d: Dir, a: Point, b: Point) -> Option<(int, int)> {
    let den = edge_den(d, a, b);
    let num = edge_num(o, a, b);
    if den == 0 {
        None
    } else {
        let n = if den > 0 { num } else { -num };
        let m = if den > 0 { den } else { -den };
        let xlo = if a.x <= b.x { a.x } else { b.x };
        let xhi = if a.x <= b.x { b.x } else { a.x };
        let ylo = if a.y <= b.y { a.y } else { b.y };
        let yhi = if a.y <= b.y { b.y } else { a.y };
        if n >= 0 && xlo * m <= o.x * m + d.c * n && o.x * m + d.c * n <= xhi * m && ylo * m
            <= o.y * m + d.s * n && o.y * m + d.s * n <= yhi * m {
            Some((n, m))
        } else {
            None
        }
    }
}

/// The nearest accepted hit among the first `k` edges of the closed loop,
/// keeping the earlier edge on exact ties.
pub open spec fn best_hit(poly: Seq<Point>, o: Point, d: Dir, k: int) -> Option<(int, int)>
    decreases k,
{
    if k <= 0 {
        None
    } else {
        let prev = best_hit(poly, o, d, k - 1);
        let cur = edge_hit(o, d, poly[k - 1], poly[k % poly.len() as int]);
        match (prev, cur) {
            (Option::None, c) => c,
            (Option::Some(p), Option::None) => Some(p),
            (Option::Some(p), Option::Some(c)) => if c.0 * p.1 < p.0 * c.1 {
                Some(c)
            } else {
                Some(p)
            },
        }
    }
}

/// The executable hit point for the rational parameter `n / m`: origin plus
/// the truncated offset, saturated into the kernel's coordinate range.
pub open spec fn hit_point_spec(o: Point, d: Dir, n: int, m: int) -> Point {
    Point {
        x: clamp_spec(o.x + div_trunc(d.c * n, m), -2 * COORD_LIMIT as int, 2 * COORD_LIMIT as int) as i64,
        y: clamp_spec(o.y + div_trunc(d.s * n, m), -2 * COORD_LIMIT as int, 2 * COORD_LIMIT as int) as i64,
    }
}

/// The executable distance for the rational parameter `n / m`: the
/// parameter scaled to world units (directions are unit vectors scaled by
/// `FP`), truncated and saturated at [`DIST_LIMIT`].
pub open spec fn hit_dist_spec(n: int, m: int) -> int {
    clamp_spec(div_trunc(n * FP as int, m), 0, DIST_LIMIT as int)
}

/// Cast a ray from `point` along `d` against every edge of `polygon` and
/// keep the nearest accepted intersection.
pub fn raycast(point: &Point, d: &Dir, polygon: &Vec<Point>) -> (r: Option<(Point, i64)>)
    requires
        in_bounds(*point, COORD_LIMIT as int),
        dir_ok(*d),
        poly_in_bounds(polygon@, COORD_LIMIT as int),
    ensures
        match best_hit(polygon@, *point, *d, polygon@.len() as int) {
            Option::None => r is None,
            Option::Some(nm) => r == Some(
                (hit_point_spec(*point, *d, nm.0, nm.1), hit_dist_spec(nm.0, nm.1) as i64),
            ),
        },
{
    let n_edges: usize = polygon.len();
    let mut bestn: i64 = 0;
    let mut bestm: i64 = 0;
    for i in 0..n_edges
        invariant
            n_edges == polygon@.len(),
            in_bounds(*point, COORD_LIMIT as int),
            dir_ok(*d),
            poly_in_bounds(polygon@, COORD_LIMIT as int),
            bestm >= 0,
            best_hit(polygon@, *point, *d, i as int) == if bestm > 0 {
                Option::Some((bestn as int, bestm as int))
            } else {
                Option::<(int, int)>::None
            },
    {
        let a: Point = polygon[i];
        let b: Point = polygon[(i + 1) % n_edges];
        proof {
            lemma_mul_bound(d.s as int, (b.x - a.x) as int, 20_000_000);
            lemma_mul_bound(d.c as int, (b.y - a.y) as int, 20_000_000);
            lemma_mul_bound((a.y - point.y) as int, (b.x - a.x) as int, 20_000_000);
            lemma_mul_bound((a.x - point.x) as int, (b.y - a.y) as int, 20_000_000);
        }
        let den: i64 = d.s * (b.x - a.x) - d.c * (b.y - a.y);
        let num: i64 = (a.y - point.y) * (b.x - a.x) - (a.x - point.x) * (b.y - a.y);
        let mut cn: i64 = 0;
        let mut cm: i64 = 0;
        if den != 0 {
            let nn: i64 = if den > 0 { num } else { -num };
            let mm: i64 = if den > 0 { den } else { -den };
            let xlo: i64 = if a.x <= b.x { a.x } else { b.x };
            let xhi: i64 = if a.x <= b.x { b.x } else { a.x };
            let ylo: i64 = if a.y <= b.y { a.y } else { b.y };
            let yhi: i64 = if a.y <= b.y { b.y } else { a.y };
            proof {
                lemma_mul_bound(xlo as int, mm as int, 1_000_000_000_000_000);
                lemma_mul_bound(xhi as int, mm as int, 1_000_000_000_000_000);
                lemma_mul_bound(ylo as int, mm as int, 1_000_000_000_000_000);
                lemma_mul_bound(yhi as int, mm as int, 1_000_000_000_000_000);
                lemma_mul_bound(point.x as int, mm as int, 1_000_000_000_000_000);
                lemma_mul_bound(point.y as int, mm as int, 1_000_000_000_000_000);
                lemma_mul_bound(d.c as int, nn as int, 1_000_000_000_000_000);
                lemma_mul_bound(d.s as int, nn as int, 1_000_000_000_000_000);
            }
            if nn >= 0 {
                let px: i128 = (point.x as i128) * (mm as i128) + (d.c as i128) * (nn as i128);
                let py: i128 = (point.y as i128) * (mm as i128) + (d.s as i128) * (nn as i128);
                if (xlo as i128) * (mm as i128) <= px && px <= (xhi as i128) * (mm as i128)
                    && (ylo as i128) * (mm as i128) <= py && py <= (yhi as i128) * (mm as i128) {
                    cn = nn;
                    cm = mm;
                }
            }
        }
        proof {
            assert(edge_hit(*point, *d, a, b) == if cm > 0 {
                Option::Some((cn as int, cm as int))
            } else {
                Option::<(int, int)>::None
            });
        }
        proof {
            lemma_mul_bound(cn as int, bestm as int, 9_223_372_036_854_775_808);
            lemma_mul_bound(bestn as int, cm as int, 9_223_372_036_854_775_808);
        }
        if cm > 0 && (bestm == 0 || (cn as i128) * (bestm as i128) < (bestn as i128) * (cm
            as i128)) {
            bestn = cn;
            bestm = cm;
        }
    }
    if bestm > 0 {
        proof {
            lemma_mul_bound(d.c as int, bestn as int, 9_223_372_036_854_775_808);
            lemma_mul_bound(d.s as int, bestn as int, 9_223_372_036_854_775_808);
            lemma_mul_bound(bestn as int, FP as int, 9_223_372_036_854_775_808);
        }
        let offx: i128 = div_trunc_i128((d.c as i128) * (bestn as i128), bestm as i128);
        let offy: i128 = div_trunc_i128((d.s as i128) * (bestn as i128), bestm as i128);
        let hx: i64 = clamp_i128((point.x as i128) + offx, -2 * COORD_LIMIT, 2 * COORD_LIMIT);
        let hy: i64 = clamp_i128((point.y as i128) + offy, -2 * COORD_LIMIT, 2 * COORD_LIMIT);
        let q: i128 = div_trunc_i128((bestn as i128) * (FP as i128), bestm as i128);
        let dist: i64 = clamp_i128(q, 0, DIST_LIMIT);
        Some((Point { x: hx, y: hy }, dist))
    } else {
        None
    }
}

/// The modelled outcome of one ray against both boundaries: the nearer of
/// the two nearest hits, or a miss when neither boundary is hit.
pub open spec fn ray_outcome(pos: Point, d: Dir, inner: Seq<Point>, outer: Seq<Point>) -> RayHit {
    let b1 = best_hit(inner, pos, d, inner.len() as int);
    let b2 = best_hit(outer, pos, d, outer.len() as int);
    match (b1, b2) {
        (Option::None, Option::None) => RayHit::Miss,
        (Option::Some(p), Option::None) => RayHit::Hit {
            point: hit_point_spec(pos, d, p.0, p.1),
            dist: hit_dist_spec(p.0, p.1) as i64,
        },
        (Option::None, Option::Some(q)) => RayHit::Hit {
            point: hit_point_spec(pos, d, q.0, q.1),
            dist: hit_dist_spec(q.0, q.1) as i64,
        },
        (Option::Some(p), Option::Some(q)) => if hit_dist_spec(p.0, p.1) < hit_dist_spec(
            q.0,
            q.1,
        ) {
            RayHit::Hit { point: hit_point_spec(pos, d, p.0, p.1), dist: hit_dist_spec(p.0, p.1) as i64 }
        } else {
            RayHit::Hit { point: hit_point_spec(pos, d, q.0, q.1), dist: hit_dist_spec(q.0, q.1) as i64 }
        },
    }
}

/// The distance a ray outcome reports at the controller-facing boundary.
pub open spec fn outcome_dist(h: RayHit) -> i64 {
    match h {
        RayHit::Hit { point: _, dist } => dist,
        RayHit::Miss => SENTINEL_DIST,
    }
}

/// The hit point a ray outcome reports at the controller-facing boundary.
pub open spec fn outcome_point(h: RayHit) -> Point {
    match h {
        RayHit::Hit { point, dist: _ } => point,
        RayHit::Miss => sentinel_point(),
    }
}

/// Cast one ray per supplied direction against both boundaries and report,
/// per ray, the nearer hit's distance and point, or the sentinel pair when
/// nothing is hit. Directions are the fan `heading + 90 degrees + k * (360
/// degrees / ray count)`, evaluated by the caller.
pub fn raywrap(point: &Point, dirs: &Vec<Dir>, track: &Vec<Point>, track2: &Vec<Point>) -> (r: (
    Vec<i64>,
    Vec<Point>,
))
    requires
        in_bounds(*point, COORD_LIMIT as int),
        forall|i: int| 0 <= i < dirs@.len() ==> dir_ok(#[trigger] dirs@[i]),
        poly_in_bounds(track@, COORD_LIMIT as int),
        poly_in_bounds(track2@, COORD_LIMIT as int),
    ensures
        r.0@.len() == dirs@.len(),
        r.1@.len() == dirs@.len(),
        forall|i: int|
            0 <= i < dirs@.len() ==> {
                let out = #[trigger] ray_outcome(*point, dirs@[i], track@, track2@);
                r.0@[i] == outcome_dist(out) && r.1@[i] == outcome_point(out)
            },
{
    let mut dsts: Vec<i64> = Vec::new();
    let mut pp: Vec<Point> = Vec::new();
    let amount: usize = dirs.len();
    for i in 0..amount
        invariant
            amount == dirs@.len(),
            in_bounds(*point, COORD_LIMIT as int),
            forall|k: int| 0 <= k < dirs@.len() ==> dir_ok(#[trigger] dirs@[k]),
            poly_in_bounds(track@, COORD_LIMIT as int),
            poly_in_bounds(track2@, COORD_LIMIT as int),
            dsts@.len() == i,
            pp@.len() == i,
            forall|k: int|
                0 <= k < i ==> {
                    let out = #[trigger] ray_outcome(*point, dirs@[k], track@, track2@);
                    dsts@[k] == outcome_dist(out) && pp@[k] == outcome_point(out)
                },
    {
        let d: Dir = dirs[i];
        let ghost out: RayHit = ray_outcome(*point, d, track@, track2@);
        let ray1: Option<(Point, i64)> = raycast(point, &d, track);
        let ray2: Option<(Point, i64)> = raycast(point, &d, track2);
        match (ray1, ray2) {
            (Some((p1, d1)), Some((p2, d2))) => {
                if d1 < d2 {
                    proof {
                        assert(out == RayHit::Hit { point: p1, dist: d1 });
                    }
                    dsts.push(d1);
                    pp.push(p1);
                } else {
                    proof {
                        assert(out == RayHit::Hit { point: p2, dist: d2 });
                    }
                    dsts.push(d2);
                    pp.push(p2);
                }
            },
            (Some((p1, d1)), None) => {
                proof {
                    assert(out == RayHit::Hit { point: p1, dist: d1 });
                }
                dsts.push(d1);
                pp.push(p1);
            },
            (None, Some((p2, d2))) => {
                proof {
                    assert(out == RayHit::Hit { point: p2, dist: d2 });
                }
                dsts.push(d2);
                pp.push(p2);
            },
            (None, None) => {
                proof {
                    assert(out == RayHit::Miss);
                }
                dsts.push(SENTINEL_DIST);
                pp.push(Point { x: SENTINEL_COORD, y: SENTINEL_COORD });
            },
        }
    }
    (dsts, pp)
}

/// The sensor sentinel, read off the model: a ray whose direction meets no
/// accepted edge intersection on either boundary reports exactly the
/// sentinel distance and the sentinel hit point.
pub proof fn lemma_sensor_sentinel(pos: Point, d: Dir, inner: Seq<Point>, outer: Seq<Point>)
    requires
        best_hit(inner, pos, d, inner.len() as int) is None,
        best_hit(outer, pos, d, outer.len() as int) is None,
    ensures
        ray_outcome(pos, d, inner, outer) == RayHit::Miss,
{
}

} // verus!
