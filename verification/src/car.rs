//! Vehicle kinematics: per-tick damping and Euler integration, the body
//! transform, scoring with a zero floor, progress tracking and the death
//! predicate.

use vstd::prelude::*;
use crate::geom::{
    Point, Dir, FP, COORD_LIMIT, in_bounds, poly_in_bounds, dir_ok, div_trunc, clamp_spec,
    clamp_i128, div_trunc_i64, div_trunc_i128, lemma_mul_bound, lemma_mul_bound2,
    lemma_div_trunc_bounded, lemma_div_trunc_ratio, pip_spec, point_in_polygon, is_closest,
    closest_index, dist_sq, sqrt_floor, lemma_sqrt_floor, lemma_trunc_scaled, lemma_lagrange,
};

verus! {

/// Velocity components saturate here instead of overflowing.
pub const VEL_LIMIT: i64 = 10_000_000;

/// The heading angle (fixed-point radians) saturates here.
pub const ANG_LIMIT: i64 = 1_000_000_000_000;

/// Angular velocity saturates here.
pub const VANG_LIMIT: i64 = 1_000_000_000;

/// Largest magnitude of a body vertex in vehicle-local coordinates.
pub const REL_LIMIT: i64 = 1_000_000;

/// A vehicle's physical and scoring state. All coordinates are fixed-point
/// world units; the heading is a fixed-point angle whose trigonometry the
/// caller evaluates when a [`Dir`] is needed.
pub struct Car {
    /// Body shape in world coordinates, recomputed from the pose.
    pub points: Vec<Point>,
    /// True until a death condition fires; reset turns it back on.
    pub alive: bool,
    /// Body shape in vehicle-local coordinates, fixed after construction.
    pub points_relative: Vec<Point>,
    /// Current position in world units.
    pub position: Point,
    /// Position at the previous tick, for progress-delta computation.
    pub position_last: Point,
    /// Linear velocity in world units per second.
    pub velocity: Point,
    /// Heading angle, fixed-point radians.
    pub angle: i64,
    /// Angular velocity, fixed-point radians per second.
    pub velocity_ang: i64,
    /// Mass, fixed-point; fixed after construction.
    pub mass: i64,
    /// Friction coefficient, fixed-point; fixed after construction.
    pub friction: i64,
    /// Non-negative cumulative reward, clamped at a floor of zero.
    pub score: u128,
    /// Signed progress counter along the track.
    pub distance: i128,
}

/// The per-tick damping factor: `friction * dt / mass`, in fixed-point.
pub open spec fn decay_k(friction: int, dt: int, mass: int) -> int {
    div_trunc(friction * dt, mass)
}

/// One velocity component after linear drag: the component loses the
/// fraction `k / FP` of itself, truncated.
pub open spec fn damped(v: int, k: int) -> int {
    v - div_trunc(v * k, FP as int)
}

/// Where a local body vertex lands in the world: rotated by the heading
/// direction and translated by the position.
pub open spec fn body_point(pos: Point, rel: Point, d: Dir) -> Point {
    Point {
        x: (pos.x + div_trunc(rel.x * d.c + rel.y * d.s, FP as int)) as i64,
        y: (pos.y + div_trunc(rel.x * d.s - rel.y * d.c, FP as int)) as i64,
    }
}

/// The running score after one adjustment: the sum, or zero when the
/// adjustment would drive it negative.
pub open spec fn score_after(score: int, s: int) -> int {
    if score + s >= 0 {
        score + s
    } else {
        0
    }
}

/// Some body vertex is off the corridor: inside the inner boundary, or not
/// inside the outer one.
pub open spec fn hits_wall(pts: Seq<Point>, inner: Seq<Point>, outer: Seq<Point>) -> bool {
    exists|k: int|
        0 <= k < pts.len() && (pip_spec(inner, #[trigger] pts[k]) || !pip_spec(outer, pts[k]))
}

/// The signed progress counter after one sample: the nearest-vertex index
/// delta is added unless it looks like a lap-boundary wraparound artifact.
pub open spec fn progress_step(
    track: Seq<Point>,
    pos: Point,
    last: Point,
    a: int,
    b: int,
    d0: int,
    d1: int,
) -> bool {
    &&& is_closest(track, pos, a)
    &&& is_closest(track, last, b)
    &&& d1 == if -(track.len() as int / 2) < a - b && a - b < track.len() as int / 2 {
        d0 + (a - b)
    } else {
        d0
    }
}

impl Car {
    /// The state every constructor establishes and every method preserves.
    pub open spec fn wf(self) -> bool {
        &&& in_bounds(self.position, COORD_LIMIT as int)
        &&& in_bounds(self.position_last, COORD_LIMIT as int)
        &&& in_bounds(self.velocity, VEL_LIMIT as int)
        &&& -ANG_LIMIT <= self.angle <= ANG_LIMIT
        &&& -VANG_LIMIT <= self.velocity_ang <= VANG_LIMIT
        &&& 1 <= self.mass <= 1_000_000_000
        &&& 0 <= self.friction <= 1_000_000_000
        &&& self.points@.len() == self.points_relative@.len()
        &&& poly_in_bounds(self.points_relative@, REL_LIMIT as int)
        &&& poly_in_bounds(self.points@, 3 * COORD_LIMIT as int)
    }

    pub closed spec fn spec_position(self) -> Point {
        self.position
    }

    pub closed spec fn spec_position_last(self) -> Point {
        self.position_last
    }

    pub closed spec fn spec_velocity(self) -> Point {
        self.velocity
    }

    pub closed spec fn spec_angle(self) -> int {
        self.angle as int
    }

    pub closed spec fn spec_velocity_ang(self) -> int {
        self.velocity_ang as int
    }

    pub closed spec fn spec_mass(self) -> int {
        self.mass as int
    }

    pub closed spec fn spec_friction(self) -> int {
        self.friction as int
    }

    pub closed spec fn spec_score(self) -> int {
        self.score as int
    }

    pub closed spec fn spec_distance(self) -> int {
        self.distance as int
    }

    pub closed spec fn spec_rel(self) -> Seq<Point> {
        self.points_relative@
    }

    /// A fresh vehicle at the given pose: the world body starts as a copy
    /// of the local shape, velocities, score and distance start at zero,
    /// and the vehicle is alive.
    pub fn new(points_relative: Vec<Point>, position: Point, angle: i64, mass: i64, friction: i64)
        -> (r: Car)
        requires
            in_bounds(position, COORD_LIMIT as int),
            -ANG_LIMIT <= angle <= ANG_LIMIT,
            1 <= mass <= 1_000_000_000,
            0 <= friction <= 1_000_000_000,
            poly_in_bounds(points_relative@, REL_LIMIT as int),
        ensures
            r.wf(),
            r.spec_position() == position,
            r.spec_position_last() == position,
            r.spec_velocity() == (Point { x: 0i64, y: 0i64 }),
            r.spec_angle() == angle,
            r.spec_velocity_ang() == 0,
            r.spec_mass() == mass,
            r.spec_friction() == friction,
            r.spec_score() == 0,
            r.spec_distance() == 0,
            r.alive,
            r.spec_rel() == points_relative@,
            r.points@ == points_relative@,
    {
        let points: Vec<Point> = crate::track::copy_points(&points_relative);
        proof {
            assert forall|i: int| 0 <= i < points@.len() implies in_bounds(
                points@[i],
                3 * COORD_LIMIT as int,
            ) by {
                assert(in_bounds(points_relative@[i], REL_LIMIT as int));
            }
        }
        Car {
            points,
            alive: true,
            points_relative,
            position,
            position_last: position,
            velocity: Point { x: 0, y: 0 },
            angle,
            velocity_ang: 0,
            mass,
            friction,
            score: 0,
            distance: 0,
        }
    }

    /// One tick of damping and explicit Euler integration: velocities decay
    /// by the linear drag factor, then the position and heading advance by
    /// the damped velocities; the previous position is kept for progress
    /// tracking. The body transform is a separate step, `place_body`,
    /// because it needs the new heading's trigonometry from the caller.
    pub fn update(&mut self, dt: i64)
        requires
            old(self).wf(),
            0 <= dt <= FP,
        ensures
            final(self).wf(),
            final(self).spec_position_last() == old(self).spec_position(),
            ({
                let k = decay_k(old(self).spec_friction(), dt as int, old(self).spec_mass());
                &&& final(self).spec_velocity().x == clamp_spec(
                    damped(old(self).spec_velocity().x as int, k),
                    -VEL_LIMIT as int,
                    VEL_LIMIT as int,
                )
                &&& final(self).spec_velocity().y == clamp_spec(
                    damped(old(self).spec_velocity().y as int, k),
                    -VEL_LIMIT as int,
                    VEL_LIMIT as int,
                )
                &&& final(self).spec_velocity_ang() == clamp_spec(
                    damped(old(self).spec_velocity_ang(), k),
                    -VANG_LIMIT as int,
                    VANG_LIMIT as int,
                )
                &&& final(self).spec_position().x == clamp_spec(
                    old(self).spec_position().x + div_trunc(
                        final(self).spec_velocity().x * dt,
                        FP as int,
                    ),
                    -COORD_LIMIT as int,
                    COORD_LIMIT as int,
                )
                &&& final(self).spec_position().y == clamp_spec(
                    old(self).spec_position().y + div_trunc(
                        final(self).spec_velocity().y * dt,
                        FP as int,
                    ),
                    -COORD_LIMIT as int,
                    COORD_LIMIT as int,
                )
                &&& final(self).spec_angle() == clamp_spec(
                    old(self).spec_angle() + div_trunc(
                        final(self).spec_velocity_ang() * dt,
                        FP as int,
                    ),
                    -ANG_LIMIT as int,
                    ANG_LIMIT as int,
                )
            }),
            final(self).spec_score() == old(self).spec_score(),
            final(self).spec_distance() == old(self).spec_distance(),
            final(self).alive == old(self).alive,
            final(self).points@ == old(self).points@,
            final(self).spec_rel() == old(self).spec_rel(),
            final(self).spec_mass() == old(self).spec_mass(),
            final(self).spec_friction() == old(self).spec_friction(),
    {
        self.position_last = self.position;
        proof {
            lemma_mul_bound(self.friction as int, dt as int, 1_000_000_000);
        }
        let k: i64 = div_trunc_i64(self.friction * dt, self.mass);
        proof {
            lemma_div_trunc_bounded(
                (self.friction * dt) as int,
                self.mass as int,
                1_000_000_000_000_000_000,
            );
            lemma_mul_bound(self.velocity.x as int, k as int, 1_000_000_000_000_000_000);
            lemma_mul_bound(self.velocity.y as int, k as int, 1_000_000_000_000_000_000);
            lemma_mul_bound(self.velocity_ang as int, k as int, 1_000_000_000_000_000_000);
        }
        let vx: i64 = clamp_i128(
            (self.velocity.x as i128) - div_trunc_i128(
                (self.velocity.x as i128) * (k as i128),
                FP as i128,
            ),
            -VEL_LIMIT,
            VEL_LIMIT,
        );
        let vy: i64 = clamp_i128(
            (self.velocity.y as i128) - div_trunc_i128(
                (self.velocity.y as i128) * (k as i128),
                FP as i128,
            ),
            -VEL_LIMIT,
            VEL_LIMIT,
        );
        let va: i64 = clamp_i128(
            (self.velocity_ang as i128) - div_trunc_i128(
                (self.velocity_ang as i128) * (k as i128),
                FP as i128,
            ),
            -VANG_LIMIT,
            VANG_LIMIT,
        );
        self.velocity = Point { x: vx, y: vy };
        self.velocity_ang = va;
        proof {
            lemma_mul_bound(vx as int, dt as int, 10_000_000_000);
            lemma_mul_bound(vy as int, dt as int, 10_000_000_000);
            lemma_mul_bound(va as int, dt as int, 10_000_000_000);
        }
        let px: i64 = clamp_i128(
            (self.position.x as i128) + div_trunc_i128((vx as i128) * (dt as i128), FP as i128),
            -COORD_LIMIT,
            COORD_LIMIT,
        );
        let py: i64 = clamp_i128(
            (self.position.y as i128) + div_trunc_i128((vy as i128) * (dt as i128), FP as i128),
            -COORD_LIMIT,
            COORD_LIMIT,
        );
        let an: i64 = clamp_i128(
            (self.angle as i128) + div_trunc_i128((va as i128) * (dt as i128), FP as i128),
            -ANG_LIMIT,
            ANG_LIMIT,
        );
        self.position = Point { x: px, y: py };
        self.angle = an;
    }

    /// Recompute every world-frame body vertex from the local shape, the
    /// position and the heading direction `d` (the caller evaluates the
    /// heading's cosine and sine).
    pub fn place_body(&mut self, d: &Dir)
        requires
            old(self).wf(),
            dir_ok(*d),
        ensures
            final(self).wf(),
            final(self).points@.len() == old(self).points@.len(),
            forall|k: int|
                0 <= k < old(self).points@.len() ==> final(self).points@[k] == body_point(
                    old(self).spec_position(),
                    old(self).spec_rel()[k],
                    *d,
                ),
            final(self).spec_position() == old(self).spec_position(),
            final(self).spec_position_last() == old(self).spec_position_last(),
            final(self).spec_velocity() == old(self).spec_velocity(),
            final(self).spec_angle() == old(self).spec_angle(),
            final(self).spec_velocity_ang() == old(self).spec_velocity_ang(),
            final(self).spec_score() == old(self).spec_score(),
            final(self).spec_distance() == old(self).spec_distance(),
            final(self).alive == old(self).alive,
            final(self).spec_rel() == old(self).spec_rel(),
            final(self).spec_mass() == old(self).spec_mass(),
            final(self).spec_friction() == old(self).spec_friction(),
    {
        let n: usize = self.points_relative.len();
        let mut pts: Vec<Point> = Vec::new();
        for i in 0..n
            invariant
                n == self.points_relative@.len(),
                self.wf(),
                dir_ok(*d),
                pts@.len() == i,
                forall|k: int|
                    0 <= k < i ==> pts@[k] == body_point(
                        self.spec_position(),
                        self.spec_rel()[k],
                        *d,
                    ),
                forall|k: int| 0 <= k < i ==> in_bounds(#[trigger] pts@[k], 3 * COORD_LIMIT as int),
        {
            let rel: Point = self.points_relative[i];
            proof {
                lemma_mul_bound2(rel.x as int, d.c as int, 1_000_000, FP as int);
                lemma_mul_bound2(rel.y as int, d.s as int, 1_000_000, FP as int);
                lemma_mul_bound2(rel.x as int, d.s as int, 1_000_000, FP as int);
                lemma_mul_bound2(rel.y as int, d.c as int, 1_000_000, FP as int);
                lemma_div_trunc_ratio(
                    (rel.x * d.c + rel.y * d.s) as int,
                    FP as int,
                    2_000_000,
                );
                lemma_div_trunc_ratio(
                    (rel.x * d.s - rel.y * d.c) as int,
                    FP as int,
                    2_000_000,
                );
            }
            let ox: i64 = div_trunc_i64(rel.x * d.c + rel.y * d.s, FP);
            let oy: i64 = div_trunc_i64(rel.x * d.s - rel.y * d.c, FP);
            pts.push(Point { x: self.position.x + ox, y: self.position.y + oy });
        }
        self.points = pts;
    }

    /// Forward thrust: accelerate along the axis a quarter turn
    /// counterclockwise of the heading (the same forward convention the
    /// sensor fan uses), scaled by the inverse mass and the time step.
    pub fn acc_forward(&mut self, acc: i64, dt: i64, d: &Dir)
        requires
            old(self).wf(),
            -1_000_000_000 <= acc <= 1_000_000_000,
            0 <= dt <= FP,
            dir_ok(*d),
        ensures
            final(self).wf(),
            final(self).spec_velocity().x == clamp_spec(
                old(self).spec_velocity().x - div_trunc(
                    div_trunc(acc * dt, FP as int) * d.s,
                    old(self).spec_mass(),
                ),
                -VEL_LIMIT as int,
                VEL_LIMIT as int,
            ),
            final(self).spec_velocity().y == clamp_spec(
                old(self).spec_velocity().y + div_trunc(
                    div_trunc(acc * dt, FP as int) * d.c,
                    old(self).spec_mass(),
                ),
                -VEL_LIMIT as int,
                VEL_LIMIT as int,
            ),
            *final(self) == (Car {
                velocity: final(self).velocity,
                ..*old(self)
            }),
    {
        proof {
            lemma_mul_bound2(acc as int, dt as int, 1_000_000_000, FP as int);
        }
        let t1: i64 = div_trunc_i64(acc * dt, FP);
        proof {
            lemma_div_trunc_ratio((acc * dt) as int, FP as int, 1_000_000_000);
            lemma_mul_bound2(t1 as int, d.s as int, 1_000_000_000, FP as int);
            lemma_mul_bound2(t1 as int, d.c as int, 1_000_000_000, FP as int);
        }
        let dx: i64 = div_trunc_i64(t1 * d.s, self.mass);
        let dy: i64 = div_trunc_i64(t1 * d.c, self.mass);
        let vx: i64 = clamp_i128((self.velocity.x as i128) - (dx as i128), -VEL_LIMIT, VEL_LIMIT);
        let vy: i64 = clamp_i128((self.velocity.y as i128) + (dy as i128), -VEL_LIMIT, VEL_LIMIT);
        self.velocity = Point { x: vx, y: vy };
    }

    /// Angular thrust: accelerate the angular velocity, scaled by the
    /// inverse mass and the time step.
    pub fn acc_ang(&mut self, acc: i64, dt: i64)
        requires
            old(self).wf(),
            -1_000_000_000 <= acc <= 1_000_000_000,
            0 <= dt <= FP,
        ensures
            final(self).wf(),
            final(self).spec_velocity_ang() == clamp_spec(
                old(self).spec_velocity_ang() + div_trunc(
                    div_trunc(acc * dt, FP as int),
                    old(self).spec_mass(),
                ),
                -VANG_LIMIT as int,
                VANG_LIMIT as int,
            ),
            *final(self) == (Car {
                velocity_ang: final(self).velocity_ang,
                ..*old(self)
            }),
    {
        proof {
            lemma_mul_bound2(acc as int, dt as int, 1_000_000_000, FP as int);
        }
        let t1: i64 = div_trunc_i64(acc * dt, FP);
        proof {
            lemma_div_trunc_ratio((acc * dt) as int, FP as int, 1_000_000_000);
        }
        let dv: i64 = div_trunc_i64(t1, self.mass);
        proof {
            lemma_div_trunc_bounded(t1 as int, self.mass as int, 1_000_000_000);
        }
        let va: i64 = clamp_i128(
            (self.velocity_ang as i128) + (dv as i128),
            -VANG_LIMIT,
            VANG_LIMIT,
        );
        self.velocity_ang = va;
    }

    /// Reset to a start pose for a new generation: velocities, score and
    /// distance return to their initial values and the vehicle is alive
    /// again; the shape and physical constants are kept.
    pub fn reset(&mut self, pos: Point, angle: i64)
        requires
            old(self).wf(),
            in_bounds(pos, COORD_LIMIT as int),
            -ANG_LIMIT <= angle <= ANG_LIMIT,
        ensures
            final(self).wf(),
            final(self).spec_position() == pos,
            final(self).spec_position_last() == pos,
            final(self).spec_angle() == angle,
            final(self).spec_velocity() == (Point { x: 0i64, y: 0i64 }),
            final(self).spec_velocity_ang() == 0,
            final(self).spec_score() == 0,
            final(self).spec_distance() == 0,
            final(self).alive,
            final(self).points@ == old(self).points@,
            final(self).spec_rel() == old(self).spec_rel(),
            final(self).spec_mass() == old(self).spec_mass(),
            final(self).spec_friction() == old(self).spec_friction(),
    {
        self.position = pos;
        self.position_last = pos;
        self.angle = angle;
        self.velocity_ang = 0;
        self.velocity = Point { x: 0, y: 0 };
        self.score = 0;
        self.distance = 0;
        self.alive = true;
    }

    /// Adjust the running score; an adjustment that would drive it below
    /// zero clamps it to zero instead.
    pub fn add_score(&mut self, s: i128)
        requires
            s > i128::MIN,
            old(self).spec_score() + s <= u128::MAX,
        ensures
            final(self).spec_score() == score_after(old(self).spec_score(), s as int),
            final(self).spec_score() >= 0,
            *final(self) == (Car {
                score: final(self).score,
                ..*old(self)
            }),
    {
        if s >= 0 {
            self.score = self.score + (s as u128);
        } else {
            let d: u128 = (-s) as u128;
            if d > self.score {
                self.score = 0;
            } else {
                self.score = self.score - d;
            }
        }
    }

    /// Add a signed amount to the progress counter.
    pub fn add_dst(&mut self, s: i128)
        requires
            i128::MIN <= old(self).spec_distance() + s <= i128::MAX,
        ensures
            final(self).spec_distance() == old(self).spec_distance() + s,
            *final(self) == (Car {
                distance: final(self).distance,
                ..*old(self)
            }),
    {
        self.distance = self.distance + s;
    }

    /// One progress sample: the nearest-track-vertex index delta between
    /// the current and previous position is added to the distance counter,
    /// unless its magnitude reaches half the track length, which marks a
    /// lap-boundary wraparound artifact to be discarded.
    pub fn update_progress(&mut self, track: &Vec<Point>)
        requires
            old(self).wf(),
            1 <= track@.len() <= 1_000_000,
            poly_in_bounds(track@, COORD_LIMIT as int),
            i128::MIN + 1_000_000 <= old(self).spec_distance() <= i128::MAX - 1_000_000,
        ensures
            exists|a: int, b: int|
                progress_step(
                    track@,
                    old(self).spec_position(),
                    old(self).spec_position_last(),
                    a,
                    b,
                    old(self).spec_distance(),
                    final(self).spec_distance(),
                ),
            *final(self) == (Car {
                distance: final(self).distance,
                ..*old(self)
            }),
    {
        let ca: usize = closest_index(&self.position, track);
        let cb: usize = closest_index(&self.position_last, track);
        let id: i64 = (ca as i64) - (cb as i64);
        let threshold: i64 = (track.len() / 2) as i64;
        if id > -threshold && id < threshold {
            self.distance = self.distance + (id as i128);
        }
        proof {
            assert(progress_step(
                track@,
                old(self).spec_position(),
                old(self).spec_position_last(),
                ca as int,
                cb as int,
                old(self).spec_distance(),
                self.spec_distance(),
            ));
        }
    }

    /// Evaluate the death predicate against the two boundaries: a vehicle
    /// with a body vertex inside the inner boundary or outside the outer
    /// one, or one flagged as starved of progress, dies; death is
    /// irreversible until the next reset.
    pub fn check_death(&mut self, inner: &Vec<Point>, outer: &Vec<Point>, is_starved: bool)
        requires
            old(self).wf(),
            poly_in_bounds(inner@, COORD_LIMIT as int),
            poly_in_bounds(outer@, COORD_LIMIT as int),
        ensures
            final(self).alive == (old(self).alive && !(hits_wall(
                old(self).points@,
                inner@,
                outer@,
            ) || (old(self).points@.len() > 0 && is_starved))),
            *final(self) == (Car {
                alive: final(self).alive,
                ..*old(self)
            }),
    {
        if !self.alive {
            return ;
        }
        let off: bool = any_off_corridor(&self.points, inner, outer);
        let dead: bool = off || (self.points.len() > 0 && is_starved);
        self.alive = !dead;
    }

    /// Whether the vehicle has fallen behind the expected pace: the
    /// progress magnitude plus a small margin is short of the quota.
    pub fn starved(&self, pace: i128, margin: i128) -> (r: bool)
        requires
            0 <= margin <= 1_000_000_000,
            -1_000_000_000_000_000_000 <= pace <= 1_000_000_000_000_000_000,
            self.spec_distance() > i128::MIN,
        ensures
            r == ((if self.spec_distance() >= 0 {
                self.spec_distance()
            } else {
                -self.spec_distance()
            }) + margin < pace),
    {
        let ad: i128 = if self.distance >= 0 {
            self.distance
        } else {
            -self.distance
        };
        ad < pace - margin
    }

    pub fn get_angle(&self) -> (r: i64)
        ensures
            r == self.spec_angle(),
    {
        self.angle
    }

    pub fn get_position(&self) -> (r: Point)
        ensures
            r == self.spec_position(),
    {
        self.position
    }

    pub fn get_position_last(&self) -> (r: Point)
        ensures
            r == self.spec_position_last(),
    {
        self.position_last
    }

    pub fn get_score(&self) -> (r: u128)
        ensures
            r == self.spec_score(),
    {
        self.score
    }

    pub fn get_dst(&self) -> (r: i128)
        ensures
            r == self.spec_distance(),
    {
        self.distance
    }

    pub fn get_velocity(&self) -> (r: Point)
        ensures
            r == self.spec_velocity(),
    {
        self.velocity
    }

    pub fn get_velocity_ang(&self) -> (r: i64)
        ensures
            r == self.spec_velocity_ang(),
    {
        self.velocity_ang
    }
}

/// Whether any vertex of `pts` is off the corridor bounded by the two
/// boundary loops; decides [`hits_wall`].
pub fn any_off_corridor(pts: &Vec<Point>, inner: &Vec<Point>, outer: &Vec<Point>) -> (r: bool)
    requires
        poly_in_bounds(pts@, 3 * COORD_LIMIT as int),
        poly_in_bounds(inner@, COORD_LIMIT as int),
        poly_in_bounds(outer@, COORD_LIMIT as int),
    ensures
        r == hits_wall(pts@, inner@, outer@),
{
    let n: usize = pts.len();
    let mut found: bool = false;
    for k in 0..n
        invariant
            n == pts@.len(),
            poly_in_bounds(pts@, 3 * COORD_LIMIT as int),
            poly_in_bounds(inner@, COORD_LIMIT as int),
            poly_in_bounds(outer@, COORD_LIMIT as int),
            found == (exists|j: int|
                0 <= j < k && (pip_spec(inner@, #[trigger] pts@[j]) || !pip_spec(
                    outer@,
                    pts@[j],
                ))),
    {
        let p: Point = pts[k];
        let inside_inner: bool = point_in_polygon(&p, inner);
        let inside_outer: bool = point_in_polygon(&p, outer);
        if inside_inner || !inside_outer {
            found = true;
            proof {
                assert(pip_spec(inner@, pts@[k as int]) || !pip_spec(outer@, pts@[k as int]));
            }
        }
    }
    found
}

/// The body transform is a near-isometry: each world vertex lands at its
/// local vertex's distance from the position, within the rounding
/// tolerance of the fixed-point scales (the direction's norm is pinned
/// near one by `dir_ok`; each offset component is truncated).
pub proof fn lemma_body_point_isometric(pos: Point, rel: Point, d: Dir)
    requires
        in_bounds(pos, COORD_LIMIT as int),
        in_bounds(rel, REL_LIMIT as int),
        dir_ok(d),
    ensures
        ({
            let rl = sqrt_floor(rel.x * rel.x + rel.y * rel.y);
            &&& dist_sq(pos, body_point(pos, rel, d)) < (rl + 100) * (rl + 100)
            &&& rl >= 100 ==> (rl - 100) * (rl - 100) < dist_sq(pos, body_point(pos, rel, d))
        }),
{
    let a = rel.x * d.c + rel.y * d.s;
    let b = rel.x * d.s - rel.y * d.c;
    let srel = rel.x * rel.x + rel.y * rel.y;
    let ncc = d.c * d.c + d.s * d.s;
    lemma_lagrange(rel.x as int, rel.y as int, d.c as int, d.s as int);
    assert(b * b == (rel.y * d.c - rel.x * d.s) * (rel.y * d.c - rel.x * d.s))
        by (nonlinear_arith)
        requires
            b == rel.x * d.s - rel.y * d.c,
    ;
    assert(a * a + b * b == srel * ncc);
    assert(srel >= 0 && a * a >= 0 && b * b >= 0) by (nonlinear_arith)
        requires
            srel == rel.x * rel.x + rel.y * rel.y,
    ;
    lemma_sqrt_floor(srel);
    let rl = sqrt_floor(srel);
    if rl > 1_414_214 {
        lemma_mul_bound(rel.x as int, rel.x as int, 1_000_000);
        lemma_mul_bound(rel.y as int, rel.y as int, 1_000_000);
        assert(1_414_215 * 1_414_215 <= rl * rl) by (nonlinear_arith)
            requires
                rl >= 1_414_215,
        ;
        assert(false);
    }
    let ox = div_trunc(a, FP as int);
    let oy = div_trunc(b, FP as int);
    lemma_mul_bound2(rel.x as int, d.c as int, 1_000_000, FP as int);
    lemma_mul_bound2(rel.y as int, d.s as int, 1_000_000, FP as int);
    lemma_mul_bound2(rel.x as int, d.s as int, 1_000_000, FP as int);
    lemma_mul_bound2(rel.y as int, d.c as int, 1_000_000, FP as int);
    lemma_div_trunc_ratio(a, FP as int, 2_000_000);
    lemma_div_trunc_ratio(b, FP as int, 2_000_000);
    let q = body_point(pos, rel, d);
    assert(q.x == pos.x + ox && q.y == pos.y + oy);
    assert(dist_sq(pos, q) == ox * ox + oy * oy) by (nonlinear_arith)
        requires
            q.x - pos.x == ox && q.y - pos.y == oy,
    ;
    lemma_trunc_scaled(a, FP as int);
    lemma_trunc_scaled(b, FP as int);
    let fp2 = (FP as int) * (FP as int);
    assert((ox * ox + oy * oy) * fp2 == ox * ox * fp2 + oy * oy * fp2) by (nonlinear_arith);
    assert((ox * ox + oy * oy) * fp2 <= srel * ncc);
    assert(srel * ncc <= srel * (FP * FP + 3 * FP)) by (nonlinear_arith)
        requires
            srel >= 0 && ncc <= FP * FP + 3 * FP,
    ;
    assert(srel * (FP * FP + 3 * FP) < ((rl + 100) * (rl + 100)) * fp2) by (nonlinear_arith)
        requires
            0 <= srel < (rl + 1) * (rl + 1) && 0 <= rl <= 1_414_214 && FP == 65536 && fp2 == (FP
                as int) * (FP as int),
    ;
    assert(ox * ox + oy * oy < (rl + 100) * (rl + 100)) by (nonlinear_arith)
        requires
            (ox * ox + oy * oy) * fp2 < ((rl + 100) * (rl + 100)) * fp2 && fp2 > 0,
    ;
    if rl >= 100 {
        let aa = if a >= 0 { a } else { -a };
        let bb = if b >= 0 { b } else { -b };
        let cap = (rl + 1) * (FP + 2);
        assert(srel * ncc < cap * cap) by (nonlinear_arith)
            requires
                0 <= srel < (rl + 1) * (rl + 1) && 0 <= ncc <= (FP + 2) * (FP + 2) && cap == (rl
                    + 1) * (FP + 2) && rl >= 0 && FP == 65536,
        ;
        assert(aa * aa == a * a && bb * bb == b * b && aa >= 0 && bb >= 0) by (nonlinear_arith)
            requires
                aa == (if a >= 0 { a } else { -a }) && bb == (if b >= 0 { b } else { -b }),
        ;
        assert(aa <= cap && bb <= cap) by (nonlinear_arith)
            requires
                aa * aa < cap * cap && bb * bb < cap * cap && cap > 0 && aa >= 0 && bb >= 0,
        ;
        assert((ox * ox + oy * oy) * fp2 >= srel * ncc - 2 * aa * (FP as int) - 2 * bb * (FP
            as int));
        assert(2 * aa * (FP as int) + 2 * bb * (FP as int) <= 4 * cap * (FP as int))
            by (nonlinear_arith)
            requires
                aa <= cap && bb <= cap && FP == 65536,
        ;
        assert(srel * ncc >= (rl * rl) * (FP * FP - 3 * FP)) by (nonlinear_arith)
            requires
                srel >= rl * rl && ncc >= FP * FP - 3 * FP && rl >= 0 && srel >= 0 && FP
                    == 65536,
        ;
        assert((rl * rl) * (FP * FP - 3 * FP) - 4 * ((rl + 1) * (FP + 2)) * (FP as int) > ((rl
            - 100) * (rl - 100)) * fp2) by (nonlinear_arith)
            requires
                100 <= rl <= 1_414_214 && FP == 65536 && fp2 == (FP as int) * (FP as int),
        ;
        assert((rl - 100) * (rl - 100) < ox * ox + oy * oy) by (nonlinear_arith)
            requires
                ((rl - 100) * (rl - 100)) * fp2 < (ox * ox + oy * oy) * fp2 && fp2 > 0,
        ;
    }
}

/// Reading of the death predicate: any body vertex outside the outer
/// boundary marks the vehicle as hitting the wall, so the next death
/// evaluation reports it not alive.
pub proof fn lemma_outside_outer_kills(
    pts: Seq<Point>,
    inner: Seq<Point>,
    outer: Seq<Point>,
    k: int,
)
    requires
        0 <= k < pts.len(),
        !pip_spec(outer, pts[k]),
    ensures
        hits_wall(pts, inner, outer),
{
    assert(pip_spec(inner, pts[k]) || !pip_spec(outer, pts[k]));
}

/// Reading of the score floor: one adjustment from a nonnegative score
/// never lands below zero, so no sequence of adjustments can.
pub proof fn lemma_score_floor(score: int, s: int)
    requires
        score >= 0,
    ensures
        score_after(score, s) >= 0,
{
}

} // verus!
