use tracksim::car::Car;
use tracksim::geom::{Dir, Point, FP};
use tracksim::select::{alive_count, best_index, boundary_due, pick_source, select_source, total_sq_weight};
use tracksim::sensor::{raycast, raywrap, SENTINEL_COORD, SENTINEL_DIST};
use rand::{RngExt, SeedableRng};

fn east() -> Dir {
    Dir { c: FP, s: 0 }
}

fn square(side: i64) -> Vec<Point> {
    vec![
        Point::new(0, 0),
        Point::new(side, 0),
        Point::new(side, side),
        Point::new(0, side),
    ]
}

fn corridor() -> (Vec<Point>, Vec<Point>) {
    // inner boundary well inside the outer one
    let inner = vec![
        Point::new(400, 400),
        Point::new(600, 400),
        Point::new(600, 600),
        Point::new(400, 600),
    ];
    (inner, square(1000))
}

#[test]
fn raycast_reports_nearest_hit_point_and_distance() {
    let poly = square(10);
    let hit = raycast(&Point::new(5, 5), &east(), &poly);
    assert_eq!(hit, Some((Point::new(10, 5), 5)));
}

#[test]
fn raycast_misses_a_polygon_behind_the_ray() {
    let poly = square(10);
    let hit = raycast(&Point::new(100, 100), &east(), &poly);
    assert_eq!(hit, None);
}

#[test]
fn sensor_keeps_the_nearer_of_the_two_boundaries() {
    let (inner, outer) = corridor();
    // from between the boundaries, looking east: inner wall at x=400 is
    // behind, outer wall at x=1000 is ahead
    let (dsts, pts) = raywrap(&Point::new(700, 500), &vec![east()], &outer, &inner);
    assert_eq!(dsts.len(), 1);
    assert_eq!(dsts[0], 300);
    assert_eq!(pts[0], Point::new(1000, 500));
}

#[test]
fn sensor_sentinel_for_a_ray_that_hits_nothing() {
    let poly = square(10);
    let (dsts, pts) = raywrap(&Point::new(100, 100), &vec![east()], &poly, &poly);
    assert_eq!(dsts[0], SENTINEL_DIST);
    assert_eq!(pts[0], Point::new(SENTINEL_COORD, SENTINEL_COORD));
}

fn test_car(position: Point) -> Car {
    let body = vec![
        Point::new(-13_000, -20_000),
        Point::new(13_000, -20_000),
        Point::new(13_000, 20_000),
        Point::new(-13_000, 20_000),
    ];
    Car::new(body, position, 0, FP, 58_982)
}

#[test]
fn still_car_with_no_thrust_does_not_move() {
    let (inner, outer) = corridor();
    let mut car = Car::new(vec![Point::new(0, 0)], Point::new(200, 200), 0, FP, 58_982);
    car.place_body(&east());
    car.acc_forward(0, FP / 30, &east());
    car.acc_ang(0, FP / 30);
    car.update(FP / 30);
    assert_eq!(car.get_position(), Point::new(200, 200));
    assert_eq!(car.get_velocity(), Point::new(0, 0));
    car.place_body(&east());
    car.check_death(&inner, &outer, false);
    assert!(car.alive);
}

#[test]
fn vehicle_outside_outer_boundary_dies_on_evaluation() {
    let (inner, outer) = corridor();
    let mut car = Car::new(vec![Point::new(0, 0)], Point::new(5000, 5000), 0, FP, 58_982);
    car.place_body(&east());
    assert!(car.alive);
    car.check_death(&inner, &outer, false);
    assert!(!car.alive);
    // death is irreversible until reset
    car.check_death(&inner, &outer, false);
    assert!(!car.alive);
    car.reset(Point::new(200, 200), 0);
    assert!(car.alive);
}

#[test]
fn vehicle_inside_inner_boundary_dies_on_evaluation() {
    let (inner, outer) = corridor();
    let mut car = Car::new(vec![Point::new(0, 0)], Point::new(500, 500), 0, FP, 58_982);
    car.place_body(&east());
    car.check_death(&inner, &outer, false);
    assert!(!car.alive);
}

#[test]
fn starved_vehicle_dies_even_inside_the_corridor() {
    let (inner, outer) = corridor();
    let mut car = Car::new(vec![Point::new(0, 0)], Point::new(200, 200), 0, FP, 58_982);
    car.place_body(&east());
    let starved = car.starved(1_000, 3);
    assert!(starved); // zero progress is far behind a quota of 1000
    car.check_death(&inner, &outer, starved);
    assert!(!car.alive);
}

#[test]
fn body_transform_keeps_vertex_distances() {
    // the world vertex sits at the local vertex's distance from the
    // position, within the fixed-point rounding tolerance
    let rel = Point::new(13_000, 20_000);
    let rl = tracksim::geom::distance(&Point::new(0, 0), &rel); // 23853
    let mut car = Car::new(vec![rel], Point::new(200_000, 100_000), 0, FP, 58_982);
    car.place_body(&east());
    let w = car.points[0];
    let dx = w.x - 200_000;
    let dy = w.y - 100_000;
    let d2 = dx * dx + dy * dy;
    assert!((rl - 100) * (rl - 100) < d2, "{d2}");
    assert!(d2 < (rl + 100) * (rl + 100), "{d2}");
}

#[test]
fn forward_projection_never_exceeds_speed() {
    let v = Point::new(-4_321, 9_876);
    let speed = v.length();
    for dir in [east(), Dir { c: 0, s: -FP }, Dir { c: 46_341, s: 46_341 }] {
        let p = v.length_project(&dir);
        assert!(-(speed + 600) <= p && p <= speed + 600, "{p} vs {speed}");
    }
}

#[test]
fn score_floor_never_goes_below_zero() {
    let mut car = test_car(Point::new(200, 200));
    assert_eq!(car.get_score(), 0);
    car.add_score(-5);
    assert_eq!(car.get_score(), 0);
    car.add_score(10);
    car.add_score(-3);
    assert_eq!(car.get_score(), 7);
    for _ in 0..100 {
        car.add_score(-4);
    }
    assert_eq!(car.get_score(), 0);
}

#[test]
fn forward_thrust_accelerates_along_the_forward_axis() {
    let mut car = test_car(Point::new(200_000, 200_000));
    // heading angle 0: forward is a quarter turn counterclockwise, +y
    car.acc_forward(FP, FP, &east());
    assert_eq!(car.get_velocity(), Point::new(0, FP));
    car.acc_ang(FP, FP);
    assert_eq!(car.get_velocity_ang(), 1);
}

#[test]
fn full_damping_stops_the_vehicle_in_one_tick() {
    // friction * dt == mass: the drag factor removes the whole velocity
    let mut car = Car::new(vec![Point::new(0, 0)], Point::new(200, 200), 0, FP, FP);
    car.acc_forward(FP, FP, &east());
    assert_eq!(car.get_velocity(), Point::new(0, FP));
    car.update(FP);
    assert_eq!(car.get_velocity(), Point::new(0, 0));
    assert_eq!(car.get_position(), Point::new(200, 200));
    assert_eq!(car.get_position_last(), Point::new(200, 200));
}

#[test]
fn progress_counter_follows_nearest_track_vertex() {
    let track: Vec<Point> = (0..10).map(|i| Point::new(i * 100, 0)).collect();
    let mut car = test_car(Point::new(0, 10));
    car.update(FP / 30); // position_last catches up with position
    // manually walk the car two vertices forward
    let mut car2 = test_car(Point::new(210, 10));
    car2.position_last = Point::new(0, 10);
    car2.update_progress(&track);
    assert_eq!(car2.get_dst(), 2);
    // a jump of half the track reads as wraparound noise and is dropped
    let mut car3 = test_car(Point::new(900, 10));
    car3.position_last = Point::new(0, 10);
    car3.update_progress(&track);
    assert_eq!(car3.get_dst(), 0);
    car.update_progress(&track);
    assert_eq!(car.get_dst(), 0);
}

#[test]
fn selection_walks_cumulative_weight_buckets() {
    let scores: Vec<u128> = vec![1, 2, 3]; // squared weights 1, 4, 9
    assert_eq!(total_sq_weight(&scores), 14);
    assert_eq!(select_source(&scores, 0), 0);
    assert_eq!(select_source(&scores, 1), 1);
    assert_eq!(select_source(&scores, 4), 1);
    assert_eq!(select_source(&scores, 5), 2);
    assert_eq!(select_source(&scores, 13), 2);
    // rounding fallback: a draw at or past the total takes the last index
    assert_eq!(select_source(&scores, 14), 2);
}

#[test]
fn selection_frequency_tracks_squared_weights() {
    let scores: Vec<u128> = vec![1, 2, 3];
    let total = total_sq_weight(&scores);
    let mut rng = rand_chacha::ChaCha8Rng::seed_from_u64(42);
    let draws: usize = 14_000;
    let mut counts = [0usize; 3];
    for _ in 0..draws {
        let d: u128 = rng.random_range(0..total);
        counts[select_source(&scores, d)] += 1;
    }
    // expected 1000 / 4000 / 9000, allow generous sampling error
    assert!(counts[0].abs_diff(1_000) < 300, "{counts:?}");
    assert!(counts[1].abs_diff(4_000) < 500, "{counts:?}");
    assert!(counts[2].abs_diff(9_000) < 500, "{counts:?}");
}

#[test]
fn zero_total_weight_falls_back_to_uniform_choice() {
    let scores: Vec<u128> = vec![0, 0, 0, 0];
    let mut rng = rand_chacha::ChaCha8Rng::seed_from_u64(3);
    let mut seen = [false; 4];
    for _ in 0..200 {
        let r = pick_source(&scores, &mut rng);
        assert!(r < 4);
        seen[r] = true;
    }
    assert!(seen.iter().all(|s| *s));
}

#[test]
fn best_index_finds_the_first_maximum() {
    assert_eq!(best_index(&vec![3, 9, 2, 9]), 1);
    assert_eq!(best_index(&vec![5]), 0);
}

#[test]
fn alive_count_counts_true_flags() {
    assert_eq!(alive_count(&vec![true, false, true, true]), 3);
    assert_eq!(alive_count(&vec![]), 0);
}

#[test]
fn generation_boundary_fires_on_schedule_or_extinction() {
    assert!(!boundary_due(19, 20, 3, 0, 5));
    assert!(boundary_due(21, 20, 3, 0, 5));
    assert!(!boundary_due(25, 20, 3, 2, 5));
    assert!(boundary_due(27, 20, 3, 2, 5));
    assert!(boundary_due(0, 20, 3, 0, 0));
}
