use tracksim::geom::{average_distance, closest_index, distance, isqrt, move_perp, point_in_polygon, Point};
use tracksim::track::{calculate_convex_hull, chaikin_corner_cutting, dualise, gen_track, is_hull_of, orientation, start_position};
use rand::SeedableRng;

fn square(side: i64) -> Vec<Point> {
    vec![
        Point::new(0, 0),
        Point::new(side, 0),
        Point::new(side, side),
        Point::new(0, side),
    ]
}

#[test]
fn point_far_outside_any_bounding_box_is_outside() {
    let poly = square(100);
    assert!(!point_in_polygon(&Point::new(5_000_000, 5_000_000), &poly));
    assert!(!point_in_polygon(&Point::new(-5_000_000, -5_000_000), &poly));
    assert!(!point_in_polygon(&Point::new(50, 9_000_000), &poly));
}

#[test]
fn centroid_of_convex_polygon_is_inside() {
    let poly = square(100);
    assert!(point_in_polygon(&Point::new(50, 50), &poly));
    let tri = vec![Point::new(0, 0), Point::new(90, 0), Point::new(45, 90)];
    assert!(point_in_polygon(&Point::new(45, 30), &tri));
}

#[test]
fn isqrt_exact_values() {
    assert_eq!(isqrt(0), 0);
    assert_eq!(isqrt(1), 1);
    assert_eq!(isqrt(24), 4);
    assert_eq!(isqrt(25), 5);
    assert_eq!(isqrt(u64::MAX), 4_294_967_295);
}

#[test]
fn closest_index_picks_first_nearest_vertex() {
    let poly = vec![
        Point::new(0, 0),
        Point::new(10, 0),
        Point::new(10, 10),
        Point::new(0, 10),
    ];
    assert_eq!(closest_index(&Point::new(1, 1), &poly), 0);
    assert_eq!(closest_index(&Point::new(9, 9), &poly), 2);
    // equidistant between vertex 0 and vertex 1: the first wins
    assert_eq!(closest_index(&Point::new(5, 0), &poly), 0);
}

#[test]
fn hull_of_square_returns_the_square() {
    let pts = square(100);
    let hull = calculate_convex_hull(&pts);
    assert_eq!(hull, pts);
    assert!(is_hull_of(&hull, &pts));
}

#[test]
fn hull_contains_interior_points() {
    let mut pts = square(100);
    pts.push(Point::new(50, 50));
    pts.push(Point::new(20, 70));
    let hull = calculate_convex_hull(&pts);
    assert_eq!(hull, square(100));
    assert!(is_hull_of(&hull, &pts));
}

#[test]
fn hull_of_collinear_points_starts_at_the_leftmost() {
    let pts = vec![
        Point::new(30, 0),
        Point::new(10, 0),
        Point::new(0, 0),
        Point::new(20, 0),
    ];
    let hull = calculate_convex_hull(&pts);
    assert_eq!(hull[0], Point::new(0, 0));
    assert!(is_hull_of(&hull, &pts));
}

#[test]
fn hull_of_fewer_than_three_points_is_unchanged() {
    let pts = vec![Point::new(3, 4), Point::new(7, 1)];
    assert_eq!(calculate_convex_hull(&pts), pts);
}

#[test]
fn orientation_matches_turn_direction() {
    let p = Point::new(0, 0);
    let q = Point::new(10, 0);
    assert_eq!(orientation(&p, &q, &Point::new(20, 0)), 0);
    assert_eq!(orientation(&p, &q, &Point::new(20, 10)), 2);
    assert_eq!(orientation(&p, &q, &Point::new(20, -10)), 1);
}

#[test]
fn corner_cutting_doubles_vertex_count_per_pass() {
    let pts = square(9000);
    assert_eq!(chaikin_corner_cutting(&pts, 0).len(), 4);
    assert_eq!(chaikin_corner_cutting(&pts, 1).len(), 8);
    assert_eq!(chaikin_corner_cutting(&pts, 3).len(), 32);
    let tri = vec![Point::new(0, 0), Point::new(300, 0), Point::new(0, 300)];
    assert_eq!(chaikin_corner_cutting(&tri, 5).len(), 3 * 32);
}

#[test]
fn corner_cutting_places_points_at_thirds() {
    let pts = square(9);
    let cut = chaikin_corner_cutting(&pts, 1);
    assert_eq!(cut[0], Point::new(3, 0));
    assert_eq!(cut[1], Point::new(6, 0));
    assert_eq!(cut[2], Point::new(9, 3));
    assert_eq!(cut[3], Point::new(9, 6));
}

#[test]
fn move_perp_offsets_at_right_angles() {
    let r = move_perp(&Point::new(0, 0), &Point::new(5, 0), &Point::new(10, 0), 3);
    assert_eq!(r, Point::new(5, -3));
    // degenerate zero-length chord moves straight down
    let r = move_perp(&Point::new(2, 2), &Point::new(5, 5), &Point::new(2, 2), 7);
    assert_eq!(r, Point::new(5, -2));
}

#[test]
fn dual_offset_distance_is_half_width_within_tolerance() {
    let track = square(9000);
    let d: i64 = 100;
    let dual = dualise(&track, d);
    assert_eq!(dual.len(), track.len());
    for i in 0..track.len() {
        let dx = dual[i].x - track[i].x;
        let dy = dual[i].y - track[i].y;
        let dist_sq = dx * dx + dy * dy;
        assert!((d - 3) * (d - 3) < dist_sq, "index {i}: {dist_sq}");
        assert!(dist_sq < (d + 1) * (d + 1), "index {i}: {dist_sq}");
    }
}

#[test]
fn distance_rounds_down_to_whole_units() {
    assert_eq!(distance(&Point::new(0, 0), &Point::new(3, 4)), 5);
    assert_eq!(distance(&Point::new(1, 1), &Point::new(2, 2)), 1);
    assert_eq!(distance(&Point::new(7, 7), &Point::new(7, 7)), 0);
}

#[test]
fn average_distance_of_right_triangle() {
    let pts = vec![Point::new(0, 0), Point::new(3, 0), Point::new(0, 4)];
    // pairwise distances 3, 4, 5; mean 4
    assert_eq!(average_distance(&pts), 4);
}

#[test]
fn generated_track_is_a_closed_pair_of_loops() {
    let mut rng = rand_chacha::ChaCha8Rng::seed_from_u64(7);
    let size = (Point::new(110, 110), Point::new(1_920_000, 1_080_000));
    let (track, track2) = gen_track(24, 3, size, 110_000, &mut rng);
    assert!(track.len() >= 3);
    assert_eq!(track.len() % 8, 0); // hull length times 2^3
    assert_eq!(track.len(), track2.len());
    // deterministic for a fixed seed
    let mut rng2 = rand_chacha::ChaCha8Rng::seed_from_u64(7);
    let (again, again2) = gen_track(24, 3, size, 110_000, &mut rng2);
    assert_eq!(track, again);
    assert_eq!(track2, again2);
}

#[test]
fn start_position_sits_beside_the_track_midpoint() {
    let track = square(9000);
    let mid = track.len() / 2;
    let start = start_position(&track, 100);
    let expect = move_perp(&track[mid - 1], &track[mid], &track[mid + 1], 100);
    assert_eq!(start, expect);
}
