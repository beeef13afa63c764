use building_procgen::arith::{div_toward_zero, floor_sqrt};
use building_procgen::direction::{Direction, NORM_SCALE};
use building_procgen::error::ProcgenError;
use building_procgen::geometry::{Bounds, Pt2D, MAX_COORD, UNITS_PER_METER, WORLD_LIMIT};
use building_procgen::polygon::Polygon;
use building_procgen::polyline::PolyLine;

fn pt(x: i64, y: i64) -> Pt2D {
    Pt2D::new(x, y)
}

fn square(x: i64, y: i64, side: i64) -> Polygon {
    Polygon::new(vec![pt(x, y), pt(x + side, y), pt(x + side, y + side), pt(x, y + side)]).unwrap()
}

#[test]
fn division_rounds_toward_zero() {
    assert_eq!(div_toward_zero(7, 2), 3);
    assert_eq!(div_toward_zero(-7, 2), -3);
    assert_eq!(div_toward_zero(6, 3), 2);
    assert_eq!(div_toward_zero(-1, 5), 0);
    assert_eq!(div_toward_zero(0, 5), 0);
}

#[test]
fn floor_sqrt_is_exact_on_squares_and_between() {
    assert_eq!(floor_sqrt(0), 0);
    assert_eq!(floor_sqrt(1), 1);
    assert_eq!(floor_sqrt(24), 4);
    assert_eq!(floor_sqrt(25), 5);
    assert_eq!(floor_sqrt(26), 5);
    assert_eq!(floor_sqrt(1u128 << 120), 1u64 << 60);
    assert_eq!(floor_sqrt((1u128 << 120) - 1), (1u64 << 60) - 1);
}

#[test]
fn units_are_tenths_of_a_millimeter() {
    assert_eq!(UNITS_PER_METER, 10_000);
}

#[test]
fn direction_between_keeps_vector_and_scaled_length() {
    let d = Direction::between(pt(10, 20), pt(13, 24)).unwrap();
    assert_eq!((d.dx, d.dy), (3, 4));
    assert_eq!(d.norm, 5 * NORM_SCALE);
    assert!(Direction::between(pt(7, 7), pt(7, 7)).is_none());
    let diag = Direction::between(pt(0, 0), pt(1, 1)).unwrap();
    // floor(2^20 * sqrt(2))
    assert_eq!(diag.norm, 1_482_910);
}

#[test]
fn direction_rotates_by_minus_ninety_degrees() {
    let d = Direction::between(pt(0, 0), pt(3, 4)).unwrap();
    let r = d.rotate_right();
    assert_eq!((r.dx, r.dy, r.norm), (4, -3, d.norm));
}

#[test]
fn scaled_vector_has_the_asked_length() {
    let d = Direction::between(pt(0, 0), pt(30, 40)).unwrap();
    assert_eq!(d.scaled(100, 1), (60, 80));
    assert_eq!(d.scaled(100, 2), (30, 40));
    assert_eq!(d.scaled(-100, 2), (-30, -40));
    assert_eq!(d.scaled(7, 2), (2, 2));
    assert_eq!(d.scaled(-7, 2), (-2, -2));
    let west = Direction::between(pt(5, 0), pt(0, 0)).unwrap();
    assert_eq!(west.scaled(9, 2), (-4, 0));
}

#[test]
fn bounds_meet_when_they_touch() {
    let a = Bounds { min_x: 0, min_y: 0, max_x: 10, max_y: 10 };
    let b = Bounds { min_x: 10, min_y: 10, max_x: 20, max_y: 20 };
    let c = Bounds { min_x: 11, min_y: 0, max_x: 20, max_y: 10 };
    assert!(a.intersects(&b));
    assert!(b.intersects(&a));
    assert!(!a.intersects(&c));
}

#[test]
fn bounds_grow_by_buffer_and_update() {
    let mut a = Bounds::at(pt(5, 6));
    a.update(pt(-1, 9));
    assert_eq!(a, Bounds { min_x: -1, min_y: 6, max_x: 5, max_y: 9 });
    a.add_buffer(10);
    assert_eq!(a, Bounds { min_x: -11, min_y: -4, max_x: 15, max_y: 19 });
}

#[test]
fn polygon_needs_three_points_on_the_grid() {
    assert!(Polygon::new(vec![pt(0, 0), pt(1, 0)]).is_none());
    assert!(Polygon::new(vec![pt(0, 0), pt(1, 0), pt(0, MAX_COORD + 1)]).is_none());
    let p = Polygon::new(vec![pt(0, 0), pt(1, 0), pt(0, MAX_COORD)]).unwrap();
    assert_eq!(p.points().len(), 3);
    assert_eq!(p.get_bounds(), Bounds { min_x: 0, min_y: 0, max_x: 1, max_y: MAX_COORD });
}

#[test]
fn cross_product_tells_left_from_right() {
    assert_eq!(Polygon::cross(pt(0, 0), pt(10, 0), pt(3, 5)), 50);
    assert_eq!(Polygon::cross(pt(0, 0), pt(10, 0), pt(3, -5)), -50);
    assert_eq!(Polygon::cross(pt(0, 0), pt(10, 0), pt(30, 0)), 0);
}

#[test]
fn squares_intersect_when_they_overlap_or_touch() {
    let a = square(0, 0, 10);
    assert!(a.intersects(&square(5, 5, 10)));
    assert!(a.intersects(&square(10, 0, 10)));
    assert!(a.intersects(&square(2, 2, 3)));
    assert!(!a.intersects(&square(11, 0, 10)));
    assert!(!a.intersects(&square(0, 11, 10)));
}

#[test]
fn diamonds_with_meeting_boxes_can_be_apart() {
    let a = Polygon::new(vec![pt(0, 10), pt(10, 0), pt(20, 10), pt(10, 20)]).unwrap();
    let near = Polygon::new(vec![pt(17, 17), pt(27, 7), pt(37, 17), pt(27, 27)]).unwrap();
    let touching = Polygon::new(vec![pt(15, 15), pt(25, 5), pt(35, 15), pt(25, 25)]).unwrap();
    assert!(a.get_bounds().intersects(&near.get_bounds()));
    assert!(!a.intersects(&near));
    assert!(!near.intersects(&a));
    assert!(a.intersects(&touching));
}

#[test]
fn point_in_polygon_follows_the_even_odd_rule() {
    let a = square(0, 0, 10);
    assert!(a.contains_pt(pt(5, 5)));
    assert!(!a.contains_pt(pt(15, 5)));
    assert!(!a.contains_pt(pt(-1, 5)));
    assert!(!a.contains_pt(pt(5, 11)));
    // An L-shaped region: the notch is outside.
    let l = Polygon::new(vec![pt(0, 0), pt(10, 0), pt(10, 4), pt(4, 4), pt(4, 10), pt(0, 10)])
        .unwrap();
    assert!(l.contains_pt(pt(2, 8)));
    assert!(l.contains_pt(pt(8, 2)));
    assert!(!l.contains_pt(pt(8, 8)));
}

#[test]
fn rectangle_is_laid_along_the_direction() {
    let east = Direction::between(pt(0, 0), pt(100, 0)).unwrap();
    let r = Polygon::rectangle(pt(1000, 1000), &east, 60, 20);
    assert_eq!(r.points(), &vec![pt(970, 990), pt(1030, 990), pt(1030, 1010), pt(970, 1010)]);
    let slanted = Direction::between(pt(0, 0), pt(30, 40)).unwrap();
    let s = Polygon::rectangle(pt(0, 0), &slanted, 100, 50);
    // half the width along (3, 4) / 5 is (30, 40); half the height along (4, -3) / 5 is (20, -15)
    assert_eq!(s.points(), &vec![pt(-10, -55), pt(50, 25), pt(10, 55), pt(-50, -25)]);
}

#[test]
fn polyline_rejects_what_is_no_line() {
    assert_eq!(PolyLine::new(vec![]).unwrap_err(), ProcgenError::MalformedGeometry);
    assert_eq!(PolyLine::new(vec![pt(0, 0)]).unwrap_err(), ProcgenError::MalformedGeometry);
    assert_eq!(
        PolyLine::new(vec![pt(0, 0), pt(5, 5), pt(5, 5)]).unwrap_err(),
        ProcgenError::MalformedGeometry
    );
    assert_eq!(
        PolyLine::new(vec![pt(0, 0), pt(WORLD_LIMIT + 1, 0)]).unwrap_err(),
        ProcgenError::MalformedGeometry
    );
    assert!(PolyLine::new(vec![pt(0, 0), pt(WORLD_LIMIT, 0)]).is_ok());
}

#[test]
fn polyline_length_is_the_sum_of_floored_segments() {
    let line = PolyLine::new(vec![pt(0, 0), pt(30, 40), pt(30, 140), pt(31, 141)]).unwrap();
    // 50 + 100 + floor(sqrt(2))
    assert_eq!(line.length(), 151);
    assert_eq!(line.points().len(), 4);
}

#[test]
fn dist_along_finds_point_and_direction() {
    let line = PolyLine::new(vec![pt(0, 0), pt(30, 40), pt(30, 140)]).unwrap();
    let (p0, d0) = line.dist_along(0).unwrap();
    assert_eq!(p0, pt(0, 0));
    assert_eq!((d0.dx, d0.dy), (30, 40));
    let (p1, _) = line.dist_along(25).unwrap();
    assert_eq!(p1, pt(15, 20));
    // The end of a segment belongs to the next one.
    let (p2, d2) = line.dist_along(50).unwrap();
    assert_eq!(p2, pt(30, 40));
    assert_eq!((d2.dx, d2.dy), (0, 100));
    let (p3, _) = line.dist_along(120).unwrap();
    assert_eq!(p3, pt(30, 110));
    // The end of the line belongs to the last segment.
    let (p4, d4) = line.dist_along(150).unwrap();
    assert_eq!(p4, pt(30, 140));
    assert_eq!((d4.dx, d4.dy), (0, 100));
}

#[test]
fn dist_along_refuses_distances_off_the_line() {
    let line = PolyLine::new(vec![pt(0, 0), pt(30, 40)]).unwrap();
    assert_eq!(line.dist_along(-1).unwrap_err(), ProcgenError::MalformedGeometry);
    assert_eq!(line.dist_along(51).unwrap_err(), ProcgenError::MalformedGeometry);
    assert!(line.dist_along(50).is_ok());
}

#[test]
fn errors_describe_themselves() {
    assert_eq!(ProcgenError::InvalidRange.describe(), "invalid sampling range");
    assert_eq!(ProcgenError::MalformedGeometry.describe(), "malformed geometry");
}
