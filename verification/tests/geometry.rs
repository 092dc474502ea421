use kd_accel::aabb::{Aabb, AxisBounds, Slab};
use kd_accel::axis::{Cast, X, Y, Z, Axis};
use kd_accel::edge::{sort_edges, sort_edges_by_axis, Edge, EdgeType};
use kd_accel::error::{BuildError, LoadError, LoadErrorKind, ObjError};
use kd_accel::ray::{Point3, Ray};

fn cube(lo: (i32, i32, i32), hi: (i32, i32, i32)) -> Aabb {
    Aabb::new(Point3::new(lo.0, lo.1, lo.2), Point3::new(hi.0, hi.1, hi.2)).unwrap()
}

#[test]
fn box_keeps_its_corners() {
    let b = cube((-1, -2, -3), (4, 5, 6));
    assert_eq!(b.min, Point3 { x: -1, y: -2, z: -3 });
    assert_eq!(b.max, Point3 { x: 4, y: 5, z: 6 });
    assert!(b.is_ordered());
}

#[test]
fn box_with_corners_out_of_order_is_refused() {
    let r = Aabb::new(Point3::new(0, 0, 1), Point3::new(1, 1, 0));
    assert_eq!(r, Err(BuildError::InvalidBounds));
    let flat = Aabb::new(Point3::new(2, 2, 2), Point3::new(2, 2, 2));
    assert!(flat.is_ok());
}

#[test]
fn point_reads_each_axis() {
    let p = Point3::new(7, 8, 9);
    assert_eq!(p.get(0), 7);
    assert_eq!(p.get(1), 8);
    assert_eq!(p.get(2), 9);
}

#[test]
fn union_of_nothing_is_an_error() {
    assert_eq!(Aabb::from_primitives::<Aabb>(&[]), Err(BuildError::EmptyInput));
}

#[test]
fn union_of_one_box_is_that_box() {
    let b = cube((-3, 1, 4), (1, 5, 9));
    assert_eq!(Aabb::from_primitives(&[b]), Ok(b));
}

#[test]
fn union_takes_least_and_greatest_bounds() {
    let boxes = [cube((0, 5, -2), (1, 6, 0)), cube((-4, 7, -1), (0, 9, 3)), cube((2, 2, 2), (3, 3, 3))];
    let u = Aabb::from_primitives(&boxes).unwrap();
    assert_eq!(u, cube((-4, 2, -2), (3, 9, 3)));
}

#[test]
fn ray_towards_the_box_hits() {
    let b = cube((-1, -1, -1), (1, 1, 1));
    let ray = Ray::new(Point3::new(0, 0, -5), Point3::new(0, 0, 1));
    assert!(b.intersect(&ray));
    let s = b.slab(&ray, 2);
    assert_eq!(s, Slab { crossing: true, inside: false, enter: 4, exit: 6, den: 1 });
    let sx = b.slab(&ray, 0);
    assert!(!sx.crossing);
    assert!(sx.inside);
}

#[test]
fn ray_pointing_away_misses() {
    let b = cube((-1, -1, -1), (1, 1, 1));
    let ray = Ray::new(Point3::new(0, 0, -5), Point3::new(0, 0, -1));
    assert!(!b.intersect(&ray));
    let s = b.slab(&ray, 2);
    assert_eq!((s.enter, s.exit, s.den), (-6, -4, 1));
    assert!(!s.is_open());
}

#[test]
fn parallel_ray_beside_the_box_misses() {
    let b = cube((-1, -1, -1), (1, 1, 1));
    let ray = Ray::new(Point3::new(2, 0, -5), Point3::new(0, 0, 1));
    assert!(!b.intersect(&ray));
    let touching = Ray::new(Point3::new(1, 1, -5), Point3::new(0, 0, 1));
    assert!(b.intersect(&touching));
}

#[test]
fn slanted_rays_compare_fractions() {
    let b = cube((0, 0, 0), (10, 10, 10));
    // enters x at 1/2 and leaves y at 10/3: a hit
    let hit = Ray::new(Point3::new(-1, 0, 5), Point3::new(2, 3, 0));
    assert!(b.intersect(&hit));
    // enters x at 20/2 = 10 but leaves y at 10/3: a miss
    let miss = Ray::new(Point3::new(-20, 0, 5), Point3::new(2, 3, 0));
    assert!(!b.intersect(&miss));
    let sx = b.slab(&miss, 0);
    let sy = b.slab(&miss, 1);
    assert_eq!((sx.enter, sx.exit, sx.den), (20, 30, 2));
    assert_eq!((sy.enter, sy.exit, sy.den), (0, 10, 3));
    assert!(!sx.enters_before(&sy));
    assert!(sy.enters_before(&sx));
}

#[test]
fn ray_with_extreme_coordinates_does_not_overflow() {
    let b = cube((i32::MIN, i32::MIN, i32::MIN), (i32::MAX, i32::MAX, i32::MAX));
    let ray = Ray::new(Point3::new(i32::MAX, i32::MIN, 0), Point3::new(i32::MIN, i32::MAX, i32::MIN));
    assert!(b.intersect(&ray));
}

#[test]
fn ray_that_stands_still_hits_only_from_inside() {
    let b = cube((0, 0, 0), (2, 2, 2));
    assert!(b.intersect(&Ray::new(Point3::new(1, 1, 1), Point3::new(0, 0, 0))));
    assert!(!b.intersect(&Ray::new(Point3::new(3, 1, 1), Point3::new(0, 0, 0))));
}

#[test]
fn edges_order_by_coordinate_then_start_first() {
    assert!(Edge::start(1).precedes(&Edge::end(1)));
    assert!(!Edge::end(1).precedes(&Edge::start(1)));
    assert!(Edge::end(0).precedes(&Edge::start(1)));
    assert!(!Edge::start(2).precedes(&Edge::end(1)));
    assert!(Edge::start(3).precedes(&Edge::start(3)));
    assert_eq!(Edge::start(5), Edge { t: 5, type_: EdgeType::Start });
    assert_eq!(Edge::end(5), Edge { t: 5, type_: EdgeType::End });
    assert!(EdgeType::Start < EdgeType::End);
}

#[test]
fn sorted_edges_of_three_boxes() {
    let boxes = [cube((4, 0, 0), (6, 1, 1)), cube((0, 0, 0), (4, 1, 1)), cube((2, 0, 0), (2, 1, 1))];
    let edges = sort_edges(&boxes, 0).unwrap();
    assert_eq!(
        edges,
        vec![
            Edge::start(0),
            Edge::start(2),
            Edge::end(2),
            Edge::start(4),
            Edge::end(4),
            Edge::end(6),
        ]
    );
    let on_y = sort_edges(&boxes, 1).unwrap();
    assert_eq!(
        on_y,
        vec![Edge::start(0), Edge::start(0), Edge::start(0), Edge::end(1), Edge::end(1), Edge::end(1)]
    );
}

#[test]
fn sorted_edges_are_twice_the_primitives() {
    let boxes: Vec<Aabb> = (0..17).map(|k| cube((100 - 7 * k, k, -k), (100 - 7 * k + k % 5, k + 1, k))).collect();
    for axis in 0..3 {
        let edges = sort_edges(&boxes, axis).unwrap();
        assert_eq!(edges.len(), 34);
        for w in edges.windows(2) {
            assert!(w[0].precedes(&w[1]));
        }
        for (i, a) in edges.iter().enumerate() {
            for (j, b) in edges.iter().enumerate() {
                if a.t == b.t && a.type_ == EdgeType::Start && b.type_ == EdgeType::End {
                    assert!(i < j);
                }
            }
        }
    }
    assert!(sort_edges(&[], 2).unwrap().is_empty());
}

#[test]
fn sorting_on_an_axis_that_does_not_exist_fails() {
    let boxes = [cube((0, 0, 0), (1, 1, 1))];
    assert_eq!(sort_edges(&boxes, 3), Err(BuildError::InvalidAxis));
    assert_eq!(sort_edges(&boxes, usize::MAX), Err(BuildError::InvalidAxis));
}

#[test]
fn axis_types_name_their_index() {
    assert_eq!(X::index(), 0);
    assert_eq!(Y::index(), 1);
    assert_eq!(Z::index(), 2);
    let boxes = [cube((0, 10, 20), (1, 11, 21))];
    assert_eq!(sort_edges_by_axis::<X>(&boxes), vec![Edge::start(0), Edge::end(1)]);
    assert_eq!(sort_edges_by_axis::<Y>(&boxes), vec![Edge::start(10), Edge::end(11)]);
    assert_eq!(sort_edges_by_axis::<Z>(&boxes), vec![Edge::start(20), Edge::end(21)]);
}

#[test]
fn cast_hands_out_its_value_and_its_edges() {
    let b = cube((0, 10, 20), (1, 11, 21));
    let c = Cast::<Aabb, Y>::new(b);
    assert_eq!(*c.component(), b);
    assert_eq!(c.edges(), [Edge::start(10), Edge::end(11)]);
    let n = Cast::<u8, Z>::new(7);
    assert_eq!(*n.component(), 7);
}

#[test]
fn load_error_keeps_kind_and_note() {
    let e = LoadError::new(LoadErrorKind::IndexOutOfRange, "Unable to convert the index from usize");
    assert_eq!(*e.kind(), LoadErrorKind::IndexOutOfRange);
    assert_eq!(e.message(), "Unable to convert the index from usize");
    assert_eq!(e.kind().text(), "Received index value out of range");
    assert_eq!(LoadErrorKind::BackslashAtEOF.text(), "A line is expected after the backslash (\\)");
    assert_eq!(LoadErrorKind::UntriangulatedModel.text(), "Model should be triangulated first to be loaded properly");
    let ObjError::Load(inner) = ObjError::Load(e);
    assert_eq!(*inner.kind(), LoadErrorKind::IndexOutOfRange);
}

#[test]
fn interval_of_a_box_on_each_axis() {
    let b = cube((-1, 2, 5), (4, 3, 5));
    assert_eq!(b.axis_bounds(0), Ok(AxisBounds { min: -1, max: 4 }));
    assert_eq!(b.axis_bounds(1), Ok(AxisBounds { min: 2, max: 3 }));
    assert_eq!(b.axis_bounds(2), Ok(AxisBounds { min: 5, max: 5 }));
    assert_eq!(b.axis_bounds(3), Err(BuildError::InvalidAxis));
    assert_eq!(b.axis_bounds(0).unwrap().extent(), 5);
    assert_eq!(AxisBounds::new(i32::MIN, i32::MAX).unwrap().extent(), 4294967295);
    assert_eq!(AxisBounds::new(3, 2), Err(BuildError::InvalidBounds));
    assert_eq!(AxisBounds::new(2, 2), Ok(AxisBounds { min: 2, max: 2 }));
    let x = AxisBounds::new(-1, 4).unwrap();
    let y = AxisBounds::new(2, 3).unwrap();
    let z = AxisBounds::new(5, 5).unwrap();
    assert_eq!(Aabb::from_axis_bounds(x, y, z), b);
}

#[test]
fn edges_compare_with_the_operators() {
    assert!(Edge::start(1) < Edge::end(1));
    assert!(Edge::end(1) > Edge::start(1));
    assert!(Edge::end(0) < Edge::start(1));
    assert!(Edge::start(4) <= Edge::start(4));
    assert_eq!(Edge::start(4).partial_cmp(&Edge::end(4)), Some(std::cmp::Ordering::Less));
    assert_eq!(Edge::end(4).partial_cmp(&Edge::end(4)), Some(std::cmp::Ordering::Equal));
    assert_eq!(Edge::end(4).cmp(&Edge::start(4)), std::cmp::Ordering::Greater);
}

#[test]
fn sorted_edges_agree_with_the_standard_sort() {
    let boxes: Vec<Aabb> = (0..23).map(|k| cube(((k * 7) % 5, 0, 0), ((k * 7) % 5 + k % 3, 1, 1))).collect();
    let ours = sort_edges(&boxes, 0).unwrap();
    let mut theirs: Vec<Edge> = Vec::new();
    for b in boxes.iter() {
        theirs.push(Edge::start(b.min.x));
        theirs.push(Edge::end(b.max.x));
    }
    theirs.sort();
    assert_eq!(ours, theirs);
}
