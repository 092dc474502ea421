use kd_accel::aabb::Aabb;
use kd_accel::depth::{depth_heuristic, scaled_log2};
use kd_accel::edge::{sort_edges, Edge};
use kd_accel::error::BuildError;
use kd_accel::kd_tree::{Builder, KdLeaf, KdNode};
use kd_accel::primitive::Primitive;
use kd_accel::ray::{Point3, Ray};
use kd_accel::select::{AxisSelector, LargestExtend, SplitMiddle, SplitSelector, SAH};

fn cuboid(lo: (i32, i32, i32), hi: (i32, i32, i32)) -> Aabb {
    Aabb::new(Point3::new(lo.0, lo.1, lo.2), Point3::new(hi.0, hi.1, hi.2)).unwrap()
}

fn height(node: &KdNode) -> usize {
    match node {
        KdNode::Leaf(_) => 0,
        KdNode::Internal { left, right, .. } => 1 + height(left).max(height(right)),
    }
}

fn collect(node: &KdNode, seen: &mut Vec<bool>) {
    match node {
        KdNode::Leaf(leaf) => {
            for i in leaf.indices() {
                seen[i] = true;
            }
        }
        KdNode::Internal { left, right, .. } => {
            collect(left, seen);
            collect(right, seen);
        }
    }
}

fn overlaps(b: &Aabb, region: &Aabb) -> bool {
    (0..3).all(|a| b.min.get(a) <= region.max.get(a) && region.min.get(a) <= b.max.get(a))
}

fn check_containment(node: &KdNode, boxes: &[Aabb], region: Aabb) {
    let mut seen = vec![false; boxes.len()];
    collect(node, &mut seen);
    for (i, s) in seen.iter().enumerate() {
        if *s {
            assert!(overlaps(&boxes[i], &region));
        }
    }
    if let KdNode::Internal { axis, split, left, right } = node {
        let mut lower = region;
        let mut upper = region;
        match axis {
            0 => {
                lower.max.x = lower.max.x.min(*split);
                upper.min.x = upper.min.x.max(*split);
            }
            1 => {
                lower.max.y = lower.max.y.min(*split);
                upper.min.y = upper.min.y.max(*split);
            }
            _ => {
                lower.max.z = lower.max.z.min(*split);
                upper.min.z = upper.min.z.max(*split);
            }
        }
        check_containment(left, boxes, lower);
        check_containment(right, boxes, upper);
    }
}

fn scattered(n: i32) -> Vec<Aabb> {
    (0..n)
        .map(|k| {
            let x = (k * 37) % 101;
            let y = (k * 53) % 89;
            let z = (k * 29) % 97;
            cuboid((x, y, z), (x + 1 + k % 7, y + 1 + k % 3, z + k % 5))
        })
        .collect()
}

#[test]
fn depth_budget_values() {
    assert_eq!(depth_heuristic(0), 8);
    assert_eq!(depth_heuristic(1), 8);
    assert_eq!(depth_heuristic(2), 10);
    assert_eq!(depth_heuristic(3), 11);
    assert_eq!(depth_heuristic(4), 11);
    assert_eq!(depth_heuristic(5), 12);
    assert_eq!(depth_heuristic(1000), 21);
    assert_eq!(depth_heuristic(1024), 21);
    assert_eq!(depth_heuristic(1025), 22);
    assert_eq!(depth_heuristic(1_000_000), 34);
}

#[test]
fn scaled_logarithm_matches_the_formula() {
    assert_eq!(scaled_log2(1), 0);
    assert_eq!(scaled_log2(2), 2);
    assert_eq!(scaled_log2(8), 4);
    assert_eq!(scaled_log2(1 << 10), 13);
    assert_eq!(scaled_log2(1 << 20), 26);
    assert_eq!(scaled_log2((1 << 20) + 1), 27);
    for n in 1usize..5000 {
        let k = scaled_log2(n) as f64;
        let exact = 1.3 * (n as f64).log2();
        assert!(k >= exact - 1e-9 && k < exact + 1.0 + 1e-9);
    }
}

#[test]
fn largest_extent_prefers_the_first_of_equals() {
    let boxes = [cuboid((0, 0, 0), (4, 1, 1)), cuboid((1, -3, 0), (2, 1, 2))];
    // spans: 4 on the first axis, 4 on the second, 2 on the third
    assert_eq!(LargestExtend::select(&boxes), 0);
}

#[test]
fn largest_extent_picks_the_widest_axis() {
    let on_z = [cuboid((0, 0, 0), (1, 1, 1)), cuboid((0, 0, 5), (1, 2, 9))];
    assert_eq!(LargestExtend::select(&on_z), 2);
    let on_y = [cuboid((0, 0, 0), (1, 1, 1)), cuboid((0, 7, 0), (1, 9, 9))];
    assert_eq!(LargestExtend::select(&on_y), 1);
    let tie_yz = [cuboid((0, 0, 0), (1, 5, 5))];
    assert_eq!(LargestExtend::select(&tie_yz), 1);
    assert_eq!(LargestExtend::select::<Aabb>(&[]), 0);
}

#[test]
fn split_middle_halves_the_edge_count() {
    let edges = [Edge::start(0), Edge::start(1), Edge::end(2), Edge::end(9), Edge::end(9), Edge::end(9)];
    assert_eq!(SplitMiddle::select(&edges), Ok(3));
    assert_eq!(SplitMiddle::select(&edges[..5]), Ok(2));
    assert_eq!(SplitMiddle::select(&[]), Ok(0));
}

#[test]
fn surface_area_heuristic_is_not_supported() {
    let edges = [Edge::start(0), Edge::end(1)];
    assert_eq!(SAH::select(&edges), Err(BuildError::UnsupportedStrategy));
    let boxes = [cuboid((0, 0, 0), (1, 1, 1)), cuboid((2, 0, 0), (3, 1, 1))];
    let builder = Builder::<Aabb, LargestExtend, SAH>::new(&boxes).unwrap();
    assert!(matches!(builder.build(), Err(BuildError::UnsupportedStrategy)));
}

#[test]
fn unsupported_strategy_is_not_asked_for_trivial_trees() {
    let one = [cuboid((0, 0, 0), (1, 1, 1))];
    let tree = Builder::<Aabb, LargestExtend, SAH>::new(&one).unwrap().build().unwrap();
    assert!(matches!(tree.root(), KdNode::Leaf(KdLeaf::Reference(0))));
}

#[test]
fn tree_over_nothing_is_an_empty_leaf() {
    let builder = Builder::<Aabb, LargestExtend, SplitMiddle>::new(&[]).unwrap();
    assert_eq!(builder.max_depth(), 8);
    assert_eq!(builder.bounding_box(), None);
    let tree = builder.build().unwrap();
    assert!(matches!(tree.root(), KdNode::Leaf(KdLeaf::Empty)));
    assert!(tree.root().is_leaf());
    assert_eq!(tree.bounding_box(), None);
    assert!(tree.primitives().is_empty());
}

#[test]
fn tree_over_one_primitive_is_a_reference_leaf() {
    let one = [cuboid((-1, -1, -1), (1, 1, 1))];
    let builder = Builder::<Aabb, LargestExtend, SplitMiddle>::new(&one).unwrap();
    assert_eq!(builder.max_depth(), 8);
    assert_eq!(builder.bounding_box(), Some(one[0]));
    let tree = builder.build().unwrap();
    assert!(matches!(tree.root(), KdNode::Leaf(KdLeaf::Reference(0))));
    assert_eq!(tree.bounding_box(), Some(one[0]));
    assert_eq!(tree.primitives(), &one[..]);
}

#[test]
fn two_boxes_apart_are_split_between_them() {
    let boxes = [cuboid((0, 0, 0), (1, 1, 1)), cuboid((2, 0, 0), (3, 1, 1))];
    let tree = Builder::<Aabb, LargestExtend, SplitMiddle>::new(&boxes).unwrap().build().unwrap();
    match tree.root() {
        KdNode::Internal { axis, split, left, right } => {
            assert_eq!(*axis, 0);
            assert_eq!(*split, 2);
            assert!(matches!(**left, KdNode::Leaf(KdLeaf::Reference(0))));
            assert!(matches!(**right, KdNode::Leaf(KdLeaf::Reference(1))));
        }
        KdNode::Leaf(_) => panic!("the root should be split"),
    }
    assert_eq!(tree.bounding_box(), Some(cuboid((0, 0, 0), (3, 1, 1))));
}

#[test]
fn split_value_is_the_middle_edge() {
    let boxes = [cuboid((0, 0, 0), (1, 8, 1)), cuboid((0, 10, 0), (1, 30, 1)), cuboid((0, 9, 0), (1, 12, 1))];
    let edges = sort_edges(&boxes, 1).unwrap();
    assert_eq!(edges[3], Edge::start(10));
    let tree = Builder::<Aabb, LargestExtend, SplitMiddle>::new(&boxes).unwrap().build().unwrap();
    match tree.root() {
        KdNode::Internal { axis, split, left, right } => {
            assert_eq!((*axis, *split), (1, 10));
            // the third box reaches over the plane and goes to both sides
            let mut l = vec![false; 3];
            collect(left, &mut l);
            assert_eq!(l, vec![true, false, true]);
            let mut r = vec![false; 3];
            collect(right, &mut r);
            assert_eq!(r, vec![false, true, true]);
        }
        KdNode::Leaf(_) => panic!("the root should be split"),
    }
}

#[test]
fn boxes_that_cannot_be_separated_stay_in_one_leaf() {
    let b = cuboid((0, 0, 0), (1, 1, 1));
    let boxes = [b, b, b];
    let tree = Builder::<Aabb, LargestExtend, SplitMiddle>::new(&boxes).unwrap().build().unwrap();
    match tree.root() {
        KdNode::Leaf(KdLeaf::Slice(run)) => assert_eq!(run, &vec![0, 1, 2]),
        _ => panic!("the root should be a run of all three"),
    }
}

#[test]
fn flat_box_in_the_plane_goes_left() {
    let boxes = [cuboid((0, 0, 0), (5, 0, 0)), cuboid((5, 0, 0), (5, 0, 0)), cuboid((5, 0, 0), (9, 0, 0))];
    // edges on the first axis: 0S 5S 5S 5E 5E 9E, the middle one lies at 5
    let tree = Builder::<Aabb, LargestExtend, SplitMiddle>::new(&boxes).unwrap().build().unwrap();
    match tree.root() {
        KdNode::Internal { axis, split, left, right } => {
            assert_eq!((*axis, *split), (0, 5));
            let mut l = vec![false; 3];
            collect(left, &mut l);
            assert_eq!(l, vec![true, true, false]);
            assert!(matches!(**right, KdNode::Leaf(KdLeaf::Reference(2))));
        }
        KdNode::Leaf(_) => panic!("the root should be split"),
    }
}

#[test]
fn builder_refuses_a_box_out_of_order() {
    let bad = Aabb { min: Point3::new(0, 0, 0), max: Point3::new(1, -1, 1) };
    let boxes = [cuboid((0, 0, 0), (1, 1, 1)), bad];
    assert!(matches!(Builder::<Aabb, LargestExtend, SplitMiddle>::new(&boxes), Err(BuildError::InvalidBounds)));
}

#[test]
fn every_primitive_is_in_some_leaf() {
    for n in [2, 3, 10, 40] {
        let boxes = scattered(n);
        let tree = Builder::<Aabb, LargestExtend, SplitMiddle>::new(&boxes).unwrap().build().unwrap();
        let mut seen = vec![false; boxes.len()];
        collect(tree.root(), &mut seen);
        assert!(seen.iter().all(|s| *s));
    }
}

#[test]
fn primitives_overlap_the_region_of_their_node() {
    let boxes = scattered(25);
    let tree = Builder::<Aabb, LargestExtend, SplitMiddle>::new(&boxes).unwrap().build().unwrap();
    check_containment(tree.root(), &boxes, tree.bounding_box().unwrap());
}

#[test]
fn leaves_stay_within_a_step_of_the_depth_budget() {
    for n in [1, 2, 5, 30] {
        let boxes = scattered(n);
        let builder = Builder::<Aabb, LargestExtend, SplitMiddle>::new(&boxes).unwrap();
        let budget = builder.max_depth();
        assert_eq!(budget, depth_heuristic(boxes.len()));
        let tree = builder.build().unwrap();
        assert!(height(tree.root()) <= budget + 1);
    }
}

#[test]
fn a_side_that_keeps_everything_is_split_until_the_budget_ends() {
    let boxes = [cuboid((0, 0, 0), (2, 0, 0)), cuboid((0, 0, 0), (3, 0, 0))];
    let builder = Builder::<Aabb, LargestExtend, SplitMiddle>::new(&boxes).unwrap();
    assert_eq!(builder.max_depth(), 10);
    let tree = builder.build().unwrap();
    assert_eq!(height(tree.root()), 11);
    match tree.root() {
        KdNode::Internal { axis, split, right, .. } => {
            assert_eq!((*axis, *split), (0, 2));
            assert!(matches!(**right, KdNode::Leaf(KdLeaf::Reference(1))));
        }
        KdNode::Leaf(_) => panic!("the root should be split"),
    }
}

#[test]
fn leaf_lists_its_indices() {
    assert_eq!(KdLeaf::Empty.indices(), Vec::<usize>::new());
    assert_eq!(KdLeaf::Reference(4).indices(), vec![4]);
    assert_eq!(KdLeaf::Slice(vec![3, 1, 2]).indices(), vec![3, 1, 2]);
    assert!(matches!(KdLeaf::from_ids(vec![]), KdLeaf::Empty));
    assert!(matches!(KdLeaf::from_ids(vec![9]), KdLeaf::Reference(9)));
    assert!(matches!(KdLeaf::from_ids(vec![9, 8]), KdLeaf::Slice(_)));
}

#[test]
fn walk_collects_the_leaves_whose_region_the_ray_hits() {
    let boxes = [cuboid((0, 0, 0), (1, 1, 1)), cuboid((2, 0, 0), (3, 1, 1))];
    let tree = Builder::<Aabb, LargestExtend, SplitMiddle>::new(&boxes).unwrap().build().unwrap();
    let along = Ray::new(Point3::new(-1, 0, 0), Point3::new(1, 0, 0));
    assert_eq!(tree.candidates(&along), vec![0, 1]);
    let through_first = Ray::new(Point3::new(0, 0, -5), Point3::new(0, 0, 1));
    assert_eq!(tree.candidates(&through_first), vec![0]);
    let through_second = Ray::new(Point3::new(3, 1, -5), Point3::new(0, 0, 1));
    assert_eq!(tree.candidates(&through_second), vec![1]);
    let in_the_plane = Ray::new(Point3::new(2, 0, -5), Point3::new(0, 0, 1));
    assert_eq!(tree.candidates(&in_the_plane), vec![0, 1]);
    let away = Ray::new(Point3::new(0, 0, -5), Point3::new(0, 0, -1));
    assert_eq!(tree.candidates(&away), Vec::<usize>::new());
}

#[test]
fn walk_over_an_empty_tree_finds_nothing() {
    let tree = Builder::<Aabb, LargestExtend, SplitMiddle>::new(&[]).unwrap().build().unwrap();
    let ray = Ray::new(Point3::new(0, 0, 0), Point3::new(1, 1, 1));
    assert!(tree.candidates(&ray).is_empty());
}

#[test]
fn walk_finds_every_box_that_the_ray_hits() {
    let boxes = scattered(40);
    let tree = Builder::<Aabb, LargestExtend, SplitMiddle>::new(&boxes).unwrap().build().unwrap();
    let rays = [
        Ray::new(Point3::new(-10, -10, -10), Point3::new(1, 1, 1)),
        Ray::new(Point3::new(50, 40, -3), Point3::new(0, 0, 1)),
        Ray::new(Point3::new(120, 0, 50), Point3::new(-3, 2, 0)),
        Ray::new(Point3::new(0, 100, 100), Point3::new(2, -2, -1)),
    ];
    for ray in rays.iter() {
        let found = tree.candidates(ray);
        for (i, b) in boxes.iter().enumerate() {
            if b.intersect(ray) {
                assert!(found.contains(&i));
            }
        }
        for i in found {
            assert!(i < boxes.len());
        }
    }
}

#[test]
fn parts_of_a_box_on_either_side_of_a_plane() {
    let b = cuboid((0, 0, 0), (10, 10, 10));
    assert_eq!(b.lower_part(1, 4), cuboid((0, 0, 0), (10, 4, 10)));
    assert_eq!(b.upper_part(1, 4), cuboid((0, 4, 0), (10, 10, 10)));
    assert_eq!(b.lower_part(2, 12), b);
    assert_eq!(b.upper_part(0, -3), b);
    assert_eq!(Point3::new(1, 2, 3).with(0, 9), Point3::new(9, 2, 3));
    assert_eq!(Point3::new(1, 2, 3).with(2, 9), Point3::new(1, 2, 9));
}

struct Ball {
    center: (i32, i32, i32),
    radius: i32,
}

impl Primitive for Ball {
    fn bounds(&self) -> Aabb {
        let (x, y, z) = self.center;
        let r = self.radius;
        Aabb { min: Point3::new(x - r, y - r, z - r), max: Point3::new(x + r, y + r, z + r) }
    }

    fn bounding_box(&self) -> Aabb {
        self.bounds()
    }
}

#[test]
fn tree_refers_to_the_primitives_it_was_given() {
    let balls = [
        Ball { center: (0, 0, 0), radius: 1 },
        Ball { center: (10, 0, 0), radius: 2 },
        Ball { center: (20, 0, 0), radius: 1 },
    ];
    let builder = Builder::<Ball, LargestExtend, SplitMiddle>::new(&balls).unwrap();
    assert_eq!(builder.bounding_box(), Some(cuboid((-1, -2, -2), (21, 2, 2))));
    assert_eq!(builder.max_depth(), 11);
    let tree = builder.build().unwrap();
    assert_eq!(tree.primitives().len(), 3);
    assert_eq!(tree.primitives()[1].radius, 2);
    let ray = Ray::new(Point3::new(10, 0, -9), Point3::new(0, 0, 1));
    let found = tree.candidates(&ray);
    assert!(found.contains(&1));
    assert!(!found.contains(&0));
    let mut seen = vec![false; 3];
    collect(tree.root(), &mut seen);
    assert_eq!(seen, vec![true, true, true]);
}

#[test]
fn primitive_with_a_negative_radius_is_refused() {
    let balls = [Ball { center: (0, 0, 0), radius: 1 }, Ball { center: (5, 5, 5), radius: -1 }];
    assert!(matches!(Builder::<Ball, LargestExtend, SplitMiddle>::new(&balls), Err(BuildError::InvalidBounds)));
}

#[test]
fn a_box_is_its_own_bounding_box() {
    let b = cuboid((1, 2, 3), (4, 5, 6));
    assert_eq!(b.bounding_box(), b);
}

#[test]
fn box_and_axis_are_taken_from_the_primitives() {
    let balls = [Ball { center: (0, 0, 0), radius: 1 }, Ball { center: (0, 9, 3), radius: 2 }];
    assert_eq!(Aabb::from_primitives(&balls), Ok(cuboid((-2, -1, -1), (2, 11, 5))));
    assert_eq!(Aabb::from_primitives(&balls[..1]), Ok(cuboid((-1, -1, -1), (1, 1, 1))));
    assert_eq!(LargestExtend::select(&balls), 1);
}
