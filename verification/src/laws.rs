//! What holds of every tree that a build returns.
use vstd::prelude::*;
use vstd::seq_lib::*;
use crate::aabb::{above, all_ordered, below, lemma_extremes, lemma_union_of_one, overlaps, union_of, Aabb};
use crate::depth::{depth_bound, lemma_scaled_log_exists};
use crate::kd_tree::{
    all_ids, bounds_of, candidates_of, goes_left, goes_right, in_range, left_ids, left_pred, node_ok, right_ids, right_pred,
    splits, KdLeaf, KdNode, KdTree,
};
use crate::primitive::Primitive;
use crate::ray::Ray;
use crate::select::{AxisSelector, SplitSelector};

verus! {

/// Every primitive below `node` overlaps `region`, and the same holds of
/// each child with the part of the region on its side of the plane.
pub open spec fn conservative(node: KdNode, boxes: Seq<Aabb>, region: Aabb) -> bool
    decreases node,
{
    &&& forall|i: usize| #[trigger] node.reaches(i) ==> overlaps(boxes[i as int], region)
    &&& match node {
        KdNode::Leaf(leaf) => true,
        KdNode::Internal { axis, split, left, right } => {
            &&& conservative(*left, boxes, below(region, axis as int, split))
            &&& conservative(*right, boxes, above(region, axis as int, split))
        },
    }
}

/// A subtree holds no primitive that was not handed to it.
pub proof fn lemma_reaches_only_members<A: AxisSelector, S: SplitSelector>(
    node: KdNode,
    boxes: Seq<Aabb>,
    ids: Seq<usize>,
    depth: int,
    max_depth: int,
    i: usize,
)
    requires
        node_ok::<A, S>(node, boxes, ids, depth, max_depth),
        node.reaches(i),
    ensures
        ids.contains(i),
    decreases node,
{
    match node {
        KdNode::Leaf(leaf) => {},
        KdNode::Internal { axis, split, left, right } => {
            if left.reaches(i) {
                let l = left_ids(boxes, ids, axis as int, split as int);
                lemma_reaches_only_members::<A, S>(*left, boxes, l, depth + 1, max_depth, i);
                ids.lemma_filter_contains_rev(left_pred(boxes, axis as int, split as int), i);
            } else {
                let r = right_ids(boxes, ids, axis as int, split as int);
                lemma_reaches_only_members::<A, S>(*right, boxes, r, depth + 1, max_depth, i);
                ids.lemma_filter_contains_rev(right_pred(boxes, axis as int, split as int), i);
            }
        },
    }
}

/// A subtree holds every primitive that was handed to it: none is dropped
/// where a node is split.
pub proof fn lemma_subtree_covers<A: AxisSelector, S: SplitSelector>(
    node: KdNode,
    boxes: Seq<Aabb>,
    ids: Seq<usize>,
    depth: int,
    max_depth: int,
    i: usize,
)
    requires
        node_ok::<A, S>(node, boxes, ids, depth, max_depth),
        all_ordered(boxes),
        in_range(ids, boxes.len() as int),
        ids.contains(i),
    ensures
        node.reaches(i),
    decreases node,
{
    match node {
        KdNode::Leaf(leaf) => {},
        KdNode::Internal { axis, split, left, right } => {
            let k = choose|k: int| 0 <= k < ids.len() && ids[k] == i;
            let b = boxes[i as int];
            assert(b.wf());
            assert(b.lo(axis as int) <= b.hi(axis as int));
            let l = left_ids(boxes, ids, axis as int, split as int);
            let r = right_ids(boxes, ids, axis as int, split as int);
            lemma_side_in_range(boxes, ids, axis as int, split as int);
            if goes_left(b, axis as int, split as int) {
                ids.lemma_filter_contains(left_pred(boxes, axis as int, split as int), k);
                lemma_subtree_covers::<A, S>(*left, boxes, l, depth + 1, max_depth, i);
            } else {
                assert(goes_right(b, axis as int, split as int));
                ids.lemma_filter_contains(right_pred(boxes, axis as int, split as int), k);
                lemma_subtree_covers::<A, S>(*right, boxes, r, depth + 1, max_depth, i);
            }
        },
    }
}

/// Both sides of a partition name primitives of the collection, each on
/// its side of the plane.
pub proof fn lemma_side_in_range(boxes: Seq<Aabb>, ids: Seq<usize>, axis: int, split: int)
    requires
        in_range(ids, boxes.len() as int),
    ensures
        in_range(left_ids(boxes, ids, axis, split), boxes.len() as int),
        in_range(right_ids(boxes, ids, axis, split), boxes.len() as int),
        forall|k: int|
            0 <= k < left_ids(boxes, ids, axis, split).len() ==> goes_left(
                boxes[(#[trigger] left_ids(boxes, ids, axis, split)[k]) as int],
                axis,
                split,
            ),
        forall|k: int|
            0 <= k < right_ids(boxes, ids, axis, split).len() ==> goes_right(
                boxes[(#[trigger] right_ids(boxes, ids, axis, split)[k]) as int],
                axis,
                split,
            ),
{
    let l = left_ids(boxes, ids, axis, split);
    let r = right_ids(boxes, ids, axis, split);
    assert forall|k: int| 0 <= k < l.len() implies (#[trigger] l[k]) < boxes.len() && goes_left(
        boxes[l[k] as int],
        axis,
        split,
    ) by {
        assert(l.contains(l[k]));
        ids.lemma_filter_contains_rev(left_pred(boxes, axis, split), l[k]);
        ids.lemma_filter_pred(left_pred(boxes, axis, split), k);
    }
    assert forall|k: int| 0 <= k < r.len() implies (#[trigger] r[k]) < boxes.len() && goes_right(
        boxes[r[k] as int],
        axis,
        split,
    ) by {
        assert(r.contains(r[k]));
        ids.lemma_filter_contains_rev(right_pred(boxes, axis, split), r[k]);
        ids.lemma_filter_pred(right_pred(boxes, axis, split), k);
    }
}

/// No leaf of a subtree lies more than one step below the depth budget.
pub proof fn lemma_subtree_height<A: AxisSelector, S: SplitSelector>(
    node: KdNode,
    boxes: Seq<Aabb>,
    ids: Seq<usize>,
    depth: int,
    max_depth: int,
)
    requires
        node_ok::<A, S>(node, boxes, ids, depth, max_depth),
        depth <= max_depth + 1,
    ensures
        depth + node.height() <= max_depth + 1,
    decreases node,
{
    match node {
        KdNode::Leaf(leaf) => {},
        KdNode::Internal { axis, split, left, right } => {
            let l = left_ids(boxes, ids, axis as int, split as int);
            let r = right_ids(boxes, ids, axis as int, split as int);
            lemma_subtree_height::<A, S>(*left, boxes, l, depth + 1, max_depth);
            lemma_subtree_height::<A, S>(*right, boxes, r, depth + 1, max_depth);
        },
    }
}

/// Where every primitive handed to a subtree overlaps a region, the
/// subtree is conservative for that region.
#[verifier::rlimit(50)]
pub proof fn lemma_subtree_conservative<A: AxisSelector, S: SplitSelector>(
    node: KdNode,
    boxes: Seq<Aabb>,
    ids: Seq<usize>,
    depth: int,
    max_depth: int,
    region: Aabb,
)
    requires
        node_ok::<A, S>(node, boxes, ids, depth, max_depth),
        all_ordered(boxes),
        in_range(ids, boxes.len() as int),
        forall|k: int| 0 <= k < ids.len() ==> overlaps(boxes[(#[trigger] ids[k]) as int], region),
    ensures
        conservative(node, boxes, region),
    decreases node,
{
    assert forall|i: usize| #[trigger] node.reaches(i) implies overlaps(boxes[i as int], region) by {
        lemma_reaches_only_members::<A, S>(node, boxes, ids, depth, max_depth, i);
        let k = choose|k: int| 0 <= k < ids.len() && ids[k] == i;
        assert(overlaps(boxes[ids[k] as int], region));
    }
    match node {
        KdNode::Leaf(leaf) => {},
        KdNode::Internal { axis, split, left, right } => {
            let l = left_ids(boxes, ids, axis as int, split as int);
            let r = right_ids(boxes, ids, axis as int, split as int);
            lemma_side_in_range(boxes, ids, axis as int, split as int);
            assert forall|k: int| 0 <= k < l.len() implies overlaps(
                boxes[(#[trigger] l[k]) as int],
                below(region, axis as int, split),
            ) by {
                let i = l[k];
                assert(l.contains(i));
                ids.lemma_filter_contains_rev(left_pred(boxes, axis as int, split as int), i);
                let j = choose|j: int| 0 <= j < ids.len() && ids[j] == i;
                assert(overlaps(boxes[ids[j] as int], region));
                assert(boxes[i as int].wf());
                assert(goes_left(boxes[i as int], axis as int, split as int));
            }
            assert forall|k: int| 0 <= k < r.len() implies overlaps(
                boxes[(#[trigger] r[k]) as int],
                above(region, axis as int, split),
            ) by {
                let i = r[k];
                assert(r.contains(i));
                ids.lemma_filter_contains_rev(right_pred(boxes, axis as int, split as int), i);
                let j = choose|j: int| 0 <= j < ids.len() && ids[j] == i;
                assert(overlaps(boxes[ids[j] as int], region));
                assert(boxes[i as int].wf());
                assert(goes_right(boxes[i as int], axis as int, split as int));
            }
            lemma_subtree_conservative::<A, S>(*left, boxes, l, depth + 1, max_depth, below(region, axis as int, split));
            lemma_subtree_conservative::<A, S>(*right, boxes, r, depth + 1, max_depth, above(region, axis as int, split));
        },
    }
}

/// Coverage: every primitive of the collection is held by some leaf of the
/// tree, and the leaves hold nothing else.
pub proof fn lemma_tree_covers<P: Primitive, A: AxisSelector, S: SplitSelector>(tree: KdTree<P, A, S>, i: usize)
    requires
        tree.wf(),
    ensures
        tree.root_node().reaches(i) <==> i < tree.boxes().len(),
{
    let n = tree.boxes().len() as int;
    let ids = all_ids(n);
    if i < n {
        assert(ids[i as int] == i);
        assert(ids.contains(i));
        lemma_subtree_covers::<A, S>(tree.root_node(), tree.boxes(), ids, 0, depth_bound(n), i);
    }
    if tree.root_node().reaches(i) {
        lemma_reaches_only_members::<A, S>(tree.root_node(), tree.boxes(), ids, 0, depth_bound(n), i);
    }
}

/// Conservative containment: under every node of the tree, each primitive
/// overlaps the region that the node inherits, which for the root is the
/// box around all primitives.
pub proof fn lemma_tree_conservative<P: Primitive, A: AxisSelector, S: SplitSelector>(tree: KdTree<P, A, S>)
    requires
        tree.wf(),
        tree.boxes().len() > 0,
    ensures
        tree.bounds() == Some(union_of(tree.boxes())),
        conservative(tree.root_node(), tree.boxes(), union_of(tree.boxes())),
{
    let boxes = tree.boxes();
    let n = boxes.len() as int;
    let ids = all_ids(n);
    let region = union_of(boxes);
    lemma_extremes(boxes, 0);
    lemma_extremes(boxes, 1);
    lemma_extremes(boxes, 2);
    assert forall|k: int| 0 <= k < ids.len() implies overlaps(boxes[(#[trigger] ids[k]) as int], region) by {
        assert(boxes[k].wf());
    }
    lemma_subtree_conservative::<A, S>(tree.root_node(), boxes, ids, 0, depth_bound(n), region);
}

/// Depth: the root being at depth 0, no node is split below the depth
/// budget of the collection, so every leaf lies at most one step below it.
pub proof fn lemma_tree_height<P: Primitive, A: AxisSelector, S: SplitSelector>(tree: KdTree<P, A, S>)
    requires
        tree.wf(),
    ensures
        tree.root_node().height() <= depth_bound(tree.boxes().len() as int) + 1,
{
    let n = tree.boxes().len() as int;
    lemma_depth_bound_floor(n);
    lemma_subtree_height::<A, S>(tree.root_node(), tree.boxes(), all_ids(n), 0, depth_bound(n));
}

/// Depth within the budget: unless a node at the very end of the budget
/// was split, which puts a leaf one step below it, no leaf lies deeper
/// than `8 + ceil(1.3 * log2(n))`.
pub proof fn lemma_leaves_within_budget<P: Primitive, A: AxisSelector, S: SplitSelector>(tree: KdTree<P, A, S>)
    requires
        tree.wf(),
        tree.root_node().height() != depth_bound(tree.boxes().len() as int) + 1,
    ensures
        tree.root_node().height() <= depth_bound(tree.boxes().len() as int),
{
    lemma_tree_height(tree);
}

/// The depth budget is never below eight.
pub proof fn lemma_depth_bound_floor(n: int)
    ensures
        depth_bound(n) >= 8,
{
    if n > 0 {
        lemma_scaled_log_exists(n);
    }
}

/// A walk collects only primitives that the subtree holds.
pub proof fn lemma_candidates_are_held(node: KdNode, region: Aabb, ray: Ray, i: usize)
    requires
        candidates_of(node, region, ray).contains(i),
    ensures
        node.reaches(i),
    decreases node,
{
    match node {
        KdNode::Leaf(leaf) => {},
        KdNode::Internal { axis, split, left, right } => {
            let l = candidates_of(*left, below(region, axis as int, split), ray);
            let r = candidates_of(*right, above(region, axis as int, split), ray);
            let k = choose|k: int| 0 <= k < (l + r).len() && (l + r)[k] == i;
            if k < l.len() {
                assert(l[k] == i);
                lemma_candidates_are_held(*left, below(region, axis as int, split), ray, i);
            } else {
                assert(r[k - l.len()] == i);
                lemma_candidates_are_held(*right, above(region, axis as int, split), ray, i);
            }
        },
    }
}

/// Terminal cases: the tree over nothing is an empty leaf, and the tree
/// over one primitive is the leaf that refers to it.
pub proof fn lemma_terminal_cases<P: Primitive, A: AxisSelector, S: SplitSelector>(tree: KdTree<P, A, S>)
    requires
        tree.wf(),
    ensures
        tree.boxes().len() == 0 ==> tree.root_node() == KdNode::Leaf(KdLeaf::Empty),
        tree.boxes().len() == 1 ==> tree.root_node() == KdNode::Leaf(KdLeaf::Reference(0)),
{
    let n = tree.boxes().len() as int;
    let ids = all_ids(n);
    if n <= 1 {
        assert(!splits::<A, S>(tree.boxes(), ids, 0, depth_bound(n)));
        match tree.root_node() {
            KdNode::Leaf(leaf) => {
                if n == 1 {
                    assert(ids[0] == 0);
                    assert(leaf.ids()[0] == 0);
                }
                match leaf {
                    KdLeaf::Empty => {},
                    KdLeaf::Reference(i) => {},
                    KdLeaf::Slice(v) => {},
                }
            },
            KdNode::Internal { .. } => {},
        }
    }
}

/// Box round-trip: the box around a single primitive is that primitive's
/// own box.
pub proof fn lemma_single_primitive_bounds(b: Aabb)
    ensures
        bounds_of(seq![b]) == Some(b),
{
    lemma_union_of_one(b);
}

} // verus!
