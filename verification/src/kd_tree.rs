//! The k-d tree, its builder, and what holds of every tree that is built.
use vstd::prelude::*;
use vstd::seq_lib::*;
use core::marker::PhantomData;
use crate::aabb::{above, all_ordered, below, union_of, Aabb};
use crate::depth::{depth_bound, depth_heuristic};
use crate::edge::{sort_edges, sorted_edges};
use crate::error::BuildError;
use crate::laws::{lemma_candidates_are_held, lemma_terminal_cases, lemma_tree_covers, lemma_tree_height};
use crate::primitive::{boxes_of, lemma_boxes_of_boxes, Primitive};
use crate::ray::Ray;
use crate::select::{AxisSelector, SplitSelector};
use crate::walk::lemma_tree_walk_complete;

verus! {

/// The end of a branch: the primitives left there, by their index in the
/// collection that the tree was built from.
#[derive(Debug)]
pub enum KdLeaf {
    /// A void: nothing to intersect.
    Empty,
    /// Exactly one primitive.
    Reference(usize),
    /// Two primitives or more.
    Slice(Vec<usize>),
}

/// A node of the tree.
#[derive(Debug)]
pub enum KdNode {
    Leaf(KdLeaf),
    /// A split by the plane at `split` on `axis`: `left` holds what
    /// reaches below the plane, `right` what reaches above it.
    Internal { axis: u8, split: i32, left: Box<KdNode>, right: Box<KdNode> },
}

/// A tree over a borrowed collection of primitives.
pub struct KdTree<'p, P, A, S> {
    primitives: &'p [P],
    tree: KdNode,
    bounding_box: Option<Aabb>,
    _phantoms: PhantomData<(A, S)>,
}

/// What a build works with: the primitives, the box around them and the
/// depth budget.
pub struct Builder<'p, P, A, S> {
    max_depth: usize,
    bounding_box: Option<Aabb>,
    primitives: &'p [P],
    boxes: Vec<Aabb>,
    _phantoms: PhantomData<(A, S)>,
}

/// The boxes that a list of indices names.
pub open spec fn gather(boxes: Seq<Aabb>, ids: Seq<usize>) -> Seq<Aabb> {
    Seq::new(ids.len(), |k: int| boxes[ids[k] as int])
}

/// Every index names one of `n` primitives.
pub open spec fn in_range(ids: Seq<usize>, n: int) -> bool {
    forall|k: int| 0 <= k < ids.len() ==> (#[trigger] ids[k]) < n
}

/// The indices `0, 1, .., n - 1`.
pub open spec fn all_ids(n: int) -> Seq<usize> {
    Seq::new(n as nat, |k: int| k as usize)
}

/// The box reaches below the plane, or lies flat in it.
pub open spec fn goes_left(b: Aabb, axis: int, split: int) -> bool {
    b.lo(axis) < split || b.hi(axis) <= split
}

/// The box reaches above the plane.
pub open spec fn goes_right(b: Aabb, axis: int, split: int) -> bool {
    b.hi(axis) > split
}

pub open spec fn left_pred(boxes: Seq<Aabb>, axis: int, split: int) -> spec_fn(usize) -> bool {
    |i: usize| goes_left(boxes[i as int], axis, split)
}

pub open spec fn right_pred(boxes: Seq<Aabb>, axis: int, split: int) -> spec_fn(usize) -> bool {
    |i: usize| goes_right(boxes[i as int], axis, split)
}

/// The indices handed to the left child, in their order.
pub open spec fn left_ids(boxes: Seq<Aabb>, ids: Seq<usize>, axis: int, split: int) -> Seq<usize> {
    ids.filter(left_pred(boxes, axis, split))
}

/// The indices handed to the right child, in their order.
pub open spec fn right_ids(boxes: Seq<Aabb>, ids: Seq<usize>, axis: int, split: int) -> Seq<usize> {
    ids.filter(right_pred(boxes, axis, split))
}

/// The axis that the strategy `A` picks for these boxes.
pub open spec fn split_axis<A: AxisSelector>(sub: Seq<Aabb>) -> int {
    A::choice(sub)
}

/// The coordinate of the split plane: that of the edge which the strategy
/// `S` picks in the sorted edges on the axis picked by `A`.
pub open spec fn split_value<A: AxisSelector, S: SplitSelector>(sub: Seq<Aabb>) -> int {
    let edges = sorted_edges(sub, A::choice(sub));
    edges[S::choice(edges)].t as int
}

/// A partition that separates nothing: one side is empty while the other
/// keeps everything, or both keep everything.
pub open spec fn degenerate(left: int, right: int, n: int) -> bool {
    ||| left == 0 && right == n
    ||| right == 0 && left == n
    ||| left == n && right == n
}

/// Whether the node for `ids` at `depth` is split: the depth budget is not
/// used up, there are two primitives or more, and the plane separates them.
pub open spec fn splits<A: AxisSelector, S: SplitSelector>(
    boxes: Seq<Aabb>,
    ids: Seq<usize>,
    depth: int,
    max_depth: int,
) -> bool {
    let sub = gather(boxes, ids);
    let axis = split_axis::<A>(sub);
    let split = split_value::<A, S>(sub);
    &&& depth <= max_depth
    &&& ids.len() >= 2
    &&& !degenerate(
        left_ids(boxes, ids, axis, split).len() as int,
        right_ids(boxes, ids, axis, split).len() as int,
        ids.len() as int,
    )
}

/// `node` is the subtree for the primitives `ids` at `depth`: a leaf in its
/// tightest form where the node is not split, else the plane that the
/// strategies pick, over the subtrees of the two sides.
pub open spec fn node_ok<A: AxisSelector, S: SplitSelector>(
    node: KdNode,
    boxes: Seq<Aabb>,
    ids: Seq<usize>,
    depth: int,
    max_depth: int,
) -> bool
    decreases node,
{
    match node {
        KdNode::Leaf(leaf) => leaf.holds(ids) && !splits::<A, S>(boxes, ids, depth, max_depth),
        KdNode::Internal { axis, split, left, right } => {
            let sub = gather(boxes, ids);
            &&& splits::<A, S>(boxes, ids, depth, max_depth)
            &&& axis == split_axis::<A>(sub)
            &&& split == split_value::<A, S>(sub)
            &&& node_ok::<A, S>(*left, boxes, left_ids(boxes, ids, axis as int, split as int), depth + 1, max_depth)
            &&& node_ok::<A, S>(
                *right,
                boxes,
                right_ids(boxes, ids, axis as int, split as int),
                depth + 1,
                max_depth,
            )
        },
    }
}

/// The primitives that a walk from `node` collects for `ray`: none where
/// the ray misses the node's region, else what the leaf holds, or what the
/// two children give for their parts of the region, the left one first.
pub open spec fn candidates_of(node: KdNode, region: Aabb, ray: Ray) -> Seq<usize>
    decreases node,
{
    if !region.hit_by(ray) {
        Seq::empty()
    } else {
        match node {
            KdNode::Leaf(leaf) => leaf.ids(),
            KdNode::Internal { axis, split, left, right } => candidates_of(
                *left,
                below(region, axis as int, split),
                ray,
            ) + candidates_of(*right, above(region, axis as int, split), ray),
        }
    }
}

/// The box around all primitives; none where there is no primitive.
pub open spec fn bounds_of(boxes: Seq<Aabb>) -> Option<Aabb> {
    if boxes.len() == 0 {
        None
    } else {
        Some(union_of(boxes))
    }
}

impl KdLeaf {
    /// The indices that the leaf holds.
    pub open spec fn ids(self) -> Seq<usize> {
        match self {
            KdLeaf::Empty => Seq::empty(),
            KdLeaf::Reference(i) => seq![i],
            KdLeaf::Slice(v) => v@,
        }
    }

    /// The leaf holds exactly `ids`, as a run only where there are two or more.
    pub open spec fn holds(self, ids: Seq<usize>) -> bool {
        &&& self.ids() == ids
        &&& self is Slice ==> ids.len() >= 2
    }

    /// The leaf for a list of indices.
    pub fn from_ids(ids: Vec<usize>) -> (leaf: KdLeaf)
        ensures
            leaf.holds(ids@),
            ids@.len() == 0 ==> leaf == KdLeaf::Empty,
            ids@.len() == 1 ==> leaf == KdLeaf::Reference(ids@[0]),
            ids@.len() >= 2 ==> leaf == KdLeaf::Slice(ids),
    {
        if ids.len() == 0 {
            proof {
                assert(ids@ =~= Seq::empty());
            }
            KdLeaf::Empty
        } else if ids.len() == 1 {
            proof {
                assert(ids@ =~= seq![ids@[0]]);
            }
            KdLeaf::Reference(ids[0])
        } else {
            KdLeaf::Slice(ids)
        }
    }

    /// The indices that the leaf holds, in a vector of their own.
    pub fn indices(&self) -> (v: Vec<usize>)
        ensures
            v@ == self.ids(),
    {
        match self {
            KdLeaf::Empty => Vec::new(),
            KdLeaf::Reference(i) => {
                let mut v = Vec::new();
                v.push(*i);
                proof {
                    assert(v@ =~= seq![*i]);
                }
                v
            },
            KdLeaf::Slice(run) => {
                let mut v = Vec::new();
                let mut k: usize = 0;
                while k < run.len()
                    invariant
                        k <= run@.len(),
                        v@ == run@.take(k as int),
                    decreases run@.len() - k,
                {
                    v.push(run[k]);
                    proof {
                        assert(v@ =~= run@.take(k + 1));
                    }
                    k += 1;
                }
                proof {
                    assert(run@.take(k as int) =~= run@);
                }
                v
            },
        }
    }
}

impl KdNode {
    /// Some leaf below the node holds the primitive `i`.
    pub open spec fn reaches(self, i: usize) -> bool
        decreases self,
    {
        match self {
            KdNode::Leaf(leaf) => leaf.ids().contains(i),
            KdNode::Internal { axis, split, left, right } => left.reaches(i) || right.reaches(i),
        }
    }

    /// The longest way down from the node to a leaf, in steps.
    pub open spec fn height(self) -> nat
        decreases self,
    {
        match self {
            KdNode::Leaf(leaf) => 0,
            KdNode::Internal { axis, split, left, right } => {
                let l = left.height();
                let r = right.height();
                if l < r {
                    r + 1
                } else {
                    l + 1
                }
            },
        }
    }

    /// Appends to `out` the primitives that a walk from the node collects.
    pub fn collect(&self, region: Aabb, ray: &Ray, out: &mut Vec<usize>)
        ensures
            final(out)@ == old(out)@ + candidates_of(*self, region, *ray),
        decreases self,
    {
        if !region.intersect(ray) {
            proof {
                assert(out@ + Seq::<usize>::empty() =~= out@);
            }
            return ;
        }
        match self {
            KdNode::Leaf(leaf) => {
                let mut found = leaf.indices();
                out.append(&mut found);
            },
            KdNode::Internal { axis, split, left, right } => {
                let ghost before = out@;
                let ghost l = candidates_of(**left, below(region, *axis as int, *split), *ray);
                let ghost r = candidates_of(**right, above(region, *axis as int, *split), *ray);
                left.collect(region.lower_part(*axis as usize, *split), ray, out);
                right.collect(region.upper_part(*axis as usize, *split), ray, out);
                proof {
                    assert((before + l) + r =~= before + (l + r));
                }
            },
        }
    }

    /// Whether the node is a leaf.
    pub fn is_leaf(&self) -> (r: bool)
        ensures
            r == (self is Leaf),
    {
        match self {
            KdNode::Leaf(_) => true,
            KdNode::Internal { .. } => false,
        }
    }
}

impl<'p, P: Primitive, A: AxisSelector, S: SplitSelector> Builder<'p, P, A, S> {
    /// The primitives that the builder was given.
    pub closed spec fn items(self) -> Seq<P> {
        self.primitives@
    }

    /// The boxes of the primitives.
    pub closed spec fn boxes(self) -> Seq<Aabb> {
        self.boxes@
    }

    /// The depth past which no node is split.
    pub closed spec fn depth_budget(self) -> int {
        self.max_depth as int
    }

    /// The box around all primitives.
    pub closed spec fn bounds(self) -> Option<Aabb> {
        self.bounding_box
    }

    /// The builder is what `new` makes of its primitives.
    pub open spec fn wf(self) -> bool {
        &&& self.boxes() == boxes_of(self.items())
        &&& all_ordered(self.boxes())
        &&& self.depth_budget() == depth_bound(self.boxes().len() as int)
        &&& 8 <= self.depth_budget() <= 92
        &&& self.bounds() == bounds_of(self.boxes())
    }

    /// Takes the primitives in: asks each for its box and checks it, and
    /// notes the box around all of them and the depth budget for their
    /// number.
    pub fn new(primitives: &'p [P]) -> (r: Result<Self, BuildError>)
        ensures
            all_ordered(boxes_of(primitives@)) ==> (r matches Ok(b) && b.wf() && b.items() == primitives@),
            !all_ordered(boxes_of(primitives@)) ==> (r matches Err(e) && e == BuildError::InvalidBounds),
    {
        let mut boxes: Vec<Aabb> = Vec::new();
        let mut i: usize = 0;
        while i < primitives.len()
            invariant
                i <= primitives@.len(),
                boxes@ == boxes_of(primitives@.take(i as int)),
                all_ordered(boxes@),
            decreases primitives@.len() - i,
        {
            let b = primitives[i].bounding_box();
            if !b.is_ordered() {
                proof {
                    assert(boxes_of(primitives@)[i as int] == b);
                }
                return Err(BuildError::InvalidBounds);
            }
            boxes.push(b);
            proof {
                assert(boxes@ =~= boxes_of(primitives@.take(i + 1)));
            }
            i += 1;
        }
        proof {
            assert(primitives@.take(i as int) =~= primitives@);
        }
        proof {
            lemma_boxes_of_boxes(boxes@);
        }
        let bounding_box = match Aabb::from_primitives(boxes.as_slice()) {
            Ok(b) => Some(b),
            Err(_) => None,
        };
        Ok(
            Builder {
                max_depth: depth_heuristic(boxes.len()),
                bounding_box,
                primitives,
                boxes,
                _phantoms: PhantomData,
            },
        )
    }

    /// The depth past which no node is split.
    pub fn max_depth(&self) -> (d: usize)
        ensures
            d == self.depth_budget(),
    {
        self.max_depth
    }

    /// The box around all primitives.
    pub fn bounding_box(&self) -> (b: Option<Aabb>)
        ensures
            b == self.bounds(),
    {
        self.bounding_box
    }

    /// The boxes that `ids` names, in the order of `ids`.
    fn gather_boxes(&self, ids: &Vec<usize>) -> (sub: Vec<Aabb>)
        requires
            in_range(ids@, self.boxes().len() as int),
        ensures
            sub@ == gather(self.boxes(), ids@),
    {
        let mut sub: Vec<Aabb> = Vec::new();
        let mut k: usize = 0;
        while k < ids.len()
            invariant
                k <= ids@.len(),
                in_range(ids@, self.boxes@.len() as int),
                sub@ == gather(self.boxes@, ids@.take(k as int)),
            decreases ids@.len() - k,
        {
            sub.push(self.boxes[ids[k]]);
            proof {
                assert(sub@ =~= gather(self.boxes@, ids@.take(k + 1)));
            }
            k += 1;
        }
        proof {
            assert(ids@.take(k as int) =~= ids@);
        }
        sub
    }

    /// Divides `ids` by the plane at `split` on `axis`.
    fn partition(&self, ids: &Vec<usize>, axis: usize, split: i32) -> (sides: (Vec<usize>, Vec<usize>))
        requires
            in_range(ids@, self.boxes().len() as int),
        ensures
            sides.0@ == left_ids(self.boxes(), ids@, axis as int, split as int),
            sides.1@ == right_ids(self.boxes(), ids@, axis as int, split as int),
            in_range(sides.0@, self.boxes().len() as int),
            in_range(sides.1@, self.boxes().len() as int),
            sides.0@.len() <= ids@.len(),
            sides.1@.len() <= ids@.len(),
    {
        let mut left: Vec<usize> = Vec::new();
        let mut right: Vec<usize> = Vec::new();
        let mut k: usize = 0;
        let ghost boxes = self.boxes@;
        proof {
            reveal(Seq::filter);
            assert(ids@.take(0) =~= Seq::<usize>::empty());
        }
        while k < ids.len()
            invariant
                k <= ids@.len(),
                boxes == self.boxes@,
                in_range(ids@, boxes.len() as int),
                left@ == left_ids(boxes, ids@.take(k as int), axis as int, split as int),
                right@ == right_ids(boxes, ids@.take(k as int), axis as int, split as int),
                in_range(left@, boxes.len() as int),
                in_range(right@, boxes.len() as int),
                left@.len() <= k,
                right@.len() <= k,
            decreases ids@.len() - k,
        {
            let i = ids[k];
            let b = self.boxes[i];
            let lo = b.min.get(axis);
            let hi = b.max.get(axis);
            proof {
                assert(ids@.take(k + 1) =~= ids@.take(k as int).push(i));
                ids@.take(k as int).lemma_filter_push(i, left_pred(boxes, axis as int, split as int));
                ids@.take(k as int).lemma_filter_push(i, right_pred(boxes, axis as int, split as int));
            }
            if lo < split || hi <= split {
                left.push(i);
            }
            if hi > split {
                right.push(i);
            }
            k += 1;
        }
        proof {
            assert(ids@.take(k as int) =~= ids@);
        }
        (left, right)
    }

    /// Builds the subtree for the primitives `ids` at `depth`.
    #[verifier::rlimit(50)]
    fn build_rec(&self, depth: usize, ids: Vec<usize>) -> (r: Result<KdNode, BuildError>)
        requires
            self.wf(),
            depth <= self.depth_budget() + 1,
            in_range(ids@, self.boxes().len() as int),
        ensures
            r.is_err() <==> !S::supported() && depth <= self.depth_budget() && ids@.len() >= 2,
            r matches Err(e) ==> e == BuildError::UnsupportedStrategy,
            r matches Ok(node) ==> node_ok::<A, S>(node, self.boxes(), ids@, depth as int, self.depth_budget()),
        decreases self.depth_budget() + 1 - depth,
    {
        if depth > self.max_depth || ids.len() < 2 {
            return Ok(KdNode::Leaf(KdLeaf::from_ids(ids)));
        }
        let sub = self.gather_boxes(&ids);
        proof {
            lemma_boxes_of_boxes(sub@);
        }
        let axis = A::select(sub.as_slice());
        let edges = match sort_edges(sub.as_slice(), axis) {
            Ok(edges) => edges,
            Err(e) => {
                return Err(e);
            },
        };
        let index = match S::select(edges.as_slice()) {
            Ok(index) => index,
            Err(e) => {
                return Err(e);
            },
        };
        let split = edges[index].t;
        proof {
            let sub_boxes = gather(self.boxes(), ids@);
            assert(sub@ == sub_boxes);
            assert(axis == split_axis::<A>(sub_boxes));
            assert(edges@ == sorted_edges(sub_boxes, A::choice(sub_boxes)));
            assert(S::supported());
            assert(index == S::choice(edges@));
            assert(split == edges@[S::choice(edges@)].t);
            assert(split == split_value::<A, S>(sub_boxes));
        }
        let (left, right) = self.partition(&ids, axis, split);
        let n = ids.len();
        if (left.len() == 0 && right.len() == n) || (right.len() == 0 && left.len() == n) || (left.len() == n
            && right.len() == n) {
            proof {
                assert(degenerate(left@.len() as int, right@.len() as int, ids@.len() as int));
            }
            return Ok(KdNode::Leaf(KdLeaf::from_ids(ids)));
        }
        let l = match self.build_rec(depth + 1, left) {
            Ok(node) => node,
            Err(e) => {
                return Err(e);
            },
        };
        let r = match self.build_rec(depth + 1, right) {
            Ok(node) => node,
            Err(e) => {
                return Err(e);
            },
        };
        Ok(KdNode::Internal { axis: axis as u8, split, left: Box::new(l), right: Box::new(r) })
    }

    /// Builds the tree over all primitives. It fails only where a node has
    /// to be split and the split strategy has no rule.
    pub fn build(self) -> (r: Result<KdTree<'p, P, A, S>, BuildError>)
        requires
            self.wf(),
        ensures
            r.is_err() <==> !S::supported() && self.items().len() >= 2,
            r matches Err(e) ==> e == BuildError::UnsupportedStrategy,
            r matches Ok(tree) ==> tree.wf() && tree.items() == self.items() && tree.bounds() == self.bounds(),
            r matches Ok(tree) ==> forall|i: usize| #[trigger]
                tree.root_node().reaches(i) <==> i < self.items().len(),
            r matches Ok(tree) ==> tree.root_node().height() <= self.depth_budget() + 1,
            r matches Ok(tree) ==> (self.items().len() == 0 ==> tree.root_node() == KdNode::Leaf(KdLeaf::Empty)),
            r matches Ok(tree) ==> (self.items().len() == 1 ==> tree.root_node() == KdNode::Leaf(
                KdLeaf::Reference(0),
            )),
    {
        let n = self.boxes.len();
        let mut ids: Vec<usize> = Vec::new();
        let mut k: usize = 0;
        while k < n
            invariant
                k <= n,
                n == self.boxes@.len(),
                ids@ == all_ids(k as int),
            decreases n - k,
        {
            ids.push(k);
            proof {
                assert(ids@ =~= all_ids(k + 1));
            }
            k += 1;
        }
        match self.build_rec(0, ids) {
            Ok(root) => {
                let tree = KdTree {
                    primitives: self.primitives,
                    tree: root,
                    bounding_box: self.bounding_box,
                    _phantoms: PhantomData,
                };
                proof {
                    assert forall|i: usize| #[trigger] tree.root_node().reaches(i) <==> i < self.items().len() by {
                        lemma_tree_covers::<P, A, S>(tree, i);
                    }
                    lemma_tree_height::<P, A, S>(tree);
                    lemma_terminal_cases::<P, A, S>(tree);
                }
                Ok(tree)
            },
            Err(e) => Err(e),
        }
    }
}

impl<'p, P: Primitive, A: AxisSelector, S: SplitSelector> KdTree<'p, P, A, S> {
    /// The primitives that the tree indexes.
    pub closed spec fn items(self) -> Seq<P> {
        self.primitives@
    }

    /// The boxes of the primitives that the tree indexes.
    pub open spec fn boxes(self) -> Seq<Aabb> {
        boxes_of(self.items())
    }

    /// The root node.
    pub closed spec fn root_node(self) -> KdNode {
        self.tree
    }

    /// The box around all primitives.
    pub closed spec fn bounds(self) -> Option<Aabb> {
        self.bounding_box
    }

    /// The tree is the one that a build makes of its primitives.
    pub open spec fn wf(self) -> bool {
        &&& all_ordered(self.boxes())
        &&& self.bounds() == bounds_of(self.boxes())
        &&& node_ok::<A, S>(
            self.root_node(),
            self.boxes(),
            all_ids(self.boxes().len() as int),
            0,
            depth_bound(self.boxes().len() as int),
        )
    }

    /// The root node.
    pub fn root(&self) -> (node: &KdNode)
        ensures
            *node == self.root_node(),
    {
        &self.tree
    }

    /// The primitives that the tree indexes.
    pub fn primitives(&self) -> (p: &'p [P])
        ensures
            p@ == self.items(),
    {
        self.primitives
    }

    /// The primitives that `ray` may hit: a walk from the root that enters
    /// a node only where the ray hits the node's region. Every primitive
    /// whose box the ray hits is among them, and each of them is a
    /// primitive of the tree. A tree over nothing gives none.
    pub fn candidates(&self, ray: &Ray) -> (found: Vec<usize>)
        requires
            self.wf(),
        ensures
            found@ == match self.bounds() {
                Some(region) => candidates_of(self.root_node(), region, *ray),
                None => Seq::empty(),
            },
            forall|i: usize|
                i < self.boxes().len() && (#[trigger] self.boxes()[i as int]).hit_by(*ray) ==> found@.contains(i),
            forall|k: int| 0 <= k < found@.len() ==> (#[trigger] found@[k]) < self.boxes().len(),
    {
        let mut found: Vec<usize> = Vec::new();
        match self.bounding_box {
            Some(region) => {
                self.tree.collect(region, ray, &mut found);
                proof {
                    assert(Seq::<usize>::empty() + candidates_of(self.tree, region, *ray) =~= candidates_of(
                        self.tree,
                        region,
                        *ray,
                    ));
                    assert forall|i: usize|
                        i < self.boxes().len() && (#[trigger] self.boxes()[i as int]).hit_by(*ray) implies found@.contains(
                        i,
                    ) by {
                        lemma_tree_walk_complete::<P, A, S>(*self, *ray, i);
                    }
                    assert forall|k: int| 0 <= k < found@.len() implies (#[trigger] found@[k]) < self.boxes().len() by {
                        assert(found@.contains(found@[k]));
                        lemma_candidates_are_held(self.tree, region, *ray, found@[k]);
                        lemma_tree_covers::<P, A, S>(*self, found@[k]);
                    }
                }
            },
            None => {},
        }
        found
    }

    /// The box around all primitives; none for a tree over nothing.
    pub fn bounding_box(&self) -> (b: Option<Aabb>)
        ensures
            b == self.bounds(),
    {
        self.bounding_box
    }
}

} // verus!
