//! The strategies that pick the axis to split on and the place to split at.
use vstd::prelude::*;
use crate::aabb::{max_hi, min_lo, Aabb};
use crate::edge::Edge;
use crate::error::BuildError;
use crate::primitive::{boxes_of, Primitive};
use crate::N_DIMS;

verus! {

/// Picks the axis on which a node is split.
pub trait AxisSelector {
    /// The axis picked for these boxes.
    spec fn choice(boxes: Seq<Aabb>) -> int;

    /// Picks the axis for the primitives, going by their boxes.
    fn select<P: Primitive>(primitives: &[P]) -> (axis: usize)
        ensures
            axis == Self::choice(boxes_of(primitives@)),
            axis < N_DIMS,
    ;
}

/// Picks the place in the sorted edge list at which a node is split.
pub trait SplitSelector: Sized {
    /// Whether the strategy has a rule at all.
    spec fn supported() -> bool;

    /// The index picked in this edge list.
    spec fn choice(edges: Seq<Edge>) -> int;

    /// Picks the index in the edge list, or says that the strategy has no
    /// rule. An index picked in a list that is not empty lies inside it.
    fn select(edges: &[Edge]) -> (r: Result<usize, BuildError>)
        ensures
            Self::supported() ==> r == Ok::<usize, BuildError>(Self::choice(edges@) as usize),
            Self::supported() ==> 0 <= Self::choice(edges@) <= edges@.len(),
            Self::supported() && edges@.len() > 0 ==> Self::choice(edges@) < edges@.len(),
            !Self::supported() ==> r == Err::<usize, BuildError>(BuildError::UnsupportedStrategy),
    ;
}

/// How far the boxes reach on `axis`: from the least lower bound to the
/// greatest upper bound.
pub open spec fn span(boxes: Seq<Aabb>, axis: int) -> int {
    max_hi(boxes, axis) - min_lo(boxes, axis)
}

/// The axis of the largest span; among equals the lowest.
pub open spec fn largest_extent_axis(boxes: Seq<Aabb>) -> int {
    let best = if span(boxes, 0) < span(boxes, 1) {
        1int
    } else {
        0int
    };
    if span(boxes, best) < span(boxes, 2) {
        2int
    } else {
        best
    }
}

/// The axis that `largest_extent_axis` names has a span that no axis
/// exceeds and that no lower axis reaches.
pub proof fn lemma_largest_extent_axis(boxes: Seq<Aabb>, a: int)
    requires
        0 <= a < 3,
    ensures
        0 <= largest_extent_axis(boxes) < 3,
        span(boxes, a) <= span(boxes, largest_extent_axis(boxes)),
        a < largest_extent_axis(boxes) ==> span(boxes, a) < span(boxes, largest_extent_axis(boxes)),
{
}

/// Where the first two axes span the same and the third spans less, the
/// first axis is picked.
pub proof fn lemma_tie_goes_to_first_axis(boxes: Seq<Aabb>)
    requires
        span(boxes, 0) == span(boxes, 1),
        span(boxes, 2) < span(boxes, 0),
    ensures
        largest_extent_axis(boxes) == 0,
{
}

/// Splits on the axis along which the primitives reach furthest.
pub struct LargestExtend;

/// Splits at the middle of the edge list.
pub struct SplitMiddle;

/// Splits by the surface-area heuristic: named, without a rule so far.
pub struct SAH;

/// The reach of the primitives on `axis`, as lower and upper bound.
fn reach<P: Primitive>(primitives: &[P], axis: usize) -> (r: (i32, i32))
    ensures
        r.0 == min_lo(boxes_of(primitives@), axis as int),
        r.1 == max_hi(boxes_of(primitives@), axis as int),
{
    if primitives.len() == 0 {
        return (0, 0);
    }
    let ghost ax = axis as int;
    let ghost boxes = boxes_of(primitives@);
    let first = primitives[0].bounding_box();
    let mut lo: i32 = first.min.get(axis);
    let mut hi: i32 = first.max.get(axis);
    let mut i: usize = 1;
    proof {
        assert(boxes.take(1).len() == 1);
        assert(boxes.take(1)[0] == boxes[0]);
    }
    while i < primitives.len()
        invariant
            1 <= i <= primitives@.len(),
            ax == axis as int,
            boxes == boxes_of(primitives@),
            lo == min_lo(boxes.take(i as int), ax),
            hi == max_hi(boxes.take(i as int), ax),
        decreases primitives@.len() - i,
    {
        let b = primitives[i].bounding_box();
        let l = b.min.get(axis);
        let h = b.max.get(axis);
        proof {
            let next = boxes.take(i + 1);
            assert(next.drop_last() =~= boxes.take(i as int));
            assert(next.last() == boxes[i as int]);
        }
        if l < lo {
            lo = l;
        }
        if h > hi {
            hi = h;
        }
        i += 1;
    }
    proof {
        assert(boxes.take(i as int) =~= boxes);
    }
    (lo, hi)
}

/// How far the primitives reach on `axis`.
fn spread<P: Primitive>(primitives: &[P], axis: usize) -> (s: i64)
    ensures
        s == span(boxes_of(primitives@), axis as int),
{
    let (lo, hi) = reach(primitives, axis);
    hi as i64 - lo as i64
}

impl AxisSelector for LargestExtend {
    open spec fn choice(boxes: Seq<Aabb>) -> int {
        largest_extent_axis(boxes)
    }

    fn select<P: Primitive>(primitives: &[P]) -> (axis: usize) {
        let s0 = spread(primitives, 0);
        let s1 = spread(primitives, 1);
        let s2 = spread(primitives, 2);
        let (best, best_span) = if s0 < s1 {
            (1, s1)
        } else {
            (0, s0)
        };
        if best_span < s2 {
            2
        } else {
            best
        }
    }
}

impl SplitSelector for SplitMiddle {
    open spec fn supported() -> bool {
        true
    }

    open spec fn choice(edges: Seq<Edge>) -> int {
        edges.len() as int / 2
    }

    fn select(edges: &[Edge]) -> (r: Result<usize, BuildError>) {
        Ok(edges.len() / 2)
    }
}

impl SplitSelector for SAH {
    open spec fn supported() -> bool {
        false
    }

    open spec fn choice(edges: Seq<Edge>) -> int {
        0
    }

    fn select(edges: &[Edge]) -> (r: Result<usize, BuildError>) {
        Err(BuildError::UnsupportedStrategy)
    }
}

} // verus!
