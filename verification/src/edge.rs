//! Interval endpoints along one axis, and their sorted lists.
use vstd::prelude::*;
use vstd::seq_lib::*;
use crate::aabb::Aabb;
use crate::axis::{edges_of_box, Axis, Cast, X, Y, Z};
use crate::error::BuildError;

verus! {

/// Which end of a primitive's extent an edge marks.
#[derive(Clone, Copy, Debug, PartialEq, Eq, PartialOrd, Ord, Structural)]
pub enum EdgeType {
    Start,
    End,
}

/// One end of a primitive's extent on an axis.
#[derive(Clone, Copy, Debug, PartialEq, Eq, Ord, Structural)]
pub struct Edge {
    pub t: i32,
    pub type_: EdgeType,
}

impl EdgeType {
    /// `Start` ranks before `End`.
    pub open spec fn rank(self) -> int {
        match self {
            EdgeType::Start => 0,
            EdgeType::End => 1,
        }
    }
}

impl Edge {
    /// The order of edges: by coordinate, and at one coordinate a start
    /// before an end.
    pub open spec fn no_later_than(self, other: Edge) -> bool {
        self.t < other.t || (self.t == other.t && self.type_.rank() <= other.type_.rank())
    }

    /// The edge at which an extent starts.
    pub fn start(t: i32) -> (e: Edge)
        ensures
            e == (Edge { t, type_: EdgeType::Start }),
    {
        Edge { t, type_: EdgeType::Start }
    }

    /// The edge at which an extent ends.
    pub fn end(t: i32) -> (e: Edge)
        ensures
            e == (Edge { t, type_: EdgeType::End }),
    {
        Edge { t, type_: EdgeType::End }
    }

    /// Whether `self` comes no later than `other` in the order of edges.
    pub fn precedes(&self, other: &Edge) -> (r: bool)
        ensures
            r == self.no_later_than(*other),
    {
        if self.t < other.t {
            true
        } else if self.t == other.t {
            match (self.type_, other.type_) {
                (EdgeType::End, EdgeType::Start) => false,
                _ => true,
            }
        } else {
            false
        }
    }
}

/// Each edge comes no later than every edge behind it.
pub open spec fn sorted(edges: Seq<Edge>) -> bool {
    forall|i: int, j: int| 0 <= i < j < edges.len() ==> (#[trigger] edges[i]).no_later_than(#[trigger] edges[j])
}

/// The edges of a sequence of boxes on `axis`, box by box: each box gives
/// its start and then its end.
pub open spec fn edges_of(boxes: Seq<Aabb>, axis: int) -> Seq<Edge> {
    Seq::new(
        2 * boxes.len(),
        |k: int|
            if k % 2 == 0 {
                Edge { t: boxes[k / 2].lo(axis) as i32, type_: EdgeType::Start }
            } else {
                Edge { t: boxes[k / 2].hi(axis) as i32, type_: EdgeType::End }
            },
    )
}

/// The sorted list of the edges of the boxes on `axis`.
pub open spec fn sorted_edges(boxes: Seq<Aabb>, axis: int) -> Seq<Edge> {
    choose|s: Seq<Edge>| sorted(s) && s.to_multiset() == edges_of(boxes, axis).to_multiset()
}

/// In a sorted list, of two edges at one coordinate the start stands
/// before the end.
pub proof fn lemma_start_before_end(edges: Seq<Edge>, i: int, j: int)
    requires
        sorted(edges),
        0 <= i < edges.len(),
        0 <= j < edges.len(),
        edges[i].t == edges[j].t,
        edges[i].type_ == EdgeType::Start,
        edges[j].type_ == EdgeType::End,
    ensures
        i < j,
{
    if j < i {
        assert(edges[j].no_later_than(edges[i]));
    }
}

/// Two sorted lists with the same edges are the same list.
pub proof fn lemma_sorted_unique(a: Seq<Edge>, b: Seq<Edge>)
    requires
        sorted(a),
        sorted(b),
        a.to_multiset() == b.to_multiset(),
    ensures
        a == b,
    decreases a.len(),
{
    broadcast use {to_multiset_len, to_multiset_contains, to_multiset_remove};
    assert(a.len() == a.to_multiset().len());
    assert(b.len() == b.to_multiset().len());
    if a.len() > 0 {
        let x = a[0];
        let y = b[0];
        assert(a.contains(x));
        assert(b.contains(y));
        assert(b.to_multiset().count(x) > 0);
        assert(a.to_multiset().count(y) > 0);
        assert(b.contains(x));
        assert(a.contains(y));
        let i = choose|i: int| 0 <= i < b.len() && b[i] == x;
        let j = choose|j: int| 0 <= j < a.len() && a[j] == y;
        assert(i == 0 || b[0].no_later_than(b[i]));
        assert(j == 0 || a[0].no_later_than(a[j]));
        assert(x == y);
        let a1 = a.remove(0);
        let b1 = b.remove(0);
        assert(a1.to_multiset() == b1.to_multiset());
        assert forall|p: int, q: int| 0 <= p < q < a1.len() implies (#[trigger] a1[p]).no_later_than(#[trigger] a1[q]) by {
            assert(a1[p] == a[p + 1] && a1[q] == a[q + 1]);
        }
        assert forall|p: int, q: int| 0 <= p < q < b1.len() implies (#[trigger] b1[p]).no_later_than(#[trigger] b1[q]) by {
            assert(b1[p] == b[p + 1] && b1[q] == b[q + 1]);
        }
        lemma_sorted_unique(a1, b1);
        assert(a =~= seq![x] + a1);
        assert(b =~= seq![y] + b1);
    } else {
        assert(a =~= b);
    }
}

/// Puts `e` into a sorted list at the place that keeps the list sorted.
fn insert_sorted(edges: &mut Vec<Edge>, e: Edge)
    requires
        sorted(old(edges)@),
    ensures
        sorted(final(edges)@),
        final(edges)@.to_multiset() == old(edges)@.to_multiset().insert(e),
{
    let mut j: usize = 0;
    while j < edges.len() && edges[j].precedes(&e)
        invariant
            j <= edges@.len(),
            edges@ == old(edges)@,
            forall|k: int| 0 <= k < j ==> (#[trigger] edges@[k]).no_later_than(e),
        decreases edges@.len() - j,
    {
        j += 1;
    }
    proof {
        to_multiset_insert(edges@, j as int, e);
        let after = edges@.insert(j as int, e);
        assert forall|p: int, q: int| 0 <= p < q < after.len() implies (#[trigger] after[p]).no_later_than(#[trigger] after[q]) by {
            if q < j {
                assert(after[p] == edges@[p] && after[q] == edges@[q]);
            } else if q == j {
                assert(after[p] == edges@[p]);
            } else if p < j {
                assert(after[p] == edges@[p] && after[q] == edges@[q - 1]);
            } else if p == j {
                assert(after[q] == edges@[q - 1]);
                assert(!edges@[j as int].no_later_than(e));
                assert(j as int == q - 1 || edges@[j as int].no_later_than(edges@[q - 1]));
            } else {
                assert(after[p] == edges@[p - 1] && after[q] == edges@[q - 1]);
            }
        }
    }
    edges.insert(j, e);
}

/// The sorted edges of the primitives' boxes on the axis `AX`.
pub fn sort_edges_by_axis<AX: Axis>(primitives: &[Aabb]) -> (edges: Vec<Edge>)
    ensures
        sorted(edges@),
        edges@.to_multiset() == edges_of(primitives@, AX::index_of()).to_multiset(),
        edges@ == sorted_edges(primitives@, AX::index_of()),
        edges@.len() == 2 * primitives@.len(),
{
    let ghost all = edges_of(primitives@, AX::index_of());
    let mut edges: Vec<Edge> = Vec::new();
    let mut i: usize = 0;
    proof {
        assert(all.take(0) =~= edges@);
    }
    while i < primitives.len()
        invariant
            i <= primitives@.len(),
            all == edges_of(primitives@, AX::index_of()),
            sorted(edges@),
            edges@.to_multiset() == all.take(2 * i).to_multiset(),
        decreases primitives@.len() - i,
    {
        let pair = Cast::<Aabb, AX>::new(primitives[i]).edges();
        proof {
            let both = edges_of_box(primitives@[i as int], AX::index_of());
            assert(pair@[0] == both[0] && pair@[1] == both[1]);
            assert(all.take(2 * i + 1) =~= all.take(2 * i).push(pair@[0]));
            assert(all.take(2 * i + 2) =~= all.take(2 * i + 1).push(pair@[1]));
            to_multiset_build(all.take(2 * i), pair@[0]);
            to_multiset_build(all.take(2 * i + 1), pair@[1]);
        }
        insert_sorted(&mut edges, pair[0]);
        insert_sorted(&mut edges, pair[1]);
        i += 1;
    }
    proof {
        assert(all.take(2 * i) =~= all);
        to_multiset_len(edges@);
        to_multiset_len(all);
        let chosen = sorted_edges(primitives@, AX::index_of());
        assert(sorted(chosen) && chosen.to_multiset() == all.to_multiset());
        lemma_sorted_unique(edges@, chosen);
    }
    edges
}

/// The sorted edges of the primitives' boxes on `axis`; an axis that does
/// not exist is refused.
pub fn sort_edges(primitives: &[Aabb], axis: usize) -> (r: Result<Vec<Edge>, BuildError>)
    ensures
        axis >= 3 ==> r == Err::<Vec<Edge>, BuildError>(BuildError::InvalidAxis),
        axis < 3 ==> r.is_ok() && sorted(r.unwrap()@) && r.unwrap()@.to_multiset() == edges_of(
            primitives@,
            axis as int,
        ).to_multiset() && r.unwrap()@ == sorted_edges(primitives@, axis as int) && r.unwrap()@.len()
            == 2 * primitives@.len(),
{
    match axis {
        0 => Ok(sort_edges_by_axis::<X>(primitives)),
        1 => Ok(sort_edges_by_axis::<Y>(primitives)),
        2 => Ok(sort_edges_by_axis::<Z>(primitives)),
        _ => Err(BuildError::InvalidAxis),
    }
}

} // verus!
