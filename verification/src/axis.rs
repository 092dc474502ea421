//! Axes as types, and values read along one axis.
use vstd::prelude::*;
use core::marker::PhantomData;
use crate::aabb::Aabb;
use crate::edge::{Edge, EdgeType};
use crate::N_DIMS;

verus! {

/// A coordinate axis known at compile time.
pub trait Axis {
    /// The axis as a number.
    spec fn index_of() -> int;

    /// The axis as a number, below the number of dimensions.
    fn index() -> (i: usize)
        ensures
            i == Self::index_of(),
            i < N_DIMS,
    ;
}

/// The first axis.
pub struct X;

/// The second axis.
pub struct Y;

/// The third axis.
pub struct Z;

impl Axis for X {
    open spec fn index_of() -> int {
        0
    }

    fn index() -> (i: usize) {
        0
    }
}

impl Axis for Y {
    open spec fn index_of() -> int {
        1
    }

    fn index() -> (i: usize) {
        1
    }
}

impl Axis for Z {
    open spec fn index_of() -> int {
        2
    }

    fn index() -> (i: usize) {
        2
    }
}

/// A value looked at along the axis `A`.
pub struct Cast<T, A: Axis>(pub T, pub PhantomData<A>);

pub type XCast<T> = Cast<T, X>;

pub type YCast<T> = Cast<T, Y>;

pub type ZCast<T> = Cast<T, Z>;

/// The two edges of `b` on `axis`: where its extent starts and where it ends.
pub open spec fn edges_of_box(b: Aabb, axis: int) -> Seq<Edge> {
    seq![
        Edge { t: b.lo(axis) as i32, type_: EdgeType::Start },
        Edge { t: b.hi(axis) as i32, type_: EdgeType::End },
    ]
}

impl<T, A: Axis> Cast<T, A> {
    /// Looks at `value` along `A`.
    pub fn new(value: T) -> (c: Self)
        ensures
            c.0 == value,
    {
        Cast(value, PhantomData)
    }

    /// The value that is looked at.
    pub fn component(&self) -> (r: &T)
        ensures
            *r == self.0,
    {
        &self.0
    }
}

impl<A: Axis> Cast<Aabb, A> {
    /// The start and the end of the box's extent on `A`.
    pub fn edges(&self) -> (pair: [Edge; 2])
        ensures
            pair@ == edges_of_box(self.0, A::index_of()),
    {
        let axis = A::index();
        let pair = [Edge::start(self.0.min.get(axis)), Edge::end(self.0.max.get(axis))];
        proof {
            assert(pair@ =~= edges_of_box(self.0, A::index_of()));
        }
        pair
    }
}

} // verus!
