//! What the tree asks of a primitive: the box around it.
use vstd::prelude::*;
use crate::aabb::Aabb;

verus! {

/// A thing in space that knows the box around itself.
pub trait Primitive {
    /// The box around the primitive.
    spec fn bounds(&self) -> Aabb;

    /// Computes the box around the primitive.
    fn bounding_box(&self) -> (b: Aabb)
        ensures
            b == self.bounds(),
    ;
}

/// The boxes of a sequence of primitives, in their order.
pub open spec fn boxes_of<P: Primitive>(primitives: Seq<P>) -> Seq<Aabb> {
    Seq::new(primitives.len(), |k: int| primitives[k].bounds())
}

/// The boxes of a sequence of boxes are the boxes themselves.
pub proof fn lemma_boxes_of_boxes(boxes: Seq<Aabb>)
    ensures
        boxes_of(boxes) == boxes,
{
    assert(boxes_of(boxes) =~= boxes);
}

/// A box is a primitive that is its own box.
impl Primitive for Aabb {
    open spec fn bounds(&self) -> Aabb {
        *self
    }

    fn bounding_box(&self) -> (b: Aabb) {
        *self
    }
}

} // verus!
