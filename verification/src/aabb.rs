//! Axis-aligned bounding boxes: construction, union and the ray slab test.
use vstd::prelude::*;
use crate::error::BuildError;
use crate::primitive::{boxes_of, Primitive};
use crate::ray::{Point3, Ray};

verus! {

/// A closed interval on one axis.
#[derive(Clone, Copy, Debug, PartialEq, Eq, Structural)]
pub struct AxisBounds {
    pub min: i32,
    pub max: i32,
}

/// An axis-aligned box, given by its lowest and its highest corner.
#[derive(Clone, Copy, Debug, PartialEq, Eq, Structural)]
pub struct Aabb {
    pub min: Point3,
    pub max: Point3,
}

/// The part of a ray's parameter range spent between the two planes that
/// bound a box on one axis, as fractions over a common positive denominator.
#[derive(Clone, Copy, Debug, PartialEq, Eq, Structural)]
pub struct Slab {
    /// False where the ray runs parallel to the planes.
    pub crossing: bool,
    /// For a parallel ray: whether its origin lies between the planes.
    pub inside: bool,
    /// Numerator of the parameter at which the ray enters.
    pub enter: i64,
    /// Numerator of the parameter at which the ray leaves.
    pub exit: i64,
    /// The common denominator.
    pub den: i64,
}

/// The lowest lower bound on `axis` over a sequence of boxes (0 for none).
pub open spec fn min_lo(boxes: Seq<Aabb>, axis: int) -> int
    decreases boxes.len(),
{
    if boxes.len() == 0 {
        0
    } else if boxes.len() == 1 {
        boxes[0].lo(axis)
    } else {
        let rest = min_lo(boxes.drop_last(), axis);
        let l = boxes.last().lo(axis);
        if l < rest {
            l
        } else {
            rest
        }
    }
}

/// The highest upper bound on `axis` over a sequence of boxes (0 for none).
pub open spec fn max_hi(boxes: Seq<Aabb>, axis: int) -> int
    decreases boxes.len(),
{
    if boxes.len() == 0 {
        0
    } else if boxes.len() == 1 {
        boxes[0].hi(axis)
    } else {
        let rest = max_hi(boxes.drop_last(), axis);
        let h = boxes.last().hi(axis);
        if h > rest {
            h
        } else {
            rest
        }
    }
}

/// The smallest box that holds every box of a non-empty sequence.
pub open spec fn union_of(boxes: Seq<Aabb>) -> Aabb {
    Aabb {
        min: Point3 {
            x: min_lo(boxes, 0) as i32,
            y: min_lo(boxes, 1) as i32,
            z: min_lo(boxes, 2) as i32,
        },
        max: Point3 {
            x: max_hi(boxes, 0) as i32,
            y: max_hi(boxes, 1) as i32,
            z: max_hi(boxes, 2) as i32,
        },
    }
}

/// Where a ray that starts at `o` and moves by `d` crosses the planes at
/// `lo` and `hi`: the parameters `(lo - o) / d` and `(hi - o) / d`, the
/// lesser as entry and the greater as exit, over the denominator `|d|`.
/// A ray with `d == 0` crosses neither; it is inside where `lo <= o <= hi`.
pub open spec fn slab_between(lo: int, hi: int, o: int, d: int) -> Slab {
    let a = if d > 0 { lo - o } else { o - lo };
    let b = if d > 0 { hi - o } else { o - hi };
    if d == 0 {
        Slab { crossing: false, inside: lo <= o <= hi, enter: 0, exit: 0, den: 1 }
    } else {
        Slab {
            crossing: true,
            inside: false,
            enter: (if a <= b { a } else { b }) as i64,
            exit: (if a <= b { b } else { a }) as i64,
            den: (if d > 0 { d } else { -d }) as i64,
        }
    }
}

/// The three slabs of a box leave room for the ray: each is open, and the
/// ray enters none later than it leaves another.
pub open spec fn slabs_meet(sx: Slab, sy: Slab, sz: Slab) -> bool {
    &&& sx.open() && sy.open() && sz.open()
    &&& sx.enters_before_exit_of(sx) && sx.enters_before_exit_of(sy) && sx.enters_before_exit_of(sz)
    &&& sy.enters_before_exit_of(sx) && sy.enters_before_exit_of(sy) && sy.enters_before_exit_of(sz)
    &&& sz.enters_before_exit_of(sx) && sz.enters_before_exit_of(sy) && sz.enters_before_exit_of(sz)
}

/// The box that two boxes share; its bounds are out of order where they
/// share nothing.
pub open spec fn common(b: Aabb, region: Aabb) -> Aabb {
    Aabb {
        min: Point3 {
            x: if b.min.x < region.min.x { region.min.x } else { b.min.x },
            y: if b.min.y < region.min.y { region.min.y } else { b.min.y },
            z: if b.min.z < region.min.z { region.min.z } else { b.min.z },
        },
        max: Point3 {
            x: if b.max.x < region.max.x { b.max.x } else { region.max.x },
            y: if b.max.y < region.max.y { b.max.y } else { region.max.y },
            z: if b.max.z < region.max.z { b.max.z } else { region.max.z },
        },
    }
}

/// `inner` lies inside `outer`.
pub open spec fn within(inner: Aabb, outer: Aabb) -> bool {
    &&& outer.lo(0) <= inner.lo(0) && inner.hi(0) <= outer.hi(0)
    &&& outer.lo(1) <= inner.lo(1) && inner.hi(1) <= outer.hi(1)
    &&& outer.lo(2) <= inner.lo(2) && inner.hi(2) <= outer.hi(2)
}

/// Every box of the sequence keeps its bounds in order on every axis.
pub open spec fn all_ordered(boxes: Seq<Aabb>) -> bool {
    forall|i: int| 0 <= i < boxes.len() ==> (#[trigger] boxes[i]).wf()
}

/// The two boxes share a point.
pub open spec fn overlaps(b: Aabb, region: Aabb) -> bool {
    &&& b.lo(0) <= region.hi(0) && region.lo(0) <= b.hi(0)
    &&& b.lo(1) <= region.hi(1) && region.lo(1) <= b.hi(1)
    &&& b.lo(2) <= region.hi(2) && region.lo(2) <= b.hi(2)
}

/// The part of `region` that does not reach above the plane.
pub open spec fn below(region: Aabb, axis: int, split: i32) -> Aabb {
    let top = if region.hi(axis) < split {
        region.hi(axis) as i32
    } else {
        split
    };
    Aabb { min: region.min, max: region.max.with_coord(axis, top) }
}

/// The part of `region` that does not reach below the plane.
pub open spec fn above(region: Aabb, axis: int, split: i32) -> Aabb {
    let bottom = if region.lo(axis) > split {
        region.lo(axis) as i32
    } else {
        split
    };
    Aabb { min: region.min.with_coord(axis, bottom), max: region.max }
}

/// `min_lo` is a lower bound that one of the boxes attains, and it is a
/// machine integer; the same for `max_hi` from above.
pub proof fn lemma_extremes(boxes: Seq<Aabb>, axis: int)
    requires
        boxes.len() > 0,
    ensures
        forall|i: int| 0 <= i < boxes.len() ==> min_lo(boxes, axis) <= (#[trigger] boxes[i]).lo(axis),
        exists|i: int| 0 <= i < boxes.len() && min_lo(boxes, axis) == (#[trigger] boxes[i]).lo(axis),
        forall|i: int| 0 <= i < boxes.len() ==> (#[trigger] boxes[i]).hi(axis) <= max_hi(boxes, axis),
        exists|i: int| 0 <= i < boxes.len() && max_hi(boxes, axis) == (#[trigger] boxes[i]).hi(axis),
        i32::MIN <= min_lo(boxes, axis) <= i32::MAX,
        i32::MIN <= max_hi(boxes, axis) <= i32::MAX,
    decreases boxes.len(),
{
    if boxes.len() == 1 {
        assert(min_lo(boxes, axis) == boxes[0].lo(axis));
        assert(max_hi(boxes, axis) == boxes[0].hi(axis));
    } else {
        let init = boxes.drop_last();
        lemma_extremes(init, axis);
        let a = choose|i: int| 0 <= i < init.len() && min_lo(init, axis) == (#[trigger] init[i]).lo(axis);
        let b = choose|i: int| 0 <= i < init.len() && max_hi(init, axis) == (#[trigger] init[i]).hi(axis);
        assert(init[a] == boxes[a]);
        assert(init[b] == boxes[b]);
        let last = boxes.len() - 1;
        assert(boxes.last() == boxes[last]);
        assert(min_lo(boxes, axis) == boxes[a].lo(axis) || min_lo(boxes, axis) == boxes[last].lo(axis));
        assert(max_hi(boxes, axis) == boxes[b].hi(axis) || max_hi(boxes, axis) == boxes[last].hi(axis));
        assert forall|i: int| 0 <= i < boxes.len() implies min_lo(boxes, axis) <= (#[trigger] boxes[i]).lo(axis) by {
            if i < last {
                assert(init[i] == boxes[i]);
            }
        }
        assert forall|i: int| 0 <= i < boxes.len() implies (#[trigger] boxes[i]).hi(axis) <= max_hi(boxes, axis) by {
            if i < last {
                assert(init[i] == boxes[i]);
            }
        }
    }
}

/// The union of a single box is that box.
pub proof fn lemma_union_of_one(b: Aabb)
    ensures
        union_of(seq![b]) == b,
{
    let s = seq![b];
    assert(s.len() == 1);
    assert(s[0] == b);
    assert(min_lo(s, 0) == b.lo(0));
    assert(min_lo(s, 1) == b.lo(1));
    assert(min_lo(s, 2) == b.lo(2));
    assert(max_hi(s, 0) == b.hi(0));
    assert(max_hi(s, 1) == b.hi(1));
    assert(max_hi(s, 2) == b.hi(2));
}

impl AxisBounds {
    /// The lower bound does not exceed the upper bound.
    pub open spec fn wf(self) -> bool {
        self.min <= self.max
    }

    /// Makes the interval from `min` to `max`, or refuses bounds out of order.
    pub fn new(min: i32, max: i32) -> (r: Result<AxisBounds, BuildError>)
        ensures
            min <= max ==> r == Ok::<AxisBounds, BuildError>(AxisBounds { min, max }),
            min > max ==> r == Err::<AxisBounds, BuildError>(BuildError::InvalidBounds),
    {
        if min <= max {
            Ok(AxisBounds { min, max })
        } else {
            Err(BuildError::InvalidBounds)
        }
    }

    /// How far the interval reaches: `max - min`.
    pub fn extent(&self) -> (e: i64)
        ensures
            e == self.max - self.min,
    {
        self.max as i64 - self.min as i64
    }
}

impl Aabb {
    /// The interval that the box covers on `axis`.
    pub open spec fn bounds_on(self, axis: int) -> AxisBounds {
        AxisBounds { min: self.lo(axis) as i32, max: self.hi(axis) as i32 }
    }

    /// The box that covers the three intervals, one per axis.
    pub fn from_axis_bounds(x: AxisBounds, y: AxisBounds, z: AxisBounds) -> (b: Aabb)
        ensures
            b.bounds_on(0) == x,
            b.bounds_on(1) == y,
            b.bounds_on(2) == z,
            b.wf() == (x.wf() && y.wf() && z.wf()),
    {
        Aabb { min: Point3 { x: x.min, y: y.min, z: z.min }, max: Point3 { x: x.max, y: y.max, z: z.max } }
    }

    /// The interval that the box covers on `axis`; an axis that does not
    /// exist is refused.
    pub fn axis_bounds(&self, axis: usize) -> (r: Result<AxisBounds, BuildError>)
        ensures
            axis < 3 ==> r == Ok::<AxisBounds, BuildError>(self.bounds_on(axis as int)),
            axis >= 3 ==> r == Err::<AxisBounds, BuildError>(BuildError::InvalidAxis),
    {
        if axis < 3 {
            Ok(AxisBounds { min: self.min.get(axis), max: self.max.get(axis) })
        } else {
            Err(BuildError::InvalidAxis)
        }
    }

    /// Lower bound on `axis`.
    pub open spec fn lo(self, axis: int) -> int {
        self.min.coord(axis)
    }

    /// Upper bound on `axis`.
    pub open spec fn hi(self, axis: int) -> int {
        self.max.coord(axis)
    }

    /// On every axis the lower bound does not exceed the upper bound.
    pub open spec fn wf(self) -> bool {
        &&& self.lo(0) <= self.hi(0)
        &&& self.lo(1) <= self.hi(1)
        &&& self.lo(2) <= self.hi(2)
    }

    /// `hi - lo` on `axis`.
    pub open spec fn extent(self, axis: int) -> int {
        self.hi(axis) - self.lo(axis)
    }

    /// Makes the box between two corners, or refuses corners out of order.
    pub fn new(min: Point3, max: Point3) -> (r: Result<Aabb, BuildError>)
        ensures
            (Aabb { min, max }).wf() ==> r == Ok::<Aabb, BuildError>(Aabb { min, max }),
            !(Aabb { min, max }).wf() ==> r == Err::<Aabb, BuildError>(BuildError::InvalidBounds),
    {
        if min.x <= max.x && min.y <= max.y && min.z <= max.z {
            Ok(Aabb { min, max })
        } else {
            Err(BuildError::InvalidBounds)
        }
    }

    /// Whether the box keeps its bounds in order on every axis.
    pub fn is_ordered(&self) -> (ok: bool)
        ensures
            ok == self.wf(),
    {
        self.min.x <= self.max.x && self.min.y <= self.max.y && self.min.z <= self.max.z
    }

    /// The union of the boxes of a collection of primitives: on each axis
    /// the least lower bound and the greatest upper bound. For a single
    /// primitive that is its own box. An empty collection has none.
    pub fn from_primitives<T: Primitive>(primitives: &[T]) -> (r: Result<Aabb, BuildError>)
        ensures
            primitives@.len() == 0 ==> r == Err::<Aabb, BuildError>(BuildError::EmptyInput),
            primitives@.len() > 0 ==> r == Ok::<Aabb, BuildError>(union_of(boxes_of(primitives@))),
            primitives@.len() == 1 ==> r == Ok::<Aabb, BuildError>(primitives@[0].bounds()),
    {
        if primitives.len() == 0 {
            return Err(BuildError::EmptyInput);
        }
        let ghost boxes = boxes_of(primitives@);
        let first = primitives[0].bounding_box();
        let mut min = first.min;
        let mut max = first.max;
        let mut i: usize = 1;
        proof {
            assert(boxes.take(1).len() == 1);
            assert(boxes.take(1)[0] == boxes[0]);
        }
        while i < primitives.len()
            invariant
                1 <= i <= primitives@.len(),
                boxes == boxes_of(primitives@),
                min.x == min_lo(boxes.take(i as int), 0),
                min.y == min_lo(boxes.take(i as int), 1),
                min.z == min_lo(boxes.take(i as int), 2),
                max.x == max_hi(boxes.take(i as int), 0),
                max.y == max_hi(boxes.take(i as int), 1),
                max.z == max_hi(boxes.take(i as int), 2),
            decreases primitives@.len() - i,
        {
            let b = primitives[i].bounding_box();
            proof {
                let next = boxes.take(i + 1);
                assert(next.drop_last() =~= boxes.take(i as int));
                assert(next.last() == b);
            }
            if b.min.x < min.x {
                min.x = b.min.x;
            }
            if b.min.y < min.y {
                min.y = b.min.y;
            }
            if b.min.z < min.z {
                min.z = b.min.z;
            }
            if b.max.x > max.x {
                max.x = b.max.x;
            }
            if b.max.y > max.y {
                max.y = b.max.y;
            }
            if b.max.z > max.z {
                max.z = b.max.z;
            }
            i += 1;
        }
        proof {
            assert(boxes.take(i as int) =~= boxes);
            if primitives@.len() == 1 {
                assert(boxes =~= seq![primitives@[0].bounds()]);
                lemma_union_of_one(primitives@[0].bounds());
            }
        }
        Ok(Aabb { min, max })
    }

    /// The part of the box that does not reach above the plane at `split`
    /// on `axis`.
    pub fn lower_part(&self, axis: usize, split: i32) -> (part: Aabb)
        ensures
            part == below(*self, axis as int, split),
    {
        let h = self.max.get(axis);
        let top = if h < split { h } else { split };
        Aabb { min: self.min, max: self.max.with(axis, top) }
    }

    /// The part of the box that does not reach below the plane at `split`
    /// on `axis`.
    pub fn upper_part(&self, axis: usize, split: i32) -> (part: Aabb)
        ensures
            part == above(*self, axis as int, split),
    {
        let l = self.min.get(axis);
        let bottom = if l > split { l } else { split };
        Aabb { min: self.min.with(axis, bottom), max: self.max }
    }

    /// Where `ray` crosses the two planes that bound the box on `axis`.
    pub open spec fn slab_of(self, ray: Ray, axis: int) -> Slab {
        slab_between(self.lo(axis), self.hi(axis), ray.origin.coord(axis), ray.direction.coord(axis))
    }

    /// The ray hits the box: it leaves every slab after the parameter zero
    /// and enters none later than it leaves another, and where it runs
    /// parallel to a slab it starts inside it.
    pub open spec fn hit_by(self, ray: Ray) -> bool {
        slabs_meet(self.slab_of(ray, 0), self.slab_of(ray, 1), self.slab_of(ray, 2))
    }

    /// Computes the slab of `ray` on `axis`.
    pub fn slab(&self, ray: &Ray, axis: usize) -> (s: Slab)
        ensures
            s == self.slab_of(*ray, axis as int),
            s.wf(),
    {
        let o: i64 = ray.origin.get(axis) as i64;
        let d: i64 = ray.direction.get(axis) as i64;
        let lo: i64 = self.min.get(axis) as i64;
        let hi: i64 = self.max.get(axis) as i64;
        if d == 0 {
            Slab { crossing: false, inside: lo <= o && o <= hi, enter: 0, exit: 0, den: 1 }
        } else {
            let a: i64 = if d > 0 { lo - o } else { o - lo };
            let b: i64 = if d > 0 { hi - o } else { o - hi };
            Slab {
                crossing: true,
                inside: false,
                enter: if a <= b { a } else { b },
                exit: if a <= b { b } else { a },
                den: if d > 0 { d } else { -d },
            }
        }
    }

    /// The slab test.
    pub fn intersect(&self, ray: &Ray) -> (hit: bool)
        ensures
            hit == self.hit_by(*ray),
    {
        let sx = self.slab(ray, 0);
        let sy = self.slab(ray, 1);
        let sz = self.slab(ray, 2);
        sx.is_open() && sy.is_open() && sz.is_open()
            && sx.enters_before(&sx) && sx.enters_before(&sy) && sx.enters_before(&sz)
            && sy.enters_before(&sx) && sy.enters_before(&sy) && sy.enters_before(&sz)
            && sz.enters_before(&sx) && sz.enters_before(&sy) && sz.enters_before(&sz)
    }
}

impl Slab {
    /// The numerators and the denominator are those of 32-bit coordinates.
    pub open spec fn wf(self) -> bool {
        &&& 0 < self.den <= 0x8000_0000
        &&& -0x1_0000_0000 <= self.enter <= 0x1_0000_0000
        &&& -0x1_0000_0000 <= self.exit <= 0x1_0000_0000
    }

    /// The slab does not rule the ray out by itself: a crossing ray leaves
    /// it after the parameter zero, a parallel ray starts inside it.
    pub open spec fn open(self) -> bool {
        if self.crossing {
            self.exit > 0
        } else {
            self.inside
        }
    }

    /// The ray enters this slab no later than it leaves `other`
    /// (true where either is not crossed).
    pub open spec fn enters_before_exit_of(self, other: Slab) -> bool {
        self.crossing && other.crossing ==> self.enter * other.den <= other.exit * self.den
    }

    pub fn is_open(&self) -> (r: bool)
        ensures
            r == self.open(),
    {
        if self.crossing {
            self.exit > 0
        } else {
            self.inside
        }
    }

    pub fn enters_before(&self, other: &Slab) -> (r: bool)
        requires
            self.wf(),
            other.wf(),
        ensures
            r == self.enters_before_exit_of(*other),
    {
        if self.crossing && other.crossing {
            assert(-0x8000_0000_0000_0000_0000 <= self.enter * other.den <= 0x8000_0000_0000_0000_0000)
                by (nonlinear_arith)
                requires
                    0 < other.den <= 0x8000_0000,
                    -0x1_0000_0000 <= self.enter <= 0x1_0000_0000,
            ;
            assert(-0x8000_0000_0000_0000_0000 <= other.exit * self.den <= 0x8000_0000_0000_0000_0000)
                by (nonlinear_arith)
                requires
                    0 < self.den <= 0x8000_0000,
                    -0x1_0000_0000 <= other.exit <= 0x1_0000_0000,
            ;
            (self.enter as i128) * (other.den as i128) <= (other.exit as i128) * (self.den as i128)
        } else {
            true
        }
    }
}

} // verus!
