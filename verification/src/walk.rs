//! A walk down the tree misses no primitive that the ray hits.
use vstd::prelude::*;
use vstd::seq_lib::*;
use crate::aabb::{
    above, all_ordered, below, common, lemma_extremes, slab_between, slabs_meet, union_of, within, Aabb, Slab,
};
use crate::depth::depth_bound;
use crate::kd_tree::{
    all_ids, candidates_of, goes_left, goes_right, in_range, left_ids, left_pred, node_ok, right_ids, right_pred,
    KdNode, KdTree,
};
use crate::laws::lemma_side_in_range;
use crate::primitive::Primitive;
use crate::ray::Ray;
use crate::select::{AxisSelector, SplitSelector};

verus! {

/// An earlier entry and a later exit keep "enters before it leaves".
proof fn lemma_pair_weaken(e1: int, x1: int, e2: int, x2: int, di: int, dj: int)
    requires
        di > 0,
        dj > 0,
        e2 <= e1,
        x1 <= x2,
        e1 * dj <= x1 * di,
    ensures
        e2 * dj <= x2 * di,
{
    assert(e2 * dj <= e1 * dj) by (nonlinear_arith)
        requires
            e2 <= e1,
            dj > 0,
    ;
    assert(x1 * di <= x2 * di) by (nonlinear_arith)
        requires
            x1 <= x2,
            di > 0,
    ;
}

/// Fractions compare transitively: `e/di <= x/dj` and `x/dj < m/da` give
/// `e/di < m/da`.
proof fn lemma_fraction_chain(e: int, di: int, x: int, dj: int, m: int, da: int)
    requires
        di > 0,
        dj > 0,
        da > 0,
        e * dj <= x * di,
        x * da < m * dj,
    ensures
        e * da < m * di,
{
    assert((e * dj) * da <= (x * di) * da) by (nonlinear_arith)
        requires
            e * dj <= x * di,
            da > 0,
    ;
    assert((x * da) * di < (m * dj) * di) by (nonlinear_arith)
        requires
            x * da < m * dj,
            di > 0,
    ;
    assert((e * da) * dj < (m * di) * dj) by (nonlinear_arith)
        requires
            (e * dj) * da <= (x * di) * da,
            (x * da) * di < (m * dj) * di,
    ;
    assert(e * da < m * di) by (nonlinear_arith)
        requires
            (e * da) * dj < (m * di) * dj,
            dj > 0,
    ;
}

/// A slab that starts no later and ends no earlier than `s`.
spec fn wider(s: Slab, t: Slab) -> bool {
    &&& s.crossing == t.crossing
    &&& s.den == t.den
    &&& s.den > 0
    &&& s.crossing ==> t.enter <= s.enter && s.exit <= t.exit
    &&& !s.crossing && s.inside ==> t.inside
}

proof fn lemma_pair_wider(si: Slab, sj: Slab, ti: Slab, tj: Slab)
    requires
        wider(si, ti),
        wider(sj, tj),
        si.enters_before_exit_of(sj),
    ensures
        ti.enters_before_exit_of(tj),
{
    if si.crossing && sj.crossing {
        lemma_pair_weaken(si.enter as int, sj.exit as int, ti.enter as int, tj.exit as int, si.den as int, sj.den as int);
    }
}

proof fn lemma_slabs_wider(sx: Slab, sy: Slab, sz: Slab, tx: Slab, ty: Slab, tz: Slab)
    requires
        wider(sx, tx),
        wider(sy, ty),
        wider(sz, tz),
        slabs_meet(sx, sy, sz),
    ensures
        slabs_meet(tx, ty, tz),
{
    lemma_pair_wider(sx, sx, tx, tx);
    lemma_pair_wider(sx, sy, tx, ty);
    lemma_pair_wider(sx, sz, tx, tz);
    lemma_pair_wider(sy, sx, ty, tx);
    lemma_pair_wider(sy, sy, ty, ty);
    lemma_pair_wider(sy, sz, ty, tz);
    lemma_pair_wider(sz, sx, tz, tx);
    lemma_pair_wider(sz, sy, tz, ty);
    lemma_pair_wider(sz, sz, tz, tz);
}

proof fn lemma_slab_within(inner: Aabb, outer: Aabb, ray: Ray, axis: int)
    requires
        inner.wf(),
        within(inner, outer),
        0 <= axis < 3,
    ensures
        wider(inner.slab_of(ray, axis), outer.slab_of(ray, axis)),
{
}

/// A ray that hits a box hits every box around it.
pub proof fn lemma_hit_is_monotone(inner: Aabb, outer: Aabb, ray: Ray)
    requires
        inner.wf(),
        within(inner, outer),
        inner.hit_by(ray),
    ensures
        outer.hit_by(ray),
{
    lemma_slab_within(inner, outer, ray, 0);
    lemma_slab_within(inner, outer, ray, 1);
    lemma_slab_within(inner, outer, ray, 2);
    lemma_slabs_wider(
        inner.slab_of(ray, 0),
        inner.slab_of(ray, 1),
        inner.slab_of(ray, 2),
        outer.slab_of(ray, 0),
        outer.slab_of(ray, 1),
        outer.slab_of(ray, 2),
    );
}

/// The slab `s` cut at the parameter `m`: the part before and the part after.
spec fn near_part(s: Slab, m: i64) -> Slab {
    Slab { crossing: s.crossing, inside: s.inside, enter: s.enter, exit: m, den: s.den }
}

spec fn far_part(s: Slab, m: i64) -> Slab {
    Slab { crossing: s.crossing, inside: s.inside, enter: m, exit: s.exit, den: s.den }
}

/// Where the ray passes three slabs and one of them is cut in two, it
/// passes the other two together with one of the halves.
#[verifier::rlimit(50)]
proof fn lemma_cut_slab(s: Slab, p: Slab, q: Slab, m: i64)
    requires
        slabs_meet(s, p, q),
        s.crossing,
        s.enter <= m <= s.exit,
        s.den > 0,
        p.den > 0,
        q.den > 0,
    ensures
        slabs_meet(near_part(s, m), p, q) || slabs_meet(far_part(s, m), p, q),
{
    let n = near_part(s, m);
    let f = far_part(s, m);
    assert(s.enter * s.den <= m * s.den <= s.exit * s.den) by (nonlinear_arith)
        requires
            s.enter <= m <= s.exit,
            s.den > 0,
    ;
    let p_late = p.crossing && !(m * p.den <= p.exit * s.den);
    let q_late = q.crossing && !(m * q.den <= q.exit * s.den);
    if !p_late && !q_late {
        assert(slabs_meet(f, p, q));
    } else {
        let j = if p_late { p } else { q };
        assert(j.crossing && j.exit > 0 && j.den > 0);
        assert(j.exit * s.den < m * j.den);
        assert(m > 0) by (nonlinear_arith)
            requires
                j.exit * s.den < m * j.den,
                j.exit > 0,
                s.den > 0,
                j.den > 0,
        ;
        if p.crossing {
            lemma_fraction_chain(p.enter as int, p.den as int, j.exit as int, j.den as int, m as int, s.den as int);
        }
        if q.crossing {
            lemma_fraction_chain(q.enter as int, q.den as int, j.exit as int, j.den as int, m as int, s.den as int);
        }
        assert(slabs_meet(n, p, q));
    }
}

/// The order in which the three slabs are named does not matter.
proof fn lemma_meet_any_order(s: Slab, p: Slab, q: Slab)
    ensures
        slabs_meet(s, p, q) == slabs_meet(p, s, q),
        slabs_meet(s, p, q) == slabs_meet(p, q, s),
{
}

/// Where the ray passes the slab between `lo` and `hi` together with two
/// other slabs, and a plane lies between `lo` and `hi`, the ray passes the
/// part of the slab on one side of the plane together with the other two.
#[verifier::rlimit(50)]
proof fn lemma_cut_between(lo: int, hi: int, o: int, d: int, split: int, p: Slab, q: Slab)
    requires
        i32::MIN <= lo < split < hi <= i32::MAX,
        i32::MIN <= o <= i32::MAX,
        i32::MIN <= d <= i32::MAX,
        p.den > 0,
        q.den > 0,
        slabs_meet(slab_between(lo, hi, o, d), p, q),
    ensures
        slabs_meet(slab_between(lo, split, o, d), p, q) || slabs_meet(slab_between(split, hi, o, d), p, q),
{
    let s = slab_between(lo, hi, o, d);
    let l = slab_between(lo, split, o, d);
    let u = slab_between(split, hi, o, d);
    if d == 0 {
        if o <= split {
            assert(l.inside);
        } else {
            assert(u.inside);
        }
    } else {
        let m: i64 = (if d > 0 {
            split - o
        } else {
            o - split
        }) as i64;
        lemma_cut_slab(s, p, q, m);
        if d > 0 {
            assert(l == near_part(s, m));
            assert(u == far_part(s, m));
        } else {
            assert(u == near_part(s, m));
            assert(l == far_part(s, m));
        }
    }
}

/// A ray that hits a box hits the part of it below a plane or the part
/// above it.
#[verifier::rlimit(50)]
pub proof fn lemma_hit_one_side(b: Aabb, ray: Ray, axis: int, split: i32)
    requires
        b.wf(),
        b.hit_by(ray),
        0 <= axis,
    ensures
        (below(b, axis, split).wf() && below(b, axis, split).hit_by(ray)) || (above(b, axis, split).wf() && above(
            b,
            axis,
            split,
        ).hit_by(ray)),
{
    let l = below(b, axis, split);
    let u = above(b, axis, split);
    let sx = b.slab_of(ray, 0);
    let sy = b.slab_of(ray, 1);
    let sz = b.slab_of(ray, 2);
    if split >= b.hi(axis) {
        assert(l == b);
    } else if split <= b.lo(axis) {
        assert(u == b);
    } else if axis == 0 {
        lemma_cut_between(b.lo(0), b.hi(0), ray.origin.coord(0), ray.direction.coord(0), split as int, sy, sz);
        assert(l.slab_of(ray, 1) == sy && l.slab_of(ray, 2) == sz);
        assert(u.slab_of(ray, 1) == sy && u.slab_of(ray, 2) == sz);
    } else if axis == 1 {
        lemma_meet_any_order(sy, sx, sz);
        lemma_cut_between(b.lo(1), b.hi(1), ray.origin.coord(1), ray.direction.coord(1), split as int, sx, sz);
        assert(l.slab_of(ray, 0) == sx && l.slab_of(ray, 2) == sz);
        assert(u.slab_of(ray, 0) == sx && u.slab_of(ray, 2) == sz);
        lemma_meet_any_order(l.slab_of(ray, 1), sx, sz);
        lemma_meet_any_order(u.slab_of(ray, 1), sx, sz);
    } else {
        lemma_meet_any_order(sz, sx, sy);
        lemma_cut_between(b.lo(2), b.hi(2), ray.origin.coord(2), ray.direction.coord(2), split as int, sx, sy);
        assert(l.slab_of(ray, 0) == sx && l.slab_of(ray, 1) == sy);
        assert(u.slab_of(ray, 0) == sx && u.slab_of(ray, 1) == sy);
        lemma_meet_any_order(l.slab_of(ray, 2), sx, sy);
        lemma_meet_any_order(u.slab_of(ray, 2), sx, sy);
    }
}

/// Cutting what two boxes share is sharing with the cut region.
proof fn lemma_common_cut(b: Aabb, region: Aabb, axis: int, split: i32)
    requires
        0 <= axis,
    ensures
        below(common(b, region), axis, split) == common(b, below(region, axis, split)),
        above(common(b, region), axis, split) == common(b, above(region, axis, split)),
{
}

/// A box that does not go left but shares something with the lower part
/// of a region shares it with the upper part too.
proof fn lemma_flat_goes_right(b: Aabb, region: Aabb, axis: int, split: i32)
    requires
        0 <= axis,
        b.wf(),
        common(b, below(region, axis, split)).wf(),
        !goes_left(b, axis, split as int),
    ensures
        goes_right(b, axis, split as int),
        within(common(b, below(region, axis, split)), common(b, above(region, axis, split))),
{
}

/// A box that does not go right but shares something with the upper part
/// of a region shares it with the lower part too.
proof fn lemma_flat_goes_left(b: Aabb, region: Aabb, axis: int, split: i32)
    requires
        0 <= axis,
        b.wf(),
        common(b, above(region, axis, split)).wf(),
        !goes_right(b, axis, split as int),
    ensures
        goes_left(b, axis, split as int),
        within(common(b, above(region, axis, split)), common(b, below(region, axis, split))),
{
}

/// What a box shares with a region lies inside the region.
proof fn lemma_common_within(b: Aabb, region: Aabb)
    ensures
        within(common(b, region), region),
{
}

/// Completeness of a subtree: a primitive handed to it whose box the ray
/// hits inside the subtree's region is among those that the walk collects.
#[verifier::rlimit(50)]
pub proof fn lemma_walk_finds<A: AxisSelector, S: SplitSelector>(
    node: KdNode,
    boxes: Seq<Aabb>,
    ids: Seq<usize>,
    depth: int,
    max_depth: int,
    region: Aabb,
    ray: Ray,
    i: usize,
)
    requires
        node_ok::<A, S>(node, boxes, ids, depth, max_depth),
        all_ordered(boxes),
        in_range(ids, boxes.len() as int),
        ids.contains(i),
        common(boxes[i as int], region).wf(),
        common(boxes[i as int], region).hit_by(ray),
    ensures
        candidates_of(node, region, ray).contains(i),
    decreases node,
{
    let b = boxes[i as int];
    let shared = common(b, region);
    assert(b.wf());
    lemma_common_within(b, region);
    lemma_hit_is_monotone(shared, region, ray);
    match node {
        KdNode::Leaf(leaf) => {},
        KdNode::Internal { axis, split, left, right } => {
            let a = axis as int;
            let lower = below(region, a, split);
            let upper = above(region, a, split);
            let l = candidates_of(*left, lower, ray);
            let r = candidates_of(*right, upper, ray);
            let k = choose|k: int| 0 <= k < ids.len() && ids[k] == i;
            lemma_side_in_range(boxes, ids, a, split as int);
            lemma_hit_one_side(shared, ray, a, split);
            lemma_common_cut(b, region, a, split);
            let to_left = if common(b, lower).wf() && common(b, lower).hit_by(ray) {
                if goes_left(b, a, split as int) {
                    true
                } else {
                    lemma_flat_goes_right(b, region, a, split);
                    lemma_hit_is_monotone(common(b, lower), common(b, upper), ray);
                    false
                }
            } else {
                if goes_right(b, a, split as int) {
                    false
                } else {
                    lemma_flat_goes_left(b, region, a, split);
                    lemma_hit_is_monotone(common(b, upper), common(b, lower), ray);
                    true
                }
            };
            if to_left {
                assert(goes_left(b, a, split as int));
                ids.lemma_filter_contains(left_pred(boxes, a, split as int), k);
                lemma_walk_finds::<A, S>(
                    *left,
                    boxes,
                    left_ids(boxes, ids, a, split as int),
                    depth + 1,
                    max_depth,
                    lower,
                    ray,
                    i,
                );
                let at = choose|at: int| 0 <= at < l.len() && l[at] == i;
                assert((l + r)[at] == i);
            } else {
                assert(goes_right(b, a, split as int));
                ids.lemma_filter_contains(right_pred(boxes, a, split as int), k);
                lemma_walk_finds::<A, S>(
                    *right,
                    boxes,
                    right_ids(boxes, ids, a, split as int),
                    depth + 1,
                    max_depth,
                    upper,
                    ray,
                    i,
                );
                let at = choose|at: int| 0 <= at < r.len() && r[at] == i;
                assert((l + r)[l.len() + at] == i);
            }
        },
    }
}

/// Completeness of the walk: every primitive whose box the ray hits is
/// among the candidates that the walk from the root collects.
pub proof fn lemma_tree_walk_complete<P: Primitive, A: AxisSelector, S: SplitSelector>(tree: KdTree<P, A, S>, ray: Ray, i: usize)
    requires
        tree.wf(),
        i < tree.boxes().len(),
        tree.boxes()[i as int].hit_by(ray),
    ensures
        tree.bounds() == Some(union_of(tree.boxes())),
        candidates_of(tree.root_node(), union_of(tree.boxes()), ray).contains(i),
{
    let boxes = tree.boxes();
    let n = boxes.len() as int;
    let ids = all_ids(n);
    let region = union_of(boxes);
    lemma_extremes(boxes, 0);
    lemma_extremes(boxes, 1);
    lemma_extremes(boxes, 2);
    let b = boxes[i as int];
    assert(b.wf());
    assert(common(b, region) == b);
    assert(ids[i as int] == i);
    lemma_walk_finds::<A, S>(tree.root_node(), boxes, ids, 0, depth_bound(n), region, ray, i);
}

} // verus!
