//! What the slab test means: the ray hits the box exactly where, at some
//! parameter past zero, its point lies in the box.
use vstd::prelude::*;
use crate::aabb::{slab_between, slabs_meet, Aabb, Slab};
use crate::ray::Ray;

verus! {

/// At the parameter `n / m` the point of the ray lies between the bounds
/// of the box on `axis`.
pub open spec fn between_at(b: Aabb, ray: Ray, axis: int, n: int, m: int) -> bool {
    b.lo(axis) * m <= ray.origin.coord(axis) * m + ray.direction.coord(axis) * n <= b.hi(axis) * m
}

/// At the parameter `n / m` the point of the ray lies in the box.
pub open spec fn inside_at(b: Aabb, ray: Ray, n: int, m: int) -> bool {
    between_at(b, ray, 0, n, m) && between_at(b, ray, 1, n, m) && between_at(b, ray, 2, n, m)
}

/// The slab `s` holds the parameter `n / m`.
spec fn holds_parameter(s: Slab, n: int, m: int) -> bool {
    if s.crossing {
        s.enter * m <= s.den * n && s.den * n <= s.exit * m
    } else {
        s.inside
    }
}

proof fn lemma_slab_of_point(lo: int, hi: int, o: int, d: int, n: int, m: int)
    requires
        i32::MIN <= lo <= hi <= i32::MAX,
        i32::MIN <= o <= i32::MAX,
        i32::MIN <= d <= i32::MAX,
        m > 0,
    ensures
        (lo * m <= o * m + d * n <= hi * m) == holds_parameter(slab_between(lo, hi, o, d), n, m),
        slab_between(lo, hi, o, d).den > 0,
{
    let s = slab_between(lo, hi, o, d);
    if d == 0 {
        assert(d * n == 0) by (nonlinear_arith)
            requires
                d == 0,
        ;
        assert((lo * m <= o * m) == (lo <= o)) by (nonlinear_arith)
            requires
                m > 0,
        ;
        assert((o * m <= hi * m) == (o <= hi)) by (nonlinear_arith)
            requires
                m > 0,
        ;
    } else if d > 0 {
        assert(s.enter == lo - o && s.exit == hi - o && s.den == d);
        assert((lo - o) * m == lo * m - o * m) by (nonlinear_arith);
        assert((hi - o) * m == hi * m - o * m) by (nonlinear_arith);
    } else {
        assert(s.enter == o - hi && s.exit == o - lo && s.den == -d);
        assert((o - hi) * m == o * m - hi * m) by (nonlinear_arith);
        assert((o - lo) * m == o * m - lo * m) by (nonlinear_arith);
        assert((-d) * n == -(d * n)) by (nonlinear_arith);
    }
}

proof fn lemma_pair_from_parameter(si: Slab, sj: Slab, n: int, m: int)
    requires
        si.den > 0,
        sj.den > 0,
        m > 0,
        n > 0,
        holds_parameter(si, n, m),
        holds_parameter(sj, n, m),
    ensures
        si.enters_before_exit_of(sj),
        sj.open(),
{
    if sj.crossing {
        assert(sj.exit > 0) by (nonlinear_arith)
            requires
                sj.den * n <= sj.exit * m,
                sj.den > 0,
                n > 0,
                m > 0,
        ;
    }
    if si.crossing && sj.crossing {
        let ei = si.enter as int;
        let di = si.den as int;
        let xj = sj.exit as int;
        let dj = sj.den as int;
        assert((ei * m) * dj <= (di * n) * dj) by (nonlinear_arith)
            requires
                ei * m <= di * n,
                dj > 0,
        ;
        assert((dj * n) * di <= (xj * m) * di) by (nonlinear_arith)
            requires
                dj * n <= xj * m,
                di > 0,
        ;
        assert((ei * dj) * m <= (xj * di) * m) by (nonlinear_arith)
            requires
                (ei * m) * dj <= (di * n) * dj,
                (dj * n) * di <= (xj * m) * di,
        ;
        assert(ei * dj <= xj * di) by (nonlinear_arith)
            requires
                (ei * dj) * m <= (xj * di) * m,
                m > 0,
        ;
    }
}

/// A ray whose point lies in the box at a parameter past zero hits the box.
pub proof fn lemma_point_inside_is_hit(b: Aabb, ray: Ray, n: int, m: int)
    requires
        b.wf(),
        m > 0,
        n > 0,
        inside_at(b, ray, n, m),
    ensures
        b.hit_by(ray),
{
    let sx = b.slab_of(ray, 0);
    let sy = b.slab_of(ray, 1);
    let sz = b.slab_of(ray, 2);
    lemma_slab_of_point(b.lo(0), b.hi(0), ray.origin.coord(0), ray.direction.coord(0), n, m);
    lemma_slab_of_point(b.lo(1), b.hi(1), ray.origin.coord(1), ray.direction.coord(1), n, m);
    lemma_slab_of_point(b.lo(2), b.hi(2), ray.origin.coord(2), ray.direction.coord(2), n, m);
    lemma_pair_from_parameter(sx, sx, n, m);
    lemma_pair_from_parameter(sx, sy, n, m);
    lemma_pair_from_parameter(sx, sz, n, m);
    lemma_pair_from_parameter(sy, sx, n, m);
    lemma_pair_from_parameter(sy, sy, n, m);
    lemma_pair_from_parameter(sy, sz, n, m);
    lemma_pair_from_parameter(sz, sx, n, m);
    lemma_pair_from_parameter(sz, sy, n, m);
    lemma_pair_from_parameter(sz, sz, n, m);
}

/// The exit of `s` over the denominator that all three slabs share.
spec fn scaled_exit(s: Slab, p: Slab, q: Slab) -> int {
    s.exit * (p.den * q.den)
}

/// The entry of `s` over the denominator that all three slabs share.
spec fn scaled_enter(s: Slab, p: Slab, q: Slab) -> int {
    s.enter * (p.den * q.den)
}

proof fn lemma_scaled_same(s: Slab, p: Slab, q: Slab)
    requires
        s.den > 0,
        p.den > 0,
        q.den > 0,
        s.crossing,
        s.enters_before_exit_of(s),
        s.open(),
    ensures
        scaled_enter(s, p, q) <= scaled_exit(s, p, q),
        scaled_exit(s, p, q) > 0,
        scaled_enter(s, p, q) == scaled_enter(s, q, p),
        scaled_exit(s, p, q) == scaled_exit(s, q, p),
{
    let e = s.enter as int;
    let x = s.exit as int;
    let d = s.den as int;
    let r = p.den * q.den;
    assert(p.den * q.den == q.den * p.den) by (nonlinear_arith);
    assert(r > 0) by (nonlinear_arith)
        requires
            r == p.den * q.den,
            p.den > 0,
            q.den > 0,
    ;
    assert(e <= x) by (nonlinear_arith)
        requires
            e * d <= x * d,
            d > 0,
    ;
    assert(e * r <= x * r && x * r > 0) by (nonlinear_arith)
        requires
            e <= x,
            x > 0,
            r > 0,
    ;
}

/// With `k` the third slab: the scaled entry of `i` is no later than the
/// scaled exit of `j`.
proof fn lemma_scaled_pair(si: Slab, sj: Slab, sk: Slab)
    requires
        si.den > 0,
        sj.den > 0,
        sk.den > 0,
        si.crossing,
        sj.crossing,
        si.enters_before_exit_of(sj),
    ensures
        scaled_enter(si, sj, sk) <= scaled_exit(sj, si, sk),
{
    let e = si.enter as int;
    let x = sj.exit as int;
    let di = si.den as int;
    let dj = sj.den as int;
    let dk = sk.den as int;
    assert((e * dj) * dk <= (x * di) * dk) by (nonlinear_arith)
        requires
            e * dj <= x * di,
            dk > 0,
    ;
    assert((e * dj) * dk == e * (dj * dk)) by (nonlinear_arith);
    assert((x * di) * dk == x * (di * dk)) by (nonlinear_arith);
}

/// A slab whose scaled entry and exit enclose `n` holds the parameter
/// `n / m`, with `m` the shared denominator.
proof fn lemma_holds_scaled(s: Slab, p: Slab, q: Slab, n: int, m: int)
    requires
        s.den > 0,
        p.den > 0,
        q.den > 0,
        m == s.den * (p.den * q.den),
        s.crossing ==> scaled_enter(s, p, q) <= n <= scaled_exit(s, p, q),
        !s.crossing ==> s.inside,
    ensures
        holds_parameter(s, n, m),
{
    if s.crossing {
        let e = s.enter as int;
        let x = s.exit as int;
        let d = s.den as int;
        let r = p.den * q.den;
        assert((e * r) * d <= n * d && n * d <= (x * r) * d) by (nonlinear_arith)
            requires
                e * r <= n <= x * r,
                d > 0,
        ;
        assert(e * (d * r) == (e * r) * d) by (nonlinear_arith);
        assert(x * (d * r) == (x * r) * d) by (nonlinear_arith);
        assert(d * n == n * d) by (nonlinear_arith);
    }
}

/// A ray that hits a box has, at some parameter past zero, its point in
/// the box.
#[verifier::rlimit(50)]
pub proof fn lemma_hit_has_point_inside(b: Aabb, ray: Ray)
    requires
        b.wf(),
        b.hit_by(ray),
    ensures
        exists|n: int, m: int| m > 0 && n > 0 && inside_at(b, ray, n, m),
{
    let sx = b.slab_of(ray, 0);
    let sy = b.slab_of(ray, 1);
    let sz = b.slab_of(ray, 2);
    assert(sx.den > 0 && sy.den > 0 && sz.den > 0);
    let dx = sx.den as int;
    let dy = sy.den as int;
    let dz = sz.den as int;
    let m = dx * (dy * dz);
    assert(m > 0 && m == dy * (dx * dz) && m == dz * (dx * dy)) by (nonlinear_arith)
        requires
            m == dx * (dy * dz),
            dx > 0,
            dy > 0,
            dz > 0,
    ;
    let xx = scaled_exit(sx, sy, sz);
    let xy = scaled_exit(sy, sx, sz);
    let xz = scaled_exit(sz, sx, sy);
    let n: int = if sx.crossing && (!sy.crossing || xx <= xy) && (!sz.crossing || xx <= xz) {
        xx
    } else if sy.crossing && (!sz.crossing || xy <= xz) {
        xy
    } else if sz.crossing {
        xz
    } else {
        1
    };
    if sx.crossing {
        lemma_scaled_same(sx, sy, sz);
        if sy.crossing {
            lemma_scaled_pair(sx, sy, sz);
        }
        if sz.crossing {
            lemma_scaled_same(sx, sz, sy);
            lemma_scaled_pair(sx, sz, sy);
            lemma_scaled_same(sz, sx, sy);
        }
    }
    if sy.crossing {
        lemma_scaled_same(sy, sx, sz);
        if sx.crossing {
            lemma_scaled_pair(sy, sx, sz);
        }
        if sz.crossing {
            lemma_scaled_same(sy, sz, sx);
            lemma_scaled_pair(sy, sz, sx);
            lemma_scaled_same(sz, sy, sx);
        }
    }
    if sz.crossing {
        lemma_scaled_same(sz, sx, sy);
        if sx.crossing {
            lemma_scaled_pair(sz, sx, sy);
        }
        if sy.crossing {
            lemma_scaled_same(sz, sy, sx);
            lemma_scaled_pair(sz, sy, sx);
        }
    }
    assert(n > 0);
    lemma_holds_scaled(sx, sy, sz, n, m);
    lemma_holds_scaled(sy, sx, sz, n, m);
    lemma_holds_scaled(sz, sx, sy, n, m);
    lemma_slab_of_point(b.lo(0), b.hi(0), ray.origin.coord(0), ray.direction.coord(0), n, m);
    lemma_slab_of_point(b.lo(1), b.hi(1), ray.origin.coord(1), ray.direction.coord(1), n, m);
    lemma_slab_of_point(b.lo(2), b.hi(2), ray.origin.coord(2), ray.direction.coord(2), n, m);
    assert(inside_at(b, ray, n, m));
}

} // verus!
