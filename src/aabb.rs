use vstd::prelude::*;
use crate::fixed::{in_lim, LIM, ONE};
use crate::ray::Ray;
use crate::vec3::{Point3, Vec3};

verus! {

/// An axis-aligned bounding box, given by its two extreme corners.
#[derive(Clone, Copy, Debug, PartialEq, Eq, Structural)]
pub struct AABB {
    pub min: Point3,
    pub max: Point3,
}

/// A ray parameter as the fraction `num / den`, where `den > 0`.
pub type Frac = (int, int);

/// `a < b` for fractions with positive denominators.
pub open spec fn frac_lt(a: Frac, b: Frac) -> bool {
    a.0 * b.1 < b.0 * a.1
}

pub open spec fn frac_max(a: Frac, b: Frac) -> Frac {
    if frac_lt(a, b) {
        b
    } else {
        a
    }
}

pub open spec fn frac_min(a: Frac, b: Frac) -> Frac {
    if frac_lt(b, a) {
        b
    } else {
        a
    }
}

/// The parameter at which a ray with origin `o` and non-zero direction `d`
/// enters the slab `[lo, hi]` of one axis.
pub open spec fn slab_entry(lo: int, hi: int, o: int, d: int) -> Frac {
    if d > 0 {
        (lo - o, d)
    } else {
        (o - hi, -d)
    }
}

/// The parameter at which such a ray leaves the slab.
pub open spec fn slab_exit(lo: int, hi: int, o: int, d: int) -> Frac {
    if d > 0 {
        (hi - o, d)
    } else {
        (o - lo, -d)
    }
}

/// The smallest box holding both `a` and `b`.
pub open spec fn union_box(a: AABB, b: AABB) -> AABB {
    AABB {
        min: Vec3 {
            x: if a.min.x <= b.min.x { a.min.x } else { b.min.x },
            y: if a.min.y <= b.min.y { a.min.y } else { b.min.y },
            z: if a.min.z <= b.min.z { a.min.z } else { b.min.z },
        },
        max: Vec3 {
            x: if a.max.x >= b.max.x { a.max.x } else { b.max.x },
            y: if a.max.y >= b.max.y { a.max.y } else { b.max.y },
            z: if a.max.z >= b.max.z { a.max.z } else { b.max.z },
        },
    }
}

impl AABB {
    pub open spec fn bounded(self) -> bool {
        self.min.bounded() && self.max.bounded()
    }

    /// `inner` lies within `self` on every axis.
    pub open spec fn contains(self, inner: AABB) -> bool {
        &&& self.min.x <= inner.min.x && self.min.y <= inner.min.y && self.min.z <= inner.min.z
        &&& inner.max.x <= self.max.x && inner.max.y <= self.max.y && inner.max.z <= self.max.z
    }

    /// The point `p` lies strictly inside the box.
    pub open spec fn strictly_inside(self, p: Vec3) -> bool {
        forall|a: int| 0 <= a < 3 ==> self.min.at(a) < #[trigger] p.at(a) < self.max.at(a)
    }

    /// Some axis along which the ray does not move has its origin outside the slab.
    pub open spec fn blocked(self, r: Ray) -> bool {
        exists|a: int|
            0 <= a < 3 && #[trigger] r.dir.at(a) == 0 && !(self.min.at(a) <= r.orig.at(a)
                <= self.max.at(a))
    }

    /// The lower end of the parameter interval after clipping `(t_min, ...)`
    /// by the slabs of the first `n` axes.
    pub open spec fn lower_after(self, r: Ray, t_min: int, n: int) -> Frac
        decreases n,
    {
        if n <= 0 {
            (t_min, ONE as int)
        } else {
            let prev = self.lower_after(r, t_min, n - 1);
            let a = n - 1;
            if r.dir.at(a) == 0 {
                prev
            } else {
                frac_max(prev, slab_entry(self.min.at(a), self.max.at(a), r.orig.at(a), r.dir.at(a)))
            }
        }
    }

    /// The upper end of the parameter interval after clipping `(..., t_max)`
    /// by the slabs of the first `n` axes.
    pub open spec fn upper_after(self, r: Ray, t_max: int, n: int) -> Frac
        decreases n,
    {
        if n <= 0 {
            (t_max, ONE as int)
        } else {
            let prev = self.upper_after(r, t_max, n - 1);
            let a = n - 1;
            if r.dir.at(a) == 0 {
                prev
            } else {
                frac_min(prev, slab_exit(self.min.at(a), self.max.at(a), r.orig.at(a), r.dir.at(a)))
            }
        }
    }

    /// Whether the ray meets the box for some parameter in `(t_min, t_max)`:
    /// the interval clipped by all three slabs is non-empty.
    pub open spec fn slab_hit(self, r: Ray, t_min: int, t_max: int) -> bool {
        !self.blocked(r) && frac_lt(self.lower_after(r, t_min, 3), self.upper_after(r, t_max, 3))
    }

    pub fn new(min: Point3, max: Point3) -> (r: AABB)
        ensures
            r.min == min && r.max == max,
    {
        AABB { min, max }
    }

    pub fn min(&self) -> (r: Point3)
        ensures
            r == self.min,
    {
        self.min
    }

    pub fn max(&self) -> (r: Point3)
        ensures
            r == self.max,
    {
        self.max
    }

    /// The slab test: whether `r` meets the box for a parameter in `(t_min, t_max)`.
    /// Ray parameters are fixed-point numbers; the comparison is exact.
    pub fn hit(&self, r: &Ray, t_min: i64, t_max: i64) -> (res: bool)
        requires
            self.bounded(),
            r.bounded(),
            in_lim(t_min as int),
            in_lim(t_max as int),
        ensures
            res == self.slab_hit(*r, t_min as int, t_max as int),
    {
        let mut ln: i128 = t_min as i128;
        let mut ld: i128 = ONE as i128;
        let mut un: i128 = t_max as i128;
        let mut ud: i128 = ONE as i128;
        let mut axis: usize = 0;
        while axis < 3
            invariant
                axis <= 3,
                self.bounded(),
                r.bounded(),
                in_lim(t_min as int),
                in_lim(t_max as int),
                (ln as int, ld as int) == self.lower_after(*r, t_min as int, axis as int),
                (un as int, ud as int) == self.upper_after(*r, t_max as int, axis as int),
                -2 * LIM <= ln <= 2 * LIM,
                -2 * LIM <= un <= 2 * LIM,
                1 <= ld <= LIM,
                1 <= ud <= LIM,
                forall|a: int|
                    0 <= a < axis ==> !(#[trigger] r.dir.at(a) == 0 && !(self.min.at(a)
                        <= r.orig.at(a) <= self.max.at(a))),
            decreases 3 - axis,
        {
            let o = r.orig.axis(axis) as i128;
            let d = r.dir.axis(axis) as i128;
            let lo = self.min.axis(axis) as i128;
            let hi = self.max.axis(axis) as i128;
            if d == 0 {
                if o < lo || o > hi {
                    return false;
                }
            } else {
                let (en, ed, xn, xd) = if d > 0 {
                    (lo - o, d, hi - o, d)
                } else {
                    (o - hi, -d, o - lo, -d)
                };
                proof {
                    lemma_frac_cross_bound(ln as int, ed as int);
                    lemma_frac_cross_bound(en as int, ld as int);
                    lemma_frac_cross_bound(un as int, xd as int);
                    lemma_frac_cross_bound(xn as int, ud as int);
                }
                if ln * ed < en * ld {
                    ln = en;
                    ld = ed;
                }
                if xn * ud < un * xd {
                    un = xn;
                    ud = xd;
                }
            }
            axis = axis + 1;
        }
        proof {
            lemma_frac_cross_bound(ln as int, ud as int);
            lemma_frac_cross_bound(un as int, ld as int);
        }
        ln * ud < un * ld
    }
}

proof fn lemma_frac_cross_bound(n: int, d: int)
    requires
        -2 * LIM <= n <= 2 * LIM,
        1 <= d <= LIM,
    ensures
        -2 * LIM * LIM <= n * d <= 2 * LIM * LIM,
{
    assert(-2 * LIM * LIM <= n * d <= 2 * LIM * LIM) by (nonlinear_arith)
        requires
            -2 * LIM <= n <= 2 * LIM,
            1 <= d <= LIM,
            LIM == 16777216,
    ;
}

impl Default for AABB {
    fn default() -> (r: AABB)
        ensures
            r.min.is_zero() && r.max.is_zero(),
    {
        AABB { min: Vec3::origin(), max: Vec3::origin() }
    }
}

/// The smallest box holding both boxes: componentwise minimum and maximum of the corners.
pub fn surrounding_box(box0: AABB, box1: AABB) -> (r: AABB)
    ensures
        r == union_box(box0, box1),
{
    let small = box0.min().min(box1.min());
    let big = box0.max().max(box1.max());
    AABB::new(small, big)
}

/// The union of two boxes contains each of them.
pub proof fn lemma_surrounding_box_contains(a: AABB, b: AABB)
    ensures
        union_box(a, b).contains(a),
        union_box(a, b).contains(b),
{
}

/// A ray whose origin lies strictly inside a box meets it, whatever its
/// direction, for any parameter interval around zero.
pub proof fn lemma_hit_from_inside(b: AABB, r: Ray, t_min: int, t_max: int)
    requires
        b.strictly_inside(r.orig),
        t_min < 0 < t_max,
    ensures
        b.slab_hit(r, t_min, t_max),
{
    assert(!b.blocked(r)) by {
        assert forall|a: int| 0 <= a < 3 implies !(#[trigger] r.dir.at(a) == 0 && !(b.min.at(a)
            <= r.orig.at(a) <= b.max.at(a))) by {
            assert(b.min.at(a) < r.orig.at(a) < b.max.at(a));
        }
    }
    lemma_inside_bounds(b, r, t_min, t_max, 3);
    let l = b.lower_after(r, t_min, 3);
    let u = b.upper_after(r, t_max, 3);
    assert(l.0 * u.1 < 0) by (nonlinear_arith)
        requires l.0 < 0, u.1 > 0;
    assert(u.0 * l.1 > 0) by (nonlinear_arith)
        requires u.0 > 0, l.1 > 0;
}

proof fn lemma_inside_bounds(b: AABB, r: Ray, t_min: int, t_max: int, n: int)
    requires
        b.strictly_inside(r.orig),
        t_min < 0 < t_max,
        n <= 3,
    ensures
        b.lower_after(r, t_min, n).0 < 0,
        b.lower_after(r, t_min, n).1 > 0,
        b.upper_after(r, t_max, n).0 > 0,
        b.upper_after(r, t_max, n).1 > 0,
    decreases n,
{
    if n > 0 {
        lemma_inside_bounds(b, r, t_min, t_max, n - 1);
        let a = n - 1;
        assert(b.min.at(a) < r.orig.at(a) < b.max.at(a));
    }
}

} // verus!
