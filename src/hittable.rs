use vstd::prelude::*;
use crate::aabb::{union_box, AABB};
use crate::bvh::BVHNode;
use crate::moving_sphere::MovingSphere;
use crate::cuboid::Cuboid;
use crate::fixed::{fits_i64, fx_mul, in_lim, isqrt, tdiv, trunc_div, LIM, ONE};
use crate::pdf::PI;
use crate::ray::Ray;
use crate::vec3::{dot_raw, vadd, vneg, vsub, within, Point3, Vec3};
use crate::rng::random_below;
use rand::rngs::StdRng;

verus! {

/// What a successful intersection reports.
///
/// `normal` always points against the incoming ray; `front_face` tells
/// whether that is the primitive's outward normal. `mat` indexes the scene's
/// material table.
#[derive(Clone, Copy, Debug, PartialEq, Eq, Structural)]
pub struct HitRecord {
    pub p: Point3,
    pub normal: Vec3,
    pub t: i64,
    pub u: i64,
    pub v: i64,
    pub front_face: bool,
    pub mat: usize,
}

/// Whether a ray travelling along `dir` meets the front of a surface with
/// outward normal `outward`, and the normal turned against the ray.
pub open spec fn face_normal(dir: Vec3, outward: Vec3) -> (bool, Vec3) {
    if dot_raw(dir, outward) < 0 {
        (true, outward)
    } else {
        (false, vneg(outward))
    }
}

/// The record of a hit of `r` at `p`, parameter `t`, on a surface with outward normal `outward`.
pub open spec fn oriented_record(
    r: Ray,
    outward: Vec3,
    p: Point3,
    t: i64,
    u: i64,
    v: i64,
    mat: usize,
) -> HitRecord {
    HitRecord {
        p,
        normal: face_normal(r.dir, outward).1,
        t,
        u,
        v,
        front_face: face_normal(r.dir, outward).0,
        mat,
    }
}

/// The point `r.orig + t * r.dir`.
pub open spec fn point_at(r: Ray, t: int) -> Point3 {
    Vec3 {
        x: (r.orig.x + fx_mul(r.dir.x as int, t)) as i64,
        y: (r.orig.y + fx_mul(r.dir.y as int, t)) as i64,
        z: (r.orig.z + fx_mul(r.dir.z as int, t)) as i64,
    }
}

/// What every reported hit satisfies: its parameter lies strictly inside the
/// interval, its normal faces against the ray (and is small enough to be
/// negated), and its point is within `2 * LIM * LIM` of the origin.
pub open spec fn good_record(r: Ray, t_min: int, t_max: int, rec: HitRecord) -> bool {
    &&& t_min < rec.t < t_max
    &&& within(rec.p, 2 * LIM * LIM)
    &&& dot_raw(r.dir, rec.normal) <= 0
    &&& within(rec.normal, LIM * ONE)
}

/// Whether the point is within `2 * LIM * LIM` of the origin on every axis.
fn in_point_range(p: Point3) -> (b: bool)
    ensures
        b == within(p, 2 * LIM * LIM),
{
    let m: i64 = 2 * LIM * LIM;
    -m <= p.x && p.x <= m && -m <= p.y && p.y <= m && -m <= p.z && p.z <= m
}

/// The length of `n` is one up to about `3 / ONE`:
/// `ONE^2 - 6 ONE - 3 < |n|^2 < (ONE + 1)^2`.
pub open spec fn unit_length(n: Vec3) -> bool {
    ONE * ONE - 6 * ONE - 3 < dot_raw(n, n) < (ONE + 1) * (ONE + 1)
}

/// Negating a vector keeps its length.
proof fn lemma_neg_length(n: Vec3)
    requires
        negatable(n),
    ensures
        dot_raw(vneg(n), vneg(n)) == dot_raw(n, n),
{
    assert(dot_raw(vneg(n), vneg(n)) == dot_raw(n, n)) by (nonlinear_arith)
        requires
            vneg(n).x == -n.x,
            vneg(n).y == -n.y,
            vneg(n).z == -n.z,
    ;
}

/// No component is `i64::MIN`, so the vector can be negated.
pub open spec fn negatable(v: Vec3) -> bool {
    v.x > i64::MIN && v.y > i64::MIN && v.z > i64::MIN
}

fn point_at_exec(r: &Ray, t: i64) -> (p: Point3)
    requires
        r.bounded(),
        in_lim(t as int),
    ensures
        p == point_at(*r, t as int),
        within(p, 2 * LIM * LIM),
{
    proof {
        crate::vec3::lemma_fx_mul_bound(r.dir.x as int, t as int);
        crate::vec3::lemma_fx_mul_bound(r.dir.y as int, t as int);
        crate::vec3::lemma_fx_mul_bound(r.dir.z as int, t as int);
    }
    r.at(t)
}

impl HitRecord {
    pub fn new(
        r: &Ray,
        outward_normal: Vec3,
        p: Point3,
        t: i64,
        u: i64,
        v: i64,
        mat: usize,
    ) -> (rec: HitRecord)
        requires
            r.dir.bounded(),
            negatable(outward_normal),
        ensures
            rec == oriented_record(*r, outward_normal, p, t, u, v, mat),
            dot_raw(r.dir, rec.normal) <= 0,
    {
        let front_face = crate::vec3::dot_exact(r.dir, outward_normal) < 0;
        let normal = if front_face {
            outward_normal
        } else {
            outward_normal.neg()
        };
        proof {
            lemma_dot_neg(r.dir, outward_normal);
        }
        HitRecord { p, normal, t, u, v, front_face, mat }
    }

    /// Orients `normal` against `r` and records on which side the ray came from.
    pub fn set_face_normal(&mut self, r: &Ray, normal: Vec3)
        requires
            r.dir.bounded(),
            negatable(normal),
        ensures
            final(self).front_face == face_normal(r.dir, normal).0,
            final(self).normal == face_normal(r.dir, normal).1,
            final(self).p == old(self).p && final(self).t == old(self).t,
            final(self).u == old(self).u && final(self).v == old(self).v,
            final(self).mat == old(self).mat,
            dot_raw(r.dir, final(self).normal) <= 0,
    {
        self.front_face = crate::vec3::dot_exact(r.dir, normal) < 0;
        self.normal = if self.front_face {
            normal
        } else {
            normal.neg()
        };
        proof {
            lemma_dot_neg(r.dir, normal);
        }
    }
}

proof fn lemma_dot_neg(d: Vec3, n: Vec3)
    requires
        negatable(n),
    ensures
        dot_raw(d, vneg(n)) == -dot_raw(d, n),
        dot_raw(d, face_normal(d, n).1) <= 0,
{
    assert(dot_raw(d, vneg(n)) == -dot_raw(d, n)) by (nonlinear_arith)
        requires
            vneg(n).x == -n.x,
            vneg(n).y == -n.y,
            vneg(n).z == -n.z,
    ;
}

/// Which pair of axes an axis-aligned rectangle spans.
#[derive(Clone, Copy, Debug, PartialEq, Eq, Structural)]
pub enum Plane {
    Xy,
    Xz,
    Yz,
}

impl Plane {
    /// The axis orthogonal to the plane.
    pub open spec fn normal_axis(self) -> int {
        match self {
            Plane::Xy => 2,
            Plane::Xz => 1,
            Plane::Yz => 0,
        }
    }

    /// The first in-plane axis.
    pub open spec fn first_axis(self) -> int {
        match self {
            Plane::Xy => 0,
            Plane::Xz => 0,
            Plane::Yz => 1,
        }
    }

    /// The second in-plane axis.
    pub open spec fn second_axis(self) -> int {
        match self {
            Plane::Xy => 1,
            Plane::Xz => 2,
            Plane::Yz => 2,
        }
    }

    /// The unit vector along the orthogonal axis.
    pub open spec fn unit_normal(self) -> Vec3 {
        match self {
            Plane::Xy => Vec3 { x: 0, y: 0, z: ONE },
            Plane::Xz => Vec3 { x: 0, y: ONE, z: 0 },
            Plane::Yz => Vec3 { x: ONE, y: 0, z: 0 },
        }
    }

    pub fn axes(&self) -> (r: (usize, usize, usize))
        ensures
            r.0 == self.normal_axis() && r.1 == self.first_axis() && r.2 == self.second_axis(),
    {
        match self {
            Plane::Xy => (2, 0, 1),
            Plane::Xz => (1, 0, 2),
            Plane::Yz => (0, 1, 2),
        }
    }

    pub fn outward_normal(&self) -> (r: Vec3)
        ensures
            r == self.unit_normal(),
    {
        match self {
            Plane::Xy => Vec3::new(0, 0, ONE),
            Plane::Xz => Vec3::new(0, ONE, 0),
            Plane::Yz => Vec3::new(ONE, 0, 0),
        }
    }
}

/// A sphere. A negative radius turns the outward normal inwards, which makes a hollow shell.
#[derive(Clone, Copy, Debug, PartialEq, Eq, Structural)]
pub struct Sphere {
    pub center: Point3,
    pub radius: i64,
    pub mat: usize,
}

impl Sphere {
    /// The center and the reach of the sphere lie within the coordinate range.
    pub open spec fn wf(self) -> bool {
        &&& self.center.bounded()
        &&& in_lim(self.radius as int)
        &&& in_lim(self.center.x + self.radius) && in_lim(self.center.x - self.radius)
        &&& in_lim(self.center.y + self.radius) && in_lim(self.center.y - self.radius)
        &&& in_lim(self.center.z + self.radius) && in_lim(self.center.z - self.radius)
    }

    /// The record for a hit at parameter `t`, or none where the point found is
    /// too far from the center to be represented.
    pub open spec fn record_at(self, r: Ray, t: int) -> Option<HitRecord> {
        let p = point_at(r, t);
        let q = vsub(p, self.center);
        if !q.bounded() || q.is_zero() {
            None
        } else {
            let outward = if self.radius > 0 {
                crate::onb::unit_of(q)
            } else {
                vneg(crate::onb::unit_of(q))
            };
            Some(oriented_record(r, outward, p, t as i64, 0, 0, self.mat))
        }
    }

    /// Solves `|o + t d - c|^2 = r^2`, nearer root first; each root is rounded toward zero.
    pub open spec fn spec_hit(self, r: Ray, t_min: int, t_max: int) -> Option<HitRecord> {
        let oc = vsub(r.orig, self.center);
        let a = dot_raw(r.dir, r.dir);
        let h = dot_raw(oc, r.dir);
        let c = dot_raw(oc, oc) - self.radius * self.radius;
        let disc = h * h - a * c;
        if self.radius == 0 || disc <= 0 {
            None
        } else {
            let sq = isqrt(disc);
            let t1 = tdiv((-h - sq) * ONE, a);
            let t2 = tdiv((-h + sq) * ONE, a);
            if t_min < t1 < t_max {
                self.record_at(r, t1)
            } else if t_min < t2 < t_max {
                self.record_at(r, t2)
            } else {
                None
            }
        }
    }

    /// The box from `center - |radius|` to `center + |radius|`.
    pub open spec fn spec_box(self) -> AABB {
        let a: int = if self.radius >= 0 { self.radius as int } else { -self.radius };
        AABB {
            min: Vec3 {
                x: (self.center.x - a) as i64,
                y: (self.center.y - a) as i64,
                z: (self.center.z - a) as i64,
            },
            max: Vec3 {
                x: (self.center.x + a) as i64,
                y: (self.center.y + a) as i64,
                z: (self.center.z + a) as i64,
            },
        }
    }

    pub fn new(center: Point3, radius: i64, mat: usize) -> (s: Sphere)
        ensures
            s.center == center && s.radius == radius && s.mat == mat,
    {
        Sphere { center, radius, mat }
    }

    fn record_at_exec(&self, r: &Ray, t: i64) -> (res: Option<HitRecord>)
        requires
            self.wf(),
            r.bounded(),
            in_lim(t as int),
            self.radius != 0,
        ensures
            res == self.record_at(*r, t as int),
            res matches Some(rec) ==> rec.t == t && within(rec.p, 2 * LIM * LIM) && dot_raw(
                r.dir,
                rec.normal,
            ) <= 0 && within(rec.normal, LIM * ONE) && unit_length(rec.normal),
    {
        let p = point_at_exec(r, t);
        let q = p.sub(self.center);
        if !(-LIM <= q.x && q.x <= LIM && -LIM <= q.y && q.y <= LIM && -LIM <= q.z && q.z <= LIM) {
            return None;
        }
        if q.x == 0 && q.y == 0 && q.z == 0 {
            return None;
        }
        let u = q.unit_vector();
        assert(u == crate::onb::unit_of(q));
        let outward = if self.radius > 0 {
            u
        } else {
            u.neg()
        };
        proof {
            lemma_neg_length(u);
            lemma_neg_length(outward);
        }
        Some(HitRecord::new(r, outward, p, t, 0, 0, self.mat))
    }

    pub fn hit(&self, r: &Ray, t_min: i64, t_max: i64) -> (res: Option<HitRecord>)
        requires
            self.wf(),
            r.bounded(),
            in_lim(t_min as int),
            in_lim(t_max as int),
        ensures
            res == self.spec_hit(*r, t_min as int, t_max as int),
            res matches Some(rec) ==> good_record(*r, t_min as int, t_max as int, rec)
                && unit_length(rec.normal),
    {
        if self.radius == 0 {
            return None;
        }
        let oc = r.orig.sub(self.center);
        let a = crate::vec3::dot_wide(r.dir, r.dir);
        let h = crate::vec3::dot_wide(oc, r.dir);
        proof {
            crate::vec3::lemma_prod_bound(self.radius as int, self.radius as int);
        }
        let c = crate::vec3::dot_wide(oc, oc) - self.radius as i128 * self.radius as i128;
        proof {
            crate::vec3::lemma_sq_nonneg(r.dir);
            lemma_disc_bound(h as int, a as int, c as int);
        }
        let disc = h * h - a * c;
        if disc <= 0 {
            return None;
        }
        proof {
            lemma_dir_nonzero(r.dir, oc, c as int);
        }
        let sq = crate::fixed::isqrt_i128(disc);
        let one = ONE as i128;
        let t1 = crate::fixed::div_trunc((-h - sq) * one, a);
        if t_min as i128 <= t1 && t1 <= t_max as i128 {
            if t_min as i128 != t1 && t1 != t_max as i128 {
                return self.record_at_exec(r, t1 as i64);
            }
        }
        let t2 = crate::fixed::div_trunc((-h + sq) * one, a);
        if t_min as i128 <= t2 && t2 <= t_max as i128 {
            if t_min as i128 != t2 && t2 != t_max as i128 {
                return self.record_at_exec(r, t2 as i64);
            }
        }
        None
    }

    pub fn bounding_box(&self) -> (b: AABB)
        requires
            self.wf(),
        ensures
            b == self.spec_box(),
            b.bounded(),
    {
        let a = if self.radius >= 0 {
            self.radius
        } else {
            -self.radius
        };
        AABB::new(
            Vec3::new(self.center.x - a, self.center.y - a, self.center.z - a),
            Vec3::new(self.center.x + a, self.center.y + a, self.center.z + a),
        )
    }
}

proof fn lemma_disc_bound(h: int, a: int, c: int)
    requires
        -12 * LIM * LIM <= h <= 12 * LIM * LIM,
        0 <= a <= 12 * LIM * LIM,
        -13 * LIM * LIM <= c <= 13 * LIM * LIM,
    ensures
        0 <= h * h <= 144 * 0x1_0000_0000_0000_0000_0000_0000,
        -156 * 0x1_0000_0000_0000_0000_0000_0000 <= a * c <= 156 * 0x1_0000_0000_0000_0000_0000_0000,
{
    assert(0 <= h * h <= 144 * 0x1_0000_0000_0000_0000_0000_0000) by (nonlinear_arith)
        requires
            -12 * 0x1_0000_0000_0000 <= h <= 12 * 0x1_0000_0000_0000,
    ;
    assert(-156 * 0x1_0000_0000_0000_0000_0000_0000 <= a * c <= 156 * 0x1_0000_0000_0000_0000_0000_0000) by (nonlinear_arith)
        requires
            0 <= a <= 12 * 0x1_0000_0000_0000,
            -13 * 0x1_0000_0000_0000 <= c <= 13 * 0x1_0000_0000_0000,
    ;
}

/// A positive discriminant needs a non-zero direction.
proof fn lemma_dir_nonzero(d: Vec3, oc: Vec3, c: int)
    requires
        dot_raw(oc, d) * dot_raw(oc, d) - dot_raw(d, d) * c > 0,
    ensures
        dot_raw(d, d) > 0,
{
    assert(dot_raw(d, d) >= 0) by (nonlinear_arith)
        requires
            dot_raw(d, d) == d.x * d.x + d.y * d.y + d.z * d.z,
    ;
    if dot_raw(d, d) == 0 {
        assert(d.x == 0 && d.y == 0 && d.z == 0) by (nonlinear_arith)
            requires
                d.x * d.x + d.y * d.y + d.z * d.z == 0,
        ;
        assert(dot_raw(oc, d) == 0);
    }
}

proof fn lemma_div_bound(a: int, b: int)
    requires
        -LIM * ONE <= a <= LIM * ONE,
        b != 0,
    ensures
        -LIM * ONE <= trunc_div(a, b) <= LIM * ONE,
{
    if b > 0 {
        if a >= 0 {
            assert(0 <= a / b <= a) by (nonlinear_arith)
                requires a >= 0, b > 0;
        } else {
            assert(0 <= (-a) / b <= -a) by (nonlinear_arith)
                requires -a >= 0, b > 0;
        }
    } else {
        if -a >= 0 {
            assert(0 <= (-a) / (-b) <= -a) by (nonlinear_arith)
                requires -a >= 0, -b > 0;
        } else {
            assert(0 <= a / (-b) <= a) by (nonlinear_arith)
                requires a >= 0, -b > 0;
        }
    }
}

} // verus!

verus! {

/// Half the thickness given to the bounding box of a flat rectangle.
pub const BOX_PAD: i64 = 1;

/// The vector whose component on the plane's normal axis is `k` and whose
/// in-plane components are `a` and `b`.
pub open spec fn on_plane(plane: Plane, k: int, a: int, b: int) -> Vec3 {
    match plane {
        Plane::Xy => Vec3 { x: a as i64, y: b as i64, z: k as i64 },
        Plane::Xz => Vec3 { x: a as i64, y: k as i64, z: b as i64 },
        Plane::Yz => Vec3 { x: k as i64, y: a as i64, z: b as i64 },
    }
}

fn on_plane_exec(plane: Plane, k: i64, a: i64, b: i64) -> (r: Vec3)
    ensures
        r == on_plane(plane, k as int, a as int, b as int),
{
    match plane {
        Plane::Xy => Vec3::new(a, b, k),
        Plane::Xz => Vec3::new(a, k, b),
        Plane::Yz => Vec3::new(k, a, b),
    }
}

/// An axis-aligned rectangle `[a0, a1] x [b0, b1]` in the plane where the
/// orthogonal coordinate equals `k`. Its outward normal is the positive unit
/// vector of the orthogonal axis.
#[derive(Clone, Copy, Debug, PartialEq, Eq, Structural)]
pub struct AARect {
    pub a0: i64,
    pub a1: i64,
    pub b0: i64,
    pub b1: i64,
    pub k: i64,
    pub axis: Plane,
    pub mat: usize,
}

impl AARect {
    pub open spec fn wf(self) -> bool {
        &&& in_lim(self.a0 as int) && in_lim(self.a1 as int)
        &&& in_lim(self.b0 as int) && in_lim(self.b1 as int)
        &&& in_lim(self.k - BOX_PAD) && in_lim(self.k + BOX_PAD)
    }

    /// Intersects the plane, then tests the point against the rectangle's extents.
    /// `u` and `v` are the fixed-point position within the rectangle.
    pub open spec fn spec_hit(self, r: Ray, t_min: int, t_max: int) -> Option<HitRecord> {
        let d = r.dir.at(self.axis.normal_axis());
        let o = r.orig.at(self.axis.normal_axis());
        if d == 0 {
            None
        } else {
            let t = trunc_div((self.k - o) * ONE, d);
            if !(t_min < t < t_max) {
                None
            } else {
                let p = point_at(r, t);
                let a = p.at(self.axis.first_axis());
                let b = p.at(self.axis.second_axis());
                if a < self.a0 || a > self.a1 || b < self.b0 || b > self.b1 {
                    None
                } else {
                    let u = if self.a1 > self.a0 {
                        tdiv((a - self.a0) * ONE, self.a1 - self.a0)
                    } else {
                        0
                    };
                    let v = if self.b1 > self.b0 {
                        tdiv((b - self.b0) * ONE, self.b1 - self.b0)
                    } else {
                        0
                    };
                    Some(
                        oriented_record(
                            r,
                            self.axis.unit_normal(),
                            p,
                            t as i64,
                            u as i64,
                            v as i64,
                            self.mat,
                        ),
                    )
                }
            }
        }
    }

    /// The rectangle thickened by `BOX_PAD` on each side of its plane.
    pub open spec fn spec_box(self) -> AABB {
        AABB {
            min: on_plane(self.axis, self.k - BOX_PAD, self.a0 as int, self.b0 as int),
            max: on_plane(self.axis, self.k + BOX_PAD, self.a1 as int, self.b1 as int),
        }
    }

    /// A rectangle spanning `p0.x..p1.x` by `p0.y..p1.y` in the coordinates of `axis`.
    pub fn new(p0: Point3, p1: Point3, axis: Plane, k: i64, mat: usize) -> (q: AARect)
        ensures
            q == (AARect { a0: p0.x, a1: p1.x, b0: p0.y, b1: p1.y, k, axis, mat }),
    {
        AARect { a0: p0.x, a1: p1.x, b0: p0.y, b1: p1.y, k, axis, mat }
    }

    /// The rectangle whose opposite corners, projected onto the plane, are `p0` and `p1`.
    pub fn from_corner(p0: Point3, p1: Point3, axis: Plane, k: i64, mat: usize) -> (q: AARect)
        ensures
            q.a0 == p0.at(axis.first_axis()) && q.a1 == p1.at(axis.first_axis()),
            q.b0 == p0.at(axis.second_axis()) && q.b1 == p1.at(axis.second_axis()),
            q.k == k && q.axis == axis && q.mat == mat,
    {
        let (_, ia, ib) = axis.axes();
        AARect {
            a0: p0.axis(ia),
            a1: p1.axis(ia),
            b0: p0.axis(ib),
            b1: p1.axis(ib),
            k,
            axis,
            mat,
        }
    }

    pub fn hit(&self, r: &Ray, t_min: i64, t_max: i64) -> (res: Option<HitRecord>)
        requires
            self.wf(),
            r.bounded(),
            in_lim(t_min as int),
            in_lim(t_max as int),
        ensures
            res == self.spec_hit(*r, t_min as int, t_max as int),
            res matches Some(rec) ==> good_record(*r, t_min as int, t_max as int, rec)
                && unit_length(rec.normal),
    {
        let (ko, ia, ib) = self.axis.axes();
        let d = r.dir.axis(ko);
        let o = r.orig.axis(ko);
        if d == 0 {
            return None;
        }
        let t = crate::fixed::div_trunc_signed((self.k as i128 - o as i128) * ONE as i128, d as i128);
        if t <= t_min as i128 || t >= t_max as i128 {
            return None;
        }
        let t = t as i64;
        let p = point_at_exec(r, t);
        let a = p.axis(ia);
        let b = p.axis(ib);
        if a < self.a0 || a > self.a1 || b < self.b0 || b > self.b1 {
            return None;
        }
        let u: i64 = if self.a1 > self.a0 {
            let q = crate::fixed::div_trunc((a as i128 - self.a0 as i128) * ONE as i128, self.a1 as i128 - self.a0 as i128);
            proof {
                lemma_fraction_unit((a - self.a0) as int, (self.a1 - self.a0) as int);
            }
            q as i64
        } else {
            0
        };
        let v: i64 = if self.b1 > self.b0 {
            let q = crate::fixed::div_trunc((b as i128 - self.b0 as i128) * ONE as i128, self.b1 as i128 - self.b0 as i128);
            proof {
                lemma_fraction_unit((b - self.b0) as int, (self.b1 - self.b0) as int);
            }
            q as i64
        } else {
            0
        };
        let n = self.axis.outward_normal();
        proof {
            assert(n.x * n.x + n.y * n.y + n.z * n.z == ONE * ONE) by (nonlinear_arith)
                requires
                    (n.x == 0 && n.y == 0 && n.z == 4096) || (n.x == 0 && n.y == 4096 && n.z == 0)
                        || (n.x == 4096 && n.y == 0 && n.z == 0),
                    ONE == 4096,
            ;
            lemma_neg_length(n);
        }
        Some(HitRecord::new(r, n, p, t, u, v, self.mat))
    }

    pub fn bounding_box(&self) -> (b: AABB)
        requires
            self.wf(),
        ensures
            b == self.spec_box(),
            b.bounded(),
    {
        let lo = on_plane_exec(self.axis, self.k - BOX_PAD, self.a0, self.b0);
        let hi = on_plane_exec(self.axis, self.k + BOX_PAD, self.a1, self.b1);
        AABB::new(lo, hi)
    }
}

/// `0 <= x <= w` gives a fixed-point fraction `x / w` in `[0, ONE]`.
proof fn lemma_fraction_unit(x: int, w: int)
    requires
        0 <= x <= w,
        w > 0,
    ensures
        0 <= (x * ONE) / w <= ONE,
{
    assert(0 <= (x * ONE) / w <= ONE) by (nonlinear_arith)
        requires
            0 <= x <= w,
            w > 0,
            ONE == 4096,
    ;
}

} // verus!

verus! {

/// An object moved by `offset`.
#[derive(Debug)]
pub struct Translate {
    pub inner: Box<Hittable>,
    pub offset: Vec3,
}

impl Translate {
    pub fn new(inner: Hittable, offset: Vec3) -> (t: Translate)
        ensures
            *t.inner == inner && t.offset == offset,
    {
        Translate { inner: Box::new(inner), offset }
    }
}

/// An object whose hits report the opposite side: a one-sided emitter faces the other way.
#[derive(Debug)]
pub struct FlipFace {
    pub inner: Box<Hittable>,
}

impl FlipFace {
    pub fn new(inner: Hittable) -> (f: FlipFace)
        ensures
            *f.inner == inner,
    {
        FlipFace { inner: Box::new(inner) }
    }
}

/// Everything a ray can be intersected with.
#[derive(Debug)]
pub enum Hittable {
    Sphere(Sphere),
    MovingSphere(MovingSphere),
    Rect(AARect),
    Cuboid(Cuboid),
    Translate(Translate),
    RotateY(RotateY),
    FlipFace(FlipFace),
    Bvh(BVHNode),
}

/// `b` shifted by `off` stays within the coordinate range.
pub open spec fn shift_ok(b: AABB, off: Vec3) -> bool {
    &&& in_lim(b.min.x + off.x) && in_lim(b.min.y + off.y) && in_lim(b.min.z + off.z)
    &&& in_lim(b.max.x + off.x) && in_lim(b.max.y + off.y) && in_lim(b.max.z + off.z)
}

/// The record of `rec` moved by `off`: only the point moves; the normal and
/// the side the ray came from stay as the inner object reported them.
pub open spec fn translated_record(r: Ray, off: Vec3, rec: HitRecord) -> HitRecord {
    HitRecord { p: vadd(rec.p, off), ..rec }
}

/// The record `rec` seen from the other side.
pub open spec fn flipped_record(rec: HitRecord) -> HitRecord {
    HitRecord { front_face: !rec.front_face, ..rec }
}

impl Hittable {
    /// Coordinates lie within range, and every hierarchy node's box holds both children's boxes.
    pub open spec fn wf(self) -> bool
        decreases self,
    {
        match self {
            Hittable::Sphere(s) => s.wf(),
            Hittable::MovingSphere(m) => m.wf(),
            Hittable::Rect(q) => q.wf(),
            Hittable::Cuboid(c) => c.wf(),
            Hittable::Translate(tr) => tr.offset.bounded() && tr.inner.wf(),
            Hittable::RotateY(rt) => {
                &&& -ONE <= rt.sin_theta <= ONE
                &&& -ONE <= rt.cos_theta <= ONE
                &&& rt.inner.wf()
                &&& rt.bbox == rotated_box(rt.inner.spec_bbox(), rt.sin_theta as int, rt.cos_theta as int)
            },
            Hittable::FlipFace(f) => f.inner.wf(),
            Hittable::Bvh(n) => {
                &&& n.bbox.bounded()
                &&& n.left.wf()
                &&& n.right.wf()
                &&& n.left.spec_bbox() matches Some(bl) && n.bbox.contains(bl)
                &&& n.right.spec_bbox() matches Some(br) && n.bbox.contains(br)
            },
        }
    }

    /// The box that encloses the object, if it has one.
    pub open spec fn spec_bbox(self) -> Option<AABB>
        decreases self,
    {
        match self {
            Hittable::Sphere(s) => Some(s.spec_box()),
            Hittable::MovingSphere(m) => Some(m.spec_box()),
            Hittable::Rect(q) => Some(q.spec_box()),
            Hittable::Cuboid(c) => Some(AABB { min: c.box_min, max: c.box_max }),
            Hittable::Translate(tr) => match tr.inner.spec_bbox() {
                Some(b) => if shift_ok(b, tr.offset) {
                    Some(AABB { min: vadd(b.min, tr.offset), max: vadd(b.max, tr.offset) })
                } else {
                    None
                },
                None => None,
            },
            Hittable::RotateY(rt) => rt.bbox,
            Hittable::FlipFace(f) => f.inner.spec_bbox(),
            Hittable::Bvh(n) => Some(n.bbox),
        }
    }

    /// The hit of `r` with the object for a parameter in `(t_min, t_max)`.
    pub open spec fn spec_hit(self, r: Ray, t_min: int, t_max: int) -> Option<HitRecord>
        decreases self,
    {
        match self {
            Hittable::Sphere(s) => s.spec_hit(r, t_min, t_max),
            Hittable::MovingSphere(m) => m.spec_hit(r, t_min, t_max),
            Hittable::Rect(q) => q.spec_hit(r, t_min, t_max),
            Hittable::Cuboid(c) => c.spec_hit(r, t_min, t_max),
            Hittable::Translate(tr) => {
                let moved = Ray { orig: vsub(r.orig, tr.offset), dir: r.dir, tm: r.tm };
                if !moved.orig.bounded() {
                    None
                } else {
                    match tr.inner.spec_hit(moved, t_min, t_max) {
                        Some(rec) => if within(vadd(rec.p, tr.offset), 2 * LIM * LIM) {
                            Some(translated_record(r, tr.offset, rec))
                        } else {
                            None
                        },
                        None => None,
                    }
                }
            },
            Hittable::RotateY(rt) => {
                let (s, c) = (rt.sin_theta as int, rt.cos_theta as int);
                let turned = Ray { orig: rot_inv(r.orig, s, c), dir: rot_inv(r.dir, s, c), tm: r.tm };
                if !turned.bounded() {
                    None
                } else {
                    match rt.inner.spec_hit(turned, t_min, t_max) {
                        Some(rec) => if within(rot_fwd(rec.p, s, c), 2 * LIM * LIM) && within(
                            rot_fwd(rec.normal, s, c),
                            LIM * ONE,
                        ) {
                            Some(rotated_record(r, s, c, rec))
                        } else {
                            None
                        },
                        None => None,
                    }
                }
            },
            Hittable::FlipFace(f) => match f.inner.spec_hit(r, t_min, t_max) {
                Some(rec) => Some(flipped_record(rec)),
                None => None,
            },
            Hittable::Bvh(n) => if !n.bbox.slab_hit(r, t_min, t_max) {
                None
            } else {
                match n.left.spec_hit(r, t_min, t_max) {
                    Some(rl) => match n.right.spec_hit(r, t_min, rl.t as int) {
                        Some(rr) => Some(rr),
                        None => Some(rl),
                    },
                    None => n.right.spec_hit(r, t_min, t_max),
                }
            },
        }
    }

    pub fn bounding_box(&self) -> (res: Option<AABB>)
        requires
            self.wf(),
        ensures
            res == self.spec_bbox(),
            res matches Some(b) ==> b.bounded(),
        decreases self,
    {
        match self {
            Hittable::Sphere(s) => Some(s.bounding_box()),
            Hittable::MovingSphere(m) => Some(m.bounding_box()),
            Hittable::Rect(q) => Some(q.bounding_box()),
            Hittable::Cuboid(c) => Some(c.bounding_box()),
            Hittable::Translate(tr) => match tr.inner.bounding_box() {
                Some(b) => {
                    let off = tr.offset;
                    let lo = b.min.add(off);
                    let hi = b.max.add(off);
                    if lo.x < -LIM || lo.x > LIM || lo.y < -LIM || lo.y > LIM || lo.z < -LIM
                        || lo.z > LIM {
                        return None;
                    }
                    if hi.x < -LIM || hi.x > LIM || hi.y < -LIM || hi.y > LIM || hi.z < -LIM
                        || hi.z > LIM {
                        return None;
                    }
                    Some(AABB::new(lo, hi))
                },
                None => None,
            },
            Hittable::RotateY(rt) => {
                proof {
                    lemma_bbox_bounded(*rt.inner);
                }
                rt.bbox
            },
            Hittable::FlipFace(f) => f.inner.bounding_box(),
            Hittable::Bvh(n) => Some(n.bbox),
        }
    }

    /// Intersects `r` with the object over the open interval `(t_min, t_max)`.
    pub fn hit(&self, r: &Ray, t_min: i64, t_max: i64) -> (res: Option<HitRecord>)
        requires
            self.wf(),
            r.bounded(),
            in_lim(t_min as int),
            in_lim(t_max as int),
        ensures
            res == self.spec_hit(*r, t_min as int, t_max as int),
            res matches Some(rec) ==> good_record(*r, t_min as int, t_max as int, rec),
        decreases self,
    {
        match self {
            Hittable::Sphere(s) => s.hit(r, t_min, t_max),
            Hittable::MovingSphere(m) => m.hit(r, t_min, t_max),
            Hittable::Rect(q) => q.hit(r, t_min, t_max),
            Hittable::Cuboid(c) => c.hit(r, t_min, t_max),
            Hittable::Translate(tr) => {
                let off = tr.offset;
                let mo = r.orig.sub(off);
                if mo.x < -LIM || mo.x > LIM || mo.y < -LIM || mo.y > LIM || mo.z < -LIM || mo.z
                    > LIM {
                    return None;
                }
                let moved = Ray::new(mo, r.dir, r.tm);
                match tr.inner.hit(&moved, t_min, t_max) {
                    Some(rec0) => {
                        let mut rec = rec0;
                        let p2 = rec.p.add(off);
                        if !in_point_range(p2) {
                            return None;
                        }
                        rec.p = p2;
                        assert(rec == translated_record(*r, off, rec0));
                        Some(rec)
                    },
                    None => None,
                }
            },
            Hittable::RotateY(rt) => {
                let (s, c) = (rt.sin_theta, rt.cos_theta);
                let o = turn(r.orig, -s, c);
                let d = turn(r.dir, -s, c);
                if !(o.x >= -LIM && o.x <= LIM && o.y >= -LIM && o.y <= LIM && o.z >= -LIM && o.z <= LIM) {
                    return None;
                }
                if !(d.x >= -LIM && d.x <= LIM && d.y >= -LIM && d.y <= LIM && d.z >= -LIM && d.z <= LIM) {
                    return None;
                }
                let turned = Ray::new(o, d, r.tm);
                match rt.inner.hit(&turned, t_min, t_max) {
                    Some(rec0) => {
                        let p2 = turn(rec0.p, s, c);
                        let n2 = turn(rec0.normal, s, c);
                        if !in_point_range(p2) {
                            return None;
                        }
                        if !(n2.x >= -LIM * ONE && n2.x <= LIM * ONE && n2.y >= -LIM * ONE && n2.y
                            <= LIM * ONE && n2.z >= -LIM * ONE && n2.z <= LIM * ONE) {
                            return None;
                        }
                        let mut rec = rec0;
                        rec.p = p2;
                        rec.set_face_normal(r, n2);
                        rec.front_face = rec0.front_face;
                        assert(rec == rotated_record(*r, s as int, c as int, rec0));
                        Some(rec)
                    },
                    None => None,
                }
            },
            Hittable::FlipFace(f) => match f.inner.hit(r, t_min, t_max) {
                Some(rec) => Some(HitRecord { front_face: !rec.front_face, ..rec }),
                None => None,
            },
            Hittable::Bvh(n) => {
                if !n.bbox.hit(r, t_min, t_max) {
                    return None;
                }
                match n.left.hit(r, t_min, t_max) {
                    Some(rl) => match n.right.hit(r, t_min, rl.t) {
                        Some(rr) => Some(rr),
                        None => Some(rl),
                    },
                    None => n.right.hit(r, t_min, t_max),
                }
            },
        }
    }
}

/// The box of a well-formed object lies within the coordinate range.
pub proof fn lemma_bbox_bounded(h: Hittable)
    requires
        h.wf(),
    ensures
        h.spec_bbox() matches Some(b) ==> b.bounded(),
    decreases h,
{
    match h {
        Hittable::Translate(tr) => {
            lemma_bbox_bounded(*tr.inner);
        },
        Hittable::RotateY(rt) => {
            lemma_bbox_bounded(*rt.inner);
        },
        Hittable::FlipFace(f) => {
            lemma_bbox_bounded(*f.inner);
        },
        _ => {},
    }
}

/// Flipping the face twice gives back the inner object's hit, front face included.
pub proof fn lemma_flip_face_twice(x: Hittable, r: Ray, t_min: int, t_max: int)
    ensures
        Hittable::FlipFace(FlipFace { inner: Box::new(Hittable::FlipFace(FlipFace { inner: Box::new(x) })) }).spec_hit(
            r,
            t_min,
            t_max,
        ) == x.spec_hit(r, t_min, t_max),
{
    let once = Hittable::FlipFace(FlipFace { inner: Box::new(x) });
    let twice = Hittable::FlipFace(FlipFace { inner: Box::new(once) });
    assert(once.spec_hit(r, t_min, t_max) == match x.spec_hit(r, t_min, t_max) {
        Some(rec) => Some(flipped_record(rec)),
        None => None,
    });
    assert(twice.spec_hit(r, t_min, t_max) == match once.spec_hit(r, t_min, t_max) {
        Some(rec) => Some(flipped_record(rec)),
        None => None,
    });
    match x.spec_hit(r, t_min, t_max) {
        Some(rec) => {
            assert(flipped_record(flipped_record(rec)) == rec);
        },
        None => {},
    }
}

} // verus!

verus! {

impl Hittable {
    /// A deep copy of the object.
    pub fn duplicate(&self) -> (r: Hittable)
        ensures
            r == *self,
        decreases self,
    {
        match self {
            Hittable::Sphere(s) => Hittable::Sphere(*s),
            Hittable::MovingSphere(m) => Hittable::MovingSphere(*m),
            Hittable::Rect(q) => Hittable::Rect(*q),
            Hittable::Cuboid(c) => Hittable::Cuboid(*c),
            Hittable::Translate(tr) => Hittable::Translate(
                Translate { inner: Box::new(tr.inner.duplicate()), offset: tr.offset },
            ),
            Hittable::RotateY(rt) => Hittable::RotateY(
                RotateY {
                    inner: Box::new(rt.inner.duplicate()),
                    sin_theta: rt.sin_theta,
                    cos_theta: rt.cos_theta,
                    bbox: rt.bbox,
                },
            ),
            Hittable::FlipFace(f) => Hittable::FlipFace(
                FlipFace { inner: Box::new(f.inner.duplicate()) },
            ),
            Hittable::Bvh(n) => Hittable::Bvh(
                BVHNode {
                    left: Box::new(n.left.duplicate()),
                    right: Box::new(n.right.duplicate()),
                    bbox: n.bbox,
                },
            ),
        }
    }
}

} // verus!

verus! {

/// The smaller of four numbers.
pub open spec fn min4(a: int, b: int, c: int, d: int) -> int {
    let ab = if a <= b { a } else { b };
    let cd = if c <= d { c } else { d };
    if ab <= cd { ab } else { cd }
}

/// The larger of four numbers.
pub open spec fn max4(a: int, b: int, c: int, d: int) -> int {
    let ab = if a >= b { a } else { b };
    let cd = if c >= d { c } else { d };
    if ab >= cd { ab } else { cd }
}

/// `x cos + z sin`: the new `x` of a point turned about the y axis.
pub open spec fn turn_x(x: int, z: int, s: int, c: int) -> int {
    fx_mul(c, x) + fx_mul(s, z)
}

/// `z cos - x sin`: the new `z` of a point turned about the y axis.
pub open spec fn turn_z(x: int, z: int, s: int, c: int) -> int {
    fx_mul(c, z) - fx_mul(s, x)
}

/// `v` turned about the y axis by the angle whose sine and cosine are `s` and `c`.
pub open spec fn rot_fwd(v: Vec3, s: int, c: int) -> Vec3 {
    Vec3 { x: turn_x(v.x as int, v.z as int, s, c) as i64, y: v.y, z: turn_z(v.x as int, v.z as int, s, c) as i64 }
}

/// `v` turned back: about the y axis by the opposite angle.
pub open spec fn rot_inv(v: Vec3, s: int, c: int) -> Vec3 {
    rot_fwd(v, -s, c)
}

/// The box holding the eight corners of `b` turned about the y axis, if it is
/// within the coordinate range.
pub open spec fn rotated_box(ob: Option<AABB>, s: int, c: int) -> Option<AABB> {
    match ob {
        None => None,
        Some(b) => {
            let (x0, x1, z0, z1) = (b.min.x as int, b.max.x as int, b.min.z as int, b.max.z as int);
            let lx = min4(turn_x(x0, z0, s, c), turn_x(x0, z1, s, c), turn_x(x1, z0, s, c), turn_x(x1, z1, s, c));
            let hx = max4(turn_x(x0, z0, s, c), turn_x(x0, z1, s, c), turn_x(x1, z0, s, c), turn_x(x1, z1, s, c));
            let lz = min4(turn_z(x0, z0, s, c), turn_z(x0, z1, s, c), turn_z(x1, z0, s, c), turn_z(x1, z1, s, c));
            let hz = max4(turn_z(x0, z0, s, c), turn_z(x0, z1, s, c), turn_z(x1, z0, s, c), turn_z(x1, z1, s, c));
            if in_lim(lx) && in_lim(hx) && in_lim(lz) && in_lim(hz) {
                Some(AABB {
                    min: Vec3 { x: lx as i64, y: b.min.y, z: lz as i64 },
                    max: Vec3 { x: hx as i64, y: b.max.y, z: hz as i64 },
                })
            } else {
                None
            }
        },
    }
}

/// The fixed-point product of a number at most one in magnitude with `x`.
fn mul_unit(c: i64, x: i64) -> (r: i64)
    requires
        -ONE <= c <= ONE,
        within(Vec3 { x, y: 0, z: 0 }, 4 * LIM * LIM),
    ensures
        r == fx_mul(c as int, x as int),
        -4 * LIM * LIM <= r <= 4 * LIM * LIM,
{
    proof {
        lemma_unit_mul_le(c as int, x as int);
        assert(-(4 * LIM * LIM) * ONE <= c * x <= (4 * LIM * LIM) * ONE) by (nonlinear_arith)
            requires
                -ONE <= c <= ONE,
                -4 * LIM * LIM <= x <= 4 * LIM * LIM,
                ONE > 0,
        ;
    }
    let p = c as i128 * x as i128;
    let q = crate::fixed::div_trunc(p, ONE as i128);
    q as i64
}

/// `v` turned about the y axis by the angle with sine `s` and cosine `c`.
fn turn(v: Vec3, s: i64, c: i64) -> (r: Vec3)
    requires
        -ONE <= s <= ONE,
        -ONE <= c <= ONE,
        within(v, 2 * LIM * LIM),
    ensures
        r == rot_fwd(v, s as int, c as int),
        within(r, 4 * LIM * LIM),
        -4 * LIM * LIM <= turn_x(v.x as int, v.z as int, s as int, c as int) <= 4 * LIM * LIM,
        -4 * LIM * LIM <= turn_z(v.x as int, v.z as int, s as int, c as int) <= 4 * LIM * LIM,
{
    let x = mul_unit(c, v.x) + mul_unit(s, v.z);
    let z = mul_unit(c, v.z) - mul_unit(s, v.x);
    proof {
        assert(-2 * LIM * LIM <= fx_mul(c as int, v.x as int) <= 2 * LIM * LIM) by {
            lemma_unit_mul_le(c as int, v.x as int);
        }
        lemma_unit_mul_le(s as int, v.z as int);
        lemma_unit_mul_le(c as int, v.z as int);
        lemma_unit_mul_le(s as int, v.x as int);
    }
    Vec3 { x, y: v.y, z }
}

/// Multiplying by a number at most one in magnitude does not grow `x`.
proof fn lemma_unit_mul_le(c: int, x: int)
    requires
        -ONE <= c <= ONE,
    ensures
        x >= 0 ==> -x <= fx_mul(c, x) <= x,
        x < 0 ==> x <= fx_mul(c, x) <= -x,
{
    let ax = if x >= 0 { x } else { -x };
    assert(-(ax * ONE) <= c * x <= ax * ONE) by (nonlinear_arith)
        requires
            -ONE <= c <= ONE,
            ax == x || ax == -x,
            ax >= 0,
    ;
    let p = c * x;
    crate::fixed::lemma_tdiv_bounds(p, ONE as int);
    let q = tdiv(p, ONE as int);
    assert(-ax <= q <= ax) by (nonlinear_arith)
        requires
            p >= 0 ==> q >= 0 && q * ONE <= p,
            p < 0 ==> q <= 0 && -q * ONE <= -p,
            -(ax * ONE) <= p <= ax * ONE,
            ONE > 0,
    ;
}

fn min4_exec(a: i64, b: i64, c: i64, d: i64) -> (r: i64)
    ensures
        r == min4(a as int, b as int, c as int, d as int),
{
    let ab = if a <= b { a } else { b };
    let cd = if c <= d { c } else { d };
    if ab <= cd { ab } else { cd }
}

fn max4_exec(a: i64, b: i64, c: i64, d: i64) -> (r: i64)
    ensures
        r == max4(a as int, b as int, c as int, d as int),
{
    let ab = if a >= b { a } else { b };
    let cd = if c >= d { c } else { d };
    if ab >= cd { ab } else { cd }
}

/// The box of the eight corners of `b` turned about the y axis.
fn rotate_box(b: AABB, s: i64, c: i64) -> (r: Option<AABB>)
    requires
        b.bounded(),
        -ONE <= s <= ONE,
        -ONE <= c <= ONE,
    ensures
        r == rotated_box(Some(b), s as int, c as int),
{
    let (x0, x1, z0, z1) = (b.min.x, b.max.x, b.min.z, b.max.z);
    let a = turn(Vec3::new(x0, 0, z0), s, c);
    let e = turn(Vec3::new(x0, 0, z1), s, c);
    let f = turn(Vec3::new(x1, 0, z0), s, c);
    let g = turn(Vec3::new(x1, 0, z1), s, c);
    let lx = min4_exec(a.x, e.x, f.x, g.x);
    let hx = max4_exec(a.x, e.x, f.x, g.x);
    let lz = min4_exec(a.z, e.z, f.z, g.z);
    let hz = max4_exec(a.z, e.z, f.z, g.z);
    if lx < -LIM || lx > LIM || hx < -LIM || hx > LIM || lz < -LIM || lz > LIM || hz < -LIM || hz > LIM {
        return None;
    }
    Some(AABB::new(Vec3::new(lx, b.min.y, lz), Vec3::new(hx, b.max.y, hz)))
}

/// An object turned about the y axis by the angle whose sine and cosine, in
/// fixed point, are `sin_theta` and `cos_theta`. Its box is computed once.
#[derive(Debug)]
pub struct RotateY {
    pub inner: Box<Hittable>,
    pub sin_theta: i64,
    pub cos_theta: i64,
    pub bbox: Option<AABB>,
}

impl RotateY {
    pub fn new(inner: Hittable, sin_theta: i64, cos_theta: i64) -> (rt: RotateY)
        requires
            inner.wf(),
            -ONE <= sin_theta <= ONE,
            -ONE <= cos_theta <= ONE,
        ensures
            *rt.inner == inner,
            rt.sin_theta == sin_theta && rt.cos_theta == cos_theta,
            rt.bbox == rotated_box(inner.spec_bbox(), sin_theta as int, cos_theta as int),
    {
        let bbox = match inner.bounding_box() {
            Some(b) => rotate_box(b, sin_theta, cos_theta),
            None => None,
        };
        RotateY { inner: Box::new(inner), sin_theta, cos_theta, bbox }
    }
}

/// The record of `rec` turned forward: its point and normal are turned, the
/// normal is kept facing against `r` (it can only flip where rounding leaves
/// it tangent to the ray), and the side stays as the inner object reported it.
pub open spec fn rotated_record(r: Ray, s: int, c: int, rec: HitRecord) -> HitRecord {
    HitRecord {
        p: rot_fwd(rec.p, s, c),
        normal: face_normal(r.dir, rot_fwd(rec.normal, s, c)).1,
        ..rec
    }
}

} // verus!

verus! {

/// The shadow-ray offset: `0.001` rounded up to fixed point.
pub const T_MIN: i64 = 4;

/// `x` clamped into `[0, LIM]`.
pub open spec fn clamp_density(x: int) -> int {
    if x < 0 {
        0
    } else if x > LIM {
        LIM as int
    } else {
        x
    }
}

impl AARect {
    /// The density, in fixed point, of the direction `v` from `o` under
    /// uniform sampling of the rectangle's area: `distance^2 / (|cos| area)`,
    /// computed as `t^2 |v|^3 / (|v . n| area)` at the hit, clamped into
    /// `[0, LIM]`; zero where the ray misses or the rectangle has no area.
    pub open spec fn spec_pdf_value(self, o: Point3, v: Vec3) -> int {
        match self.spec_hit(Ray { orig: o, dir: v, tm: 0 }, T_MIN as int, LIM as int) {
            None => 0,
            Some(rec) => {
                let area = (self.a1 - self.a0) * (self.b1 - self.b0);
                let vn = dot_raw(v, rec.normal);
                let c = if vn >= 0 { vn } else { -vn };
                let num = rec.t * rec.t * dot_raw(v, v) * isqrt(dot_raw(v, v));
                if area <= 0 || c == 0 {
                    0
                } else {
                    clamp_density(tdiv(num, c * area))
                }
            },
        }
    }

    pub fn pdf_value(&self, o: Point3, v: Vec3) -> (r: i64)
        requires
            self.wf(),
            o.bounded(),
            v.bounded(),
        ensures
            r == self.spec_pdf_value(o, v),
    {
        let ray = Ray::new(o, v, 0);
        let rec = match self.hit(&ray, T_MIN, LIM) {
            Some(rec) => rec,
            None => {
                return 0;
            },
        };
        let wa = self.a1 as i128 - self.a0 as i128;
        let wb = self.b1 as i128 - self.b0 as i128;
        proof {
            assert(-4 * LIM * LIM <= wa * wb <= 4 * LIM * LIM) by (nonlinear_arith)
                requires
                    -2 * LIM <= wa <= 2 * LIM,
                    -2 * LIM <= wb <= 2 * LIM,
            ;
        }
        let area = wa * wb;
        let n = rec.normal;
        assert(n == self.axis.unit_normal() || n == vneg(self.axis.unit_normal()));
        let vn = crate::vec3::dot_wide(v, n);
        let c = if vn >= 0 { vn } else { -vn };
        if area <= 0 || c == 0 {
            return 0;
        }
        let vv = crate::vec3::dot_wide(v, v);
        proof {
            crate::vec3::lemma_sq_nonneg(v);
            crate::vec3::lemma_prod_bound(v.x as int, v.x as int);
            crate::vec3::lemma_prod_bound(v.y as int, v.y as int);
            crate::vec3::lemma_prod_bound(v.z as int, v.z as int);
        }
        let len = crate::fixed::isqrt_i128(vv);
        let t = rec.t as i128;
        proof {
            let ti = t as int;
            let vvi = vv as int;
            let li = len as int;
            assert(0 <= li <= 2 * LIM) by (nonlinear_arith)
                requires
                    0 <= li,
                    li * li <= vvi,
                    vvi <= 3 * LIM * LIM,
                    LIM > 0,
            ;
            assert(0 <= ti * ti <= LIM * LIM) by (nonlinear_arith)
                requires
                    -LIM <= ti <= LIM,
            ;
            assert(0 <= ti * ti * vvi <= 12 * LIM * LIM * LIM * LIM) by (nonlinear_arith)
                requires
                    0 <= ti * ti <= LIM * LIM,
                    0 <= vvi <= 12 * LIM * LIM,
            ;
            assert(0 <= ti * ti * vvi * li <= 24 * LIM * LIM * LIM * LIM * LIM) by (nonlinear_arith)
                requires
                    0 <= ti * ti * vvi <= 12 * LIM * LIM * LIM * LIM,
                    0 <= li <= 2 * LIM,
            ;
            assert(c * area <= 12 * LIM * LIM * 4 * LIM * LIM) by (nonlinear_arith)
                requires
                    0 < c <= 12 * LIM * LIM,
                    0 < area <= 4 * LIM * LIM,
            ;
            assert(c * area > 0) by (nonlinear_arith)
                requires
                    0 < c,
                    0 < area,
            ;
        }
        let num = t * t * vv * len;
        let q = crate::fixed::div_trunc(num, c * area);
        if q < 0 {
            0
        } else if q > LIM as i128 {
            LIM
        } else {
            q as i64
        }
    }

    /// The direction from `o` to a point drawn uniformly from the rectangle.
    pub fn random(&self, rng: &mut StdRng, o: Point3) -> (r: Vec3)
        requires
            self.wf(),
            self.a0 < self.a1,
            self.b0 < self.b1,
            o.bounded(),
        ensures
            exists|a: int, b: int|
                self.a0 <= a < self.a1 && self.b0 <= b < self.b1 && r == vsub(
                    on_plane(self.axis, self.k as int, a, b),
                    o,
                ),
    {
        let da = random_below(rng, (self.a1 - self.a0) as u64) as i64;
        let db = random_below(rng, (self.b1 - self.b0) as u64) as i64;
        let point = on_plane_exec(self.axis, self.k, self.a0 + da, self.b0 + db);
        let r = point.sub(o);
        assert(r == vsub(on_plane(self.axis, self.k as int, (self.a0 + da) as int, (self.b0 + db) as int), o));
        r
    }
}

} // verus!

verus! {

impl Sphere {
    /// The density, in fixed point, of the direction `v` from `o` under
    /// uniform sampling of the cone that the sphere subtends:
    /// `1 / (2 pi (1 - cos theta_max))` with `cos theta_max = sqrt(1 - r^2 / |c - o|^2)`,
    /// clamped into `[0, LIM]`; zero where the ray misses. From inside the
    /// sphere the cone is taken as the whole hemisphere.
    pub open spec fn spec_pdf_value(self, o: Point3, v: Vec3) -> int {
        match self.spec_hit(Ray { orig: o, dir: v, tm: 0 }, T_MIN as int, LIM as int) {
            None => 0,
            Some(_) => {
                let (dx, dy, dz) = (self.center.x - o.x, self.center.y - o.y, self.center.z - o.z);
                let d2 = dx * dx + dy * dy + dz * dz;
                let r2 = self.radius * self.radius;
                let q = if d2 == 0 || r2 * ONE >= ONE * d2 {
                    ONE as int
                } else {
                    tdiv(r2 * ONE, d2)
                };
                let cos_max = isqrt((ONE - q) * ONE);
                let solid = tdiv(2 * PI * (ONE - cos_max), ONE as int);
                if solid <= 0 {
                    LIM as int
                } else {
                    clamp_density(tdiv(ONE * ONE, solid))
                }
            },
        }
    }

    pub fn pdf_value(&self, o: Point3, v: Vec3) -> (r: i64)
        requires
            self.wf(),
            o.bounded(),
            v.bounded(),
        ensures
            r == self.spec_pdf_value(o, v),
    {
        let ray = Ray::new(o, v, 0);
        if self.hit(&ray, T_MIN, LIM).is_none() {
            return 0;
        }
        let oc = self.center.sub(o);
        let d2 = crate::vec3::dot_wide(oc, oc);
        proof {
            crate::vec3::lemma_sq_nonneg(oc);
            crate::vec3::lemma_prod_bound(self.radius as int, self.radius as int);
        }
        let r2 = self.radius as i128 * self.radius as i128;
        assert(r2 >= 0) by (nonlinear_arith)
            requires
                r2 == self.radius * self.radius,
        ;
        let one = ONE as i128;
        let q: i128 = if d2 == 0 || r2 * one >= one * d2 {
            one
        } else {
            crate::fixed::div_trunc(r2 * one, d2)
        };
        proof {
            if !(d2 == 0 || r2 * one >= one * d2) {
                crate::fixed::lemma_tdiv_bounds((r2 * one) as int, d2 as int);
                assert(0 <= q <= one) by (nonlinear_arith)
                    requires
                        q * d2 <= r2 * one,
                        r2 * one < one * d2,
                        q >= 0,
                        d2 > 0,
                ;
            }
        }
        let cos_max = crate::fixed::isqrt_i128((one - q) * one);
        proof {
            let c = cos_max as int;
            assert(c <= ONE) by (nonlinear_arith)
                requires
                    0 <= c,
                    c * c <= (ONE - q) * ONE,
                    0 <= q,
                    ONE == 4096,
            ;
        }
        assert(0 <= one - cos_max <= one);
        let solid = crate::fixed::div_trunc(2 * 12868 * (one - cos_max), one);
        if solid <= 0 {
            return LIM;
        }
        let d = crate::fixed::div_trunc(one * one, solid);
        if d > LIM as i128 {
            LIM
        } else {
            d as i64
        }
    }
}

} // verus!

verus! {

fn lim_ok(v: i64) -> (b: bool)
    ensures
        b == in_lim(v as int),
{
    -LIM <= v && v <= LIM
}

fn sphere_ok(s: &Sphere) -> (b: bool)
    ensures
        b == s.wf(),
{
    let c = s.center;
    let r = s.radius;
    if !(c.in_range() && lim_ok(r)) {
        return false;
    }
    lim_ok(c.x + r) && lim_ok(c.x - r) && lim_ok(c.y + r) && lim_ok(c.y - r) && lim_ok(c.z + r)
        && lim_ok(c.z - r)
}

fn rect_ok(q: &AARect) -> (b: bool)
    ensures
        b == q.wf(),
{
    lim_ok(q.a0) && lim_ok(q.a1) && lim_ok(q.b0) && lim_ok(q.b1) && -LIM + BOX_PAD <= q.k && q.k
        <= LIM - BOX_PAD
}

/// `outer` contains `inner` on every axis.
fn box_contains(outer: &AABB, inner: &AABB) -> (b: bool)
    ensures
        b == outer.contains(*inner),
{
    outer.min.x <= inner.min.x && outer.min.y <= inner.min.y && outer.min.z <= inner.min.z
        && inner.max.x <= outer.max.x && inner.max.y <= outer.max.y && inner.max.z <= outer.max.z
}

impl Hittable {
    /// Whether the object is well formed: its coordinates are in range and
    /// every stored box is the one its contents call for or holds them.
    pub fn is_wf(&self) -> (b: bool)
        ensures
            b == self.wf(),
        decreases self,
    {
        match self {
            Hittable::Sphere(s) => sphere_ok(s),
            Hittable::MovingSphere(m) => {
                sphere_ok(&Sphere::new(m.center0, m.radius, m.mat)) && sphere_ok(
                    &Sphere::new(m.center1, m.radius, m.mat),
                ) && lim_ok(m.time0) && lim_ok(m.time1)
            },
            Hittable::Rect(q) => rect_ok(q),
            Hittable::Cuboid(c) => {
                if !(c.box_min.in_range() && c.box_max.in_range()) {
                    return false;
                }
                let mut i: usize = 0;
                while i < 6
                    invariant
                        i <= 6,
                        *self == Hittable::Cuboid(*c),
                        forall|k: int| 0 <= k < i ==> #[trigger] c.sides@[k].wf(),
                    decreases 6 - i,
                {
                    if !rect_ok(&c.sides[i]) {
                        assert(!c.sides@[i as int].wf());
                        return false;
                    }
                    i = i + 1;
                }
                true
            },
            Hittable::Translate(tr) => tr.offset.in_range() && tr.inner.is_wf(),
            Hittable::RotateY(rt) => {
                let (s, c) = (rt.sin_theta, rt.cos_theta);
                if !(-ONE <= s && s <= ONE && -ONE <= c && c <= ONE && rt.inner.is_wf()) {
                    return false;
                }
                let expected = match rt.inner.bounding_box() {
                    Some(b) => rotate_box(b, s, c),
                    None => None,
                };
                match (expected, rt.bbox) {
                    (Some(a), Some(b)) => a == b,
                    (None, None) => true,
                    _ => false,
                }
            },
            Hittable::FlipFace(f) => f.inner.is_wf(),
            Hittable::Bvh(n) => {
                if !(n.bbox.min.in_range() && n.bbox.max.in_range() && n.left.is_wf()
                    && n.right.is_wf()) {
                    return false;
                }
                match (n.left.bounding_box(), n.right.bounding_box()) {
                    (Some(bl), Some(br)) => box_contains(&n.bbox, &bl) && box_contains(&n.bbox, &br),
                    _ => false,
                }
            },
        }
    }
}

} // verus!
