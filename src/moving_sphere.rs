use vstd::prelude::*;
use crate::aabb::{surrounding_box, union_box, AABB};
use crate::fixed::{fx_mul, in_lim, tdiv, trunc_div, LIM, ONE};
use crate::hittable::{good_record, unit_length, HitRecord, Sphere};
use crate::ray::Ray;
use crate::vec3::{Point3, Vec3};

verus! {

/// A sphere whose center moves linearly from `center0` at `time0` to
/// `center1` at `time1`.
#[derive(Clone, Copy, Debug, PartialEq, Eq, Structural)]
pub struct MovingSphere {
    pub center0: Point3,
    pub center1: Point3,
    pub time0: i64,
    pub time1: i64,
    pub radius: i64,
    pub mat: usize,
}

impl MovingSphere {
    /// The sphere is well formed at both ends of its motion.
    pub open spec fn wf(self) -> bool {
        &&& self.sphere_at(self.center0).wf()
        &&& self.sphere_at(self.center1).wf()
        &&& in_lim(self.time0 as int) && in_lim(self.time1 as int)
    }

    pub open spec fn sphere_at(self, c: Point3) -> Sphere {
        Sphere { center: c, radius: self.radius, mat: self.mat }
    }

    /// The fraction of the motion done at `time`.
    pub open spec fn fraction(self, time: int) -> int {
        trunc_div((time - self.time0) * ONE, self.time1 - self.time0)
    }

    /// The center at `time`: `center0 + f * (center1 - center0)` where `f` is
    /// the fraction of the motion done; none where the two times coincide or
    /// the center leaves the coordinate range.
    pub open spec fn spec_center(self, time: int) -> Option<Point3> {
        if self.time1 == self.time0 || !in_lim(self.fraction(time)) {
            None
        } else {
            let f = self.fraction(time);
            let cx = self.center0.x + fx_mul(f, self.center1.x - self.center0.x);
            let cy = self.center0.y + fx_mul(f, self.center1.y - self.center0.y);
            let cz = self.center0.z + fx_mul(f, self.center1.z - self.center0.z);
            if in_lim(cx) && in_lim(cy) && in_lim(cz) {
                Some(Vec3 { x: cx as i64, y: cy as i64, z: cz as i64 })
            } else {
                None
            }
        }
    }

    /// The hit of the sphere where it stands at the ray's time.
    pub open spec fn spec_hit(self, r: Ray, t_min: int, t_max: int) -> Option<HitRecord> {
        match self.spec_center(r.tm as int) {
            Some(c) => if self.sphere_at(c).wf() {
                self.sphere_at(c).spec_hit(r, t_min, t_max)
            } else {
                None
            },
            None => None,
        }
    }

    /// The box holding the sphere at both ends of its motion.
    pub open spec fn spec_box(self) -> AABB {
        union_box(self.sphere_at(self.center0).spec_box(), self.sphere_at(self.center1).spec_box())
    }

    pub fn new(
        center0: Point3,
        center1: Point3,
        time0: i64,
        time1: i64,
        radius: i64,
        mat: usize,
    ) -> (s: MovingSphere)
        ensures
            s == (MovingSphere { center0, center1, time0, time1, radius, mat }),
    {
        MovingSphere { center0, center1, time0, time1, radius, mat }
    }

    pub fn center(&self, time: i64) -> (c: Option<Point3>)
        requires
            self.wf(),
        ensures
            c == self.spec_center(time as int),
    {
        if self.time1 == self.time0 {
            return None;
        }
        let f = crate::fixed::div_trunc_signed(
            (time as i128 - self.time0 as i128) * ONE as i128,
            self.time1 as i128 - self.time0 as i128,
        );
        if f < -(LIM as i128) || f > LIM as i128 {
            return None;
        }
        let f = f as i64;
        let dx = self.center1.x - self.center0.x;
        let dy = self.center1.y - self.center0.y;
        let dz = self.center1.z - self.center0.z;
        proof {
            crate::vec3::lemma_prod_bound2(f as int, dx as int);
            crate::vec3::lemma_prod_bound2(f as int, dy as int);
            crate::vec3::lemma_prod_bound2(f as int, dz as int);
        }
        let cx = self.center0.x as i128 + crate::fixed::div_trunc(f as i128 * dx as i128, ONE as i128);
        let cy = self.center0.y as i128 + crate::fixed::div_trunc(f as i128 * dy as i128, ONE as i128);
        let cz = self.center0.z as i128 + crate::fixed::div_trunc(f as i128 * dz as i128, ONE as i128);
        if cx < -(LIM as i128) || cx > LIM as i128 || cy < -(LIM as i128) || cy > LIM as i128
            || cz < -(LIM as i128) || cz > LIM as i128 {
            return None;
        }
        Some(Vec3::new(cx as i64, cy as i64, cz as i64))
    }

    pub fn hit(&self, r: &Ray, t_min: i64, t_max: i64) -> (res: Option<HitRecord>)
        requires
            self.wf(),
            r.bounded(),
            in_lim(t_min as int),
            in_lim(t_max as int),
        ensures
            res == self.spec_hit(*r, t_min as int, t_max as int),
            res matches Some(rec) ==> good_record(*r, t_min as int, t_max as int, rec)
                && unit_length(rec.normal),
    {
        match self.center(r.tm) {
            Some(c) => {
                let s = Sphere::new(c, self.radius, self.mat);
                let a = if self.radius >= 0 {
                    self.radius
                } else {
                    -self.radius
                };
                if c.x - a < -LIM || c.x + a > LIM || c.y - a < -LIM || c.y + a > LIM || c.z - a
                    < -LIM || c.z + a > LIM {
                    return None;
                }
                s.hit(r, t_min, t_max)
            },
            None => None,
        }
    }

    pub fn bounding_box(&self) -> (b: AABB)
        requires
            self.wf(),
        ensures
            b == self.spec_box(),
            b.bounded(),
    {
        let b0 = Sphere::new(self.center0, self.radius, self.mat).bounding_box();
        let b1 = Sphere::new(self.center1, self.radius, self.mat).bounding_box();
        surrounding_box(b0, b1)
    }
}

} // verus!
