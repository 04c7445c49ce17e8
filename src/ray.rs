use vstd::prelude::*;
use crate::fixed::{fx_mul, in_lim};
use crate::vec3::{Point3, Vec3};

verus! {

/// A half-line `origin + t * direction`, with the time at which it is cast.
#[derive(Clone, Copy, Debug, PartialEq, Eq, Structural)]
pub struct Ray {
    pub orig: Point3,
    pub dir: Vec3,
    pub tm: i64,
}

impl Ray {
    /// Origin and direction lie within the coordinate range.
    pub open spec fn bounded(self) -> bool {
        self.orig.bounded() && self.dir.bounded()
    }

    pub fn new(orig: Point3, dir: Vec3, tm: i64) -> (r: Ray)
        ensures
            r.orig == orig && r.dir == dir && r.tm == tm,
    {
        Ray { orig, dir, tm }
    }

    pub fn origin(&self) -> (r: Point3)
        ensures
            r == self.orig,
    {
        self.orig
    }

    pub fn direction(&self) -> (r: Vec3)
        ensures
            r == self.dir,
    {
        self.dir
    }

    pub fn time(&self) -> (r: i64)
        ensures
            r == self.tm,
    {
        self.tm
    }

    /// The point at parameter `t`: `origin + t * direction`.
    pub fn at(&self, t: i64) -> (r: Point3)
        requires
            self.bounded(),
            in_lim(t as int),
        ensures
            r.x == self.orig.x + fx_mul(self.dir.x as int, t as int),
            r.y == self.orig.y + fx_mul(self.dir.y as int, t as int),
            r.z == self.orig.z + fx_mul(self.dir.z as int, t as int),
    {
        let s = self.dir.scale(t);
        proof {
            crate::vec3::lemma_fx_mul_bound(self.dir.x as int, t as int);
            crate::vec3::lemma_fx_mul_bound(self.dir.y as int, t as int);
            crate::vec3::lemma_fx_mul_bound(self.dir.z as int, t as int);
        }
        self.orig.add(s)
    }
}

} // verus!
