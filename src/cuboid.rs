use vstd::prelude::*;
use crate::aabb::AABB;
use crate::fixed::in_lim;
use crate::hittable::{good_record, AARect, HitRecord, Plane};
use crate::ray::Ray;
use crate::vec3::Point3;

verus! {

/// An axis-aligned box made of six rectangles, two per plane.
#[derive(Clone, Copy, Debug)]
pub struct Cuboid {
    pub box_min: Point3,
    pub box_max: Point3,
    pub sides: [AARect; 6],
}

/// The hit after trying the first `n` sides in order, each over
/// `(t_min, closest so far)`.
pub open spec fn sides_hit(sides: Seq<AARect>, r: Ray, t_min: int, t_max: int, n: int) -> Option<
    HitRecord,
>
    decreases n,
{
    if n <= 0 {
        None
    } else {
        let prev = sides_hit(sides, r, t_min, t_max, n - 1);
        let closest = match prev {
            Some(rec) => rec.t as int,
            None => t_max,
        };
        match sides[n - 1].spec_hit(r, t_min, closest) {
            Some(rec) => Some(rec),
            None => prev,
        }
    }
}

impl Cuboid {
    pub open spec fn wf(self) -> bool {
        &&& self.box_min.bounded()
        &&& self.box_max.bounded()
        &&& forall|i: int| 0 <= i < 6 ==> #[trigger] self.sides@[i].wf()
    }

    pub open spec fn spec_hit(self, r: Ray, t_min: int, t_max: int) -> Option<HitRecord> {
        sides_hit(self.sides@, r, t_min, t_max, 6)
    }

    /// The box with opposite corners `p0` and `p1`: rectangles at `p1.z` and
    /// `p0.z` in the xy plane, at `p1.y` and `p0.y` in the xz plane, and at
    /// `p1.x` and `p0.x` in the yz plane.
    pub fn new(p0: Point3, p1: Point3, mat: usize) -> (c: Cuboid)
        ensures
            c.box_min == p0 && c.box_max == p1,
            c.sides@[0] == (AARect { a0: p0.x, a1: p1.x, b0: p0.y, b1: p1.y, k: p1.z, axis: Plane::Xy, mat }),
            c.sides@[1] == (AARect { a0: p0.x, a1: p1.x, b0: p0.y, b1: p1.y, k: p0.z, axis: Plane::Xy, mat }),
            c.sides@[2] == (AARect { a0: p0.x, a1: p1.x, b0: p0.z, b1: p1.z, k: p1.y, axis: Plane::Xz, mat }),
            c.sides@[3] == (AARect { a0: p0.x, a1: p1.x, b0: p0.z, b1: p1.z, k: p0.y, axis: Plane::Xz, mat }),
            c.sides@[4] == (AARect { a0: p0.y, a1: p1.y, b0: p0.z, b1: p1.z, k: p1.x, axis: Plane::Yz, mat }),
            c.sides@[5] == (AARect { a0: p0.y, a1: p1.y, b0: p0.z, b1: p1.z, k: p0.x, axis: Plane::Yz, mat }),
    {
        let sides = [
            AARect::from_corner(p0, p1, Plane::Xy, p1.z, mat),
            AARect::from_corner(p0, p1, Plane::Xy, p0.z, mat),
            AARect::from_corner(p0, p1, Plane::Xz, p1.y, mat),
            AARect::from_corner(p0, p1, Plane::Xz, p0.y, mat),
            AARect::from_corner(p0, p1, Plane::Yz, p1.x, mat),
            AARect::from_corner(p0, p1, Plane::Yz, p0.x, mat),
        ];
        Cuboid { box_min: p0, box_max: p1, sides }
    }

    /// The nearest hit over the six sides.
    pub fn hit(&self, r: &Ray, t_min: i64, t_max: i64) -> (res: Option<HitRecord>)
        requires
            self.wf(),
            r.bounded(),
            in_lim(t_min as int),
            in_lim(t_max as int),
        ensures
            res == self.spec_hit(*r, t_min as int, t_max as int),
            res matches Some(rec) ==> good_record(*r, t_min as int, t_max as int, rec),
    {
        let mut final_rec: Option<HitRecord> = None;
        let mut closest_so_far: i64 = t_max;
        let mut i: usize = 0;
        while i < 6
            invariant
                self.wf(),
                r.bounded(),
                in_lim(t_min as int),
                in_lim(t_max as int),
                i <= 6,
                final_rec == sides_hit(self.sides@, *r, t_min as int, t_max as int, i as int),
                closest_so_far == (match final_rec {
                    Some(rec) => rec.t,
                    None => t_max,
                }),
                final_rec matches Some(rec) ==> good_record(*r, t_min as int, t_max as int, rec),
            decreases 6 - i,
        {
            let ghost gi = i as int;
            assert(self.sides@[gi].wf());
            let side = self.sides[i];
            match side.hit(r, t_min, closest_so_far) {
                Some(rec) => {
                    closest_so_far = rec.t;
                    final_rec = Some(rec);
                },
                None => {},
            }
            i = i + 1;
        }
        final_rec
    }

    pub fn bounding_box(&self) -> (b: AABB)
        ensures
            b == (AABB { min: self.box_min, max: self.box_max }),
    {
        AABB::new(self.box_min, self.box_max)
    }
}

} // verus!
