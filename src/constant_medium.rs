use vstd::prelude::*;
use crate::aabb::AABB;
use crate::fixed::{in_lim, isqrt, tdiv, LIM, ONE};
use crate::hittable::{good_record, point_at, HitRecord, Hittable};
use crate::ray::Ray;
use crate::vec3::{dot_raw, Vec3};

verus! {

/// How far past the entry point the exit is searched for.
pub const EXIT_GAP: i64 = 1;

/// A volume of constant density bounded by a closed object. A ray inside it
/// travels a random free-flight distance before it scatters.
#[derive(Debug)]
pub struct ConstantMedium {
    pub boundary: Box<Hittable>,
    pub phase_function: usize,
}

/// The normal reported for a scattering event in a medium: a unit vector along
/// the x axis, turned against the ray.
pub open spec fn medium_normal(dir: Vec3) -> Vec3 {
    if dir.x > 0 {
        Vec3 { x: -4096i64, y: 0, z: 0 }
    } else {
        Vec3 { x: ONE, y: 0, z: 0 }
    }
}

impl ConstantMedium {
    pub open spec fn wf(self) -> bool {
        self.boundary.wf()
    }

    /// Enters the boundary, leaves it, clips the stretch between to
    /// `(t_min, t_max)` and to parameters ahead of the origin, and scatters
    /// after `distance` (a length in fixed point) if that is shorter than the
    /// stretch.
    pub open spec fn spec_hit(self, r: Ray, t_min: int, t_max: int, distance: int) -> Option<HitRecord> {
        match self.boundary.spec_hit(r, -LIM as int, LIM as int) {
            None => None,
            Some(rec1) => match self.boundary.spec_hit(r, rec1.t + EXIT_GAP, LIM as int) {
                None => None,
                Some(rec2) => {
                    let t1 = if rec1.t >= t_min { rec1.t as int } else { t_min };
                    let t2 = if rec2.t <= t_max { rec2.t as int } else { t_max };
                    if t1 >= t2 {
                        None
                    } else {
                        let t1 = if t1 >= 0 { t1 } else { 0 };
                        let len = isqrt(dot_raw(r.dir, r.dir));
                        let inside = tdiv((t2 - t1) * len, ONE as int);
                        if t1 >= t2 || len == 0 || distance > inside {
                            None
                        } else {
                            let t = t1 + tdiv(distance * ONE, len);
                            if !(t_min < t < t_max) {
                                None
                            } else {
                                Some(HitRecord {
                                    p: point_at(r, t),
                                    normal: medium_normal(r.dir),
                                    t: t as i64,
                                    u: 0,
                                    v: 0,
                                    front_face: true,
                                    mat: self.phase_function,
                                })
                            }
                        }
                    }
                }
            },
        }
    }

    pub fn new(boundary: Hittable, phase_function: usize) -> (m: ConstantMedium)
        ensures
            *m.boundary == boundary && m.phase_function == phase_function,
    {
        ConstantMedium { boundary: Box::new(boundary), phase_function }
    }

    /// The scattering event of `r` in the medium, where `distance` is the
    /// free-flight distance drawn for this ray (`-ln(U) / density`).
    pub fn hit(&self, r: &Ray, t_min: i64, t_max: i64, distance: i64) -> (res: Option<HitRecord>)
        requires
            self.wf(),
            r.bounded(),
            in_lim(t_min as int),
            in_lim(t_max as int),
            distance >= 0,
        ensures
            res == self.spec_hit(*r, t_min as int, t_max as int, distance as int),
            res matches Some(rec) ==> good_record(*r, t_min as int, t_max as int, rec),
    {
        let rec1 = match self.boundary.hit(r, -LIM, LIM) {
            Some(rec) => rec,
            None => {
                return None;
            },
        };
        let rec2 = match self.boundary.hit(r, rec1.t + EXIT_GAP, LIM) {
            Some(rec) => rec,
            None => {
                return None;
            },
        };
        let t1: i64 = if rec1.t >= t_min { rec1.t } else { t_min };
        let t2: i64 = if rec2.t <= t_max { rec2.t } else { t_max };
        if t1 >= t2 {
            return None;
        }
        let t1: i64 = if t1 >= 0 { t1 } else { 0 };
        let len = r.dir.length();
        proof {
            crate::vec3::lemma_sq_nonneg(r.dir);
            crate::vec3::lemma_prod_bound(r.dir.x as int, r.dir.x as int);
            crate::vec3::lemma_prod_bound(r.dir.y as int, r.dir.y as int);
            crate::vec3::lemma_prod_bound(r.dir.z as int, r.dir.z as int);
            assert(len <= 2 * LIM) by (nonlinear_arith)
                requires
                    len >= 0,
                    len * len <= dot_raw(r.dir, r.dir),
                    dot_raw(r.dir, r.dir) <= 3 * LIM * LIM,
                    LIM > 0,
            ;
        }
        if len == 0 {
            return None;
        }
        if t1 >= t2 {
            return None;
        }
        let span = t2 as i128 - t1 as i128;
        proof {
            assert(-4 * LIM * LIM <= span * len <= 4 * LIM * LIM) by (nonlinear_arith)
                requires
                    -2 * LIM <= span <= 2 * LIM,
                    0 < len <= 2 * LIM,
            ;
        }
        let inside = crate::fixed::div_trunc(span * len as i128, ONE as i128);
        if distance as i128 > inside {
            return None;
        }
        proof {
            crate::fixed::lemma_tdiv_bounds(span * len, ONE as int);
            assert(0 < span * len) by (nonlinear_arith)
                requires
                    span > 0,
                    len > 0,
            ;
            assert(distance * ONE <= 4 * LIM * LIM) by (nonlinear_arith)
                requires
                    0 <= distance <= inside,
                    inside * ONE <= span * len,
                    span * len <= 4 * LIM * LIM,
                    ONE > 0,
            ;
        }
        let step = crate::fixed::div_trunc(distance as i128 * ONE as i128, len as i128);
        proof {
            crate::fixed::lemma_tdiv_bounds(distance * ONE, len as int);
            assert(step <= distance * ONE) by (nonlinear_arith)
                requires
                    step * len <= distance * ONE,
                    step >= 0,
                    len >= 1,
            ;
        }
        let t = t1 as i128 + step;
        if t <= t_min as i128 || t >= t_max as i128 {
            return None;
        }
        let t = t as i64;
        let p = r.at(t);
        proof {
            crate::vec3::lemma_fx_mul_bound(r.dir.x as int, t as int);
            crate::vec3::lemma_fx_mul_bound(r.dir.y as int, t as int);
            crate::vec3::lemma_fx_mul_bound(r.dir.z as int, t as int);
        }
        let normal = if r.dir.x > 0 {
            Vec3::new(-ONE, 0, 0)
        } else {
            Vec3::new(ONE, 0, 0)
        };
        proof {
            assert(dot_raw(r.dir, normal) <= 0) by (nonlinear_arith)
                requires
                    r.dir.x > 0 ==> normal.x == -4096 && normal.y == 0 && normal.z == 0,
                    r.dir.x <= 0 ==> normal.x == 4096 && normal.y == 0 && normal.z == 0,
                    dot_raw(r.dir, normal) == r.dir.x * normal.x + r.dir.y * normal.y + r.dir.z
                        * normal.z,
            ;
        }
        Some(HitRecord { p, normal, t, u: 0, v: 0, front_face: true, mat: self.phase_function })
    }

    pub fn bounding_box(&self) -> (res: Option<AABB>)
        requires
            self.wf(),
        ensures
            res == self.boundary.spec_bbox(),
    {
        self.boundary.bounding_box()
    }
}

} // verus!

verus! {

/// The hit after the solid hit `solid` and then the first `n` media, each
/// tried over `(t_min, closest so far)` with its drawn free-flight distance.
pub open spec fn media_hit(
    solid: Option<HitRecord>,
    media: Seq<ConstantMedium>,
    distances: Seq<i64>,
    r: Ray,
    t_min: int,
    t_max: int,
    n: int,
) -> Option<HitRecord>
    decreases n,
{
    if n <= 0 {
        solid
    } else {
        let prev = media_hit(solid, media, distances, r, t_min, t_max, n - 1);
        let closest = match prev {
            Some(rec) => rec.t as int,
            None => t_max,
        };
        match media[n - 1].spec_hit(r, t_min, closest, distances[n - 1] as int) {
            Some(rec) => Some(rec),
            None => prev,
        }
    }
}

/// The nearest hit of `r` over the solid objects and the fog volumes, where
/// `distances[k]` is the free-flight distance drawn for `media[k]`.
pub fn hit_with_media(
    solid: &Hittable,
    media: &Vec<ConstantMedium>,
    distances: &Vec<i64>,
    r: &Ray,
    t_min: i64,
    t_max: i64,
) -> (res: Option<HitRecord>)
    requires
        solid.wf(),
        forall|k: int| 0 <= k < media@.len() ==> #[trigger] media@[k].wf(),
        distances@.len() == media@.len(),
        forall|k: int| 0 <= k < distances@.len() ==> #[trigger] distances@[k] >= 0,
        r.bounded(),
        in_lim(t_min as int),
        in_lim(t_max as int),
    ensures
        res == media_hit(
            solid.spec_hit(*r, t_min as int, t_max as int),
            media@,
            distances@,
            *r,
            t_min as int,
            t_max as int,
            media@.len() as int,
        ),
        res matches Some(rec) ==> good_record(*r, t_min as int, t_max as int, rec),
{
    let first = solid.hit(r, t_min, t_max);
    let mut best = first;
    let mut i: usize = 0;
    while i < media.len()
        invariant
            forall|k: int| 0 <= k < media@.len() ==> #[trigger] media@[k].wf(),
            distances@.len() == media@.len(),
            forall|k: int| 0 <= k < distances@.len() ==> #[trigger] distances@[k] >= 0,
            r.bounded(),
            in_lim(t_min as int),
            in_lim(t_max as int),
            i <= media@.len(),
            first == solid.spec_hit(*r, t_min as int, t_max as int),
            best == media_hit(first, media@, distances@, *r, t_min as int, t_max as int, i as int),
            best matches Some(rec) ==> good_record(*r, t_min as int, t_max as int, rec),
        decreases media@.len() - i,
    {
        let ghost gi = i as int;
        assert(media@[gi].wf());
        assert(distances@[gi] >= 0);
        let closest = match best {
            Some(rec) => rec.t,
            None => t_max,
        };
        match media[i].hit(r, t_min, closest, distances[i]) {
            Some(rec) => {
                best = Some(rec);
            },
            None => {},
        }
        i = i + 1;
    }
    best
}

} // verus!
