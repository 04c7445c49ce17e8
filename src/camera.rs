use vstd::prelude::*;
use rand::rngs::StdRng;
use crate::fixed::{fx_mul, in_lim, tdiv, LIM, ONE};
use crate::material::vscale;
use crate::onb::{cross_of, unit_of};
use crate::ray::Ray;
use crate::rng::random_below;
use crate::vec3::{vadd, vsub, within, Point3, Vec3};

verus! {

/// How many candidate points the lens sampler draws before it settles on the center.
pub const LENS_TRIES: u32 = 32;

/// A thin-lens camera.
#[derive(Clone, Copy, Debug, PartialEq, Eq, Structural)]
pub struct Camera {
    pub origin: Point3,
    pub lower_left_corner: Point3,
    pub horizontal: Vec3,
    pub vertical: Vec3,
    pub u: Vec3,
    pub v: Vec3,
    pub w: Vec3,
    pub lens_radius: i64,
    pub time0: i64,
    pub time1: i64,
}

/// `v` with every component halved, rounded toward zero.
pub open spec fn halved(v: Vec3) -> Vec3 {
    Vec3 { x: tdiv(v.x as int, 2) as i64, y: tdiv(v.y as int, 2) as i64, z: tdiv(v.z as int, 2) as i64 }
}

/// The camera that `Camera::new` builds, or none where the view direction is
/// zero, `vup` is parallel to it, or a result leaves the coordinate range.
/// `half_height` is `tan(vfov / 2)` in fixed point.
pub open spec fn spec_camera(
    look_from: Point3,
    look_at: Point3,
    vup: Vec3,
    half_height: int,
    aspect_ratio: int,
    aperture: int,
    focus_dist: int,
    time0: i64,
    time1: i64,
) -> Option<Camera> {
    let back = vsub(look_from, look_at);
    if !back.bounded() || back.is_zero() {
        None
    } else {
        let w = unit_of(back);
        let side = cross_of(vup, w);
        if side.is_zero() || !side.bounded() {
            None
        } else {
            let u = unit_of(side);
            let v = cross_of(w, u);
            let vh = 2 * half_height;
            let vw = fx_mul(aspect_ratio, vh);
            let hs = fx_mul(focus_dist, vw);
            let vs = fx_mul(focus_dist, vh);
            if !in_lim(vw) || !in_lim(hs) || !in_lim(vs) {
                None
            } else {
                let horizontal = vscale(u, hs);
                let vertical = vscale(v, vs);
                let llc = vsub(vsub(vsub(look_from, halved(horizontal)), halved(vertical)), vscale(w, focus_dist));
                if !vertical.bounded() || !llc.bounded() {
                    None
                } else {
                    Some(Camera {
                        origin: look_from,
                        lower_left_corner: llc,
                        horizontal,
                        vertical,
                        u,
                        v,
                        w,
                        lens_radius: tdiv(aperture, 2) as i64,
                        time0,
                        time1,
                    })
                }
            }
        }
    }
}

/// A unit-sized vector scaled by a number within the coordinate range stays within it.
proof fn lemma_scale_unit_bound(u: Vec3, s: int)
    requires
        within(u, ONE as int),
        in_lim(s),
    ensures
        vscale(u, s).bounded(),
        -LIM <= fx_mul(u.x as int, s) <= LIM,
        -LIM <= fx_mul(u.y as int, s) <= LIM,
        -LIM <= fx_mul(u.z as int, s) <= LIM,
{
    crate::vec3::lemma_fx_mul_within(u.x as int, s, 1, 4096);
    crate::vec3::lemma_fx_mul_within(u.y as int, s, 1, 4096);
    crate::vec3::lemma_fx_mul_within(u.z as int, s, 1, 4096);
}

fn half_vec(v: Vec3) -> (r: Vec3)
    requires
        v.bounded(),
    ensures
        r == halved(v),
        r.bounded(),
{
    let x = crate::fixed::div_trunc(v.x as i128, 2) as i64;
    let y = crate::fixed::div_trunc(v.y as i128, 2) as i64;
    let z = crate::fixed::div_trunc(v.z as i128, 2) as i64;
    Vec3::new(x, y, z)
}

impl Camera {
    /// Every point and vector lies within the coordinate range, and the basis
    /// vectors are about one unit long.
    pub open spec fn wf(self) -> bool {
        &&& self.origin.bounded()
        &&& self.lower_left_corner.bounded()
        &&& self.horizontal.bounded()
        &&& self.vertical.bounded()
        &&& within(self.u, ONE as int)
        &&& within(self.v, 2 * ONE)
        &&& within(self.w, ONE as int)
        &&& in_lim(self.lens_radius as int)
        &&& in_lim(self.time0 as int) && in_lim(self.time1 as int)
    }

    /// The camera at `look_from` looking at `look_at`, with `vup` pointing up,
    /// a viewport `2 half_height` high (`half_height = tan(vfov / 2)`) and
    /// `aspect_ratio` times as wide at distance `focus_dist`, a lens of
    /// diameter `aperture`, and a shutter open from `time0` to `time1`.
    pub fn new(
        look_from: Point3,
        look_at: Point3,
        vup: Vec3,
        half_height: i64,
        aspect_ratio: i64,
        aperture: i64,
        focus_dist: i64,
        time0: i64,
        time1: i64,
    ) -> (cam: Option<Camera>)
        requires
            look_from.bounded(),
            look_at.bounded(),
            vup.bounded(),
            -LIM / 2 <= half_height <= LIM / 2,
            in_lim(aspect_ratio as int),
            in_lim(aperture as int),
            in_lim(focus_dist as int),
            in_lim(time0 as int),
            in_lim(time1 as int),
        ensures
            cam == spec_camera(
                look_from,
                look_at,
                vup,
                half_height as int,
                aspect_ratio as int,
                aperture as int,
                focus_dist as int,
                time0,
                time1,
            ),
            cam matches Some(c) ==> c.wf(),
    {
        let back = look_from.sub(look_at);
        if !back.in_range() || (back.x == 0 && back.y == 0 && back.z == 0) {
            return None;
        }
        let w = back.unit_vector();
        assert(w == unit_of(back));
        let side = vup.cross(w);
        if side.x == 0 && side.y == 0 && side.z == 0 {
            return None;
        }
        if !side.in_range() {
            return None;
        }
        let u = side.unit_vector();
        assert(u == unit_of(side));
        let v = w.cross(u);
        let vh = 2 * half_height;
        let vw = crate::vec3::mul_fx(aspect_ratio, vh);
        if vw < -LIM || vw > LIM {
            return None;
        }
        let hs = crate::vec3::mul_fx(focus_dist, vw);
        let vs = crate::vec3::mul_fx(focus_dist, vh);
        if hs < -LIM || hs > LIM || vs < -LIM || vs > LIM {
            return None;
        }
        proof {
            crate::onb::lemma_cross_units_bound(w, u, v);
        }
        let horizontal = u.scale(hs);
        let vertical = v.scale(vs);
        proof {
            lemma_scale_unit_bound(u, hs as int);
        }
        if !vertical.in_range() {
            return None;
        }
        let fw = w.scale(focus_dist);
        proof {
            lemma_scale_unit_bound(w, focus_dist as int);
        }
        let a = look_from.sub(half_vec(horizontal));
        let b = a.sub(half_vec(vertical));
        let llc = b.sub(fw);
        if !llc.in_range() {
            return None;
        }
        let lens_radius = crate::fixed::div_trunc(aperture as i128, 2) as i64;
        Some(Camera {
            origin: look_from,
            lower_left_corner: llc,
            horizontal,
            vertical,
            u,
            v,
            w,
            lens_radius,
            time0,
            time1,
        })
    }
}

/// `(x, y)` lies strictly inside the unit disk, in fixed point.
pub open spec fn in_unit_disk(x: int, y: int) -> bool {
    x * x + y * y < ONE * ONE
}

/// The ray through viewport position `(s, t)` from the lens point `(x, y)`
/// of the unit disk, cast at time `tm`.
pub open spec fn spec_ray(c: Camera, x: int, y: int, s: int, t: int, tm: i64) -> Ray {
    let offset = vadd(vscale(c.u, fx_mul(c.lens_radius as int, x)), vscale(c.v, fx_mul(c.lens_radius as int, y)));
    let orig = vadd(c.origin, offset);
    Ray {
        orig,
        dir: vsub(vadd(vadd(c.lower_left_corner, vscale(c.horizontal, s)), vscale(c.vertical, t)), orig),
        tm,
    }
}

/// A point of the unit disk drawn by rejection from the enclosing square; the
/// center where `LENS_TRIES` draws in a row fall outside.
fn random_in_unit_disk(rng: &mut StdRng) -> (d: (i64, i64))
    ensures
        in_unit_disk(d.0 as int, d.1 as int),
        -ONE <= d.0 <= ONE && -ONE <= d.1 <= ONE,
{
    let mut tries: u32 = 0;
    while tries < LENS_TRIES
        decreases LENS_TRIES - tries,
    {
        let x = random_below(rng, 2 * ONE as u64 + 1) as i64 - ONE;
        let y = random_below(rng, 2 * ONE as u64 + 1) as i64 - ONE;
        proof {
            assert(0 <= x * x <= ONE * ONE && 0 <= y * y <= ONE * ONE) by (nonlinear_arith)
                requires
                    -ONE <= x <= ONE,
                    -ONE <= y <= ONE,
            ;
        }
        if x * x + y * y < ONE * ONE {
            return (x, y);
        }
        tries = tries + 1;
    }
    (0, 0)
}

impl Camera {
    /// The ray through the viewport position `(s, t)` (in `[0, 1]` on the
    /// viewport, up to `2` past its far edges), from a random point of the
    /// lens, at a random time of the shutter interval.
    pub fn get_ray(&self, rng: &mut StdRng, s: i64, t: i64) -> (r: Ray)
        requires
            self.wf(),
            0 <= s <= 2 * ONE,
            0 <= t <= 2 * ONE,
        ensures
            exists|x: int, y: int|
                in_unit_disk(x, y) && r == spec_ray(*self, x, y, s as int, t as int, r.tm),
            self.time0 < self.time1 ==> self.time0 <= r.tm < self.time1,
            self.time0 >= self.time1 ==> r.tm == self.time0,
    {
        let (x, y) = random_in_unit_disk(rng);
        proof {
            crate::vec3::lemma_fx_mul_within(self.lens_radius as int, x as int, 4096, 1);
            crate::vec3::lemma_fx_mul_within(self.lens_radius as int, y as int, 4096, 1);
        }
        let rdx = crate::vec3::mul_fx(self.lens_radius, x);
        let rdy = crate::vec3::mul_fx(self.lens_radius, y);
        proof {
            lemma_scale_unit_bound(self.u, rdx as int);
            crate::vec3::lemma_fx_mul_within(self.v.x as int, rdy as int, 2, 4096);
            crate::vec3::lemma_fx_mul_within(self.v.y as int, rdy as int, 2, 4096);
            crate::vec3::lemma_fx_mul_within(self.v.z as int, rdy as int, 2, 4096);
            crate::vec3::lemma_fx_mul_within(self.horizontal.x as int, s as int, 4096, 2);
            crate::vec3::lemma_fx_mul_within(self.horizontal.y as int, s as int, 4096, 2);
            crate::vec3::lemma_fx_mul_within(self.horizontal.z as int, s as int, 4096, 2);
            crate::vec3::lemma_fx_mul_within(self.vertical.x as int, t as int, 4096, 2);
            crate::vec3::lemma_fx_mul_within(self.vertical.y as int, t as int, 4096, 2);
            crate::vec3::lemma_fx_mul_within(self.vertical.z as int, t as int, 4096, 2);
        }
        let offset = self.u.scale(rdx).add(self.v.scale(rdy));
        let orig = self.origin.add(offset);
        let target = self.lower_left_corner.add(self.horizontal.scale(s)).add(self.vertical.scale(t));
        let dir = target.sub(orig);
        let tm = if self.time0 < self.time1 {
            self.time0 + random_below(rng, (self.time1 - self.time0) as u64) as i64
        } else {
            self.time0
        };
        let r = Ray::new(orig, dir, tm);
        assert(r == spec_ray(*self, x as int, y as int, s as int, t as int, tm));
        r
    }
}

} // verus!
