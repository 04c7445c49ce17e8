use vstd::prelude::*;
use rand::rngs::StdRng;
use crate::fixed::{fx_mul, isqrt, lemma_tdiv_bounds, tdiv, LIM, ONE};
use crate::hittable::HitRecord;
use crate::onb::unit_of;
use crate::pdf::{cosine_density, CosinePDF};
use crate::texture::SolidColor;
use crate::ray::Ray;
use crate::rng::random_below;
use crate::vec3::{dot_raw, lemma_fx_mul_within, mul_fx, reflect, vadd, within, Color, Vec3};

verus! {

/// What a scattering event hands back: a mirror-like ray to follow, or a
/// distribution of directions to sample, and the attenuation.
#[derive(Clone, Copy, Debug, PartialEq, Eq, Structural)]
pub struct ScatterRecord {
    pub specular_ray: Option<Ray>,
    pub attenuation: Color,
    pub pdf: Option<CosinePDF>,
}

/// `v` scaled by the fixed-point number `s`.
pub open spec fn vscale(v: Vec3, s: int) -> Vec3 {
    Vec3 { x: fx_mul(v.x as int, s) as i64, y: fx_mul(v.y as int, s) as i64, z: fx_mul(v.z as int, s) as i64 }
}

/// The mirror image `v - 2 (v . n) n` of `v` about the plane with unit normal
/// `n`, in fixed point. About a coordinate plane it is exact: the normal
/// component changes sign and the others stay (`lemma_reflect_axis`).
pub open spec fn reflect_of(v: Vec3, n: Vec3) -> Vec3 {
    let k = 2 * tdiv(dot_raw(v, n), ONE as int);
    Vec3 {
        x: (v.x - fx_mul(n.x as int, k)) as i64,
        y: (v.y - fx_mul(n.y as int, k)) as i64,
        z: (v.z - fx_mul(n.z as int, k)) as i64,
    }
}

/// Snell refraction of the unit direction `uv` at a surface with normal `n`
/// and ratio `eta` of refractive indices: a part `eta (uv + cos n)` across
/// the normal and a part `-sqrt(|1 - |perp|^2|) n` along it.
pub open spec fn refract_of(uv: Vec3, n: Vec3, eta: int) -> Vec3 {
    let cos_t = -tdiv(dot_raw(uv, n), ONE as int);
    let perp = vscale(vadd(uv, vscale(n, cos_t)), eta);
    let lsq = tdiv(dot_raw(perp, perp), ONE as int);
    let k = if ONE - lsq >= 0 {
        ONE - lsq
    } else {
        lsq - ONE
    };
    vadd(perp, vscale(n, -isqrt(k * ONE)))
}

/// The cosine of the angle of incidence, clamped to `[-1, 1]`.
pub open spec fn cos_incidence(unit: Vec3, n: Vec3) -> int {
    let c = -tdiv(dot_raw(unit, n), ONE as int);
    if c > ONE {
        ONE as int
    } else if c < -ONE {
        -ONE
    } else {
        c
    }
}

/// Snell's law has no solution: `eta * sin > 1`.
pub open spec fn total_internal_reflection(eta: int, cos: int) -> bool {
    fx_mul(eta, isqrt(ONE * ONE - cos * cos)) > ONE
}

/// Schlick's approximation of the reflectance: `r0 + (1 - r0) (1 - cos)^5`
/// with `r0 = ((1 - eta) / (1 + eta))^2`.
pub open spec fn schlick_of(cosine: int, eta: int) -> int {
    let r = tdiv((ONE - eta) * ONE, ONE + eta);
    let r0 = fx_mul(r, r);
    let m = ONE - cosine;
    let m5 = fx_mul(fx_mul(fx_mul(fx_mul(m, m), m), m), m);
    r0 + fx_mul(ONE - r0, m5)
}

pub proof fn lemma_dot_within(a: Vec3, b: Vec3, ka: int, kb: int)
    requires
        ka >= 0,
        kb >= 0,
        within(a, ka * ONE),
        within(b, kb * ONE),
    ensures
        -3 * ka * kb * ONE <= tdiv(dot_raw(a, b), ONE as int) <= 3 * ka * kb * ONE,
{
    let o = ONE as int;
    let m = ka * kb;
    lemma_prod_within(a.x as int, b.x as int, ka, kb);
    lemma_prod_within(a.y as int, b.y as int, ka, kb);
    lemma_prod_within(a.z as int, b.z as int, ka, kb);
    assert(3 * m * (o * o) == 3 * (m * (o * o))) by (nonlinear_arith);
    assert((ka * kb) * (ONE * ONE) == m * (o * o));
    let d = dot_raw(a, b);
    if d >= 0 {
        assert(0 <= d / o <= 3 * m * o) by (nonlinear_arith)
            requires
                0 <= d <= 3 * m * (o * o),
                o > 0,
        ;
    } else {
        assert(0 <= (-d) / o <= 3 * m * o) by (nonlinear_arith)
            requires
                0 <= -d <= 3 * m * (o * o),
                o > 0,
        ;
    }
    assert(3 * ka * kb * ONE == 3 * m * o && -3 * ka * kb * ONE == -(3 * m * o)) by (nonlinear_arith)
        requires
            m == ka * kb,
            o == ONE,
    ;
}

proof fn lemma_prod_within(x: int, y: int, ka: int, kb: int)
    requires
        ka >= 0,
        kb >= 0,
        -ka * ONE <= x <= ka * ONE,
        -kb * ONE <= y <= kb * ONE,
    ensures
        -((ka * kb) * (ONE * ONE)) <= x * y <= (ka * kb) * (ONE * ONE),
{
    let o = ONE as int;
    assert(-((ka * kb) * (o * o)) <= x * y <= (ka * kb) * (o * o)) by (nonlinear_arith)
        requires
            ka >= 0,
            kb >= 0,
            -ka * o <= x <= ka * o,
            -kb * o <= y <= kb * o,
    ;
}

proof fn lemma_scale_within(v: Vec3, s: int, kv: int, ks: int)
    requires
        kv >= 0,
        ks >= 0,
        within(v, kv * ONE),
        -ks * ONE <= s <= ks * ONE,
    ensures
        -kv * ks * ONE <= fx_mul(v.x as int, s) <= kv * ks * ONE,
        -kv * ks * ONE <= fx_mul(v.y as int, s) <= kv * ks * ONE,
        -kv * ks * ONE <= fx_mul(v.z as int, s) <= kv * ks * ONE,
{
    lemma_fx_mul_within(v.x as int, s, kv, ks);
    lemma_fx_mul_within(v.y as int, s, kv, ks);
    lemma_fx_mul_within(v.z as int, s, kv, ks);
}

/// Refracts the unit direction `uv` at a surface with normal `n`, where
/// `etai_over_etat` is the ratio of the refractive indices.
pub fn refract(uv: Vec3, n: Vec3, etai_over_etat: i64) -> (r: Vec3)
    requires
        within(uv, ONE as int),
        within(n, 2 * ONE),
        0 <= etai_over_etat <= 16 * ONE,
    ensures
        r == refract_of(uv, n, etai_over_etat as int),
        within(r, 1000 * ONE),
{
    proof {
        lemma_dot_within(uv, n, 1, 2);
    }
    let cos_t = -uv.dot(n);
    proof {
        lemma_scale_within(n, cos_t as int, 2, 6);
    }
    let s = n.scale(cos_t);
    let w = uv.add(s);
    proof {
        lemma_scale_within(w, etai_over_etat as int, 13, 16);
    }
    let perp = w.scale(etai_over_etat);
    proof {
        lemma_dot_within(perp, perp, 208, 208);
    }
    let lsq = perp.length_squared();
    let k: i64 = if ONE - lsq >= 0 {
        ONE - lsq
    } else {
        lsq - ONE
    };
    assert(-129792 * ONE <= lsq <= 129792 * ONE);
    assert(0 <= k <= 129793 * ONE);
    let ki = k as i128;
    assert(ki * 4096 <= 129793 * 4096 * 4096) by (nonlinear_arith)
        requires
            0 <= ki <= 129793 * 4096,
    ;
    let plen = crate::fixed::isqrt_i128(ki * 4096);
    proof {
        let p = plen as int;
        let kk = k as int;
        assert(p <= 361 * ONE) by (nonlinear_arith)
            requires
                p >= 0,
                p * p <= kk * 4096,
                kk <= 129793 * 4096,
                ONE == 4096,
        ;
    }
    let plen = plen as i64;
    proof {
        lemma_scale_within(n, -plen as int, 2, 361);
    }
    let par = n.scale(-plen);
    let r = perp.add(par);
    assert(vscale(n, cos_t as int) == s);
    assert(vadd(uv, s) == w);
    assert(vscale(w, etai_over_etat as int) == perp);
    r
}

/// The direction glass sends the unit direction `unit` at normal `n`, for
/// the ratio `eta` of refractive indices, incidence cosine `cos` and a draw
/// `draw` uniform in `[0, 1)`: reflection under total internal reflection or
/// when the draw is below Schlick's reflectance, refraction otherwise.
pub open spec fn dielectric_dir(unit: Vec3, n: Vec3, eta: int, cos: int, draw: int) -> Vec3 {
    if total_internal_reflection(eta, cos) || draw < schlick_of(cos, eta) {
        reflect_of(unit, n)
    } else {
        refract_of(unit, n, eta)
    }
}

/// Computes `dielectric_dir`.
pub fn dielectric_direction(unit: Vec3, n: Vec3, eta: i64, cos: i64, draw: i64) -> (d: Vec3)
    requires
        within(unit, ONE as int),
        within(n, 2 * ONE),
        0 <= eta <= 16 * ONE,
        -ONE <= cos <= ONE,
    ensures
        d == dielectric_dir(unit, n, eta as int, cos as int, draw as int),
{
    proof {
        assert(0 <= cos * cos <= ONE * ONE) by (nonlinear_arith)
            requires
                -ONE <= cos <= ONE,
        ;
    }
    let sin = crate::fixed::isqrt_i128(ONE as i128 * ONE as i128 - cos as i128 * cos as i128);
    proof {
        let si = sin as int;
        assert(si <= ONE) by (nonlinear_arith)
            requires
                si >= 0,
                si * si <= ONE * ONE,
                ONE == 4096,
        ;
        lemma_dot_within(unit, n, 1, 2);
        lemma_scale_within(n, 2 * tdiv(dot_raw(unit, n), ONE as int), 2, 12);
    }
    let tir = mul_fx(eta, sin as i64) > ONE;
    if tir || draw < schlick(cos, eta) {
        reflect(unit, n)
    } else {
        refract(unit, n, eta)
    }
}

/// A transparent material that reflects or refracts. Its refractive index
/// lies between 1/16 and 16 (those of real materials lie between 1 and
/// about 4): within that range every step of refraction stays within the
/// coordinate range.
#[derive(Clone, Copy, Debug, PartialEq, Eq, Structural)]
pub struct Dielectric {
    pub ref_idx: i64,
}

impl Dielectric {
    /// The refractive index lies between one sixteenth and sixteen.
    pub open spec fn wf(self) -> bool {
        ONE / 16 <= self.ref_idx <= 16 * ONE
    }

    /// The ratio of refractive indices on the way in (front face) or out.
    pub open spec fn eta(self, front_face: bool) -> int {
        if front_face {
            tdiv(ONE * ONE, self.ref_idx as int)
        } else {
            self.ref_idx as int
        }
    }

    pub fn new(ref_idx: i64) -> (d: Dielectric)
        ensures
            d.ref_idx == ref_idx,
    {
        Dielectric { ref_idx }
    }

    /// Reflects under total internal reflection; otherwise reflects with the
    /// probability that Schlick's approximation gives, and refracts else.
    /// The attenuation is white.
    pub fn scatter(&self, r_in: &Ray, rec: &HitRecord, rng: &mut StdRng) -> (res: ScatterRecord)
        requires
            self.wf(),
            r_in.dir.bounded(),
            !r_in.dir.is_zero(),
            within(rec.normal, 2 * ONE),
        ensures
            ({
                let unit = unit_of(r_in.dir);
                let eta = self.eta(rec.front_face);
                let cos = cos_incidence(unit, rec.normal);
                &&& res.attenuation == Vec3 { x: ONE, y: ONE, z: ONE }
                &&& res.pdf.is_none()
                &&& res.specular_ray matches Some(ray) && ray.orig == rec.p && ray.tm == r_in.tm
                    && (ray.dir == reflect_of(unit, rec.normal) || ray.dir == refract_of(
                    unit,
                    rec.normal,
                    eta,
                ))
                &&& total_internal_reflection(eta, cos) ==> (res.specular_ray matches Some(ray)
                    && ray.dir == reflect_of(unit, rec.normal))
                &&& !total_internal_reflection(eta, cos) && schlick_of(cos, eta) <= 0
                    ==> (res.specular_ray matches Some(ray) && ray.dir == refract_of(
                    unit,
                    rec.normal,
                    eta,
                ))
                &&& exists|draw: int|
                    0 <= draw < ONE && (res.specular_ray matches Some(ray) && ray.dir
                        == #[trigger] dielectric_dir(unit, rec.normal, eta, cos, draw))
            }),
    {
        let n = rec.normal;
        let eta: i64 = if rec.front_face {
            let q = crate::fixed::div_trunc(ONE as i128 * ONE as i128, self.ref_idx as i128);
            proof {
                lemma_tdiv_bounds((ONE * ONE) as int, self.ref_idx as int);
                let qi = q as int;
                let ri = self.ref_idx as int;
                assert(256 <= qi <= 65536) by (nonlinear_arith)
                    requires
                        qi >= 0,
                        qi * ri <= 16777216 < (qi + 1) * ri,
                        256 <= ri <= 65536,
                ;
            }
            q as i64
        } else {
            self.ref_idx
        };
        let unit = r_in.dir.unit_vector();
        assert(unit == unit_of(r_in.dir));
        proof {
            lemma_dot_within(unit, n, 1, 2);
        }
        let c = -unit.dot(n);
        let cos: i64 = if c > ONE {
            ONE
        } else if c < -ONE {
            -ONE
        } else {
            c
        };
        assert(cos == cos_incidence(unit, n));
        proof {
            assert(0 <= cos * cos <= ONE * ONE) by (nonlinear_arith)
                requires
                    -ONE <= cos <= ONE,
            ;
        }
        let sin = crate::fixed::isqrt_i128(ONE as i128 * ONE as i128 - cos as i128 * cos as i128);
        proof {
            let si = sin as int;
            assert(si <= ONE) by (nonlinear_arith)
                requires
                    si >= 0,
                    si * si <= ONE * ONE,
                    ONE == 4096,
            ;
        }
        let tir = mul_fx(eta, sin as i64) > ONE;
        let draw = if tir {
            0
        } else {
            random_below(rng, ONE as u64) as i64
        };
        let dir = dielectric_direction(unit, n, eta, cos, draw);
        assert(dir == dielectric_dir(unit, n, eta as int, cos as int, draw as int));
        assert(eta == self.eta(rec.front_face));
        assert(0 <= draw < ONE);
        ScatterRecord {
            specular_ray: Some(Ray::new(rec.p, dir, r_in.tm)),
            attenuation: Vec3::new(ONE, ONE, ONE),
            pdf: None,
        }
    }
}

/// Schlick's approximation of the reflectance at incidence cosine `cosine`
/// for the ratio of refractive indices `ref_idx`.
fn schlick(cosine: i64, ref_idx: i64) -> (r: i64)
    requires
        -ONE <= cosine <= ONE,
        0 <= ref_idx <= 16 * ONE,
    ensures
        r == schlick_of(cosine as int, ref_idx as int),
{
    let q = crate::fixed::div_trunc((ONE as i128 - ref_idx as i128) * ONE as i128, ONE as i128 + ref_idx as i128);
    proof {
        let num = (ONE - ref_idx) * ONE;
        let den = ONE + ref_idx;
        assert(num <= den * ONE && -num <= den * ONE) by (nonlinear_arith)
            requires
                num == (ONE - ref_idx) * ONE,
                den == ONE + ref_idx,
                ref_idx >= 0,
                ONE == 4096,
        ;
        lemma_tdiv_bounds(num, den);
        let qi = q as int;
        assert(-ONE <= qi <= ONE) by (nonlinear_arith)
            requires
                num >= 0 ==> qi >= 0 && qi * den <= num,
                num < 0 ==> qi <= 0 && -qi * den <= -num,
                den >= ONE,
                num <= den * ONE,
                -num <= den * ONE,
                ONE == 4096,
        ;
        lemma_fx_mul_within(qi, qi, 1, 1);
    }
    let r = q as i64;
    let r0 = mul_fx(r, r);
    let m = ONE - cosine;
    proof {
        lemma_fx_mul_within(m as int, m as int, 2, 2);
    }
    let m2 = mul_fx(m, m);
    proof {
        lemma_fx_mul_within(m2 as int, m as int, 4, 2);
    }
    let m3 = mul_fx(m2, m);
    proof {
        lemma_fx_mul_within(m3 as int, m as int, 8, 2);
    }
    let m4 = mul_fx(m3, m);
    proof {
        lemma_fx_mul_within(m4 as int, m as int, 16, 2);
    }
    let m5 = mul_fx(m4, m);
    proof {
        lemma_fx_mul_within((ONE - r0) as int, m5 as int, 2, 32);
    }
    r0 + mul_fx(ONE - r0, m5)
}

} // verus!

verus! {

/// How many candidate points the ball sampler draws before it settles on the center.
pub const BALL_TRIES: u32 = 32;

/// The point lies strictly inside the unit ball, in fixed point.
pub open spec fn in_unit_ball(p: Vec3) -> bool {
    p.x * p.x + p.y * p.y + p.z * p.z < ONE * ONE
}

/// The first of `draws`, from position `k` on, that lies inside the unit
/// ball; the center where none does.
pub open spec fn ball_pick(draws: Seq<Vec3>, k: int) -> Vec3
    decreases draws.len() - k,
{
    if k >= draws.len() || k < 0 {
        Vec3 { x: 0, y: 0, z: 0 }
    } else if in_unit_ball(draws[k]) {
        draws[k]
    } else {
        ball_pick(draws, k + 1)
    }
}

/// `BALL_TRIES` candidates, each in the cube `[-1, 1]^3`.
pub open spec fn valid_ball_draws(draws: Seq<Vec3>) -> bool {
    draws.len() == BALL_TRIES && forall|k: int| 0 <= k < draws.len() ==> within(#[trigger] draws[k], ONE as int)
}

/// `p` is what rejection sampling of the unit ball returns for some candidates.
pub open spec fn ball_sample(p: Vec3) -> bool {
    exists|draws: Seq<Vec3>| valid_ball_draws(draws) && ball_pick(draws, 0) == p
}

proof fn lemma_ball_pick_first(draws: Seq<Vec3>, j: int, k: int)
    requires
        0 <= j <= k < draws.len(),
        forall|m: int| j <= m < k ==> !in_unit_ball(#[trigger] draws[m]),
        in_unit_ball(draws[k]),
    ensures
        ball_pick(draws, j) == draws[k],
    decreases k - j,
{
    if j < k {
        lemma_ball_pick_first(draws, j + 1, k);
    }
}

proof fn lemma_ball_pick_none(draws: Seq<Vec3>, j: int)
    requires
        0 <= j <= draws.len(),
        forall|m: int| j <= m < draws.len() ==> !in_unit_ball(#[trigger] draws[m]),
    ensures
        ball_pick(draws, j) == (Vec3 { x: 0, y: 0, z: 0 }),
    decreases draws.len() - j,
{
    if j < draws.len() {
        lemma_ball_pick_none(draws, j + 1);
    }
}

/// Whether a candidate of the cube `[-1, 1]^3` lies inside the unit ball.
pub fn accepts_ball(p: Vec3) -> (b: bool)
    requires
        within(p, ONE as int),
    ensures
        b == in_unit_ball(p),
{
    proof {
        assert(0 <= p.x * p.x <= ONE * ONE && 0 <= p.y * p.y <= ONE * ONE && 0 <= p.z * p.z <= ONE * ONE) by (nonlinear_arith)
            requires
                -ONE <= p.x <= ONE,
                -ONE <= p.y <= ONE,
                -ONE <= p.z <= ONE,
        ;
    }
    p.x * p.x + p.y * p.y + p.z * p.z < ONE * ONE
}

/// A point of the unit ball drawn by rejection from the enclosing cube; the
/// center where `BALL_TRIES` draws in a row fall outside.
pub fn random_in_unit_sphere(rng: &mut StdRng) -> (p: Vec3)
    ensures
        ball_sample(p),
        in_unit_ball(p),
        within(p, ONE as int),
{
    let ghost mut draws: Seq<Vec3> = Seq::empty();
    let mut tries: u32 = 0;
    while tries < BALL_TRIES
        invariant
            tries <= BALL_TRIES,
            draws.len() == tries,
            forall|k: int| 0 <= k < draws.len() ==> within(#[trigger] draws[k], ONE as int),
            forall|k: int| 0 <= k < draws.len() ==> !in_unit_ball(#[trigger] draws[k]),
        decreases BALL_TRIES - tries,
    {
        let x = random_below(rng, 2 * ONE as u64 + 1) as i64 - ONE;
        let y = random_below(rng, 2 * ONE as u64 + 1) as i64 - ONE;
        let z = random_below(rng, 2 * ONE as u64 + 1) as i64 - ONE;
        let cand = Vec3::new(x, y, z);
        if accepts_ball(cand) {
            proof {
                let rest = Seq::new((BALL_TRIES - tries - 1) as nat, |m: int| Vec3 { x: 0, y: 0, z: 0 });
                let full = draws.push(cand) + rest;
                assert(full[tries as int] == cand);
                assert forall|m: int| 0 <= m < tries implies !in_unit_ball(#[trigger] full[m]) by {
                    assert(full[m] == draws[m]);
                }
                lemma_ball_pick_first(full, 0, tries as int);
                assert forall|k: int| 0 <= k < full.len() implies within(#[trigger] full[k], ONE as int) by {
                    if k < tries {
                        assert(full[k] == draws[k]);
                    }
                }
                assert(valid_ball_draws(full));
            }
            return cand;
        }
        proof {
            draws = draws.push(cand);
        }
        tries = tries + 1;
    }
    proof {
        lemma_ball_pick_none(draws, 0);
        assert(valid_ball_draws(draws));
    }
    Vec3::origin()
}

/// A mirror whose reflections are blurred by `fuzz`.
#[derive(Clone, Copy, Debug, PartialEq, Eq, Structural)]
pub struct Metal {
    pub albedo: Color,
    pub fuzz: i64,
}

impl Metal {
    /// The fuzz is not negative and lies within the coordinate range.
    pub open spec fn wf(self) -> bool {
        0 <= self.fuzz <= LIM
    }

    pub fn new(albedo: Color, fuzz: i64) -> (m: Metal)
        ensures
            m.albedo == albedo && m.fuzz == fuzz,
    {
        Metal { albedo, fuzz }
    }

    /// Reflects the normalised incoming direction about the normal and moves
    /// it by `fuzz` times a random point of the unit ball.
    pub fn scatter(&self, r_in: &Ray, rec: &HitRecord, rng: &mut StdRng) -> (res: ScatterRecord)
        requires
            self.wf(),
            r_in.dir.bounded(),
            !r_in.dir.is_zero(),
            within(rec.normal, 2 * ONE),
        ensures
            res.attenuation == self.albedo,
            res.pdf.is_none(),
            exists|b: Vec3|
                in_unit_ball(b) && ball_sample(b) && res.specular_ray == Some(
                    Ray {
                        orig: rec.p,
                        dir: vadd(reflect_of(unit_of(r_in.dir), rec.normal), vscale(b, self.fuzz as int)),
                        tm: r_in.tm,
                    },
                ),
    {
        let unit = r_in.dir.unit_vector();
        assert(unit == unit_of(r_in.dir));
        let n = rec.normal;
        proof {
            lemma_dot_within(unit, n, 1, 2);
            lemma_scale_within(n, 2 * tdiv(dot_raw(unit, n), ONE as int), 2, 12);
        }
        let reflected = reflect(unit, n);
        let b = random_in_unit_sphere(rng);
        proof {
            lemma_scale_within(b, self.fuzz as int, 1, 4096);
        }
        let blur = b.scale(self.fuzz);
        let dir = reflected.add(blur);
        ScatterRecord {
            specular_ray: Some(Ray::new(rec.p, dir, r_in.tm)),
            attenuation: self.albedo,
            pdf: None,
        }
    }
}

} // verus!

verus! {

/// A diffuse surface that scatters with the cosine-weighted distribution.
#[derive(Clone, Copy, Debug, PartialEq, Eq, Structural)]
pub struct Lambertian {
    pub albedo: SolidColor,
}

impl Lambertian {
    pub fn new(albedo: SolidColor) -> (m: Lambertian)
        ensures
            m.albedo == albedo,
    {
        Lambertian { albedo }
    }

    pub fn from_color(color: Color) -> (m: Lambertian)
        ensures
            m.albedo.color_value == color,
    {
        Lambertian { albedo: SolidColor::new(color) }
    }

    pub fn new_rgb(r: i64, g: i64, b: i64) -> (m: Lambertian)
        ensures
            m.albedo.color_value == (Vec3 { x: r, y: g, z: b }),
    {
        Self::from_color(Vec3::new(r, g, b))
    }

    /// No specular ray: the cosine distribution around the normal, and the albedo.
    pub fn scatter(&self, rec: &HitRecord) -> (res: ScatterRecord)
        requires
            rec.normal.bounded(),
            !rec.normal.is_zero(),
        ensures
            res.specular_ray.is_none(),
            res.attenuation == self.albedo.color_value,
            res.pdf == Some(CosinePDF { uvw: crate::onb::OrthonormalBasis::spec_from_w(rec.normal) }),
    {
        ScatterRecord {
            specular_ray: None,
            attenuation: self.albedo.value(rec.u, rec.v, rec.p),
            pdf: Some(CosinePDF::new(rec.normal)),
        }
    }

    /// The density of scattering toward `scattered`: `max(cos / pi, 0)` of
    /// its angle with the normal.
    pub fn scattering_pdf(&self, rec: &HitRecord, scattered: &Ray) -> (r: i64)
        requires
            rec.normal.bounded(),
            !rec.normal.is_zero(),
            scattered.dir.bounded(),
            !scattered.dir.is_zero(),
        ensures
            r == cosine_density(scattered.dir, unit_of(rec.normal)),
    {
        let pdf = CosinePDF::new(rec.normal);
        pdf.value(scattered.dir)
    }
}

/// A surface that emits light from its front face and scatters nothing.
#[derive(Clone, Copy, Debug, PartialEq, Eq, Structural)]
pub struct DiffuseLight {
    pub emit: SolidColor,
}

impl DiffuseLight {
    pub fn from_color(color: Color) -> (m: DiffuseLight)
        ensures
            m.emit.color_value == color,
    {
        DiffuseLight { emit: SolidColor::new(color) }
    }

    pub fn new_rgb(r: i64, g: i64, b: i64) -> (m: DiffuseLight)
        ensures
            m.emit.color_value == (Vec3 { x: r, y: g, z: b }),
    {
        Self::from_color(Vec3::new(r, g, b))
    }

    /// White light of strength `s`.
    pub fn white(s: i64) -> (m: DiffuseLight)
        ensures
            m.emit.color_value == (Vec3 { x: s, y: s, z: s }),
    {
        Self::new_rgb(s, s, s)
    }

    /// The emitted light: the colour on the front face, black behind.
    pub fn emitted(&self, rec: &HitRecord) -> (c: Color)
        ensures
            rec.front_face ==> c == self.emit.color_value,
            !rec.front_face ==> c.is_zero(),
    {
        if rec.front_face {
            self.emit.value(rec.u, rec.v, rec.p)
        } else {
            Vec3::black()
        }
    }
}

/// The phase function of a fog volume: it scatters in a uniformly random direction.
#[derive(Clone, Copy, Debug, PartialEq, Eq, Structural)]
pub struct Isotropic {
    pub albedo: SolidColor,
}

impl Isotropic {
    pub fn from_color(color: Color) -> (m: Isotropic)
        ensures
            m.albedo.color_value == color,
    {
        Isotropic { albedo: SolidColor::new(color) }
    }

    /// A specular ray from the hit point in a random direction of the unit ball.
    pub fn scatter(&self, r_in: &Ray, rec: &HitRecord, rng: &mut StdRng) -> (res: ScatterRecord)
        ensures
            res.attenuation == self.albedo.color_value,
            res.pdf.is_none(),
            res.specular_ray matches Some(ray) && ray.orig == rec.p && ray.tm == r_in.tm
                && in_unit_ball(ray.dir) && ball_sample(ray.dir),
    {
        let d = random_in_unit_sphere(rng);
        ScatterRecord {
            specular_ray: Some(Ray::new(rec.p, d, r_in.tm)),
            attenuation: self.albedo.value(rec.u, rec.v, rec.p),
            pdf: None,
        }
    }
}

/// Reflection about a coordinate plane negates the normal component and keeps the others.
pub proof fn lemma_reflect_axis(v: Vec3, plane: crate::hittable::Plane)
    requires
        v.bounded(),
    ensures
        ({
            let r = reflect_of(v, plane.unit_normal());
            let a = plane.normal_axis();
            &&& r.at(a) == -v.at(a)
            &&& forall|b: int| 0 <= b < 3 && b != a ==> #[trigger] r.at(b) == v.at(b)
        }),
{
    let n = plane.unit_normal();
    let a = plane.normal_axis();
    let c = v.at(a);
    assert(dot_raw(v, n) == c * ONE) by (nonlinear_arith)
        requires
            (a == 0 && n.x == 4096 && n.y == 0 && n.z == 0) || (a == 1 && n.x == 0 && n.y == 4096
                && n.z == 0) || (a == 2 && n.x == 0 && n.y == 0 && n.z == 4096),
            a == 0 ==> c == v.x,
            a == 1 ==> c == v.y,
            a == 2 ==> c == v.z,
            dot_raw(v, n) == v.x * n.x + v.y * n.y + v.z * n.z,
            ONE == 4096,
    ;
    crate::onb::lemma_tdiv_exact(c);
    crate::onb::lemma_tdiv_exact(2 * c);
    crate::onb::lemma_tdiv_exact(0);
    assert(ONE * (2 * c) == (2 * c) * ONE) by (nonlinear_arith);
    assert(0 * (2 * c) == 0 * ONE) by (nonlinear_arith);
}

/// Head on, Schlick's reflectance is `r0 = ((1 - eta) / (1 + eta))^2`.
pub proof fn lemma_schlick_head_on(eta: int)
    requires
        0 <= eta,
    ensures
        schlick_of(ONE as int, eta) == fx_mul(tdiv((ONE - eta) * ONE, ONE + eta), tdiv((ONE - eta) * ONE, ONE + eta)),
{
    let r = tdiv((ONE - eta) * ONE, ONE + eta);
    let r0 = fx_mul(r, r);
    assert(fx_mul(0, 0) == 0);
    assert(fx_mul(ONE - r0, 0) == 0) by {
        assert((ONE - r0) * 0 == 0) by (nonlinear_arith);
    }
}

/// A ray meeting the surface head on goes straight through.
pub proof fn lemma_refract_head_on(eta: int)
    requires
        0 <= eta <= 16 * ONE,
    ensures
        refract_of(Vec3 { x: 0, y: 0, z: -4096i64 }, Vec3 { x: 0, y: 0, z: ONE }, eta) == (Vec3 { x: 0, y: 0, z: -4096i64 }),
{
    let uv = Vec3 { x: 0, y: 0, z: -4096i64 };
    let n = Vec3 { x: 0, y: 0, z: ONE };
    assert(dot_raw(uv, n) == -(ONE * ONE));
    crate::onb::lemma_tdiv_exact(ONE as int);
    crate::onb::lemma_tdiv_exact(0);
    assert(fx_mul(ONE as int, ONE as int) == ONE) by {
        crate::onb::lemma_tdiv_exact(ONE as int);
        assert(ONE * ONE == ONE * ONE);
    }
    let perp = vscale(vadd(uv, vscale(n, ONE as int)), eta);
    assert(vscale(n, ONE as int) == n);
    assert(vadd(uv, n) == (Vec3 { x: 0, y: 0, z: 0 }));
    assert(fx_mul(0, eta) == 0) by {
        assert(0 * eta == 0) by (nonlinear_arith);
    }
    assert(perp == (Vec3 { x: 0, y: 0, z: 0 }));
    assert(dot_raw(perp, perp) == 0);
    crate::fixed::lemma_isqrt_spec(ONE * ONE, ONE as int);
    assert(fx_mul(ONE as int, -ONE) == -ONE) by {
        crate::onb::lemma_tdiv_exact(ONE as int);
        assert(ONE * (-ONE) == -(ONE * ONE)) by (nonlinear_arith);
    }
    assert(fx_mul(0, -ONE) == 0) by {
        assert(0 * (-ONE) == 0) by (nonlinear_arith);
    }
}

} // verus!
