use vstd::prelude::*;
use rand::rngs::StdRng;
use crate::fixed::{in_lim, tdiv, trunc_div, LIM, ONE};
use crate::hittable::clamp_density;
use crate::camera::Camera;
use crate::hittable::HitRecord;
use crate::material::ScatterRecord;
use crate::pdf::CosinePDF;
use crate::ray::Ray;
use crate::rng::random_below;
use crate::vec3::{within, Color, Point3, Vec3};

verus! {

/// What the path integrator asks of a scene: intersections, and the
/// emission, scattering and light sampling of its materials.
pub trait Scene {
    /// The nearest hit of `r` beyond the shadow-ray offset, if any.
    fn hit(&self, r: &Ray, rng: &mut StdRng) -> Option<HitRecord>;

    /// The light that the surface of `rec` emits.
    fn emitted(&self, rec: &HitRecord) -> Color;

    /// How the material of `rec` scatters `r_in`; none where it absorbs.
    fn scatter(&self, r_in: &Ray, rec: &HitRecord, rng: &mut StdRng) -> Option<ScatterRecord>;

    /// Whether the scene has shapes to sample as lights.
    fn has_lights(&self) -> bool;

    /// The density, in fixed point, of the direction `dir` from `origin`
    /// under uniform sampling of the lights.
    fn light_pdf_value(&self, origin: Point3, dir: Vec3) -> i64;

    /// A direction from `origin` toward a random point of the lights.
    fn light_random(&self, origin: Point3, rng: &mut StdRng) -> Vec3;

    /// A direction drawn from the cosine-weighted distribution `pdf`.
    fn cosine_random(&self, pdf: &CosinePDF, rng: &mut StdRng) -> Vec3;
}

/// Every channel of the colour lies in `[0, LIM]`.
pub open spec fn color_ok(c: Color) -> bool {
    0 <= c.x <= LIM && 0 <= c.y <= LIM && 0 <= c.z <= LIM
}

/// `v` clamped into `[0, LIM]`.
pub open spec fn clamp_channel(v: int) -> int {
    if v < 0 {
        0
    } else if v > LIM {
        LIM as int
    } else {
        v
    }
}

fn clamp_i128(v: i128) -> (r: i64)
    ensures
        r == clamp_channel(v as int),
{
    if v < 0 {
        0
    } else if v > LIM as i128 {
        LIM
    } else {
        v as i64
    }
}

/// The colour with every channel clamped into `[0, LIM]`.
pub fn clamp_color(c: Color) -> (r: Color)
    ensures
        r.x == clamp_channel(c.x as int),
        r.y == clamp_channel(c.y as int),
        r.z == clamp_channel(c.z as int),
        color_ok(r),
{
    Vec3::new(clamp_i128(c.x as i128), clamp_i128(c.y as i128), clamp_i128(c.z as i128))
}

/// `emit + att * light * weight`, channel by channel, with `weight` a
/// fixed-point factor, every result clamped into `[0, LIM]`.
pub open spec fn shade_channel(emit: int, att: int, light: int, weight_num: int, weight_den: int) -> int {
    clamp_channel(emit + clamp_channel(trunc_div(tdiv(att * light, ONE as int) * weight_num, weight_den)))
}

fn shade_channel_exec(emit: i64, att: i64, light: i64, weight_num: i64, weight_den: i64) -> (r: i64)
    requires
        0 <= emit <= LIM,
        0 <= att <= LIM,
        0 <= light <= LIM,
        in_lim(weight_num as int),
        1 <= weight_den <= LIM,
    ensures
        r == shade_channel(emit as int, att as int, light as int, weight_num as int, weight_den as int),
{
    proof {
        crate::vec3::lemma_fx_mul_bound(att as int, light as int);
    }
    let prod = crate::fixed::div_trunc(att as i128 * light as i128, ONE as i128);
    proof {
        assert(-(LIM * LIM) * LIM <= prod * weight_num <= (LIM * LIM) * LIM) by (nonlinear_arith)
            requires
                -(LIM * LIM) <= prod <= LIM * LIM,
                -LIM <= weight_num <= LIM,
                LIM > 0,
        ;
    }
    let q = crate::fixed::div_trunc_signed(prod * weight_num as i128, weight_den as i128);
    let scattered = clamp_i128(q);
    clamp_i128(emit as i128 + scattered as i128)
}

/// The colour `emit + att * light * weight_num / weight_den`, clamped.
fn shade(emit: Color, att: Color, light: Color, weight_num: i64, weight_den: i64) -> (r: Color)
    requires
        color_ok(emit),
        color_ok(att),
        color_ok(light),
        in_lim(weight_num as int),
        1 <= weight_den <= LIM,
    ensures
        r.x == shade_channel(emit.x as int, att.x as int, light.x as int, weight_num as int, weight_den as int),
        r.y == shade_channel(emit.y as int, att.y as int, light.y as int, weight_num as int, weight_den as int),
        r.z == shade_channel(emit.z as int, att.z as int, light.z as int, weight_num as int, weight_den as int),
        color_ok(r),
{
    Vec3::new(
        shade_channel_exec(emit.x, att.x, light.x, weight_num, weight_den),
        shade_channel_exec(emit.y, att.y, light.y, weight_num, weight_den),
        shade_channel_exec(emit.z, att.z, light.z, weight_num, weight_den),
    )
}

fn usable_direction(d: Vec3) -> (b: bool)
    ensures
        b == (d.bounded() && !d.is_zero()),
{
    -LIM <= d.x && d.x <= LIM && -LIM <= d.y && d.y <= LIM && -LIM <= d.z && d.z <= LIM && !(d.x
        == 0 && d.y == 0 && d.z == 0)
}

/// The density of a direction under the mixture of the lights and the
/// material: half of each (the light density clamped into `[0, LIM]`), or the
/// material's alone where the scene has no lights.
pub open spec fn mixture_density(has_lights: bool, light_pdf: int, material_density: int) -> int {
    if has_lights {
        (clamp_density(light_pdf) + material_density) / 2
    } else {
        material_density
    }
}

pub fn mixture_value(has_lights: bool, light_pdf: i64, material_density: i64) -> (d: i64)
    requires
        0 <= material_density <= ONE,
    ensures
        d == mixture_density(has_lights, light_pdf as int, material_density as int),
        0 <= d <= LIM,
{
    if has_lights {
        let l = if light_pdf < 0 {
            0
        } else if light_pdf > LIM {
            LIM
        } else {
            light_pdf
        };
        (l + material_density) / 2
    } else {
        material_density
    }
}

/// The colour `shade` computes, channel by channel.
pub open spec fn shaded(emit: Color, att: Color, light: Color, num: int, den: int) -> Color {
    Vec3 {
        x: shade_channel(emit.x as int, att.x as int, light.x as int, num, den) as i64,
        y: shade_channel(emit.y as int, att.y as int, light.y as int, num, den) as i64,
        z: shade_channel(emit.z as int, att.z as int, light.z as int, num, den) as i64,
    }
}

/// The colour `c` clamped into `[0, LIM]` on every channel.
pub open spec fn clamped(c: Color) -> Color {
    Vec3 {
        x: clamp_channel(c.x as int) as i64,
        y: clamp_channel(c.y as int) as i64,
        z: clamp_channel(c.z as int) as i64,
    }
}

/// One step of the integrator, given what the scene reported: a miss sees
/// the background; a surface that does not scatter gives its emission; a
/// specular scattering gives `emit + att * light`; a diffuse one gives
/// `emit + att * light * material_density / mixture`, or the emission alone
/// where no usable direction was drawn or the mixture density is not in
/// `(0, LIM]`. Emission and attenuation are clamped into `[0, LIM]`.
pub open spec fn radiance_step(
    background: Color,
    hit: Option<HitRecord>,
    emitted: Color,
    scatter: Option<ScatterRecord>,
    has_lights: bool,
    light_pdf: int,
    material_density: int,
    usable: bool,
    light: Color,
) -> Color {
    match hit {
        None => background,
        Some(_) => match scatter {
            None => clamped(emitted),
            Some(sr) => match sr.specular_ray {
                Some(_) => shaded(clamped(emitted), clamped(sr.attenuation), light, ONE as int, ONE as int),
                None => {
                    let d = mixture_density(has_lights, light_pdf, material_density);
                    if sr.pdf.is_none() || !usable || d <= 0 || d > LIM {
                        clamped(emitted)
                    } else {
                        shaded(clamped(emitted), clamped(sr.attenuation), light, material_density, d)
                    }
                },
            },
        },
    }
}

/// Computes `radiance_step`.
pub fn combine(
    background: Color,
    hit: Option<HitRecord>,
    emitted: Color,
    scatter: Option<ScatterRecord>,
    has_lights: bool,
    light_pdf: i64,
    material_density: i64,
    usable: bool,
    light: Color,
) -> (c: Color)
    requires
        color_ok(background),
        color_ok(light),
        0 <= material_density <= ONE,
    ensures
        c == radiance_step(
            background,
            hit,
            emitted,
            scatter,
            has_lights,
            light_pdf as int,
            material_density as int,
            usable,
            light,
        ),
        color_ok(c),
{
    if hit.is_none() {
        return background;
    }
    let emit = clamp_color(emitted);
    let sr = match scatter {
        Some(sr) => sr,
        None => {
            return emit;
        },
    };
    let att = clamp_color(sr.attenuation);
    if sr.specular_ray.is_some() {
        return shade(emit, att, light, ONE, ONE);
    }
    let d = mixture_value(has_lights, light_pdf, material_density);
    if sr.pdf.is_none() || !usable || d <= 0 || d > LIM {
        return emit;
    }
    shade(emit, att, light, material_density, d)
}

/// The ray scattered from the hit point `p` along `dir`, at the time of `r_in`.
pub fn scattered_ray(p: Point3, dir: Vec3, r_in: &Ray) -> (r: Ray)
    ensures
        r == (Ray { orig: p, dir, tm: r_in.tm }),
{
    Ray::new(p, dir, r_in.tm)
}

/// Estimates the radiance arriving along `r` with one random path of at most
/// `depth` bounces: every step is `combine` of what the scene reports, where
/// the light of a specular scattering is the estimate along its ray, and that
/// of a diffuse one the estimate along `scattered_ray` of a direction drawn
/// half and half from the lights and the material (the material alone when
/// there are no lights). A ray that leaves the coordinate range carries no
/// light.
pub fn ray_color<S: Scene>(
    r: &Ray,
    background: Color,
    scene: &S,
    depth: u32,
    rng: &mut StdRng,
) -> (c: Color)
    requires
        color_ok(background),
    ensures
        color_ok(c),
        depth == 0 ==> c.is_zero(),
        depth > 0 && !(r.orig.bounded() && r.dir.bounded()) ==> c.is_zero(),
    decreases depth,
{
    if depth == 0 || !r.orig.in_range() || !r.dir.in_range() {
        return Vec3::black();
    }
    let black = Vec3::black();
    let hit = scene.hit(r, rng);
    let rec = match hit {
        Some(rec) => rec,
        None => {
            return combine(background, hit, black, None, false, 0, 0, false, black);
        },
    };
    let emitted = scene.emitted(&rec);
    let scatter = scene.scatter(r, &rec, rng);
    let sr = match scatter {
        Some(sr) => sr,
        None => {
            return combine(background, hit, emitted, scatter, false, 0, 0, false, black);
        },
    };
    if let Some(specular) = sr.specular_ray {
        let light = ray_color(&specular, background, scene, depth - 1, rng);
        return combine(background, hit, emitted, scatter, false, 0, 0, false, light);
    }
    let pdf = match sr.pdf {
        Some(pdf) => pdf,
        None => {
            return combine(background, hit, emitted, scatter, false, 0, 0, false, black);
        },
    };
    if !pdf.uvw.is_wf() {
        return combine(background, hit, emitted, scatter, false, 0, 0, false, black);
    }
    let lights = scene.has_lights();
    let dir = if lights && random_below(rng, 2) == 0 {
        scene.light_random(rec.p, rng)
    } else {
        scene.cosine_random(&pdf, rng)
    };
    if !usable_direction(dir) {
        return combine(background, hit, emitted, scatter, false, 0, 0, false, black);
    }
    let material_density = pdf.value(dir);
    let light_pdf = if lights {
        scene.light_pdf_value(rec.p, dir)
    } else {
        0
    };
    let density = mixture_value(lights, light_pdf, material_density);
    let light = if density <= 0 || density > LIM {
        black
    } else {
        let scattered = scattered_ray(rec.p, dir, r);
        ray_color(&scattered, background, scene, depth - 1, rng)
    };
    combine(background, hit, emitted, scatter, lights, light_pdf, material_density, true, light)
}

impl Vec3 {
    /// Whether every component lies within `[-LIM, LIM]`.
    pub fn in_range(&self) -> (b: bool)
        ensures
            b == self.bounded(),
    {
        -LIM <= self.x && self.x <= LIM && -LIM <= self.y && self.y <= LIM && -LIM <= self.z
            && self.z <= LIM
    }
}

impl crate::onb::OrthonormalBasis {
    /// Whether the axes are within the bounds that `wf` asks for.
    pub fn is_wf(&self) -> (b: bool)
        ensures
            b == self.wf(),
    {
        let (u, v, w) = (self.u, self.v, self.w);
        let two = 2 * ONE;
        -two <= u.x && u.x <= two && -two <= u.y && u.y <= two && -two <= u.z && u.z <= two
            && -ONE <= v.x && v.x <= ONE && -ONE <= v.y && v.y <= ONE && -ONE <= v.z && v.z <= ONE
            && -ONE <= w.x && w.x <= ONE && -ONE <= w.y && w.y <= ONE && -ONE <= w.z && w.z <= ONE
    }
}

/// The sum of `samples_per_pixel` radiance estimates for pixel `(i, j)` of a
/// `width` by `height` image, each through a random position of the pixel:
/// `s = (i + du) / (width - 1)` and `t = (j + dv) / (height - 1)` with `du`
/// and `dv` uniform in `[0, 1)`.
pub fn render_pixel<S: Scene>(
    scene: &S,
    cam: &Camera,
    background: Color,
    i: u32,
    j: u32,
    width: u32,
    height: u32,
    samples_per_pixel: u32,
    max_depth: u32,
    rng: &mut StdRng,
) -> (sum: Color)
    requires
        cam.wf(),
        color_ok(background),
        2 <= width,
        2 <= height,
        i < width,
        j < height,
        samples_per_pixel <= 1_000_000,
    ensures
        samples_per_pixel == 0 ==> sum.is_zero(),
        0 <= sum.x <= samples_per_pixel * LIM,
        0 <= sum.y <= samples_per_pixel * LIM,
        0 <= sum.z <= samples_per_pixel * LIM,
{
    let mut sum = Vec3::black();
    let mut k: u32 = 0;
    while k < samples_per_pixel
        invariant
            k <= samples_per_pixel,
            samples_per_pixel <= 1_000_000,
            cam.wf(),
            color_ok(background),
            2 <= width,
            2 <= height,
            i < width,
            j < height,
            0 <= sum.x <= k * LIM,
            0 <= sum.y <= k * LIM,
            0 <= sum.z <= k * LIM,
        decreases samples_per_pixel - k,
    {
        let du = random_below(rng, ONE as u64) as i64;
        let dv = random_below(rng, ONE as u64) as i64;
        let (s, t) = pixel_st(i, j, width, height, du, dv);
        let r = cam.get_ray(rng, s, t);
        let c = ray_color(&r, background, scene, max_depth, rng);
        proof {
            assert(k * LIM + LIM == (k + 1) * LIM) by (nonlinear_arith);
            assert((k + 1) * LIM <= 1_000_000 * LIM) by (nonlinear_arith)
                requires
                    k + 1 <= 1_000_000,
            ;
        }
        sum = Vec3::new(sum.x + c.x, sum.y + c.y, sum.z + c.z);
        k = k + 1;
    }
    sum
}

/// The viewport position of pixel `(i, j)` of a `width` by `height` image,
/// moved by the fixed-point fractions `du` and `dv` in `[0, 1)`.
pub fn pixel_st(i: u32, j: u32, width: u32, height: u32, du: i64, dv: i64) -> (st: (i64, i64))
    requires
        2 <= width,
        2 <= height,
        i < width,
        j < height,
        0 <= du < ONE,
        0 <= dv < ONE,
    ensures
        st.0 == (i * ONE + du) / (width - 1),
        st.1 == (j * ONE + dv) / (height - 1),
        0 <= st.0 <= 2 * ONE,
        0 <= st.1 <= 2 * ONE,
{
    proof {
        lemma_jitter_bound(i as int, du as int, width as int);
        lemma_jitter_bound(j as int, dv as int, height as int);
    }
    ((i as i64 * ONE + du) / (width as i64 - 1), (j as i64 * ONE + dv) / (height as i64 - 1))
}

/// A jittered position `(i + d) / (n - 1)` of a pixel of `n` lies in `[0, 2]`.
proof fn lemma_jitter_bound(i: int, d: int, n: int)
    requires
        0 <= i < n,
        n >= 2,
        0 <= d < ONE,
    ensures
        0 <= (i * ONE + d) / (n - 1) <= 2 * ONE,
{
    assert(0 <= (i * ONE + d) / (n - 1) <= 2 * ONE) by (nonlinear_arith)
        requires
            0 <= i <= n - 1,
            n - 1 >= 1,
            0 <= d < ONE,
            ONE > 0,
    ;
}

} // verus!
