use pathtrace::bvh::BVHNode;
use pathtrace::camera::Camera;
use pathtrace::color::write_color;
use pathtrace::cuboid::Cuboid;
use pathtrace::fixed::{LIM, ONE};
use pathtrace::hittable::{AARect, FlipFace, HitRecord, Hittable, Plane, RotateY, Sphere, Translate};
use pathtrace::integrator::{clamp_color, ray_color, render_pixel, Scene};
use pathtrace::material::ScatterRecord;
use pathtrace::pdf::CosinePDF;
use pathtrace::ray::Ray;
use pathtrace::vec3::Vec3;
use rand::rngs::StdRng;
use rand::{Rng, SeedableRng};

fn p(x: i64, y: i64, z: i64) -> Vec3 {
    Vec3::new(x, y, z)
}

/// Materials: 0 emits `glow`, 1 is a half-silvered mirror, 2 is white and diffuse.
struct TestScene {
    world: Hittable,
    glow: Vec3,
    lights: Vec<AARect>,
}

impl Scene for TestScene {
    fn hit(&self, r: &Ray, _rng: &mut StdRng) -> Option<HitRecord> {
        self.world.hit(r, 4, LIM)
    }
    fn emitted(&self, rec: &HitRecord) -> Vec3 {
        if rec.mat == 0 && rec.front_face {
            self.glow
        } else {
            Vec3::black()
        }
    }
    fn scatter(&self, r_in: &Ray, rec: &HitRecord, _rng: &mut StdRng) -> Option<ScatterRecord> {
        match rec.mat {
            1 => Some(ScatterRecord {
                specular_ray: Some(Ray::new(rec.p, pathtrace::vec3::reflect(r_in.dir, rec.normal), r_in.tm)),
                attenuation: p(ONE / 2, ONE / 2, ONE / 2),
                pdf: None,
            }),
            2 => Some(ScatterRecord {
                specular_ray: None,
                attenuation: p(3 * ONE / 4, 3 * ONE / 4, 3 * ONE / 4),
                pdf: Some(CosinePDF::new(rec.normal)),
            }),
            _ => None,
        }
    }
    fn has_lights(&self) -> bool {
        !self.lights.is_empty()
    }
    fn light_pdf_value(&self, origin: Vec3, dir: Vec3) -> i64 {
        let q = &self.lights[0];
        match q.hit(&Ray::new(origin, dir, 0), 4, LIM) {
            Some(rec) => {
                let f = |v: i64| v as f64 / ONE as f64;
                let area = f(q.a1 - q.a0) * f(q.b1 - q.b0);
                let d = [f(dir.x), f(dir.y), f(dir.z)];
                let len2 = d[0] * d[0] + d[1] * d[1] + d[2] * d[2];
                let dist2 = f(rec.t) * f(rec.t) * len2;
                let cos = (d[1] / len2.sqrt()).abs();
                ((dist2 / (cos * area)) * ONE as f64).min(LIM as f64) as i64
            }
            None => 0,
        }
    }
    fn light_random(&self, origin: Vec3, rng: &mut StdRng) -> Vec3 {
        let q = &self.lights[0];
        let a = rng.gen_range(q.a0..q.a1);
        let b = rng.gen_range(q.b0..q.b1);
        p(a - origin.x, q.k - origin.y, b - origin.z)
    }
    fn cosine_random(&self, pdf: &CosinePDF, rng: &mut StdRng) -> Vec3 {
        let r1: f64 = rng.gen();
        let r2: f64 = rng.gen();
        let phi = 2.0 * std::f64::consts::PI * r1;
        let local = p(
            (phi.cos() * r2.sqrt() * ONE as f64) as i64,
            (phi.sin() * r2.sqrt() * ONE as f64) as i64,
            ((1.0 - r2).sqrt() * ONE as f64) as i64,
        );
        pdf.uvw.local(local)
    }
}

fn glowing_ball() -> TestScene {
    TestScene {
        world: Hittable::Sphere(Sphere::new(p(0, 0, -2 * ONE), ONE / 2, 0)),
        glow: p(2 * ONE, ONE, 0),
        lights: Vec::new(),
    }
}

#[test]
fn depth_zero_is_black() {
    let scene = glowing_ball();
    let mut rng = StdRng::seed_from_u64(0);
    let r = Ray::new(p(0, 0, 0), p(0, 0, -ONE), 0);
    assert_eq!(ray_color(&r, p(ONE, ONE, ONE), &scene, 0, &mut rng), Vec3::black());
}

#[test]
fn miss_sees_background_and_emitter_glows() {
    let scene = glowing_ball();
    let mut rng = StdRng::seed_from_u64(0);
    let sky = p(ONE / 2, ONE / 3, ONE);
    let up = Ray::new(p(0, 0, 0), p(0, ONE, 0), 0);
    assert_eq!(ray_color(&up, sky, &scene, 5, &mut rng), sky);
    let ahead = Ray::new(p(0, 0, 0), p(0, 0, -ONE), 0);
    assert_eq!(ray_color(&ahead, sky, &scene, 5, &mut rng), p(2 * ONE, ONE, 0));
}

#[test]
fn mirror_halves_the_light_it_reflects() {
    let mut rng = StdRng::seed_from_u64(0);
    let objects = vec![
        Hittable::Rect(AARect::new(p(-ONE, -ONE, 0), p(ONE, ONE, 0), Plane::Xy, -2 * ONE, 1)),
        Hittable::Sphere(Sphere::new(p(0, 0, 2 * ONE), ONE / 2, 0)),
    ];
    let world = Hittable::Bvh(BVHNode::new(objects, &mut rng).unwrap());
    let scene = TestScene { world, glow: p(2 * ONE, ONE, 0), lights: Vec::new() };
    // from z = 1 toward the mirror at z = -2, back to the glowing ball around z = 2
    let r = Ray::new(p(0, 0, ONE), p(0, 0, -ONE), 0);
    assert_eq!(ray_color(&r, Vec3::black(), &scene, 3, &mut rng), p(ONE, ONE / 2, 0));
    // one bounce too few: the reflected ray is cut off
    assert_eq!(ray_color(&r, Vec3::black(), &scene, 1, &mut rng), Vec3::black());
    assert_eq!(clamp_color(p(-1, LIM + 5, 7)), p(0, LIM, 7));
}

fn cornell_scene(rng: &mut StdRng) -> TestScene {
    let u = |v: i64| v * ONE;
    let lamp = AARect::new(p(u(213), u(227), 0), p(u(343), u(332), 0), Plane::Xz, u(554), 0);
    let box1 = Hittable::Cuboid(Cuboid::new(p(0, 0, 0), p(u(165), u(330), u(165)), 2));
    let box1 = Hittable::RotateY(RotateY::new(box1, 1060, 3956));
    let box1 = Hittable::Translate(Translate::new(box1, p(u(265), 0, u(295))));
    let box2 = Hittable::Cuboid(Cuboid::new(p(0, 0, 0), p(u(165), u(165), u(165)), 2));
    let box2 = Hittable::RotateY(RotateY::new(box2, -1266, 3895));
    let box2 = Hittable::Translate(Translate::new(box2, p(u(130), 0, u(65))));
    let objects = vec![
        Hittable::Rect(AARect::new(p(0, 0, 0), p(u(555), u(555), 0), Plane::Yz, u(555), 2)),
        Hittable::Rect(AARect::new(p(0, 0, 0), p(u(555), u(555), 0), Plane::Yz, 0, 2)),
        Hittable::FlipFace(FlipFace::new(Hittable::Rect(lamp))),
        Hittable::Rect(AARect::new(p(0, 0, 0), p(u(555), u(555), 0), Plane::Xz, 0, 2)),
        Hittable::Rect(AARect::new(p(0, 0, 0), p(u(555), u(555), 0), Plane::Xz, u(555), 2)),
        Hittable::Rect(AARect::new(p(0, 0, 0), p(u(555), u(555), 0), Plane::Xy, u(555), 2)),
        box1,
        box2,
    ];
    let world = Hittable::Bvh(BVHNode::new(objects, rng).unwrap());
    TestScene { world, glow: p(u(15), u(15), u(15)), lights: vec![lamp] }
}

fn cornell_pixel(seed: u64, i: i64, j: i64) -> Vec<u8> {
    let mut rng = StdRng::seed_from_u64(seed);
    let scene = cornell_scene(&mut rng);
    let (w, h) = (16i64, 16i64);
    let half_height = ((40.0f64).to_radians() / 2.0).tan();
    let cam = Camera::new(
        p(278 * ONE, 278 * ONE, -800 * ONE),
        p(278 * ONE, 278 * ONE, 0),
        p(0, ONE, 0),
        (half_height * ONE as f64) as i64,
        ONE,
        0,
        10 * ONE,
        0,
        ONE,
    )
    .unwrap();
    let sum = render_pixel(&scene, &cam, Vec3::black(), i as u32, j as u32, w as u32, h as u32, 4, 2, &mut rng);
    let mut out = Vec::new();
    write_color(&mut out, sum, 4);
    out
}

#[test]
fn cornell_pixel_is_reproducible() {
    let a = cornell_pixel(1, 8, 8);
    let b = cornell_pixel(1, 8, 8);
    assert_eq!(a, b);
    let text = String::from_utf8(a).unwrap();
    let channels: Vec<u32> = text.trim().split(' ').map(|v| v.parse().unwrap()).collect();
    assert_eq!(channels.len(), 3);
    assert!(channels.iter().all(|c| *c <= 255));
    // the value recorded for this seed
    assert_eq!(text, "109 109 109\n");
    // the ceiling sees the one-sided lamp only from behind: with two bounces it stays black
    assert_eq!(String::from_utf8(cornell_pixel(1, 3, 12)).unwrap(), "0 0 0\n");
}

