use pathtrace::constant_medium::{hit_with_media, ConstantMedium};
use pathtrace::fixed::{LIM, ONE};
use pathtrace::hittable::{Hittable, Sphere, Translate};
use pathtrace::integrator::{combine, mixture_value, pixel_st};
use pathtrace::material::{accepts_ball, dielectric_direction, ScatterRecord};
use pathtrace::pdf::{choose_light, lights_density};
use pathtrace::perlin::apply_swaps;
use pathtrace::ray::Ray;
use pathtrace::vec3::Vec3;
use rand::rngs::StdRng;
use rand::SeedableRng;

fn p(x: i64, y: i64, z: i64) -> Vec3 {
    Vec3::new(x, y, z)
}

fn len2(v: Vec3) -> i64 {
    v.x * v.x + v.y * v.y + v.z * v.z
}

#[test]
fn translate_keeps_back_face() {
    let ball = || Hittable::Sphere(Sphere::new(p(0, 0, 0), ONE, 0));
    let r = Ray::new(p(0, 0, 0), p(0, 0, ONE), 0);
    let inner = ball().hit(&r, 4, LIM).unwrap();
    assert!(!inner.front_face);
    let moved = Hittable::Translate(Translate::new(ball(), p(0, 0, 0))).hit(&r, 4, LIM).unwrap();
    assert!(!moved.front_face);
    assert_eq!(moved, inner);
    let turned = Hittable::RotateY(pathtrace::hittable::RotateY::new(ball(), 0, ONE)).hit(&r, 4, LIM).unwrap();
    assert!(!turned.front_face);
    assert_eq!(turned.normal, inner.normal);
}

#[test]
fn sphere_normals_are_unit_length() {
    let tiny = Sphere::new(p(0, 0, 0), 2, 0);
    let r = Ray::new(p(1, 1, -10), p(0, 0, ONE), 0);
    let rec = tiny.hit(&r, -LIM, LIM).unwrap();
    let l = len2(rec.normal);
    assert!(ONE * ONE - 6 * ONE - 3 < l && l < (ONE + 1) * (ONE + 1));
    let u = p(1, 1, 0).unit_vector();
    let l = len2(u) as f64;
    assert!((l.sqrt() / ONE as f64 - 1.0).abs() < 1e-3);
}

#[test]
fn one_integrator_step() {
    let sky = p(ONE / 2, ONE / 2, ONE);
    let black = Vec3::black();
    let glow = p(3 * ONE, 0, -5);
    let light = p(ONE, ONE, ONE);
    assert_eq!(combine(sky, None, glow, None, false, 0, 0, false, light), sky);
    let rec = Sphere::new(p(0, 0, -2 * ONE), ONE, 0).hit(&Ray::new(black, p(0, 0, -ONE), 0), 4, LIM);
    assert!(rec.is_some());
    assert_eq!(combine(sky, rec, glow, None, false, 0, 0, false, light), p(3 * ONE, 0, 0));
    let mirror = ScatterRecord {
        specular_ray: Some(Ray::new(black, p(ONE, 0, 0), 0)),
        attenuation: p(ONE / 2, ONE / 4, 0),
        pdf: None,
    };
    assert_eq!(combine(sky, rec, black, Some(mirror), false, 0, 0, false, light), p(ONE / 2, ONE / 4, 0));
    let diffuse = ScatterRecord {
        specular_ray: None,
        attenuation: p(ONE, ONE, ONE),
        pdf: Some(pathtrace::pdf::CosinePDF::new(p(0, 0, ONE))),
    };
    // material density 0.25 against a mixture (0.75 + 0.25) / 2 = 0.5
    assert_eq!(combine(sky, rec, black, Some(diffuse), true, 3 * ONE / 4, ONE / 4, true, light), p(ONE / 2, ONE / 2, ONE / 2));
    // no lights: the material density alone, so the weight is one
    assert_eq!(combine(sky, rec, black, Some(diffuse), false, 3 * ONE / 4, ONE / 4, true, light), light);
    // no usable direction: the emission alone
    assert_eq!(combine(sky, rec, glow, Some(diffuse), false, 0, ONE / 4, false, light), p(3 * ONE, 0, 0));
    assert_eq!(mixture_value(true, 3 * ONE / 4, ONE / 4), ONE / 2);
    assert_eq!(mixture_value(true, -7, ONE / 4), ONE / 8);
    assert_eq!(mixture_value(false, 3 * ONE / 4, ONE / 4), ONE / 4);
}

#[test]
fn pixel_positions() {
    assert_eq!(pixel_st(0, 0, 16, 16, 0, 0), (0, 0));
    assert_eq!(pixel_st(15, 15, 16, 16, 0, 0), (ONE, ONE));
    assert_eq!(pixel_st(8, 3, 16, 11, ONE / 2, 0), ((8 * ONE + ONE / 2) / 15, 3 * ONE / 10));
}

#[test]
fn shuffle_applies_given_swaps() {
    let mut perm: Vec<usize> = (0..256).collect();
    let mut targets = vec![0usize; 256];
    targets[255] = 0;
    targets[1] = 0;
    for k in 2..255 {
        targets[k] = k - 1;
    }
    apply_swaps(&mut perm, &targets);
    let mut sorted = perm.clone();
    sorted.sort();
    assert_eq!(sorted, (0..256).collect::<Vec<usize>>());
    // position 255 first takes 0; the chain of swaps then walks 255 down
    assert_eq!(perm[255], 0);
    let mut ident: Vec<usize> = (0..256).collect();
    apply_swaps(&mut ident, &(0..256).map(|k| if k == 0 { 0 } else { k - 1 }).collect::<Vec<usize>>());
    assert_eq!(ident[0], 255);
}

#[test]
fn ball_acceptance_and_glass_draws() {
    assert!(accepts_ball(p(0, 0, 0)));
    assert!(accepts_ball(p(ONE / 2, ONE / 2, ONE / 2)));
    assert!(!accepts_ball(p(ONE, 0, 0)));
    assert!(!accepts_ball(p(ONE, ONE, ONE)));
    // head on into glass: Schlick gives about 4%; a low draw reflects, a high one refracts
    let unit = p(0, 0, -ONE);
    let n = p(0, 0, ONE);
    let eta = ONE * ONE / (3 * ONE / 2);
    assert_eq!(dielectric_direction(unit, n, eta, ONE, 0), p(0, 0, ONE));
    assert_eq!(dielectric_direction(unit, n, eta, ONE, ONE - 1), p(0, 0, -ONE));
}

#[test]
fn light_averages_and_media() {
    assert_eq!(lights_density(&vec![ONE, 3 * ONE]), 2 * ONE);
    assert_eq!(lights_density(&vec![-5, 2 * LIM]), LIM / 2);
    assert_eq!(lights_density(&Vec::new()), 0);
    let mut rng = StdRng::seed_from_u64(6);
    for _ in 0..20 {
        assert!(choose_light(&mut rng, 3) < 3);
    }
    let solid = Hittable::Sphere(Sphere::new(p(5 * ONE, 0, 0), ONE, 1));
    let fog = vec![ConstantMedium::new(Hittable::Sphere(Sphere::new(p(0, 0, 0), ONE, 0)), 2)];
    let r = Ray::new(p(-3 * ONE, 0, 0), p(ONE, 0, 0), 0);
    let rec = hit_with_media(&solid, &fog, &vec![ONE / 2], &r, 4, LIM).unwrap();
    assert_eq!(rec.mat, 2);
    assert_eq!(rec.t, 2 * ONE + ONE / 2);
    let rec = hit_with_media(&solid, &fog, &vec![5 * ONE], &r, 4, LIM).unwrap();
    assert_eq!(rec.mat, 1);
    assert_eq!(rec.t, 7 * ONE);
}

#[test]
fn very_fuzzy_metal_and_wide_glass() {
    let floor = pathtrace::hittable::AARect::new(p(-ONE, -ONE, 0), p(ONE, ONE, 0), pathtrace::hittable::Plane::Xz, 0, 0);
    let r = Ray::new(p(0, ONE, 0), p(0, -ONE, 0), 0);
    let rec = floor.hit(&r, 4, LIM).unwrap();
    let metal = pathtrace::material::Metal::new(p(ONE, ONE, ONE), 10 * ONE);
    let mut rng = StdRng::seed_from_u64(12);
    for _ in 0..20 {
        let d = metal.scatter(&r, &rec, &mut rng).specular_ray.unwrap().dir;
        let off = p(d.x, d.y - ONE, d.z);
        assert!(len2(off) <= 100 * ONE * ONE + 100 * ONE);
    }
    // a refractive index of 10 is accepted; head on the ray still goes through or back
    let glass = pathtrace::material::Dielectric::new(10 * ONE);
    let sc = glass.scatter(&r, &rec, &mut rng).specular_ray.unwrap();
    assert!(sc.dir == p(0, ONE, 0) || sc.dir == p(0, -ONE, 0));
}
