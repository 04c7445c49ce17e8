use pathtrace::color::{channel, push_decimal, write_color, write_header};
use pathtrace::fixed::{LIM, ONE};
use pathtrace::hittable::{AARect, Plane, Sphere};
use pathtrace::material::{random_in_unit_sphere, refract, Dielectric, DiffuseLight, Isotropic, Lambertian, Metal};
use pathtrace::onb::OrthonormalBasis;
use pathtrace::pdf::{CosinePDF, PI};
use pathtrace::ray::Ray;
use pathtrace::vec3::Vec3;
use rand::rngs::StdRng;
use rand::SeedableRng;

fn p(x: i64, y: i64, z: i64) -> Vec3 {
    Vec3::new(x, y, z)
}

fn dot(a: Vec3, b: Vec3) -> f64 {
    (a.x as f64 * b.x as f64 + a.y as f64 * b.y as f64 + a.z as f64 * b.z as f64)
        / (ONE as f64 * ONE as f64)
}

#[test]
fn pixel_lines() {
    let mut out = Vec::new();
    write_color(&mut out, p(ONE, ONE, ONE), 4);
    assert_eq!(String::from_utf8(out).unwrap(), "128 128 128\n");

    let mut out = Vec::new();
    write_color(&mut out, p(8 * ONE, 0, -ONE), 2);
    assert_eq!(String::from_utf8(out).unwrap(), "255 0 0\n");

    assert_eq!(channel(ONE, 1), 255);
    assert_eq!(channel(ONE / 100, 1), 25);
    assert_eq!(channel(3 * ONE / 4, 3), 128);
    assert_eq!(channel(0, 7), 0);
}

#[test]
fn header_and_digits() {
    let mut out = Vec::new();
    write_header(&mut out, 16, 16);
    assert_eq!(String::from_utf8(out).unwrap(), "P3\n16 16\n255\n");
    let mut out = Vec::new();
    push_decimal(&mut out, 0);
    push_decimal(&mut out, 9);
    push_decimal(&mut out, 10);
    push_decimal(&mut out, 4096);
    assert_eq!(String::from_utf8(out).unwrap(), "09104096");
}

#[test]
fn basis_is_orthonormal_up_to_rounding() {
    let normals = [p(0, 0, ONE), p(ONE, 0, 0), p(3, -7, 11), p(-ONE, 2 * ONE, ONE / 3), p(5 * ONE, ONE, 0)];
    for n in normals.iter() {
        let b = OrthonormalBasis::from_w(*n);
        let (u, v, w) = (b.u(), b.v(), b.w());
        for a in [u, v, w].iter() {
            assert!((dot(*a, *a) - 1.0).abs() < 2e-3);
        }
        assert!(dot(u, v).abs() < 2e-3);
        assert!(dot(u, w).abs() < 2e-3);
        assert!(dot(v, w).abs() < 2e-3);
        // w is parallel to n
        let nn = dot(*n, *n).sqrt();
        assert!((dot(w, *n) / nn - 1.0).abs() < 2e-3);
    }
    let b = OrthonormalBasis::from_w(p(0, 0, 2 * ONE));
    assert_eq!(b.w(), p(0, 0, ONE));
    assert_eq!(b.v(), p(0, ONE, 0));
    assert_eq!(b.u(), p(-ONE, 0, 0));
    assert_eq!(b.local(p(ONE, 2 * ONE, 3 * ONE)), p(-ONE, 2 * ONE, 3 * ONE));
}

#[test]
fn cosine_density() {
    let pdf = CosinePDF::new(p(0, 0, ONE));
    assert_eq!(pdf.value(p(0, 0, 5 * ONE)), ONE * ONE / PI);
    assert_eq!(pdf.value(p(0, 0, -ONE)), 0);
    assert_eq!(pdf.value(p(ONE, 0, 0)), 0);
    assert_eq!(PI, 12868);
    // local directions with a non-negative third coordinate stay in the upper hemisphere
    let tilted = CosinePDF::new(p(ONE, ONE, 0));
    for a in [p(0, 0, ONE), p(ONE, 0, ONE / 10), p(-ONE, ONE, ONE / 2), p(0, -ONE, 0)].iter() {
        let d = tilted.uvw.local(*a);
        assert!(dot(d, tilted.uvw.w()) >= -1e-3);
    }
}

#[test]
fn dielectric_total_internal_reflection() {
    let s = Sphere::new(p(0, 0, 0), ONE / 2, 0);
    let glass = Dielectric::new(3 * ONE / 2);
    // from inside, heading up past the critical angle
    let r = Ray::new(p(2 * ONE / 5, 0, 0), p(0, ONE, 0), 0);
    let rec = s.hit(&r, 4, LIM).unwrap();
    assert!(!rec.front_face);
    for seed in 0..20 {
        let mut rng = StdRng::seed_from_u64(seed);
        let sc = glass.scatter(&r, &rec, &mut rng);
        let ray = sc.specular_ray.unwrap();
        assert_eq!(ray.orig, rec.p);
        assert_eq!(sc.attenuation, p(ONE, ONE, ONE));
        assert!(sc.pdf.is_none());
        // reflected: it stays on the inner side of the surface
        assert!(dot(ray.dir, rec.normal) > 0.0);
        let expect = [-0.96, 0.28, 0.0];
        let got = [ray.dir.x as f64 / ONE as f64, ray.dir.y as f64 / ONE as f64, ray.dir.z as f64 / ONE as f64];
        for i in 0..3 {
            assert!((got[i] - expect[i]).abs() < 1e-2);
        }
    }
}

#[test]
fn dielectric_head_on_refracts_or_reflects() {
    let s = Sphere::new(p(0, 0, -2 * ONE), ONE / 2, 0);
    let glass = Dielectric::new(3 * ONE / 2);
    let r = Ray::new(p(0, 0, 0), p(0, 0, -ONE), 0);
    let rec = s.hit(&r, 4, LIM).unwrap();
    let mut refracted = 0;
    for seed in 0..40 {
        let mut rng = StdRng::seed_from_u64(seed);
        let ray = glass.scatter(&r, &rec, &mut rng).specular_ray.unwrap();
        if ray.dir.z < 0 {
            refracted += 1;
            assert_eq!(ray.dir, p(0, 0, -ONE));
        } else {
            assert_eq!(ray.dir, p(0, 0, ONE));
        }
    }
    // Schlick gives 4% reflection head on
    assert!(refracted > 30);
}

#[test]
fn refract_straight_through() {
    assert_eq!(refract(p(0, 0, -ONE), p(0, 0, ONE), 2 * ONE / 3), p(0, 0, -ONE));
    let d = refract(p(2896, 0, -2896), p(0, 0, ONE), ONE);
    assert!((d.x - 2896).abs() <= 2 && (d.z + 2896).abs() <= 2);
}

#[test]
fn cosine_density_integrates_to_one() {
    let pdf = CosinePDF::new(p(0, ONE, 0));
    let steps = 200;
    let mut total = 0.0;
    for a in 0..steps {
        let theta = (a as f64 + 0.5) / steps as f64 * std::f64::consts::FRAC_PI_2;
        for b in 0..steps {
            let phi = (b as f64 + 0.5) / steps as f64 * 2.0 * std::f64::consts::PI;
            let d = p(
                (theta.sin() * phi.cos() * ONE as f64) as i64,
                (theta.cos() * ONE as f64) as i64,
                (theta.sin() * phi.sin() * ONE as f64) as i64,
            );
            if d.x == 0 && d.y == 0 && d.z == 0 {
                continue;
            }
            let density = pdf.value(d) as f64 / ONE as f64;
            let solid_angle = theta.sin() * (std::f64::consts::FRAC_PI_2 / steps as f64) * (2.0 * std::f64::consts::PI / steps as f64);
            total += density * solid_angle;
        }
    }
    assert!((total - 1.0).abs() < 0.01, "integral was {}", total);
}

#[test]
fn dielectric_grazing_entry_reflects_sometimes() {
    let glass = Dielectric::new(3 * ONE / 2);
    // a wide plane of glass seen from above at a grazing angle
    let s = Sphere::new(p(0, -1000 * ONE, 0), 1000 * ONE, 0);
    let r = Ray::new(p(-10 * ONE, ONE / 2, 0), p(ONE, -ONE / 20, 0), 0);
    let rec = s.hit(&r, 4, LIM).unwrap();
    assert!(rec.front_face);
    let (mut up, mut down) = (0, 0);
    for seed in 0..40 {
        let mut rng = StdRng::seed_from_u64(seed);
        let ray = glass.scatter(&r, &rec, &mut rng).specular_ray.unwrap();
        if ray.dir.y > 0 {
            up += 1;
        } else {
            down += 1;
        }
    }
    assert!(up > 0 && down > 0, "reflected {} refracted {}", up, down);
}

#[test]
fn perlin_tables_are_permutations() {
    let mut rng = StdRng::seed_from_u64(5);
    let noise = pathtrace::perlin::Perlin::new(&mut rng);
    for perm in [&noise.perm_x, &noise.perm_y, &noise.perm_z].iter() {
        let mut sorted = (*perm).clone();
        sorted.sort();
        assert_eq!(sorted, (0..256).collect::<Vec<usize>>());
    }
    assert_ne!(noise.perm_x, (0..256).collect::<Vec<usize>>());
    assert_eq!(noise.ran_vec.len(), 256);
    assert!(noise.ran_vec.iter().all(|v| v.x.abs() <= ONE && v.y.abs() <= ONE && v.z.abs() <= ONE));
    let p = pathtrace::perlin::Perlin::perlin_generate_perm(&mut rng);
    assert_eq!(p.len(), 256);
}

#[test]
fn rect_light_sampling() {
    let lamp = AARect::new(p(0, 0, 0), p(2 * ONE, 2 * ONE, 0), Plane::Xz, 2 * ONE, 0);
    // straight up from below the center: distance 2, cos 1, area 4 gives density 1
    assert_eq!(lamp.pdf_value(p(ONE, 0, ONE), p(0, ONE, 0)), ONE);
    assert_eq!(lamp.pdf_value(p(ONE, 0, ONE), p(0, -ONE, 0)), 0);
    let mut rng = StdRng::seed_from_u64(9);
    for _ in 0..20 {
        let d = lamp.random(&mut rng, p(ONE, 0, ONE));
        assert_eq!(d.y, 2 * ONE);
        assert!(d.x >= -ONE && d.x < ONE && d.z >= -ONE && d.z < ONE);
    }
}

#[test]
fn sphere_light_density() {
    let lamp = Sphere::new(p(0, 2 * ONE, 0), ONE, 0);
    let d = lamp.pdf_value(p(0, 0, 0), p(0, ONE, 0));
    assert_eq!(d, 4864);
    let exact = 1.0 / (2.0 * std::f64::consts::PI * (1.0 - (0.75f64).sqrt()));
    assert!((d as f64 / ONE as f64 - exact).abs() < 0.01);
    assert_eq!(lamp.pdf_value(p(0, 0, 0), p(ONE, 0, 0)), 0);
}

#[test]
fn solid_color_is_uniform() {
    let t = pathtrace::texture::SolidColor::new(p(ONE, ONE / 2, 0));
    assert_eq!(t.value(0, 0, p(0, 0, 0)), p(ONE, ONE / 2, 0));
    assert_eq!(t.value(ONE, ONE / 3, p(5, -7, 9)), p(ONE, ONE / 2, 0));
}

#[test]
fn metal_reflects_with_fuzz() {
    let plane = AARect::new(p(-ONE, -ONE, 0), p(ONE, ONE, 0), Plane::Xz, 0, 0);
    let r = Ray::new(p(-ONE / 2, ONE / 2, 0), p(ONE, -ONE, 0), 0);
    let rec = plane.hit(&r, 4, LIM).unwrap();
    let mirror = Metal::new(p(ONE, ONE / 2, 0), 0);
    let mut rng = StdRng::seed_from_u64(2);
    let sc = mirror.scatter(&r, &rec, &mut rng);
    let ray = sc.specular_ray.unwrap();
    assert_eq!(sc.attenuation, p(ONE, ONE / 2, 0));
    assert_eq!(ray.orig, rec.p);
    // the unit direction (1, -1) / sqrt 2 comes back as (1, 1) / sqrt 2
    assert_eq!(ray.dir, p(2896, 2896, 0));
    let rough = Metal::new(p(ONE, ONE, ONE), ONE / 2);
    for _ in 0..20 {
        let d = rough.scatter(&r, &rec, &mut rng).specular_ray.unwrap().dir;
        let (dx, dy, dz) = ((d.x - 2896) as f64, (d.y - 2896) as f64, d.z as f64);
        assert!((dx * dx + dy * dy + dz * dz).sqrt() <= ONE as f64 / 2.0 + 2.0);
    }
    for _ in 0..20 {
        let b = random_in_unit_sphere(&mut rng);
        assert!(b.x * b.x + b.y * b.y + b.z * b.z < ONE * ONE);
    }
}

#[test]
fn lambertian_light_and_fog() {
    let floor = AARect::new(p(-ONE, -ONE, 0), p(ONE, ONE, 0), Plane::Xz, 0, 0);
    let r = Ray::new(p(0, ONE, 0), p(0, -ONE, 0), 7);
    let rec = floor.hit(&r, 4, LIM).unwrap();
    let matte = Lambertian::new_rgb(ONE / 2, ONE / 4, 0);
    let sc = matte.scatter(&rec);
    assert!(sc.specular_ray.is_none());
    assert_eq!(sc.attenuation, p(ONE / 2, ONE / 4, 0));
    assert_eq!(sc.pdf.unwrap().uvw.w(), p(0, ONE, 0));
    let up = Ray::new(rec.p, p(0, 3 * ONE, 0), 7);
    assert_eq!(matte.scattering_pdf(&rec, &up), ONE * ONE / PI);
    let down = Ray::new(rec.p, p(0, -ONE, 0), 7);
    assert_eq!(matte.scattering_pdf(&rec, &down), 0);

    // the scattering density integrates to one over the hemisphere
    let steps = 100;
    let mut total = 0.0;
    for a in 0..steps {
        let theta = (a as f64 + 0.5) / steps as f64 * std::f64::consts::FRAC_PI_2;
        for b in 0..steps {
            let phi = (b as f64 + 0.5) / steps as f64 * 2.0 * std::f64::consts::PI;
            let d = p(
                (theta.sin() * phi.cos() * ONE as f64) as i64,
                (theta.cos() * ONE as f64) as i64,
                (theta.sin() * phi.sin() * ONE as f64) as i64,
            );
            let density = matte.scattering_pdf(&rec, &Ray::new(rec.p, d, 0)) as f64 / ONE as f64;
            total += density * theta.sin() * (std::f64::consts::FRAC_PI_2 / steps as f64) * (2.0 * std::f64::consts::PI / steps as f64);
        }
    }
    assert!((total - 1.0).abs() < 0.01, "integral was {}", total);

    let lamp = DiffuseLight::white(4 * ONE);
    assert_eq!(lamp.emitted(&rec), p(4 * ONE, 4 * ONE, 4 * ONE));
    let below = floor.hit(&Ray::new(p(0, -ONE, 0), p(0, ONE, 0), 0), 4, LIM).unwrap();
    assert!(!below.front_face);
    assert_eq!(lamp.emitted(&below), p(0, 0, 0));
    assert_eq!(DiffuseLight::from_color(p(1, 2, 3)).emit.color_value, p(1, 2, 3));

    let fog = Isotropic::from_color(p(ONE, ONE, ONE));
    let mut rng = StdRng::seed_from_u64(8);
    let sc = fog.scatter(&r, &rec, &mut rng);
    let ray = sc.specular_ray.unwrap();
    assert_eq!(ray.orig, rec.p);
    assert_eq!(ray.tm, 7);
    assert!(ray.dir.x * ray.dir.x + ray.dir.y * ray.dir.y + ray.dir.z * ray.dir.z < ONE * ONE);
    assert_eq!(sc.attenuation, p(ONE, ONE, ONE));
    assert_eq!(Lambertian::from_color(p(1, 1, 1)), Lambertian::new(pathtrace::texture::SolidColor::new(p(1, 1, 1))));
}
