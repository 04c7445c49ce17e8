use pathtrace::aabb::AABB;
use pathtrace::camera::Camera;
use rand::SeedableRng;
use pathtrace::constant_medium::ConstantMedium;
use pathtrace::fixed::{LIM, ONE};
use pathtrace::hittable::{Hittable, RotateY, Sphere};
use pathtrace::moving_sphere::MovingSphere;
use pathtrace::ray::Ray;
use pathtrace::vec3::Vec3;

const T_MIN: i64 = 4;

fn p(x: i64, y: i64, z: i64) -> Vec3 {
    Vec3::new(x, y, z)
}

#[test]
fn rotate_quarter_turn() {
    let inner = Hittable::Sphere(Sphere::new(p(2 * ONE, 0, 0), ONE, 4));
    let rt = RotateY::new(inner, ONE, 0);
    assert_eq!(rt.bbox, Some(AABB::new(p(-ONE, -ONE, -3 * ONE), p(ONE, ONE, -ONE))));
    let h = Hittable::RotateY(rt);
    let r = Ray::new(p(0, 0, 0), p(0, 0, -ONE), 0);
    let rec = h.hit(&r, T_MIN, LIM).unwrap();
    assert_eq!(rec.t, ONE);
    assert_eq!(rec.p, p(0, 0, -ONE));
    assert_eq!(rec.normal, p(0, 0, ONE));
    assert!(rec.front_face);
    assert_eq!(rec.mat, 4);
    let miss = Ray::new(p(0, 0, 0), p(ONE, 0, 0), 0);
    assert!(h.hit(&miss, T_MIN, LIM).is_none());
}

#[test]
fn rotate_there_and_back() {
    let (s, c) = (2048, 3547);
    let make = || Hittable::Sphere(Sphere::new(p(ONE, ONE / 2, -3 * ONE), ONE, 0));
    let both = Hittable::RotateY(RotateY::new(Hittable::RotateY(RotateY::new(make(), s, c)), -s, c));
    let plain = make();
    let rays = [
        Ray::new(p(0, 0, 0), p(ONE / 3, ONE / 6, -ONE), 0),
        Ray::new(p(ONE, ONE / 2, 0), p(0, 0, -ONE), 0),
        Ray::new(p(-2 * ONE, 0, -3 * ONE), p(ONE, ONE / 5, 0), 0),
    ];
    for r in rays.iter() {
        let a = plain.hit(r, T_MIN, LIM).unwrap();
        let b = both.hit(r, T_MIN, LIM).unwrap();
        assert!((a.t - b.t).abs() <= 16);
        assert!((a.p.x - b.p.x).abs() <= 16 && (a.p.y - b.p.y).abs() <= 16 && (a.p.z - b.p.z).abs() <= 16);
        assert!((a.normal.x - b.normal.x).abs() <= 16);
        assert!((a.normal.z - b.normal.z).abs() <= 16);
        assert_eq!(a.front_face, b.front_face);
    }
}

#[test]
fn moving_sphere_follows_time() {
    let m = MovingSphere::new(p(0, 0, -ONE), p(0, ONE, -ONE), 0, ONE, ONE / 2, 1);
    assert_eq!(m.center(ONE / 2), Some(p(0, ONE / 2, -ONE)));
    assert_eq!(m.center(0), Some(p(0, 0, -ONE)));
    let r = Ray::new(p(0, ONE / 2, 0), p(0, 0, -ONE), ONE / 2);
    let rec = m.hit(&r, T_MIN, LIM).unwrap();
    assert_eq!(rec.t, ONE / 2);
    assert_eq!(rec.normal, p(0, 0, ONE));
    // at time zero the sphere has not moved up yet and the same ray just grazes past it
    let early = Ray::new(p(0, ONE / 2, 0), p(0, 0, -ONE), 0);
    assert!(m.hit(&early, T_MIN, LIM).is_none());
    assert_eq!(m.bounding_box(), AABB::new(p(-ONE / 2, -ONE / 2, -3 * ONE / 2), p(ONE / 2, 3 * ONE / 2, -ONE / 2)));
    let still = MovingSphere::new(p(0, 0, -ONE), p(0, ONE, -ONE), ONE, ONE, ONE / 2, 1);
    assert_eq!(still.center(0), None);
    let h = Hittable::MovingSphere(m);
    assert_eq!(h.hit(&r, T_MIN, LIM), Some(rec));
}

#[test]
fn medium_scatters_after_free_flight() {
    let fog = ConstantMedium::new(Hittable::Sphere(Sphere::new(p(0, 0, 0), ONE, 0)), 9);
    let r = Ray::new(p(-3 * ONE, 0, 0), p(ONE, 0, 0), 0);
    let rec = fog.hit(&r, T_MIN, LIM, ONE / 2).unwrap();
    assert_eq!(rec.t, 2 * ONE + ONE / 2);
    assert_eq!(rec.p, p(-ONE / 2, 0, 0));
    assert_eq!(rec.normal, p(-ONE, 0, 0));
    assert!(rec.front_face);
    assert_eq!(rec.mat, 9);
    assert_eq!((rec.u, rec.v), (0, 0));
    // a flight longer than the chord passes through
    assert!(fog.hit(&r, T_MIN, LIM, 3 * ONE).is_none());
    // the stretch is clipped to the interval
    assert!(fog.hit(&r, T_MIN, 2 * ONE, 0).is_none());
    assert_eq!(fog.bounding_box(), Some(AABB::new(p(-ONE, -ONE, -ONE), p(ONE, ONE, ONE))));
}

#[test]
fn cuboid_reports_nearest_side() {
    let c = pathtrace::cuboid::Cuboid::new(p(0, 0, 0), p(ONE, ONE, ONE), 2);
    let r = Ray::new(p(ONE / 2, ONE / 2, 3 * ONE), p(0, 0, -ONE), 0);
    let rec = c.hit(&r, T_MIN, LIM).unwrap();
    assert_eq!(rec.t, 2 * ONE);
    assert_eq!(rec.p, p(ONE / 2, ONE / 2, ONE));
    assert_eq!(rec.normal, p(0, 0, ONE));
    assert!(rec.front_face);
    let side = Ray::new(p(-2 * ONE, ONE / 4, ONE / 2), p(ONE, 0, 0), 0);
    let rec = c.hit(&side, T_MIN, LIM).unwrap();
    assert_eq!(rec.t, 2 * ONE);
    assert_eq!(rec.normal, p(-ONE, 0, 0));
    assert!(!rec.front_face);
    assert_eq!(c.bounding_box(), AABB::new(p(0, 0, 0), p(ONE, ONE, ONE)));
    let h = Hittable::Cuboid(c);
    assert_eq!(h.hit(&r, T_MIN, LIM).unwrap().t, 2 * ONE);
}

#[test]
fn camera_center_ray() {
    let cam = Camera::new(p(0, 0, 0), p(0, 0, -ONE), p(0, ONE, 0), ONE, ONE, 0, ONE, 0, ONE).unwrap();
    assert_eq!(cam.w, p(0, 0, ONE));
    assert_eq!(cam.u, p(ONE, 0, 0));
    assert_eq!(cam.v, p(0, ONE, 0));
    assert_eq!(cam.horizontal, p(2 * ONE, 0, 0));
    assert_eq!(cam.vertical, p(0, 2 * ONE, 0));
    assert_eq!(cam.lower_left_corner, p(-ONE, -ONE, -ONE));
    let mut rng = rand::rngs::StdRng::seed_from_u64(3);
    let r = cam.get_ray(&mut rng, ONE / 2, ONE / 2);
    assert_eq!(r.orig, p(0, 0, 0));
    assert_eq!(r.dir, p(0, 0, -ONE));
    assert!(r.tm >= 0 && r.tm < ONE);
    let corner = cam.get_ray(&mut rng, 0, ONE);
    assert_eq!(corner.dir, p(-ONE, ONE, -ONE));
    // a camera looking straight along its up direction has no basis
    assert!(Camera::new(p(0, 0, 0), p(0, ONE, 0), p(0, ONE, 0), ONE, ONE, 0, ONE, 0, ONE).is_none());
    // a lens of radius one shifts the origin by less than one unit
    let lens = Camera::new(p(0, 0, 0), p(0, 0, -ONE), p(0, ONE, 0), ONE, ONE, 2 * ONE, ONE, 0, 0).unwrap();
    for _ in 0..20 {
        let r = lens.get_ray(&mut rng, ONE / 2, ONE / 2);
        assert!(r.orig.x * r.orig.x + r.orig.y * r.orig.y < ONE * ONE);
        assert_eq!(r.orig.z, 0);
        assert_eq!(r.tm, 0);
    }
}

#[test]
fn well_formedness_checks() {
    let mut rng = rand::rngs::StdRng::seed_from_u64(4);
    assert!(Hittable::Sphere(Sphere::new(p(0, 0, 0), ONE, 0)).is_wf());
    assert!(!Hittable::Sphere(Sphere::new(p(LIM, 0, 0), ONE, 0)).is_wf());
    let turned = Hittable::RotateY(RotateY::new(Hittable::Sphere(Sphere::new(p(ONE, 0, 0), ONE, 0)), 2048, 3547));
    assert!(turned.is_wf());
    let objects = vec![turned, Hittable::Cuboid(pathtrace::cuboid::Cuboid::new(p(0, 0, 0), p(ONE, ONE, ONE), 1))];
    let tree = Hittable::Bvh(pathtrace::bvh::BVHNode::new(objects, &mut rng).unwrap());
    assert!(tree.is_wf());
    let lopsided = RotateY { inner: Box::new(Hittable::Sphere(Sphere::new(p(0, 0, 0), ONE, 0))), sin_theta: 0, cos_theta: ONE, bbox: None };
    assert!(!Hittable::RotateY(lopsided).is_wf());
}
