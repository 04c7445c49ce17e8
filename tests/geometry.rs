use pathtrace::aabb::{surrounding_box, AABB};
use pathtrace::bvh::{BVHNode, BvhError};
use pathtrace::fixed::{LIM, ONE};
use pathtrace::hittable::{AARect, FlipFace, Hittable, Plane, Sphere, Translate};
use pathtrace::hittable_list::HittableList;
use pathtrace::ray::Ray;
use pathtrace::vec3::Vec3;
use rand::rngs::StdRng;
use rand::SeedableRng;

const T_MIN: i64 = 4;

fn p(x: i64, y: i64, z: i64) -> Vec3 {
    Vec3::new(x, y, z)
}

fn unit_sphere_at(x: i64, mat: usize) -> Hittable {
    Hittable::Sphere(Sphere::new(p(x * ONE, 0, 0), ONE, mat))
}

#[test]
fn sphere_center_ray() {
    let s = Sphere::new(p(0, 0, -ONE), ONE / 2, 0);
    let r = Ray::new(p(0, 0, 0), p(0, 0, -ONE), 0);
    let rec = s.hit(&r, T_MIN, LIM).expect("the ray meets the sphere");
    assert_eq!(rec.t, ONE / 2);
    assert_eq!(rec.p, p(0, 0, -ONE / 2));
    assert_eq!(rec.normal, p(0, 0, ONE));
    assert!(rec.front_face);
    assert!(rec.t > T_MIN && rec.t < LIM);
}

#[test]
fn sphere_miss() {
    let s = Sphere::new(p(0, 0, -ONE), ONE / 2, 0);
    let r = Ray::new(p(0, 2 * ONE, 0), p(0, 0, -ONE), 0);
    assert!(s.hit(&r, T_MIN, LIM).is_none());
}

#[test]
fn sphere_hit_from_inside_is_back_face() {
    let s = Sphere::new(p(0, 0, 0), ONE, 0);
    let r = Ray::new(p(0, 0, 0), p(ONE, 0, 0), 0);
    let rec = s.hit(&r, T_MIN, LIM).unwrap();
    assert_eq!(rec.t, ONE);
    assert!(!rec.front_face);
    assert_eq!(rec.normal, p(-ONE, 0, 0));
}

#[test]
fn negative_radius_turns_normal_inward() {
    let s = Sphere::new(p(0, 0, -ONE), -ONE / 2, 0);
    let r = Ray::new(p(0, 0, 0), p(0, 0, -ONE), 0);
    let rec = s.hit(&r, T_MIN, LIM).unwrap();
    assert_eq!(rec.t, ONE / 2);
    assert!(!rec.front_face);
    assert_eq!(rec.normal, p(0, 0, ONE));
    let b = s.bounding_box();
    assert_eq!(b.min, p(-ONE / 2, -ONE / 2, -3 * ONE / 2));
    assert_eq!(b.max, p(ONE / 2, ONE / 2, -ONE / 2));
}

#[test]
fn aabb_slab_miss() {
    let b = AABB::new(p(0, 0, 0), p(ONE, ONE, ONE));
    let r = Ray::new(p(-ONE, ONE / 2, ONE / 2), p(0, ONE, 0), 0);
    assert!(!b.hit(&r, T_MIN, LIM));
}

#[test]
fn aabb_slab_hit_and_interval() {
    let b = AABB::new(p(0, 0, 0), p(ONE, ONE, ONE));
    let r = Ray::new(p(-ONE, ONE / 2, ONE / 2), p(ONE, 0, 0), 0);
    assert!(b.hit(&r, T_MIN, LIM));
    // the ray enters at t = 1 and leaves at t = 2
    assert!(!b.hit(&r, T_MIN, ONE));
    assert!(!b.hit(&r, 2 * ONE, LIM));
    assert!(b.hit(&r, ONE + ONE / 2, LIM));
}

#[test]
fn aabb_hit_from_inside_any_direction() {
    let b = AABB::new(p(0, 0, 0), p(ONE, ONE, ONE));
    let dirs = [
        p(ONE, 0, 0),
        p(-ONE, 0, 0),
        p(0, 0, -ONE),
        p(3, -7, 11),
        p(-ONE, -ONE, -ONE),
        p(0, 0, 0),
    ];
    for d in dirs.iter() {
        let r = Ray::new(p(ONE / 3, ONE / 2, ONE / 5), *d, 0);
        assert!(b.hit(&r, -ONE, ONE));
    }
}

#[test]
fn surrounding_box_contains_both() {
    let a = AABB::new(p(0, -ONE, 2), p(ONE, 0, 5));
    let b = AABB::new(p(-3, 4, 1), p(2, 5, 3 * ONE));
    let u = surrounding_box(a, b);
    assert_eq!(u.min(), p(-3, -ONE, 1));
    assert_eq!(u.max(), p(ONE, 5, 3 * ONE));
    for bx in [a, b].iter() {
        assert!(u.min.x <= bx.min.x && u.min.y <= bx.min.y && u.min.z <= bx.min.z);
        assert!(bx.max.x <= u.max.x && bx.max.y <= u.max.y && bx.max.z <= u.max.z);
    }
    let d = AABB::default();
    assert_eq!(d.min(), Vec3::origin());
    assert_eq!(d.max(), Vec3::origin());
}

#[test]
fn bvh_three_spheres_nearest() {
    let mut rng = StdRng::seed_from_u64(7);
    let objects = vec![unit_sphere_at(0, 1), unit_sphere_at(2, 2), unit_sphere_at(-2, 0)];
    let node = BVHNode::new(objects, &mut rng).expect("every sphere has a box");
    let world = Hittable::Bvh(node);
    let r = Ray::new(p(-10 * ONE, 0, 0), p(ONE, 0, 0), 0);
    let rec = world.hit(&r, T_MIN, LIM).unwrap();
    assert_eq!(rec.mat, 0);
    // the sphere of radius one at x = -2 is met where x = -3
    assert_eq!(rec.t, 7 * ONE);
    assert_eq!(rec.p, p(-3 * ONE, 0, 0));
}

fn check_node(h: &Hittable) {
    if let Hittable::Bvh(n) = h {
        let bl = n.left.bounding_box().unwrap();
        let br = n.right.bounding_box().unwrap();
        for b in [bl, br].iter() {
            assert!(n.bbox.min.x <= b.min.x && n.bbox.min.y <= b.min.y && n.bbox.min.z <= b.min.z);
            assert!(b.max.x <= n.bbox.max.x && b.max.y <= n.bbox.max.y && b.max.z <= n.bbox.max.z);
        }
        check_node(&n.left);
        check_node(&n.right);
    }
}

#[test]
fn bvh_nodes_contain_children() {
    let mut rng = StdRng::seed_from_u64(11);
    let mut objects = Vec::new();
    for i in 0..9 {
        objects.push(Hittable::Sphere(Sphere::new(p((i - 4) * ONE, (i % 3) * ONE, -(i % 2) * ONE), ONE / 3, i as usize)));
    }
    let node = BVHNode::new(objects, &mut rng).unwrap();
    let world = Hittable::Bvh(node);
    check_node(&world);
    let r = Ray::new(p(-10 * ONE, 0, 0), p(ONE, 0, 0), 0);
    let rec = world.hit(&r, T_MIN, LIM).unwrap();
    assert_eq!(rec.mat, 0);
}

#[test]
fn bvh_errors() {
    let mut rng = StdRng::seed_from_u64(1);
    assert_eq!(BVHNode::new(Vec::new(), &mut rng).err(), Some(BvhError::Empty));
    let far = Translate::new(unit_sphere_at(0, 0), p(LIM, 0, 0));
    let objects = vec![unit_sphere_at(0, 0), Hittable::Translate(far)];
    assert_eq!(BVHNode::new(objects, &mut rng).err(), Some(BvhError::MissingBox));
    let single = BVHNode::new_with_list(
        {
            let mut l = HittableList::new();
            l.add(unit_sphere_at(0, 3));
            l
        },
        &mut rng,
    )
    .unwrap();
    assert_eq!(single.bbox, AABB::new(p(-ONE, -ONE, -ONE), p(ONE, ONE, ONE)));
}

#[test]
fn list_reports_nearest_hit() {
    let mut list = HittableList::new();
    list.add(unit_sphere_at(2, 2));
    list.add(unit_sphere_at(-2, 0));
    list.add(unit_sphere_at(0, 1));
    let r = Ray::new(p(-10 * ONE, 0, 0), p(ONE, 0, 0), 0);
    let rec = list.hit(&r, T_MIN, LIM).unwrap();
    assert_eq!(rec.mat, 0);
    assert_eq!(rec.t, 7 * ONE);
    let b = list.bounding_box().unwrap();
    assert_eq!(b, AABB::new(p(-3 * ONE, -ONE, -ONE), p(3 * ONE, ONE, ONE)));
    assert!(HittableList::new().bounding_box().is_none());
}

#[test]
fn rect_hit_and_uv() {
    let q = AARect::from_corner(p(0, 0, 0), p(2 * ONE, 0, 4 * ONE), Plane::Xz, ONE, 5);
    let r = Ray::new(p(ONE / 2, 3 * ONE, ONE), p(0, -ONE, 0), 0);
    let rec = q.hit(&r, T_MIN, LIM).unwrap();
    assert_eq!(rec.t, 2 * ONE);
    assert_eq!(rec.p, p(ONE / 2, ONE, ONE));
    assert_eq!(rec.u, ONE / 4);
    assert_eq!(rec.v, ONE / 4);
    assert_eq!(rec.normal, p(0, ONE, 0));
    assert!(rec.front_face);
    assert_eq!(rec.mat, 5);
    let b = q.bounding_box();
    assert_eq!(b.min, p(0, ONE - 1, 0));
    assert_eq!(b.max, p(2 * ONE, ONE + 1, 4 * ONE));
    let beside = Ray::new(p(3 * ONE, 3 * ONE, ONE), p(0, -ONE, 0), 0);
    assert!(q.hit(&beside, T_MIN, LIM).is_none());
    let parallel = Ray::new(p(ONE / 2, 3 * ONE, ONE), p(ONE, 0, 0), 0);
    assert!(q.hit(&parallel, T_MIN, LIM).is_none());
    let xy = AARect::new(p(0, 0, 0), p(ONE, ONE, 0), Plane::Xy, 0, 0);
    assert_eq!((xy.a0, xy.a1, xy.b0, xy.b1), (0, ONE, 0, ONE));
}

#[test]
fn flip_face_twice_is_identity() {
    let rect = || Hittable::Rect(AARect::new(p(0, 0, 0), p(ONE, ONE, 0), Plane::Xy, 0, 0));
    let r = Ray::new(p(ONE / 2, ONE / 2, 2 * ONE), p(0, 0, -ONE), 0);
    let plain = rect().hit(&r, T_MIN, LIM).unwrap();
    let once = Hittable::FlipFace(FlipFace::new(rect())).hit(&r, T_MIN, LIM).unwrap();
    let twice = Hittable::FlipFace(FlipFace::new(Hittable::FlipFace(FlipFace::new(rect()))))
        .hit(&r, T_MIN, LIM)
        .unwrap();
    assert_eq!(plain, twice);
    assert_eq!(once.front_face, !plain.front_face);
    assert_eq!(once.t, plain.t);
    assert_eq!(once.normal, plain.normal);
}

#[test]
fn translate_moves_hits() {
    let moved = Hittable::Translate(Translate::new(unit_sphere_at(0, 0), p(0, 0, -5 * ONE)));
    let r = Ray::new(p(0, 0, 0), p(0, 0, -ONE), 0);
    let rec = moved.hit(&r, T_MIN, LIM).unwrap();
    assert_eq!(rec.t, 4 * ONE);
    assert_eq!(rec.p, p(0, 0, -4 * ONE));
    assert_eq!(rec.normal, p(0, 0, ONE));
    let b = moved.bounding_box().unwrap();
    assert_eq!(b, AABB::new(p(-ONE, -ONE, -6 * ONE), p(ONE, ONE, -4 * ONE)));
    let copy = moved.duplicate();
    assert_eq!(copy.hit(&r, T_MIN, LIM), Some(rec));
}

#[test]
fn every_hit_faces_the_ray_within_interval() {
    let mut rng = StdRng::seed_from_u64(3);
    let objects = vec![
        unit_sphere_at(0, 0),
        Hittable::Rect(AARect::new(p(-2 * ONE, -2 * ONE, 0), p(2 * ONE, 2 * ONE, 0), Plane::Xy, -2 * ONE, 1)),
        Hittable::FlipFace(FlipFace::new(unit_sphere_at(3, 2))),
    ];
    let world = Hittable::Bvh(BVHNode::new(objects, &mut rng).unwrap());
    let dirs = [p(ONE, 0, -ONE), p(0, 0, -ONE), p(-ONE, ONE / 3, -ONE), p(ONE, 0, 0), p(3 * ONE, ONE, -ONE)];
    for d in dirs.iter() {
        let r = Ray::new(p(0, 0, 3 * ONE), *d, 0);
        if let Some(rec) = world.hit(&r, T_MIN, LIM) {
            assert!(rec.t > T_MIN && rec.t < LIM);
            let dot = d.x as i128 * rec.normal.x as i128
                + d.y as i128 * rec.normal.y as i128
                + d.z as i128 * rec.normal.z as i128;
            assert!(dot <= 0);
        }
    }
}
