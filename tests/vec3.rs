use pathtrace::fixed::ONE;
use pathtrace::vec3::Vec3;

fn v(x: i64, y: i64, z: i64) -> Vec3 {
    Vec3::new(x * ONE, y * ONE, z * ONE)
}

#[test]
fn attr() {
    let a = v(1, 2, 3);
    assert_eq!(a.x(), ONE);
    assert_eq!(a.y(), 2 * ONE);
    assert_eq!(a.z(), 3 * ONE);
    assert_eq!(a.to_array(), [ONE, 2 * ONE, 3 * ONE]);
}

#[test]
fn neg() {
    let a = Vec3::from_scalar(ONE).neg().to_array();
    let b = Vec3::from_scalar(-ONE).to_array();
    assert_eq!(a, b);
}

#[test]
fn add() {
    let a = Vec3::from_array([ONE, ONE, ONE]);
    let mut b = v(1, 2, 3);
    assert_eq!(a.add(b).to_array(), [2 * ONE, 3 * ONE, 4 * ONE]);

    b = b.add(a);
    assert_eq!(b.to_array(), [2 * ONE, 3 * ONE, 4 * ONE]);
}

#[test]
fn sub() {
    let a = Vec3::from_scalar(2 * ONE);
    let b = Vec3::from_scalar(ONE);
    assert_eq!(a.sub(b).to_array(), [ONE; 3]);
}

#[test]
fn mul() {
    let mut a = v(1, 2, 3);
    assert_eq!(a.mul(a).to_array(), [ONE, 4 * ONE, 9 * ONE]);
    assert_eq!(a.scale(9 * ONE).to_array(), [9 * ONE, 18 * ONE, 27 * ONE]);
    assert_eq!(v(9, 9, 9).mul(a).to_array(), [9 * ONE, 18 * ONE, 27 * ONE]);

    a = a.scale(9 * ONE);
    assert_eq!(a.to_array(), [9 * ONE, 18 * ONE, 27 * ONE]);
}

#[test]
fn div() {
    let mut a = v(2, 4, 8);
    assert_eq!(a.div(2 * ONE).to_array(), [ONE, 2 * ONE, 4 * ONE]);
    assert_eq!(a.recip_scale(2 * ONE).to_array(), [ONE, ONE / 2, ONE / 4]);

    a = a.div(2 * ONE);
    assert_eq!(a.to_array(), [ONE, 2 * ONE, 4 * ONE]);
}

#[test]
fn compare() {
    let a = v(1, 2, 3);
    let b = a.scale(2 * ONE);
    let c = v(2, 0, 5);
    assert!(a == a);
    assert!(a < b);
    assert!(b > a);
    assert_eq!(a.partial_cmp(&c), None);
}

#[test]
fn dot() {
    let a = v(1, 2, 3);
    assert_eq!(a.dot(a), 14 * ONE);
}

#[test]
fn cross() {
    let a = v(2, 3, 4);
    let b = v(5, 6, 7);
    assert_eq!(a.cross(b).to_array(), [-3 * ONE, 6 * ONE, -3 * ONE]);
}

#[test]
fn min_max() {
    let a = v(3, 1, 2);
    let b = v(1, 3, 0);

    assert_eq!(a.min(b).to_array(), [ONE, ONE, 0]);
    assert_eq!(a.max(b).to_array(), [3 * ONE, 3 * ONE, 2 * ONE]);
    assert_eq!(a.select_lt(b, v(-1, 1, -1)).to_array(), [ONE, ONE, 0]);
}

#[test]
fn unit_vector_and_length() {
    let a = v(3, 0, 4);
    assert_eq!(a.length(), 5 * ONE);
    assert_eq!(a.unit_vector().to_array(), [3 * ONE / 5, 0, 4 * ONE / 5]);
    assert_eq!(Vec3::origin(), Vec3::black());
    assert_eq!(Vec3::origin().to_array(), [0, 0, 0]);
}

#[test]
fn reflect_about_normal() {
    let d = Vec3::new(ONE, -ONE, 0);
    let n = Vec3::new(0, ONE, 0);
    assert_eq!(pathtrace::vec3::reflect(d, n).to_array(), [ONE, ONE, 0]);
}

#[test]
fn truncating_division_of_negative_values() {
    assert_eq!(Vec3::new(-3, 3, -1).div(2 * ONE).to_array(), [-1, 1, 0]);
    assert_eq!(pathtrace::fixed::div_trunc(-7, 2), -3);
    assert_eq!(pathtrace::fixed::div_trunc_signed(7, -2), -3);
    assert_eq!(pathtrace::fixed::isqrt_u128(99), 9);
    assert_eq!(pathtrace::fixed::isqrt_u128(100), 10);
    assert_eq!(pathtrace::fixed::isqrt_u128(0), 0);
}
