use vstd::prelude::*;
use crate::fixed::{
    div_trunc, div_trunc_signed, fits_i64, fx_mul, in_lim, is_isqrt, isqrt, isqrt_i128, tdiv,
    trunc_div, LIM, ONE,
};

verus! {

/// A point, direction or colour: three fixed-point numbers.
#[derive(Clone, Copy, Debug, PartialEq, Eq, Structural)]
pub struct Vec3 {
    pub x: i64,
    pub y: i64,
    pub z: i64,
}

/// A position in space.
pub type Point3 = Vec3;

/// A red-green-blue triple.
pub type Color = Vec3;

/// The exact dot product of two vectors, in units of `ONE * ONE`.
pub open spec fn dot_raw(a: Vec3, b: Vec3) -> int {
    a.x * b.x + a.y * b.y + a.z * b.z
}

impl Vec3 {
    /// Every component lies within `[-LIM, LIM]`.
    pub open spec fn bounded(self) -> bool {
        in_lim(self.x as int) && in_lim(self.y as int) && in_lim(self.z as int)
    }

    /// The length in units of `1 / (ONE * ONE)`, rounded down.
    pub open spec fn fine_length(self) -> int {
        isqrt(dot_raw(self, self) * (ONE * ONE))
    }

    /// The vector with all three components zero.
    pub open spec fn is_zero(self) -> bool {
        self.x == 0 && self.y == 0 && self.z == 0
    }

    /// The component on `axis` (0, 1 or 2).
    pub open spec fn at(self, axis: int) -> int {
        if axis == 0 {
            self.x as int
        } else if axis == 1 {
            self.y as int
        } else {
            self.z as int
        }
    }

    pub fn new(e0: i64, e1: i64, e2: i64) -> (r: Vec3)
        ensures
            r.x == e0 && r.y == e1 && r.z == e2,
    {
        Vec3 { x: e0, y: e1, z: e2 }
    }

    pub fn from_scalar(e: i64) -> (r: Vec3)
        ensures
            r.x == e && r.y == e && r.z == e,
    {
        Vec3 { x: e, y: e, z: e }
    }

    pub fn from_array(e: [i64; 3]) -> (r: Vec3)
        ensures
            r.x == e[0] && r.y == e[1] && r.z == e[2],
    {
        Vec3 { x: e[0], y: e[1], z: e[2] }
    }

    pub fn x(&self) -> (r: i64)
        ensures
            r == self.x,
    {
        self.x
    }

    pub fn y(&self) -> (r: i64)
        ensures
            r == self.y,
    {
        self.y
    }

    pub fn z(&self) -> (r: i64)
        ensures
            r == self.z,
    {
        self.z
    }

    pub fn to_array(&self) -> (r: [i64; 3])
        ensures
            r[0] == self.x && r[1] == self.y && r[2] == self.z,
    {
        [self.x, self.y, self.z]
    }

    /// The component on `axis`, which is 0, 1 or 2.
    pub fn axis(&self, axis: usize) -> (r: i64)
        requires
            axis < 3,
        ensures
            r == self.at(axis as int),
    {
        if axis == 0 {
            self.x
        } else if axis == 1 {
            self.y
        } else {
            self.z
        }
    }

    pub fn origin() -> (r: Vec3)
        ensures
            r.is_zero(),
    {
        Vec3 { x: 0, y: 0, z: 0 }
    }

    pub fn black() -> (r: Vec3)
        ensures
            r.is_zero(),
    {
        Self::origin()
    }

    pub fn neg(&self) -> (r: Vec3)
        requires
            self.x > i64::MIN && self.y > i64::MIN && self.z > i64::MIN,
        ensures
            r.x == -self.x && r.y == -self.y && r.z == -self.z,
    {
        Vec3 { x: -self.x, y: -self.y, z: -self.z }
    }

    pub fn add(&self, v: Vec3) -> (r: Vec3)
        requires
            fits_i64(self.x + v.x) && fits_i64(self.y + v.y) && fits_i64(self.z + v.z),
        ensures
            r.x == self.x + v.x && r.y == self.y + v.y && r.z == self.z + v.z,
    {
        Vec3 { x: self.x + v.x, y: self.y + v.y, z: self.z + v.z }
    }

    pub fn sub(&self, v: Vec3) -> (r: Vec3)
        requires
            fits_i64(self.x - v.x) && fits_i64(self.y - v.y) && fits_i64(self.z - v.z),
        ensures
            r.x == self.x - v.x && r.y == self.y - v.y && r.z == self.z - v.z,
    {
        Vec3 { x: self.x - v.x, y: self.y - v.y, z: self.z - v.z }
    }

    /// Componentwise fixed-point product.
    pub fn mul(&self, v: Vec3) -> (r: Vec3)
        requires
            self.bounded(),
            v.bounded(),
        ensures
            r.x == fx_mul(self.x as int, v.x as int),
            r.y == fx_mul(self.y as int, v.y as int),
            r.z == fx_mul(self.z as int, v.z as int),
    {
        Vec3 { x: mul_fx(self.x, v.x), y: mul_fx(self.y, v.y), z: mul_fx(self.z, v.z) }
    }

    /// Every component multiplied by the fixed-point scalar `s`.
    pub fn scale(&self, s: i64) -> (r: Vec3)
        requires
            self.bounded(),
            in_lim(s as int),
        ensures
            r.x == fx_mul(self.x as int, s as int),
            r.y == fx_mul(self.y as int, s as int),
            r.z == fx_mul(self.z as int, s as int),
    {
        Vec3 { x: mul_fx(self.x, s), y: mul_fx(self.y, s), z: mul_fx(self.z, s) }
    }

    /// Every component divided by the non-zero fixed-point scalar `s`.
    pub fn div(&self, s: i64) -> (r: Vec3)
        requires
            self.bounded(),
            s != 0,
            s > i64::MIN,
        ensures
            r.x == trunc_div(self.x * ONE, s as int),
            r.y == trunc_div(self.y * ONE, s as int),
            r.z == trunc_div(self.z * ONE, s as int),
    {
        Vec3 { x: div_fx(self.x, s), y: div_fx(self.y, s), z: div_fx(self.z, s) }
    }

    /// The fixed-point scalar `s` divided by each component.
    pub fn recip_scale(&self, s: i64) -> (r: Vec3)
        requires
            in_lim(s as int),
            self.x != 0 && self.y != 0 && self.z != 0,
            self.x > i64::MIN && self.y > i64::MIN && self.z > i64::MIN,
        ensures
            r.x == trunc_div(s * ONE, self.x as int),
            r.y == trunc_div(s * ONE, self.y as int),
            r.z == trunc_div(s * ONE, self.z as int),
    {
        Vec3 { x: div_fx(s, self.x), y: div_fx(s, self.y), z: div_fx(s, self.z) }
    }

    /// The fixed-point dot product.
    pub fn dot(&self, v: Vec3) -> (r: i64)
        requires
            self.bounded(),
            v.bounded(),
        ensures
            r == tdiv(dot_raw(*self, v), ONE as int),
    {
        let raw = dot_i128(*self, v);
        div_trunc(raw, ONE as i128) as i64
    }

    pub fn length_squared(&self) -> (r: i64)
        requires
            self.bounded(),
        ensures
            r == tdiv(dot_raw(*self, *self), ONE as int),
    {
        self.dot(*self)
    }

    /// The Euclidean length, rounded down to a multiple of `1 / ONE`.
    pub fn length(&self) -> (r: i64)
        requires
            self.bounded(),
        ensures
            r == isqrt(dot_raw(*self, *self)),
            is_isqrt(dot_raw(*self, *self), r as int),
            r >= 0,
    {
        let raw = dot_i128(*self, *self);
        proof {
            lemma_sq_nonneg(*self);
        }
        let r = isqrt_i128(raw);
        r as i64
    }

    /// The vector scaled to length `ONE`, each component rounded toward zero.
    /// The length used is `fine_length`, so that the precision does not depend
    /// on the magnitude of the input.
    pub fn unit_vector(&self) -> (r: Vec3)
        requires
            self.bounded(),
            !self.is_zero(),
        ensures
            self.fine_length() > 0,
            r.x == tdiv(self.x * (ONE * ONE), self.fine_length()),
            r.y == tdiv(self.y * (ONE * ONE), self.fine_length()),
            r.z == tdiv(self.z * (ONE * ONE), self.fine_length()),
            r.bounded(),
            within(r, ONE as int),
            ONE * ONE - 6 * ONE - 3 < dot_raw(r, r) < (ONE + 1) * (ONE + 1),
    {
        let raw = dot_i128(*self, *self);
        proof {
            lemma_sq_pos(*self);
        }
        let fl = isqrt_i128(raw * 16777216);
        proof {
            assert(ONE * ONE == 16777216);
            lemma_isqrt_pos(dot_raw(*self, *self) * (ONE * ONE), fl as int);
            lemma_unit_component_bound(self.x as int, *self, fl as int);
            lemma_unit_component_bound(self.y as int, *self, fl as int);
            lemma_unit_component_bound(self.z as int, *self, fl as int);
        }
        let x = div_trunc(self.x as i128 * 16777216, fl) as i64;
        let y = div_trunc(self.y as i128 * 16777216, fl) as i64;
        let z = div_trunc(self.z as i128 * 16777216, fl) as i64;
        let r = Vec3 { x, y, z };
        proof {
            lemma_unit_length(*self, r);
        }
        r
    }

    /// The fixed-point cross product.
    pub fn cross(&self, v: Vec3) -> (r: Vec3)
        requires
            self.bounded(),
            v.bounded(),
        ensures
            r.x == tdiv(self.y * v.z - self.z * v.y, ONE as int),
            r.y == tdiv(self.z * v.x - self.x * v.z, ONE as int),
            r.z == tdiv(self.x * v.y - self.y * v.x, ONE as int),
    {
        proof {
            lemma_prod_bound(self.y as int, v.z as int);
            lemma_prod_bound(self.z as int, v.y as int);
            lemma_prod_bound(self.z as int, v.x as int);
            lemma_prod_bound(self.x as int, v.z as int);
            lemma_prod_bound(self.x as int, v.y as int);
            lemma_prod_bound(self.y as int, v.x as int);
        }
        let cx = self.y as i128 * v.z as i128 - self.z as i128 * v.y as i128;
        let cy = self.z as i128 * v.x as i128 - self.x as i128 * v.z as i128;
        let cz = self.x as i128 * v.y as i128 - self.y as i128 * v.x as i128;
        let one = ONE as i128;
        let rx = div_trunc(cx, one);
        let ry = div_trunc(cy, one);
        let rz = div_trunc(cz, one);
        proof {
            lemma_tdiv_small(cx as int);
            lemma_tdiv_small(cy as int);
            lemma_tdiv_small(cz as int);
        }
        Vec3 { x: rx as i64, y: ry as i64, z: rz as i64 }
    }

    /// Componentwise minimum.
    pub fn min(&self, v: Vec3) -> (r: Vec3)
        ensures
            r.x == (if self.x <= v.x { self.x } else { v.x }),
            r.y == (if self.y <= v.y { self.y } else { v.y }),
            r.z == (if self.z <= v.z { self.z } else { v.z }),
    {
        Vec3 {
            x: if self.x <= v.x { self.x } else { v.x },
            y: if self.y <= v.y { self.y } else { v.y },
            z: if self.z <= v.z { self.z } else { v.z },
        }
    }

    /// Componentwise maximum.
    pub fn max(&self, v: Vec3) -> (r: Vec3)
        ensures
            r.x == (if self.x >= v.x { self.x } else { v.x }),
            r.y == (if self.y >= v.y { self.y } else { v.y }),
            r.z == (if self.z >= v.z { self.z } else { v.z }),
    {
        Vec3 {
            x: if self.x >= v.x { self.x } else { v.x },
            y: if self.y >= v.y { self.y } else { v.y },
            z: if self.z >= v.z { self.z } else { v.z },
        }
    }

    /// Takes the component of `v` where `mask` is negative, and of `self` elsewhere.
    pub fn select_lt(&self, v: Vec3, mask: Vec3) -> (r: Vec3)
        ensures
            r.x == (if mask.x < 0 { v.x } else { self.x }),
            r.y == (if mask.y < 0 { v.y } else { self.y }),
            r.z == (if mask.z < 0 { v.z } else { self.z }),
    {
        Vec3 {
            x: if mask.x < 0 { v.x } else { self.x },
            y: if mask.y < 0 { v.y } else { self.y },
            z: if mask.z < 0 { v.z } else { self.z },
        }
    }
}

/// The mirror image of `v` about the plane with normal `n`: `v - 2 (v . n) n`.
pub fn reflect(v: Vec3, n: Vec3) -> (r: Vec3)
    requires
        v.bounded(),
        n.bounded(),
        in_lim(2 * tdiv(dot_raw(v, n), ONE as int)),
        n.scale_fits(2 * tdiv(dot_raw(v, n), ONE as int), v),
    ensures
        r.x == v.x - fx_mul(n.x as int, 2 * tdiv(dot_raw(v, n), ONE as int)),
        r.y == v.y - fx_mul(n.y as int, 2 * tdiv(dot_raw(v, n), ONE as int)),
        r.z == v.z - fx_mul(n.z as int, 2 * tdiv(dot_raw(v, n), ONE as int)),
{
    let d = v.dot(n);
    let s = n.scale(2 * d);
    v.sub(s)
}

impl Vec3 {
    /// `v - self * s` is representable on every axis.
    pub open spec fn scale_fits(self, s: int, v: Vec3) -> bool {
        fits_i64(v.x - fx_mul(self.x as int, s)) && fits_i64(v.y - fx_mul(self.y as int, s))
            && fits_i64(v.z - fx_mul(self.z as int, s))
    }
}

/// Fixed-point product of two coordinates.
pub fn mul_fx(a: i64, b: i64) -> (r: i64)
    requires
        in_lim(a as int),
        in_lim(b as int),
    ensures
        r == fx_mul(a as int, b as int),
{
    proof {
        lemma_prod_bound(a as int, b as int);
        lemma_tdiv_small((a * b) as int);
    }
    div_trunc(a as i128 * b as i128, ONE as i128) as i64
}

/// Fixed-point quotient of two numbers.
fn div_fx(a: i64, b: i64) -> (r: i64)
    requires
        in_lim(a as int),
        b != 0,
        b > i64::MIN,
    ensures
        r == trunc_div(a * ONE, b as int),
{
    let n = a as i128 * 4096;
    assert(-LIM * ONE <= n <= LIM * ONE);
    let q = div_trunc_signed(n, b as i128);
    proof {
        lemma_trunc_div_bound(n as int, b as int);
    }
    q as i64
}

fn dot_i128(a: Vec3, b: Vec3) -> (r: i128)
    requires
        a.bounded(),
        b.bounded(),
    ensures
        r == dot_raw(a, b),
        -3 * LIM * LIM <= r <= 3 * LIM * LIM,
{
    proof {
        lemma_prod_bound(a.x as int, b.x as int);
        lemma_prod_bound(a.y as int, b.y as int);
        lemma_prod_bound(a.z as int, b.z as int);
    }
    a.x as i128 * b.x as i128 + a.y as i128 * b.y as i128 + a.z as i128 * b.z as i128
}

/// The fine length of a non-zero bounded vector is positive and its square is
/// at most `|v|^2 * ONE^2`.
pub proof fn lemma_fine_length_facts(v: Vec3)
    requires
        v.bounded(),
        !v.is_zero(),
    ensures
        v.fine_length() >= 1,
        v.fine_length() * v.fine_length() <= dot_raw(v, v) * (ONE * ONE),
        dot_raw(v, v) >= 1,
{
    lemma_sq_pos(v);
    let n = dot_raw(v, v) * (ONE * ONE);
    assert(n >= 1) by (nonlinear_arith)
        requires
            dot_raw(v, v) >= 1,
            n == dot_raw(v, v) * 16777216,
    ;
    let r = crate::fixed::lemma_isqrt_exists(n);
    crate::fixed::lemma_isqrt_spec(n, r);
    lemma_isqrt_pos(n, r);
}

pub proof fn lemma_prod_bound(a: int, b: int)
    requires
        in_lim(a),
        in_lim(b),
    ensures
        -LIM * LIM <= a * b <= LIM * LIM,
{
    assert(-LIM * LIM <= a * b <= LIM * LIM) by (nonlinear_arith)
        requires
            -LIM <= a <= LIM,
            -LIM <= b <= LIM,
            LIM == 16777216,
    ;
}

/// Dividing a number of magnitude at most `4 * LIM * LIM` by `ONE` gives a value that fits an `i64`.
proof fn lemma_tdiv_small(a: int)
    requires
        -4 * LIM * LIM <= a <= 4 * LIM * LIM,
    ensures
        -4 * LIM * LIM <= tdiv(a, ONE as int) <= 4 * LIM * LIM,
        fits_i64(tdiv(a, ONE as int)),
{
}

proof fn lemma_trunc_div_bound(a: int, b: int)
    requires
        b != 0,
        -LIM * ONE <= a <= LIM * ONE,
    ensures
        -LIM * ONE <= trunc_div(a, b) <= LIM * ONE,
{
    if b > 0 {
        if a >= 0 {
            assert(a / b <= a) by (nonlinear_arith)
                requires a >= 0, b > 0;
            assert(a / b >= 0) by (nonlinear_arith)
                requires a >= 0, b > 0;
        } else {
            assert((-a) / b <= -a) by (nonlinear_arith)
                requires -a >= 0, b > 0;
            assert((-a) / b >= 0) by (nonlinear_arith)
                requires -a >= 0, b > 0;
        }
    } else {
        if -a >= 0 {
            assert((-a) / (-b) <= -a) by (nonlinear_arith)
                requires -a >= 0, -b > 0;
            assert((-a) / (-b) >= 0) by (nonlinear_arith)
                requires -a >= 0, -b > 0;
        } else {
            assert(a / (-b) <= a) by (nonlinear_arith)
                requires a >= 0, -b > 0;
            assert(a / (-b) >= 0) by (nonlinear_arith)
                requires a >= 0, -b > 0;
        }
    }
}

pub proof fn lemma_sq_nonneg(v: Vec3)
    ensures
        dot_raw(v, v) >= 0,
{
    assert(dot_raw(v, v) >= 0) by (nonlinear_arith)
        requires
            dot_raw(v, v) == v.x * v.x + v.y * v.y + v.z * v.z,
    ;
}

pub proof fn lemma_sq_pos(v: Vec3)
    requires
        !v.is_zero(),
    ensures
        dot_raw(v, v) >= 1,
{
    assert(dot_raw(v, v) >= 1) by (nonlinear_arith)
        requires
            dot_raw(v, v) == v.x * v.x + v.y * v.y + v.z * v.z,
            v.x != 0 || v.y != 0 || v.z != 0,
    ;
}

proof fn lemma_isqrt_pos(n: int, r: int)
    requires
        n >= 1,
        is_isqrt(n, r),
    ensures
        r >= 1,
{
    if r == 0 {
        assert((r + 1) * (r + 1) == 1);
    }
}

/// A component divided by the length of its vector has magnitude at most one.
proof fn lemma_unit_component_bound(c: int, v: Vec3, fl: int)
    requires
        v.bounded(),
        c == v.x || c == v.y || c == v.z,
        is_isqrt(dot_raw(v, v) * (ONE * ONE), fl),
        fl >= 1,
    ensures
        -ONE <= tdiv(c * (ONE * ONE), fl) <= ONE,
{
    let o = ONE as int;
    assert(c * c <= dot_raw(v, v)) by (nonlinear_arith)
        requires
            c == v.x || c == v.y || c == v.z,
            dot_raw(v, v) == v.x * v.x + v.y * v.y + v.z * v.z,
    ;
    let a = if c >= 0 { c * o } else { -c * o };
    assert(a * a <= dot_raw(v, v) * (o * o)) by (nonlinear_arith)
        requires
            a == c * o || a == -c * o,
            c * c <= dot_raw(v, v),
    ;
    assert(a <= fl) by (nonlinear_arith)
        requires
            a >= 0,
            fl >= 0,
            a * a < (fl + 1) * (fl + 1),
    ;
    assert(0 <= (a * o) / fl <= o) by (nonlinear_arith)
        requires
            0 <= a <= fl,
            fl >= 1,
            o > 0,
    ;
    assert(c * (o * o) == a * o || c * (o * o) == -(a * o)) by (nonlinear_arith)
        requires
            a == c * o || a == -c * o,
            c >= 0 ==> a == c * o,
            c < 0 ==> a == -c * o,
    ;
    if c >= 0 {
        assert(c * (o * o) == a * o) by (nonlinear_arith)
            requires a == c * o;
    } else {
        assert(-(c * (o * o)) == a * o) by (nonlinear_arith)
            requires a == -c * o;
    }
}

} // verus!

verus! {

/// A fixed-point product of two coordinates is at most `LIM * LIM` in magnitude.
pub proof fn lemma_fx_mul_bound(a: int, b: int)
    requires
        in_lim(a),
        in_lim(b),
    ensures
        -LIM * LIM <= fx_mul(a, b) <= LIM * LIM,
{
    lemma_prod_bound(a, b);
    lemma_tdiv_small(a * b);
}

} // verus!

verus! {

/// Every component of `v` has magnitude at most `m`.
pub open spec fn within(v: Vec3, m: int) -> bool {
    -m <= v.x <= m && -m <= v.y <= m && -m <= v.z <= m
}

/// `a - b`, componentwise.
pub open spec fn vsub(a: Vec3, b: Vec3) -> Vec3 {
    Vec3 { x: (a.x - b.x) as i64, y: (a.y - b.y) as i64, z: (a.z - b.z) as i64 }
}

/// `a + b`, componentwise.
pub open spec fn vadd(a: Vec3, b: Vec3) -> Vec3 {
    Vec3 { x: (a.x + b.x) as i64, y: (a.y + b.y) as i64, z: (a.z + b.z) as i64 }
}

/// `-a`, componentwise.
pub open spec fn vneg(a: Vec3) -> Vec3 {
    Vec3 { x: (-a.x) as i64, y: (-a.y) as i64, z: (-a.z) as i64 }
}

/// The exact dot product of two vectors whose components are at most `2 * LIM` in magnitude.
pub fn dot_wide(a: Vec3, b: Vec3) -> (r: i128)
    requires
        within(a, 2 * LIM),
        within(b, 2 * LIM),
    ensures
        r == dot_raw(a, b),
        -12 * LIM * LIM <= r <= 12 * LIM * LIM,
{
    proof {
        lemma_prod_bound2(a.x as int, b.x as int);
        lemma_prod_bound2(a.y as int, b.y as int);
        lemma_prod_bound2(a.z as int, b.z as int);
    }
    a.x as i128 * b.x as i128 + a.y as i128 * b.y as i128 + a.z as i128 * b.z as i128
}

/// The exact dot product of a bounded vector with any vector.
pub fn dot_exact(a: Vec3, b: Vec3) -> (r: i128)
    requires
        a.bounded(),
    ensures
        r == dot_raw(a, b),
{
    proof {
        lemma_prod_bound_any(a.x as int, b.x as int);
        lemma_prod_bound_any(a.y as int, b.y as int);
        lemma_prod_bound_any(a.z as int, b.z as int);
    }
    a.x as i128 * b.x as i128 + a.y as i128 * b.y as i128 + a.z as i128 * b.z as i128
}

pub proof fn lemma_prod_bound2(a: int, b: int)
    requires
        -2 * LIM <= a <= 2 * LIM,
        -2 * LIM <= b <= 2 * LIM,
    ensures
        -4 * LIM * LIM <= a * b <= 4 * LIM * LIM,
{
    assert(-4 * LIM * LIM <= a * b <= 4 * LIM * LIM) by (nonlinear_arith)
        requires
            -2 * LIM <= a <= 2 * LIM,
            -2 * LIM <= b <= 2 * LIM,
            LIM == 16777216,
    ;
}

proof fn lemma_prod_bound_any(a: int, b: int)
    requires
        in_lim(a),
        fits_i64(b),
    ensures
        -0x1_0000_0000_0000_0000_0000_0000i128 <= a * b <= 0x1_0000_0000_0000_0000_0000_0000i128,
{
    assert(-0x1_0000_0000_0000_0000_0000_0000i128 <= a * b <= 0x1_0000_0000_0000_0000_0000_0000i128) by (nonlinear_arith)
        requires
            -16777216 <= a <= 16777216,
            -0x8000_0000_0000_0000int <= b <= 0x7FFF_FFFF_FFFF_FFFFint,
    ;
}

} // verus!

verus! {

/// A fixed-point product of numbers at most `a` and `b` units in magnitude is
/// at most `a * b` units in magnitude.
pub proof fn lemma_fx_mul_within(x: int, s: int, a: int, b: int)
    requires
        a >= 0,
        b >= 0,
        -a * ONE <= x <= a * ONE,
        -b * ONE <= s <= b * ONE,
    ensures
        -a * b * ONE <= fx_mul(x, s) <= a * b * ONE,
{
    let o = ONE as int;
    let p = x * s;
    let m = a * b;
    assert(-(m * (o * o)) <= p <= m * (o * o)) by (nonlinear_arith)
        requires
            a >= 0,
            b >= 0,
            -a * o <= x <= a * o,
            -b * o <= s <= b * o,
            p == x * s,
            m == a * b,
    ;
    if p >= 0 {
        assert(0 <= p / o <= m * o) by (nonlinear_arith)
            requires
                0 <= p <= m * (o * o),
                o > 0,
        ;
    } else {
        assert(0 <= (-p) / o <= m * o) by (nonlinear_arith)
            requires
                0 <= -p <= m * (o * o),
                o > 0,
        ;
    }
    assert(-a * b * ONE == -(m * o) && a * b * ONE == m * o) by (nonlinear_arith)
        requires
            m == a * b,
            o == ONE,
    ;
}

} // verus!

verus! {

/// `Less` when every component is smaller, `Greater` when every component is
/// larger, `Equal` for equal vectors, and no order otherwise.
pub open spec fn componentwise_order(a: Vec3, b: Vec3) -> Option<core::cmp::Ordering> {
    if a.x < b.x && a.y < b.y && a.z < b.z {
        Some(core::cmp::Ordering::Less)
    } else if a.x > b.x && a.y > b.y && a.z > b.z {
        Some(core::cmp::Ordering::Greater)
    } else if a == b {
        Some(core::cmp::Ordering::Equal)
    } else {
        None
    }
}

impl PartialOrd for Vec3 {
    fn partial_cmp(&self, other: &Vec3) -> (r: Option<core::cmp::Ordering>)
        ensures
            r == componentwise_order(*self, *other),
    {
        if self.x < other.x && self.y < other.y && self.z < other.z {
            Some(core::cmp::Ordering::Less)
        } else if self.x > other.x && self.y > other.y && self.z > other.z {
            Some(core::cmp::Ordering::Greater)
        } else if self.x == other.x && self.y == other.y && self.z == other.z {
            Some(core::cmp::Ordering::Equal)
        } else {
            None
        }
    }
}

impl vstd::std_specs::cmp::PartialOrdSpecImpl for Vec3 {
    open spec fn obeys_partial_cmp_spec() -> bool {
        true
    }

    open spec fn partial_cmp_spec(&self, other: &Vec3) -> Option<core::cmp::Ordering> {
        componentwise_order(*self, *other)
    }
}

} // verus!

verus! {

/// A normalised vector has length within about `3 / ONE` of one:
/// `ONE^2 - 6 ONE - 3 < |r|^2 < (ONE + 1)^2`.
pub proof fn lemma_unit_length(v: Vec3, r: Vec3)
    requires
        v.bounded(),
        !v.is_zero(),
        r.x == tdiv(v.x * (ONE * ONE), v.fine_length()),
        r.y == tdiv(v.y * (ONE * ONE), v.fine_length()),
        r.z == tdiv(v.z * (ONE * ONE), v.fine_length()),
        within(r, ONE as int),
    ensures
        ONE * ONE - 6 * ONE - 3 < dot_raw(r, r) < (ONE + 1) * (ONE + 1),
{
    let o = ONE as int;
    let o2 = o * o;
    lemma_fine_length_facts(v);
    let fl = v.fine_length();
    let s = dot_raw(v, v);
    assert(is_isqrt(s * o2, fl)) by {
        let w = crate::fixed::lemma_isqrt_exists(s * o2);
        crate::fixed::lemma_isqrt_spec(s * o2, w);
    }
    // the fine length is at least ONE
    assert(fl >= o) by (nonlinear_arith)
        requires
            s >= 1,
            o2 == o * o,
            o > 0,
            fl >= 0,
            s * o2 < (fl + 1) * (fl + 1),
    ;
    let (ax, bx) = lemma_component(v.x as int, r.x as int, fl);
    let (ay, by) = lemma_component(v.y as int, r.y as int, fl);
    let (az, bz) = lemma_component(v.z as int, r.z as int, fl);
    let sa = ax * ax + ay * ay + az * az;
    assert(sa == dot_raw(r, r)) by (nonlinear_arith)
        requires
            ax == r.x || ax == -r.x,
            ay == r.y || ay == -r.y,
            az == r.z || az == -r.z,
            sa == ax * ax + ay * ay + az * az,
            dot_raw(r, r) == r.x * r.x + r.y * r.y + r.z * r.z,
    ;
    let sx = (v.x * o2) * (v.x * o2) + (v.y * o2) * (v.y * o2) + (v.z * o2) * (v.z * o2);
    let m = o2 * o2;
    assert((v.x * o2) * (v.x * o2) == (v.x * v.x) * m) by (nonlinear_arith)
        requires m == o2 * o2;
    assert((v.y * o2) * (v.y * o2) == (v.y * v.y) * m) by (nonlinear_arith)
        requires m == o2 * o2;
    assert((v.z * o2) * (v.z * o2) == (v.z * v.z) * m) by (nonlinear_arith)
        requires m == o2 * o2;
    assert(sx == s * m) by (nonlinear_arith)
        requires
            s == v.x * v.x + v.y * v.y + v.z * v.z,
            sx == (v.x * v.x) * m + (v.y * v.y) * m + (v.z * v.z) * m,
    ;
    assert(s * m == s * o2 * o2) by (nonlinear_arith)
        requires m == o2 * o2;
    // upper bound
    assert(sa * (fl * fl) <= sx) by (nonlinear_arith)
        requires
            ax * ax * (fl * fl) <= bx,
            ay * ay * (fl * fl) <= by,
            az * az * (fl * fl) <= bz,
            bx == (v.x * o2) * (v.x * o2),
            by == (v.y * o2) * (v.y * o2),
            bz == (v.z * o2) * (v.z * o2),
            sa == ax * ax + ay * ay + az * az,
            sx == bx + by + bz,
    ;
    assert(sa < (o + 1) * (o + 1)) by (nonlinear_arith)
        requires
            sa * (fl * fl) <= sx,
            sx == s * o2 * o2,
            s * o2 < (fl + 1) * (fl + 1),
            fl >= o,
            o > 0,
            o2 == o * o,
            sa >= 0,
    ;
    // lower bound
    let sb = (ax + 1) * (ax + 1) + (ay + 1) * (ay + 1) + (az + 1) * (az + 1);
    assert(sx < sb * (fl * fl)) by (nonlinear_arith)
        requires
            bx < (ax + 1) * (ax + 1) * (fl * fl),
            by < (ay + 1) * (ay + 1) * (fl * fl),
            bz < (az + 1) * (az + 1) * (fl * fl),
            sb == (ax + 1) * (ax + 1) + (ay + 1) * (ay + 1) + (az + 1) * (az + 1),
            sx == bx + by + bz,
    ;
    assert(sb > o2) by (nonlinear_arith)
        requires
            sx < sb * (fl * fl),
            sx == s * o2 * o2,
            fl * fl <= s * o2,
            s >= 1,
            o2 > 0,
            sb >= 0,
    ;
    assert(sa > o2 - 6 * o - 3) by (nonlinear_arith)
        requires
            sb > o2,
            sb == (ax + 1) * (ax + 1) + (ay + 1) * (ay + 1) + (az + 1) * (az + 1),
            sa == ax * ax + ay * ay + az * az,
            0 <= ax <= o,
            0 <= ay <= o,
            0 <= az <= o,
    ;
}

/// For one component: `a = |r|` satisfies `a^2 fl^2 <= X^2 < (a + 1)^2 fl^2`
/// where `X = c ONE^2` and `r = tdiv(X, fl)`.
proof fn lemma_component(c: int, r: int, fl: int) -> (res: (int, int))
    requires
        fl >= 1,
        r == tdiv(c * (ONE * ONE), fl),
        -ONE <= r <= ONE,
    ensures
        res.0 == r || res.0 == -r,
        0 <= res.0 <= ONE,
        res.1 == (c * (ONE * ONE)) * (c * (ONE * ONE)),
        res.0 * res.0 * (fl * fl) <= res.1,
        res.1 < (res.0 + 1) * (res.0 + 1) * (fl * fl),
{
    let x = c * (ONE * ONE);
    crate::fixed::lemma_tdiv_bounds(x, fl);
    let a = if r >= 0 { r } else { -r };
    let ax = if x >= 0 { x } else { -x };
    assert(a * fl <= ax < (a + 1) * fl);
    assert(a * a * (fl * fl) <= ax * ax) by (nonlinear_arith)
        requires
            0 <= a * fl <= ax,
            a >= 0,
            fl >= 1,
    ;
    assert(ax * ax < (a + 1) * (a + 1) * (fl * fl)) by (nonlinear_arith)
        requires
            0 <= ax < (a + 1) * fl,
            a >= 0,
            fl >= 1,
    ;
    assert(ax * ax == x * x) by (nonlinear_arith)
        requires
            ax == x || ax == -x,
    ;
    (a, x * x)
}

} // verus!
