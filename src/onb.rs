use vstd::prelude::*;
use crate::fixed::{fx_mul, lemma_tdiv_bounds, tdiv, ONE};
use crate::vec3::{dot_raw, within, Vec3};

verus! {

/// `n` scaled to length `ONE`: each component `n_c ONE^2 / fine_length(n)`,
/// rounded toward zero. Its length is one within about `3 / ONE`
/// (`lemma_unit_length`).
pub open spec fn unit_of(n: Vec3) -> Vec3 {
    let len = n.fine_length();
    Vec3 {
        x: tdiv(n.x * (ONE * ONE), len) as i64,
        y: tdiv(n.y * (ONE * ONE), len) as i64,
        z: tdiv(n.z * (ONE * ONE), len) as i64,
    }
}

/// The cross product `a x b` in fixed point, each component rounded toward
/// zero. It is orthogonal to `a` and `b` up to that rounding, and exactly
/// where none occurs (`lemma_basis_side_orthogonal`).
pub open spec fn cross_of(a: Vec3, b: Vec3) -> Vec3 {
    Vec3 {
        x: tdiv(a.y * b.z - a.z * b.y, ONE as int) as i64,
        y: tdiv(a.z * b.x - a.x * b.z, ONE as int) as i64,
        z: tdiv(a.x * b.y - a.y * b.x, ONE as int) as i64,
    }
}

/// The helper axis used to build a basis around the unit vector `w`: the
/// y axis when `w` is within about 25 degrees of the x axis, else the x axis.
pub open spec fn helper_axis(w: Vec3) -> Vec3 {
    if 10 * w.x > 9 * ONE || 10 * w.x < -9 * ONE {
        Vec3 { x: 0, y: ONE, z: 0 }
    } else {
        Vec3 { x: ONE, y: 0, z: 0 }
    }
}

/// An orthonormal basis `(u, v, w)` built around a direction `w`.
#[derive(Clone, Copy, Debug, PartialEq, Eq, Structural)]
pub struct OrthonormalBasis {
    pub u: Vec3,
    pub v: Vec3,
    pub w: Vec3,
}

impl OrthonormalBasis {
    /// The three axes are at most about one unit long on each component.
    /// (The lengths of `v` and `w` are bounded more closely by `from_w`.)
    pub open spec fn wf(self) -> bool {
        within(self.u, 2 * ONE) && within(self.v, ONE as int) && within(self.w, ONE as int)
    }

    /// The basis that `from_w` builds around `n`: `w` is `n` normalised, `v`
    /// the normalised cross product of `w` with a helper axis, and `u = w x v`.
    pub open spec fn spec_from_w(n: Vec3) -> OrthonormalBasis {
        let w = unit_of(n);
        let v = unit_of(cross_of(w, helper_axis(w)));
        OrthonormalBasis { u: cross_of(w, v), v, w }
    }

    pub fn u(&self) -> (r: Vec3)
        ensures
            r == self.u,
    {
        self.u
    }

    pub fn v(&self) -> (r: Vec3)
        ensures
            r == self.v,
    {
        self.v
    }

    pub fn w(&self) -> (r: Vec3)
        ensures
            r == self.w,
    {
        self.w
    }

    /// The world vector `a.x * u + a.y * v + a.z * w` of local coordinates `a`.
    pub fn local(&self, a: Vec3) -> (r: Vec3)
        requires
            self.wf(),
            a.bounded(),
        ensures
            r.x == fx_mul(a.x as int, self.u.x as int) + fx_mul(a.y as int, self.v.x as int)
                + fx_mul(a.z as int, self.w.x as int),
            r.y == fx_mul(a.x as int, self.u.y as int) + fx_mul(a.y as int, self.v.y as int)
                + fx_mul(a.z as int, self.w.y as int),
            r.z == fx_mul(a.x as int, self.u.z as int) + fx_mul(a.y as int, self.v.z as int)
                + fx_mul(a.z as int, self.w.z as int),
    {
        let su = self.u.scale(a.x);
        let sv = self.v.scale(a.y);
        let sw = self.w.scale(a.z);
        proof {
            crate::vec3::lemma_fx_mul_bound(self.u.x as int, a.x as int);
            crate::vec3::lemma_fx_mul_bound(self.u.y as int, a.x as int);
            crate::vec3::lemma_fx_mul_bound(self.u.z as int, a.x as int);
            crate::vec3::lemma_fx_mul_bound(self.v.x as int, a.y as int);
            crate::vec3::lemma_fx_mul_bound(self.v.y as int, a.y as int);
            crate::vec3::lemma_fx_mul_bound(self.v.z as int, a.y as int);
            crate::vec3::lemma_fx_mul_bound(self.w.x as int, a.z as int);
            crate::vec3::lemma_fx_mul_bound(self.w.y as int, a.z as int);
            crate::vec3::lemma_fx_mul_bound(self.w.z as int, a.z as int);
            assert(fx_mul(a.x as int, self.u.x as int) == fx_mul(self.u.x as int, a.x as int)) by {
                assert(a.x * self.u.x == self.u.x * a.x) by (nonlinear_arith);
            }
            assert(fx_mul(a.x as int, self.u.y as int) == fx_mul(self.u.y as int, a.x as int)) by {
                assert(a.x * self.u.y == self.u.y * a.x) by (nonlinear_arith);
            }
            assert(fx_mul(a.x as int, self.u.z as int) == fx_mul(self.u.z as int, a.x as int)) by {
                assert(a.x * self.u.z == self.u.z * a.x) by (nonlinear_arith);
            }
            assert(fx_mul(a.y as int, self.v.x as int) == fx_mul(self.v.x as int, a.y as int)) by {
                assert(a.y * self.v.x == self.v.x * a.y) by (nonlinear_arith);
            }
            assert(fx_mul(a.y as int, self.v.y as int) == fx_mul(self.v.y as int, a.y as int)) by {
                assert(a.y * self.v.y == self.v.y * a.y) by (nonlinear_arith);
            }
            assert(fx_mul(a.y as int, self.v.z as int) == fx_mul(self.v.z as int, a.y as int)) by {
                assert(a.y * self.v.z == self.v.z * a.y) by (nonlinear_arith);
            }
            assert(fx_mul(a.z as int, self.w.x as int) == fx_mul(self.w.x as int, a.z as int)) by {
                assert(a.z * self.w.x == self.w.x * a.z) by (nonlinear_arith);
            }
            assert(fx_mul(a.z as int, self.w.y as int) == fx_mul(self.w.y as int, a.z as int)) by {
                assert(a.z * self.w.y == self.w.y * a.z) by (nonlinear_arith);
            }
            assert(fx_mul(a.z as int, self.w.z as int) == fx_mul(self.w.z as int, a.z as int)) by {
                assert(a.z * self.w.z == self.w.z * a.z) by (nonlinear_arith);
            }
        }
        su.add(sv).add(sw)
    }

    /// The basis around the non-zero direction `n`.
    pub fn from_w(n: Vec3) -> (b: OrthonormalBasis)
        requires
            n.bounded(),
            !n.is_zero(),
        ensures
            b == OrthonormalBasis::spec_from_w(n),
            b.wf(),
            ONE * ONE - 6 * ONE - 3 < dot_raw(b.w, b.w) < (ONE + 1) * (ONE + 1),
            ONE * ONE - 6 * ONE - 3 < dot_raw(b.v, b.v) < (ONE + 1) * (ONE + 1),
            -3 * ONE <= dot_raw(b.w, b.v) <= 3 * ONE,
    {
        let w = n.unit_vector();
        proof {
            lemma_unit_nonzero(n, w);
        }
        let a = if 10 * w.x > 9 * ONE || 10 * w.x < -9 * ONE {
            Vec3::new(0, ONE, 0)
        } else {
            Vec3::new(ONE, 0, 0)
        };
        assert(a == helper_axis(w));
        let c = w.cross(a);
        proof {
            lemma_cross_helper_nonzero(n, w, c);
        }
        let v = c.unit_vector();
        proof {
            lemma_basis_side_orthogonal(w);
            lemma_normalised_orthogonal(w, c, v);
        }
        let u = w.cross(v);
        proof {
            lemma_cross_units_bound(w, v, u);
        }
        OrthonormalBasis { u, v, w }
    }
}

proof fn lemma_sq_lt(a: int, b: int)
    requires
        0 <= a < b,
    ensures
        a * a < b * b,
{
    assert(a * a < b * b) by (nonlinear_arith)
        requires
            0 <= a < b,
    ;
}

proof fn lemma_unit_nonzero(n: Vec3, w: Vec3)
    requires
        n.bounded(),
        !n.is_zero(),
        w.x == tdiv(n.x * (ONE * ONE), n.fine_length()),
        w.y == tdiv(n.y * (ONE * ONE), n.fine_length()),
        w.z == tdiv(n.z * (ONE * ONE), n.fine_length()),
    ensures
        !w.is_zero(),
{
    crate::vec3::lemma_fine_length_facts(n);
    let len = n.fine_length();
    let s = dot_raw(n, n);
    if w.is_zero() {
        lemma_small_component(n.x as int, len);
        lemma_small_component(n.y as int, len);
        lemma_small_component(n.z as int, len);
        let xq = (n.x * (ONE * ONE)) * (n.x * (ONE * ONE));
        let yq = (n.y * (ONE * ONE)) * (n.y * (ONE * ONE));
        let zq = (n.z * (ONE * ONE)) * (n.z * (ONE * ONE));
        lemma_sum_fourth(n, s, xq, yq, zq);
        let l = len * len;
        assert(false) by (nonlinear_arith)
            requires
                s * 281474976710656 == xq + yq + zq,
                xq < l,
                yq < l,
                zq < l,
                l <= s * 16777216,
                s >= 1,
        ;
    }
}

/// `|n|^2 * ONE^4` is the sum of the squares of the components scaled by `ONE^2`.
proof fn lemma_sum_fourth(n: Vec3, s: int, xq: int, yq: int, zq: int)
    requires
        s == dot_raw(n, n),
        xq == (n.x * (ONE * ONE)) * (n.x * (ONE * ONE)),
        yq == (n.y * (ONE * ONE)) * (n.y * (ONE * ONE)),
        zq == (n.z * (ONE * ONE)) * (n.z * (ONE * ONE)),
    ensures
        s * 281474976710656 == xq + yq + zq,
{
    let o2 = 16777216int;
    assert(ONE * ONE == o2);
    assert(s * (o2 * o2) == (n.x * o2) * (n.x * o2) + (n.y * o2) * (n.y * o2) + (n.z * o2) * (
    n.z * o2)) by (nonlinear_arith)
        requires
            s == n.x * n.x + n.y * n.y + n.z * n.z,
    ;
}

/// A component that normalises to zero is shorter than `1 / ONE^2` of the fine length.
proof fn lemma_small_component(c: int, len: int)
    requires
        len >= 1,
        tdiv(c * (ONE * ONE), len) == 0,
    ensures
        (c * (ONE * ONE)) * (c * (ONE * ONE)) < len * len,
{
    let x = c * (ONE * ONE);
    lemma_tdiv_bounds(x, len);
    let a = if x >= 0 { x } else { -x };
    lemma_sq_lt(a, len);
    assert(a * a == x * x) by (nonlinear_arith)
        requires
            a == x || a == -x,
    ;
}

pub proof fn lemma_tdiv_exact(k: int)
    ensures
        tdiv(k * ONE, ONE as int) == k,
        tdiv(-(k * ONE), ONE as int) == -k,
{
    if k >= 0 {
        vstd::arithmetic::div_mod::lemma_div_multiples_vanish(k, ONE as int);
        assert(ONE * k == k * ONE) by (nonlinear_arith);
    } else {
        vstd::arithmetic::div_mod::lemma_div_multiples_vanish(-k, ONE as int);
        assert(ONE * (-k) == -(k * ONE)) by (nonlinear_arith);
    }
}

proof fn lemma_cross_helper_nonzero(n: Vec3, w: Vec3, c: Vec3)
    requires
        n.bounded(),
        !n.is_zero(),
        w.x == tdiv(n.x * (ONE * ONE), n.fine_length()),
        w.y == tdiv(n.y * (ONE * ONE), n.fine_length()),
        w.z == tdiv(n.z * (ONE * ONE), n.fine_length()),
        within(w, ONE as int),
        c == cross_of(w, helper_axis(w)),
    ensures
        !c.is_zero(),
        within(c, ONE as int),
{
    let a = helper_axis(w);
    lemma_tdiv_exact(w.x as int);
    lemma_tdiv_exact(w.y as int);
    lemma_tdiv_exact(w.z as int);
    lemma_tdiv_exact(0);
    if 10 * w.x > 9 * ONE || 10 * w.x < -9 * ONE {
        assert(a == Vec3 { x: 0, y: ONE, z: 0 });
        assert(w.y * a.z - w.z * a.y == -(w.z * ONE)) by (nonlinear_arith)
            requires a.x == 0, a.y == ONE, a.z == 0;
        assert(w.z * a.x - w.x * a.z == 0 * ONE) by (nonlinear_arith)
            requires a.x == 0, a.y == ONE, a.z == 0;
        assert(w.x * a.y - w.y * a.x == w.x * ONE) by (nonlinear_arith)
            requires a.x == 0, a.y == ONE, a.z == 0;
        assert(c.z == w.x);
    } else {
        assert(a == Vec3 { x: ONE, y: 0, z: 0 });
        assert(w.y * a.z - w.z * a.y == 0 * ONE) by (nonlinear_arith)
            requires a.x == ONE, a.y == 0, a.z == 0;
        assert(w.z * a.x - w.x * a.z == w.z * ONE) by (nonlinear_arith)
            requires a.x == ONE, a.y == 0, a.z == 0;
        assert(w.x * a.y - w.y * a.x == -(w.y * ONE)) by (nonlinear_arith)
            requires a.x == ONE, a.y == 0, a.z == 0;
        assert(c.y == w.z && c.z == -w.y);
        if w.y == 0 && w.z == 0 {
            crate::vec3::lemma_fine_length_facts(n);
            let len = n.fine_length();
            let s = dot_raw(n, n);
            lemma_small_component(n.y as int, len);
            lemma_small_component(n.z as int, len);
            // |n.x| ONE^2 < (|w.x| + 1) len and 10 |w.x| <= 9 ONE
            let x = n.x * (ONE * ONE);
            lemma_tdiv_bounds(x, len);
            let ax = if x >= 0 { x } else { -x };
            let aw = if w.x >= 0 { w.x as int } else { -w.x };
            assert(ax < (aw + 1) * len);
            assert(10 * aw <= 9 * ONE);
            assert(10 * ax < (9 * ONE + 10) * len) by (nonlinear_arith)
                requires
                    ax < (aw + 1) * len,
                    10 * aw <= 9 * ONE,
                    len >= 1,
                    aw >= 0,
            ;
            lemma_sq_lt(10 * ax, (9 * ONE + 10) * len);
            let xq = x * x;
            let yq = (n.y * (ONE * ONE)) * (n.y * (ONE * ONE));
            let zq = (n.z * (ONE * ONE)) * (n.z * (ONE * ONE));
            lemma_sum_fourth(n, s, xq, yq, zq);
            assert(ax * ax == xq) by (nonlinear_arith)
                requires
                    ax == x || ax == -x,
                    xq == x * x,
            ;
            let l = len * len;
            assert(100 * xq < 1359691876 * l) by (nonlinear_arith)
                requires
                    (10 * ax) * (10 * ax) < ((9 * 4096 + 10) * len) * ((9 * 4096 + 10) * len),
                    ax * ax == xq,
                    l == len * len,
            ;
            assert(false) by (nonlinear_arith)
                requires
                    s * 281474976710656 == xq + yq + zq,
                    100 * xq < 1359691876 * l,
                    yq < l,
                    zq < l,
                    l <= s * 16777216,
                    s >= 1,
            ;
        }
    }
}

pub proof fn lemma_cross_units_bound(w: Vec3, v: Vec3, u: Vec3)
    requires
        within(w, ONE as int),
        within(v, ONE as int),
        u == cross_of(w, v),
    ensures
        within(u, 2 * ONE),
{
    lemma_cross_term(w.y as int, v.z as int, w.z as int, v.y as int);
    lemma_cross_term(w.z as int, v.x as int, w.x as int, v.z as int);
    lemma_cross_term(w.x as int, v.y as int, w.y as int, v.x as int);
}

proof fn lemma_cross_term(a: int, b: int, c: int, d: int)
    requires
        -ONE <= a <= ONE,
        -ONE <= b <= ONE,
        -ONE <= c <= ONE,
        -ONE <= d <= ONE,
    ensures
        -2 * ONE <= tdiv(a * b - c * d, ONE as int) <= 2 * ONE,
{
    assert(-2 * ONE * ONE <= a * b - c * d <= 2 * ONE * ONE) by (nonlinear_arith)
        requires
            -ONE <= a <= ONE,
            -ONE <= b <= ONE,
            -ONE <= c <= ONE,
            -ONE <= d <= ONE,
            ONE == 4096,
    ;
}

} // verus!

verus! {

/// Before it is normalised, the second axis of a basis, `w x helper`, is
/// exactly orthogonal to `w`.
pub proof fn lemma_basis_side_orthogonal(w: Vec3)
    requires
        within(w, ONE as int),
    ensures
        dot_raw(cross_of(w, helper_axis(w)), w) == 0,
{
    let a = helper_axis(w);
    lemma_tdiv_exact(w.x as int);
    lemma_tdiv_exact(w.y as int);
    lemma_tdiv_exact(w.z as int);
    lemma_tdiv_exact(0);
    if 10 * w.x > 9 * ONE || 10 * w.x < -9 * ONE {
        assert(w.y * a.z - w.z * a.y == -(w.z * ONE)) by (nonlinear_arith)
            requires a.x == 0, a.y == ONE, a.z == 0;
        assert(w.z * a.x - w.x * a.z == 0 * ONE) by (nonlinear_arith)
            requires a.x == 0, a.y == ONE, a.z == 0;
        assert(w.x * a.y - w.y * a.x == w.x * ONE) by (nonlinear_arith)
            requires a.x == 0, a.y == ONE, a.z == 0;
        let c = cross_of(w, a);
        assert(c.x == -w.z && c.y == 0 && c.z == w.x);
        assert(dot_raw(c, w) == 0) by (nonlinear_arith)
            requires
                c.x == -w.z,
                c.y == 0,
                c.z == w.x,
                dot_raw(c, w) == c.x * w.x + c.y * w.y + c.z * w.z,
        ;
    } else {
        assert(w.y * a.z - w.z * a.y == 0 * ONE) by (nonlinear_arith)
            requires a.x == ONE, a.y == 0, a.z == 0;
        assert(w.z * a.x - w.x * a.z == w.z * ONE) by (nonlinear_arith)
            requires a.x == ONE, a.y == 0, a.z == 0;
        assert(w.x * a.y - w.y * a.x == -(w.y * ONE)) by (nonlinear_arith)
            requires a.x == ONE, a.y == 0, a.z == 0;
        let c = cross_of(w, a);
        assert(c.x == 0 && c.y == w.z && c.z == -w.y);
        assert(dot_raw(c, w) == 0) by (nonlinear_arith)
            requires
                c.x == 0,
                c.y == w.z,
                c.z == -w.y,
                dot_raw(c, w) == c.x * w.x + c.y * w.y + c.z * w.z,
        ;
    }
}

} // verus!

verus! {

/// Normalising `c`, which is exactly orthogonal to `w`, keeps it orthogonal
/// up to rounding: `|w . unit(c)| <= 3 ONE` in units of `ONE^2`, a cosine of
/// at most `3 / ONE`.
pub proof fn lemma_normalised_orthogonal(w: Vec3, c: Vec3, v: Vec3)
    requires
        within(w, ONE as int),
        c.bounded(),
        !c.is_zero(),
        dot_raw(c, w) == 0,
        v.x == tdiv(c.x * (ONE * ONE), c.fine_length()),
        v.y == tdiv(c.y * (ONE * ONE), c.fine_length()),
        v.z == tdiv(c.z * (ONE * ONE), c.fine_length()),
    ensures
        -3 * ONE <= dot_raw(w, v) <= 3 * ONE,
{
    crate::vec3::lemma_fine_length_facts(c);
    let fl = c.fine_length();
    let o2 = ONE * ONE;
    let rx = lemma_remainder(c.x as int, v.x as int, fl);
    let ry = lemma_remainder(c.y as int, v.y as int, fl);
    let rz = lemma_remainder(c.z as int, v.z as int, fl);
    let d = dot_raw(w, v);
    assert(w.x * (c.x * o2) == (w.x * v.x) * fl + w.x * rx) by (nonlinear_arith)
        requires c.x * o2 == v.x * fl + rx;
    assert(w.y * (c.y * o2) == (w.y * v.y) * fl + w.y * ry) by (nonlinear_arith)
        requires c.y * o2 == v.y * fl + ry;
    assert(w.z * (c.z * o2) == (w.z * v.z) * fl + w.z * rz) by (nonlinear_arith)
        requires c.z * o2 == v.z * fl + rz;
    let (px, py, pz) = (c.x * w.x, c.y * w.y, c.z * w.z);
    assert(w.x * (c.x * o2) == px * o2) by (nonlinear_arith)
        requires px == c.x * w.x;
    assert(w.y * (c.y * o2) == py * o2) by (nonlinear_arith)
        requires py == c.y * w.y;
    assert(w.z * (c.z * o2) == pz * o2) by (nonlinear_arith)
        requires pz == c.z * w.z;
    assert(px * o2 + py * o2 + pz * o2 == (px + py + pz) * o2) by (nonlinear_arith);
    assert(fl * d == (w.x * v.x) * fl + (w.y * v.y) * fl + (w.z * v.z) * fl) by (nonlinear_arith)
        requires d == w.x * v.x + w.y * v.y + w.z * v.z;
    assert(dot_raw(c, w) == c.x * w.x + c.y * w.y + c.z * w.z);
    assert(fl * d == -(w.x * rx + w.y * ry + w.z * rz));
    lemma_small_product(w.x as int, rx, fl);
    lemma_small_product(w.y as int, ry, fl);
    lemma_small_product(w.z as int, rz, fl);
    assert(-3 * ONE <= d <= 3 * ONE) by (nonlinear_arith)
        requires
            fl * d == -(w.x * rx + w.y * ry + w.z * rz),
            -(ONE * fl) <= w.x * rx <= ONE * fl,
            -(ONE * fl) <= w.y * ry <= ONE * fl,
            -(ONE * fl) <= w.z * rz <= ONE * fl,
            fl >= 1,
    ;
}

/// `c ONE^2 = v fl + rem` with `|rem| < fl`, for `v = tdiv(c ONE^2, fl)`.
proof fn lemma_remainder(c: int, v: int, fl: int) -> (rem: int)
    requires
        fl >= 1,
        v == tdiv(c * (ONE * ONE), fl),
    ensures
        c * (ONE * ONE) == v * fl + rem,
        -fl < rem < fl,
{
    let x = c * (ONE * ONE);
    lemma_tdiv_bounds(x, fl);
    assert((v + 1) * fl == v * fl + fl && (-v + 1) * fl == -(v * fl) + fl && -v * fl == -(v * fl)) by (nonlinear_arith);
    x - v * fl
}

proof fn lemma_small_product(a: int, b: int, fl: int)
    requires
        -ONE <= a <= ONE,
        -fl < b < fl,
        fl >= 1,
    ensures
        -(ONE * fl) <= a * b <= ONE * fl,
{
    assert(-(ONE * fl) <= a * b <= ONE * fl) by (nonlinear_arith)
        requires
            -ONE <= a <= ONE,
            -fl < b < fl,
            fl >= 1,
            ONE > 0,
    ;
}

} // verus!
