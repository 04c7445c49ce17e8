use vstd::prelude::*;

verus! {

/// The fixed-point representation of `1.0`.
pub const ONE: i64 = 4096;

/// The largest magnitude of a coordinate that the geometric operations accept.
pub const LIM: i64 = 16777216;

/// Whether `v` lies within the coordinate range `[-LIM, LIM]`.
pub open spec fn in_lim(v: int) -> bool {
    -LIM <= v <= LIM
}

/// Whether `v` is representable as an `i64`.
pub open spec fn fits_i64(v: int) -> bool {
    i64::MIN <= v <= i64::MAX
}

/// Division of `a` by a positive `b`, rounded toward zero (as Rust's `/` rounds).
pub open spec fn tdiv(a: int, b: int) -> int {
    if a >= 0 {
        a / b
    } else {
        -((-a) / b)
    }
}

/// Division rounded toward zero, for a divisor of either sign.
pub open spec fn trunc_div(a: int, b: int) -> int {
    if b > 0 {
        tdiv(a, b)
    } else {
        tdiv(-a, -b)
    }
}

/// The product of two fixed-point numbers, rounded toward zero.
pub open spec fn fx_mul(a: int, b: int) -> int {
    tdiv(a * b, ONE as int)
}

/// Whether `r` is the integer square root of `n`.
pub open spec fn is_isqrt(n: int, r: int) -> bool {
    0 <= r && r * r <= n < (r + 1) * (r + 1)
}

/// The integer square root of a non-negative `n`: the largest `r` with `r * r <= n`.
pub open spec fn isqrt(n: int) -> int {
    choose|r: int| is_isqrt(n, r)
}

/// The integer square root is unique.
pub proof fn lemma_isqrt_unique(n: int, r1: int, r2: int)
    requires
        is_isqrt(n, r1),
        is_isqrt(n, r2),
    ensures
        r1 == r2,
{
    if r1 < r2 {
        assert((r1 + 1) * (r1 + 1) <= r2 * r2) by (nonlinear_arith)
            requires
                0 <= r1 < r2,
        ;
    } else if r2 < r1 {
        assert((r2 + 1) * (r2 + 1) <= r1 * r1) by (nonlinear_arith)
            requires
                0 <= r2 < r1,
        ;
    }
}

/// `r` is the integer square root of `n` exactly when `is_isqrt` holds.
pub proof fn lemma_isqrt_spec(n: int, r: int)
    requires
        is_isqrt(n, r),
    ensures
        isqrt(n) == r,
{
    assert(is_isqrt(n, r));
    let c = isqrt(n);
    assert(is_isqrt(n, c));
    lemma_isqrt_unique(n, r, c);
}

/// Division toward zero by a positive `d`: the quotient's magnitude `q`
/// satisfies `q * d <= |x| < (q + 1) * d`.
pub proof fn lemma_tdiv_bounds(x: int, d: int)
    requires
        d > 0,
    ensures
        x >= 0 ==> tdiv(x, d) >= 0 && tdiv(x, d) * d <= x < (tdiv(x, d) + 1) * d,
        x < 0 ==> tdiv(x, d) <= 0 && -tdiv(x, d) * d <= -x < (-tdiv(x, d) + 1) * d,
{
    let ax = if x >= 0 { x } else { -x };
    vstd::arithmetic::div_mod::lemma_fundamental_div_mod(ax, d);
    vstd::arithmetic::div_mod::lemma_mod_pos_bound(ax, d);
    vstd::arithmetic::div_mod::lemma_div_pos_is_pos(ax, d);
    let q = ax / d;
    assert(q * d == d * q) by (nonlinear_arith);
    assert((q + 1) * d == d * q + d) by (nonlinear_arith);
}

/// Every non-negative integer has an integer square root.
pub proof fn lemma_isqrt_exists(n: int) -> (r: int)
    requires
        n >= 0,
    ensures
        is_isqrt(n, r),
    decreases n,
{
    if n == 0 {
        0
    } else {
        let p = lemma_isqrt_exists(n - 1);
        if (p + 1) * (p + 1) <= n {
            assert(n < (p + 1 + 1) * (p + 1 + 1)) by (nonlinear_arith)
                requires
                    n - 1 < (p + 1) * (p + 1),
                    p >= 0,
            ;
            p + 1
        } else {
            p
        }
    }
}

/// Division of `a` by a positive `b`, rounded toward zero.
pub fn div_trunc(a: i128, b: i128) -> (r: i128)
    requires
        b > 0,
        a > i128::MIN,
    ensures
        r == tdiv(a as int, b as int),
{
    if a >= 0 {
        a / b
    } else {
        let q = (-a) / b;
        -q
    }
}

/// Division rounded toward zero, for a non-zero divisor of either sign.
pub fn div_trunc_signed(a: i128, b: i128) -> (r: i128)
    requires
        b != 0,
        a > i128::MIN,
        b > i128::MIN,
    ensures
        r == trunc_div(a as int, b as int),
{
    if b > 0 {
        div_trunc(a, b)
    } else {
        div_trunc(-a, -b)
    }
}

/// The integer square root of `n`, by bisection.
pub fn isqrt_u128(n: u128) -> (r: u128)
    ensures
        is_isqrt(n as int, r as int),
        r == isqrt(n as int),
{
    let mut lo: u128 = 0;
    let mut hi: u128 = 0x1_0000_0000_0000_0000;
    assert(hi * hi > n) by (nonlinear_arith)
        requires
            hi == 0x1_0000_0000_0000_0000u128,
            n <= u128::MAX,
    ;
    while hi - lo > 1
        invariant
            lo < hi <= 0x1_0000_0000_0000_0000u128,
            lo * lo <= n,
            n < hi * hi,
        decreases hi - lo,
    {
        let mid: u128 = lo + (hi - lo) / 2;
        assert(mid < 0x1_0000_0000_0000_0000u128);
        assert(mid * mid <= 0xFFFF_FFFF_FFFF_FFFE_0000_0000_0000_0001u128) by (nonlinear_arith)
            requires
                mid <= 0xFFFF_FFFF_FFFF_FFFFu128,
        ;
        let sq: u128 = mid * mid;
        if sq <= n {
            lo = mid;
        } else {
            hi = mid;
        }
    }
    assert(hi == lo + 1);
    proof {
        lemma_isqrt_spec(n as int, lo as int);
    }
    lo
}

/// The integer square root of a non-negative `i128`.
pub fn isqrt_i128(n: i128) -> (r: i128)
    requires
        n >= 0,
    ensures
        is_isqrt(n as int, r as int),
        r == isqrt(n as int),
        r <= n,
{
    let r = isqrt_u128(n as u128);
    assert(r <= n) by (nonlinear_arith)
        requires
            r * r <= n,
            n < (r + 1) * (r + 1),
            r >= 0,
    ;
    r as i128
}

} // verus!
