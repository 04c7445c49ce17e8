use vstd::prelude::*;
use crate::fixed::{isqrt, tdiv, LIM, ONE};
use crate::onb::{unit_of, OrthonormalBasis};
use crate::vec3::{dot_raw, Vec3};

verus! {

/// `pi` in fixed point.
pub const PI: i64 = 12868;

/// A cosine-weighted distribution of directions around a normal.
#[derive(Clone, Copy, Debug, PartialEq, Eq, Structural)]
pub struct CosinePDF {
    pub uvw: OrthonormalBasis,
}

/// The density `max(cos(direction, w) / pi, 0)`, with the cosine taken as the
/// fixed-point dot product of the normalised direction with `w`.
pub open spec fn cosine_density(direction: Vec3, w: Vec3) -> int {
    let cos = tdiv(dot_raw(unit_of(direction), w), ONE as int);
    let d = tdiv(cos * ONE, PI as int);
    if d < 0 {
        0
    } else {
        d
    }
}

impl CosinePDF {
    /// The distribution around the non-zero normal `w`.
    pub fn new(w: Vec3) -> (p: CosinePDF)
        requires
            w.bounded(),
            !w.is_zero(),
        ensures
            p.uvw == OrthonormalBasis::spec_from_w(w),
            p.uvw.wf(),
    {
        CosinePDF { uvw: OrthonormalBasis::from_w(w) }
    }

    /// The density of `direction`, which must be non-zero.
    pub fn value(&self, direction: Vec3) -> (r: i64)
        requires
            self.uvw.wf(),
            direction.bounded(),
            !direction.is_zero(),
        ensures
            r == cosine_density(direction, self.uvw.w),
            0 <= r <= ONE,
    {
        let u = direction.unit_vector();
        assert(u == unit_of(direction));
        proof {
            crate::material::lemma_dot_within(u, self.uvw.w, 1, 1);
        }
        let cos = u.dot(self.uvw.w);
        proof {
            let c = cos as int;
            assert(c * 4096 <= 3 * 4096 * 4096);
            assert((c * 4096) / 12868 <= 4096) by (nonlinear_arith)
                requires
                    c * 4096 <= 3 * 4096 * 4096,
            ;
        }
        let d = crate::fixed::div_trunc(cos as i128 * ONE as i128, PI as i128);
        if d < 0 {
            0
        } else {
            d as i64
        }
    }
}

} // verus!

verus! {

/// The sum of the first `n` densities, each clamped into `[0, LIM]`.
pub open spec fn clamped_sum(values: Seq<i64>, n: int) -> int
    decreases n,
{
    if n <= 0 {
        0
    } else {
        clamped_sum(values, n - 1) + crate::hittable::clamp_density(values[n - 1] as int)
    }
}

/// The density of uniform sampling over several lights: the mean of their
/// densities (each clamped into `[0, LIM]`); zero for no lights.
pub fn lights_density(values: &Vec<i64>) -> (d: i64)
    requires
        values@.len() <= 1_000_000,
    ensures
        values@.len() == 0 ==> d == 0,
        values@.len() > 0 ==> d == clamped_sum(values@, values@.len() as int) / (values@.len() as int),
{
    let n = values.len();
    if n == 0 {
        return 0;
    }
    let mut sum: i64 = 0;
    let mut i: usize = 0;
    while i < n
        invariant
            n == values@.len(),
            n <= 1_000_000,
            i <= n,
            sum == clamped_sum(values@, i as int),
            0 <= sum <= i * LIM,
        decreases n - i,
    {
        let v = values[i];
        let c = if v < 0 {
            0
        } else if v > LIM {
            LIM
        } else {
            v
        };
        proof {
            assert(i * LIM + LIM == (i + 1) * LIM) by (nonlinear_arith);
            assert((i + 1) * LIM <= 1_000_000 * LIM) by (nonlinear_arith)
                requires
                    i + 1 <= 1_000_000,
            ;
        }
        sum = sum + c;
        i = i + 1;
    }
    sum / (n as i64)
}

/// The index of a light drawn uniformly from `n` of them.
pub fn choose_light(rng: &mut rand::rngs::StdRng, n: usize) -> (k: usize)
    requires
        n > 0,
    ensures
        k < n,
{
    crate::rng::random_below(rng, n as u64) as usize
}

} // verus!
