use vstd::prelude::*;
use rand::rngs::StdRng;
use crate::fixed::ONE;
use crate::rng::random_below;
use crate::vec3::{within, Vec3};

verus! {

/// The number of lattice gradients and the length of each permutation table.
pub const POINT_COUNT: usize = 256;

/// `s` holds each of `0..n` exactly once.
pub open spec fn is_permutation(s: Seq<usize>, n: int) -> bool {
    &&& s.len() == n
    &&& forall|i: int| 0 <= i < n ==> #[trigger] s[i] < n
    &&& forall|i: int, j: int| 0 <= i < j < n ==> s[i] != s[j]
}

/// The random tables of lattice-gradient noise: one gradient per lattice
/// point and three permutations that hash lattice coordinates.
#[derive(Debug)]
pub struct Perlin {
    pub ran_vec: Vec<Vec3>,
    pub perm_x: Vec<usize>,
    pub perm_y: Vec<usize>,
    pub perm_z: Vec<usize>,
}

impl Perlin {
    pub open spec fn wf(self) -> bool {
        &&& self.ran_vec@.len() == POINT_COUNT
        &&& forall|i: int| 0 <= i < POINT_COUNT ==> within(#[trigger] self.ran_vec@[i], ONE as int)
        &&& is_permutation(self.perm_x@, POINT_COUNT as int)
        &&& is_permutation(self.perm_y@, POINT_COUNT as int)
        &&& is_permutation(self.perm_z@, POINT_COUNT as int)
    }

    /// Draws the gradients, each component uniform in `[-1, 1)`, and three
    /// random permutations.
    pub fn new(rng: &mut StdRng) -> (p: Perlin)
        ensures
            p.wf(),
            forall|i: int| 0 <= i < POINT_COUNT ==> #[trigger] drawn_gradient(p.ran_vec@[i]),
            is_shuffle(p.perm_x@),
            is_shuffle(p.perm_y@),
            is_shuffle(p.perm_z@),
    {
        let mut ran_vec: Vec<Vec3> = Vec::new();
        let mut i: usize = 0;
        while i < POINT_COUNT
            invariant
                i <= POINT_COUNT,
                ran_vec@.len() == i,
                forall|k: int| 0 <= k < i ==> within(#[trigger] ran_vec@[k], ONE as int),
                forall|k: int| 0 <= k < i ==> drawn_gradient(#[trigger] ran_vec@[k]),
            decreases POINT_COUNT - i,
        {
            let x = random_below(rng, 2 * ONE as u64) as i64 - ONE;
            let y = random_below(rng, 2 * ONE as u64) as i64 - ONE;
            let z = random_below(rng, 2 * ONE as u64) as i64 - ONE;
            ran_vec.push(Vec3::new(x, y, z));
            i = i + 1;
        }
        let perm_x = Self::perlin_generate_perm(rng);
        let perm_y = Self::perlin_generate_perm(rng);
        let perm_z = Self::perlin_generate_perm(rng);
        Perlin { ran_vec, perm_x, perm_y, perm_z }
    }

    /// A random permutation of `0..POINT_COUNT`: the identity shuffled with
    /// some valid draws.
    pub fn perlin_generate_perm(rng: &mut StdRng) -> (p: Vec<usize>)
        ensures
            is_permutation(p@, POINT_COUNT as int),
            exists|tg: Seq<usize>|
                valid_targets(tg, POINT_COUNT as int) && p@ == shuffled(
                    identity(POINT_COUNT as int),
                    tg,
                    POINT_COUNT as int,
                ),
    {
        let mut p: Vec<usize> = Vec::new();
        let mut i: usize = 0;
        while i < POINT_COUNT
            invariant
                i <= POINT_COUNT,
                p@.len() == i,
                forall|k: int| 0 <= k < i ==> #[trigger] p@[k] == k,
            decreases POINT_COUNT - i,
        {
            p.push(i);
            i = i + 1;
        }
        assert(p@ =~= identity(POINT_COUNT as int));
        Self::permute(&mut p, rng);
        p
    }

    /// Shuffles `p` by swapping each position, from the last down, with a
    /// random earlier one.
    fn permute(p: &mut Vec<usize>, rng: &mut StdRng)
        requires
            is_permutation(old(p)@, POINT_COUNT as int),
        ensures
            is_permutation(final(p)@, POINT_COUNT as int),
            exists|tg: Seq<usize>|
                valid_targets(tg, POINT_COUNT as int) && final(p)@ == shuffled(
                    old(p)@,
                    tg,
                    POINT_COUNT as int,
                ),
    {
        let mut targets: Vec<usize> = Vec::new();
        targets.push(0);
        let mut i: usize = 1;
        while i < POINT_COUNT
            invariant
                1 <= i <= POINT_COUNT,
                targets@.len() == i,
                forall|k: int| 1 <= k < i ==> #[trigger] targets@[k] < k,
            decreases POINT_COUNT - i,
        {
            let target = random_below(rng, i as u64) as usize;
            targets.push(target);
            i = i + 1;
        }
        let ghost start = p@;
        apply_swaps(p, &targets);
        assert(valid_targets(targets@, POINT_COUNT as int) && p@ == shuffled(start, targets@, POINT_COUNT as int));
    }
}

/// Each component lies in `[-1, 1)`, as the draws give them.
pub open spec fn drawn_gradient(v: Vec3) -> bool {
    -ONE <= v.x < ONE && -ONE <= v.y < ONE && -ONE <= v.z < ONE
}

/// `s` is the identity of `0..POINT_COUNT` shuffled by some valid draws.
pub open spec fn is_shuffle(s: Seq<usize>) -> bool {
    exists|tg: Seq<usize>|
        valid_targets(tg, POINT_COUNT as int) && s == shuffled(identity(POINT_COUNT as int), tg, POINT_COUNT as int)
}

/// `0, 1, ..., n - 1`.
pub open spec fn identity(n: int) -> Seq<usize> {
    Seq::new(n as nat, |k: int| k as usize)
}

/// `tg` names, for every position `k` in `1..n`, an earlier position `tg[k] < k`.
pub open spec fn valid_targets(tg: Seq<usize>, n: int) -> bool {
    tg.len() == n && forall|k: int| 1 <= k < n ==> #[trigger] tg[k] < k
}

/// `s` with positions `i` and `j` exchanged.
pub open spec fn swapped(s: Seq<usize>, i: int, j: int) -> Seq<usize> {
    s.update(i, s[j]).update(j, s[i])
}

/// `s` after swapping position `k` with `tg[k]` for `k = n - 1` down to `1`.
pub open spec fn shuffled(s: Seq<usize>, tg: Seq<usize>, n: int) -> Seq<usize>
    decreases n,
{
    if n <= 1 {
        s
    } else {
        shuffled(swapped(s, n - 1, tg[n - 1] as int), tg, n - 1)
    }
}

/// Applies the swaps of `targets` to `p`, from the last position down.
pub fn apply_swaps(p: &mut Vec<usize>, targets: &Vec<usize>)
    requires
        is_permutation(old(p)@, POINT_COUNT as int),
        valid_targets(targets@, POINT_COUNT as int),
    ensures
        final(p)@ == shuffled(old(p)@, targets@, POINT_COUNT as int),
        is_permutation(final(p)@, POINT_COUNT as int),
{
    let mut i: usize = POINT_COUNT - 1;
    while i > 0
        invariant
            i < POINT_COUNT,
            valid_targets(targets@, POINT_COUNT as int),
            is_permutation(p@, POINT_COUNT as int),
            shuffled(p@, targets@, i + 1) == shuffled(old(p)@, targets@, POINT_COUNT as int),
        decreases i,
    {
        let target = targets[i];
        let ghost before = p@;
        let a = p[i];
        let b = p[target];
        p.set(i, b);
        p.set(target, a);
        assert(p@ =~= swapped(before, i as int, target as int));
        i = i - 1;
    }
}

} // verus!
