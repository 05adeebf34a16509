use vstd::prelude::*;
use vstd::pervasive::VecAdditionalExecFns;

use crate::bvh::lemma_swap_contains;
use crate::rng::Prng;
use crate::utility::UNIT_SCALE;
use crate::utility::random_unit_sphere;
use crate::vec3::Vec3i;
use crate::vec3::v_in;

verus! {

/// Size of the permutation tables.
pub const POINT_COUNT: usize = 256;

/// A permutation of `0..256`: every index occurs (exactly) once.
pub open spec fn is_perm(s: Seq<usize>) -> bool {
    &&& s.len() == POINT_COUNT
    &&& forall|i: int| 0 <= i < s.len() ==> (#[trigger] s[i]) < POINT_COUNT
    &&& forall|v: usize| v < POINT_COUNT ==> s.contains(v)
}

/// Shuffle the identity table by backward Fisher-Yates draws.
pub fn perlin_generate_perm(rng: &mut Prng) -> (p: Vec<usize>)
    ensures
        is_perm(p@),
{
    let mut p: Vec<usize> = Vec::new();
    let mut i: usize = 0;
    while i < POINT_COUNT
        invariant
            i <= POINT_COUNT,
            p@.len() == i,
            forall|k: int| 0 <= k < i ==> (#[trigger] p@[k]) == k,
        decreases POINT_COUNT - i,
    {
        p.push(i);
        i = i + 1;
    }
    proof {
        assert forall|v: usize| v < POINT_COUNT implies p@.contains(v) by {
            assert(p@[v as int] == v);
        }
    }
    let mut j: usize = POINT_COUNT - 1;
    while j > 0
        invariant
            j < POINT_COUNT,
            p@.len() == POINT_COUNT,
            forall|k: int| 0 <= k < p@.len() ==> (#[trigger] p@[k]) < POINT_COUNT,
            forall|v: usize| v < POINT_COUNT ==> p@.contains(v),
        decreases j,
    {
        let target = rng.next_below((j + 1) as u64) as usize;
        let ghost prev = p@;
        let a = p[j];
        let b = p[target];
        p.set(j, b);
        p.set(target, a);
        proof {
            lemma_swap_contains(prev, p@, j as int, target as int);
        }
        j = j - 1;
    }
    p
}

/// Procedural noise support: a table of random lattice directions and three
/// shuffled index tables that hash grid cells onto them.  The trilinear
/// interpolation and the turbulence sum feed a sine-based texture; that
/// sampling has no exact lattice form and is not provided here, but the
/// tables it would draw from are built and pinned exactly.
#[derive(Debug)]
pub struct Perlin {
    pub ranvec: Vec<Vec3i>,
    pub perm_x: Vec<usize>,
    pub perm_y: Vec<usize>,
    pub perm_z: Vec<usize>,
}

impl Perlin {
    pub open spec fn wf(self) -> bool {
        &&& self.ranvec@.len() == POINT_COUNT
        &&& forall|i: int|
            0 <= i < self.ranvec@.len() ==> v_in(#[trigger] self.ranvec@[i], UNIT_SCALE as int)
        &&& is_perm(self.perm_x@)
        &&& is_perm(self.perm_y@)
        &&& is_perm(self.perm_z@)
    }

    pub fn new(rng: &mut Prng) -> (s: Perlin)
        ensures
            s.wf(),
    {
        let mut ranvec: Vec<Vec3i> = Vec::new();
        let mut i: usize = 0;
        while i < POINT_COUNT
            invariant
                i <= POINT_COUNT,
                ranvec@.len() == i,
                forall|k: int|
                    0 <= k < ranvec@.len() ==> v_in(#[trigger] ranvec@[k], UNIT_SCALE as int),
            decreases POINT_COUNT - i,
        {
            ranvec.push(random_unit_sphere(rng));
            i = i + 1;
        }
        let perm_x = perlin_generate_perm(rng);
        let perm_y = perlin_generate_perm(rng);
        let perm_z = perlin_generate_perm(rng);
        Perlin { ranvec, perm_x, perm_y, perm_z }
    }

    /// The hashed direction of a grid corner: the three permutation tables
    /// are combined by exclusive or, exactly as the classic hashing does.
    pub fn corner_vector(&self, i: usize, j: usize, k: usize) -> (r: Vec3i)
        requires
            self.wf(),
        ensures
            v_in(r, UNIT_SCALE as int),
    {
        let xi = self.perm_x[i % POINT_COUNT];
        let yj = self.perm_y[j % POINT_COUNT];
        let zk = self.perm_z[k % POINT_COUNT];
        let idx = xi ^ yj ^ zk;
        proof {
            assert(xi < 256 && yj < 256 && zk < 256 ==> (xi ^ yj ^ zk) < 256) by (bit_vector);
        }
        self.ranvec[idx]
    }
}

} // verus!
