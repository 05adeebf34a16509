use vstd::prelude::*;

use crate::rat::Rat;
use crate::rat::Sc;
use crate::vec3::Vec3i;
use crate::vec3::spec_axis;
use crate::vec3::v_in;

verus! {

/// Componentwise bound on scene geometry (box corners, sphere centers,
/// radii, offsets): `2^20` lattice steps.
pub const GEOM_BOUND: i64 = 1048576;

/// Componentwise bound on ray directions.
pub const DIR_BOUND: i64 = 1048576;

/// Componentwise bound on ray origins handed to the library: `2^38`.
pub const ORIGIN_BOUND: i64 = 274877906944;

/// Origins may grow while a ray is re-based through nested translations;
/// they always stay under `2^39`.
pub const ORIGIN_ROOM: i64 = 549755813888;

/// Bound on axis-aligned bounding-box corners, which also absorb nested
/// translation offsets: `2^30`.
pub const BOX_BOUND: i64 = 1073741824;

/// A ray `origin + t * dir`, with the shutter time at which it was cast.
/// `t` values are exact rationals; the direction need not be normalized.
#[derive(Clone, Copy, Debug)]
pub struct Ray {
    pub orig: Vec3i,
    pub dir: Vec3i,
    pub time: Rat,
}

impl Ray {
    pub open spec fn wf(self) -> bool {
        &&& v_in(self.orig, ORIGIN_BOUND as int)
        &&& v_in(self.dir, DIR_BOUND as int)
        &&& self.time.wf()
    }

    /// Origins that have room for `slack` more lattice steps of re-basing.
    pub open spec fn orig_in(self, slack: int) -> bool {
        &&& v_in(self.orig, ORIGIN_ROOM - slack)
        &&& v_in(self.dir, DIR_BOUND as int)
        &&& self.time.wf()
    }

    pub fn new(orig: Vec3i, dir: Vec3i, time: Rat) -> (r: Ray)
        ensures
            r == (Ray { orig, dir, time }),
    {
        Ray { orig, dir, time }
    }

    pub fn origin(&self) -> (r: Vec3i)
        ensures
            r == self.orig,
    {
        self.orig
    }

    pub fn direction(&self) -> (r: Vec3i)
        ensures
            r == self.dir,
    {
        self.dir
    }

    pub fn time(&self) -> (r: Rat)
        ensures
            r == self.time,
    {
        self.time
    }
}

/// The position of the ray at parameter `t`, along axis `a`, as a rational
/// with denominator `t.d`: `orig + t * dir` cleared of its denominator.
pub open spec fn at_num(r: Ray, t: Sc, a: int) -> int {
    spec_axis(r.orig, a) * t.d + t.n * spec_axis(r.dir, a)
}

} // verus!
