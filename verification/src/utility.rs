use vstd::prelude::*;

use crate::hittable::RatVec;
use crate::rat::lemma_sqf_is;
use crate::rat::sqf;
use crate::rat::sqrt_floor;
use crate::ray::ORIGIN_BOUND;
use crate::rng::Prng;
use crate::vec3::Vec3i;
use crate::vec3::lemma_prod_bound;
use crate::vec3::lemma_prod_bound2;
use crate::vec3::lemma_self_dot_nonneg;
use crate::vec3::spec_dot;
use crate::vec3::v_in;

verus! {

/// Directions produced by the samplers live at this lattice scale (`2^12`):
/// a "unit" vector has squared length about `UNIT_SCALE^2`.
pub const UNIT_SCALE: i64 = 4096;

/// Signed division with truncation toward zero, written over Euclidean
/// division on magnitudes so its value is pinned exactly.
pub open spec fn spec_tdiv(n: int, d: int) -> int {
    if n >= 0 {
        n / d
    } else {
        -((-n) / d)
    }
}

pub fn tdiv(n: i128, d: i128) -> (r: i128)
    requires
        0 < d,
        -0x4000_0000_0000_0000_0000_0000_0000_0000 < n < 0x4000_0000_0000_0000_0000_0000_0000_0000,
    ensures
        r as int == spec_tdiv(n as int, d as int),
        n >= 0 ==> 0 <= r <= n,
        n < 0 ==> n <= r <= 0,
{
    proof {
        if n >= 0 {
            assert(0 <= n as int / d as int <= n) by (nonlinear_arith)
                requires
                    0 <= n,
                    0 < d,
            ;
        } else {
            assert(0 <= (-n) as int / d as int <= -n) by (nonlinear_arith)
                requires
                    0 < -n,
                    0 < d,
            ;
        }
    }
    if n >= 0 {
        n / d
    } else {
        -((-n) / d)
    }
}

/// An integer draw in `[min, max]`, as the classic helper does.
pub fn random_int_range(rng: &mut Prng, min: i64, max: i64) -> (r: i64)
    requires
        min <= max,
        -0x10_0000 <= min,
        max <= 0x10_0000,
    ensures
        min <= r <= max,
{
    let span = (max - min + 1) as u64;
    let x = rng.next_below(span);
    min + x as i64
}

/// A nonzero lattice vector strictly inside the unit ball at `UNIT_SCALE`,
/// found by rejection from the cube (with a fixed fallback after a bounded
/// number of draws, so the function provably terminates).
pub fn random_unit_sphere(rng: &mut Prng) -> (r: Vec3i)
    ensures
        v_in(r, UNIT_SCALE as int),
        0 < spec_dot(r, r) <= (UNIT_SCALE * UNIT_SCALE) as int,
{
    let mut tries: u64 = 0;
    while tries < 64
        invariant
            tries <= 64,
        decreases 64 - tries,
    {
        let x = random_int_range(rng, -UNIT_SCALE, UNIT_SCALE);
        let y = random_int_range(rng, -UNIT_SCALE, UNIT_SCALE);
        let z = random_int_range(rng, -UNIT_SCALE, UNIT_SCALE);
        let p = Vec3i::new(x, y, z);
        proof {
            crate::vec3::lemma_dot_bound(p, p, UNIT_SCALE as int, UNIT_SCALE as int);
            lemma_self_dot_nonneg(p);
        }
        let q = p.dot(&p);
        if q > 0 && q < (UNIT_SCALE as i128) * (UNIT_SCALE as i128) {
            return p;
        }
        tries = tries + 1;
    }
    Vec3i::new(UNIT_SCALE / 2, 0, 0)
}

/// A sample from the hemisphere around `normal`: a unit-ball sample,
/// flipped to the normal's side.
pub fn random_in_hemisphere(rng: &mut Prng, normal: &Vec3i) -> (r: Vec3i)
    requires
        v_in(*normal, 0x10_0000),
    ensures
        v_in(r, UNIT_SCALE as int),
        0 < spec_dot(r, r) <= (UNIT_SCALE * UNIT_SCALE) as int,
        spec_dot(r, *normal) >= 0,
{
    let p = random_unit_sphere(rng);
    proof {
        crate::vec3::lemma_dot_bound(p, *normal, UNIT_SCALE as int, 0x10_0000);
    }
    let d = p.dot(normal);
    if d > 0 {
        p
    } else {
        let q = p.neg();
        proof {
            assert(spec_dot(q, q) == spec_dot(p, p) && spec_dot(q, *normal) == -spec_dot(
                p,
                *normal,
            )) by (nonlinear_arith)
                requires
                    q.x == -p.x && q.y == -p.y && q.z == -p.z,
            ;
        }
        q
    }
}

/// The direction of `v` scaled to about `UNIT_SCALE`, as a ghost value:
/// each component is `v_i * UNIT_SCALE / floor(|v|)`, truncated.
pub open spec fn spec_unit(v: Vec3i) -> Vec3i {
    Vec3i {
        x: spec_tdiv(v.x * UNIT_SCALE, sqf(spec_dot(v, v))) as i64,
        y: spec_tdiv(v.y * UNIT_SCALE, sqf(spec_dot(v, v))) as i64,
        z: spec_tdiv(v.z * UNIT_SCALE, sqf(spec_dot(v, v))) as i64,
    }
}

/// The direction of `v`, scaled to about `UNIT_SCALE`: each component is
/// `v_i * UNIT_SCALE / floor(|v|)`, truncated.
pub fn unit_approx(v: &Vec3i) -> (r: Vec3i)
    requires
        v_in(*v, 0x10_0000),
        spec_dot(*v, *v) > 0,
    ensures
        v_in(r, UNIT_SCALE as int),
        r == spec_unit(*v),
        r.x as int == spec_tdiv(v.x * UNIT_SCALE, sqf(spec_dot(*v, *v))),
        r.y as int == spec_tdiv(v.y * UNIT_SCALE, sqf(spec_dot(*v, *v))),
        r.z as int == spec_tdiv(v.z * UNIT_SCALE, sqf(spec_dot(*v, *v))),
{
    proof {
        crate::vec3::lemma_dot_bound(*v, *v, 0x10_0000, 0x10_0000);
        lemma_self_dot_nonneg(*v);
    }
    let q = v.dot(v);
    let l = sqrt_floor(q);
    proof {
        lemma_sqf_is(q as int, l as int);
        assert(l >= 1) by (nonlinear_arith)
            requires
                0 <= l,
                l * l <= q,
                q < (l + 1) * (l + 1),
                q > 0,
        ;
        // Each component is bounded by the length, so the result stays at
        // unit scale.
        assert(v.x * v.x <= spec_dot(*v, *v) && v.y * v.y <= spec_dot(*v, *v) && v.z * v.z
            <= spec_dot(*v, *v)) by (nonlinear_arith);
        lemma_component_le_len(v.x as int, q as int, l as int);
        lemma_component_le_len(v.y as int, q as int, l as int);
        lemma_component_le_len(v.z as int, q as int, l as int);
        lemma_prod_bound(v.x as int, UNIT_SCALE as int, 0x10_0000);
        lemma_prod_bound(v.y as int, UNIT_SCALE as int, 0x10_0000);
        lemma_prod_bound(v.z as int, UNIT_SCALE as int, 0x10_0000);
    }
    let rx = tdiv((v.x as i128) * (UNIT_SCALE as i128), l);
    let ry = tdiv((v.y as i128) * (UNIT_SCALE as i128), l);
    let rz = tdiv((v.z as i128) * (UNIT_SCALE as i128), l);
    proof {
        lemma_unit_div_bound(v.x as int, l as int, q as int);
        lemma_unit_div_bound(v.y as int, l as int, q as int);
        lemma_unit_div_bound(v.z as int, l as int, q as int);
    }
    Vec3i::new(rx as i64, ry as i64, rz as i64)
}

/// `x^2 <= q < (l+1)^2` bounds `|x|` by `l`.
proof fn lemma_component_le_len(x: int, q: int, l: int)
    by (nonlinear_arith)
    requires
        0 <= l,
        x * x <= q,
        q < (l + 1) * (l + 1),
    ensures
        -l <= x <= l,
{
}

/// `|x| <= l` bounds the scaled quotient by `UNIT_SCALE`.
proof fn lemma_unit_div_bound(x: int, l: int, q: int)
    by (nonlinear_arith)
    requires
        1 <= l,
        -l <= x <= l,
    ensures
        -(UNIT_SCALE as int) <= spec_tdiv(x * (UNIT_SCALE as int), l) <= UNIT_SCALE as int,
{
}

/// Clamp into the admissible ray-origin range.
pub open spec fn spec_clamp_origin(x: int) -> int {
    if x > ORIGIN_BOUND as int {
        ORIGIN_BOUND as int
    } else if x < -(ORIGIN_BOUND as int) {
        -(ORIGIN_BOUND as int)
    } else {
        x
    }
}

/// An exact rational point, truncated to the lattice and clamped into the
/// admissible ray-origin range.
pub open spec fn spec_round_point(p: RatVec) -> Vec3i {
    Vec3i {
        x: spec_clamp_origin(spec_tdiv(p.nx as int, p.den as int)) as i64,
        y: spec_clamp_origin(spec_tdiv(p.ny as int, p.den as int)) as i64,
        z: spec_clamp_origin(spec_tdiv(p.nz as int, p.den as int)) as i64,
    }
}

pub fn round_point(p: &RatVec) -> (r: Vec3i)
    requires
        p.wf(),
    ensures
        v_in(r, ORIGIN_BOUND as int),
        r == spec_round_point(*p),
{
    let x = tdiv(p.nx, p.den);
    let y = tdiv(p.ny, p.den);
    let z = tdiv(p.nz, p.den);
    Vec3i::new(clamp_i64(x), clamp_i64(y), clamp_i64(z))
}

fn clamp_i64(x: i128) -> (r: i64)
    ensures
        -ORIGIN_BOUND <= r <= ORIGIN_BOUND,
        r as int == spec_clamp_origin(x as int),
{
    if x > ORIGIN_BOUND as i128 {
        ORIGIN_BOUND
    } else if x < -(ORIGIN_BOUND as i128) {
        -ORIGIN_BOUND
    } else {
        x as i64
    }
}

/// A nonzero lattice vector has positive squared length.
pub proof fn lemma_nonzero_dot(v: Vec3i)
    by (nonlinear_arith)
    requires
        !(v.x == 0 && v.y == 0 && v.z == 0),
    ensures
        spec_dot(v, v) > 0,
{
}

/// Clamp into the widened direction range.
pub open spec fn spec_clamp_half(x: int) -> int {
    if x > 0x8_0000 {
        0x8_0000
    } else if x < -0x8_0000 {
        -0x8_0000
    } else {
        x
    }
}

/// An exact rational vector, scaled to `UNIT_SCALE` and truncated to the
/// lattice; the zero vector falls back to a fixed axis.
pub open spec fn spec_rat_dir(v: RatVec) -> Vec3i {
    let x = spec_clamp_half(spec_tdiv(v.nx * (UNIT_SCALE as int), v.den as int));
    let y = spec_clamp_half(spec_tdiv(v.ny * (UNIT_SCALE as int), v.den as int));
    let z = spec_clamp_half(spec_tdiv(v.nz * (UNIT_SCALE as int), v.den as int));
    if x == 0 && y == 0 && z == 0 {
        Vec3i { x: 1, y: 0, z: 0 }
    } else {
        Vec3i { x: x as i64, y: y as i64, z: z as i64 }
    }
}

/// An integer direction approximating an exact rational vector, at
/// `UNIT_SCALE` for unit-ish inputs; a vector that truncates to zero falls
/// back to a fixed axis.
pub fn rat_dir(v: &RatVec) -> (r: Vec3i)
    requires
        v.wf(),
    ensures
        v_in(r, 0x8_0000),
        !(r.x == 0 && r.y == 0 && r.z == 0),
        r == spec_rat_dir(*v),
{
    proof {
        crate::vec3::lemma_prod_bound2(
            v.nx as int,
            UNIT_SCALE as int,
            crate::hittable::RV_NUM_BOUND as int,
            UNIT_SCALE as int,
        );
        crate::vec3::lemma_prod_bound2(
            v.ny as int,
            UNIT_SCALE as int,
            crate::hittable::RV_NUM_BOUND as int,
            UNIT_SCALE as int,
        );
        crate::vec3::lemma_prod_bound2(
            v.nz as int,
            UNIT_SCALE as int,
            crate::hittable::RV_NUM_BOUND as int,
            UNIT_SCALE as int,
        );
    }
    let x = clamp_half(tdiv(v.nx * (UNIT_SCALE as i128), v.den));
    let y = clamp_half(tdiv(v.ny * (UNIT_SCALE as i128), v.den));
    let z = clamp_half(tdiv(v.nz * (UNIT_SCALE as i128), v.den));
    if x == 0 && y == 0 && z == 0 {
        Vec3i::new(1, 0, 0)
    } else {
        Vec3i::new(x, y, z)
    }
}

fn clamp_half(x: i128) -> (r: i64)
    ensures
        -0x8_0000 <= r <= 0x8_0000,
        r as int == spec_clamp_half(x as int),
{
    if x > 0x8_0000 {
        0x8_0000
    } else if x < -0x8_0000 {
        -0x8_0000
    } else {
        x as i64
    }
}

pub open spec fn fit_in_range(x: int, y: int, z: int) -> bool {
    -0x8_0000 <= x <= 0x8_0000 && -0x8_0000 <= y <= 0x8_0000 && -0x8_0000 <= z <= 0x8_0000
}

/// Halve all three components until they fit, for at most `k` steps.
pub open spec fn spec_fit_step(x: int, y: int, z: int, k: nat) -> (int, int, int)
    decreases k,
{
    if k == 0 || fit_in_range(x, y, z) {
        (x, y, z)
    } else {
        spec_fit_step(spec_tdiv(x, 2), spec_tdiv(y, 2), spec_tdiv(z, 2), (k - 1) as nat)
    }
}

/// A sampled direction, shrunk into the admissible range by repeated
/// halving; a vector that collapses to zero (or cannot be shrunk in 64
/// steps) falls back to a fixed axis direction.
pub open spec fn spec_fit_dir(v: Vec3i) -> Vec3i {
    let (x, y, z) = spec_fit_step(v.x as int, v.y as int, v.z as int, 64);
    if (x == 0 && y == 0 && z == 0) || !fit_in_range(x, y, z) {
        Vec3i { x: 1, y: 0, z: 0 }
    } else {
        Vec3i { x: x as i64, y: y as i64, z: z as i64 }
    }
}

pub fn fit_dir(v: Vec3i) -> (r: Vec3i)
    ensures
        v_in(r, 0x10_0000),
        !(r.x == 0 && r.y == 0 && r.z == 0),
        r == spec_fit_dir(v),
{
    let mut x: i128 = v.x as i128;
    let mut y: i128 = v.y as i128;
    let mut z: i128 = v.z as i128;
    let mut k: u64 = 0;
    while (x > 0x8_0000 || x < -0x8_0000 || y > 0x8_0000 || y < -0x8_0000 || z > 0x8_0000 || z
        < -0x8_0000) && k < 64
        invariant
            k <= 64,
            -0x8000_0000_0000_0000 <= x <= 0x8000_0000_0000_0000,
            -0x8000_0000_0000_0000 <= y <= 0x8000_0000_0000_0000,
            -0x8000_0000_0000_0000 <= z <= 0x8000_0000_0000_0000,
            spec_fit_step(v.x as int, v.y as int, v.z as int, 64) == spec_fit_step(
                x as int,
                y as int,
                z as int,
                (64 - k) as nat,
            ),
        decreases 64 - k,
    {
        x = tdiv(x, 2);
        y = tdiv(y, 2);
        z = tdiv(z, 2);
        k = k + 1;
    }
    if x == 0 && y == 0 && z == 0 {
        Vec3i::new(1, 0, 0)
    } else {
        if x > 0x8_0000 || x < -0x8_0000 || y > 0x8_0000 || y < -0x8_0000 || z > 0x8_0000 || z
            < -0x8_0000 {
            Vec3i::new(1, 0, 0)
        } else {
            Vec3i::new(x as i64, y as i64, z as i64)
        }
    }
}

} // verus!
