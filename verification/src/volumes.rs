use vstd::prelude::*;

use crate::color::rat_canon;
use crate::hittable::HitModel;
use crate::hittable::HitRecord;
use crate::hittable::RatVec;
use crate::hittable::ray_point;
use crate::material::Surface;
use crate::rat::Rat;
use crate::rat::lemma_sqf_is;
use crate::rat::qlt;
use crate::rat::sqrt_floor;
use crate::ray::DIR_BOUND;
use crate::ray::Ray;
use crate::rng::Prng;
use crate::texture::SurfaceTexture;
use crate::vec3::lemma_dot_bound;
use crate::vec3::lemma_prod_bound2;
use crate::vec3::v_in;

verus! {

/// A constant-density participating medium bounded by a primitive: a ray
/// entering the boundary scatters after a random free flight, or passes
/// through if the sampled flight outruns the distance inside.
#[derive(Debug)]
pub struct Constant {
    pub boundary: Box<HitModel>,
    /// The medium's density as an exact rational, positive.
    pub density: Rat,
    pub phase_function: Surface,
}


/// Rationals over one denominator compare by numerator alone.
proof fn lemma_samden(an: int, bn: int, d: int)
    by (nonlinear_arith)
    requires
        0 < d,
    ensures
        crate::rat::qlt(
            crate::rat::Sc { n: an, d: d },
            crate::rat::Sc { n: bn, d: d },
        ) <==> an < bn,
        crate::rat::qle(
            crate::rat::Sc { n: an, d: d },
            crate::rat::Sc { n: bn, d: d },
        ) <==> an <= bn,
{
}

/// Saturation used for clipped volume parameters.
pub open spec fn spec_clamp_tn(x: int) -> int {
    if x > 0x2000_0000_0000 {
        0x2000_0000_0000
    } else if x < -0x2000_0000_0000 {
        -0x2000_0000_0000
    } else {
        x
    }
}

/// A parameter value rounded to canonical fixed point and saturated, as
/// the volume's clipping arithmetic sees it.
pub open spec fn spec_vol_canon(t: crate::rat::Sc) -> int {
    spec_clamp_tn(crate::color::spec_sat(crate::utility::spec_tdiv(
        t.n * crate::color::COLOR_DEN as int,
        t.d,
    )))
}

pub open spec fn vol_neg_big() -> crate::rat::Sc {
    crate::rat::Sc { n: -0x1000_0000_0000, d: 1 }
}

pub open spec fn vol_big() -> crate::rat::Sc {
    crate::rat::Sc { n: 0x1000_0000_0000, d: 1 }
}

/// The closest boundary crossing over the whole line.
pub open spec fn vol_entry(c: Constant, r: Ray) -> crate::hittable::Cand {
    choose|cd: crate::hittable::Cand|
        crate::hittable::best_at(c.boundary.cands(r), vol_neg_big(), vol_big(), cd)
}

/// The search floor for the second crossing: just past the first.
pub open spec fn vol_after(c: Constant, r: Ray) -> crate::rat::Sc {
    let t1 = spec_vol_canon(vol_entry(c, r).t());
    crate::rat::Sc {
        n: t1 * 10000 + crate::color::COLOR_DEN as int,
        d: crate::color::COLOR_DEN as int * 10000,
    }
}

pub open spec fn vol_exit(c: Constant, r: Ray) -> crate::hittable::Cand {
    choose|cd: crate::hittable::Cand|
        crate::hittable::best_at(c.boundary.cands(r), vol_after(c, r), vol_big(), cd)
}

/// The whole deterministic volume decision, as a ghost value: the
/// scattering parameter when the sampled flight ends inside the clipped
/// chord, nothing otherwise.
pub open spec fn spec_vol_t(
    c: Constant,
    r: Ray,
    tmin: crate::rat::Sc,
    tmax: crate::rat::Sc,
    flight: crate::rat::Sc,
) -> Option<crate::rat::Sc> {
    let cs = c.boundary.cands(r);
    if crate::hittable::no_cand_in(cs, vol_neg_big(), vol_big()) {
        Option::None
    } else if crate::hittable::no_cand_in(cs, vol_after(c, r), vol_big()) {
        Option::None
    } else {
        let t1n0 = spec_vol_canon(vol_entry(c, r).t());
        let t2n0 = spec_vol_canon(vol_exit(c, r).t());
        let tminn = spec_vol_canon(tmin);
        let tmaxn = spec_vol_canon(tmax);
        let t1a = if t1n0 < tminn {
            tminn
        } else {
            t1n0
        };
        let t2a = if tmaxn < t2n0 {
            tmaxn
        } else {
            t2n0
        };
        if t2a <= t1a {
            Option::None
        } else {
            let t1b = if t1a < 0 {
                0
            } else {
                t1a
            };
            let len = crate::rat::sqf(crate::vec3::spec_dot(r.dir, r.dir));
            let fn0 = spec_vol_canon(flight);
            if fn0 > (t2a - t1b) * len {
                Option::None
            } else {
                let t = crate::rat::Sc {
                    n: t1b * len + fn0,
                    d: crate::color::COLOR_DEN as int * len,
                };
                if crate::rat::qlt(tmin, t) && crate::rat::qlt(t, tmax) {
                    Option::Some(t)
                } else {
                    Option::None
                }
            }
        }
    }
}


/// Floor of the base-two logarithm, as the halving count.
pub open spec fn spec_lg(x: nat) -> nat
    decreases x,
{
    if x <= 1 {
        0
    } else {
        1 + spec_lg(x / 2)
    }
}

/// `x < 2^(k+1)` bounds the halving count by `k`.
proof fn lemma_lg_le(x: nat, k: nat)
    requires
        x < vstd::arithmetic::power2::pow2(k + 1),
    ensures
        spec_lg(x) <= k,
    decreases x,
{
    if x <= 1 {
    } else {
        vstd::arithmetic::power2::lemma_pow2_unfold(k + 1);
        assert(x / 2 < vstd::arithmetic::power2::pow2(k)) by (nonlinear_arith)
            requires
                x < 2 * vstd::arithmetic::power2::pow2(k),
        ;
        if k == 0 {
            assert(vstd::arithmetic::power2::pow2(0) == 1) by {
                vstd::arithmetic::power2::lemma2_to64();
            }
        } else {
            lemma_lg_le(x / 2, (k - 1) as nat);
        }
    }
}

/// The free flight the renderer draws from one generator step:
/// `(1 / density) * log10(2^20 / u)` with the decadic logarithm taken as
/// `301 k / 1000` per power of two.
pub open spec fn spec_flight(state: u64, density: Rat) -> Rat {
    let draw = crate::rng::spec_next(state) % 1048575 + 1;
    let lg = spec_lg(draw as nat);
    let lgc: int = if lg > 20 {
        20
    } else {
        lg as int
    };
    let d0 = crate::color::spec_canon_of(density.v()).n;
    let d = if d0 < 1 {
        1
    } else if d0 > 1000 * crate::color::COLOR_DEN as int {
        1000 * crate::color::COLOR_DEN as int
    } else {
        d0
    };
    Rat {
        num: ((301 * (20 - lgc)) * crate::color::COLOR_DEN as int) as i128,
        den: (1000 * d) as i128,
    }
}

impl Constant {
    pub open spec fn wf(self) -> bool
        decreases self,
    {
        &&& self.boundary.wf()
        &&& self.density.wf() && self.density.bounded() && self.density.num > 0
        &&& self.phase_function.wf()
    }

    pub fn new(density: Rat, boundary: HitModel, phase_function: crate::color::ColorR) -> (s:
        Constant)
        requires
            boundary.wf(),
            density.wf(),
            density.bounded(),
            density.num > 0,
            phase_function.wf(),
        ensures
            s.wf(),
            s.density == density,
    {
        Constant {
            boundary: Box::new(boundary),
            density,
            phase_function: Surface::Isotropic(SurfaceTexture::Solid(phase_function)),
        }
    }

    /// The deterministic part of the volume intersection, with the sampled
    /// free flight (in scene units) handed in: find the entry and exit of
    /// the boundary over the whole line, clip them to the search interval,
    /// and scatter at `entry + flight / |dir|` when the flight ends inside.
    #[verifier::rlimit(100)]
    #[verifier::spinoff_prover]
    pub fn hit_with(&self, r: &Ray, tmin: &Rat, tmax: &Rat, flight: &Rat) -> (res: Option<
        HitRecord>)
        requires
            self.wf(),
            v_in(
                r.orig,
                crate::ray::ORIGIN_ROOM as int - crate::ray::GEOM_BOUND as int
                    * self.boundary.tdepth(),
            ),
            v_in(r.dir, DIR_BOUND as int),
            !(r.dir.x == 0 && r.dir.y == 0 && r.dir.z == 0),
            r.time.wf(),
            r.time.bounded(),
            tmin.wf(),
            tmin.bounded(),
            tmax.wf(),
            tmax.bounded(),
            flight.wf(),
            flight.bounded(),
            flight.num >= 0,
        ensures
            res matches Some(rec) ==> rec.wf() && qlt(tmin.v(), rec.t.v()) && qlt(
                rec.t.v(),
                tmax.v(),
            ) && rec.material == self.phase_function && rec.front_face,
            // On graze-free rays the whole decision, including when the
            // scatter happens and at which parameter, is the ghost value
            // spec_vol_t.
            self.boundary.graze_free(*r) ==> (match res {
                Option::None => spec_vol_t(*self, *r, tmin.v(), tmax.v(), flight.v()) is None,
                Option::Some(rec) => spec_vol_t(*self, *r, tmin.v(), tmax.v(), flight.v())
                    == Option::Some(rec.t.v()),
            }),
            res matches Some(rec) ==> crate::hittable::oriented_against(rec, *r),
            res matches Some(rec) ==> crate::hittable::rec_on_ray(rec, *r),
        decreases *self, 0int,
    {
        proof {
            crate::hittable::lemma_wf_tdepth(*self.boundary);
            assert(crate::ray::GEOM_BOUND as int * self.boundary.tdepth() <= crate::ray::GEOM_BOUND
                as int * crate::hittable::MAX_WRAP) by (nonlinear_arith)
                requires
                    self.boundary.tdepth() <= crate::hittable::MAX_WRAP,
            ;
        }
        let big = Rat::from_int(0x1000_0000_0000);
        let neg_big = Rat::from_int(-0x1000_0000_0000);
        // Boundary probes run against their own fixed-seeded generator: a
        // boundary is expected to be deterministic geometry (a medium
        // nested inside another medium's boundary makes no graze-free
        // claim anyway).
        let mut probe_rng = Prng::new(1);
        proof {
            assert(neg_big.v() == vol_neg_big());
            assert(big.v() == vol_big());
        }
        let rec1 = match self.boundary.hit(r, &neg_big, &big, &mut probe_rng) {
            Some(rec) => rec,
            None => {
                return None;
            },
        };
        proof {
            if self.boundary.graze_free(*r) {
                let cs = self.boundary.cands(*r);
                crate::hittable::lemma_cands_ok_all(*self.boundary, *r);
                let c1 = choose|c: crate::hittable::Cand|
                    crate::hittable::best_at(cs, vol_neg_big(), vol_big(), c) && crate::rat::qeq(
                        rec1.t.v(),
                        c.t(),
                    );
                assert(crate::hittable::best_at(cs, vol_neg_big(), vol_big(), c1));
                let ge = vol_entry(*self, *r);
                assert(crate::hittable::best_at(cs, vol_neg_big(), vol_big(), ge));
                crate::hittable::lemma_contains_ok(cs, c1);
                crate::hittable::lemma_contains_ok(cs, ge);
                // Any two closest candidates carry the same value.
                crate::rat::lemma_q_total(c1.t(), ge.t());
                assert(crate::rat::qeq(c1.t(), ge.t()));
                crate::rat::lemma_qeq_trans(rec1.t.v(), c1.t(), ge.t());
                crate::color::lemma_canon_value(rec1.t.v(), ge.t());
            }
        }
        let t1c0 = clamp_t(&rat_canon(&rec1.t));
        let after = Rat {
            num: t1c0.num * 10000 + t1c0.den,
            den: t1c0.den * 10000,
        };
        proof {
            assert(0 < t1c0.den * 10000 <= crate::rat::DEN_BOUND);
        }
        proof {
            if self.boundary.graze_free(*r) {
                assert(after.v() == vol_after(*self, *r));
            }
        }
        let rec2 = match self.boundary.hit(r, &after, &big, &mut probe_rng) {
            Some(rec) => rec,
            None => {
                return None;
            },
        };
        proof {
            if self.boundary.graze_free(*r) {
                let cs = self.boundary.cands(*r);
                let c2 = choose|c: crate::hittable::Cand|
                    crate::hittable::best_at(cs, vol_after(*self, *r), vol_big(), c)
                        && crate::rat::qeq(rec2.t.v(), c.t());
                assert(crate::hittable::best_at(cs, vol_after(*self, *r), vol_big(), c2));
                let gx = vol_exit(*self, *r);
                assert(crate::hittable::best_at(cs, vol_after(*self, *r), vol_big(), gx));
                crate::hittable::lemma_contains_ok(cs, c2);
                crate::hittable::lemma_contains_ok(cs, gx);
                crate::rat::lemma_q_total(c2.t(), gx.t());
                assert(crate::rat::qeq(c2.t(), gx.t()));
                crate::rat::lemma_qeq_trans(rec2.t.v(), c2.t(), gx.t());
                crate::color::lemma_canon_value(rec2.t.v(), gx.t());
            }
        }
        // Clip entry and exit to the caller's interval, on the canonical
        // fixed-point lattice (saturated well above any real scene).
        let mut t1 = clamp_t(&rat_canon(&rec1.t));
        let t2_raw = clamp_t(&rat_canon(&rec2.t));
        let tmin_c = clamp_t(&rat_canon(tmin));
        let tmax_c = clamp_t(&rat_canon(tmax));
        proof {
            lemma_samden(t1.num as int, tmin_c.num as int, crate::color::COLOR_DEN as int);
        }
        if t1.lt(&tmin_c) {
            t1 = tmin_c;
        }
        proof {
            lemma_samden(tmax_c.num as int, t2_raw.num as int, crate::color::COLOR_DEN as int);
        }
        let t2 = if tmax_c.lt(&t2_raw) {
            tmax_c
        } else {
            t2_raw
        };
        proof {
            lemma_samden(t2.num as int, t1.num as int, crate::color::COLOR_DEN as int);
        }
        if t2.le(&t1) {
            return None;
        }
        if t1.num < 0 {
            t1 = Rat { num: 0, den: crate::color::COLOR_DEN };
        }
        // The ray's speed: floor of the direction's Euclidean length.
        proof {
            lemma_dot_bound(r.dir, r.dir, DIR_BOUND as int, DIR_BOUND as int);
            crate::vec3::lemma_self_dot_nonneg(r.dir);
            crate::utility::lemma_nonzero_dot(r.dir);
        }
        let a = r.dir.dot(&r.dir);
        let len = sqrt_floor(a);
        proof {
            lemma_sqf_is(a as int, len as int);
            assert(1 <= len <= 0x20_0000) by (nonlinear_arith)
                requires
                    crate::rat::is_sqrt_floor(a as int, len as int),
                    0 < a <= 0x300_0000_0000,
            ;
        }
        // Does the sampled flight end inside the boundary?  Compare
        // flight > (t2 - t1) * len, cleared of the common denominator.
        let span = t2.num - t1.num;
        let fc = clamp_t(&rat_canon(flight));
        proof {
            lemma_prod_bound2(span as int, len as int, 0x4000_0000_0000, 0x20_0000);
        }
        if fc.num > span * len {
            return None;
        }
        // Scatter at t1 + flight / len.
        proof {
            lemma_prod_bound2(t1.num as int, len as int, 0x2000_0000_0000, 0x20_0000);
            lemma_prod_bound2(
                crate::color::COLOR_DEN as int,
                len as int,
                crate::color::COLOR_DEN as int,
                0x20_0000,
            );
            assert(0 < crate::color::COLOR_DEN * len) by (nonlinear_arith)
                requires
                    0 < len,
            ;
        }
        let t = Rat { num: t1.num * len + fc.num, den: crate::color::COLOR_DEN * len };
        if !(tmin.lt(&t) && t.lt(tmax)) {
            // A degenerate zero-length flight landing exactly on the
            // interval boundary scatters nothing.
            return None;
        }
        let p = ray_point(r, &t);
        // An arbitrary fixed axis normal, oriented against the ray.
        let normal = if r.dir.x > 0 {
            RatVec { nx: -1, ny: 0, nz: 0, den: 1 }
        } else {
            RatVec { nx: 1, ny: 0, nz: 0, den: 1 }
        };
        proof {
            assert((r.dir.x as int) * normal.nx + (r.dir.y as int) * normal.ny + (
            r.dir.z as int) * normal.nz <= 0) by (nonlinear_arith)
                requires
                    normal.ny == 0,
                    normal.nz == 0,
                    r.dir.x > 0 ==> normal.nx == -1,
                    r.dir.x <= 0 ==> normal.nx == 1,
            ;
        }
        Some(
            HitRecord {
                p,
                normal,
                t,
                u: Rat::from_int(0),
                v: Rat::from_int(0),
                front_face: true,
                material: self.phase_function,
            },
        )
    }

    /// The volume intersection as the renderer calls it: draw the free
    /// flight as `(1 / density) * log10(2^20 / u)` for a uniform draw `u`,
    /// with the decadic logarithm taken through the verified power-of-two
    /// approximation `log10(2^k) = 301 k / 1000`.
    pub fn hit(&self, r: &Ray, tmin: &Rat, tmax: &Rat, rng: &mut Prng) -> (res: Option<HitRecord>)
        requires
            self.wf(),
            v_in(
                r.orig,
                crate::ray::ORIGIN_ROOM as int - crate::ray::GEOM_BOUND as int
                    * self.boundary.tdepth(),
            ),
            v_in(r.dir, DIR_BOUND as int),
            !(r.dir.x == 0 && r.dir.y == 0 && r.dir.z == 0),
            r.time.wf(),
            r.time.bounded(),
            tmin.wf(),
            tmin.bounded(),
            tmax.wf(),
            tmax.bounded(),
        ensures
            res matches Some(rec) ==> rec.wf() && qlt(tmin.v(), rec.t.v()) && qlt(
                rec.t.v(),
                tmax.v(),
            ) && rec.material == self.phase_function && rec.front_face,
            res matches Some(rec) ==> crate::hittable::oriented_against(rec, *r),
            res matches Some(rec) ==> crate::hittable::rec_on_ray(rec, *r),
            // The draw is one pinned generator step, and on graze-free
            // rays the whole outcome is the ghost decision at the flight
            // that step denotes.
            final(rng).state == crate::rng::spec_next(old(rng).state),
            self.boundary.graze_free(*r) ==> (match res {
                Option::None => spec_vol_t(
                    *self,
                    *r,
                    tmin.v(),
                    tmax.v(),
                    spec_flight(old(rng).state, self.density).v(),
                ) is None,
                Option::Some(rec) => spec_vol_t(
                    *self,
                    *r,
                    tmin.v(),
                    tmax.v(),
                    spec_flight(old(rng).state, self.density).v(),
                ) == Option::Some(rec.t.v()),
            }),
        decreases *self, 1int,
    {
        let draw = rng.next_below(1048575) + 1;
        // Bits above the draw: log10(2^20 / u) ~ 0.301 * (20 - floor_log2(u)).
        let mut lg: u64 = 0;
        let mut x = draw;
        proof {
            assert(2097152nat == vstd::arithmetic::power2::pow2(21)) by {
                vstd::arithmetic::power2::lemma2_to64();
            }
            lemma_lg_le(draw as nat, 20);
        }
        while x > 1
            invariant
                x >= 1,
                lg <= 64,
                spec_lg(draw as nat) == lg + spec_lg(x as nat),
                lg <= spec_lg(draw as nat),
                spec_lg(draw as nat) <= 20,
            decreases x,
        {
            x = x / 2;
            if lg < 64 {
                lg = lg + 1;
            }
        }
        proof {
            assert(lg == spec_lg(draw as nat));
        }
        let neg_log = Rat::new(301 * (20 - (if lg > 20 { 20 } else { lg }) as i64), 1000);
        // flight = neg_log / density.
        let dc = rat_canon(&self.density);
        let d = if dc.num < 1 {
            1
        } else if dc.num > 1000 * crate::color::COLOR_DEN {
            1000 * crate::color::COLOR_DEN
        } else {
            dc.num
        };
        proof {
            lemma_prod_bound2(
                neg_log.num as int,
                crate::color::COLOR_DEN as int,
                10000,
                crate::color::COLOR_DEN as int,
            );
            lemma_prod_bound2(neg_log.den as int, d as int, 1000, 0x4000_0000);
            assert(0 < (neg_log.den as int) * (d as int)) by (nonlinear_arith)
                requires
                    0 < neg_log.den,
                    0 < d,
            ;
        }
        let flight = Rat {
            num: neg_log.num * crate::color::COLOR_DEN,
            den: neg_log.den * d,
        };
        self.hit_with(r, tmin, tmax, &flight)
    }
}

/// Saturate a canonical fixed-point parameter into a comfortably
/// multipliable range.
fn clamp_t(x: &Rat) -> (r: Rat)
    requires
        x.wf(),
        crate::color::canon(*x),
    ensures
        r.den == crate::color::COLOR_DEN,
        -0x2000_0000_0000 <= r.num <= 0x2000_0000_0000,
        r.wf(),
        r.bounded(),
        r.num as int == spec_clamp_tn(x.num as int),
{
    if x.num > 0x2000_0000_0000 {
        Rat { num: 0x2000_0000_0000, den: crate::color::COLOR_DEN }
    } else if x.num < -0x2000_0000_0000 {
        Rat { num: -0x2000_0000_0000, den: crate::color::COLOR_DEN }
    } else {
        *x
    }
}

} // verus!
