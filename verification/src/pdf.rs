use vstd::prelude::*;

use crate::color::COLOR_DEN;
use crate::color::COLOR_SAT;
use crate::color::canon;
use crate::hittable::HitModel;
use crate::hittable::HittableList;
use crate::rat::Rat;
use crate::rat::sqrt_floor;
use crate::ray::DIR_BOUND;
use crate::ray::ORIGIN_BOUND;
use crate::ray::Ray;
use crate::rng::Prng;
use crate::utility::UNIT_SCALE;
use crate::utility::fit_dir;
use crate::utility::random_in_hemisphere;
use crate::utility::random_int_range;
use crate::utility::random_unit_sphere;
use crate::utility::tdiv;
use crate::utility::unit_approx;
use crate::vec3::Vec3i;
use crate::vec3::lemma_dot_bound;
use crate::vec3::lemma_prod_bound2;
use crate::vec3::spec_dot;
use crate::vec3::v_in;

verus! {

/// The circle constant as an exact rational approximation, 355/113.
pub const PI_NUM: i128 = 355;

pub const PI_DEN: i128 = 113;

/// Uniform density over the hemisphere about a normal: `1 / (2 pi)`.
#[derive(Clone, Copy, Debug)]
pub struct UniformPDF {
    pub normal: Vec3i,
}

impl UniformPDF {
    pub fn new(n: &Vec3i) -> (s: UniformPDF)
        ensures
            s.normal == *n,
    {
        UniformPDF { normal: *n }
    }

    pub fn value(&self, direction: &Vec3i) -> (r: Rat)
        ensures
            r.wf(),
            r.bounded(),
            r.num == PI_DEN && r.den == 2 * PI_NUM,
    {
        Rat { num: PI_DEN, den: 2 * PI_NUM }
    }

    pub fn generate(&self, rng: &mut Prng) -> (r: Vec3i)
        requires
            v_in(self.normal, 0x10_0000),
        ensures
            v_in(r, DIR_BOUND as int),
            !(r.x == 0 && r.y == 0 && r.z == 0),
            spec_dot(r, self.normal) >= 0,
    {
        random_in_hemisphere(rng, &self.normal)
    }
}

/// The cosine density about a unit-scaled `normal`, as a ghost value:
/// `max(0, cos(theta)) / pi` with the cosine read off the unit-scaled dot
/// product, zero for a zero direction.
pub open spec fn spec_cosine_value(normal: Vec3i, direction: Vec3i) -> Rat {
    if spec_dot(direction, direction) == 0 {
        Rat { num: 0, den: 1 }
    } else {
        let c = spec_dot(crate::utility::spec_unit(direction), normal);
        if c <= 0 {
            Rat { num: 0, den: 1 }
        } else {
            Rat {
                num: (c * PI_DEN) as i128,
                den: ((UNIT_SCALE * UNIT_SCALE) * (PI_NUM as int)) as i128,
            }
        }
    }
}

/// Cosine-weighted density about a normal: `cos(theta) / pi`, computed on
/// the unit-scaled lattice.
#[derive(Clone, Copy, Debug)]
pub struct CosinePDF {
    pub normal: Vec3i,
}

impl CosinePDF {
    /// The stored axis is the normal scaled to unit length.
    pub fn new(w: &Vec3i) -> (s: CosinePDF)
        requires
            v_in(*w, 0x10_0000),
            spec_dot(*w, *w) > 0,
        ensures
            v_in(s.normal, UNIT_SCALE as int),
            s.normal == crate::utility::spec_unit(*w),
    {
        CosinePDF { normal: unit_approx(w) }
    }

    /// `max(0, cos(theta)) / pi` with the cosine read off the unit-scaled
    /// dot product: `dot(unit(dir), normal) * PI_DEN / (S^2 * PI_NUM)`,
    /// exactly the ghost value `spec_cosine_value`.
    pub fn value(&self, direction: &Vec3i) -> (r: Rat)
        requires
            v_in(self.normal, UNIT_SCALE as int),
            v_in(*direction, 0x10_0000),
        ensures
            r.wf(),
            r.bounded(),
            r == spec_cosine_value(self.normal, *direction),
    {
        proof {
            crate::vec3::lemma_self_dot_nonneg(*direction);
        }
        let q = direction.dot(direction);
        if q == 0 {
            return Rat { num: 0, den: 1 };
        }
        let du = unit_approx(direction);
        proof {
            lemma_dot_bound(du, self.normal, UNIT_SCALE as int, UNIT_SCALE as int);
        }
        let c = du.dot(&self.normal);
        if c <= 0 {
            Rat { num: 0, den: 1 }
        } else {
            Rat {
                num: c * PI_DEN,
                den: (UNIT_SCALE as i128) * (UNIT_SCALE as i128) * PI_NUM,
            }
        }
    }

    /// Lambertian sampling: the unit normal plus a unit-ball sample; a
    /// degenerate (zero) sum falls back to the normal itself, exactly as
    /// the classic scatter substitutes the surface normal.
    pub fn generate(&self, rng: &mut Prng) -> (r: Vec3i)
        requires
            v_in(self.normal, UNIT_SCALE as int),
        ensures
            v_in(r, DIR_BOUND as int),
            !(r.x == 0 && r.y == 0 && r.z == 0),
            exists|u: Vec3i|
                #[trigger] ball_ok(u) && {
                    let sum = Vec3i {
                        x: (self.normal.x + u.x) as i64,
                        y: (self.normal.y + u.y) as i64,
                        z: (self.normal.z + u.z) as i64,
                    };
                    if sum.x == 0 && sum.y == 0 && sum.z == 0 {
                        r == crate::utility::spec_fit_dir(self.normal)
                    } else {
                        r == crate::utility::spec_fit_dir(sum)
                    }
                },
    {
        let s = random_unit_sphere(rng);
        proof {
            crate::utility::lemma_nonzero_dot(s);
            assert(ball_ok(s));
        }
        let d = self.normal.add(&s);
        if d.near_zero() {
            fit_dir(self.normal)
        } else {
            fit_dir(d)
        }
    }
}

/// Uniform density over the full sphere of directions, `1 / (4 pi)`: the
/// isotropic phase function's strategy.
#[derive(Clone, Copy, Debug)]
pub struct SpherePDF {
}

impl SpherePDF {
    pub fn new() -> (s: SpherePDF)
        ensures
            s == (SpherePDF {  }),
    {
        SpherePDF {  }
    }

    pub fn value(&self, direction: &Vec3i) -> (r: Rat)
        ensures
            r.wf(),
            r.bounded(),
            r.num == PI_DEN && r.den == 4 * PI_NUM,
    {
        Rat { num: PI_DEN, den: 4 * PI_NUM }
    }

    /// A direction uniform over the whole sphere: a unit-ball sample.
    pub fn generate(&self, rng: &mut Prng) -> (r: Vec3i)
        ensures
            v_in(r, DIR_BOUND as int),
            !(r.x == 0 && r.y == 0 && r.z == 0),
            0 < spec_dot(r, r) <= (UNIT_SCALE * UNIT_SCALE) as int,
    {
        let p = random_unit_sphere(rng);
        proof {
            crate::utility::lemma_nonzero_dot(p);
        }
        p
    }
}

/// The closed set of importance-sampling strategies a material can hand
/// back.  (Sampling toward lights goes through the scene's light list
/// directly: see `HitModel::pdf_value` and `HitModel::random`.)
#[derive(Clone, Copy, Debug)]
pub enum PDF {
    Uniform(UniformPDF),
    Cosine(CosinePDF),
    Sphere(SpherePDF),
}

/// The density a strategy assigns to a direction.
pub open spec fn spec_strategy_value(p: PDF, direction: Vec3i) -> Rat {
    match p {
        PDF::Uniform(_) => Rat { num: PI_DEN, den: (2 * PI_NUM) as i128 },
        PDF::Cosine(c) => spec_cosine_value(c.normal, direction),
        PDF::Sphere(_) => Rat { num: PI_DEN, den: (4 * PI_NUM) as i128 },
    }
}

impl PDF {
    pub open spec fn wf(self) -> bool {
        match self {
            PDF::Uniform(p) => v_in(p.normal, 0x10_0000),
            PDF::Cosine(p) => v_in(p.normal, UNIT_SCALE as int),
            PDF::Sphere(_) => true,
        }
    }

    pub fn value(&self, direction: &Vec3i) -> (r: Rat)
        requires
            self.wf(),
            v_in(*direction, 0x10_0000),
        ensures
            r.wf(),
            r.bounded(),
            r == spec_strategy_value(*self, *direction),
    {
        match self {
            PDF::Uniform(p) => p.value(direction),
            PDF::Cosine(p) => p.value(direction),
            PDF::Sphere(p) => p.value(direction),
        }
    }

    pub fn generate(&self, rng: &mut Prng) -> (r: Vec3i)
        requires
            self.wf(),
        ensures
            v_in(r, DIR_BOUND as int),
            !(r.x == 0 && r.y == 0 && r.z == 0),
    {
        match self {
            PDF::Uniform(p) => p.generate(rng),
            PDF::Cosine(p) => p.generate(rng),
            PDF::Sphere(p) => p.generate(rng),
        }
    }
}


/// A possible unit-ball sample at `UNIT_SCALE`.
pub open spec fn ball_ok(u: Vec3i) -> bool {
    &&& v_in(u, UNIT_SCALE as int)
    &&& 0 < spec_dot(u, u) <= (UNIT_SCALE * UNIT_SCALE) as int
}

/// The lattice direction from `origin` to the rectangle point `(px, k, pz)`.
pub open spec fn rect_point_dir(
    rect: crate::rect::XZRect,
    origin: Vec3i,
    px: int,
    pz: int,
) -> Vec3i {
    Vec3i {
        x: (px - origin.x) as i64,
        y: (rect.k - origin.y) as i64,
        z: (pz - origin.z) as i64,
    }
}

/// The sampled direction points at the primitive: at a surface point of a
/// sphere (for some unit-ball sample), at an interior point of a
/// rectangle, or along the fixed fallback axis for primitives never used
/// as lights.
pub open spec fn aims_at(m: HitModel, origin: Vec3i, dir: Vec3i) -> bool {
    match m {
        HitModel::Sphere(s) => exists|u: Vec3i|
            #[trigger] ball_ok(u) && dir == crate::utility::spec_fit_dir(
                Vec3i {
                    x: (s.center.x + crate::utility::spec_tdiv(
                        s.radius * u.x,
                        UNIT_SCALE as int,
                    ) - origin.x) as i64,
                    y: (s.center.y + crate::utility::spec_tdiv(
                        s.radius * u.y,
                        UNIT_SCALE as int,
                    ) - origin.y) as i64,
                    z: (s.center.z + crate::utility::spec_tdiv(
                        s.radius * u.z,
                        UNIT_SCALE as int,
                    ) - origin.z) as i64,
                },
            ),
        HitModel::XZRect(rect) => exists|px: int, pz: int|
            rect.x0 <= px <= rect.x1 && rect.z0 <= pz <= rect.z1 && dir
                == crate::utility::spec_fit_dir(#[trigger] rect_point_dir(rect, origin, px, pz)),
        _ => dir == (Vec3i { x: 1, y: 0, z: 0 }),
    }
}

/// The probe ray used for light-sampling density queries (cast at shutter
/// time zero, exactly as the classic query does).
pub open spec fn spec_probe(origin: Vec3i, direction: Vec3i) -> Ray {
    Ray { orig: origin, dir: direction, time: Rat { num: 0, den: 1 } }
}

/// The zero density in canonical fixed point.
pub open spec fn pdf_zero() -> Rat {
    Rat { num: 0, den: COLOR_DEN }
}

/// The open probe interval's endpoints.
pub open spec fn probe_tmin() -> crate::rat::Sc {
    crate::rat::Sc { n: 1, d: 1000 }
}

pub open spec fn probe_tmax() -> crate::rat::Sc {
    crate::rat::Sc { n: 0x1000_0000_0000, d: 1 }
}

/// The cone density of sampling `direction` from `origin` toward a sphere,
/// as a ghost value: zero when the probe misses or starts inside;
/// otherwise `dist^2 / (2 pi r^2)` rounded to canonical fixed point.
pub open spec fn spec_sphere_pdf(s: crate::sphere::Sphere, origin: Vec3i, direction: Vec3i) -> Rat {
    let cs = crate::sphere::sphere_cands(s, spec_probe(origin, direction));
    if crate::hittable::no_cand_in(cs, probe_tmin(), probe_tmax()) {
        pdf_zero()
    } else {
        let ocx = s.center.x - origin.x;
        let ocy = s.center.y - origin.y;
        let ocz = s.center.z - origin.z;
        let dist2 = ocx * ocx + ocy * ocy + ocz * ocz;
        let r2 = s.radius * s.radius;
        if dist2 <= r2 {
            pdf_zero()
        } else {
            Rat {
                num: crate::color::spec_sat(
                    crate::utility::spec_tdiv(
                        dist2 * ((PI_DEN * COLOR_DEN) as int),
                        2 * (PI_NUM as int) * r2,
                    ),
                ) as i128,
                den: COLOR_DEN,
            }
        }
    }
}

/// The density of sampling `direction` from `origin` toward a rectangle,
/// as a ghost value: zero when the probe misses; otherwise the staged
/// fixed-point computation of `dist^2 / (cos * area)`.
pub open spec fn spec_rect_pdf(rect: crate::rect::XZRect, origin: Vec3i, direction: Vec3i) -> Rat {
    let cs = rect.cands(spec_probe(origin, direction));
    if crate::hittable::no_cand_in(cs, probe_tmin(), probe_tmax()) {
        pdf_zero()
    } else {
        let c = cs[0];
        let a = spec_dot(direction, direction);
        let dn = if direction.y >= 0 {
            direction.y as int
        } else {
            -(direction.y as int)
        };
        let area = (rect.x1 - rect.x0) * (rect.z1 - rect.z0);
        let tcn = crate::color::spec_sat(
            crate::utility::spec_tdiv(c.tn * (COLOR_DEN as int), c.td),
        );
        let t2 = crate::utility::spec_tdiv(tcn * tcn, COLOR_DEN as int);
        let t2s = if t2 > COLOR_SAT as int {
            COLOR_SAT as int
        } else {
            t2
        };
        let l = crate::rat::sqf(a);
        let n = crate::utility::spec_tdiv(t2s * a * l, dn * area);
        Rat {
            num: (if n > COLOR_SAT as int {
                COLOR_SAT as int
            } else {
                n
            }) as i128,
            den: COLOR_DEN,
        }
    }
}

/// The density a single primitive contributes as a light.
pub open spec fn spec_member_pdf(m: HitModel, origin: Vec3i, direction: Vec3i) -> Rat {
    match m {
        HitModel::Sphere(s) => spec_sphere_pdf(s, origin, direction),
        HitModel::XZRect(r) => spec_rect_pdf(r, origin, direction),
        _ => pdf_zero(),
    }
}

/// The sum of the members' canonical density numerators.
pub open spec fn spec_pdf_sum(ms: Seq<HitModel>, origin: Vec3i, direction: Vec3i) -> int
    decreases ms.len(),
{
    if ms.len() == 0 {
        0
    } else {
        spec_pdf_sum(ms.drop_last(), origin, direction) + spec_member_pdf(
            ms.last(),
            origin,
            direction,
        ).num
    }
}

/// The light list's density: the unweighted average of the members'.
pub open spec fn spec_list_pdf(ms: Seq<HitModel>, origin: Vec3i, direction: Vec3i) -> Rat {
    if ms.len() == 0 {
        Rat { num: 0, den: 1 }
    } else {
        Rat {
            num: crate::color::spec_sat(
                crate::utility::spec_tdiv(spec_pdf_sum(ms, origin, direction), ms.len() as int),
            ) as i128,
            den: COLOR_DEN,
        }
    }
}

impl HitModel {
    /// Density of sampling `direction` from `origin` toward this primitive
    /// (solid-angle measure), used for light sampling.  Spheres use the
    /// cone density `1 / (2 pi (1 - cos_max))` with the classic linear
    /// `cos_max` approximation; rectangles use `dist^2 / (cos * area)`;
    /// every other primitive reports zero, as a primitive never used as a
    /// light.  Results are rounded to canonical fixed point.
    pub fn pdf_value(&self, origin: &Vec3i, direction: &Vec3i) -> (r: Rat)
        requires
            self.wf(),
            v_in(*origin, ORIGIN_BOUND as int),
            v_in(*direction, DIR_BOUND as int),
        ensures
            r.wf(),
            r.bounded(),
            canon(r),
            r.num >= 0,
            r == spec_member_pdf(*self, *origin, *direction),
    {
        match self {
            HitModel::Sphere(s) => {
                let probe = Ray::new(*origin, *direction, Rat::from_int(0));
                let tmin = Rat::new(1, 1000);
                let tmax = Rat::from_int(0x1000_0000_0000);
                proof {
                    assert(probe == spec_probe(*origin, *direction));
                    assert(self.graze_free(probe));
                }
                let mut probe_rng = Prng::new(1);
                let hit = self.hit(&probe, &tmin, &tmax, &mut probe_rng);
                proof {
                    assert(tmin.v() == probe_tmin());
                    assert(tmax.v() == probe_tmax());
                }
                proof {
                    let cs = crate::sphere::sphere_cands(*s, probe);
                    match hit {
                        None => {
                            assert(crate::hittable::no_cand_in(cs, probe_tmin(), probe_tmax()));
                        },
                        Some(rec) => {
                            let c = choose|c: crate::hittable::Cand|
                                crate::hittable::best_at(cs, probe_tmin(), probe_tmax(), c)
                                    && crate::rat::qeq(rec.t.v(), c.t());
                            assert(cs.contains(c) && crate::hittable::in_ivl(
                                c,
                                probe_tmin(),
                                probe_tmax(),
                            ));
                            assert(!crate::hittable::no_cand_in(cs, probe_tmin(), probe_tmax()));
                        },
                    }
                }
                if hit.is_none() {
                    return Rat { num: 0, den: COLOR_DEN };
                }
                let oc = s.center.sub(origin);
                proof {
                    lemma_dot_bound(oc, oc, 0x100_0000_0000, 0x100_0000_0000);
                    crate::vec3::lemma_self_dot_nonneg(oc);
                    crate::vec3::lemma_prod_bound(s.radius as int, s.radius as int, 0x10_0000);
                }
                let dist2 = oc.dot(&oc);
                let r2 = (s.radius as i128) * (s.radius as i128);
                if dist2 <= r2 {
                    // Origin inside (or on) the sphere: no cone density.
                    return Rat { num: 0, den: COLOR_DEN };
                }
                // 1 / (2 pi r^2 / dist^2) = dist^2 PI_DEN / (2 PI_NUM r^2),
                // rounded to fixed point.
                proof {
                    lemma_prod_bound2(
                        dist2 as int,
                        PI_DEN * COLOR_DEN,
                        0x400_0000_0000_0000_0000_0000,
                        PI_DEN * COLOR_DEN,
                    );
                    assert(0 < r2 && 0 < 2 * PI_NUM * r2) by (nonlinear_arith)
                        requires
                            1 <= s.radius,
                            r2 == (s.radius as int) * (s.radius as int),
                    ;
                }
                proof {
                    lemma_prod_bound2(2 * PI_NUM, r2 as int, 710, 0x100_0000_0000);
                    assert(0 < 2 * PI_NUM * (r2 as int)) by (nonlinear_arith)
                        requires
                            0 < r2,
                    ;
                }
                let n = tdiv(dist2 * (PI_DEN * COLOR_DEN), 2 * PI_NUM * r2);
                proof {
                    let sr = spec_sphere_pdf(*s, *origin, *direction);
                    assert(!crate::hittable::no_cand_in(
                        crate::sphere::sphere_cands(*s, spec_probe(*origin, *direction)),
                        probe_tmin(),
                        probe_tmax(),
                    ));
                    assert(dist2 as int == (s.center.x - origin.x) * (s.center.x - origin.x) + (
                    s.center.y - origin.y) * (s.center.y - origin.y) + (s.center.z - origin.z) * (
                    s.center.z - origin.z));
                    assert(n as int == crate::utility::spec_tdiv(
                        (dist2 as int) * ((PI_DEN * COLOR_DEN) as int),
                        2 * (PI_NUM as int) * (r2 as int),
                    ));
                    assert(sr.num as int == crate::color::spec_sat(n as int));
                    assert(*self == HitModel::Sphere(*s));
                    assert(spec_member_pdf(*self, *origin, *direction) == sr);
                }
                Rat { num: if n > COLOR_SAT { COLOR_SAT } else { n }, den: COLOR_DEN }
            },
            HitModel::XZRect(rect) => {
                let probe = Ray::new(*origin, *direction, Rat::from_int(0));
                let tmin = Rat::new(1, 1000);
                let tmax = Rat::from_int(0x1000_0000_0000);
                proof {
                    assert(probe == spec_probe(*origin, *direction));
                    assert(self.graze_free(probe));
                }
                let mut probe_rng = Prng::new(1);
                let hit = self.hit(&probe, &tmin, &tmax, &mut probe_rng);
                proof {
                    assert(tmin.v() == probe_tmin());
                    assert(tmax.v() == probe_tmax());
                }
                proof {
                    let cs = rect.cands(probe);
                    match hit {
                        None => {
                            assert(crate::hittable::no_cand_in(cs, probe_tmin(), probe_tmax()));
                        },
                        Some(rec) => {
                            let c = choose|c: crate::hittable::Cand|
                                crate::hittable::best_at(cs, probe_tmin(), probe_tmax(), c)
                                    && crate::rat::qeq(rec.t.v(), c.t());
                            assert(cs.contains(c) && crate::hittable::in_ivl(
                                c,
                                probe_tmin(),
                                probe_tmax(),
                            ));
                            assert(!crate::hittable::no_cand_in(cs, probe_tmin(), probe_tmax()));
                        },
                    }
                }
                match hit {
                    None => Rat { num: 0, den: COLOR_DEN },
                    Some(rec) => {
                        // dist^2 / (cos * area) with dist^2 = t^2 |v|^2 and
                        // cos = |v . n| / |v|: computed in stages on the
                        // fixed-point lattice.
                        proof {
                            crate::vec3::lemma_self_dot_nonneg(*direction);
                            lemma_dot_bound(*direction, *direction, 0x10_0000, 0x10_0000);
                        }
                        let a = direction.dot(direction);
                        if a == 0 {
                            proof {
                                // A hit exists, so the probe travels along y.
                                assert(direction.x == 0 && direction.y == 0 && direction.z == 0)
                                    by (nonlinear_arith)
                                    requires
                                        spec_dot(*direction, *direction) == 0,
                                ;
                                assert(rect.cands(probe) =~= Seq::empty());
                                assert(false);
                            }
                            return Rat { num: 0, den: COLOR_DEN };
                        }
                        let l = sqrt_floor(a);
                        // |v . n| for the fixed axis y: |direction.y|.
                        let dn = if direction.y >= 0 {
                            direction.y
                        } else {
                            -direction.y
                        };
                        if dn == 0 {
                            proof {
                                assert(rect.cands(probe) =~= Seq::empty());
                                assert(false);
                            }
                            return Rat { num: 0, den: COLOR_DEN };
                        }
                        proof {
                            lemma_prod_bound2(
                                (rect.x1 - rect.x0) as int,
                                (rect.z1 - rect.z0) as int,
                                0x20_0000,
                                0x20_0000,
                            );
                        }
                        let area = ((rect.x1 - rect.x0) as i128) * ((rect.z1 - rect.z0) as i128);
                        // t rounded to fixed point; the hit's parameter
                        // denotes the single candidate's value, so the
                        // rounding is the candidate's.
                        let tc = crate::color::rat_canon(&rec.t);
                        proof {
                            let cs = rect.cands(probe);
                            let c = choose|c: crate::hittable::Cand|
                                crate::hittable::best_at(cs, probe_tmin(), probe_tmax(), c)
                                    && crate::rat::qeq(rec.t.v(), c.t());
                            let i = choose|i: int| 0 <= i < cs.len() && cs[i] == c;
                            assert(c == cs[0]);
                            crate::rect::lemma_rect_cands_ok(
                                probe,
                                1,
                                0,
                                2,
                                rect.x0 as int,
                                rect.x1 as int,
                                rect.z0 as int,
                                rect.z1 as int,
                                rect.k as int,
                            );
                            assert(cs[0].ok());
                            crate::color::lemma_canon_value(rec.t.v(), c.t());
                        }
                        proof {
                            crate::vec3::lemma_prod_bound(tc.num as int, tc.num as int, COLOR_SAT as int);
                        }
                        let t2 = tdiv(tc.num * tc.num, COLOR_DEN);
                        let t2s = if t2 > COLOR_SAT {
                            COLOR_SAT
                        } else {
                            t2
                        };
                        // dist^2 approx = t2s * a / COLOR_DEN ... combined:
                        // n = t2s * a * l * COLOR_DEN / (dn * area * COLOR_DEN)
                        proof {
                            lemma_prod_bound2(t2s as int, a as int, COLOR_SAT as int, 0x400_0000_0000);
                            assert(0 <= l <= 0x20_0000) by (nonlinear_arith)
                                requires
                                    crate::rat::is_sqrt_floor(a as int, l as int),
                                    a <= 0x300_0000_0000,
                            ;
                            lemma_prod_bound2(
                                t2s as int * a as int,
                                l as int,
                                0x40_0000_0000_0000_0000_0000_0000,
                                0x20_0000,
                            );
                            assert(0 < area && 0 < (dn as int) * (area as int))
                                by (nonlinear_arith)
                                requires
                                    0 < dn,
                                    0 < rect.x1 - rect.x0,
                                    0 < rect.z1 - rect.z0,
                                    area == ((rect.x1 - rect.x0) as int) * ((rect.z1
                                        - rect.z0) as int),
                            ;
                            lemma_prod_bound2(dn as int, area as int, 0x10_0000, 0x10_0000_0000_0000);
                        }
                        proof {
                            crate::rat::lemma_sqf_is(a as int, l as int);
                            assert(0 <= tc.num * tc.num) by (nonlinear_arith);
                            assert(0 <= t2s as int * (a as int) * (l as int)) by (nonlinear_arith)
                                requires
                                    0 <= t2s,
                                    0 <= a,
                                    0 <= l,
                            ;
                        }
                        let n = tdiv(t2s * a * l, (dn as i128) * area);
                        Rat { num: if n > COLOR_SAT { COLOR_SAT } else { n }, den: COLOR_DEN }
                    },
                }
            },
            _ => Rat { num: 0, den: COLOR_DEN },
        }
    }

    /// A direction from `origin` sampled toward this primitive: spheres
    /// aim at a random surface point, rectangles at a uniform interior
    /// point; other primitives fall back to a fixed axis.  (The classic
    /// sphere sampler draws from the subtended cone, whose azimuth needs
    /// trigonometry with no exact lattice value; aiming at a surface point
    /// is the nearest exact form, and `pdf_value` still reports the cone
    /// density.)
    pub fn random(&self, origin: &Vec3i, rng: &mut Prng) -> (r: Vec3i)
        requires
            self.wf(),
            v_in(*origin, ORIGIN_BOUND as int),
        ensures
            v_in(r, DIR_BOUND as int),
            !(r.x == 0 && r.y == 0 && r.z == 0),
            aims_at(*self, *origin, r),
    {
        match self {
            HitModel::Sphere(s) => {
                let u = random_unit_sphere(rng);
                proof {
                    crate::utility::lemma_nonzero_dot(u);
                    assert(ball_ok(u));
                    lemma_prod_bound2(s.radius as int, u.x as int, 0x10_0000, UNIT_SCALE as int);
                    lemma_prod_bound2(s.radius as int, u.y as int, 0x10_0000, UNIT_SCALE as int);
                    lemma_prod_bound2(s.radius as int, u.z as int, 0x10_0000, UNIT_SCALE as int);
                }
                let px = s.center.x + tdiv((s.radius as i128) * (u.x as i128), UNIT_SCALE as i128) as i64;
                let py = s.center.y + tdiv((s.radius as i128) * (u.y as i128), UNIT_SCALE as i128) as i64;
                let pz = s.center.z + tdiv((s.radius as i128) * (u.z as i128), UNIT_SCALE as i128) as i64;
                let d = Vec3i::new(px - origin.x, py - origin.y, pz - origin.z);
                let out = fit_dir(d);
                proof {
                    assert(ball_ok(u) && out == crate::utility::spec_fit_dir(d));
                }
                out
            },
            HitModel::XZRect(rect) => {
                let px = random_int_range(rng, rect.x0, rect.x1);
                let pz = random_int_range(rng, rect.z0, rect.z1);
                let d = Vec3i::new(px - origin.x, rect.k - origin.y, pz - origin.z);
                let out = fit_dir(d);
                proof {
                    assert(d == rect_point_dir(*rect, *origin, px as int, pz as int));
                    assert(rect.x0 <= px as int <= rect.x1 && rect.z0 <= pz as int <= rect.z1
                        && out == crate::utility::spec_fit_dir(
                        rect_point_dir(*rect, *origin, px as int, pz as int),
                    ));
                }
                out
            },
            _ => Vec3i::new(1, 0, 0),
        }
    }
}

impl HittableList {
    /// Light sampling over a list: the unweighted average of the members'
    /// densities (uniform weight `1/n`).
    pub fn pdf_value(&self, origin: &Vec3i, direction: &Vec3i) -> (r: Rat)
        requires
            self.wf(),
            v_in(*origin, ORIGIN_BOUND as int),
            v_in(*direction, DIR_BOUND as int),
            self.objects.len() < 0x100_0000,
        ensures
            r.wf(),
            r.bounded(),
            r.num >= 0,
            r == spec_list_pdf(self.objects@, *origin, *direction),
    {
        let n = self.objects.len();
        if n == 0 {
            return Rat { num: 0, den: 1 };
        }
        let mut sum: i128 = 0;
        let mut i: usize = 0;
        while i < n
            invariant
                i <= n,
                n == self.objects.len(),
                n < 0x100_0000,
                self.wf(),
                v_in(*origin, ORIGIN_BOUND as int),
                v_in(*direction, DIR_BOUND as int),
                0 <= sum <= i * (COLOR_SAT as int),
                sum == spec_pdf_sum(
                    self.objects@.subrange(0, i as int),
                    *origin,
                    *direction,
                ),
            decreases n - i,
        {
            let o = &self.objects[i];
            let pv = o.pdf_value(origin, direction);
            proof {
                assert((i + 1) * (COLOR_SAT as int) == i * (COLOR_SAT as int) + COLOR_SAT)
                    by (nonlinear_arith);
                assert(self.objects@.subrange(0, i as int + 1).drop_last() =~= self.objects@
                    .subrange(0, i as int));
                assert(self.objects@.subrange(0, i as int + 1).last() == self.objects@[i as int]);
            }
            sum = sum + pv.num;
            i = i + 1;
        }
        proof {
            assert(self.objects@.subrange(0, n as int) =~= self.objects@);
            lemma_prod_bound2(n as int, COLOR_SAT as int, 0x100_0000, COLOR_SAT as int);
            lemma_prod_bound2(n as int, COLOR_DEN as int, 0x100_0000, COLOR_DEN as int);
            assert(0 < n as int * COLOR_DEN as int) by (nonlinear_arith)
                requires
                    0 < n,
            ;
        }
        let avg = tdiv(sum, n as i128);
        Rat { num: if avg > COLOR_SAT { COLOR_SAT } else { avg }, den: COLOR_DEN }
    }

    /// Delegate direction sampling to a member picked uniformly at random.
    pub fn random(&self, origin: &Vec3i, rng: &mut Prng) -> (r: Vec3i)
        requires
            self.wf(),
            v_in(*origin, ORIGIN_BOUND as int),
        ensures
            v_in(r, DIR_BOUND as int),
            !(r.x == 0 && r.y == 0 && r.z == 0),
            self.objects.len() == 0 ==> r == (Vec3i { x: 1, y: 0, z: 0 }),
            self.objects.len() > 0 ==> exists|i: int|
                0 <= i < self.objects.len() && #[trigger] aims_at(self.objects@[i], *origin, r),
    {
        let n = self.objects.len();
        if n == 0 {
            return Vec3i::new(1, 0, 0);
        }
        let idx = rng.next_below(n as u64) as usize;
        let out = self.objects[idx].random(origin, rng);
        proof {
            assert(aims_at(self.objects@[idx as int], *origin, out));
        }
        out
    }
}

/// The half-and-half mixture of the light-sampling density and a material
/// density: the arithmetic mean of the two.
pub fn mixture_value(lights: &HittableList, p1: &PDF, origin: &Vec3i, direction: &Vec3i) -> (r:
    Rat)
    requires
        lights.wf(),
        p1.wf(),
        v_in(*origin, ORIGIN_BOUND as int),
        v_in(*direction, DIR_BOUND as int),
        lights.objects.len() < 0x100_0000,
    ensures
        r.wf(),
        r.bounded(),
        r.num as int == crate::color::spec_canon_of(
            spec_list_pdf(lights.objects@, *origin, *direction).v(),
        ).n + crate::color::spec_canon_of(spec_strategy_value(*p1, *direction).v()).n,
        r.den == 2 * COLOR_DEN,
{
    let v0 = lights.pdf_value(origin, direction);
    let v1 = p1.value(direction);
    let c0 = crate::color::rat_canon(&v0);
    let c1 = crate::color::rat_canon(&v1);
    Rat { num: c0.num + c1.num, den: 2 * COLOR_DEN }
}

} // verus!
