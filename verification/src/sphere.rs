use vstd::prelude::*;

use crate::aabb::Aabb;
use crate::hittable::Cand;
use crate::hittable::HitRecord;
use crate::hittable::RatVec;
use crate::hittable::cands_ok;
use crate::hittable::hit_matches;
use crate::hittable::in_ivl;
use crate::hittable::best_at;
use crate::hittable::mk_cand;
use crate::hittable::ray_point;
use crate::material::Surface;
use crate::rat::DEN_BOUND;
use crate::rat::NUM_BOUND;
use crate::rat::Rat;
use crate::rat::Sc;
use crate::rat::lemma_sqf_is;
use crate::rat::qlt;
use crate::rat::sqf;
use crate::rat::sqrt_floor;
use crate::ray::DIR_BOUND;
use crate::ray::GEOM_BOUND;
use crate::ray::ORIGIN_ROOM;
use crate::ray::Ray;
use crate::vec3::Vec3i;
use crate::vec3::lemma_dot_bound;
use crate::vec3::lemma_prod_bound;
use crate::vec3::lemma_prod_bound2;
use crate::vec3::spec_dot;
use crate::vec3::spec_axis;
use crate::vec3::v_in;

verus! {

/// A sphere on the lattice, with the material of its surface.
#[derive(Clone, Copy, Debug)]
pub struct Sphere {
    pub center: Vec3i,
    pub radius: i64,
    pub material: Surface,
}

impl Sphere {
    pub open spec fn wf(self) -> bool {
        &&& v_in(self.center, GEOM_BOUND as int)
        &&& 1 <= self.radius <= GEOM_BOUND
        &&& self.material.wf()
    }

    pub fn new(center: Vec3i, radius: i64, material: Surface) -> (s: Sphere)
        ensures
            s == (Sphere { center, radius, material }),
    {
        Sphere { center, radius, material }
    }
}

/// Quadratic coefficients of `|orig + t dir - center|^2 = radius^2`,
/// written as `a t^2 + 2 hb t + cc = 0`.
pub open spec fn s_a(r: Ray) -> int {
    spec_dot(r.dir, r.dir)
}

pub open spec fn s_ocx(s: Sphere, r: Ray) -> int {
    r.orig.x - s.center.x
}

pub open spec fn s_ocy(s: Sphere, r: Ray) -> int {
    r.orig.y - s.center.y
}

pub open spec fn s_ocz(s: Sphere, r: Ray) -> int {
    r.orig.z - s.center.z
}

pub open spec fn s_hb(s: Sphere, r: Ray) -> int {
    s_ocx(s, r) * r.dir.x + s_ocy(s, r) * r.dir.y + s_ocz(s, r) * r.dir.z
}

pub open spec fn s_cc(s: Sphere, r: Ray) -> int {
    s_ocx(s, r) * s_ocx(s, r) + s_ocy(s, r) * s_ocy(s, r) + s_ocz(s, r) * s_ocz(s, r)
        - s.radius * s.radius
}

pub open spec fn s_disc(s: Sphere, r: Ray) -> int {
    s_hb(s, r) * s_hb(s, r) - s_a(r) * s_cc(s, r)
}

/// The two quadratic roots, with the discriminant's square root taken as
/// its integer floor; the smaller root first.  A ray with zero direction
/// or a negative discriminant yields no candidates.
pub open spec fn sphere_cands(s: Sphere, r: Ray) -> Seq<Cand> {
    if s_a(r) <= 0 {
        Seq::empty()
    } else if s_disc(s, r) < 0 {
        Seq::empty()
    } else {
        seq![
            mk_cand(r, -s_hb(s, r) - sqf(s_disc(s, r)), s_a(r)),
            mk_cand(r, -s_hb(s, r) + sqf(s_disc(s, r)), s_a(r)),
        ]
    }
}

pub proof fn lemma_sphere_cands_ok(s: Sphere, r: Ray)
    ensures
        cands_ok(sphere_cands(s, r)),
{
}

/// A sequence of exactly two elements contains only those two.
proof fn lemma_two_elems(cs: Seq<Cand>, c1: Cand, c2: Cand, c: Cand)
    requires
        cs == seq![c1, c2],
        cs.contains(c),
    ensures
        c == c1 || c == c2,
{
    let i = choose|i: int| 0 <= i < cs.len() && cs[i] == c;
    if i == 0 {
        assert(cs[0] == c1);
    } else {
        assert(cs[1] == c2);
    }
}

/// The root with `-sqrt` precedes the root with `+sqrt`.
proof fn lemma_roots_le(hb: int, sq: int, a: int)
    by (nonlinear_arith)
    requires
        0 < a,
        0 <= sq,
    ensures
        (-hb - sq) * a <= (-hb + sq) * a,
{
}

impl Sphere {
    /// Closest intersection of the ray with the sphere in `(tmin, tmax)`:
    /// solve the quadratic exactly, try the smaller root first, then the
    /// larger, exactly as the classic formulation does.
    pub fn hit(&self, r: &Ray, tmin: &Rat, tmax: &Rat) -> (res: Option<HitRecord>)
        requires
            self.wf(),
            v_in(r.orig, ORIGIN_ROOM as int),
            v_in(r.dir, DIR_BOUND as int),
            r.time.wf(),
            tmin.wf(),
            tmin.bounded(),
            tmax.wf(),
            tmax.bounded(),
        ensures
            hit_matches(sphere_cands(*self, *r), tmin.v(), tmax.v(), res),
            res.is_some() ==> res.unwrap().wf() && qlt(tmin.v(), res.unwrap().t.v()) && qlt(
                res.unwrap().t.v(),
                tmax.v(),
            ),
            res.is_some() ==> res.unwrap().material == self.material,
            res.is_some() ==> crate::hittable::rec_on_ray(res.unwrap(), *r),
            res.is_some() ==> sphere_rec_shape(res.unwrap(), *self, *r),
    {
        let oc = r.orig.sub(&self.center);
        proof {
            // |oc| < 2^40, |dir| <= 2^20: every product below fits i128.
            lemma_dot_bound(oc, r.dir, 0x100_0000_0000, 0x10_0000);
            lemma_dot_bound(oc, oc, 0x100_0000_0000, 0x100_0000_0000);
            lemma_dot_bound(r.dir, r.dir, 0x10_0000, 0x10_0000);
            crate::vec3::lemma_self_dot_nonneg(r.dir);
        }
        let a = r.dir.dot(&r.dir);
        if a == 0 {
            return None;
        }
        let hb = oc.dot(&r.dir);
        let occ = oc.dot(&oc);
        proof {
            lemma_prod_bound(self.radius as int, self.radius as int, 0x10_0000);
            lemma_prod_bound(hb as int, hb as int, 0x4000_0000_0000_0000);
            lemma_prod_bound2(
                a as int,
                occ as int - self.radius * self.radius,
                0x400_0000_0000,
                0x4_0000_0000_0000_0000_0000,
            );
        }
        let cc = occ - (self.radius as i128) * (self.radius as i128);
        let disc = hb * hb - a * cc;
        proof {
            assert(s_a(*r) == a as int);
            assert(s_hb(*self, *r) == hb as int);
            assert(s_cc(*self, *r) == cc as int);
            assert(s_disc(*self, *r) == disc as int);
        }
        if disc < 0 {
            return None;
        }
        let sq = sqrt_floor(disc);
        proof {
            lemma_sqf_is(disc as int, sq as int);
            assert(sq * sq <= disc);
            assert(sq < 0x8000_0000_0000_0000i128) by (nonlinear_arith)
                requires
                    0 <= sq,
                    sq * sq <= disc,
                    disc < 0x4000_0000_0000_0000_0000_0000_0000_0000int,
            ;
        }
        let ghost cs = sphere_cands(*self, *r);
        proof {
            assert(cs =~= seq![
                mk_cand(*r, -(hb as int) - (sq as int), a as int),
                mk_cand(*r, -(hb as int) + (sq as int), a as int),
            ]);
        }
        let root1 = Rat { num: -hb - sq, den: a };
        let ghost c1 = cs[0];
        let ghost c2 = cs[1];
        proof {
            assert(cs.contains(c1) && cs.contains(c2));
            assert(root1.v() == c1.t());
            lemma_roots_le(s_hb(*self, *r), sqf(s_disc(*self, *r)), s_a(*r));
        }
        if tmin.lt(&root1) && root1.lt(tmax) {
            let rec = self.build_record(r, &root1);
            proof {
                assert(in_ivl(c1, tmin.v(), tmax.v()));
                assert forall|c: Cand|
                    #[trigger] cs.contains(c) && in_ivl(c, tmin.v(), tmax.v()) implies
                    crate::rat::qle(c1.t(), c.t()) by {
                    lemma_two_elems(cs, c1, c2, c);
                }
                assert(best_at(cs, tmin.v(), tmax.v(), c1));
            }
            return Some(rec);
        }
        let root2 = Rat { num: -hb + sq, den: a };
        proof {
            assert(root2.v() == c2.t());
        }
        if tmin.lt(&root2) && root2.lt(tmax) {
            let rec = self.build_record(r, &root2);
            proof {
                assert(in_ivl(c2, tmin.v(), tmax.v()));
                assert forall|c: Cand|
                    #[trigger] cs.contains(c) && in_ivl(c, tmin.v(), tmax.v()) implies
                    crate::rat::qle(c2.t(), c.t()) by {
                    lemma_two_elems(cs, c1, c2, c);
                    if c == c1 {
                        assert(!in_ivl(c1, tmin.v(), tmax.v()));
                    }
                }
                assert(best_at(cs, tmin.v(), tmax.v(), c2));
            }
            return Some(rec);
        }
        proof {
            assert forall|c: Cand| #[trigger] cs.contains(c) implies !in_ivl(
                c,
                tmin.v(),
                tmax.v(),
            ) by {
                lemma_two_elems(cs, c1, c2, c);
            }
        }
        None
    }

    /// Assemble the record for an accepted root: exact hit point, outward
    /// normal `(p - center) / radius` oriented against the ray.  The
    /// spherical surface coordinates need inverse trigonometry, which has
    /// no exact value on the lattice; they are reported as zero.
    fn build_record(&self, r: &Ray, t: &Rat) -> (rec: HitRecord)
        requires
            self.wf(),
            v_in(r.orig, ORIGIN_ROOM as int),
            v_in(r.dir, DIR_BOUND as int),
            t.wf(),
            t.bounded(),
        ensures
            rec.wf(),
            rec.t == *t,
            rec.material == self.material,
            crate::hittable::rec_on_ray(rec, *r),
            sphere_rec_shape(rec, *self, *r),
    {
        let p = ray_point(r, t);
        proof {
            lemma_prod_bound2(self.center.x as int, t.den as int, 0x10_0000, DEN_BOUND as int);
            lemma_prod_bound2(self.center.y as int, t.den as int, 0x10_0000, DEN_BOUND as int);
            lemma_prod_bound2(self.center.z as int, t.den as int, 0x10_0000, DEN_BOUND as int);
            lemma_prod_bound2(self.radius as int, t.den as int, 0x10_0000, DEN_BOUND as int);
            // Tight bounds on the point numerators, from their defining sums.
            lemma_prod_bound2(r.orig.x as int, t.den as int, ORIGIN_ROOM as int, DEN_BOUND as int);
            lemma_prod_bound2(r.orig.y as int, t.den as int, ORIGIN_ROOM as int, DEN_BOUND as int);
            lemma_prod_bound2(r.orig.z as int, t.den as int, ORIGIN_ROOM as int, DEN_BOUND as int);
            lemma_prod_bound2(t.num as int, r.dir.x as int, NUM_BOUND as int, 0x10_0000);
            lemma_prod_bound2(t.num as int, r.dir.y as int, NUM_BOUND as int, 0x10_0000);
            lemma_prod_bound2(t.num as int, r.dir.z as int, NUM_BOUND as int, 0x10_0000);
            assert(0 < (self.radius as int) * (t.den as int)) by (nonlinear_arith)
                requires
                    0 < self.radius,
                    0 < t.den,
            ;
        }
        let outward = RatVec {
            nx: p.nx - (self.center.x as i128) * t.den,
            ny: p.ny - (self.center.y as i128) * t.den,
            nz: p.nz - (self.center.z as i128) * t.den,
            den: (self.radius as i128) * t.den,
        };
        let front_face = HitRecord::face_normal(r, &outward);
        let normal = if front_face {
            outward
        } else {
            outward.neg()
        };
        proof {
            if !front_face {
                assert((r.dir.x as int) * normal.nx + (r.dir.y as int) * normal.ny + (
                r.dir.z as int) * normal.nz == -((r.dir.x as int) * outward.nx + (
                r.dir.y as int) * outward.ny + (r.dir.z as int) * outward.nz))
                    by (nonlinear_arith)
                    requires
                        normal.nx == -outward.nx,
                        normal.ny == -outward.ny,
                        normal.nz == -outward.nz,
                ;
            }
        }
        HitRecord {
            p,
            normal,
            t: *t,
            u: Rat::from_int(0),
            v: Rat::from_int(0),
            front_face,
            material: self.material,
        }
    }

    /// The tight axis-aligned box of the sphere.
    pub fn bounding_box(&self) -> (b: Aabb)
        requires
            self.wf(),
        ensures
            b.minimum.x == self.center.x - self.radius,
            b.minimum.y == self.center.y - self.radius,
            b.minimum.z == self.center.z - self.radius,
            b.maximum.x == self.center.x + self.radius,
            b.maximum.y == self.center.y + self.radius,
            b.maximum.z == self.center.z + self.radius,
            b.wf(),
    {
        let rad_vec = Vec3i::new(self.radius, self.radius, self.radius);
        Aabb::new(self.center.sub(&rad_vec), self.center.add(&rad_vec))
    }
}

/// The record a sphere reports: the outward normal is `(p - center)` over
/// `radius` (sharing the parameter's denominator), flipped against the
/// ray, with the front flag the sign of the incident dot product.
pub open spec fn sphere_rec_shape(rec: HitRecord, s: Sphere, r: Ray) -> bool {
    let ox = rec.p.nx - s.center.x * rec.t.den;
    let oy = rec.p.ny - s.center.y * rec.t.den;
    let oz = rec.p.nz - s.center.z * rec.t.den;
    &&& rec.normal.den == s.radius * rec.t.den
    &&& rec.front_face == ((r.dir.x as int) * ox + (r.dir.y as int) * oy + (r.dir.z as int) * oz
        < 0)
    &&& (rec.front_face ==> rec.normal.nx == ox && rec.normal.ny == oy && rec.normal.nz == oz)
    &&& (!rec.front_face ==> rec.normal.nx == -ox && rec.normal.ny == -oy && rec.normal.nz == -oz)
    &&& crate::hittable::oriented_against(rec, r)
}

/// The sphere's box as a ghost value (corners fit `i64` when `wf` holds).
pub open spec fn sphere_bbox(s: Sphere) -> crate::aabb::Aabb {
    crate::aabb::Aabb {
        minimum: Vec3i {
            x: (s.center.x - s.radius) as i64,
            y: (s.center.y - s.radius) as i64,
            z: (s.center.z - s.radius) as i64,
        },
        maximum: Vec3i {
            x: (s.center.x + s.radius) as i64,
            y: (s.center.y + s.radius) as i64,
            z: (s.center.z + s.radius) as i64,
        },
    }
}

/// Both quadratic roots with the floored square root lie between the true
/// roots, so the ray position there is inside (or on) the sphere:
/// substituting `t = (-hb +- sq) / a` into the quadratic gives
/// `(sq^2 - disc) / a <= 0`.
proof fn lemma_root_inside(a: int, hb: int, cc: int, sq: int, tn: int)
    by (nonlinear_arith)
    requires
        0 < a,
        0 <= sq,
        sq * sq <= hb * hb - a * cc,
        tn == -hb - sq || tn == -hb + sq,
    ensures
        cc * (a * a) + 2 * (tn * (a * hb)) + a * (tn * tn) <= 0,
{
    assert(cc * (a * a) + 2 * (tn * (a * hb)) + a * (tn * tn) == a * (cc * a + 2 * (tn * hb) + tn
        * tn));
    assert(cc * a + 2 * (tn * hb) + tn * tn == sq * sq - (hb * hb - a * cc));
}

/// One axis of the squared distance, expanded.
#[verifier::rlimit(50)]
proof fn lemma_binomial(e: int, oc: int, td: int, tn: int, d: int)
    requires
        e == oc * td + tn * d,
    ensures
        e * e == (td * td) * (oc * oc) + (2 * (tn * td)) * (oc * d) + (tn * tn) * (d * d),
{
    let u = oc * td;
    let w = tn * d;
    assert(e * e == u * u + 2 * (u * w) + w * w) by (nonlinear_arith)
        requires
            e == u + w,
    ;
    assert(u * u == (td * td) * (oc * oc)) by (nonlinear_arith)
        requires
            u == oc * td,
    ;
    assert(u * w == (tn * td) * (oc * d)) by (nonlinear_arith)
        requires
            u == oc * td,
            w == tn * d,
    ;
    assert(2 * ((tn * td) * (oc * d)) == (2 * (tn * td)) * (oc * d)) by (nonlinear_arith);
    assert(w * w == (tn * tn) * (d * d)) by (nonlinear_arith)
        requires
            w == tn * d,
    ;
}

/// Right distributivity over a three-term sum.
proof fn lemma_collect3(a: int, p: int, q: int, r: int)
    by (nonlinear_arith)
    ensures
        a * p + a * q + a * r == a * (p + q + r),
{
}

/// Expanding `|oc * td + tn * dir|^2` and substituting the quadratic
/// inequality bounds every coordinate of the hit point by the radius.
proof fn lemma_inside_axis(ocx: int, dx: int, tn: int, td: int, rad: int, rest: int)
    by (nonlinear_arith)
    requires
        0 < td,
        0 < rad,
        0 <= rest,
        (ocx * td + tn * dx) * (ocx * td + tn * dx) + rest <= (rad * td) * (rad * td),
    ensures
        -(rad * td) <= ocx * td + tn * dx <= rad * td,
{
}

/// Candidates of a sphere lie inside its bounding box.
pub proof fn lemma_sphere_cand_in_box(s: Sphere, r: Ray, c: Cand)
    requires
        s.wf(),
        sphere_cands(s, r).contains(c),
    ensures
        c.ok(),
        crate::aabb::point_in_box(sphere_bbox(s), r, c.t()),
{
    let a = s_a(r);
    let hb = s_hb(s, r);
    let cc = s_cc(s, r);
    let disc = s_disc(s, r);
    let sq = sqf(disc);
    let cs = sphere_cands(s, r);
    let i = choose|i: int| 0 <= i < cs.len() && cs[i] == c;
    assert(a > 0 && disc >= 0);
    crate::rat::lemma_sqrt_exists(disc);
    if i == 0 {
        assert(c == mk_cand(r, -hb - sq, a));
    } else {
        assert(c == mk_cand(r, -hb + sq, a));
    }
    assert(c.tn == -hb - sq || c.tn == -hb + sq);
    assert(c.td == a);
    let tn = c.tn;
    let td = c.td;
    lemma_root_inside(a, hb, cc, sq, tn);
    let ocx = s_ocx(s, r);
    let ocy = s_ocy(s, r);
    let ocz = s_ocz(s, r);
    let ex = ocx * td + tn * r.dir.x;
    let ey = ocy * td + tn * r.dir.y;
    let ez = ocz * td + tn * r.dir.z;
    // |p - center|^2, cleared by td, equals the quadratic plus radius^2:
    // expand each axis, then collect the three groups of terms.
    let rad = s.radius as int;
    lemma_binomial(ex, ocx, td, tn, r.dir.x as int);
    lemma_binomial(ey, ocy, td, tn, r.dir.y as int);
    lemma_binomial(ez, ocz, td, tn, r.dir.z as int);
    lemma_collect3(td * td, ocx * ocx, ocy * ocy, ocz * ocz);
    lemma_collect3(2 * (tn * td), ocx * (r.dir.x as int), ocy * (r.dir.y as int), ocz * (
    r.dir.z as int));
    lemma_collect3(tn * tn, (r.dir.x as int) * r.dir.x, (r.dir.y as int) * r.dir.y, (
    r.dir.z as int) * r.dir.z);
    assert(ex * ex + ey * ey + ez * ez == (td * td) * (cc + rad * rad) + (2 * (tn * td)) * hb + (tn
        * tn) * a);
    assert((a * a) * (cc + rad * rad) == cc * (a * a) + (a * a) * (rad * rad))
        by (nonlinear_arith);
    assert((2 * (tn * a)) * hb == 2 * (tn * (a * hb))) by (nonlinear_arith);
    assert((tn * tn) * a == a * (tn * tn)) by (nonlinear_arith);
    assert((rad * a) * (rad * a) == (a * a) * (rad * rad)) by (nonlinear_arith);
    assert(ex * ex + ey * ey + ez * ez <= (rad * td) * (rad * td));
    assert(0 <= ey * ey && 0 <= ez * ez && 0 <= ex * ex) by (nonlinear_arith);
    lemma_inside_axis(ocx, r.dir.x as int, tn, td, s.radius as int, ey * ey + ez * ez);
    lemma_inside_axis(ocy, r.dir.y as int, tn, td, s.radius as int, ex * ex + ez * ez);
    lemma_inside_axis(ocz, r.dir.z as int, tn, td, s.radius as int, ex * ex + ey * ey);
    assert forall|ax: int| 0 <= ax < 3 implies spec_axis(sphere_bbox(s).minimum, ax) * c.t().d
        <= #[trigger] crate::ray::at_num(r, c.t(), ax) <= spec_axis(sphere_bbox(s).maximum, ax)
        * c.t().d by {
        let o = spec_axis(r.orig, ax);
        let d = spec_axis(r.dir, ax);
        let ce = if ax == 0 {
            s.center.x as int
        } else if ax == 1 {
            s.center.y as int
        } else {
            s.center.z as int
        };
        assert(crate::ray::at_num(r, c.t(), ax) == o * td + tn * d);
        if ax == 0 {
            assert((o - ce) * td + tn * d == ex) by (nonlinear_arith)
                requires
                    ex == (o - ce) * td + tn * d,
            ;
        } else if ax == 1 {
            assert((o - ce) * td + tn * d == ey) by (nonlinear_arith)
                requires
                    ey == (o - ce) * td + tn * d,
            ;
        } else {
            assert((o - ce) * td + tn * d == ez) by (nonlinear_arith)
                requires
                    ez == (o - ce) * td + tn * d,
            ;
        }
        assert((ce - s.radius) * td <= o * td + tn * d <= (ce + s.radius) * td)
            by (nonlinear_arith)
            requires
                -(s.radius * td) <= (o - ce) * td + tn * d <= s.radius * td,
                0 < td,
        ;
    }
}


/// A sphere whose center moves linearly from `center0` (at shutter time
/// `t0`) to `center1` (at `t1`).  The interpolated center is rounded to
/// the lattice, so the intersection at any shutter time is exactly a
/// stationary sphere's.
#[derive(Clone, Copy, Debug)]
pub struct MovingSphere {
    pub center0: Vec3i,
    pub center1: Vec3i,
    pub t0: i64,
    pub t1: i64,
    pub radius: i64,
    pub material: Surface,
}

impl MovingSphere {
    pub open spec fn wf(self) -> bool {
        &&& v_in(self.center0, GEOM_BOUND as int)
        &&& v_in(self.center1, GEOM_BOUND as int)
        &&& 1 <= self.radius <= GEOM_BOUND
        &&& -GEOM_BOUND <= self.t0 < self.t1 <= GEOM_BOUND
        &&& self.material.wf()
    }

    pub fn new(
        center0: Vec3i,
        center1: Vec3i,
        t0: i64,
        t1: i64,
        radius: i64,
        material: Surface,
    ) -> (s: MovingSphere)
        ensures
            s == (MovingSphere { center0, center1, t0, t1, radius, material }),
    {
        MovingSphere { center0, center1, t0, t1, radius, material }
    }
}

/// The shutter time clamped into `[t0, t1]` at canonical fixed point.  A
/// camera only generates times inside the shutter interval, where the clamp
/// is the identity and the center interpolates linearly; for a time outside
/// it the sphere is held at the nearer endpoint rather than extrapolated,
/// so the center always lies in the box spanned by the two endpoints.
pub open spec fn spec_shutter(ms: MovingSphere, time: crate::rat::Sc) -> int {
    let cd = crate::color::COLOR_DEN as int;
    let tc = crate::color::spec_sat(crate::utility::spec_tdiv(time.n * cd, time.d));
    if tc < ms.t0 * cd {
        ms.t0 * cd
    } else if tc > ms.t1 * cd {
        ms.t1 * cd
    } else {
        tc
    }
}

/// The interpolated center, rounded to the lattice.
pub open spec fn spec_center_at(ms: MovingSphere, time: crate::rat::Sc) -> Vec3i {
    let cd = crate::color::COLOR_DEN as int;
    let num = spec_shutter(ms, time) - ms.t0 * cd;
    let den = (ms.t1 - ms.t0) * cd;
    Vec3i {
        x: (ms.center0.x + crate::utility::spec_tdiv((ms.center1.x - ms.center0.x) * num, den)) as i64,
        y: (ms.center0.y + crate::utility::spec_tdiv((ms.center1.y - ms.center0.y) * num, den)) as i64,
        z: (ms.center0.z + crate::utility::spec_tdiv((ms.center1.z - ms.center0.z) * num, den)) as i64,
    }
}

/// The stationary sphere a moving sphere is at a given shutter time.
pub open spec fn spec_sphere_at(ms: MovingSphere, time: crate::rat::Sc) -> Sphere {
    Sphere { center: spec_center_at(ms, time), radius: ms.radius, material: ms.material }
}

pub open spec fn moving_cands(ms: MovingSphere, r: Ray) -> Seq<Cand> {
    sphere_cands(spec_sphere_at(ms, r.time.v()), r)
}

/// `0 <= a <= b * d` with `d > 0` bounds the quotient by `b`.
proof fn lemma_div_le(a: int, b: int, d: int)
    requires
        0 <= a,
        a <= b * d,
        0 < d,
    ensures
        0 <= a / d <= b,
{
    vstd::arithmetic::div_mod::lemma_div_is_ordered(a, b * d, d);
    assert(b * d == d * b) by (nonlinear_arith);
    vstd::arithmetic::div_mod::lemma_div_multiples_vanish(b, d);
    assert(0 <= a / d) by (nonlinear_arith)
        requires
            0 <= a,
            0 < d,
    ;
}

/// The rounded interpolated offset lies between zero and the full travel.
proof fn lemma_offset_between(dc: int, num: int, den: int)
    requires
        0 <= num <= den,
        0 < den,
    ensures
        dc >= 0 ==> 0 <= crate::utility::spec_tdiv(dc * num, den) <= dc,
        dc < 0 ==> dc <= crate::utility::spec_tdiv(dc * num, den) <= 0,
{
    if dc >= 0 {
        assert(0 <= dc * num <= dc * den) by (nonlinear_arith)
            requires
                0 <= dc,
                0 <= num <= den,
        ;
        lemma_div_le(dc * num, dc, den);
    } else {
        assert(0 <= (-dc) * num <= (-dc) * den) by (nonlinear_arith)
            requires
                dc < 0,
                0 <= num <= den,
        ;
        lemma_div_le((-dc) * num, -dc, den);
        assert(dc * num == -((-dc) * num)) by (nonlinear_arith);
    }
}

/// The interpolated center stays componentwise between the two endpoint
/// centers (so within the scene bounds and inside the endpoint box union).
pub proof fn lemma_center_between(ms: MovingSphere, time: crate::rat::Sc)
    requires
        ms.wf(),
    ensures
        v_in(spec_center_at(ms, time), GEOM_BOUND as int),
        forall|ax: int|
            0 <= ax < 3 ==> (if spec_axis(ms.center0, ax) <= spec_axis(ms.center1, ax) {
                spec_axis(ms.center0, ax) <= #[trigger] spec_axis(spec_center_at(ms, time), ax)
                    <= spec_axis(ms.center1, ax)
            } else {
                spec_axis(ms.center1, ax) <= spec_axis(spec_center_at(ms, time), ax) <= spec_axis(
                    ms.center0,
                    ax,
                )
            }),
{
    let cd = crate::color::COLOR_DEN as int;
    let num = spec_shutter(ms, time) - ms.t0 * cd;
    let den = (ms.t1 - ms.t0) * cd;
    assert(0 < den && num <= den) by (nonlinear_arith)
        requires
            ms.t0 < ms.t1,
            spec_shutter(ms, time) <= ms.t1 * cd,
            num == spec_shutter(ms, time) - ms.t0 * cd,
            den == (ms.t1 - ms.t0) * cd,
            cd == crate::color::COLOR_DEN as int,
    ;
    assert(0 <= num);
    lemma_offset_between((ms.center1.x - ms.center0.x) as int, num, den);
    lemma_offset_between((ms.center1.y - ms.center0.y) as int, num, den);
    lemma_offset_between((ms.center1.z - ms.center0.z) as int, num, den);
}

impl MovingSphere {
    /// The rounded interpolated center at a shutter time.
    pub fn center_at(&self, time: &Rat) -> (c: Vec3i)
        requires
            self.wf(),
            time.wf(),
            time.bounded(),
        ensures
            c == spec_center_at(*self, time.v()),
            v_in(c, GEOM_BOUND as int),
    {
        let cd: i128 = crate::color::COLOR_DEN;
        let tc0 = crate::color::rat_canon(time);
        let lo = (self.t0 as i128) * cd;
        let hi = (self.t1 as i128) * cd;
        let tn = if tc0.num < lo {
            lo
        } else if tc0.num > hi {
            hi
        } else {
            tc0.num
        };
        let num = tn - lo;
        let den = ((self.t1 - self.t0) as i128) * cd;
        proof {
            lemma_center_between(*self, time.v());
            assert(0 < den && 0 <= num <= den) by (nonlinear_arith)
                requires
                    self.t0 < self.t1,
                    lo == self.t0 as int * cd,
                    hi == self.t1 as int * cd,
                    lo <= tn <= hi,
                    num == tn - lo,
                    den == (self.t1 - self.t0) as int * cd,
                    0 < cd,
            ;
            lemma_prod_bound2((self.center1.x - self.center0.x) as int, num as int, 0x20_0000, 0x20_0000_0000_0000);
            lemma_prod_bound2((self.center1.y - self.center0.y) as int, num as int, 0x20_0000, 0x20_0000_0000_0000);
            lemma_prod_bound2((self.center1.z - self.center0.z) as int, num as int, 0x20_0000, 0x20_0000_0000_0000);
            lemma_offset_between((self.center1.x - self.center0.x) as int, num as int, den as int);
            lemma_offset_between((self.center1.y - self.center0.y) as int, num as int, den as int);
            lemma_offset_between((self.center1.z - self.center0.z) as int, num as int, den as int);
        }
        let qx = crate::utility::tdiv(((self.center1.x - self.center0.x) as i128) * num, den);
        let qy = crate::utility::tdiv(((self.center1.y - self.center0.y) as i128) * num, den);
        let qz = crate::utility::tdiv(((self.center1.z - self.center0.z) as i128) * num, den);
        Vec3i::new(
            self.center0.x + qx as i64,
            self.center0.y + qy as i64,
            self.center0.z + qz as i64,
        )
    }

    /// Intersection at the ray's shutter time: exactly the stationary
    /// sphere at the interpolated (rounded) center.
    pub fn hit(&self, r: &Ray, tmin: &Rat, tmax: &Rat) -> (res: Option<HitRecord>)
        requires
            self.wf(),
            v_in(r.orig, ORIGIN_ROOM as int),
            v_in(r.dir, DIR_BOUND as int),
            r.time.wf(),
            r.time.bounded(),
            tmin.wf(),
            tmin.bounded(),
            tmax.wf(),
            tmax.bounded(),
        ensures
            hit_matches(moving_cands(*self, *r), tmin.v(), tmax.v(), res),
            res.is_some() ==> res.unwrap().wf() && qlt(tmin.v(), res.unwrap().t.v()) && qlt(
                res.unwrap().t.v(),
                tmax.v(),
            ),
            res.is_some() ==> res.unwrap().material == self.material,
            res.is_some() ==> crate::hittable::rec_on_ray(res.unwrap(), *r),
            res.is_some() ==> sphere_rec_shape(
                res.unwrap(),
                spec_sphere_at(*self, r.time.v()),
                *r,
            ),
    {
        let ds = Sphere {
            center: self.center_at(&r.time),
            radius: self.radius,
            material: self.material,
        };
        ds.hit(r, tmin, tmax)
    }

    /// The box enclosing the sphere over the whole shutter interval: the
    /// union of the endpoint boxes.
    pub fn bounding_box(&self) -> (b: Aabb)
        requires
            self.wf(),
        ensures
            b == moving_sphere_bbox(*self),
            b.wf(),
    {
        let r0 = Vec3i::new(self.radius, self.radius, self.radius);
        let b0 = Aabb::new(self.center0.sub(&r0), self.center0.add(&r0));
        let b1 = Aabb::new(self.center1.sub(&r0), self.center1.add(&r0));
        crate::aabb::surrounding_box(b0, b1)
    }
}

/// The union of the endpoint boxes, as a ghost value.
pub open spec fn moving_sphere_bbox(ms: MovingSphere) -> Aabb {
    Aabb {
        minimum: Vec3i {
            x: (if ms.center0.x <= ms.center1.x { ms.center0.x } else { ms.center1.x } - ms.radius) as i64,
            y: (if ms.center0.y <= ms.center1.y { ms.center0.y } else { ms.center1.y } - ms.radius) as i64,
            z: (if ms.center0.z <= ms.center1.z { ms.center0.z } else { ms.center1.z } - ms.radius) as i64,
        },
        maximum: Vec3i {
            x: (if ms.center0.x >= ms.center1.x { ms.center0.x } else { ms.center1.x } + ms.radius) as i64,
            y: (if ms.center0.y >= ms.center1.y { ms.center0.y } else { ms.center1.y } + ms.radius) as i64,
            z: (if ms.center0.z >= ms.center1.z { ms.center0.z } else { ms.center1.z } + ms.radius) as i64,
        },
    }
}

/// Candidates of a moving sphere lie inside the endpoint box union.
pub proof fn lemma_moving_cand_in_box(ms: MovingSphere, r: Ray, c: Cand)
    requires
        ms.wf(),
        moving_cands(ms, r).contains(c),
    ensures
        c.ok(),
        crate::aabb::point_in_box(moving_sphere_bbox(ms), r, c.t()),
{
    let ds = spec_sphere_at(ms, r.time.v());
    lemma_center_between(ms, r.time.v());
    lemma_sphere_cand_in_box(ds, r, c);
    assert forall|ax: int|
        0 <= ax < 3 implies spec_axis(moving_sphere_bbox(ms).minimum, ax) <= spec_axis(
        sphere_bbox(ds).minimum,
        ax,
    ) && spec_axis(sphere_bbox(ds).maximum, ax) <= spec_axis(
        moving_sphere_bbox(ms).maximum,
        ax,
    ) by {
        assert(if spec_axis(ms.center0, ax) <= spec_axis(ms.center1, ax) {
            spec_axis(ms.center0, ax) <= spec_axis(spec_center_at(ms, r.time.v()), ax)
                <= spec_axis(ms.center1, ax)
        } else {
            spec_axis(ms.center1, ax) <= spec_axis(spec_center_at(ms, r.time.v()), ax)
                <= spec_axis(ms.center0, ax)
        });
        if ax == 0 {
        } else if ax == 1 {
        } else {
        }
    }
    assert(crate::aabb::absorbs(moving_sphere_bbox(ms), sphere_bbox(ds)));
    crate::aabb::lemma_point_in_absorbing(moving_sphere_bbox(ms), sphere_bbox(ds), r, c.t());
}

} // verus!
