use vstd::prelude::*;

use crate::hittable::Cand;
use crate::hittable::HitRecord;
use crate::hittable::RatVec;
use crate::hittable::best_at;
use crate::hittable::cands_ok;
use crate::hittable::hit_matches;
use crate::hittable::in_ivl;
use crate::hittable::mk_cand;
use crate::hittable::ray_point;
use crate::material::Surface;
use crate::rat::DEN_BOUND;
use crate::rat::NUM_BOUND;
use crate::rat::Rat;
use crate::rat::Sc;
use crate::rat::qle;
use crate::rat::qlt;
use crate::ray::DIR_BOUND;
use crate::ray::GEOM_BOUND;
use crate::ray::ORIGIN_ROOM;
use crate::ray::Ray;
use crate::vec3::Vec3i;
use crate::vec3::lemma_prod_bound;
use crate::vec3::lemma_prod_bound2;
use crate::vec3::spec_axis;
use crate::vec3::v_in;

verus! {

/// The candidate coordinate along axis `a`.
pub open spec fn cand_axis(c: Cand, a: int) -> int {
    if a == 0 {
        c.px
    } else if a == 1 {
        c.py
    } else {
        c.pz
    }
}

/// Candidates of an axis-aligned rectangle: the plane crossing along the
/// fixed axis `ka`, kept only when the in-plane coordinates (axes `ua`,
/// `va`) fall inside the rectangle bounds (inequalities cleared of the
/// denominator).  A ray parallel to the plane yields no candidate.
pub open spec fn rect_cands(
    r: Ray,
    ka: int,
    ua: int,
    va: int,
    u0: int,
    u1: int,
    v0: int,
    v1: int,
    k: int,
) -> Seq<Cand> {
    let dk = spec_axis(r.dir, ka);
    if dk == 0 {
        Seq::empty()
    } else {
        let tn = if dk > 0 {
            k - spec_axis(r.orig, ka)
        } else {
            spec_axis(r.orig, ka) - k
        };
        let td = if dk > 0 {
            dk
        } else {
            -dk
        };
        let c = mk_cand(r, tn, td);
        if u0 * td <= cand_axis(c, ua) <= u1 * td && v0 * td <= cand_axis(c, va) <= v1 * td {
            seq![c]
        } else {
            Seq::empty()
        }
    }
}

/// The record an axis-aligned rectangle reports: a unit normal along the
/// fixed axis flipped against the ray, the front flag the sign of the
/// direction's fixed-axis component, and exact surface coordinates.
pub open spec fn rect_rec_shape(
    rec: HitRecord,
    r: Ray,
    ka: int,
    ua: int,
    va: int,
    u0: int,
    u1: int,
    v0: int,
    v1: int,
) -> bool {
    &&& rec.front_face == (spec_axis(r.dir, ka) < 0)
    &&& rec.normal.den == 1
    &&& rec.normal.nx == (if ka == 0 {
        if rec.front_face {
            1int
        } else {
            -1int
        }
    } else {
        0int
    })
    &&& rec.normal.ny == (if ka == 1 {
        if rec.front_face {
            1int
        } else {
            -1int
        }
    } else {
        0int
    })
    &&& rec.normal.nz == (if ka == 2 {
        if rec.front_face {
            1int
        } else {
            -1int
        }
    } else {
        0int
    })
    &&& rec.u.den == (u1 - u0) * rec.t.den
    &&& rec.u.num == (if ua == 0 {
        rec.p.nx
    } else if ua == 1 {
        rec.p.ny
    } else {
        rec.p.nz
    }) - u0 * rec.t.den
    &&& rec.v.den == (v1 - v0) * rec.t.den
    &&& rec.v.num == (if va == 0 {
        rec.p.nx
    } else if va == 1 {
        rec.p.ny
    } else {
        rec.p.nz
    }) - v0 * rec.t.den
    &&& crate::hittable::oriented_against(rec, r)
}

/// Shared exact hit test for the three rectangle orientations.
#[allow(unused_variables)]
#[verifier::rlimit(100)]
#[verifier::spinoff_prover]
fn rect_hit(
    r: &Ray,
    ka: usize,
    ua: usize,
    va: usize,
    u0: i64,
    u1: i64,
    v0: i64,
    v1: i64,
    k: i64,
    material: &Surface,
    tmin: &Rat,
    tmax: &Rat,
) -> (res: Option<HitRecord>)
    requires
        ka < 3,
        ua < 3,
        va < 3,
        ka != ua && ka != va && ua != va,
        -GEOM_BOUND <= u0 < u1 <= GEOM_BOUND,
        -GEOM_BOUND <= v0 < v1 <= GEOM_BOUND,
        -GEOM_BOUND <= k <= GEOM_BOUND,
        material.wf(),
        v_in(r.orig, ORIGIN_ROOM as int),
        v_in(r.dir, DIR_BOUND as int),
        r.time.wf(),
        tmin.wf(),
        tmin.bounded(),
        tmax.wf(),
        tmax.bounded(),
    ensures
        hit_matches(
            rect_cands(
                *r,
                ka as int,
                ua as int,
                va as int,
                u0 as int,
                u1 as int,
                v0 as int,
                v1 as int,
                k as int,
            ),
            tmin.v(),
            tmax.v(),
            res,
        ),
        res.is_some() ==> res.unwrap().wf() && qlt(tmin.v(), res.unwrap().t.v()) && qlt(
            res.unwrap().t.v(),
            tmax.v(),
        ),
        res.is_some() ==> res.unwrap().material == *material,
        res.is_some() ==> crate::hittable::rec_on_ray(res.unwrap(), *r),
        res.is_some() ==> rect_rec_shape(
            res.unwrap(),
            *r,
            ka as int,
            ua as int,
            va as int,
            u0 as int,
            u1 as int,
            v0 as int,
            v1 as int,
        ),
{
    let ghost cs = rect_cands(
        *r,
        ka as int,
        ua as int,
        va as int,
        u0 as int,
        u1 as int,
        v0 as int,
        v1 as int,
        k as int,
    );
    let dk = r.dir.axis(ka);
    if dk == 0 {
        return None;
    }
    let ok = r.orig.axis(ka);
    let (tn, td) = if dk > 0 {
        (k - ok, dk)
    } else {
        (ok - k, -dk)
    };
    let t = Rat::new(tn, td);
    let p = ray_point(r, &t);
    let ghost c = mk_cand(*r, tn as int, td as int);
    proof {
        assert(p.nx == cand_axis(c, 0) && p.ny == cand_axis(c, 1) && p.nz == cand_axis(c, 2));
        lemma_prod_bound(u0 as int, td as int, 0x10_0000);
        lemma_prod_bound(u1 as int, td as int, 0x10_0000);
        lemma_prod_bound(v0 as int, td as int, 0x10_0000);
        lemma_prod_bound(v1 as int, td as int, 0x10_0000);
    }
    let pu = p.axis_num(ua);
    let pv = p.axis_num(va);
    let inside = (u0 as i128) * (td as i128) <= pu && pu <= (u1 as i128) * (td as i128) && (
    v0 as i128) * (td as i128) <= pv && pv <= (v1 as i128) * (td as i128);
    if !inside {
        proof {
            assert(cs =~= Seq::<Cand>::empty());
        }
        return None;
    }
    proof {
        assert(cs =~= seq![c]);
    }
    if tmin.lt(&t) && t.lt(tmax) {
        // Surface coordinates, exactly: (pu - u0) / (u1 - u0) and the same
        // along the other in-plane axis.
        proof {
            assert(0 < ((u1 - u0) as int) * (td as int) <= DEN_BOUND * DEN_BOUND)
                by (nonlinear_arith)
                requires
                    0 < u1 - u0 <= 0x20_0000,
                    0 < td <= 0x10_0000,
            ;
            assert(0 < ((v1 - v0) as int) * (td as int) <= DEN_BOUND * DEN_BOUND)
                by (nonlinear_arith)
                requires
                    0 < v1 - v0 <= 0x20_0000,
                    0 < td <= 0x10_0000,
            ;
        }
        let uu = Rat { num: pu - (u0 as i128) * (td as i128), den: ((u1 - u0) as i128) * (td as i128) };
        let vv = Rat { num: pv - (v0 as i128) * (td as i128), den: ((v1 - v0) as i128) * (td as i128) };
        let outward = RatVec {
            nx: if ka == 0 { 1 } else { 0 },
            ny: if ka == 1 { 1 } else { 0 },
            nz: if ka == 2 { 1 } else { 0 },
            den: 1,
        };
        let front_face = HitRecord::face_normal(r, &outward);
        let normal = if front_face {
            outward
        } else {
            outward.neg()
        };
        let rec = HitRecord {
            p,
            normal,
            t,
            u: uu,
            v: vv,
            front_face,
            material: *material,
        };
        proof {
            assert(cs.contains(c)) by {
                assert(cs[0] == c);
            }
            assert(in_ivl(c, tmin.v(), tmax.v()));
            assert forall|c2: Cand|
                #[trigger] cs.contains(c2) && in_ivl(c2, tmin.v(), tmax.v()) implies qle(
                c.t(),
                c2.t(),
            ) by {
                let i = choose|i: int| 0 <= i < cs.len() && cs[i] == c2;
                assert(c2 == c);
            }
            assert(best_at(cs, tmin.v(), tmax.v(), c));
        }
        return Some(rec);
    }
    proof {
        assert forall|c2: Cand| #[trigger] cs.contains(c2) implies !in_ivl(
            c2,
            tmin.v(),
            tmax.v(),
        ) by {
            let i = choose|i: int| 0 <= i < cs.len() && cs[i] == c2;
            assert(c2 == c);
        }
    }
    None
}

pub proof fn lemma_rect_cands_ok(
    r: Ray,
    ka: int,
    ua: int,
    va: int,
    u0: int,
    u1: int,
    v0: int,
    v1: int,
    k: int,
)
    ensures
        cands_ok(rect_cands(r, ka, ua, va, u0, u1, v0, v1, k)),
{
}

/// Rectangle in the plane `z = k`, spanning `[x0, x1] x [y0, y1]`.
#[derive(Clone, Copy, Debug)]
pub struct XYRect {
    pub x0: i64,
    pub x1: i64,
    pub y0: i64,
    pub y1: i64,
    pub k: i64,
    pub material: Surface,
}

impl XYRect {
    pub open spec fn wf(self) -> bool {
        &&& -GEOM_BOUND <= self.x0 < self.x1 <= GEOM_BOUND
        &&& -GEOM_BOUND <= self.y0 < self.y1 <= GEOM_BOUND
        &&& -GEOM_BOUND <= self.k <= GEOM_BOUND
        &&& self.material.wf()
    }

    pub fn new(x0: i64, x1: i64, y0: i64, y1: i64, k: i64, material: Surface) -> (s: XYRect)
        ensures
            s == (XYRect { x0, x1, y0, y1, k, material }),
    {
        XYRect { x0, x1, y0, y1, k, material }
    }

    pub open spec fn cands(self, r: Ray) -> Seq<Cand> {
        rect_cands(
            r,
            2,
            0,
            1,
            self.x0 as int,
            self.x1 as int,
            self.y0 as int,
            self.y1 as int,
            self.k as int,
        )
    }

    pub fn hit(&self, r: &Ray, tmin: &Rat, tmax: &Rat) -> (res: Option<HitRecord>)
        requires
            self.wf(),
            v_in(r.orig, ORIGIN_ROOM as int),
            v_in(r.dir, DIR_BOUND as int),
            r.time.wf(),
            tmin.wf(),
            tmin.bounded(),
            tmax.wf(),
            tmax.bounded(),
        ensures
            hit_matches(self.cands(*r), tmin.v(), tmax.v(), res),
            res.is_some() ==> res.unwrap().wf() && qlt(tmin.v(), res.unwrap().t.v()) && qlt(
                res.unwrap().t.v(),
                tmax.v(),
            ),
            res.is_some() ==> crate::hittable::rec_on_ray(res.unwrap(), *r),
            res.is_some() ==> res.unwrap().material == self.material,
            res.is_some() ==> rect_rec_shape(
                res.unwrap(),
                *r,
                2,
                0,
                1,
                self.x0 as int,
                self.x1 as int,
                self.y0 as int,
                self.y1 as int,
            ),
    {
        rect_hit(r, 2, 0, 1, self.x0, self.x1, self.y0, self.y1, self.k, &self.material, tmin, tmax)
    }

    /// The rectangle's box, padded one lattice step along the degenerate
    /// axis so it has volume.
    pub fn bounding_box(&self) -> (b: crate::aabb::Aabb)
        requires
            self.wf(),
        ensures
            b.minimum == (Vec3i { x: self.x0, y: self.y0, z: (self.k - 1) as i64 }),
            b.maximum == (Vec3i { x: self.x1, y: self.y1, z: (self.k + 1) as i64 }),
            b.wf(),
    {
        crate::aabb::Aabb::new(
            Vec3i::new(self.x0, self.y0, self.k - 1),
            Vec3i::new(self.x1, self.y1, self.k + 1),
        )
    }
}

/// Rectangle in the plane `y = k`, spanning `[x0, x1] x [z0, z1]`.
#[derive(Clone, Copy, Debug)]
pub struct XZRect {
    pub x0: i64,
    pub x1: i64,
    pub z0: i64,
    pub z1: i64,
    pub k: i64,
    pub material: Surface,
}

impl XZRect {
    pub open spec fn wf(self) -> bool {
        &&& -GEOM_BOUND <= self.x0 < self.x1 <= GEOM_BOUND
        &&& -GEOM_BOUND <= self.z0 < self.z1 <= GEOM_BOUND
        &&& -GEOM_BOUND <= self.k <= GEOM_BOUND
        &&& self.material.wf()
    }

    pub fn new(x0: i64, x1: i64, z0: i64, z1: i64, k: i64, material: Surface) -> (s: XZRect)
        ensures
            s == (XZRect { x0, x1, z0, z1, k, material }),
    {
        XZRect { x0, x1, z0, z1, k, material }
    }

    pub open spec fn cands(self, r: Ray) -> Seq<Cand> {
        rect_cands(
            r,
            1,
            0,
            2,
            self.x0 as int,
            self.x1 as int,
            self.z0 as int,
            self.z1 as int,
            self.k as int,
        )
    }

    pub fn hit(&self, r: &Ray, tmin: &Rat, tmax: &Rat) -> (res: Option<HitRecord>)
        requires
            self.wf(),
            v_in(r.orig, ORIGIN_ROOM as int),
            v_in(r.dir, DIR_BOUND as int),
            r.time.wf(),
            tmin.wf(),
            tmin.bounded(),
            tmax.wf(),
            tmax.bounded(),
        ensures
            hit_matches(self.cands(*r), tmin.v(), tmax.v(), res),
            res.is_some() ==> res.unwrap().wf() && qlt(tmin.v(), res.unwrap().t.v()) && qlt(
                res.unwrap().t.v(),
                tmax.v(),
            ),
            res.is_some() ==> crate::hittable::rec_on_ray(res.unwrap(), *r),
            res.is_some() ==> res.unwrap().material == self.material,
            res.is_some() ==> rect_rec_shape(
                res.unwrap(),
                *r,
                1,
                0,
                2,
                self.x0 as int,
                self.x1 as int,
                self.z0 as int,
                self.z1 as int,
            ),
    {
        rect_hit(r, 1, 0, 2, self.x0, self.x1, self.z0, self.z1, self.k, &self.material, tmin, tmax)
    }

    pub fn bounding_box(&self) -> (b: crate::aabb::Aabb)
        requires
            self.wf(),
        ensures
            b.minimum == (Vec3i { x: self.x0, y: (self.k - 1) as i64, z: self.z0 }),
            b.maximum == (Vec3i { x: self.x1, y: (self.k + 1) as i64, z: self.z1 }),
            b.wf(),
    {
        crate::aabb::Aabb::new(
            Vec3i::new(self.x0, self.k - 1, self.z0),
            Vec3i::new(self.x1, self.k + 1, self.z1),
        )
    }
}

/// Rectangle in the plane `x = k`, spanning `[y0, y1] x [z0, z1]`.
#[derive(Clone, Copy, Debug)]
pub struct YZRect {
    pub y0: i64,
    pub y1: i64,
    pub z0: i64,
    pub z1: i64,
    pub k: i64,
    pub material: Surface,
}

impl YZRect {
    pub open spec fn wf(self) -> bool {
        &&& -GEOM_BOUND <= self.y0 < self.y1 <= GEOM_BOUND
        &&& -GEOM_BOUND <= self.z0 < self.z1 <= GEOM_BOUND
        &&& -GEOM_BOUND <= self.k <= GEOM_BOUND
        &&& self.material.wf()
    }

    pub fn new(y0: i64, y1: i64, z0: i64, z1: i64, k: i64, material: Surface) -> (s: YZRect)
        ensures
            s == (YZRect { y0, y1, z0, z1, k, material }),
    {
        YZRect { y0, y1, z0, z1, k, material }
    }

    pub open spec fn cands(self, r: Ray) -> Seq<Cand> {
        rect_cands(
            r,
            0,
            1,
            2,
            self.y0 as int,
            self.y1 as int,
            self.z0 as int,
            self.z1 as int,
            self.k as int,
        )
    }

    pub fn hit(&self, r: &Ray, tmin: &Rat, tmax: &Rat) -> (res: Option<HitRecord>)
        requires
            self.wf(),
            v_in(r.orig, ORIGIN_ROOM as int),
            v_in(r.dir, DIR_BOUND as int),
            r.time.wf(),
            tmin.wf(),
            tmin.bounded(),
            tmax.wf(),
            tmax.bounded(),
        ensures
            hit_matches(self.cands(*r), tmin.v(), tmax.v(), res),
            res.is_some() ==> res.unwrap().wf() && qlt(tmin.v(), res.unwrap().t.v()) && qlt(
                res.unwrap().t.v(),
                tmax.v(),
            ),
            res.is_some() ==> crate::hittable::rec_on_ray(res.unwrap(), *r),
            res.is_some() ==> res.unwrap().material == self.material,
            res.is_some() ==> rect_rec_shape(
                res.unwrap(),
                *r,
                0,
                1,
                2,
                self.y0 as int,
                self.y1 as int,
                self.z0 as int,
                self.z1 as int,
            ),
    {
        rect_hit(r, 0, 1, 2, self.y0, self.y1, self.z0, self.z1, self.k, &self.material, tmin, tmax)
    }

    pub fn bounding_box(&self) -> (b: crate::aabb::Aabb)
        requires
            self.wf(),
        ensures
            b.minimum == (Vec3i { x: (self.k - 1) as i64, y: self.y0, z: self.z0 }),
            b.maximum == (Vec3i { x: (self.k + 1) as i64, y: self.y1, z: self.z1 }),
            b.wf(),
    {
        crate::aabb::Aabb::new(
            Vec3i::new(self.k - 1, self.y0, self.z0),
            Vec3i::new(self.k + 1, self.y1, self.z1),
        )
    }
}

/// A rectangular box: exactly six axis-aligned faces sharing one material,
/// hit-tested with closest-hit-of-list semantics.
#[derive(Clone, Copy, Debug)]
pub struct BoxPrim {
    pub box_min: Vec3i,
    pub box_max: Vec3i,
    pub material: Surface,
    pub xy0: XYRect,
    pub xy1: XYRect,
    pub xz0: XZRect,
    pub xz1: XZRect,
    pub yz0: YZRect,
    pub yz1: YZRect,
}

impl BoxPrim {
    pub open spec fn wf(self) -> bool {
        &&& v_in(self.box_min, GEOM_BOUND as int)
        &&& v_in(self.box_max, GEOM_BOUND as int)
        &&& self.box_min.x < self.box_max.x
        &&& self.box_min.y < self.box_max.y
        &&& self.box_min.z < self.box_max.z
        &&& self.material.wf()
        &&& self.xy0 == (XYRect {
            x0: self.box_min.x,
            x1: self.box_max.x,
            y0: self.box_min.y,
            y1: self.box_max.y,
            k: self.box_min.z,
            material: self.material,
        })
        &&& self.xy1 == (XYRect {
            x0: self.box_min.x,
            x1: self.box_max.x,
            y0: self.box_min.y,
            y1: self.box_max.y,
            k: self.box_max.z,
            material: self.material,
        })
        &&& self.xz0 == (XZRect {
            x0: self.box_min.x,
            x1: self.box_max.x,
            z0: self.box_min.z,
            z1: self.box_max.z,
            k: self.box_min.y,
            material: self.material,
        })
        &&& self.xz1 == (XZRect {
            x0: self.box_min.x,
            x1: self.box_max.x,
            z0: self.box_min.z,
            z1: self.box_max.z,
            k: self.box_max.y,
            material: self.material,
        })
        &&& self.yz0 == (YZRect {
            y0: self.box_min.y,
            y1: self.box_max.y,
            z0: self.box_min.z,
            z1: self.box_max.z,
            k: self.box_min.x,
            material: self.material,
        })
        &&& self.yz1 == (YZRect {
            y0: self.box_min.y,
            y1: self.box_max.y,
            z0: self.box_min.z,
            z1: self.box_max.z,
            k: self.box_max.x,
            material: self.material,
        })
    }

    pub fn new(p0: Vec3i, p1: Vec3i, material: Surface) -> (s: BoxPrim)
        requires
            v_in(p0, GEOM_BOUND as int),
            v_in(p1, GEOM_BOUND as int),
            p0.x < p1.x,
            p0.y < p1.y,
            p0.z < p1.z,
            material.wf(),
        ensures
            s.wf(),
            s.box_min == p0,
            s.box_max == p1,
            s.material == material,
    {
        BoxPrim {
            box_min: p0,
            box_max: p1,
            material,
            xy0: XYRect::new(p0.x, p1.x, p0.y, p1.y, p0.z, material),
            xy1: XYRect::new(p0.x, p1.x, p0.y, p1.y, p1.z, material),
            xz0: XZRect::new(p0.x, p1.x, p0.z, p1.z, p0.y, material),
            xz1: XZRect::new(p0.x, p1.x, p0.z, p1.z, p1.y, material),
            yz0: YZRect::new(p0.y, p1.y, p0.z, p1.z, p0.x, material),
            yz1: YZRect::new(p0.y, p1.y, p0.z, p1.z, p1.x, material),
        }
    }

    /// All candidates of the six faces, in scan order.
    pub open spec fn cands(self, r: Ray) -> Seq<Cand> {
        self.xy0.cands(r) + self.xy1.cands(r) + self.xz0.cands(r) + self.xz1.cands(r)
            + self.yz0.cands(r) + self.yz1.cands(r)
    }

    pub fn hit(&self, r: &Ray, tmin: &Rat, tmax: &Rat) -> (res: Option<HitRecord>)
        requires
            self.wf(),
            v_in(r.orig, ORIGIN_ROOM as int),
            v_in(r.dir, DIR_BOUND as int),
            r.time.wf(),
            tmin.wf(),
            tmin.bounded(),
            tmax.wf(),
            tmax.bounded(),
        ensures
            hit_matches(self.cands(*r), tmin.v(), tmax.v(), res),
            res.is_some() ==> res.unwrap().wf() && qlt(tmin.v(), res.unwrap().t.v()) && qlt(
                res.unwrap().t.v(),
                tmax.v(),
            ),
            res.is_some() ==> crate::hittable::rec_on_ray(res.unwrap(), *r),
            res.is_some() ==> crate::hittable::oriented_against(res.unwrap(), *r),
            res.is_some() ==> res.unwrap().material == self.material,
    {
        proof {
            lemma_rect_cands_all_ok(*self, *r);
        }
        let mut best = self.xy0.hit(r, tmin, tmax);
        let ghost mut acc = self.xy0.cands(*r);
        let next = match &best {
            Some(b) => self.xy1.hit(r, tmin, &b.t),
            None => self.xy1.hit(r, tmin, tmax),
        };
        proof {
            crate::hittable::lemma_combine(acc, self.xy1.cands(*r), tmin.v(), tmax.v(), best, next);
            crate::hittable::lemma_cands_ok_concat(acc, self.xy1.cands(*r));
            acc = acc + self.xy1.cands(*r);
            if next.is_some() {
                match &best {
                    Some(b) => {
                        crate::rat::lemma_qlt_trans(next.unwrap().t.v(), b.t.v(), tmax.v());
                    },
                    None => {},
                }
            }
        }
        if next.is_some() {
            best = next;
        }
        let next = match &best {
            Some(b) => self.xz0.hit(r, tmin, &b.t),
            None => self.xz0.hit(r, tmin, tmax),
        };
        proof {
            crate::hittable::lemma_combine(acc, self.xz0.cands(*r), tmin.v(), tmax.v(), best, next);
            crate::hittable::lemma_cands_ok_concat(acc, self.xz0.cands(*r));
            acc = acc + self.xz0.cands(*r);
            if next.is_some() {
                match &best {
                    Some(b) => {
                        crate::rat::lemma_qlt_trans(next.unwrap().t.v(), b.t.v(), tmax.v());
                    },
                    None => {},
                }
            }
        }
        if next.is_some() {
            best = next;
        }
        let next = match &best {
            Some(b) => self.xz1.hit(r, tmin, &b.t),
            None => self.xz1.hit(r, tmin, tmax),
        };
        proof {
            crate::hittable::lemma_combine(acc, self.xz1.cands(*r), tmin.v(), tmax.v(), best, next);
            crate::hittable::lemma_cands_ok_concat(acc, self.xz1.cands(*r));
            acc = acc + self.xz1.cands(*r);
            if next.is_some() {
                match &best {
                    Some(b) => {
                        crate::rat::lemma_qlt_trans(next.unwrap().t.v(), b.t.v(), tmax.v());
                    },
                    None => {},
                }
            }
        }
        if next.is_some() {
            best = next;
        }
        let next = match &best {
            Some(b) => self.yz0.hit(r, tmin, &b.t),
            None => self.yz0.hit(r, tmin, tmax),
        };
        proof {
            crate::hittable::lemma_combine(acc, self.yz0.cands(*r), tmin.v(), tmax.v(), best, next);
            crate::hittable::lemma_cands_ok_concat(acc, self.yz0.cands(*r));
            acc = acc + self.yz0.cands(*r);
            if next.is_some() {
                match &best {
                    Some(b) => {
                        crate::rat::lemma_qlt_trans(next.unwrap().t.v(), b.t.v(), tmax.v());
                    },
                    None => {},
                }
            }
        }
        if next.is_some() {
            best = next;
        }
        let next = match &best {
            Some(b) => self.yz1.hit(r, tmin, &b.t),
            None => self.yz1.hit(r, tmin, tmax),
        };
        proof {
            crate::hittable::lemma_combine(acc, self.yz1.cands(*r), tmin.v(), tmax.v(), best, next);
            crate::hittable::lemma_cands_ok_concat(acc, self.yz1.cands(*r));
            acc = acc + self.yz1.cands(*r);
            if next.is_some() {
                match &best {
                    Some(b) => {
                        crate::rat::lemma_qlt_trans(next.unwrap().t.v(), b.t.v(), tmax.v());
                    },
                    None => {},
                }
            }
        }
        if next.is_some() {
            best = next;
        }
        proof {
            assert(acc =~= self.cands(*r));
        }
        best
    }

    /// The box's own two corners bound it exactly.
    pub fn bounding_box(&self) -> (b: crate::aabb::Aabb)
        requires
            self.wf(),
        ensures
            b.minimum == self.box_min,
            b.maximum == self.box_max,
            b.wf(),
    {
        crate::aabb::Aabb::new(self.box_min, self.box_max)
    }
}

/// A rectangle candidate lies inside any box that spans the rectangle's
/// bounds in the two in-plane axes and brackets `k` along the fixed axis.
pub proof fn lemma_rect_cand_in_box(
    r: Ray,
    ka: int,
    ua: int,
    va: int,
    u0: int,
    u1: int,
    v0: int,
    v1: int,
    k: int,
    bx: crate::aabb::Aabb,
    c: Cand,
)
    requires
        0 <= ka < 3,
        0 <= ua < 3,
        0 <= va < 3,
        ka != ua && ka != va && ua != va,
        rect_cands(r, ka, ua, va, u0, u1, v0, v1, k).contains(c),
        spec_axis(bx.minimum, ka) <= k && k <= spec_axis(bx.maximum, ka),
        spec_axis(bx.minimum, ua) <= u0 && u1 <= spec_axis(bx.maximum, ua),
        spec_axis(bx.minimum, va) <= v0 && v1 <= spec_axis(bx.maximum, va),
    ensures
        c.ok(),
        crate::aabb::point_in_box(bx, r, c.t()),
{
    let cs = rect_cands(r, ka, ua, va, u0, u1, v0, v1, k);
    let i = choose|i: int| 0 <= i < cs.len() && cs[i] == c;
    let dk = spec_axis(r.dir, ka);
    let ok = spec_axis(r.orig, ka);
    let tn = c.tn;
    let td = c.td;
    assert(dk != 0 && cs.len() == 1 && c == cs[0]);
    // The fixed-axis coordinate is exactly k * td.
    assert(crate::ray::at_num(r, c.t(), ka) == k * td) by (nonlinear_arith)
        requires
            crate::ray::at_num(r, c.t(), ka) == ok * td + tn * dk,
            dk != 0,
            (dk > 0 ==> tn == k - ok && td == dk),
            (dk <= 0 ==> tn == ok - k && td == -dk),
    ;
    assert forall|ax: int| 0 <= ax < 3 implies spec_axis(bx.minimum, ax) * c.t().d
        <= #[trigger] crate::ray::at_num(r, c.t(), ax) <= spec_axis(bx.maximum, ax) * c.t().d by {
        if ax == ka {
            assert(spec_axis(bx.minimum, ax) * td <= k * td && k * td <= spec_axis(bx.maximum, ax)
                * td) by (nonlinear_arith)
                requires
                    0 < td,
                    spec_axis(bx.minimum, ax) <= k && k <= spec_axis(bx.maximum, ax),
            ;
        } else if ax == ua {
            assert(u0 * td <= cand_axis(c, ua) <= u1 * td);
            assert(cand_axis(c, ua) == crate::ray::at_num(r, c.t(), ua));
            assert(spec_axis(bx.minimum, ax) * td <= u0 * td && u1 * td <= spec_axis(
                bx.maximum,
                ax,
            ) * td) by (nonlinear_arith)
                requires
                    0 < td,
                    spec_axis(bx.minimum, ax) <= u0 && u1 <= spec_axis(bx.maximum, ax),
            ;
        } else {
            assert(ax == va);
            assert(v0 * td <= cand_axis(c, va) <= v1 * td);
            assert(cand_axis(c, va) == crate::ray::at_num(r, c.t(), va));
            assert(spec_axis(bx.minimum, ax) * td <= v0 * td && v1 * td <= spec_axis(
                bx.maximum,
                ax,
            ) * td) by (nonlinear_arith)
                requires
                    0 < td,
                    spec_axis(bx.minimum, ax) <= v0 && v1 <= spec_axis(bx.maximum, ax),
            ;
        }
    }
}

/// All face candidate sequences have positive denominators.
pub proof fn lemma_rect_cands_all_ok(b: BoxPrim, r: Ray)
    ensures
        cands_ok(b.xy0.cands(r)),
        cands_ok(b.xy1.cands(r)),
        cands_ok(b.xz0.cands(r)),
        cands_ok(b.xz1.cands(r)),
        cands_ok(b.yz0.cands(r)),
        cands_ok(b.yz1.cands(r)),
{
}

} // verus!
