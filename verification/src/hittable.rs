use vstd::prelude::*;

use crate::material::Surface;
use crate::rat::Rat;
use crate::rat::Sc;
use crate::rat::lemma_q_total;
use crate::rat::lemma_qeq_subst;
use crate::rat::lemma_qle_trans;
use crate::rat::lemma_qeq_trans;
use crate::rat::lemma_qle_qlt_trans;
use crate::rat::lemma_qlt_qle_trans;
use crate::rat::lemma_qlt_trans;
use crate::rat::qeq;
use crate::rat::qle;
use crate::rat::qlt;
use crate::rat::sc_ok;
use crate::ray::Ray;
use crate::ray::at_num;

use crate::aabb::Aabb;
use crate::aabb::absorbs;
use crate::aabb::box_graze;
use crate::aabb::hit_ok;
use crate::aabb::lemma_point_in_absorbing;
use crate::aabb::lemma_point_in_box_hit;
use crate::aabb::point_in_box;
use crate::bvh::BVHNode;
use crate::instances::Translate;
use crate::ray::BOX_BOUND;
use crate::ray::DIR_BOUND;
use crate::ray::GEOM_BOUND;
use crate::ray::ORIGIN_ROOM;
use crate::rect::BoxPrim;
use crate::rect::XYRect;
use crate::rect::XZRect;
use crate::rect::YZRect;
use crate::rect::lemma_rect_cand_in_box;
use crate::rect::lemma_rect_cands_ok;
use crate::sphere::Sphere;
use crate::sphere::lemma_sphere_cand_in_box;
use crate::sphere::lemma_sphere_cands_ok;
use crate::sphere::sphere_bbox;
use crate::sphere::sphere_cands;
use crate::vec3::Vec3i;
use crate::vec3::spec_axis;
use crate::vec3::v_in;

verus! {

/// A point with exact rational coordinates sharing one denominator, used
/// for hit points and surface normals.
#[derive(Clone, Copy, Debug)]
pub struct RatVec {
    pub nx: i128,
    pub ny: i128,
    pub nz: i128,
    pub den: i128,
}

/// Bound on `RatVec` numerators, `2^95`; keeps sign computations in `i128`.
pub const RV_NUM_BOUND: i128 = 39614081257132168796771975168;

/// Bound on `RatVec` denominators, `2^70`.
pub const RV_DEN_BOUND: i128 = 1180591620717411303424;

impl RatVec {
    pub open spec fn wf(self) -> bool {
        &&& 0 < self.den <= RV_DEN_BOUND
        &&& -RV_NUM_BOUND <= self.nx <= RV_NUM_BOUND
        &&& -RV_NUM_BOUND <= self.ny <= RV_NUM_BOUND
        &&& -RV_NUM_BOUND <= self.nz <= RV_NUM_BOUND
    }

    /// Numerator of the component along axis `a`.
    pub fn axis_num(&self, a: usize) -> (r: i128)
        requires
            a < 3,
        ensures
            a == 0 ==> r == self.nx,
            a == 1 ==> r == self.ny,
            a == 2 ==> r == self.nz,
    {
        if a == 0 {
            self.nx
        } else if a == 1 {
            self.ny
        } else {
            self.nz
        }
    }

    pub fn neg(&self) -> (r: RatVec)
        requires
            self.wf(),
        ensures
            r.nx == -self.nx && r.ny == -self.ny && r.nz == -self.nz && r.den == self.den,
            r.wf(),
    {
        RatVec { nx: -self.nx, ny: -self.ny, nz: -self.nz, den: self.den }
    }
}

/// What a hit reports: the hit point, the normal oriented against the
/// incoming ray, the exact ray parameter, surface coordinates, which face
/// was struck, and the surface material at that point.
#[derive(Clone, Copy, Debug)]
pub struct HitRecord {
    pub p: RatVec,
    pub normal: RatVec,
    pub t: Rat,
    pub u: Rat,
    pub v: Rat,
    pub front_face: bool,
    pub material: Surface,
}

impl HitRecord {
    pub open spec fn wf(self) -> bool {
        &&& self.t.wf() && self.t.bounded()
        &&& self.p.wf()
        &&& self.normal.wf()
        &&& self.u.wf() && self.u.den <= crate::rat::DEN_BOUND * crate::rat::DEN_BOUND
        &&& self.v.wf() && self.v.den <= crate::rat::DEN_BOUND * crate::rat::DEN_BOUND
        &&& self.material.wf()
    }

    /// True when the ray strikes from the side the (unflipped) outward
    /// normal points to: `dir . n < 0`, computed exactly (the shared
    /// denominator of `n` is positive, so only the numerators matter).
    pub fn face_normal(r: &Ray, outward: &RatVec) -> (res: bool)
        requires
            r.wf() || crate::vec3::v_in(r.dir, crate::ray::DIR_BOUND as int),
            outward.wf(),
        ensures
            res == ((r.dir.x as int) * outward.nx + (r.dir.y as int) * outward.ny + (
            r.dir.z as int) * outward.nz < 0),
    {
        proof {
            crate::vec3::lemma_prod_bound2(
                r.dir.x as int,
                outward.nx as int,
                0x10_0000,
                RV_NUM_BOUND as int,
            );
            crate::vec3::lemma_prod_bound2(
                r.dir.y as int,
                outward.ny as int,
                0x10_0000,
                RV_NUM_BOUND as int,
            );
            crate::vec3::lemma_prod_bound2(
                r.dir.z as int,
                outward.nz as int,
                0x10_0000,
                RV_NUM_BOUND as int,
            );
        }
        (r.dir.x as i128) * outward.nx + (r.dir.y as i128) * outward.ny + (r.dir.z as i128)
            * outward.nz < 0
    }
}

/// The exact position of a ray at parameter `t`: numerators over the
/// denominator of `t`.
pub fn ray_point(r: &Ray, t: &Rat) -> (p: RatVec)
    requires
        crate::vec3::v_in(r.orig, crate::ray::ORIGIN_ROOM as int),
        crate::vec3::v_in(r.dir, crate::ray::DIR_BOUND as int),
        t.wf(),
        t.bounded(),
    ensures
        p.nx == (r.orig.x as int) * t.den + (t.num as int) * r.dir.x,
        p.ny == (r.orig.y as int) * t.den + (t.num as int) * r.dir.y,
        p.nz == (r.orig.z as int) * t.den + (t.num as int) * r.dir.z,
        p.den == t.den,
        p.wf(),
        p.nx == at_num(*r, t.v(), 0),
        p.ny == at_num(*r, t.v(), 1),
        p.nz == at_num(*r, t.v(), 2),
{
    proof {
        crate::vec3::lemma_prod_bound2(
            r.orig.x as int,
            t.den as int,
            549755813888,
            crate::rat::DEN_BOUND as int,
        );
        crate::vec3::lemma_prod_bound2(
            r.orig.y as int,
            t.den as int,
            549755813888,
            crate::rat::DEN_BOUND as int,
        );
        crate::vec3::lemma_prod_bound2(
            r.orig.z as int,
            t.den as int,
            549755813888,
            crate::rat::DEN_BOUND as int,
        );
        crate::vec3::lemma_prod_bound2(
            t.num as int,
            r.dir.x as int,
            crate::rat::NUM_BOUND as int,
            0x10_0000,
        );
        crate::vec3::lemma_prod_bound2(
            t.num as int,
            r.dir.y as int,
            crate::rat::NUM_BOUND as int,
            0x10_0000,
        );
        crate::vec3::lemma_prod_bound2(
            t.num as int,
            r.dir.z as int,
            crate::rat::NUM_BOUND as int,
            0x10_0000,
        );
    }
    RatVec {
        nx: (r.orig.x as i128) * t.den + t.num * (r.dir.x as i128),
        ny: (r.orig.y as i128) * t.den + t.num * (r.dir.y as i128),
        nz: (r.orig.z as i128) * t.den + t.num * (r.dir.z as i128),
        den: t.den,
    }
}

/// Ghost candidate intersection: an exact ray parameter `tn / td` together
/// with the ray position there (numerators over the same `td`).  Every
/// primitive's possible hits form a candidate sequence, and `hit` returns
/// the candidate of least `t` inside the open search interval.
pub struct Cand {
    pub tn: int,
    pub td: int,
    pub px: int,
    pub py: int,
    pub pz: int,
}

impl Cand {
    pub open spec fn t(self) -> Sc {
        Sc { n: self.tn, d: self.td }
    }

    pub open spec fn ok(self) -> bool {
        0 < self.td
    }
}

/// The candidate of ray `r` at parameter `tn / td`.
pub open spec fn mk_cand(r: Ray, tn: int, td: int) -> Cand {
    Cand {
        tn,
        td,
        px: at_num(r, Sc { n: tn, d: td }, 0),
        py: at_num(r, Sc { n: tn, d: td }, 1),
        pz: at_num(r, Sc { n: tn, d: td }, 2),
    }
}

pub open spec fn cands_ok(s: Seq<Cand>) -> bool {
    forall|i: int| 0 <= i < s.len() ==> (#[trigger] s[i]).ok()
}

/// Strictly inside the open search interval `(tmin, tmax)`.
pub open spec fn in_ivl(c: Cand, tmin: Sc, tmax: Sc) -> bool {
    qlt(tmin, c.t()) && qlt(c.t(), tmax)
}

pub open spec fn no_cand_in(s: Seq<Cand>, tmin: Sc, tmax: Sc) -> bool {
    forall|c: Cand| #[trigger] s.contains(c) ==> !in_ivl(c, tmin, tmax)
}

/// `c` is a closest candidate of `s` within the open interval.
pub open spec fn best_at(s: Seq<Cand>, tmin: Sc, tmax: Sc, c: Cand) -> bool {
    &&& s.contains(c)
    &&& in_ivl(c, tmin, tmax)
    &&& forall|c2: Cand|
        #[trigger] s.contains(c2) && in_ivl(c2, tmin, tmax) ==> qle(c.t(), c2.t())
}

/// The contract every deterministic `hit` satisfies: it returns nothing
/// exactly when no candidate lies in the interval, and otherwise a record
/// whose `t` is a closest in-interval candidate's parameter.
pub open spec fn hit_matches(
    s: Seq<Cand>,
    tmin: Sc,
    tmax: Sc,
    res: Option<HitRecord>,
) -> bool {
    match res {
        Option::None => no_cand_in(s, tmin, tmax),
        Option::Some(rec) => exists|c: Cand|
            #[trigger] best_at(s, tmin, tmax, c) && qeq(rec.t.v(), c.t()),
    }
}

pub proof fn lemma_concat_contains(s1: Seq<Cand>, s2: Seq<Cand>, c: Cand)
    ensures
        (s1 + s2).contains(c) <==> (s1.contains(c) || s2.contains(c)),
{
    if s1.contains(c) {
        let i = choose|i: int| 0 <= i < s1.len() && s1[i] == c;
        assert((s1 + s2)[i] == c);
    }
    if s2.contains(c) {
        let i = choose|i: int| 0 <= i < s2.len() && s2[i] == c;
        assert((s1 + s2)[s1.len() + i] == c);
    }
    if (s1 + s2).contains(c) {
        let i = choose|i: int| 0 <= i < (s1 + s2).len() && (s1 + s2)[i] == c;
        if i < s1.len() {
            assert(s1[i] == c);
        } else {
            assert(s2[i - s1.len()] == c);
        }
    }
}

pub proof fn lemma_cands_ok_concat(s1: Seq<Cand>, s2: Seq<Cand>)
    requires
        cands_ok(s1),
        cands_ok(s2),
    ensures
        cands_ok(s1 + s2),
{
    assert forall|i: int| 0 <= i < (s1 + s2).len() implies ((s1 + s2)[i]).ok() by {
        if i < s1.len() {
            assert((s1 + s2)[i] == s1[i]);
        } else {
            assert((s1 + s2)[i] == s2[i - s1.len()]);
        }
    }
}

pub proof fn lemma_contains_ok(s: Seq<Cand>, c: Cand)
    requires
        cands_ok(s),
        s.contains(c),
    ensures
        c.ok(),
        sc_ok(c.t()),
{
    let i = choose|i: int| 0 <= i < s.len() && s[i] == c;
    assert(s[i].ok());
}

/// The closest-hit combiner.  `first` answers for candidates `s1` over the
/// full interval; `second` answers for `s2` over the interval shrunk to the
/// first hit, if any.  Preferring `second` then yields the closest hit over
/// `s1 + s2` — the shared argument behind both the linear scan and the
/// bounding-volume traversal.
pub proof fn lemma_combine(
    s1: Seq<Cand>,
    s2: Seq<Cand>,
    tmin: Sc,
    tmax: Sc,
    first: Option<HitRecord>,
    second: Option<HitRecord>,
)
    requires
        sc_ok(tmin),
        sc_ok(tmax),
        cands_ok(s1),
        cands_ok(s2),
        hit_matches(s1, tmin, tmax, first),
        match first {
            Option::Some(rec) => rec.t.wf() && hit_matches(s2, tmin, rec.t.v(), second),
            Option::None => hit_matches(s2, tmin, tmax, second),
        },
    ensures
        hit_matches(
            s1 + s2,
            tmin,
            tmax,
            match second {
                Option::Some(r2) => Option::Some(r2),
                Option::None => first,
            },
        ),
{
    match first {
        Option::None => {
            match second {
                Option::None => {
                    assert forall|c: Cand| #[trigger] (s1 + s2).contains(c) implies !in_ivl(
                        c,
                        tmin,
                        tmax,
                    ) by {
                        lemma_concat_contains(s1, s2, c);
                    }
                },
                Option::Some(r2) => {
                    let c2 = choose|c: Cand|
                        #[trigger] best_at(s2, tmin, tmax, c) && qeq(r2.t.v(), c.t());
                    assert(best_at(s2, tmin, tmax, c2));
                    lemma_concat_contains(s1, s2, c2);
                    assert forall|cc: Cand|
                        #[trigger] (s1 + s2).contains(cc) && in_ivl(cc, tmin, tmax) implies qle(
                        c2.t(),
                        cc.t(),
                    ) by {
                        lemma_concat_contains(s1, s2, cc);
                        if s1.contains(cc) {
                            // s1 has nothing in the interval: contradiction.
                            assert(!in_ivl(cc, tmin, tmax));
                        }
                    }
                    assert(best_at(s1 + s2, tmin, tmax, c2) && qeq(r2.t.v(), c2.t()));
                },
            }
        },
        Option::Some(r1) => {
            let c1 = choose|c: Cand|
                #[trigger] best_at(s1, tmin, tmax, c) && qeq(r1.t.v(), c.t());
            assert(best_at(s1, tmin, tmax, c1));
            lemma_contains_ok(s1, c1);
            let tl = r1.t.v();
            // tl and c1.t() denote the same rational.
            match second {
                Option::None => {
                    // No s2 candidate beats tl; c1 stays best overall.
                    lemma_concat_contains(s1, s2, c1);
                    assert forall|cc: Cand|
                        #[trigger] (s1 + s2).contains(cc) && in_ivl(cc, tmin, tmax) implies qle(
                        c1.t(),
                        cc.t(),
                    ) by {
                        lemma_concat_contains(s1, s2, cc);
                        if s1.contains(cc) {
                        } else {
                            lemma_contains_ok(s2, cc);
                            // cc not in (tmin, tl), but tmin < cc, so tl <= cc.
                            assert(!in_ivl(cc, tmin, tl));
                            lemma_q_total(cc.t(), tl);
                            if qlt(cc.t(), tl) {
                                assert(false);
                            }
                            // tl <= cc.t(), and c1.t() == tl as values.
                            lemma_qeq_subst(tl, c1.t(), cc.t());
                        }
                    }
                    assert(best_at(s1 + s2, tmin, tmax, c1) && qeq(r1.t.v(), c1.t()));
                },
                Option::Some(r2) => {
                    let c2 = choose|c: Cand|
                        #[trigger] best_at(s2, tmin, tl, c) && qeq(r2.t.v(), c.t());
                    assert(best_at(s2, tmin, tl, c2));
                    lemma_contains_ok(s2, c2);
                    lemma_concat_contains(s1, s2, c2);
                    // c2 < tl == c1 <= anything in s1's interval; and tl < tmax.
                    assert(qlt(c2.t(), tl));
                    assert(qlt(tl, tmax)) by {
                        lemma_qeq_subst(tl, c1.t(), tmax);
                    }
                    assert(in_ivl(c2, tmin, tmax)) by {
                        lemma_qlt_trans(c2.t(), tl, tmax);
                    }
                    assert forall|cc: Cand|
                        #[trigger] (s1 + s2).contains(cc) && in_ivl(cc, tmin, tmax) implies qle(
                        c2.t(),
                        cc.t(),
                    ) by {
                        lemma_concat_contains(s1, s2, cc);
                        lemma_q_total(c2.t(), cc.t());
                        if qlt(cc.t(), c2.t()) {
                            if s1.contains(cc) {
                                lemma_contains_ok(s1, cc);
                                // cc < c2 < tl == c1: contradicts c1 minimal in s1.
                                assert(qle(c1.t(), cc.t()));
                                assert(qlt(cc.t(), tl)) by {
                                    lemma_qlt_trans(cc.t(), c2.t(), tl);
                                }
                                lemma_qeq_subst(tl, c1.t(), cc.t());
                                lemma_qle_qlt_trans(c1.t(), cc.t(), c1.t());
                                assert(false);
                            } else {
                                lemma_contains_ok(s2, cc);
                                // cc < c2 < tl puts cc in (tmin, tl): contradicts c2 minimal.
                                assert(qlt(cc.t(), tl)) by {
                                    lemma_qlt_trans(cc.t(), c2.t(), tl);
                                }
                                assert(in_ivl(cc, tmin, tl));
                                assert(qle(c2.t(), cc.t()));
                                lemma_qle_qlt_trans(c2.t(), cc.t(), c2.t());
                                assert(false);
                            }
                        }
                    }
                    assert(best_at(s1 + s2, tmin, tmax, c2) && qeq(r2.t.v(), c2.t()));
                },
            }
        },
    }
}

/// The reported normal is oriented against the incident ray (spec: the
/// surface normal always faces the side the ray came from).
pub open spec fn oriented_against(rec: HitRecord, r: Ray) -> bool {
    (r.dir.x as int) * rec.normal.nx + (r.dir.y as int) * rec.normal.ny + (r.dir.z as int)
        * rec.normal.nz <= 0
}

/// The record's hit point is exactly the ray position at its parameter.
pub open spec fn rec_on_ray(rec: HitRecord, r: Ray) -> bool {
    &&& rec.p.den == rec.t.den
    &&& rec.p.nx == r.orig.x * rec.t.den + rec.t.num * r.dir.x
    &&& rec.p.ny == r.orig.y * rec.t.den + rec.t.num * r.dir.y
    &&& rec.p.nz == r.orig.z * rec.t.den + rec.t.num * r.dir.z
}

/// Two answers that both satisfy the closest-hit contract over candidate
/// sets with the same members agree: same some-ness, and exactly equal `t`.
pub proof fn lemma_best_agrees(
    sa: Seq<Cand>,
    sb: Seq<Cand>,
    tmin: Sc,
    tmax: Sc,
    ra: Option<HitRecord>,
    rb: Option<HitRecord>,
)
    requires
        sc_ok(tmin),
        sc_ok(tmax),
        cands_ok(sa),
        cands_ok(sb),
        hit_matches(sa, tmin, tmax, ra),
        hit_matches(sb, tmin, tmax, rb),
        ra.is_some() ==> ra.unwrap().t.wf(),
        rb.is_some() ==> rb.unwrap().t.wf(),
        forall|c: Cand| #[trigger] sa.contains(c) <==> sb.contains(c),
    ensures
        ra.is_some() <==> rb.is_some(),
        ra.is_some() && rb.is_some() ==> qeq(ra.unwrap().t.v(), rb.unwrap().t.v()),
{
    match ra {
        Option::None => {
            match rb {
                Option::None => {},
                Option::Some(r2) => {
                    let c2 = choose|c: Cand|
                        #[trigger] best_at(sb, tmin, tmax, c) && qeq(r2.t.v(), c.t());
                    assert(sb.contains(c2));
                    assert(sa.contains(c2));
                    assert(!in_ivl(c2, tmin, tmax));
                    assert(false);
                },
            }
        },
        Option::Some(r1) => {
            let c1 = choose|c: Cand|
                #[trigger] best_at(sa, tmin, tmax, c) && qeq(r1.t.v(), c.t());
            assert(best_at(sa, tmin, tmax, c1));
            assert(sb.contains(c1));
            match rb {
                Option::None => {
                    assert(!in_ivl(c1, tmin, tmax));
                    assert(false);
                },
                Option::Some(r2) => {
                    let c2 = choose|c: Cand|
                        #[trigger] best_at(sb, tmin, tmax, c) && qeq(r2.t.v(), c.t());
                    assert(best_at(sb, tmin, tmax, c2));
                    assert(sa.contains(c2));
                    lemma_contains_ok(sa, c1);
                    lemma_contains_ok(sa, c2);
                    assert(qle(c1.t(), c2.t()));
                    assert(qle(c2.t(), c1.t()));
                    // Equal as values; transfer through both records.
                    lemma_q_total(c1.t(), c2.t());
                    assert(qeq(c1.t(), c2.t()));
                    lemma_qeq_trans(r1.t.v(), c1.t(), c2.t());
                    lemma_qeq_trans(r1.t.v(), c2.t(), r2.t.v());
                },
            }
        },
    }
}



/// The longest admissible chain of nested translations.
pub const MAX_WRAP: u64 = 256;

/// Bound on the corners of an untranslated primitive's box.
pub const BOX_CORE: i64 = 4194304;

/// The closed set of primitives, dispatched by pattern match.
#[derive(Debug)]
pub enum HitModel {
    Sphere(Sphere),
    MovingSphere(crate::sphere::MovingSphere),
    Volume(crate::volumes::Constant),
    XYRect(XYRect),
    XZRect(XZRect),
    YZRect(YZRect),
    Box(BoxPrim),
    Translate(Translate),
    BVH(BVHNode),
}

/// The ray re-based into the frame of a translated child.
pub open spec fn moved_ray(r: Ray, off: Vec3i) -> Ray {
    Ray {
        orig: Vec3i {
            x: (r.orig.x - off.x) as i64,
            y: (r.orig.y - off.y) as i64,
            z: (r.orig.z - off.z) as i64,
        },
        dir: r.dir,
        time: r.time,
    }
}

/// A candidate of the child, carried back into world coordinates.
pub open spec fn shift_cand(c: Cand, off: Vec3i) -> Cand {
    Cand {
        tn: c.tn,
        td: c.td,
        px: c.px + off.x * c.td,
        py: c.py + off.y * c.td,
        pz: c.pz + off.z * c.td,
    }
}

pub open spec fn shift_cands(s: Seq<Cand>, off: Vec3i) -> Seq<Cand> {
    s.map(|i: int, c: Cand| shift_cand(c, off))
}

impl HitModel {
    /// Nesting depth of translations, which bounds how far a ray origin
    /// can drift while it is re-based down the tree.
    pub open spec fn tdepth(self) -> nat
        decreases self,
    {
        match self {
            HitModel::Volume(c) => c.boundary.tdepth(),
            HitModel::Translate(t) => t.hit_model.tdepth() + 1,
            HitModel::BVH(n) => {
                let l = n.left.tdepth();
                let rr = n.right.tdepth();
                if l >= rr {
                    l
                } else {
                    rr
                }
            },
            _ => 0,
        }
    }

    pub open spec fn wf(self) -> bool
        decreases self,
    {
        match self {
            HitModel::Sphere(s) => s.wf(),
            HitModel::MovingSphere(s) => s.wf(),
            HitModel::Volume(c) => c.wf(),
            HitModel::XYRect(s) => s.wf(),
            HitModel::XZRect(s) => s.wf(),
            HitModel::YZRect(s) => s.wf(),
            HitModel::Box(b) => b.wf(),
            HitModel::Translate(t) => t.hit_model.wf() && v_in(t.offset, GEOM_BOUND as int)
                && t.hit_model.tdepth() + 1 <= MAX_WRAP,
            HitModel::BVH(n) => n.left.wf() && n.right.wf() && n.bbox.wf() && v_in(
                n.bbox.minimum,
                BOX_CORE as int + GEOM_BOUND as int * self.tdepth(),
            ) && v_in(n.bbox.maximum, BOX_CORE as int + GEOM_BOUND as int * self.tdepth())
                && absorbs(n.bbox, n.left.s_bbox()) && absorbs(n.bbox, n.right.s_bbox()),
        }
    }

    /// The box each primitive reports: tight for spheres and boxes, padded
    /// along the degenerate axis for rectangles, shifted for translations,
    /// and the cached union for interior nodes.
    pub open spec fn s_bbox(self) -> Aabb
        decreases self,
    {
        match self {
            HitModel::Sphere(s) => sphere_bbox(s),
            HitModel::MovingSphere(s) => crate::sphere::moving_sphere_bbox(s),
            HitModel::Volume(c) => c.boundary.s_bbox(),
            HitModel::XYRect(s) => Aabb {
                minimum: Vec3i { x: s.x0, y: s.y0, z: (s.k - 1) as i64 },
                maximum: Vec3i { x: s.x1, y: s.y1, z: (s.k + 1) as i64 },
            },
            HitModel::XZRect(s) => Aabb {
                minimum: Vec3i { x: s.x0, y: (s.k - 1) as i64, z: s.z0 },
                maximum: Vec3i { x: s.x1, y: (s.k + 1) as i64, z: s.z1 },
            },
            HitModel::YZRect(s) => Aabb {
                minimum: Vec3i { x: (s.k - 1) as i64, y: s.y0, z: s.z0 },
                maximum: Vec3i { x: (s.k + 1) as i64, y: s.y1, z: s.z1 },
            },
            HitModel::Box(b) => Aabb { minimum: b.box_min, maximum: b.box_max },
            HitModel::Translate(t) => {
                let inner = t.hit_model.s_bbox();
                Aabb {
                    minimum: Vec3i {
                        x: (inner.minimum.x + t.offset.x) as i64,
                        y: (inner.minimum.y + t.offset.y) as i64,
                        z: (inner.minimum.z + t.offset.z) as i64,
                    },
                    maximum: Vec3i {
                        x: (inner.maximum.x + t.offset.x) as i64,
                        y: (inner.maximum.y + t.offset.y) as i64,
                        z: (inner.maximum.z + t.offset.z) as i64,
                    },
                }
            },
            HitModel::BVH(n) => n.bbox,
        }
    }

    /// All possible intersections of the ray with this primitive.
    pub open spec fn cands(self, r: Ray) -> Seq<Cand>
        decreases self,
    {
        match self {
            HitModel::Sphere(s) => sphere_cands(s, r),
            HitModel::MovingSphere(s) => crate::sphere::moving_cands(s, r),
            // The medium scatters by a random free flight: it has no
            // deterministic candidates.
            HitModel::Volume(_) => Seq::empty(),
            HitModel::XYRect(s) => s.cands(r),
            HitModel::XZRect(s) => s.cands(r),
            HitModel::YZRect(s) => s.cands(r),
            HitModel::Box(b) => b.cands(r),
            HitModel::Translate(t) => shift_cands(
                t.hit_model.cands(moved_ray(r, t.offset)),
                t.offset,
            ),
            HitModel::BVH(n) => n.left.cands(r) + n.right.cands(r),
        }
    }

    /// The materials a tree's records can carry.  Wrappers (Translate, BVH
    /// interior nodes) introduce none of their own: a record's material is
    /// always that of the leaf primitive it came from, passed through
    /// unchanged.
    pub open spec fn mats(self) -> Set<crate::material::Surface>
        decreases self,
    {
        match self {
            HitModel::Sphere(s) => Set::empty().insert(s.material),
            HitModel::MovingSphere(s) => Set::empty().insert(s.material),
            HitModel::Volume(c) => Set::empty().insert(c.phase_function),
            HitModel::XYRect(s) => Set::empty().insert(s.material),
            HitModel::XZRect(s) => Set::empty().insert(s.material),
            HitModel::YZRect(s) => Set::empty().insert(s.material),
            HitModel::Box(b) => Set::empty().insert(b.material),
            HitModel::Translate(t) => t.hit_model.mats(),
            HitModel::BVH(n) => n.left.mats().union(n.right.mats()),
        }
    }

    /// The ray grazes no interior node's box exactly on its boundary, and
    /// the tree holds no participating medium (whose answer is randomized
    /// and so supports no deterministic candidate claim); on this condition
    /// box pruning provably discards nothing.
    pub open spec fn graze_free(self, r: Ray) -> bool
        decreases self,
    {
        match self {
            // A medium's answer is randomized, so no candidate claim is
            // made for trees containing one.
            HitModel::Volume(_) => false,
            HitModel::Translate(t) => t.hit_model.graze_free(moved_ray(r, t.offset)),
            HitModel::BVH(n) => !box_graze(n.bbox, r) && n.left.graze_free(r)
                && n.right.graze_free(r),
            _ => true,
        }
    }
}

impl HitModel {
    /// A deep copy.  (The recursive enum cannot derive `Clone`; spelling
    /// the copy out also gives it a contract.)
    pub fn dup(&self) -> (r: HitModel)
        ensures
            r == *self,
        decreases *self,
    {
        match self {
            HitModel::Sphere(s) => HitModel::Sphere(*s),
            HitModel::MovingSphere(s) => HitModel::MovingSphere(*s),
            HitModel::Volume(c) => HitModel::Volume(
                crate::volumes::Constant {
                    boundary: Box::new(c.boundary.dup()),
                    density: c.density,
                    phase_function: c.phase_function,
                },
            ),
            HitModel::XYRect(s) => HitModel::XYRect(*s),
            HitModel::XZRect(s) => HitModel::XZRect(*s),
            HitModel::YZRect(s) => HitModel::YZRect(*s),
            HitModel::Box(b) => HitModel::Box(*b),
            HitModel::Translate(t) => HitModel::Translate(
                Translate { hit_model: Box::new(t.hit_model.dup()), offset: t.offset },
            ),
            HitModel::BVH(n) => HitModel::BVH(
                BVHNode {
                    left: Box::new(n.left.dup()),
                    right: Box::new(n.right.dup()),
                    bbox: n.bbox,
                },
            ),
        }
    }
}

/// Bounding-box corners stay within `BOX_CORE` plus the translation drift,
/// which never exceeds `BOX_BOUND`.
pub proof fn lemma_sbbox_in(m: HitModel)
    requires
        m.wf(),
    ensures
        v_in(m.s_bbox().minimum, BOX_CORE as int + GEOM_BOUND as int * m.tdepth()),
        v_in(m.s_bbox().maximum, BOX_CORE as int + GEOM_BOUND as int * m.tdepth()),
        m.s_bbox().wf(),
    decreases m,
{
    lemma_wf_tdepth(m);
    assert(GEOM_BOUND as int * m.tdepth() <= GEOM_BOUND as int * MAX_WRAP) by (nonlinear_arith)
        requires
            m.tdepth() <= MAX_WRAP,
    ;
    match m {
        HitModel::Translate(t) => {
            lemma_sbbox_in(*t.hit_model);
            assert(GEOM_BOUND as int * t.hit_model.tdepth() + GEOM_BOUND as int == GEOM_BOUND as int
                * (t.hit_model.tdepth() + 1)) by (nonlinear_arith);
        },
        HitModel::Volume(c) => {
            assert(c.wf());
            lemma_sbbox_in(*c.boundary);
        },
        _ => {},
    }
}

/// Every candidate's parameter has a positive denominator, and the ray
/// position at that parameter lies inside the primitive's box: the fact
/// that justifies pruning whole subtrees by a box test.
pub proof fn lemma_cands_in_bbox(m: HitModel, r: Ray, c: Cand)
    requires
        m.wf(),
        v_in(r.orig, ORIGIN_ROOM as int - GEOM_BOUND as int * m.tdepth()),
        v_in(r.dir, DIR_BOUND as int),
        m.cands(r).contains(c),
    ensures
        c.ok(),
        point_in_box(m.s_bbox(), r, c.t()),
    decreases m,
{
    match m {
        HitModel::Sphere(s) => {
            lemma_sphere_cand_in_box(s, r, c);
        },
        HitModel::MovingSphere(s) => {
            crate::sphere::lemma_moving_cand_in_box(s, r, c);
        },
        HitModel::Volume(_) => {
            // No candidates: the premise is vacuous.
        },
        HitModel::XYRect(s) => {
            lemma_rect_cand_in_box(
                r,
                2,
                0,
                1,
                s.x0 as int,
                s.x1 as int,
                s.y0 as int,
                s.y1 as int,
                s.k as int,
                m.s_bbox(),
                c,
            );
        },
        HitModel::XZRect(s) => {
            lemma_rect_cand_in_box(
                r,
                1,
                0,
                2,
                s.x0 as int,
                s.x1 as int,
                s.z0 as int,
                s.z1 as int,
                s.k as int,
                m.s_bbox(),
                c,
            );
        },
        HitModel::YZRect(s) => {
            lemma_rect_cand_in_box(
                r,
                0,
                1,
                2,
                s.y0 as int,
                s.y1 as int,
                s.z0 as int,
                s.z1 as int,
                s.k as int,
                m.s_bbox(),
                c,
            );
        },
        HitModel::Box(b) => {
            let s12 = b.xy0.cands(r) + b.xy1.cands(r);
            let s123 = s12 + b.xz0.cands(r);
            let s1234 = s123 + b.xz1.cands(r);
            let s12345 = s1234 + b.yz0.cands(r);
            assert(b.cands(r) == s12345 + b.yz1.cands(r));
            lemma_concat_contains(s12345, b.yz1.cands(r), c);
            lemma_concat_contains(s1234, b.yz0.cands(r), c);
            lemma_concat_contains(s123, b.xz1.cands(r), c);
            lemma_concat_contains(s12, b.xz0.cands(r), c);
            lemma_concat_contains(b.xy0.cands(r), b.xy1.cands(r), c);
            if b.xy0.cands(r).contains(c) {
                lemma_rect_cand_in_box(
                    r, 2, 0, 1,
                    b.box_min.x as int, b.box_max.x as int,
                    b.box_min.y as int, b.box_max.y as int,
                    b.box_min.z as int,
                    m.s_bbox(), c,
                );
            } else if b.xy1.cands(r).contains(c) {
                lemma_rect_cand_in_box(
                    r, 2, 0, 1,
                    b.box_min.x as int, b.box_max.x as int,
                    b.box_min.y as int, b.box_max.y as int,
                    b.box_max.z as int,
                    m.s_bbox(), c,
                );
            } else if b.xz0.cands(r).contains(c) {
                lemma_rect_cand_in_box(
                    r, 1, 0, 2,
                    b.box_min.x as int, b.box_max.x as int,
                    b.box_min.z as int, b.box_max.z as int,
                    b.box_min.y as int,
                    m.s_bbox(), c,
                );
            } else if b.xz1.cands(r).contains(c) {
                lemma_rect_cand_in_box(
                    r, 1, 0, 2,
                    b.box_min.x as int, b.box_max.x as int,
                    b.box_min.z as int, b.box_max.z as int,
                    b.box_max.y as int,
                    m.s_bbox(), c,
                );
            } else if b.yz0.cands(r).contains(c) {
                lemma_rect_cand_in_box(
                    r, 0, 1, 2,
                    b.box_min.y as int, b.box_max.y as int,
                    b.box_min.z as int, b.box_max.z as int,
                    b.box_min.x as int,
                    m.s_bbox(), c,
                );
            } else {
                lemma_rect_cand_in_box(
                    r, 0, 1, 2,
                    b.box_min.y as int, b.box_max.y as int,
                    b.box_min.z as int, b.box_max.z as int,
                    b.box_max.x as int,
                    m.s_bbox(), c,
                );
            }
        },
        HitModel::Translate(t) => {
            let mr = moved_ray(r, t.offset);
            let inner_cands = t.hit_model.cands(mr);
            let i = choose|i: int|
                0 <= i < shift_cands(inner_cands, t.offset).len() && shift_cands(
                    inner_cands,
                    t.offset,
                )[i] == c;
            let c0 = inner_cands[i];
            assert(inner_cands.contains(c0));
            assert(c == shift_cand(c0, t.offset));
            lemma_cands_in_bbox(*t.hit_model, mr, c0);
            lemma_sbbox_in(*t.hit_model);
            let ib = t.hit_model.s_bbox();
            assert forall|ax: int|
                0 <= ax < 3 implies spec_axis(m.s_bbox().minimum, ax) * c.t().d
                <= #[trigger] crate::ray::at_num(r, c.t(), ax) <= spec_axis(m.s_bbox().maximum, ax)
                * c.t().d by {
                let offa = spec_axis(t.offset, ax);
                assert(spec_axis(ib.minimum, ax) * c0.t().d <= crate::ray::at_num(mr, c0.t(), ax)
                    <= spec_axis(ib.maximum, ax) * c0.t().d);
                assert(crate::ray::at_num(r, c.t(), ax) == crate::ray::at_num(mr, c0.t(), ax)
                    + offa * c0.t().d) by (nonlinear_arith)
                    requires
                        crate::ray::at_num(r, c.t(), ax) == spec_axis(r.orig, ax) * c0.t().d
                            + c0.t().n * spec_axis(r.dir, ax),
                        crate::ray::at_num(mr, c0.t(), ax) == (spec_axis(r.orig, ax) - offa)
                            * c0.t().d + c0.t().n * spec_axis(r.dir, ax),
                ;
                assert(spec_axis(m.s_bbox().minimum, ax) == spec_axis(ib.minimum, ax) + offa);
                assert(spec_axis(m.s_bbox().maximum, ax) == spec_axis(ib.maximum, ax) + offa);
                assert((spec_axis(ib.minimum, ax) + offa) * c0.t().d == spec_axis(ib.minimum, ax)
                    * c0.t().d + offa * c0.t().d) by (nonlinear_arith);
                assert((spec_axis(ib.maximum, ax) + offa) * c0.t().d == spec_axis(ib.maximum, ax)
                    * c0.t().d + offa * c0.t().d) by (nonlinear_arith);
            }
        },
        HitModel::BVH(n) => {
            lemma_concat_contains(n.left.cands(r), n.right.cands(r), c);
            if n.left.cands(r).contains(c) {
                lemma_cands_in_bbox(*n.left, r, c);
                lemma_point_in_absorbing(n.bbox, n.left.s_bbox(), r, c.t());
            } else {
                lemma_cands_in_bbox(*n.right, r, c);
                lemma_point_in_absorbing(n.bbox, n.right.s_bbox(), r, c.t());
            }
        },
    }
}

/// All candidate denominators of a well-formed primitive are positive.
pub proof fn lemma_cands_all_ok(m: HitModel, r: Ray)
    requires
        m.wf(),
        v_in(r.orig, ORIGIN_ROOM as int - GEOM_BOUND as int * m.tdepth()),
        v_in(r.dir, DIR_BOUND as int),
    ensures
        cands_ok(m.cands(r)),
{
    let s = m.cands(r);
    assert forall|i: int| 0 <= i < s.len() implies (#[trigger] s[i]).ok() by {
        assert(s.contains(s[i]));
        lemma_cands_in_bbox(m, r, s[i]);
    }
}

/// Well-formed primitives nest at most `MAX_WRAP` translations.
pub proof fn lemma_wf_tdepth(m: HitModel)
    requires
        m.wf(),
    ensures
        m.tdepth() <= MAX_WRAP,
    decreases m,
{
    match m {
        HitModel::BVH(n) => {
            lemma_wf_tdepth(*n.left);
            lemma_wf_tdepth(*n.right);
        },
        HitModel::Volume(c) => {
            assert(c.wf());
            lemma_wf_tdepth(*c.boundary);
        },
        _ => {},
    }
}

impl HitModel {
    /// A box enclosing the primitive (always available in this closed set).
    /// The shutter interval does not move any of these primitives, so the
    /// box is time-independent.
    pub fn bounding_box(&self, t0: i64, t1: i64) -> (res: Option<Aabb>)
        requires
            self.wf(),
        ensures
            res == Some(self.s_bbox()),
        decreases *self,
    {
        match self {
            HitModel::Sphere(s) => Some(s.bounding_box()),
            HitModel::MovingSphere(s) => Some(s.bounding_box()),
            HitModel::Volume(c) => {
                proof {
                    assert(c.wf());
                }
                c.boundary.bounding_box(t0, t1)
            },
            HitModel::XYRect(s) => Some(s.bounding_box()),
            HitModel::XZRect(s) => Some(s.bounding_box()),
            HitModel::YZRect(s) => Some(s.bounding_box()),
            HitModel::Box(b) => Some(b.bounding_box()),
            HitModel::Translate(t) => {
                let inner = t.hit_model.bounding_box(t0, t1);
                proof {
                    lemma_sbbox_in(*t.hit_model);
                    lemma_wf_tdepth(*t.hit_model);
                }
                match inner {
                    Some(b) => Some(
                        Aabb {
                            minimum: Vec3i {
                                x: b.minimum.x + t.offset.x,
                                y: b.minimum.y + t.offset.y,
                                z: b.minimum.z + t.offset.z,
                            },
                            maximum: Vec3i {
                                x: b.maximum.x + t.offset.x,
                                y: b.maximum.y + t.offset.y,
                                z: b.maximum.z + t.offset.z,
                            },
                        },
                    ),
                    None => None,
                }
            },
            HitModel::BVH(n) => Some(n.bbox),
        }
    }

    /// Closest intersection in `(tmin, tmax)`.  For interior nodes: prune
    /// by the box test, search the left subtree, then search the right
    /// subtree only up to the left hit — the nearer hit wins.  On a
    /// graze-free ray this provably returns the closest candidate of the
    /// whole subtree.
    #[verifier::rlimit(100)]
    #[verifier::spinoff_prover]
    pub fn hit(&self, r: &Ray, tmin: &Rat, tmax: &Rat, rng: &mut crate::rng::Prng) -> (res:
        Option<HitRecord>)
        requires
            self.wf(),
            v_in(r.orig, ORIGIN_ROOM as int - GEOM_BOUND as int * self.tdepth()),
            v_in(r.dir, DIR_BOUND as int),
            r.time.wf(),
            r.time.bounded(),
            tmin.wf(),
            tmin.bounded(),
            tmax.wf(),
            tmax.bounded(),
        ensures
            res.is_some() ==> res.unwrap().wf() && rec_on_ray(res.unwrap(), *r) && qlt(
                tmin.v(),
                res.unwrap().t.v(),
            ) && qlt(res.unwrap().t.v(), tmax.v()) && oriented_against(res.unwrap(), *r),
            res.is_some() ==> self.mats().contains(res.unwrap().material),
            self.graze_free(*r) ==> hit_matches(self.cands(*r), tmin.v(), tmax.v(), res),
        decreases *self, 2int,
    {
        match self {
            HitModel::Sphere(s) => s.hit(r, tmin, tmax),
            HitModel::MovingSphere(s) => s.hit(r, tmin, tmax),
            HitModel::Volume(c) => {
                proof {
                    assert(c.wf());
                }
                if r.dir.x == 0 && r.dir.y == 0 && r.dir.z == 0 {
                    // A ray without a direction crosses nothing.
                    None
                } else {
                    c.hit(r, tmin, tmax, rng)
                }
            },
            HitModel::XYRect(s) => s.hit(r, tmin, tmax),
            HitModel::XZRect(s) => s.hit(r, tmin, tmax),
            HitModel::YZRect(s) => s.hit(r, tmin, tmax),
            HitModel::Box(b) => b.hit(r, tmin, tmax),
            HitModel::Translate(t) => {
                let moved = Ray::new(r.orig.sub(&t.offset), r.dir, r.time);
                proof {
                    assert(moved == moved_ray(*r, t.offset));
                }
                let inner = t.hit_model.hit(&moved, tmin, tmax, rng);
                match inner {
                    None => {
                        proof {
                            if self.graze_free(*r) {
                                let ic = t.hit_model.cands(moved_ray(*r, t.offset));
                                assert forall|c: Cand| #[trigger] self.cands(*r).contains(c)
                                    implies !in_ivl(c, tmin.v(), tmax.v()) by {
                                    let i = choose|i: int|
                                        0 <= i < self.cands(*r).len() && self.cands(*r)[i] == c;
                                    assert(ic.contains(ic[i]));
                                    assert(c.t() == ic[i].t());
                                }
                            }
                        }
                        None
                    },
                    Some(rec) => {
                        proof {
                            crate::vec3::lemma_prod_bound2(
                                t.offset.x as int,
                                rec.t.den as int,
                                0x10_0000,
                                crate::rat::DEN_BOUND as int,
                            );
                            crate::vec3::lemma_prod_bound2(
                                t.offset.y as int,
                                rec.t.den as int,
                                0x10_0000,
                                crate::rat::DEN_BOUND as int,
                            );
                            crate::vec3::lemma_prod_bound2(
                                t.offset.z as int,
                                rec.t.den as int,
                                0x10_0000,
                                crate::rat::DEN_BOUND as int,
                            );
                            // The hit point numerators are ray-position sums,
                            // so they stay well under the RatVec bound even
                            // after the shift back to world coordinates.
                            crate::vec3::lemma_prod_bound2(
                                moved.orig.x as int,
                                rec.t.den as int,
                                549755813888,
                                crate::rat::DEN_BOUND as int,
                            );
                            crate::vec3::lemma_prod_bound2(
                                moved.orig.y as int,
                                rec.t.den as int,
                                549755813888,
                                crate::rat::DEN_BOUND as int,
                            );
                            crate::vec3::lemma_prod_bound2(
                                moved.orig.z as int,
                                rec.t.den as int,
                                549755813888,
                                crate::rat::DEN_BOUND as int,
                            );
                            crate::vec3::lemma_prod_bound2(
                                rec.t.num as int,
                                r.dir.x as int,
                                crate::rat::NUM_BOUND as int,
                                0x10_0000,
                            );
                            crate::vec3::lemma_prod_bound2(
                                rec.t.num as int,
                                r.dir.y as int,
                                crate::rat::NUM_BOUND as int,
                                0x10_0000,
                            );
                            crate::vec3::lemma_prod_bound2(
                                rec.t.num as int,
                                r.dir.z as int,
                                crate::rat::NUM_BOUND as int,
                                0x10_0000,
                            );
                        }
                        let p2 = RatVec {
                            nx: rec.p.nx + (t.offset.x as i128) * rec.t.den,
                            ny: rec.p.ny + (t.offset.y as i128) * rec.t.den,
                            nz: rec.p.nz + (t.offset.z as i128) * rec.t.den,
                            den: rec.p.den,
                        };
                        proof {
                            assert((r.orig.x as int) * rec.t.den == ((r.orig.x - t.offset.x) as int)
                                * rec.t.den + (t.offset.x as int) * rec.t.den) by (nonlinear_arith)
                                requires
                                    true,
                            ;
                            assert((r.orig.y as int) * rec.t.den == ((r.orig.y - t.offset.y) as int)
                                * rec.t.den + (t.offset.y as int) * rec.t.den) by (nonlinear_arith)
                                requires
                                    (r.orig.y as int) - (t.offset.y as int) == (r.orig.y
                                        - t.offset.y) as int,
                            ;
                            assert((r.orig.x as int) - (t.offset.x as int) == (r.orig.x
                                - t.offset.x) as int);
                            assert((r.orig.z as int) * rec.t.den == ((r.orig.z - t.offset.z) as int)
                                * rec.t.den + (t.offset.z as int) * rec.t.den) by (nonlinear_arith)
                                requires
                                    (r.orig.z as int) - (t.offset.z as int) == (r.orig.z
                                        - t.offset.z) as int,
                            ;
                        }
                        let front_face = HitRecord::face_normal(&moved, &rec.normal);
                        let normal = if front_face {
                            rec.normal
                        } else {
                            rec.normal.neg()
                        };
                        proof {
                            if !front_face {
                                assert((r.dir.x as int) * normal.nx + (r.dir.y as int) * normal.ny
                                    + (r.dir.z as int) * normal.nz == -((r.dir.x as int)
                                    * rec.normal.nx + (r.dir.y as int) * rec.normal.ny + (
                                r.dir.z as int) * rec.normal.nz)) by (nonlinear_arith)
                                    requires
                                        normal.nx == -rec.normal.nx,
                                        normal.ny == -rec.normal.ny,
                                        normal.nz == -rec.normal.nz,
                                ;
                            }
                        }
                        let out = HitRecord {
                            p: p2,
                            normal,
                            t: rec.t,
                            u: rec.u,
                            v: rec.v,
                            front_face,
                            material: rec.material,
                        };
                        proof {
                            if self.graze_free(*r) {
                                let ic = t.hit_model.cands(moved_ray(*r, t.offset));
                                let sc = self.cands(*r);
                                let c0 = choose|c: Cand|
                                    #[trigger] best_at(ic, tmin.v(), tmax.v(), c) && qeq(
                                        rec.t.v(),
                                        c.t(),
                                    );
                                let i = choose|i: int| 0 <= i < ic.len() && ic[i] == c0;
                                let cw = shift_cand(c0, t.offset);
                                assert(sc[i] == cw);
                                assert(sc.contains(cw));
                                assert(in_ivl(cw, tmin.v(), tmax.v()));
                                assert forall|c2: Cand|
                                    #[trigger] sc.contains(c2) && in_ivl(c2, tmin.v(), tmax.v())
                                    implies qle(cw.t(), c2.t()) by {
                                    let j = choose|j: int| 0 <= j < sc.len() && sc[j] == c2;
                                    assert(ic.contains(ic[j]));
                                    assert(c2.t() == ic[j].t());
                                }
                                assert(best_at(sc, tmin.v(), tmax.v(), cw) && qeq(
                                    out.t.v(),
                                    cw.t(),
                                ));
                            }
                        }
                        Some(out)
                    },
                }
            },
            HitModel::BVH(n) => {
                if !n.bbox.hit(r, tmin, tmax) {
                    proof {
                        if self.graze_free(*r) {
                            assert forall|c: Cand| #[trigger] self.cands(*r).contains(c)
                                implies !in_ivl(c, tmin.v(), tmax.v()) by {
                                lemma_cands_in_bbox(*self, *r, c);
                                if in_ivl(c, tmin.v(), tmax.v()) {
                                    lemma_point_in_box_hit(
                                        n.bbox,
                                        *r,
                                        c.t(),
                                        tmin.v(),
                                        tmax.v(),
                                    );
                                }
                            }
                        }
                    }
                    return None;
                }
                let hl = n.left.hit(r, tmin, tmax, rng);
                let hr = match &hl {
                    Some(rec) => n.right.hit(r, tmin, &rec.t, rng),
                    None => n.right.hit(r, tmin, tmax, rng),
                };
                let res = match hr {
                    Some(rec) => {
                        proof {
                            match &hl {
                                Some(recl) => {
                                    crate::rat::lemma_qlt_trans(
                                        rec.t.v(),
                                        recl.t.v(),
                                        tmax.v(),
                                    );
                                },
                                None => {},
                            }
                        }
                        Some(rec)
                    },
                    None => hl,
                };
                proof {
                    if self.graze_free(*r) {
                        lemma_cands_all_ok(*n.left, *r);
                        lemma_cands_all_ok(*n.right, *r);
                        lemma_combine(
                            n.left.cands(*r),
                            n.right.cands(*r),
                            tmin.v(),
                            tmax.v(),
                            hl,
                            hr,
                        );
                    }
                }
                res
            },
        }
    }
}

/// The primitives at the leaves of a tree (any non-interior node is a leaf).
pub open spec fn leaves(m: HitModel) -> Seq<HitModel>
    decreases m,
{
    match m {
        HitModel::BVH(n) => leaves(*n.left) + leaves(*n.right),
        _ => seq![m],
    }
}

/// The candidates of a sequence of primitives, in scan order.
pub open spec fn list_cands(ms: Seq<HitModel>, r: Ray) -> Seq<Cand>
    decreases ms.len(),
{
    if ms.len() == 0 {
        Seq::empty()
    } else {
        list_cands(ms.drop_last(), r) + ms.last().cands(r)
    }
}

/// Candidate denominators are positive by construction, for any primitive.
pub proof fn lemma_cands_ok_all(m: HitModel, r: Ray)
    ensures
        cands_ok(m.cands(r)),
    decreases m,
{
    match m {
        HitModel::Sphere(s) => {
            lemma_sphere_cands_ok(s, r);
        },
        HitModel::MovingSphere(s) => {
            lemma_sphere_cands_ok(crate::sphere::spec_sphere_at(s, r.time.v()), r);
        },
        HitModel::Volume(_) => {},
        HitModel::XYRect(s) => {
            lemma_rect_cands_ok(r, 2, 0, 1, s.x0 as int, s.x1 as int, s.y0 as int, s.y1 as int, s.k as int);
        },
        HitModel::XZRect(s) => {
            lemma_rect_cands_ok(r, 1, 0, 2, s.x0 as int, s.x1 as int, s.z0 as int, s.z1 as int, s.k as int);
        },
        HitModel::YZRect(s) => {
            lemma_rect_cands_ok(r, 0, 1, 2, s.y0 as int, s.y1 as int, s.z0 as int, s.z1 as int, s.k as int);
        },
        HitModel::Box(b) => {
            crate::rect::lemma_rect_cands_all_ok(b, r);
            lemma_cands_ok_concat(b.xy0.cands(r), b.xy1.cands(r));
            lemma_cands_ok_concat(b.xy0.cands(r) + b.xy1.cands(r), b.xz0.cands(r));
            lemma_cands_ok_concat(b.xy0.cands(r) + b.xy1.cands(r) + b.xz0.cands(r), b.xz1.cands(r));
            lemma_cands_ok_concat(
                b.xy0.cands(r) + b.xy1.cands(r) + b.xz0.cands(r) + b.xz1.cands(r),
                b.yz0.cands(r),
            );
            lemma_cands_ok_concat(
                b.xy0.cands(r) + b.xy1.cands(r) + b.xz0.cands(r) + b.xz1.cands(r) + b.yz0.cands(r),
                b.yz1.cands(r),
            );
        },
        HitModel::Translate(t) => {
            let mr = moved_ray(r, t.offset);
            lemma_cands_ok_all(*t.hit_model, mr);
            let ic = t.hit_model.cands(mr);
            let sc = m.cands(r);
            assert forall|i: int| 0 <= i < sc.len() implies (#[trigger] sc[i]).ok() by {
                assert(sc[i] == shift_cand(ic[i], t.offset));
                assert(ic[i].ok());
            }
        },
        HitModel::BVH(n) => {
            lemma_cands_ok_all(*n.left, r);
            lemma_cands_ok_all(*n.right, r);
            lemma_cands_ok_concat(n.left.cands(r), n.right.cands(r));
        },
    }
}

/// A candidate of a tree is a candidate of one of its leaves.
pub proof fn lemma_tree_cands_member(m: HitModel, r: Ray, c: Cand)
    ensures
        m.cands(r).contains(c) <==> exists|i: int|
            0 <= i < leaves(m).len() && (#[trigger] leaves(m)[i]).cands(r).contains(c),
    decreases m,
{
    match m {
        HitModel::BVH(n) => {
            lemma_tree_cands_member(*n.left, r, c);
            lemma_tree_cands_member(*n.right, r, c);
            lemma_concat_contains(n.left.cands(r), n.right.cands(r), c);
            let ll = leaves(*n.left);
            let lr = leaves(*n.right);
            if m.cands(r).contains(c) {
                if n.left.cands(r).contains(c) {
                    let i = choose|i: int| 0 <= i < ll.len() && (#[trigger] ll[i]).cands(r).contains(c);
                    assert(leaves(m)[i] == ll[i]);
                } else {
                    let i = choose|i: int| 0 <= i < lr.len() && (#[trigger] lr[i]).cands(r).contains(c);
                    assert(leaves(m)[ll.len() + i] == lr[i]);
                }
            }
            if exists|i: int| 0 <= i < leaves(m).len() && (#[trigger] leaves(m)[i]).cands(r).contains(c) {
                let i = choose|i: int|
                    0 <= i < leaves(m).len() && (#[trigger] leaves(m)[i]).cands(r).contains(c);
                if i < ll.len() {
                    assert(ll[i] == leaves(m)[i]);
                } else {
                    assert(lr[i - ll.len()] == leaves(m)[i]);
                }
            }
        },
        _ => {
            assert(leaves(m) == seq![m]);
            if m.cands(r).contains(c) {
                assert(leaves(m)[0] == m);
            }
        },
    }
}

/// A candidate of a scanned sequence is a candidate of one of its members.
pub proof fn lemma_list_cands_member(ms: Seq<HitModel>, r: Ray, c: Cand)
    ensures
        list_cands(ms, r).contains(c) <==> exists|i: int|
            0 <= i < ms.len() && (#[trigger] ms[i]).cands(r).contains(c),
    decreases ms.len(),
{
    if ms.len() == 0 {
    } else {
        lemma_list_cands_member(ms.drop_last(), r, c);
        lemma_concat_contains(list_cands(ms.drop_last(), r), ms.last().cands(r), c);
        let pre = ms.drop_last();
        if list_cands(ms, r).contains(c) {
            if ms.last().cands(r).contains(c) {
                assert(ms[ms.len() - 1] == ms.last());
            } else {
                let i = choose|i: int| 0 <= i < pre.len() && (#[trigger] pre[i]).cands(r).contains(c);
                assert(ms[i] == pre[i]);
            }
        }
        if exists|i: int| 0 <= i < ms.len() && (#[trigger] ms[i]).cands(r).contains(c) {
            let i = choose|i: int| 0 <= i < ms.len() && (#[trigger] ms[i]).cands(r).contains(c);
            if i < ms.len() - 1 {
                assert(pre[i] == ms[i]);
            } else {
                assert(ms.last() == ms[i]);
            }
        }
    }
}

/// `cands_ok` for a whole scan sequence.
pub proof fn lemma_list_cands_ok(ms: Seq<HitModel>, r: Ray)
    ensures
        cands_ok(list_cands(ms, r)),
    decreases ms.len(),
{
    if ms.len() > 0 {
        lemma_list_cands_ok(ms.drop_last(), r);
        lemma_cands_ok_all(ms.last(), r);
        lemma_cands_ok_concat(list_cands(ms.drop_last(), r), ms.last().cands(r));
    }
}

/// Every member of the scanned sequence avoids grazing.
pub open spec fn list_graze_free(ms: Seq<HitModel>, r: Ray) -> bool {
    forall|i: int| 0 <= i < ms.len() ==> (#[trigger] ms[i]).graze_free(r)
}

pub open spec fn list_wf(ms: Seq<HitModel>) -> bool {
    forall|i: int| 0 <= i < ms.len() ==> (#[trigger] ms[i]).wf()
}

/// A flat collection of primitives with closest-hit-of-list semantics.
#[derive(Debug)]
pub struct HittableList {
    pub objects: Vec<HitModel>,
}

impl HittableList {
    pub open spec fn wf(self) -> bool {
        list_wf(self.objects@)
    }

    pub fn new() -> (s: HittableList)
        ensures
            s.objects@ =~= Seq::<HitModel>::empty(),
            s.wf(),
    {
        HittableList { objects: Vec::new() }
    }

    pub fn add(&mut self, object: HitModel)
        ensures
            final(self).objects@ == old(self).objects@.push(object),
    {
        self.objects.push(object);
    }

    pub fn objects(&mut self) -> (r: &mut Vec<HitModel>)
        ensures
            *r == old(self).objects,
            final(self).objects == *final(r),
    {
        &mut self.objects
    }

    /// The closest hit among the members: scan all of them, shrinking the
    /// search interval to the best parameter found so far.
    pub fn hit(&self, r: &Ray, tmin: &Rat, tmax: &Rat, rng: &mut crate::rng::Prng) -> (res:
        Option<HitRecord>)
        requires
            self.wf(),
            v_in(r.orig, crate::ray::ORIGIN_BOUND as int),
            v_in(r.dir, DIR_BOUND as int),
            r.time.wf(),
            r.time.bounded(),
            tmin.wf(),
            tmin.bounded(),
            tmax.wf(),
            tmax.bounded(),
        ensures
            res.is_some() ==> res.unwrap().wf() && rec_on_ray(res.unwrap(), *r) && qlt(
                tmin.v(),
                res.unwrap().t.v(),
            ) && qlt(res.unwrap().t.v(), tmax.v()) && oriented_against(res.unwrap(), *r),
            list_graze_free(self.objects@, *r) ==> hit_matches(
                list_cands(self.objects@, *r),
                tmin.v(),
                tmax.v(),
                res,
            ),
    {
        let mut best: Option<HitRecord> = None;
        let n = self.objects.len();
        let mut i: usize = 0;
        while i < n
            invariant
                i <= n,
                n == self.objects.len(),
                self.wf(),
                v_in(r.orig, crate::ray::ORIGIN_BOUND as int),
                v_in(r.dir, DIR_BOUND as int),
                r.time.wf(),
                r.time.bounded(),
                tmin.wf() && tmin.bounded() && tmax.wf() && tmax.bounded(),
                best.is_some() ==> best.unwrap().wf() && rec_on_ray(best.unwrap(), *r) && qlt(
                    tmin.v(),
                    best.unwrap().t.v(),
                ) && qlt(best.unwrap().t.v(), tmax.v()) && oriented_against(best.unwrap(), *r),
                list_graze_free(self.objects@, *r) ==> hit_matches(
                    list_cands(self.objects@.subrange(0, i as int), *r),
                    tmin.v(),
                    tmax.v(),
                    best,
                ),
            decreases n - i,
        {
            let o = &self.objects[i];
            proof {
                lemma_wf_tdepth(*o);
                assert(GEOM_BOUND as int * o.tdepth() <= GEOM_BOUND as int * MAX_WRAP)
                    by (nonlinear_arith)
                    requires
                        o.tdepth() <= MAX_WRAP,
                ;
            }
            let next = match &best {
                Some(b) => o.hit(r, tmin, &b.t, rng),
                None => o.hit(r, tmin, tmax, rng),
            };
            proof {
                if list_graze_free(self.objects@, *r) {
                    assert(self.objects@[i as int].graze_free(*r));
                    lemma_list_cands_ok(self.objects@.subrange(0, i as int), *r);
                    lemma_cands_ok_all(*o, *r);
                    lemma_combine(
                        list_cands(self.objects@.subrange(0, i as int), *r),
                        o.cands(*r),
                        tmin.v(),
                        tmax.v(),
                        best,
                        next,
                    );
                    assert(self.objects@.subrange(0, i as int + 1).drop_last() =~= self.objects@
                        .subrange(0, i as int));
                    assert(self.objects@.subrange(0, i as int + 1).last() == self.objects@[
                        i as int]);
                }
                if next.is_some() {
                    match &best {
                        Some(b) => {
                            crate::rat::lemma_qlt_trans(
                                next.unwrap().t.v(),
                                b.t.v(),
                                tmax.v(),
                            );
                        },
                        None => {},
                    }
                }
            }
            if next.is_some() {
                best = next;
            }
            i = i + 1;
        }
        proof {
            assert(self.objects@.subrange(0, n as int) =~= self.objects@);
        }
        best
    }

    /// The union of all members' boxes; nothing for an empty list.
    pub fn bounding_box(&self, t0: i64, t1: i64) -> (res: Option<Aabb>)
        requires
            self.wf(),
        ensures
            res.is_some() <==> self.objects.len() > 0,
            res.is_some() ==> res.unwrap().wf() && forall|i: int|
                0 <= i < self.objects.len() ==> absorbs(
                    res.unwrap(),
                    (#[trigger] self.objects@[i]).s_bbox(),
                ),
            // The union is tight: every corner coordinate is achieved by
            // some member's box.
            res.is_some() ==> forall|ax: int|
                0 <= ax < 3 ==> (exists|i: int|
                    0 <= i < self.objects.len() && #[trigger] spec_axis(
                        res.unwrap().minimum,
                        ax,
                    ) == spec_axis(self.objects@[i].s_bbox().minimum, ax)) && (exists|j: int|
                    0 <= j < self.objects.len() && #[trigger] spec_axis(
                        res.unwrap().maximum,
                        ax,
                    ) == spec_axis(self.objects@[j].s_bbox().maximum, ax)),
    {
        let n = self.objects.len();
        if n == 0 {
            return None;
        }
        proof {
            lemma_sbbox_in(self.objects@[0]);
        }
        let first = self.objects[0].bounding_box(t0, t1);
        let mut acc: Aabb = match first {
            Some(b) => b,
            None => {
                proof {
                    assert(false);
                }
                Aabb::new(Vec3i::new(0, 0, 0), Vec3i::new(0, 0, 0))
            },
        };
        let mut i: usize = 1;
        proof {
            assert(absorbs(acc, self.objects@[0].s_bbox()));
        }
        while i < n
            invariant
                1 <= i <= n,
                n == self.objects.len(),
                self.wf(),
                acc.wf(),
                forall|j: int| 0 <= j < i ==> absorbs(acc, (#[trigger] self.objects@[j]).s_bbox()),
                forall|ax: int|
                    0 <= ax < 3 ==> (exists|j: int|
                        0 <= j < i && #[trigger] spec_axis(acc.minimum, ax) == spec_axis(
                            self.objects@[j].s_bbox().minimum,
                            ax,
                        )) && (exists|j: int|
                        0 <= j < i && #[trigger] spec_axis(acc.maximum, ax) == spec_axis(
                            self.objects@[j].s_bbox().maximum,
                            ax,
                        )),
            decreases n - i,
        {
            proof {
                lemma_sbbox_in(self.objects@[i as int]);
            }
            let nb = self.objects[i].bounding_box(t0, t1);
            let ghost old_acc = acc;
            match nb {
                Some(b) => {
                    acc = crate::aabb::surrounding_box(b, acc);
                },
                None => {
                    proof {
                        assert(false);
                    }
                },
            }
            proof {
                assert forall|j: int| 0 <= j < i + 1 implies absorbs(
                    acc,
                    (#[trigger] self.objects@[j]).s_bbox(),
                ) by {
                    if j < i {
                        lemma_absorbs_trans(acc, old_acc, self.objects@[j].s_bbox());
                    }
                }
                // Each corner coordinate of the grown union is achieved
                // either by the new member or by the old witness.
                assert forall|ax: int|
                    0 <= ax < 3 implies (exists|j: int|
                        0 <= j < i + 1 && #[trigger] spec_axis(acc.minimum, ax) == spec_axis(
                            self.objects@[j].s_bbox().minimum,
                            ax,
                        )) && (exists|j: int|
                        0 <= j < i + 1 && #[trigger] spec_axis(acc.maximum, ax) == spec_axis(
                            self.objects@[j].s_bbox().maximum,
                            ax,
                        )) by {
                    if spec_axis(acc.minimum, ax) == spec_axis(
                        self.objects@[i as int].s_bbox().minimum,
                        ax,
                    ) {
                        assert(exists|j: int|
                            0 <= j < i + 1 && #[trigger] spec_axis(acc.minimum, ax) == spec_axis(
                                self.objects@[j].s_bbox().minimum,
                                ax,
                            ));
                    } else {
                        let j0 = choose|j: int|
                            0 <= j < i && #[trigger] spec_axis(old_acc.minimum, ax) == spec_axis(
                                self.objects@[j].s_bbox().minimum,
                                ax,
                            );
                        assert(spec_axis(acc.minimum, ax) == spec_axis(
                            self.objects@[j0].s_bbox().minimum,
                            ax,
                        ));
                    }
                    if spec_axis(acc.maximum, ax) == spec_axis(
                        self.objects@[i as int].s_bbox().maximum,
                        ax,
                    ) {
                        assert(exists|j: int|
                            0 <= j < i + 1 && #[trigger] spec_axis(acc.maximum, ax) == spec_axis(
                                self.objects@[j].s_bbox().maximum,
                                ax,
                            ));
                    } else {
                        let j1 = choose|j: int|
                            0 <= j < i && #[trigger] spec_axis(old_acc.maximum, ax) == spec_axis(
                                self.objects@[j].s_bbox().maximum,
                                ax,
                            );
                        assert(spec_axis(acc.maximum, ax) == spec_axis(
                            self.objects@[j1].s_bbox().maximum,
                            ax,
                        ));
                    }
                }
            }
            i = i + 1;
        }
        Some(acc)
    }
}

/// Containment of boxes is transitive.
pub proof fn lemma_absorbs_trans(a: Aabb, b: Aabb, c: Aabb)
    requires
        absorbs(a, b),
        absorbs(b, c),
    ensures
        absorbs(a, c),
{
}

/// The acceleration structure agrees with the linear scan: whenever the
/// leaves of a well-formed tree are exactly the scanned primitives and the
/// ray grazes no node box, the two return a hit for the same rays, at
/// exactly the same parameter.
pub proof fn lemma_bvh_matches_scan(
    tree: HitModel,
    ms: Seq<HitModel>,
    r: Ray,
    tmin: Sc,
    tmax: Sc,
    res_tree: Option<HitRecord>,
    res_scan: Option<HitRecord>,
)
    requires
        sc_ok(tmin),
        sc_ok(tmax),
        hit_matches(tree.cands(r), tmin, tmax, res_tree),
        hit_matches(list_cands(ms, r), tmin, tmax, res_scan),
        res_tree.is_some() ==> res_tree.unwrap().t.wf(),
        res_scan.is_some() ==> res_scan.unwrap().t.wf(),
        forall|m: HitModel| leaves(tree).contains(m) <==> ms.contains(m),
    ensures
        res_tree.is_some() <==> res_scan.is_some(),
        res_tree.is_some() && res_scan.is_some() ==> qeq(
            res_tree.unwrap().t.v(),
            res_scan.unwrap().t.v(),
        ),
{
    lemma_cands_ok_all(tree, r);
    lemma_list_cands_ok(ms, r);
    assert forall|c: Cand| #[trigger] tree.cands(r).contains(c) <==> list_cands(ms, r).contains(
        c,
    ) by {
        lemma_tree_cands_member(tree, r, c);
        lemma_list_cands_member(ms, r, c);
        if tree.cands(r).contains(c) {
            let i = choose|i: int|
                0 <= i < leaves(tree).len() && (#[trigger] leaves(tree)[i]).cands(r).contains(c);
            assert(leaves(tree).contains(leaves(tree)[i]));
            assert(ms.contains(leaves(tree)[i]));
            let j = choose|j: int| 0 <= j < ms.len() && ms[j] == leaves(tree)[i];
            assert((ms[j]).cands(r).contains(c));
        }
        if list_cands(ms, r).contains(c) {
            let i = choose|i: int| 0 <= i < ms.len() && (#[trigger] ms[i]).cands(r).contains(c);
            assert(ms.contains(ms[i]));
            assert(leaves(tree).contains(ms[i]));
            let j = choose|j: int| 0 <= j < leaves(tree).len() && leaves(tree)[j] == ms[i];
            assert((leaves(tree)[j]).cands(r).contains(c));
        }
    }
    lemma_best_agrees(tree.cands(r), list_cands(ms, r), tmin, tmax, res_tree, res_scan);
}

} // verus!
