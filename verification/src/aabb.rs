use vstd::prelude::*;

use crate::rat::Rat;
use crate::rat::Sc;
use crate::rat::lemma_q_total;
use crate::rat::lemma_qle_qlt_trans;
use crate::rat::lemma_qle_trans;
use crate::rat::lemma_qlt_qle_trans;
use crate::rat::lemma_qlt_trans;
use crate::rat::qeq;
use crate::rat::qle;
use crate::rat::qlt;
use crate::rat::sc_ok;
use crate::ray::BOX_BOUND;
use crate::ray::DIR_BOUND;
use crate::ray::ORIGIN_ROOM;
use crate::ray::Ray;
use crate::ray::at_num;
use crate::vec3::Vec3i;
use crate::vec3::spec_axis;
use crate::vec3::v_in;

verus! {

/// Axis-aligned bounding box given by two corner points.
#[derive(Clone, Copy, Debug)]
pub struct Aabb {
    pub minimum: Vec3i,
    pub maximum: Vec3i,
}

impl Aabb {
    pub open spec fn wf(self) -> bool {
        &&& v_in(self.minimum, BOX_BOUND as int)
        &&& v_in(self.maximum, BOX_BOUND as int)
    }

    pub fn new(minimum: Vec3i, maximum: Vec3i) -> (r: Aabb)
        ensures
            r == (Aabb { minimum, maximum }),
    {
        Aabb { minimum, maximum }
    }

    pub fn min(&self) -> (r: Vec3i)
        ensures
            r == self.minimum,
    {
        self.minimum
    }

    pub fn max(&self) -> (r: Vec3i)
        ensures
            r == self.maximum,
    {
        self.maximum
    }
}

/// For an axis the ray does not travel along, the slab admits the ray only
/// if the origin sits between the two planes.
pub open spec fn axis_deg_ok(b: Aabb, r: Ray, a: int) -> bool {
    spec_axis(r.dir, a) == 0 ==> spec_axis(b.minimum, a) <= spec_axis(r.orig, a) <= spec_axis(
        b.maximum,
        a,
    )
}

pub open spec fn nondeg(r: Ray, a: int) -> bool {
    spec_axis(r.dir, a) != 0
}

/// Parameter at which the ray enters the slab of axis `a` (the smaller of
/// the two plane crossings), as an exact rational.
pub open spec fn slab_lo(b: Aabb, r: Ray, a: int) -> Sc {
    let o = spec_axis(r.orig, a);
    let d = spec_axis(r.dir, a);
    if d > 0 {
        Sc { n: spec_axis(b.minimum, a) - o, d: d }
    } else {
        Sc { n: o - spec_axis(b.maximum, a), d: -d }
    }
}

/// Parameter at which the ray leaves the slab of axis `a`.
pub open spec fn slab_hi(b: Aabb, r: Ray, a: int) -> Sc {
    let o = spec_axis(r.orig, a);
    let d = spec_axis(r.dir, a);
    if d > 0 {
        Sc { n: spec_axis(b.maximum, a) - o, d: d }
    } else {
        Sc { n: o - spec_axis(b.minimum, a), d: -d }
    }
}

/// The slab test: the three per-axis parameter intervals and `(tmin, tmax)`
/// have a common interior point.  Writing the intersection-of-intervals
/// check as "every lower bound lies strictly below every upper bound" keeps
/// it symmetric in the axes.
pub open spec fn hit_ok(b: Aabb, r: Ray, tmin: Sc, tmax: Sc) -> bool {
    &&& forall|a: int| 0 <= a < 3 ==> axis_deg_ok(b, r, a)
    &&& qlt(tmin, tmax)
    &&& forall|a: int|
        0 <= a < 3 && nondeg(r, a) ==> qlt(tmin, slab_hi(b, r, a)) && qlt(slab_lo(b, r, a), tmax)
    &&& forall|a1: int, a2: int|
        0 <= a1 < 3 && 0 <= a2 < 3 && nondeg(r, a1) && nondeg(r, a2) ==> qlt(
            slab_lo(b, r, a1),
            slab_hi(b, r, a2),
        )
}

/// A ray grazes a box when some slab entry coincides exactly with some slab
/// exit; the conservative pruning argument excludes this boundary case.
pub open spec fn box_graze(b: Aabb, r: Ray) -> bool {
    exists|a1: int, a2: int|
        0 <= a1 < 3 && 0 <= a2 < 3 && nondeg(r, a1) && nondeg(r, a2) && qeq(
            slab_lo(b, r, a1),
            slab_hi(b, r, a2),
        )
}

/// Closed containment of the ray position at parameter `t` in the box,
/// cleared of the denominator `t.d`.
pub open spec fn point_in_box(b: Aabb, r: Ray, t: Sc) -> bool {
    forall|a: int|
        0 <= a < 3 ==> spec_axis(b.minimum, a) * t.d <= #[trigger] at_num(r, t, a) <= spec_axis(
            b.maximum,
            a,
        ) * t.d
}

impl Aabb {
    /// Both slab crossings of a non-degenerate axis, ordered.
    fn axis_slab(&self, r: &Ray, a: usize) -> (res: (Rat, Rat))
        requires
            a < 3,
            self.wf(),
            v_in(r.orig, ORIGIN_ROOM as int),
            v_in(r.dir, DIR_BOUND as int),
            nondeg(*r, a as int),
        ensures
            res.0.wf() && res.0.bounded() && res.0.v() == slab_lo(*self, *r, a as int),
            res.1.wf() && res.1.bounded() && res.1.v() == slab_hi(*self, *r, a as int),
    {
        let o = r.orig.axis(a);
        let d = r.dir.axis(a);
        let mn = self.minimum.axis(a);
        let mx = self.maximum.axis(a);
        if d > 0 {
            (Rat::new(mn - o, d), Rat::new(mx - o, d))
        } else {
            (Rat::new(o - mx, -d), Rat::new(o - mn, -d))
        }
    }

    /// Exact slab test, mirroring the classic formulation: walk the three
    /// axes, shrink `(tmin, tmax)` to each slab interval, and reject as soon
    /// as the interval closes.
    pub fn hit(&self, r: &Ray, tmin: &Rat, tmax: &Rat) -> (res: bool)
        requires
            self.wf(),
            v_in(r.orig, ORIGIN_ROOM as int),
            v_in(r.dir, DIR_BOUND as int),
            tmin.wf(),
            tmin.bounded(),
            tmax.wf(),
            tmax.bounded(),
        ensures
            res == hit_ok(*self, *r, tmin.v(), tmax.v()),
    {
        let mut cur_min: Rat = *tmin;
        let mut cur_max: Rat = *tmax;
        let ghost mut lo_src: int = -1;
        let ghost mut hi_src: int = -1;
        let mut a: usize = 0;
        while a < 3
        invariant
            a <= 3,
            self.wf(),
            v_in(r.orig, ORIGIN_ROOM as int),
            v_in(r.dir, DIR_BOUND as int),
            tmin.wf() && tmin.bounded() && tmax.wf() && tmax.bounded(),
            cur_min.wf() && cur_min.bounded(),
            cur_max.wf() && cur_max.bounded(),
            lo_src == -1 ==> cur_min == *tmin,
            lo_src != -1 ==> 0 <= lo_src < a && nondeg(*r, lo_src) && cur_min.v() == slab_lo(
                *self,
                *r,
                lo_src,
            ),
            hi_src == -1 ==> cur_max == *tmax,
            hi_src != -1 ==> 0 <= hi_src < a && nondeg(*r, hi_src) && cur_max.v() == slab_hi(
                *self,
                *r,
                hi_src,
            ),
            qle(tmin.v(), cur_min.v()),
            qle(cur_max.v(), tmax.v()),
            forall|b: int|
                0 <= b < a && nondeg(*r, b) ==> qle(slab_lo(*self, *r, b), cur_min.v()),
            forall|b: int|
                0 <= b < a && nondeg(*r, b) ==> qle(cur_max.v(), slab_hi(*self, *r, b)),
            forall|b: int| 0 <= b < a ==> axis_deg_ok(*self, *r, b),
            a > 0 ==> qlt(cur_min.v(), cur_max.v()),
        decreases 3 - a,
        {
            let d = r.dir.axis(a);
            if d == 0 {
                let o = r.orig.axis(a);
                let mn = self.minimum.axis(a);
                let mx = self.maximum.axis(a);
                if !(mn <= o && o <= mx) {
                    assert(!axis_deg_ok(*self, *r, a as int));
                    return false;
                }
            } else {
                let (lo, hi) = self.axis_slab(r, a);
                let ghost old_min = cur_min;
                let ghost old_max = cur_max;
                if cur_min.lt(&lo) {
                    cur_min = lo;
                    proof {
                        lo_src = a as int;
                    }
                } else {
                    proof {
                        lemma_q_total(old_min.v(), lo.v());
                    }
                }
                if hi.lt(&cur_max) {
                    cur_max = hi;
                    proof {
                        hi_src = a as int;
                    }
                } else {
                    proof {
                        lemma_q_total(hi.v(), old_max.v());
                    }
                }
                proof {
                    // The new running bounds still dominate everything the
                    // old ones did.
                    assert(qle(old_min.v(), cur_min.v()) && qle(cur_max.v(), old_max.v())) by {
                        lemma_q_total(old_min.v(), cur_min.v());
                        lemma_q_total(cur_max.v(), old_max.v());
                    }
                    assert(qle(tmin.v(), cur_min.v())) by {
                        lemma_qle_trans(tmin.v(), old_min.v(), cur_min.v());
                    }
                    assert(qle(cur_max.v(), tmax.v())) by {
                        lemma_qle_trans(cur_max.v(), old_max.v(), tmax.v());
                    }
                    assert forall|b: int|
                        0 <= b < a + 1 && nondeg(*r, b) implies qle(
                        slab_lo(*self, *r, b),
                        cur_min.v(),
                    ) by {
                        lemma_sc_ok_slabs(*self, *r, b);
                        if b < a {
                            lemma_qle_trans(slab_lo(*self, *r, b), old_min.v(), cur_min.v());
                        } else {
                            lemma_qle_trans(slab_lo(*self, *r, b), lo.v(), cur_min.v());
                        }
                    }
                    assert forall|b: int|
                        0 <= b < a + 1 && nondeg(*r, b) implies qle(
                        cur_max.v(),
                        slab_hi(*self, *r, b),
                    ) by {
                        lemma_sc_ok_slabs(*self, *r, b);
                        if b < a {
                            lemma_qle_trans(cur_max.v(), old_max.v(), slab_hi(*self, *r, b));
                        } else {
                            lemma_qle_trans(cur_max.v(), hi.v(), slab_hi(*self, *r, b));
                        }
                    }
                }
            }
            if !cur_min.lt(&cur_max) {
                proof {
                    lemma_hit_fail(
                        *self,
                        *r,
                        tmin.v(),
                        tmax.v(),
                        cur_min.v(),
                        cur_max.v(),
                        lo_src,
                        hi_src,
                    );
                }
                return false;
            }
            a = a + 1;
        }
        proof {
            lemma_hit_done(*self, *r, tmin.v(), tmax.v(), cur_min.v(), cur_max.v());
        }
        true
    }
}

/// When the running interval closes, the witnesses behind `cmin` and `cmax`
/// contradict `hit_ok`.
proof fn lemma_hit_fail(
    b: Aabb,
    r: Ray,
    tmin: Sc,
    tmax: Sc,
    cmin: Sc,
    cmax: Sc,
    lo_src: int,
    hi_src: int,
)
    requires
        sc_ok(tmin),
        sc_ok(tmax),
        sc_ok(cmin),
        sc_ok(cmax),
        !qlt(cmin, cmax),
        lo_src == -1 ==> cmin == tmin,
        lo_src != -1 ==> 0 <= lo_src < 3 && nondeg(r, lo_src) && cmin == slab_lo(b, r, lo_src),
        hi_src == -1 ==> cmax == tmax,
        hi_src != -1 ==> 0 <= hi_src < 3 && nondeg(r, hi_src) && cmax == slab_hi(b, r, hi_src),
    ensures
        !hit_ok(b, r, tmin, tmax),
{
    if hit_ok(b, r, tmin, tmax) {
        if lo_src == -1 && hi_src == -1 {
            assert(qlt(tmin, tmax));
        } else if lo_src == -1 {
            assert(qlt(tmin, slab_hi(b, r, hi_src)));
        } else if hi_src == -1 {
            assert(qlt(slab_lo(b, r, lo_src), tmax));
        } else {
            assert(qlt(slab_lo(b, r, lo_src), slab_hi(b, r, hi_src)));
        }
    }
}

/// All three axes processed and the interval is still open: every lower
/// element lies strictly below every upper element.
proof fn lemma_hit_done(b: Aabb, r: Ray, tmin: Sc, tmax: Sc, cmin: Sc, cmax: Sc)
    requires
        sc_ok(tmin),
        sc_ok(tmax),
        sc_ok(cmin),
        sc_ok(cmax),
        qlt(cmin, cmax),
        qle(tmin, cmin),
        qle(cmax, tmax),
        forall|b2: int| 0 <= b2 < 3 && nondeg(r, b2) ==> qle(slab_lo(b, r, b2), cmin),
        forall|b2: int| 0 <= b2 < 3 && nondeg(r, b2) ==> qle(cmax, slab_hi(b, r, b2)),
        forall|b2: int| 0 <= b2 < 3 ==> axis_deg_ok(b, r, b2),
        forall|a: int|
            0 <= a < 3 && nondeg(r, a) ==> sc_ok(slab_lo(b, r, a)) && sc_ok(slab_hi(b, r, a)),
    ensures
        hit_ok(b, r, tmin, tmax),
{
    assert(qlt(tmin, tmax)) by {
        lemma_qle_qlt_trans(tmin, cmin, cmax);
        lemma_qlt_qle_trans(tmin, cmax, tmax);
    }
    assert forall|a: int| 0 <= a < 3 && nondeg(r, a) implies qlt(tmin, slab_hi(b, r, a)) && qlt(
        slab_lo(b, r, a),
        tmax,
    ) by {
        lemma_qle_qlt_trans(tmin, cmin, cmax);
        lemma_qlt_qle_trans(tmin, cmax, slab_hi(b, r, a));
        lemma_qle_qlt_trans(slab_lo(b, r, a), cmin, cmax);
        lemma_qlt_qle_trans(slab_lo(b, r, a), cmax, tmax);
    }
    assert forall|a1: int, a2: int|
        0 <= a1 < 3 && 0 <= a2 < 3 && nondeg(r, a1) && nondeg(r, a2) implies qlt(
        slab_lo(b, r, a1),
        slab_hi(b, r, a2),
    ) by {
        lemma_qle_qlt_trans(slab_lo(b, r, a1), cmin, cmax);
        lemma_qlt_qle_trans(slab_lo(b, r, a1), cmax, slab_hi(b, r, a2));
    }
}

/// The union of two boxes: componentwise minimum of the minima and maximum
/// of the maxima — the tight enclosing box of both.
pub fn surrounding_box(box0: Aabb, box1: Aabb) -> (r: Aabb)
    ensures
        r.minimum.x == if box0.minimum.x <= box1.minimum.x {
            box0.minimum.x
        } else {
            box1.minimum.x
        },
        r.minimum.y == if box0.minimum.y <= box1.minimum.y {
            box0.minimum.y
        } else {
            box1.minimum.y
        },
        r.minimum.z == if box0.minimum.z <= box1.minimum.z {
            box0.minimum.z
        } else {
            box1.minimum.z
        },
        r.maximum.x == if box0.maximum.x >= box1.maximum.x {
            box0.maximum.x
        } else {
            box1.maximum.x
        },
        r.maximum.y == if box0.maximum.y >= box1.maximum.y {
            box0.maximum.y
        } else {
            box1.maximum.y
        },
        r.maximum.z == if box0.maximum.z >= box1.maximum.z {
            box0.maximum.z
        } else {
            box1.maximum.z
        },
        absorbs(r, box0) && absorbs(r, box1),
{
    let small = Vec3i::new(
        if box0.minimum.x <= box1.minimum.x {
            box0.minimum.x
        } else {
            box1.minimum.x
        },
        if box0.minimum.y <= box1.minimum.y {
            box0.minimum.y
        } else {
            box1.minimum.y
        },
        if box0.minimum.z <= box1.minimum.z {
            box0.minimum.z
        } else {
            box1.minimum.z
        },
    );
    let big = Vec3i::new(
        if box0.maximum.x >= box1.maximum.x {
            box0.maximum.x
        } else {
            box1.maximum.x
        },
        if box0.maximum.y >= box1.maximum.y {
            box0.maximum.y
        } else {
            box1.maximum.y
        },
        if box0.maximum.z >= box1.maximum.z {
            box0.maximum.z
        } else {
            box1.maximum.z
        },
    );
    Aabb { minimum: small, maximum: big }
}

/// `outer` contains `inner` componentwise.
pub open spec fn absorbs(outer: Aabb, inner: Aabb) -> bool {
    forall|a: int|
        0 <= a < 3 ==> spec_axis(outer.minimum, a) <= spec_axis(inner.minimum, a) && spec_axis(
            inner.maximum,
            a,
        ) <= spec_axis(outer.maximum, a)
}

/// Containment of points transfers to the larger box.
pub proof fn lemma_point_in_absorbing(outer: Aabb, inner: Aabb, r: Ray, t: Sc)
    requires
        sc_ok(t),
        absorbs(outer, inner),
        point_in_box(inner, r, t),
    ensures
        point_in_box(outer, r, t),
{
    assert forall|a: int|
        0 <= a < 3 implies spec_axis(outer.minimum, a) * t.d <= #[trigger] at_num(r, t, a)
        <= spec_axis(outer.maximum, a) * t.d by {
        assert(spec_axis(outer.minimum, a) * t.d <= spec_axis(inner.minimum, a) * t.d)
            by (nonlinear_arith)
            requires
                spec_axis(outer.minimum, a) <= spec_axis(inner.minimum, a),
                t.d > 0,
        ;
        assert(spec_axis(inner.maximum, a) * t.d <= spec_axis(outer.maximum, a) * t.d)
            by (nonlinear_arith)
            requires
                spec_axis(inner.maximum, a) <= spec_axis(outer.maximum, a),
                t.d > 0,
        ;
    }
}

/// The heart of conservative pruning: a ray position inside the box at a
/// parameter strictly inside `(tmin, tmax)` makes the slab test succeed,
/// unless the ray grazes the box.
pub proof fn lemma_point_in_box_hit(b: Aabb, r: Ray, t: Sc, tmin: Sc, tmax: Sc)
    requires
        sc_ok(t),
        sc_ok(tmin),
        sc_ok(tmax),
        qlt(tmin, t),
        qlt(t, tmax),
        point_in_box(b, r, t),
        !box_graze(b, r),
    ensures
        hit_ok(b, r, tmin, tmax),
{
    assert forall|a: int| 0 <= a < 3 implies axis_deg_ok(b, r, a) by {
        if spec_axis(r.dir, a) == 0 {
            lemma_axis_deg(b, r, a, t);
        }
    }
    assert forall|a: int| 0 <= a < 3 && nondeg(r, a) implies qle(slab_lo(b, r, a), t) && qle(
        t,
        slab_hi(b, r, a),
    ) by {
        lemma_axis_slab_contains(b, r, a, t);
    }
    assert(qlt(tmin, tmax)) by {
        lemma_qlt_trans(tmin, t, tmax);
    }
    assert forall|a: int| 0 <= a < 3 && nondeg(r, a) implies qlt(tmin, slab_hi(b, r, a)) && qlt(
        slab_lo(b, r, a),
        tmax,
    ) by {
        lemma_sc_ok_slabs(b, r, a);
        lemma_qlt_qle_trans(tmin, t, slab_hi(b, r, a));
        lemma_qle_qlt_trans(slab_lo(b, r, a), t, tmax);
    }
    assert forall|a1: int, a2: int|
        0 <= a1 < 3 && 0 <= a2 < 3 && nondeg(r, a1) && nondeg(r, a2) implies qlt(
        slab_lo(b, r, a1),
        slab_hi(b, r, a2),
    ) by {
        lemma_sc_ok_slabs(b, r, a1);
        lemma_sc_ok_slabs(b, r, a2);
        lemma_qle_trans(slab_lo(b, r, a1), t, slab_hi(b, r, a2));
        lemma_q_total(slab_lo(b, r, a1), slab_hi(b, r, a2));
        assert(!qeq(slab_lo(b, r, a1), slab_hi(b, r, a2)));
    }
}

proof fn lemma_sc_ok_slabs(b: Aabb, r: Ray, a: int)
    requires
        nondeg(r, a),
    ensures
        sc_ok(slab_lo(b, r, a)),
        sc_ok(slab_hi(b, r, a)),
{
}

/// A degenerate axis: the fixed origin coordinate must itself lie in the slab.
proof fn lemma_axis_deg(b: Aabb, r: Ray, a: int, t: Sc)
    by (nonlinear_arith)
    requires
        sc_ok(t),
        0 <= a < 3,
        spec_axis(r.dir, a) == 0,
        spec_axis(b.minimum, a) * t.d <= at_num(r, t, a) <= spec_axis(b.maximum, a) * t.d,
    ensures
        spec_axis(b.minimum, a) <= spec_axis(r.orig, a) <= spec_axis(b.maximum, a),
{
}

/// A travelled axis: containment at `t` places `t` inside the slab interval.
proof fn lemma_axis_slab_contains(b: Aabb, r: Ray, a: int, t: Sc)
    by (nonlinear_arith)
    requires
        sc_ok(t),
        0 <= a < 3,
        nondeg(r, a),
        spec_axis(b.minimum, a) * t.d <= at_num(r, t, a) <= spec_axis(b.maximum, a) * t.d,
    ensures
        qle(slab_lo(b, r, a), t),
        qle(t, slab_hi(b, r, a)),
{
}

} // verus!
