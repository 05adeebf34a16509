use vstd::prelude::*;
use vstd::pervasive::VecAdditionalExecFns;

use crate::aabb::Aabb;
use crate::aabb::surrounding_box;
use crate::hittable::BOX_CORE;
use crate::hittable::HitModel;
use crate::hittable::MAX_WRAP;
use crate::hittable::leaves;
use crate::hittable::lemma_sbbox_in;
use crate::hittable::lemma_wf_tdepth;
use crate::hittable::list_wf;
use crate::ray::GEOM_BOUND;
use crate::rng::Prng;
use crate::vec3::Vec3i;
use crate::vec3::spec_axis;
use crate::vec3::v_in;

verus! {

/// An interior node of the bounding-volume hierarchy: two children and the
/// cached box enclosing both.  Built once per scene, then traversed
/// read-only.
#[derive(Debug)]
pub struct BVHNode {
    pub left: Box<HitModel>,
    pub right: Box<HitModel>,
    pub bbox: Aabb,
}

/// Sorting key: the minimum corner of the primitive's box along an axis.
pub open spec fn box_key(m: HitModel, axis: int) -> int {
    spec_axis(m.s_bbox().minimum, axis)
}

fn key_of(m: &HitModel, axis: usize) -> (r: i64)
    requires
        m.wf(),
        axis < 3,
    ensures
        r as int == box_key(*m, axis as int),
{
    proof {
        lemma_sbbox_in(*m);
    }
    let b = m.bounding_box(0, 0);
    match b {
        Some(bb) => bb.min().axis(axis),
        None => {
            proof {
                assert(false);
            }
            0
        },
    }
}

/// Concatenation membership, for any element type.
pub proof fn lemma_concat_contains_gen<T>(s1: Seq<T>, s2: Seq<T>, x: T)
    ensures
        (s1 + s2).contains(x) <==> (s1.contains(x) || s2.contains(x)),
{
    if s1.contains(x) {
        let i = choose|i: int| 0 <= i < s1.len() && s1[i] == x;
        assert((s1 + s2)[i] == x);
    }
    if s2.contains(x) {
        let i = choose|i: int| 0 <= i < s2.len() && s2[i] == x;
        assert((s1 + s2)[s1.len() + i] == x);
    }
    if (s1 + s2).contains(x) {
        let i = choose|i: int| 0 <= i < (s1 + s2).len() && (s1 + s2)[i] == x;
        if i < s1.len() {
            assert(s1[i] == x);
        } else {
            assert(s2[i - s1.len()] == x);
        }
    }
}

/// Exchanging two positions keeps the members of a sequence.
pub proof fn lemma_swap_contains<T>(s: Seq<T>, s2: Seq<T>, i: int, j: int)
    requires
        0 <= i < s.len(),
        0 <= j < s.len(),
        s2 == s.update(i, s[j]).update(j, s[i]),
    ensures
        forall|x: T| s.contains(x) <==> s2.contains(x),
{
    assert(s2.len() == s.len());
    assert forall|x: T| s.contains(x) implies s2.contains(x) by {
        let k = choose|k: int| 0 <= k < s.len() && s[k] == x;
        if k == i {
            assert(s2[j] == x);
        } else if k == j {
            assert(s2[i] == x);
        } else {
            assert(s2[k] == x);
        }
    }
    assert forall|x: T| s2.contains(x) implies s.contains(x) by {
        let k = choose|k: int| 0 <= k < s2.len() && s2[k] == x;
        if k == i {
            assert(s[j] == x);
        } else if k == j {
            assert(s[i] == x);
        } else {
            assert(s[k] == x);
        }
    }
}

/// Overwriting one position exchanges its old element for the new one in
/// the multiset.
proof fn lemma_update_multiset<T>(s: Seq<T>, k: int, v: T)
    requires
        0 <= k < s.len(),
    ensures
        s.update(k, v).to_multiset() =~= s.to_multiset().remove(s[k]).insert(v),
{
    broadcast use vstd::seq_lib::group_to_multiset_ensures;
    broadcast use vstd::multiset::group_multiset_axioms;

    let s2 = s.update(k, v);
    assert(s.remove(k) =~= s2.remove(k));
    assert(s2[k] == v);
    assert(s2.contains(v));
    assert(s2.to_multiset().count(v) > 0);
    assert(s2.to_multiset().remove(v) =~= s.to_multiset().remove(s[k]));
    assert(s2.to_multiset() =~= s2.to_multiset().remove(v).insert(v));
}

/// Exchanging two positions keeps the multiset of a sequence.
proof fn lemma_swap_multiset<T>(s: Seq<T>, s2: Seq<T>, i: int, j: int)
    requires
        0 <= i < s.len(),
        0 <= j < s.len(),
        i != j,
        s2 == s.update(i, s[j]).update(j, s[i]),
    ensures
        s2.to_multiset() =~= s.to_multiset(),
{
    broadcast use vstd::seq_lib::group_to_multiset_ensures;
    broadcast use vstd::multiset::group_multiset_axioms;

    let a = s[i];
    let b = s[j];
    let m = s.update(i, b);
    lemma_update_multiset(s, i, b);
    assert(m[j] == b);
    lemma_update_multiset(m, j, a);
    assert(s.to_multiset().count(a) > 0) by {
        assert(s.contains(a));
    }
    assert(m.to_multiset().count(b) > 0) by {
        assert(m.contains(b));
    }
    assert(s2.to_multiset() =~= s.to_multiset());
}

/// Insertion sort of `objects[start..end]` by box minimum along `axis`:
/// the range ends sorted, keeps exactly its members, and nothing outside
/// the range moves.
fn sort_range(objects: &mut Vec<HitModel>, start: usize, end: usize, axis: usize)
    requires
        axis < 3,
        start <= end <= old(objects).len(),
        list_wf(old(objects)@),
    ensures
        final(objects)@.len() == old(objects)@.len(),
        list_wf(final(objects)@),
        forall|k: int|
            0 <= k < old(objects)@.len() && !(start <= k < end) ==> final(objects)@[k] == old(
                objects,
            )@[k],
        forall|x: HitModel|
            final(objects)@.subrange(start as int, end as int).contains(x) <==> old(
                objects,
            )@.subrange(start as int, end as int).contains(x),
        final(objects)@.subrange(start as int, end as int).to_multiset() == old(
            objects,
        )@.subrange(start as int, end as int).to_multiset(),
        forall|a: int, b: int|
            start <= a <= b < end ==> box_key(final(objects)@[a], axis as int) <= box_key(
                final(objects)@[b],
                axis as int,
            ),
{
    if end - start <= 1 {
        return ;
    }
    let mut i: usize = start + 1;
    while i < end
        invariant
            axis < 3,
            start + 1 <= i <= end <= objects.len(),
            objects@.len() == old(objects)@.len(),
            list_wf(objects@),
            forall|k: int|
                0 <= k < old(objects)@.len() && !(start <= k < end) ==> objects@[k] == old(
                    objects,
                )@[k],
            forall|x: HitModel|
                objects@.subrange(start as int, end as int).contains(x) <==> old(
                    objects,
                )@.subrange(start as int, end as int).contains(x),
            objects@.subrange(start as int, end as int).to_multiset() == old(objects)@.subrange(
                start as int,
                end as int,
            ).to_multiset(),
            forall|a: int, b: int|
                start <= a <= b < i ==> box_key(objects@[a], axis as int) <= box_key(
                    objects@[b],
                    axis as int,
                ),
        decreases end - i,
    {
        let mut j: usize = i;
        loop
            invariant_except_break
                axis < 3,
                start <= j <= i < end <= objects.len(),
                objects@.len() == old(objects)@.len(),
                list_wf(objects@),
                forall|k: int|
                    0 <= k < old(objects)@.len() && !(start <= k < end) ==> objects@[k] == old(
                        objects,
                    )@[k],
                forall|x: HitModel|
                    objects@.subrange(start as int, end as int).contains(x) <==> old(
                        objects,
                    )@.subrange(start as int, end as int).contains(x),
                objects@.subrange(start as int, end as int).to_multiset() == old(
                    objects,
                )@.subrange(start as int, end as int).to_multiset(),
                forall|a: int, b: int|
                    start <= a <= b <= i && a != j && b != j ==> box_key(objects@[a], axis as int)
                        <= box_key(objects@[b], axis as int),
                forall|b: int|
                    j < b <= i ==> box_key(objects@[j as int], axis as int) <= box_key(
                        objects@[b],
                        axis as int,
                    ),
            ensures
                i < end <= objects.len(),
                objects@.len() == old(objects)@.len(),
                list_wf(objects@),
                forall|k: int|
                    0 <= k < old(objects)@.len() && !(start <= k < end) ==> objects@[k] == old(
                        objects,
                    )@[k],
                forall|x: HitModel|
                    objects@.subrange(start as int, end as int).contains(x) <==> old(
                        objects,
                    )@.subrange(start as int, end as int).contains(x),
                objects@.subrange(start as int, end as int).to_multiset() == old(
                    objects,
                )@.subrange(start as int, end as int).to_multiset(),
                forall|a: int, b: int|
                    start <= a <= b <= i ==> box_key(objects@[a], axis as int) <= box_key(
                        objects@[b],
                        axis as int,
                    ),
            decreases j,
        {
            if j == start {
                proof {
                    lemma_sorted_after_insert(objects@, start as int, i as int, j as int, axis as int);
                }
                break ;
            }
            let kl = key_of(&objects[j - 1], axis);
            let kr = key_of(&objects[j], axis);
            if kl <= kr {
                proof {
                    lemma_sorted_after_insert(objects@, start as int, i as int, j as int, axis as int);
                }
                break ;
            }
            let ghost prev = objects@;
            let xa = objects[j - 1].dup();
            let xb = objects[j].dup();
            objects.set(j - 1, xb);
            objects.set(j, xa);
            proof {
                lemma_swap_contains(prev, objects@, j - 1, j as int);
                assert(objects@.subrange(start as int, end as int) =~= prev.subrange(
                    start as int,
                    end as int,
                ).update(j - 1 - start, prev[j as int]).update(j - start, prev[j - 1]));
                lemma_swap_contains(
                    prev.subrange(start as int, end as int),
                    objects@.subrange(start as int, end as int),
                    j - 1 - start,
                    j - start,
                );
                lemma_swap_multiset(
                    prev.subrange(start as int, end as int),
                    objects@.subrange(start as int, end as int),
                    j - 1 - start,
                    j - start,
                );
            }
            j = j - 1;
        }
        i = i + 1;
    }
}

/// When the displaced element comes to rest, the whole prefix is sorted.
proof fn lemma_sorted_after_insert(s: Seq<HitModel>, start: int, i: int, j: int, axis: int)
    requires
        0 <= start <= j <= i < s.len(),
        forall|a: int, b: int|
            start <= a <= b <= i && a != j && b != j ==> box_key(#[trigger] s[a], axis)
                <= box_key(#[trigger] s[b], axis),
        forall|b: int| j < b <= i ==> box_key(s[j], axis) <= box_key(#[trigger] s[b], axis),
        j == start || box_key(s[j - 1], axis) <= box_key(s[j], axis),
    ensures
        forall|a: int, b: int|
            start <= a <= b <= i ==> box_key(#[trigger] s[a], axis) <= box_key(
                #[trigger] s[b],
                axis,
            ),
{
    assert forall|a: int, b: int|
        start <= a <= b <= i implies box_key(#[trigger] s[a], axis) <= box_key(
        #[trigger] s[b],
        axis,
    ) by {
        if a == b {
        } else if a == j {
            // b > j: directly below everything it passed.
        } else if b == j {
            // a < j, so the exit condition bridges through j - 1.
            assert(j > start);
            if a < j - 1 {
                assert(box_key(s[a], axis) <= box_key(s[j - 1], axis));
            }
        } else {
        }
    }
}

proof fn lemma_singleton_contains<T>(v: T, x: T)
    ensures
        seq![v].contains(x) <==> x == v,
{
    if x == v {
        assert(seq![v][0] == v);
    }
    if seq![v].contains(x) {
        let i = choose|i: int| 0 <= i < 1 && seq![v][i] == x;
        assert(seq![v][0] == v);
    }
}

proof fn lemma_pair_contains<T>(a: T, b: T, x: T)
    ensures
        seq![a, b].contains(x) <==> (x == a || x == b),
{
    if x == a {
        assert(seq![a, b][0] == a);
    }
    if x == b {
        assert(seq![a, b][1] == b);
    }
    if seq![a, b].contains(x) {
        let i = choose|i: int| 0 <= i < 2 && seq![a, b][i] == x;
        if i == 0 {
            assert(seq![a, b][0] == a);
        } else {
            assert(seq![a, b][1] == b);
        }
    }
}

/// Whether a primitive is itself an interior node of a hierarchy.
pub open spec fn is_interior(m: HitModel) -> bool {
    m is BVH
}

impl BVHNode {
    /// Build a hierarchy over `objects[start..end]`: pick a split axis at
    /// random, order the range by box minimum along it, split at the
    /// median, and recurse; a single element becomes both children of a
    /// degenerate leaf node, a pair is ordered directly.  The node's box is
    /// the union of the children's.
    #[verifier::rlimit(80)]
    pub fn new(
        objects: &mut Vec<HitModel>,
        start: usize,
        end: usize,
        t0: i64,
        t1: i64,
        rng: &mut Prng,
    ) -> (node: BVHNode)
        requires
            start < end <= old(objects).len(),
            list_wf(old(objects)@),
            forall|k: int| start <= k < end ==> !is_interior(old(objects)@[k]),
        ensures
            final(objects)@.len() == old(objects)@.len(),
            list_wf(final(objects)@),
            forall|k: int|
                0 <= k < old(objects)@.len() && !(start <= k < end) ==> final(objects)@[k] == old(
                    objects,
                )@[k],
            forall|x: HitModel|
                final(objects)@.subrange(start as int, end as int).contains(x) <==> old(
                    objects,
                )@.subrange(start as int, end as int).contains(x),
            // The range holds the same primitives with the same counts: the
            // build only permutes it.
            final(objects)@.subrange(start as int, end as int).to_multiset() == old(
                objects,
            )@.subrange(start as int, end as int).to_multiset(),
            forall|k: int| start <= k < end ==> !is_interior(final(objects)@[k]),
            (HitModel::BVH(node)).wf(),
            forall|x: HitModel|
                leaves(HitModel::BVH(node)).contains(x) <==> old(objects)@.subrange(
                    start as int,
                    end as int,
                ).contains(x),
            // The node's box is the exact union of the children's boxes.
            forall|ax: int|
                0 <= ax < 3 ==> #[trigger] spec_axis(node.bbox.minimum, ax) == if spec_axis(
                    node.left.s_bbox().minimum,
                    ax,
                ) <= spec_axis(node.right.s_bbox().minimum, ax) {
                    spec_axis(node.left.s_bbox().minimum, ax)
                } else {
                    spec_axis(node.right.s_bbox().minimum, ax)
                },
            forall|ax: int|
                0 <= ax < 3 ==> #[trigger] spec_axis(node.bbox.maximum, ax) == if spec_axis(
                    node.left.s_bbox().maximum,
                    ax,
                ) >= spec_axis(node.right.s_bbox().maximum, ax) {
                    spec_axis(node.left.s_bbox().maximum, ax)
                } else {
                    spec_axis(node.right.s_bbox().maximum, ax)
                },
            // A single element becomes both children of a degenerate leaf.
            end - start == 1 ==> *node.left == old(objects)@[start as int] && *node.right == old(
                objects,
            )@[start as int],
        decreases end - start,
    {
        let axis = rng.next_below(3) as usize;
        let span = end - start;
        let left: HitModel;
        let right: HitModel;
        if span == 1 {
            left = objects[start].dup();
            right = objects[start].dup();
            proof {
                assert(objects@.subrange(start as int, end as int) =~= seq![
                    objects@[start as int],
                ]);
                assert(leaves(left) =~= seq![left]);
            }
        } else if span == 2 {
            let ka = key_of(&objects[start], axis);
            let kb = key_of(&objects[start + 1], axis);
            if ka < kb {
                left = objects[start].dup();
                right = objects[start + 1].dup();
            } else {
                left = objects[start + 1].dup();
                right = objects[start].dup();
            }
            proof {
                let sub = objects@.subrange(start as int, end as int);
                assert(sub =~= seq![objects@[start as int], objects@[start as int + 1]]);
            }
        } else {
            sort_range(objects, start, end, axis);
            let mid = start + span / 2;
            let ghost sorted = objects@;
            proof {
                assert forall|k: int| start <= k < end implies !is_interior(sorted[k]) by {
                    let sub = sorted.subrange(start as int, end as int);
                    assert(sub[k - start] == sorted[k]);
                    assert(sub.contains(sorted[k]));
                    assert(old(objects)@.subrange(start as int, end as int).contains(sorted[k]));
                    let jj = choose|jj: int|
                        0 <= jj < end - start && old(objects)@.subrange(start as int, end as int)[jj]
                            == sorted[k];
                    assert(old(objects)@[start + jj] == sorted[k]);
                }
            }
            let lnode = BVHNode::new(objects, start, mid, t0, t1, rng);
            let ghost after_left = objects@;
            proof {
                assert forall|k: int| mid <= k < end implies !is_interior(after_left[k]) by {
                    assert(after_left[k] == sorted[k]);
                }
            }
            let rnode = BVHNode::new(objects, mid, end, t0, t1, rng);
            left = HitModel::BVH(lnode);
            right = HitModel::BVH(rnode);
            proof {
                // The right half was untouched by the left build.
                assert(after_left.subrange(mid as int, end as int) =~= sorted.subrange(
                    mid as int,
                    end as int,
                ));
                assert forall|x: HitModel|
                    leaves(left).contains(x) || leaves(right).contains(x) <==> old(
                        objects,
                    )@.subrange(start as int, end as int).contains(x) by {
                    assert(sorted.subrange(start as int, end as int) =~= sorted.subrange(
                        start as int,
                        mid as int,
                    ) + sorted.subrange(mid as int, end as int));
                    lemma_concat_contains_gen(
                        sorted.subrange(start as int, mid as int),
                        sorted.subrange(mid as int, end as int),
                        x,
                    );
                }
                // The finished range holds the same members as before.
                assert(objects@.subrange(start as int, mid as int) =~= after_left.subrange(
                    start as int,
                    mid as int,
                ));
                assert forall|x: HitModel|
                    objects@.subrange(start as int, end as int).contains(x) <==> old(
                        objects,
                    )@.subrange(start as int, end as int).contains(x) by {
                    assert(objects@.subrange(start as int, end as int) =~= objects@.subrange(
                        start as int,
                        mid as int,
                    ) + objects@.subrange(mid as int, end as int));
                    assert(sorted.subrange(start as int, end as int) =~= sorted.subrange(
                        start as int,
                        mid as int,
                    ) + sorted.subrange(mid as int, end as int));
                    lemma_concat_contains_gen(
                        objects@.subrange(start as int, mid as int),
                        objects@.subrange(mid as int, end as int),
                        x,
                    );
                    lemma_concat_contains_gen(
                        sorted.subrange(start as int, mid as int),
                        sorted.subrange(mid as int, end as int),
                        x,
                    );
                }
                // The range's multiset is carried through both halves.
                assert(objects@.subrange(start as int, end as int).to_multiset() == old(
                    objects,
                )@.subrange(start as int, end as int).to_multiset()) by {
                    vstd::seq_lib::lemma_multiset_commutative(
                        objects@.subrange(start as int, mid as int),
                        objects@.subrange(mid as int, end as int),
                    );
                    vstd::seq_lib::lemma_multiset_commutative(
                        sorted.subrange(start as int, mid as int),
                        sorted.subrange(mid as int, end as int),
                    );
                    assert(objects@.subrange(start as int, end as int) =~= objects@.subrange(
                        start as int,
                        mid as int,
                    ) + objects@.subrange(mid as int, end as int));
                    assert(sorted.subrange(start as int, end as int) =~= sorted.subrange(
                        start as int,
                        mid as int,
                    ) + sorted.subrange(mid as int, end as int));
                    assert(objects@.subrange(start as int, mid as int) == after_left.subrange(
                        start as int,
                        mid as int,
                    ));
                    assert(after_left.subrange(mid as int, end as int) == sorted.subrange(
                        mid as int,
                        end as int,
                    ));
                }
                // Members stayed non-interior throughout.
                assert forall|k: int| start <= k < end implies !is_interior(objects@[k]) by {
                    let sub = objects@.subrange(start as int, end as int);
                    assert(sub[k - start] == objects@[k]);
                    assert(sub.contains(objects@[k]));
                    assert(old(objects)@.subrange(start as int, end as int).contains(
                        objects@[k],
                    ));
                    let jj = choose|jj: int|
                        0 <= jj < end - start && old(objects)@.subrange(start as int, end as int)[jj]
                            == objects@[k];
                    assert(old(objects)@[start + jj] == objects@[k]);
                }
            }
        }
        let lb = match left.bounding_box(t0, t1) {
            Some(b) => b,
            None => {
                proof {
                    assert(false);
                }
                Aabb::new(Vec3i::new(0, 0, 0), Vec3i::new(0, 0, 0))
            },
        };
        let rb = match right.bounding_box(t0, t1) {
            Some(b) => b,
            None => {
                proof {
                    assert(false);
                }
                Aabb::new(Vec3i::new(0, 0, 0), Vec3i::new(0, 0, 0))
            },
        };
        let bbox = surrounding_box(lb, rb);
        let node = BVHNode { left: Box::new(left), right: Box::new(right), bbox };
        proof {
            let node_m = HitModel::BVH(node);
            lemma_wf_tdepth(*node.left);
            lemma_wf_tdepth(*node.right);
            lemma_sbbox_in(*node.left);
            lemma_sbbox_in(*node.right);
            let d = node_m.tdepth();
            assert(GEOM_BOUND as int * node.left.tdepth() <= GEOM_BOUND as int * d)
                by (nonlinear_arith)
                requires
                    node.left.tdepth() <= d,
            ;
            assert(GEOM_BOUND as int * node.right.tdepth() <= GEOM_BOUND as int * d)
                by (nonlinear_arith)
                requires
                    node.right.tdepth() <= d,
            ;
            assert(GEOM_BOUND as int * d <= GEOM_BOUND as int * MAX_WRAP) by (nonlinear_arith)
                requires
                    d <= MAX_WRAP,
            ;
            assert(node_m.wf());
            assert(leaves(node_m) == leaves(left) + leaves(right));
            assert forall|x: HitModel| leaves(node_m).contains(x) <==> old(objects)@.subrange(
                start as int,
                end as int,
            ).contains(x) by {
                lemma_concat_contains_gen(leaves(left), leaves(right), x);
                if span == 1 {
                    assert(leaves(left) =~= seq![left]);
                    assert(leaves(right) =~= seq![right]);
                    lemma_singleton_contains(left, x);
                    lemma_singleton_contains(right, x);
                    let sub = old(objects)@.subrange(start as int, end as int);
                    assert(sub =~= seq![old(objects)@[start as int]]);
                    lemma_singleton_contains(old(objects)@[start as int], x);
                } else if span == 2 {
                    assert(leaves(left) =~= seq![left]);
                    assert(leaves(right) =~= seq![right]);
                    lemma_singleton_contains(left, x);
                    lemma_singleton_contains(right, x);
                    let sub = old(objects)@.subrange(start as int, end as int);
                    assert(sub =~= seq![
                        old(objects)@[start as int],
                        old(objects)@[start as int + 1],
                    ]);
                    lemma_pair_contains(
                        old(objects)@[start as int],
                        old(objects)@[start as int + 1],
                        x,
                    );
                }
            }
        }
        node
    }
}

} // verus!
