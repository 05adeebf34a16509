use vstd::prelude::*;

use crate::rat::DEN_BOUND;
use crate::rat::NUM_BOUND;
use crate::rat::Rat;
use crate::rat::Sc;
use crate::rat::lemma_sqf_is;
use crate::rat::sqf;
use crate::rat::sqrt_floor;

verus! {

/// A linear-radiance color with exact rational channels.
#[derive(Clone, Copy, Debug)]
pub struct ColorR {
    pub r: Rat,
    pub g: Rat,
    pub b: Rat,
}

impl ColorR {
    pub open spec fn wf(self) -> bool {
        &&& self.r.wf() && self.r.bounded()
        &&& self.g.wf() && self.g.bounded()
        &&& self.b.wf() && self.b.bounded()
    }

    pub fn new(r: Rat, g: Rat, b: Rat) -> (c: ColorR)
        ensures
            c == (ColorR { r, g, b }),
    {
        ColorR { r, g, b }
    }

    pub fn black() -> (c: ColorR)
        ensures
            c.wf(),
            c.r.v() == (Sc { n: 0, d: 1 }),
            c.g.v() == (Sc { n: 0, d: 1 }),
            c.b.v() == (Sc { n: 0, d: 1 }),
            c == (ColorR { r: Rat { num: 0, den: 1 }, g: Rat { num: 0, den: 1 }, b: Rat { num: 0, den: 1 } }),
    {
        ColorR { r: Rat { num: 0, den: 1 }, g: Rat { num: 0, den: 1 }, b: Rat { num: 0, den: 1 } }
    }
}

/// Fixed gamma scale: channel square roots are taken at `2^20` steps.
pub const GAMMA_SCALE: i128 = 1048576;

/// One channel of the pixel pipeline, as a ghost value: the channel
/// `n / d` (already divided by the sample count) is gamma-corrected by the
/// floor square root at `GAMMA_SCALE`, clamped to `[0, 0.999]`, and scaled
/// by 256.
pub open spec fn process_channel(n: int, d: int) -> Sc {
    if n <= 0 {
        Sc { n: 0, d: 1 }
    } else {
        let s = sqf(n * (GAMMA_SCALE as int) * (GAMMA_SCALE as int) / d);
        if 1000 * s < 999 * (GAMMA_SCALE as int) {
            Sc { n: 256 * s, d: GAMMA_SCALE as int }
        } else {
            Sc { n: 255744int, d: 1000 }
        }
    }
}

/// Turn an accumulated pixel into an output color: replace non-finite
/// contributions by zero (here: negative exact values), divide by the
/// sample count, gamma-correct for gamma 2, clamp to `[0, 0.999]`, and
/// scale to the 8-bit range.
pub fn process_color(pixel_color: ColorR, samples_per_pixel: u32) -> (out: ColorR)
    requires
        pixel_color.wf(),
        1 <= samples_per_pixel,
    ensures
        out.wf(),
        out.r.v() == process_channel(
            pixel_color.r.num as int,
            pixel_color.r.den * samples_per_pixel,
        ),
        out.g.v() == process_channel(
            pixel_color.g.num as int,
            pixel_color.g.den * samples_per_pixel,
        ),
        out.b.v() == process_channel(
            pixel_color.b.num as int,
            pixel_color.b.den * samples_per_pixel,
        ),
{
    let r = process_one(pixel_color.r, samples_per_pixel);
    let g = process_one(pixel_color.g, samples_per_pixel);
    let b = process_one(pixel_color.b, samples_per_pixel);
    ColorR { r, g, b }
}

fn process_one(c: Rat, samples: u32) -> (out: Rat)
    requires
        c.wf(),
        c.bounded(),
        1 <= samples,
    ensures
        out.wf(),
        out.bounded(),
        out.v() == process_channel(c.num as int, c.den * samples),
{
    proof {
        crate::vec3::lemma_prod_bound2(c.den as int, samples as int, DEN_BOUND as int, 0x1_0000_0000);
        assert(0 < c.den * samples) by (nonlinear_arith)
            requires
                0 < c.den,
                0 < samples,
        ;
    }
    let d = c.den * (samples as i128);
    if c.num <= 0 {
        return Rat { num: 0, den: 1 };
    }
    proof {
        crate::vec3::lemma_prod_bound2(
            c.num as int,
            GAMMA_SCALE as int * GAMMA_SCALE as int,
            NUM_BOUND as int,
            0x100_0000_0000_0000_0000_0000,
        );
        assert(c.num * GAMMA_SCALE * GAMMA_SCALE == c.num * (GAMMA_SCALE * GAMMA_SCALE));
    }
    let scaled = c.num * GAMMA_SCALE * GAMMA_SCALE;
    let q = scaled / d;
    proof {
        // Truncating division on nonnegative operands is Euclidean division.
        assert(q == scaled as int / d as int);
        assert(0 <= q <= scaled) by (nonlinear_arith)
            requires
                q == scaled as int / d as int,
                0 < d,
                0 <= scaled,
        ;
    }
    let s = sqrt_floor(q);
    proof {
        lemma_sqf_is(q as int, s as int);
        assert(s < 0x8000_0000_0000_0000i128) by (nonlinear_arith)
            requires
                0 <= s,
                s * s <= q,
                q < 0x4000_0000_0000_0000_0000_0000_0000_0000int,
        ;
    }
    if 1000 * s < 999 * GAMMA_SCALE {
        Rat { num: 256 * s, den: GAMMA_SCALE }
    } else {
        Rat { num: 255744, den: 1000 }
    }
}

/// Radiance arithmetic runs in fixed-point: every channel is kept at the
/// denominator `COLOR_DEN` (`2^20`) and saturated at `COLOR_SAT` (`2^60`)
/// units, so products of attenuations over any recursion depth stay exact
/// machine integers.
pub const COLOR_DEN: i128 = 1048576;

pub const COLOR_SAT: i128 = 1152921504606846976;

pub open spec fn canon(r: Rat) -> bool {
    r.den == COLOR_DEN && -COLOR_SAT <= r.num <= COLOR_SAT
}

pub open spec fn canon_color(c: ColorR) -> bool {
    canon(c.r) && canon(c.g) && canon(c.b)
}

/// Saturating clamp into the canonical numerator range.
pub open spec fn spec_sat(n: int) -> int {
    if n > COLOR_SAT as int {
        COLOR_SAT as int
    } else if n < -(COLOR_SAT as int) {
        -(COLOR_SAT as int)
    } else {
        n
    }
}

fn sat(n: i128) -> (r: i128)
    ensures
        r as int == spec_sat(n as int),
{
    if n > COLOR_SAT {
        COLOR_SAT
    } else if n < -COLOR_SAT {
        -COLOR_SAT
    } else {
        n
    }
}

/// Round an exact rational into canonical fixed point.
pub open spec fn spec_canon_of(x: Sc) -> Sc {
    Sc { n: spec_sat(crate::utility::spec_tdiv(x.n * COLOR_DEN, x.d)), d: COLOR_DEN as int }
}

pub fn rat_canon(a: &Rat) -> (r: Rat)
    requires
        a.wf(),
        a.bounded(),
    ensures
        r.wf(),
        r.bounded(),
        canon(r),
        r.v() == spec_canon_of(a.v()),
{
    proof {
        crate::vec3::lemma_prod_bound2(a.num as int, COLOR_DEN as int, NUM_BOUND as int, COLOR_DEN as int);
    }
    let n = crate::utility::tdiv(a.num * COLOR_DEN, a.den);
    Rat { num: sat(n), den: COLOR_DEN }
}

pub fn color_canon(c: &ColorR) -> (r: ColorR)
    requires
        c.wf(),
    ensures
        r.wf(),
        canon_color(r),
        r.r.v() == spec_canon_of(c.r.v()),
        r.g.v() == spec_canon_of(c.g.v()),
        r.b.v() == spec_canon_of(c.b.v()),
{
    ColorR { r: rat_canon(&c.r), g: rat_canon(&c.g), b: rat_canon(&c.b) }
}

/// Canonical product: `(a * b)` rounded back to `COLOR_DEN`.
pub open spec fn spec_cmul(a: int, b: int) -> int {
    spec_sat(crate::utility::spec_tdiv(a * b, COLOR_DEN as int))
}

fn chan_mul(a: &Rat, b: &Rat) -> (r: Rat)
    requires
        canon(*a),
        canon(*b),
    ensures
        canon(r),
        r.wf(),
        r.bounded(),
        r.num as int == spec_cmul(a.num as int, b.num as int),
{
    proof {
        crate::vec3::lemma_prod_bound2(a.num as int, b.num as int, COLOR_SAT as int, COLOR_SAT as int);
    }
    let n = crate::utility::tdiv(a.num * b.num, COLOR_DEN);
    Rat { num: sat(n), den: COLOR_DEN }
}

pub fn color_mul(a: &ColorR, b: &ColorR) -> (r: ColorR)
    requires
        canon_color(*a),
        canon_color(*b),
    ensures
        canon_color(r),
        r.wf(),
        r.r.num as int == spec_cmul(a.r.num as int, b.r.num as int),
        r.g.num as int == spec_cmul(a.g.num as int, b.g.num as int),
        r.b.num as int == spec_cmul(a.b.num as int, b.b.num as int),
{
    ColorR { r: chan_mul(&a.r, &b.r), g: chan_mul(&a.g, &b.g), b: chan_mul(&a.b, &b.b) }
}

/// Canonical saturating sum.
pub open spec fn spec_cadd(a: int, b: int) -> int {
    spec_sat(a + b)
}

fn chan_add(a: &Rat, b: &Rat) -> (r: Rat)
    requires
        canon(*a),
        canon(*b),
    ensures
        canon(r),
        r.wf(),
        r.bounded(),
        r.num as int == spec_cadd(a.num as int, b.num as int),
{
    Rat { num: sat(a.num + b.num), den: COLOR_DEN }
}

pub fn color_add(a: &ColorR, b: &ColorR) -> (r: ColorR)
    requires
        canon_color(*a),
        canon_color(*b),
    ensures
        canon_color(r),
        r.wf(),
        r.r.num as int == spec_cadd(a.r.num as int, b.r.num as int),
        r.g.num as int == spec_cadd(a.g.num as int, b.g.num as int),
        r.b.num as int == spec_cadd(a.b.num as int, b.b.num as int),
{
    ColorR { r: chan_add(&a.r, &b.r), g: chan_add(&a.g, &b.g), b: chan_add(&a.b, &b.b) }
}

/// Scale a canonical color by a canonical factor.
pub fn color_scale(c: &ColorR, w: &Rat) -> (r: ColorR)
    requires
        canon_color(*c),
        canon(*w),
    ensures
        canon_color(r),
        r.wf(),
        r.r.num as int == spec_cmul(c.r.num as int, w.num as int),
        r.g.num as int == spec_cmul(c.g.num as int, w.num as int),
        r.b.num as int == spec_cmul(c.b.num as int, w.num as int),
{
    ColorR { r: chan_mul(&c.r, w), g: chan_mul(&c.g, w), b: chan_mul(&c.b, w) }
}

/// The canonical ratio `a / b` of two positive bounded rationals.
pub fn rat_div_canon(a: &Rat, b: &Rat) -> (r: Rat)
    requires
        canon(*a),
        canon(*b),
        b.num > 0,
    ensures
        canon(r),
        r.wf(),
        r.bounded(),
        r.num as int == spec_sat(
            crate::utility::spec_tdiv(a.num * b.den * COLOR_DEN, a.den * b.num),
        ),
{
    proof {
        crate::vec3::lemma_prod_bound2(a.num as int, b.den as int, COLOR_SAT as int, COLOR_DEN as int);
        crate::vec3::lemma_prod_bound2(
            a.num as int * b.den as int,
            COLOR_DEN as int,
            0x1_0000_0000_0000_0000_0000,
            COLOR_DEN as int,
        );
        crate::vec3::lemma_prod_bound2(a.den as int, b.num as int, COLOR_DEN as int, COLOR_SAT as int);
        assert(0 < a.den * b.num) by (nonlinear_arith)
            requires
                0 < a.den,
                0 < b.num,
        ;
    }
    let n = crate::utility::tdiv(a.num * b.den * COLOR_DEN, a.den * b.num);
    Rat { num: sat(n), den: COLOR_DEN }
}

/// Canonical rounding depends only on the rational's value, not on its
/// representation.
pub proof fn lemma_canon_value(a: Sc, b: Sc)
    requires
        crate::rat::sc_ok(a),
        crate::rat::sc_ok(b),
        crate::rat::qeq(a, b),
    ensures
        spec_canon_of(a) == spec_canon_of(b),
{
    assert(a.n * COLOR_DEN * b.d == b.n * COLOR_DEN * a.d) by (nonlinear_arith)
        requires
            a.n * b.d == b.n * a.d,
    ;
    lemma_tdiv_value(a.n * COLOR_DEN, a.d, b.n * COLOR_DEN, b.d);
}

/// Truncating division of cross-equal fractions gives equal quotients.
proof fn lemma_tdiv_value(an: int, ad: int, bn: int, bd: int)
    requires
        0 < ad,
        0 < bd,
        an * bd == bn * ad,
    ensures
        crate::utility::spec_tdiv(an, ad) == crate::utility::spec_tdiv(bn, bd),
    decreases 0int,
{
    if an >= 0 {
        assert(bn >= 0) by (nonlinear_arith)
            requires
                an * bd == bn * ad,
                0 < ad,
                0 < bd,
                an >= 0,
        ;
        lemma_floor_value(an, ad, bn, bd);
    } else {
        assert(bn < 0) by (nonlinear_arith)
            requires
                an * bd == bn * ad,
                0 < ad,
                0 < bd,
                an < 0,
        ;
        assert((-an) * bd == (-bn) * ad) by (nonlinear_arith)
            requires
                an * bd == bn * ad,
        ;
        lemma_floor_value(-an, ad, -bn, bd);
    }
}

/// Euclidean division of cross-equal nonnegative fractions gives equal
/// quotients.
proof fn lemma_floor_value(an: int, ad: int, bn: int, bd: int)
    requires
        0 <= an,
        0 <= bn,
        0 < ad,
        0 < bd,
        an * bd == bn * ad,
    ensures
        an / ad == bn / bd,
{
    let q = an / ad;
    let r = an % ad;
    vstd::arithmetic::div_mod::lemma_fundamental_div_mod(an, ad);
    vstd::arithmetic::div_mod::lemma_mod_bound(an, ad);
    // bn * ad == an * bd == (q ad + r) bd, so bn == q bd + r bd / ad with
    // the remainder scaled into [0, bd ad).
    assert(bn * ad == q * (bd * ad) + r * bd) by (nonlinear_arith)
        requires
            an == q * ad + r,
            an * bd == bn * ad,
    ;
    assert(0 <= r * bd < bd * ad) by (nonlinear_arith)
        requires
            0 <= r < ad,
            0 < bd,
    ;
    assert(0 < bd * ad) by (nonlinear_arith)
        requires
            0 < bd,
            0 < ad,
    ;
    vstd::arithmetic::div_mod::lemma_fundamental_div_mod_converse(bn * ad, bd * ad, q, r * bd);
    lemma_div_multiple_cancel(bn, bd, ad);
}

/// Averaging cancels accumulation: a pixel holding `n` identical samples of
/// a color, processed with `n` as the sample count, equals the single
/// sample processed alone — the division by `n` and the `n`-fold sum cancel
/// exactly, before the (representation-independent) root and clamp.
pub proof fn lemma_process_color_sample_invariant(cn: int, cd: int, n: int)
    requires
        0 < cd,
        0 < n,
    ensures
        process_channel(cn * n, cd * n) == process_channel(cn, cd),
{
    if cn <= 0 {
        assert(cn * n <= 0) by (nonlinear_arith)
            requires
                cn <= 0,
                0 < n,
        ;
    } else {
        assert(cn * n > 0) by (nonlinear_arith)
            requires
                cn > 0,
                0 < n,
        ;
        let g = GAMMA_SCALE as int;
        assert((cn * n) * g * g == (cn * g * g) * n) by (nonlinear_arith);
        assert(0 < cd * n) by (nonlinear_arith)
            requires
                0 < cd,
                0 < n,
        ;
        lemma_div_multiple_cancel(cn * g * g, cd, n);
    }
}

/// `(a n) / (b n) == a / b` for positive `b`, `n` (Euclidean division).
proof fn lemma_div_multiple_cancel(a: int, b: int, n: int)
    requires
        0 <= a,
        0 < b,
        0 < n,
    ensures
        (a * n) / (b * n) == a / b,
{
    let q = a / b;
    let r = a % b;
    vstd::arithmetic::div_mod::lemma_fundamental_div_mod(a, b);
    assert(a == q * b + r);
    assert(0 <= r < b) by {
        vstd::arithmetic::div_mod::lemma_mod_bound(a, b);
    }
    assert(a * n == q * (b * n) + r * n) by (nonlinear_arith)
        requires
            a == q * b + r,
    ;
    assert(0 <= r * n < b * n) by (nonlinear_arith)
        requires
            0 <= r < b,
            0 < n,
    ;
    assert(0 < b * n) by (nonlinear_arith)
        requires
            0 < b,
            0 < n,
    ;
    vstd::arithmetic::div_mod::lemma_fundamental_div_mod_converse(a * n, b * n, q, r * n);
}

} // verus!
