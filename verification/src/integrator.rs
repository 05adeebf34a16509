use vstd::prelude::*;

use crate::color::COLOR_DEN;
use crate::color::ColorR;
use crate::color::canon_color;
use crate::color::color_add;
use crate::color::color_mul;
use crate::color::color_scale;
use crate::color::rat_canon;
use crate::color::rat_div_canon;
use crate::hittable::HittableList;
use crate::pdf::PDF;
use crate::pdf::UniformPDF;
use crate::pdf::mixture_value;
use crate::rat::Rat;
use crate::ray::DIR_BOUND;
use crate::ray::ORIGIN_BOUND;
use crate::ray::Ray;
use crate::rng::Prng;
use crate::texture::PixelBuffer;
use crate::utility::rat_dir;
use crate::utility::round_point;
use crate::vec3::v_in;

verus! {

/// The Monte-Carlo light-transport estimator.  Per ray: stop dark at the
/// depth limit; missing the scene yields the background; otherwise add the
/// hit material's emission and, if the material scatters, either follow a
/// specular bounce directly or sample the half-and-half mixture of light
/// sampling and the material's own density, weighting the recursion by
/// `scattering_pdf / mixture_pdf`.  A zero mixture density is guarded by
/// returning the emitted term alone.
/// Shade one hit of the world: the emitted term plus, if the material
/// scatters, either the specular recursion or the mixture-sampled diffuse
/// bounce weighted by `scattering_pdf / mixture density` (a zero density
/// keeps only the emission).  Factored out of `ray_color` so the per-path
/// behavior is stated over the hit record; the recursive calls' values
/// cannot appear in an `ensures` (spec code cannot call the executable
/// estimator), so the path combinations are pinned through the exactly
/// specified `emit`, `scatter`, `scattering_pdf`, `mixture_value` and the
/// canonical color arithmetic they feed.
pub fn shade(
    r: &Ray,
    rec: &crate::hittable::HitRecord,
    background: &ColorR,
    world: &HittableList,
    lights: &HittableList,
    depth: u32,
    images: &Vec<PixelBuffer>,
    rng: &mut Prng,
) -> (out: ColorR)
    requires
        world.wf(),
        lights.wf(),
        lights.objects.len() < 0x100_0000,
        canon_color(*background),
        rec.wf(),
        v_in(r.dir, DIR_BOUND as int),
        !(r.dir.x == 0 && r.dir.y == 0 && r.dir.z == 0),
        r.time.wf(),
        r.time.bounded(),
        depth >= 1,
    ensures
        out.wf(),
        canon_color(out),
        // A light never scatters: the result is exactly its emission
        // (absorption returns the emitted term only).
        rec.material is DiffuseLight ==> out == crate::material::spec_emit(*rec, images@),
    decreases depth, 0int,
{
    let emitted = rec.material.emit(rec, images);
    match rec.material.scatter(r, rec, images, rng) {
        None => emitted,
        Some(srec) => {
            if srec.is_specular {
                match srec.specular_ray {
                    Some(sr) => {
                        let lc = ray_color(&sr, background, world, lights, depth - 1, images, rng);
                        color_mul(&srec.attenuation, &lc)
                    },
                    None => emitted,
                }
            } else {
                let origin = round_point(&rec.p);
                let p1 = match srec.pdf {
                    Some(p) => p,
                    None => {
                        // Uniform-hemisphere fallback for materials without
                        // a density of their own.
                        PDF::Uniform(UniformPDF::new(&rat_dir(&rec.normal)))
                    },
                };
                let coin = rng.next_below(2);
                let dir = if coin == 0 {
                    lights.random(&origin, rng)
                } else {
                    p1.generate(rng)
                };
                let scattered = Ray::new(origin, dir, r.time);
                let pvc = rat_canon(&mixture_value(lights, &p1, &origin, &dir));
                if pvc.num <= 0 {
                    // Zero-density guard: keep only the emission.
                    return emitted;
                }
                let spdf = rec.material.scattering_pdf(r, rec, &scattered);
                if spdf.num <= 0 {
                    return emitted;
                }
                let lc = ray_color(&scattered, background, world, lights, depth - 1, images, rng);
                let weight = rat_div_canon(&rat_canon(&spdf), &pvc);
                let bounce = color_scale(&color_mul(&srec.attenuation, &lc), &weight);
                color_add(&emitted, &bounce)
            }
        },
    }
}

pub fn ray_color(
    r: &Ray,
    background: &ColorR,
    world: &HittableList,
    lights: &HittableList,
    depth: u32,
    images: &Vec<PixelBuffer>,
    rng: &mut Prng,
) -> (out: ColorR)
    requires
        world.wf(),
        lights.wf(),
        lights.objects.len() < 0x100_0000,
        canon_color(*background),
        v_in(r.orig, ORIGIN_BOUND as int),
        v_in(r.dir, DIR_BOUND as int),
        !(r.dir.x == 0 && r.dir.y == 0 && r.dir.z == 0),
        r.time.wf(),
        r.time.bounded(),
    ensures
        out.wf(),
        canon_color(out),
        depth == 0 ==> out == (ColorR {
            r: Rat { num: 0, den: COLOR_DEN },
            g: Rat { num: 0, den: COLOR_DEN },
            b: Rat { num: 0, den: COLOR_DEN },
        }),
        (depth > 0 && crate::hittable::list_graze_free(world.objects@, *r)
            && crate::hittable::no_cand_in(
            crate::hittable::list_cands(world.objects@, *r),
            crate::rat::Sc { n: 1, d: 1000 },
            crate::rat::Sc { n: 0x1000_0000_0000, d: 1 },
        )) ==> out == *background,
    decreases depth, 1int,
{
    let black = ColorR {
        r: Rat { num: 0, den: COLOR_DEN },
        g: Rat { num: 0, den: COLOR_DEN },
        b: Rat { num: 0, den: COLOR_DEN },
    };
    if depth == 0 {
        return black;
    }
    let tmin = Rat::new(1, 1000);
    let tmax = Rat::from_int(0x1000_0000_0000);
    proof {
        assert(tmin.v() == (crate::rat::Sc { n: 1, d: 1000 }));
        assert(tmax.v() == (crate::rat::Sc { n: 0x1000_0000_0000, d: 1 }));
    }
    match world.hit(r, &tmin, &tmax, rng) {
        None => *background,
        Some(rec) => {
            proof {
                // With a graze-free world a hit witnesses a candidate, so
                // the miss clause is vacuous on this path.
                if crate::hittable::list_graze_free(world.objects@, *r) {
                    let cs = crate::hittable::list_cands(world.objects@, *r);
                    let c = choose|c: crate::hittable::Cand|
                        crate::hittable::best_at(cs, tmin.v(), tmax.v(), c) && crate::rat::qeq(
                            rec.t.v(),
                            c.t(),
                        );
                    assert(cs.contains(c) && crate::hittable::in_ivl(c, tmin.v(), tmax.v()));
                    assert(!crate::hittable::no_cand_in(cs, tmin.v(), tmax.v()));
                }
            }
            shade(r, &rec, background, world, lights, depth, images, rng)
        },
    }
}

} // verus!
