use vstd::prelude::*;

use crate::color::COLOR_DEN;
use crate::color::ColorR;
use crate::color::canon_color;
use crate::color::color_canon;
use crate::hittable::HitRecord;
use crate::pdf::CosinePDF;
use crate::pdf::PDF;
use crate::rat::Rat;
use crate::ray::DIR_BOUND;
use crate::ray::Ray;
use crate::rng::Prng;
use crate::texture::SurfaceTexture;
use crate::texture::PixelBuffer;
use crate::texture::texture_value;
use crate::utility::UNIT_SCALE;
use crate::utility::fit_dir;
use crate::utility::lemma_nonzero_dot;
use crate::utility::random_unit_sphere;
use crate::utility::random_in_hemisphere;
use crate::utility::rat_dir;
use crate::utility::round_point;
use crate::utility::tdiv;
use crate::utility::unit_approx;
use crate::vec3::Vec3i;
use crate::vec3::lemma_dot_bound;
use crate::vec3::lemma_prod_bound2;
use crate::vec3::reflect;
use crate::vec3::v_in;

verus! {

/// The closed set of surface behaviors: diffuse, mirror (with fuzz),
/// glass (by refractive index), one-sided emitter, and the isotropic phase
/// function of a participating medium.
#[derive(Clone, Copy, Debug)]
pub enum Surface {
    Lambertian(SurfaceTexture),
    Metal(ColorR, Rat),
    Dielectric(Rat),
    DiffuseLight(SurfaceTexture),
    Isotropic(SurfaceTexture),
}

impl Surface {
    pub open spec fn wf(self) -> bool {
        match self {
            Surface::Lambertian(t) => t.wf(),
            Surface::Metal(albedo, fuzz) => albedo.wf() && fuzz.wf() && fuzz.bounded(),
            Surface::Dielectric(ri) => ri.wf() && ri.bounded() && ri.num > 0,
            Surface::DiffuseLight(t) => t.wf(),
            Surface::Isotropic(t) => t.wf(),
        }
    }
}

/// What a material reports for a hit: the attenuation, whether the bounce
/// is a deterministic (specular) one — and then the bounced ray — or a
/// probabilistic one — and then, where the material has one, its sampling
/// density.
#[derive(Clone, Copy, Debug)]
pub struct ScatterRecord {
    pub specular_ray: Option<Ray>,
    pub is_specular: bool,
    pub attenuation: ColorR,
    pub pdf: Option<PDF>,
}

impl ScatterRecord {
    pub open spec fn wf(self) -> bool {
        &&& canon_color(self.attenuation)
        &&& (self.pdf matches Some(p) ==> p.wf())
        &&& (self.specular_ray matches Some(sr) ==> v_in(sr.dir, DIR_BOUND as int) && v_in(
            sr.orig,
            crate::ray::ORIGIN_BOUND as int,
        ) && sr.time.wf() && sr.time.bounded() && !(sr.dir.x == 0 && sr.dir.y == 0 && sr.dir.z
            == 0))
        &&& (self.is_specular ==> self.specular_ray is Some)
    }
}


/// The hit normal at unit scale.
pub open spec fn spec_hit_normal(rec: HitRecord) -> Vec3i {
    crate::utility::spec_unit(crate::utility::spec_rat_dir(rec.normal))
}

/// The scale-cleared mirror reflection brought back to unit scale (before
/// the direction fit).
pub open spec fn spec_mirror_pre(r: Ray, rec: HitRecord) -> Vec3i {
    let nu = spec_hit_normal(rec);
    let vu = crate::utility::spec_unit(r.dir);
    Vec3i {
        x: crate::utility::spec_tdiv(crate::vec3::reflect_x(vu, nu), 16777216) as i64,
        y: crate::utility::spec_tdiv(crate::vec3::reflect_y(vu, nu), 16777216) as i64,
        z: crate::utility::spec_tdiv(crate::vec3::reflect_z(vu, nu), 16777216) as i64,
    }
}

/// The mirror reflection, fit into the direction range.
pub open spec fn spec_mirror_dir(r: Ray, rec: HitRecord) -> Vec3i {
    crate::utility::spec_fit_dir(spec_mirror_pre(r, rec))
}

/// A possible hemisphere perturbation sample about the unit-scaled normal.
pub open spec fn hemi_sample_ok(h: Vec3i, nu: Vec3i) -> bool {
    &&& crate::vec3::v_in(h, UNIT_SCALE as int)
    &&& 0 < crate::vec3::spec_dot(h, h) <= (UNIT_SCALE * UNIT_SCALE) as int
    &&& crate::vec3::spec_dot(h, nu) >= 0
}

/// The metal's scattered direction before the fit: the unit-scale mirror
/// reflection plus the fuzz-scaled hemisphere sample.
pub open spec fn metal_scatter_pre(r: Ray, rec: HitRecord, fuzz: Rat, h: Vec3i) -> Vec3i {
    let m = spec_mirror_pre(r, rec);
    let f0 = crate::color::spec_canon_of(fuzz.v()).n;
    let f = if f0 < 0 {
        0
    } else if f0 > COLOR_DEN as int {
        COLOR_DEN as int
    } else {
        f0
    };
    Vec3i {
        x: (m.x + crate::utility::spec_tdiv(f * h.x, COLOR_DEN as int)) as i64,
        y: (m.y + crate::utility::spec_tdiv(f * h.y, COLOR_DEN as int)) as i64,
        z: (m.z + crate::utility::spec_tdiv(f * h.z, COLOR_DEN as int)) as i64,
    }
}

/// The refraction ratio a glass surface uses, at canonical fixed point and
/// capped into `[1, 8 * COLOR_DEN]`.
pub open spec fn spec_glass_eta(ri: Rat, front_face: bool) -> int {
    let e0 = crate::color::spec_canon_of(ri.v()).n;
    let e1 = if e0 < 1 {
        1
    } else if e0 > 8 * COLOR_DEN as int {
        8 * COLOR_DEN as int
    } else {
        e0
    };
    let e2 = if front_face {
        crate::utility::spec_tdiv(COLOR_DEN as int * COLOR_DEN as int, e1)
    } else {
        e1
    };
    if e2 < 1 {
        1
    } else if e2 > 8 * COLOR_DEN as int {
        8 * COLOR_DEN as int
    } else {
        e2
    }
}

/// The clamped unit-scaled cosine of the incident angle.
pub open spec fn spec_glass_cos(r: Ray, rec: HitRecord) -> int {
    let nu = crate::utility::spec_unit(crate::utility::spec_rat_dir(rec.normal));
    let vu = crate::utility::spec_unit(r.dir);
    let c = -crate::vec3::spec_dot(vu, nu);
    if c < 0 {
        0
    } else if c > 16777216 {
        16777216
    } else {
        c
    }
}

/// Whether total internal reflection is forced: `eta^2 sin^2 > 1` on the
/// fixed-point lattice.
pub open spec fn spec_glass_tir(r: Ray, rec: HitRecord, ri: Rat) -> bool {
    let eta = spec_glass_eta(ri, rec.front_face);
    let cos = spec_glass_cos(r, rec);
    let s2 = 16777216int;
    eta * eta * (s2 * s2 - cos * cos) > COLOR_DEN as int * COLOR_DEN as int * s2 * s2
}

/// Schlick's reflectance at canonical fixed point, mirroring the staged
/// computation: `r0 + (1 - r0)(1 - cos)^5`.
pub open spec fn spec_schlick(ri: Rat, r: Ray, rec: HitRecord) -> int {
    let cd = COLOR_DEN as int;
    let s2 = 16777216int;
    let eta = spec_glass_eta(ri, rec.front_face);
    let cos = spec_glass_cos(r, rec);
    let cosf_raw = crate::utility::spec_tdiv(cos * cd, s2);
    let cosf = if cosf_raw < 0 {
        0
    } else if cosf_raw > cd {
        cd
    } else {
        cosf_raw
    };
    let r0_raw = crate::utility::spec_tdiv((cd - eta) * (cd - eta) * cd, (cd + eta) * (cd + eta));
    let r0 = if r0_raw < 0 {
        0
    } else if r0_raw > cd {
        cd
    } else {
        r0_raw
    };
    let w = cd - cosf;
    let w2 = crate::utility::spec_tdiv(w * w, cd);
    let w4 = crate::utility::spec_tdiv(w2 * w2, cd);
    let w5 = crate::utility::spec_tdiv(w4 * w, cd);
    r0 + crate::utility::spec_tdiv((cd - r0) * w5, cd)
}

/// Whether the glass bounce reflects: forced total internal reflection, or
/// Schlick's reflectance beating the uniform draw taken from the given
/// generator state.
pub open spec fn glass_reflects(ri: Rat, r: Ray, rec: HitRecord, state: u64) -> bool {
    spec_glass_tir(r, rec, ri) || spec_schlick(ri, r, rec) > (crate::rng::spec_next(state) as int)
        % (COLOR_DEN as int)
}

/// The Snell refraction direction on the lattice, before the fit step: the
/// perpendicular part `eta (uv + nu cos)` and the parallel part along
/// `-nu` closing the unit length.
pub open spec fn spec_glass_refract_dir(r: Ray, rec: HitRecord, ri: Rat) -> Vec3i {
    let nu = crate::utility::spec_unit(crate::utility::spec_rat_dir(rec.normal));
    let vu = crate::utility::spec_unit(r.dir);
    let eta = spec_glass_eta(ri, rec.front_face);
    let cos = spec_glass_cos(r, rec);
    let s2 = 16777216int;
    let ax = vu.x * s2 + nu.x * cos;
    let ay = vu.y * s2 + nu.y * cos;
    let az = vu.z * s2 + nu.z * cos;
    let px = crate::utility::spec_tdiv(eta * ax, COLOR_DEN as int * s2);
    let py = crate::utility::spec_tdiv(eta * ay, COLOR_DEN as int * s2);
    let pz = crate::utility::spec_tdiv(eta * az, COLOR_DEN as int * s2);
    let p2 = px * px + py * py + pz * pz;
    let k = if p2 > s2 || p2 < 0 {
        0int
    } else {
        crate::rat::sqf(s2 - p2)
    };
    Vec3i {
        x: (px - crate::utility::spec_tdiv(k * nu.x, UNIT_SCALE as int)) as i64,
        y: (py - crate::utility::spec_tdiv(k * nu.y, UNIT_SCALE as int)) as i64,
        z: (pz - crate::utility::spec_tdiv(k * nu.z, UNIT_SCALE as int)) as i64,
    }
}

/// The attenuation a glass surface reports: pure white (it never absorbs).
pub open spec fn spec_white() -> ColorR {
    ColorR {
        r: Rat { num: COLOR_DEN, den: COLOR_DEN },
        g: Rat { num: COLOR_DEN, den: COLOR_DEN },
        b: Rat { num: COLOR_DEN, den: COLOR_DEN },
    }
}

/// The emitted radiance of a hit, as a ghost value: a front-face light
/// emits its texture's color; everything else is dark.
pub open spec fn spec_emit(rec: HitRecord, images: Seq<PixelBuffer>) -> ColorR {
    match rec.material {
        Surface::DiffuseLight(tex) => if rec.front_face {
            spec_canon_tex(tex, rec, images)
        } else {
            ColorR {
                r: Rat { num: 0, den: COLOR_DEN },
                g: Rat { num: 0, den: COLOR_DEN },
                b: Rat { num: 0, den: COLOR_DEN },
            }
        },
        _ => ColorR {
            r: Rat { num: 0, den: COLOR_DEN },
            g: Rat { num: 0, den: COLOR_DEN },
            b: Rat { num: 0, den: COLOR_DEN },
        },
    }
}

/// A texture's color at the hit, rounded to canonical fixed point.
pub open spec fn spec_canon_tex(
    tex: SurfaceTexture,
    rec: HitRecord,
    images: Seq<PixelBuffer>,
) -> ColorR {
    let tc = crate::texture::spec_texture_color(tex, rec.u.v(), rec.v.v(), images);
    ColorR {
        r: Rat {
            num: crate::color::spec_canon_of(tc.r.v()).n as i128,
            den: COLOR_DEN,
        },
        g: Rat {
            num: crate::color::spec_canon_of(tc.g.v()).n as i128,
            den: COLOR_DEN,
        },
        b: Rat {
            num: crate::color::spec_canon_of(tc.b.v()).n as i128,
            den: COLOR_DEN,
        },
    }
}


/// The diffuse bounce: texture attenuation and a cosine density about the
/// hit normal.
fn scatter_lambertian(tex: &SurfaceTexture, rec: &HitRecord, images: &Vec<PixelBuffer>) -> (res:
    Option<ScatterRecord>)
    requires
        tex.wf(),
        rec.wf(),
    ensures
        res matches Some(s2) && s2.wf() && !s2.is_specular && s2.specular_ray is None
            && s2.attenuation == spec_canon_tex(*tex, *rec, images@) && s2.pdf == Some(
            PDF::Cosine(
                CosinePDF {
                    normal: crate::utility::spec_unit(crate::utility::spec_rat_dir(rec.normal)),
                },
            ),
        ),
{
        let att = texture_value(tex, &rec.u, &rec.v, images);
        let n = rat_dir(&rec.normal);
        proof {
            lemma_nonzero_dot(n);
        }
        let pdf = PDF::Cosine(CosinePDF::new(&n));
        Some(
            ScatterRecord {
                specular_ray: None,
                is_specular: false,
                attenuation: color_canon(&att),
                pdf: Some(pdf),
            },
        )
}

/// The mirror bounce: absorb exactly when the reflection points under the
/// surface; otherwise reflect, perturbed by the fuzz radius.
fn scatter_metal(
    albedo: &ColorR,
    fuzz: &Rat,
    r: &Ray,
    rec: &HitRecord,
    rng: &mut Prng,
) -> (res: Option<ScatterRecord>)
    requires
        albedo.wf(),
        fuzz.wf(),
        fuzz.bounded(),
        rec.wf(),
        v_in(r.dir, DIR_BOUND as int),
        !(r.dir.x == 0 && r.dir.y == 0 && r.dir.z == 0),
        r.time.wf(),
        r.time.bounded(),
    ensures
        res matches Some(s2) ==> s2.wf(),
        // Absorb exactly when the perturbed direction points under the
        // surface, for the hemisphere sample that was drawn.
        res is None ==> exists|h: Vec3i|
            hemi_sample_ok(h, spec_hit_normal(*rec)) && #[trigger] crate::vec3::spec_dot(
                metal_scatter_pre(*r, *rec, *fuzz, h),
                spec_hit_normal(*rec),
            ) <= 0,
        res matches Some(s2) ==> s2.is_specular && s2.attenuation == (ColorR {
            r: Rat { num: crate::color::spec_canon_of(albedo.r.v()).n as i128, den: COLOR_DEN },
            g: Rat { num: crate::color::spec_canon_of(albedo.g.v()).n as i128, den: COLOR_DEN },
            b: Rat { num: crate::color::spec_canon_of(albedo.b.v()).n as i128, den: COLOR_DEN },
        }) && (s2.specular_ray matches Some(sr2) && sr2.orig == crate::utility::spec_round_point(
            rec.p,
        ) && sr2.time == (Rat { num: 0, den: 1 }) && (exists|h: Vec3i|
            hemi_sample_ok(h, spec_hit_normal(*rec)) && #[trigger] crate::vec3::spec_dot(
                metal_scatter_pre(*r, *rec, *fuzz, h),
                spec_hit_normal(*rec),
            ) > 0 && sr2.dir == crate::utility::spec_fit_dir(
                metal_scatter_pre(*r, *rec, *fuzz, h),
            )) && (crate::color::spec_canon_of(fuzz.v()).n <= 0 ==> sr2.dir == spec_mirror_dir(
            *r,
            *rec,
        ))),
{
    let n = rat_dir(&rec.normal);
    proof {
        lemma_nonzero_dot(n);
        crate::vec3::lemma_self_dot_nonneg(r.dir);
        lemma_nonzero_dot(r.dir);
    }
    let vu = unit_approx(&r.dir);
    let nu = unit_approx(&n);
    proof {
        crate::vec3::lemma_reflect_bound(vu, nu, UNIT_SCALE as int);
    }
    let reflected = reflect(&vu, &nu);
    // Bring the reflection back to unit scale and perturb by the fuzz
    // radius before deciding absorption: the perturbed direction is what
    // must point away from the surface.
    let s2: i128 = 16777216;
    let rx = tdiv(reflected.x as i128, s2);
    let ry = tdiv(reflected.y as i128, s2);
    let rz = tdiv(reflected.z as i128, s2);
    let fc = crate::color::rat_canon(fuzz);
    let f = if fc.num < 0 {
        0
    } else if fc.num > COLOR_DEN {
        COLOR_DEN
    } else {
        fc.num
    };
    let h = random_in_hemisphere(rng, &nu);
    proof {
        lemma_prod_bound2(f as int, h.x as int, COLOR_DEN as int, UNIT_SCALE as int);
        lemma_prod_bound2(f as int, h.y as int, COLOR_DEN as int, UNIT_SCALE as int);
        lemma_prod_bound2(f as int, h.z as int, COLOR_DEN as int, UNIT_SCALE as int);
    }
    let px = tdiv(f * (h.x as i128), COLOR_DEN);
    let py = tdiv(f * (h.y as i128), COLOR_DEN);
    let pz = tdiv(f * (h.z as i128), COLOR_DEN);
    let d = Vec3i::new((rx + px) as i64, (ry + py) as i64, (rz + pz) as i64);
    proof {
        assert(d == metal_scatter_pre(*r, *rec, *fuzz, h));
        assert(hemi_sample_ok(h, spec_hit_normal(*rec)));
        crate::vec3::lemma_dot_bound(d, nu, 0x10_0000, UNIT_SCALE as int);
    }
    let dd = d.dot(&nu);
    if dd > 0 {
        let ray = Ray::new(round_point(&rec.p), fit_dir(d), Rat::from_int(0));
        proof {
            if crate::color::spec_canon_of(fuzz.v()).n <= 0 {
                assert(f == 0);
                assert(f as int * h.x == 0 && f as int * h.y == 0 && f as int * h.z == 0)
                    by (nonlinear_arith)
                    requires
                        f == 0,
                ;
                assert(crate::utility::spec_tdiv(0, COLOR_DEN as int) == 0) by (nonlinear_arith);
                assert(px == 0 && py == 0 && pz == 0);
                assert(d == spec_mirror_pre(*r, *rec));
            }
        }
        Some(
            ScatterRecord {
                specular_ray: Some(ray),
                is_specular: true,
                attenuation: color_canon(albedo),
                pdf: None,
            },
        )
    } else {
        None
    }
}

/// The glass bounce: never absorbs; reflects under forced total internal
/// reflection or a Schlick-weighted draw, otherwise refracts by Snell's
/// law on the lattice.
#[verifier::rlimit(100)]
#[verifier::spinoff_prover]
fn scatter_dielectric(ri: &Rat, r: &Ray, rec: &HitRecord, rng: &mut Prng) -> (res: Option<
    ScatterRecord>)
    requires
        ri.wf(),
        ri.bounded(),
        ri.num > 0,
        rec.wf(),
        v_in(r.dir, DIR_BOUND as int),
        !(r.dir.x == 0 && r.dir.y == 0 && r.dir.z == 0),
        r.time.wf(),
        r.time.bounded(),
    ensures
        res matches Some(s2) && s2.wf() && s2.is_specular && s2.attenuation == spec_white() && (
        s2.specular_ray matches Some(sr2) && sr2.orig == crate::utility::spec_round_point(rec.p)
            && sr2.time == r.time && (glass_reflects(*ri, *r, *rec, old(rng).state) ==> sr2.dir
            == spec_mirror_dir(*r, *rec)) && (!glass_reflects(*ri, *r, *rec, old(rng).state)
            ==> sr2.dir == crate::utility::spec_fit_dir(
            spec_glass_refract_dir(*r, *rec, *ri),
        ))),
        final(rng).state == crate::rng::spec_next(old(rng).state),
{
        let white = ColorR {
            r: Rat { num: COLOR_DEN, den: COLOR_DEN },
            g: Rat { num: COLOR_DEN, den: COLOR_DEN },
            b: Rat { num: COLOR_DEN, den: COLOR_DEN },
        };
        // Refraction ratio at canonical fixed point, capped at 8.
        let rc = crate::color::rat_canon(ri);
        let eta_in = if rc.num < 1 {
            1
        } else if rc.num > 8 * COLOR_DEN {
            8 * COLOR_DEN
        } else {
            rc.num
        };
        let eta = if rec.front_face {
            // 1 / ri at fixed point.
            tdiv(COLOR_DEN * COLOR_DEN, eta_in)
        } else {
            eta_in
        };
        let eta2 = if eta < 1 {
            1
        } else if eta > 8 * COLOR_DEN {
            8 * COLOR_DEN
        } else {
            eta
        };
        proof {
            lemma_nonzero_dot(r.dir);
        }
        let uv = unit_approx(&r.dir);
        let n = rat_dir(&rec.normal);
        proof {
            lemma_nonzero_dot(n);
        }
        let nu = unit_approx(&n);
        proof {
            lemma_dot_bound(uv, nu, UNIT_SCALE as int, UNIT_SCALE as int);
        }
        let mut cos = -uv.dot(&nu);
        let s2: i128 = 16777216;
        if cos < 0 {
            cos = 0;
        }
        if cos > s2 {
            cos = s2;
        }
        proof {
            crate::vec3::lemma_prod_bound(cos as int, cos as int, 0x100_0000);
            lemma_prod_bound2(eta2 as int, eta2 as int, 0x80_0000, 0x80_0000);
        }
        // Total internal reflection: eta^2 sin^2 > 1, exactly on
        // the fixed-point lattice.
        let sin2 = s2 * s2 - cos * cos;
        proof {
            lemma_prod_bound2(
                eta2 as int * eta2 as int,
                sin2 as int,
                0x4000_0000_0000,
                0x1_0000_0000_0000,
            );
        }
        let tir = eta2 * eta2 * sin2 > COLOR_DEN * COLOR_DEN * s2 * s2;
        // Schlick reflectance at canonical fixed point.
        proof {
            crate::vec3::lemma_prod_bound(cos as int, COLOR_DEN as int, 0x10_0000_0000);
        }
        let cosf_raw = tdiv(cos * COLOR_DEN, s2);
        let cosf = if cosf_raw < 0 {
            0
        } else if cosf_raw > COLOR_DEN {
            COLOR_DEN
        } else {
            cosf_raw
        };
        proof {
            lemma_prod_bound2(
                (COLOR_DEN - eta2) as int,
                (COLOR_DEN - eta2) as int,
                0x80_0000,
                0x80_0000,
            );
            lemma_prod_bound2(
                (COLOR_DEN - eta2) as int * (COLOR_DEN - eta2) as int,
                COLOR_DEN as int,
                0x4000_0000_0000,
                COLOR_DEN as int,
            );
            lemma_prod_bound2(
                (COLOR_DEN + eta2) as int,
                (COLOR_DEN + eta2) as int,
                0x100_0000,
                0x100_0000,
            );
            assert(0 < ((COLOR_DEN + eta2) as int) * ((COLOR_DEN + eta2) as int))
                by (nonlinear_arith)
                requires
                    0 < COLOR_DEN + eta2,
            ;
        }
        let r0_raw = tdiv(
            (COLOR_DEN - eta2) * (COLOR_DEN - eta2) * COLOR_DEN,
            (COLOR_DEN + eta2) * (COLOR_DEN + eta2),
        );
        let r0 = if r0_raw < 0 {
            0
        } else if r0_raw > COLOR_DEN {
            COLOR_DEN
        } else {
            r0_raw
        };
        let w = COLOR_DEN - cosf;
        proof {
            crate::vec3::lemma_prod_bound(w as int, w as int, COLOR_DEN as int);
        }
        let w2 = tdiv(w * w, COLOR_DEN);
        proof {
            crate::vec3::lemma_prod_bound(w2 as int, w2 as int, 0x100_0000_0000);
        }
        let w4 = tdiv(w2 * w2, COLOR_DEN);
        proof {
            lemma_prod_bound2(
                w4 as int,
                w as int,
                0x1_0000_0000_0000_0000_0000,
                COLOR_DEN as int,
            );
        }
        let w5 = tdiv(w4 * w, COLOR_DEN);
        proof {
            lemma_prod_bound2(
                (COLOR_DEN - r0) as int,
                w5 as int,
                COLOR_DEN as int,
                0x10_0000_0000_0000_0000_0000_0000,
            );
        }
        let refl_prob = r0 + tdiv((COLOR_DEN - r0) * w5, COLOR_DEN);
        let draw = rng.next_below(COLOR_DEN as u64) as i128;
        let dir = if tir || refl_prob > draw {
            glass_reflect_dir(&uv, &nu, r, rec)
        } else {
            glass_refract_dir(eta2, cos, &uv, &nu, r, rec, ri)
        };
        let ray = Ray::new(round_point(&rec.p), fit_dir(dir), r.time);
        Some(
            ScatterRecord {
                specular_ray: Some(ray),
                is_specular: true,
                attenuation: white,
                pdf: None,
            },
        )
}


/// The mirror direction a glass surface bounces along, before the fit step.
fn glass_reflect_dir(uv: &Vec3i, nu: &Vec3i, r: &Ray, rec: &HitRecord) -> (d: Vec3i)
    requires
        rec.wf(),
        v_in(r.dir, DIR_BOUND as int),
        !(r.dir.x == 0 && r.dir.y == 0 && r.dir.z == 0),
        *uv == crate::utility::spec_unit(r.dir),
        *nu == crate::utility::spec_unit(crate::utility::spec_rat_dir(rec.normal)),
        v_in(*uv, UNIT_SCALE as int),
        v_in(*nu, UNIT_SCALE as int),
    ensures
        crate::utility::spec_fit_dir(d) == spec_mirror_dir(*r, *rec),
{
    let s2: i128 = 16777216;
        proof {
            crate::vec3::lemma_reflect_bound(*uv, *nu, UNIT_SCALE as int);
        }
        let reflected = reflect(uv, nu);
        let rx = tdiv(reflected.x as i128, s2);
        let ry = tdiv(reflected.y as i128, s2);
        let rz = tdiv(reflected.z as i128, s2);
        Vec3i::new(rx as i64, ry as i64, rz as i64)

}

/// The Snell refraction direction, before the fit step.
#[verifier::rlimit(100)]
#[verifier::spinoff_prover]
fn glass_refract_dir(
    eta2: i128,
    cos: i128,
    uv: &Vec3i,
    nu: &Vec3i,
    r: &Ray,
    rec: &HitRecord,
    ri: &Rat,
) -> (d: Vec3i)
    requires
        rec.wf(),
        v_in(r.dir, DIR_BOUND as int),
        !(r.dir.x == 0 && r.dir.y == 0 && r.dir.z == 0),
        *uv == crate::utility::spec_unit(r.dir),
        *nu == crate::utility::spec_unit(crate::utility::spec_rat_dir(rec.normal)),
        v_in(*uv, UNIT_SCALE as int),
        v_in(*nu, UNIT_SCALE as int),
        eta2 as int == spec_glass_eta(*ri, rec.front_face),
        1 <= eta2 <= 8 * COLOR_DEN,
        cos as int == spec_glass_cos(*r, *rec),
        0 <= cos <= 16777216,
    ensures
        d == spec_glass_refract_dir(*r, *rec, *ri),
{
    let s2: i128 = 16777216;
        // Snell refraction on the lattice: the perpendicular
        // part eta (uv + n cos), then the parallel part along
        // -n closing the unit length.
        proof {
            lemma_prod_bound2(nu.x as int, cos as int, UNIT_SCALE as int, 0x100_0000);
            lemma_prod_bound2(nu.y as int, cos as int, UNIT_SCALE as int, 0x100_0000);
            lemma_prod_bound2(nu.z as int, cos as int, UNIT_SCALE as int, 0x100_0000);
        }
        let ax = (uv.x as i128) * s2 + (nu.x as i128) * cos;
        let ay = (uv.y as i128) * s2 + (nu.y as i128) * cos;
        let az = (uv.z as i128) * s2 + (nu.z as i128) * cos;
        proof {
            lemma_prod_bound2(eta2 as int, ax as int, 0x80_0000, 0x1_0000_0000_0000);
            lemma_prod_bound2(eta2 as int, ay as int, 0x80_0000, 0x1_0000_0000_0000);
            lemma_prod_bound2(eta2 as int, az as int, 0x80_0000, 0x1_0000_0000_0000);
        }
        let px = tdiv(eta2 * ax, COLOR_DEN * s2);
        let py = tdiv(eta2 * ay, COLOR_DEN * s2);
        let pz = tdiv(eta2 * az, COLOR_DEN * s2);
        proof {
            lemma_prod_bound2(
                px as int,
                px as int,
                0x2000_0000_0000_0000,
                0x2000_0000_0000_0000,
            );
            lemma_prod_bound2(
                py as int,
                py as int,
                0x2000_0000_0000_0000,
                0x2000_0000_0000_0000,
            );
            lemma_prod_bound2(
                pz as int,
                pz as int,
                0x2000_0000_0000_0000,
                0x2000_0000_0000_0000,
            );
        }
        let p2 = px * px + py * py + pz * pz;
        let k = if p2 > s2 || p2 < 0 {
            0
        } else {
            crate::rat::sqrt_floor(s2 - p2)
        };
        proof {
            if !(p2 > s2 || p2 < 0) {
                crate::rat::lemma_sqf_is((s2 - p2) as int, k as int);
            }
            assert(0 <= k <= 0x2000) by (nonlinear_arith)
                requires
                    k == 0 || (crate::rat::is_sqrt_floor((s2 - p2) as int, k as int)
                        && s2 - p2 <= 16777216),
            ;
            lemma_prod_bound2(k as int, nu.x as int, 0x2000, UNIT_SCALE as int);
            lemma_prod_bound2(k as int, nu.y as int, 0x2000, UNIT_SCALE as int);
            lemma_prod_bound2(k as int, nu.z as int, 0x2000, UNIT_SCALE as int);
        }
        let qx = px - tdiv(k * (nu.x as i128), UNIT_SCALE as i128);
        let qy = py - tdiv(k * (nu.y as i128), UNIT_SCALE as i128);
        let qz = pz - tdiv(k * (nu.z as i128), UNIT_SCALE as i128);
        Vec3i::new(qx as i64, qy as i64, qz as i64)
}

/// The isotropic phase function: texture attenuation and a uniform
/// full-sphere strategy (the phase function scatters in every direction
/// with density `1 / (4 pi)`).
fn scatter_isotropic(tex: &SurfaceTexture, rec: &HitRecord, images: &Vec<PixelBuffer>) -> (res:
    Option<ScatterRecord>)
    requires
        tex.wf(),
        rec.wf(),
    ensures
        res matches Some(s2) && s2.wf() && !s2.is_specular && s2.specular_ray is None && s2.pdf
            == Some(PDF::Sphere(crate::pdf::SpherePDF {  })) && s2.attenuation == spec_canon_tex(
            *tex,
            *rec,
            images@,
        ),
{
        let att = texture_value(tex, &rec.u, &rec.v, images);
        Some(
            ScatterRecord {
                specular_ray: None,
                is_specular: false,
                attenuation: color_canon(&att),
                pdf: Some(PDF::Sphere(crate::pdf::SpherePDF {  })),
            },
        )
}

impl Surface {
    /// Produce a scattered ray, or report absorption.  Diffuse surfaces
    /// hand back a cosine density; mirrors reflect (with fuzz) and absorb
    /// rays that end up under the surface; glass always transmits or
    /// reflects, choosing by Schlick's approximation against a uniform
    /// draw; emitters never scatter; the isotropic phase function scatters
    /// without a density of its own.
    #[verifier::rlimit(100)]
    pub fn scatter(
        &self,
        r: &Ray,
        rec: &HitRecord,
        images: &Vec<PixelBuffer>,
        rng: &mut Prng,
    ) -> (res: Option<ScatterRecord>)
        requires
            self.wf(),
            rec.wf(),
            v_in(r.dir, DIR_BOUND as int),
            !(r.dir.x == 0 && r.dir.y == 0 && r.dir.z == 0),
            r.time.wf(),
            r.time.bounded(),
        ensures
            res matches Some(s) ==> s.wf(),
            self is DiffuseLight ==> res is None,
            (match *self {
                Surface::Lambertian(tex) => res matches Some(s2) && !s2.is_specular
                    && s2.specular_ray is None && s2.attenuation == spec_canon_tex(
                    tex,
                    *rec,
                    images@,
                ) && s2.pdf == Some(
                    PDF::Cosine(
                        CosinePDF {
                            normal: crate::utility::spec_unit(
                                crate::utility::spec_rat_dir(rec.normal),
                            ),
                        },
                    ),
                ),
                _ => true,
            }),
            (match *self {
                Surface::Metal(albedo, fuzz) => (res is None ==> exists|h: Vec3i|
                    hemi_sample_ok(h, spec_hit_normal(*rec)) && #[trigger] crate::vec3::spec_dot(
                        metal_scatter_pre(*r, *rec, fuzz, h),
                        spec_hit_normal(*rec),
                    ) <= 0) && (res matches Some(s2) ==> s2.is_specular && s2.attenuation == (
                ColorR {
                    r: Rat { num: crate::color::spec_canon_of(albedo.r.v()).n as i128, den: COLOR_DEN },
                    g: Rat { num: crate::color::spec_canon_of(albedo.g.v()).n as i128, den: COLOR_DEN },
                    b: Rat { num: crate::color::spec_canon_of(albedo.b.v()).n as i128, den: COLOR_DEN },
                }) && (s2.specular_ray matches Some(sr2) && sr2.orig
                    == crate::utility::spec_round_point(rec.p) && sr2.time == (Rat {
                    num: 0,
                    den: 1,
                }) && (exists|h: Vec3i|
                    hemi_sample_ok(h, spec_hit_normal(*rec)) && #[trigger] crate::vec3::spec_dot(
                        metal_scatter_pre(*r, *rec, fuzz, h),
                        spec_hit_normal(*rec),
                    ) > 0 && sr2.dir == crate::utility::spec_fit_dir(
                        metal_scatter_pre(*r, *rec, fuzz, h),
                    )) && (crate::color::spec_canon_of(fuzz.v()).n <= 0 ==> sr2.dir
                    == spec_mirror_dir(*r, *rec)))),
                _ => true,
            }),
            (match *self {
                Surface::Dielectric(ri) => res matches Some(s2) && s2.is_specular
                    && s2.attenuation == spec_white() && (s2.specular_ray matches Some(sr2)
                    && sr2.orig == crate::utility::spec_round_point(rec.p) && sr2.time == r.time
                    && (sr2.dir == spec_mirror_dir(*r, *rec) || sr2.dir
                    == crate::utility::spec_fit_dir(spec_glass_refract_dir(*r, *rec, ri)))
                    && (spec_glass_tir(*r, *rec, ri) ==> sr2.dir == spec_mirror_dir(*r, *rec))),
                _ => true,
            }),
            (match *self {
                Surface::Isotropic(tex) => res matches Some(s2) && !s2.is_specular
                    && s2.specular_ray is None && s2.pdf == Some(
                    PDF::Sphere(crate::pdf::SpherePDF {  }),
                ) && s2.attenuation == spec_canon_tex(tex, *rec, images@),
                _ => true,
            }),
    {
        match self {
            Surface::Lambertian(tex) => scatter_lambertian(tex, rec, images),
            Surface::Metal(albedo, fuzz) => scatter_metal(albedo, fuzz, r, rec, rng),
            Surface::Dielectric(ri) => scatter_dielectric(ri, r, rec, rng),
            Surface::DiffuseLight(_) => None,
            Surface::Isotropic(tex) => scatter_isotropic(tex, rec, images),
        }
    }

    /// The density with which the surface itself scatters into a direction.
    /// Only diffuse surfaces (Lambertian, Isotropic) are ever asked; for the
    /// other kinds, which the integrator never routes through the diffuse
    /// estimator, this returns zero rather than failing.
    pub fn scattering_pdf(&self, r: &Ray, rec: &HitRecord, scattered: &Ray) -> (res: Rat)
        requires
            self.wf(),
            rec.wf(),
            v_in(scattered.dir, DIR_BOUND as int),
        ensures
            res.wf(),
            res.bounded(),
            res == (match *self {
                Surface::Lambertian(_) => crate::pdf::spec_cosine_value(
                    crate::utility::spec_unit(crate::utility::spec_rat_dir(rec.normal)),
                    scattered.dir,
                ),
                Surface::Isotropic(_) => Rat {
                    num: crate::pdf::PI_DEN,
                    den: (4 * crate::pdf::PI_NUM) as i128,
                },
                _ => Rat { num: 0, den: 1 },
            }),
    {
        match self {
            Surface::Lambertian(_) => {
                let n = rat_dir(&rec.normal);
                proof {
                    lemma_nonzero_dot(n);
                }
                let p = CosinePDF::new(&n);
                p.value(&scattered.dir)
            },
            Surface::Isotropic(_) => {
                // The isotropic phase function: uniform over the full
                // sphere, density 1 / (4 pi).
                Rat { num: crate::pdf::PI_DEN, den: 4 * crate::pdf::PI_NUM }
            },
            _ => Rat { num: 0, den: 1 },
        }
    }

    /// Emitted radiance: lights emit their texture's color from their
    /// front face only; everything else is dark.
    pub fn emit(&self, rec: &HitRecord, images: &Vec<PixelBuffer>) -> (res: ColorR)
        requires
            self.wf(),
            rec.wf(),
        ensures
            res.wf(),
            canon_color(res),
            !(self is DiffuseLight) ==> res == (ColorR {
                r: Rat { num: 0, den: COLOR_DEN },
                g: Rat { num: 0, den: COLOR_DEN },
                b: Rat { num: 0, den: COLOR_DEN },
            }),
            (self is DiffuseLight && !rec.front_face) ==> res == (ColorR {
                r: Rat { num: 0, den: COLOR_DEN },
                g: Rat { num: 0, den: COLOR_DEN },
                b: Rat { num: 0, den: COLOR_DEN },
            }),
            (match *self {
                Surface::DiffuseLight(tex) => rec.front_face ==> res == spec_canon_tex(
                    tex,
                    *rec,
                    images@,
                ),
                _ => true,
            }),
            *self == rec.material ==> res == spec_emit(*rec, images@),
    {
        match self {
            Surface::DiffuseLight(tex) => {
                if rec.front_face {
                    let c = texture_value(tex, &rec.u, &rec.v, images);
                    color_canon(&c)
                } else {
                    ColorR {
                        r: Rat { num: 0, den: COLOR_DEN },
                        g: Rat { num: 0, den: COLOR_DEN },
                        b: Rat { num: 0, den: COLOR_DEN },
                    }
                }
            },
            _ => ColorR {
                r: Rat { num: 0, den: COLOR_DEN },
                g: Rat { num: 0, den: COLOR_DEN },
                b: Rat { num: 0, den: COLOR_DEN },
            },
        }
    }
}

} // verus!
