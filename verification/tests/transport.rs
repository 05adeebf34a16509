use raytracer::color::COLOR_DEN;
use raytracer::color::ColorR;
use raytracer::hittable::HitModel;
use raytracer::hittable::HittableList;
use raytracer::integrator::ray_color;
use raytracer::material::Surface;
use raytracer::pdf::CosinePDF;
use raytracer::pdf::UniformPDF;
use raytracer::rat::Rat;
use raytracer::ray::Ray;
use raytracer::rect::BoxPrim;
use raytracer::rect::XZRect;
use raytracer::rng::Prng;
use raytracer::sphere::Sphere;
use raytracer::texture::PixelBuffer;
use raytracer::texture::SurfaceTexture;
use raytracer::texture::texture_value;
use raytracer::vec3::Vec3i;

fn canon_color(n: i128) -> ColorR {
    ColorR::new(
        Rat { num: n, den: COLOR_DEN },
        Rat { num: n, den: COLOR_DEN },
        Rat { num: n, den: COLOR_DEN },
    )
}

#[test]
fn depth_zero_renders_black() {
    // With no bounces allowed, every pixel is black, whatever the scene
    // and background.
    let mut world = HittableList::new();
    world.add(HitModel::Sphere(Sphere::new(
        Vec3i::new(0, 0, -5),
        1,
        Surface::Lambertian(SurfaceTexture::Solid(canon_color(COLOR_DEN / 2))),
    )));
    let lights = HittableList::new();
    let images: Vec<PixelBuffer> = Vec::new();
    let background = canon_color(COLOR_DEN / 4);
    let mut rng = Prng::new(11);
    let r = Ray::new(Vec3i::new(0, 0, 0), Vec3i::new(0, 0, -1), Rat::from_int(0));
    let out = ray_color(&r, &background, &world, &lights, 0, &images, &mut rng);
    assert_eq!(out.r.num, 0);
    assert_eq!(out.g.num, 0);
    assert_eq!(out.b.num, 0);
}

#[test]
fn miss_returns_background() {
    let world = HittableList::new();
    let lights = HittableList::new();
    let images: Vec<PixelBuffer> = Vec::new();
    let background = canon_color(COLOR_DEN / 4);
    let mut rng = Prng::new(11);
    let r = Ray::new(Vec3i::new(0, 0, 0), Vec3i::new(0, 0, -1), Rat::from_int(0));
    let out = ray_color(&r, &background, &world, &lights, 5, &images, &mut rng);
    assert_eq!(out.r.num, background.r.num);
}

#[test]
fn light_emits_toward_front_face() {
    // A downward ray hits the top face of an emitting rectangle from its
    // front side and reads the emission.
    let mut world = HittableList::new();
    let glow = Surface::DiffuseLight(SurfaceTexture::Solid(canon_color(COLOR_DEN * 2)));
    world.add(HitModel::XZRect(XZRect::new(-5, 5, -5, 5, -3, glow)));
    let lights = HittableList::new();
    let images: Vec<PixelBuffer> = Vec::new();
    let mut rng = Prng::new(3);
    let r = Ray::new(Vec3i::new(0, 0, 0), Vec3i::new(0, -1, 0), Rat::from_int(0));
    let out = ray_color(&r, &canon_color(0), &world, &lights, 5, &images, &mut rng);
    assert_eq!(out.r.num, COLOR_DEN * 2);
}

#[test]
fn cosine_density_normalizes() {
    // Monte-Carlo check: sampling the hemisphere uniformly and averaging
    // cosine_density / uniform_density estimates the cosine density's
    // total mass, which must come out near 1.
    let normal = Vec3i::new(0, 0, 4096);
    let cos_pdf = CosinePDF::new(&normal);
    let uni = UniformPDF::new(&normal);
    let mut rng = Prng::new(12345);
    let samples = 20000;
    let mut acc = 0.0f64;
    for _ in 0..samples {
        let d = uni.generate(&mut rng);
        let cv = cos_pdf.value(&d);
        let uv = uni.value(&d);
        let c = cv.num as f64 / cv.den as f64;
        let u = uv.num as f64 / uv.den as f64;
        acc += c / u;
    }
    let mean = acc / samples as f64;
    assert!((mean - 1.0).abs() < 0.1, "mean was {mean}");
}

#[test]
fn box_faces_hit_like_a_box() {
    let b = BoxPrim::new(
        Vec3i::new(-1, -1, -6),
        Vec3i::new(1, 1, -4),
        Surface::Lambertian(SurfaceTexture::Solid(canon_color(COLOR_DEN / 2))),
    );
    let r = Ray::new(Vec3i::new(0, 0, 0), Vec3i::new(0, 0, -1), Rat::from_int(0));
    let rec = b.hit(&r, &Rat::new(1, 1000), &Rat::from_int(100)).expect("hit");
    assert_eq!(rec.t.num * 1, 4 * rec.t.den);
}

#[test]
fn image_texture_reads_pixels() {
    // A 2x1 bitmap: left pixel red, right pixel blue; u selects the column.
    let buf = PixelBuffer { data: vec![255, 0, 0, 0, 0, 255], width: 2, height: 1 };
    let images = vec![buf];
    let tex = SurfaceTexture::Image { image_id: 0, width: 2, height: 1 };
    let left = texture_value(&tex, &Rat::new(1, 10), &Rat::new(1, 2), &images);
    assert_eq!(left.r.num, 255);
    assert_eq!(left.b.num, 0);
    let right = texture_value(&tex, &Rat::new(9, 10), &Rat::new(1, 2), &images);
    assert_eq!(right.r.num, 0);
    assert_eq!(right.b.num, 255);
    // A missing bitmap reads as black.
    let bad = SurfaceTexture::Image { image_id: 7, width: 2, height: 1 };
    let none = texture_value(&bad, &Rat::new(1, 10), &Rat::new(1, 2), &images);
    assert_eq!(none.r.num, 0);
}

#[test]
fn metal_reflects_specularly() {
    let mirror = Surface::Metal(canon_color(COLOR_DEN), Rat::from_int(0));
    let mut world = HittableList::new();
    world.add(HitModel::XZRect(XZRect::new(-5, 5, -5, 5, -3, mirror)));
    let r = Ray::new(Vec3i::new(0, 0, 0), Vec3i::new(0, -1, 0), Rat::from_int(0));
    let mut rng = Prng::new(5);
    let rec = world.hit(&r, &Rat::new(1, 1000), &Rat::from_int(100), &mut rng).expect("hit");
    let images: Vec<PixelBuffer> = Vec::new();
    let srec = rec.material.scatter(&r, &rec, &images, &mut rng).expect("scatter");
    assert!(srec.is_specular);
    let sr = srec.specular_ray.expect("ray");
    // Mirror with zero fuzz: the bounced direction points back up.
    assert!(sr.dir.y > 0);
    assert_eq!(sr.dir.x, 0);
    assert_eq!(sr.dir.z, 0);
}

#[test]
fn prng_is_deterministic_and_ranged() {
    let mut a = Prng::new(42);
    let mut b = Prng::new(42);
    for _ in 0..100 {
        let x = a.next_below(97);
        let y = b.next_below(97);
        assert_eq!(x, y);
        assert!(x < 97);
    }
}

#[test]
fn dense_medium_scatters_inside() {
    // A very dense medium: the sampled free flight is far shorter than the
    // chord through the boundary, so the ray always scatters inside.
    let boundary = HitModel::Sphere(Sphere::new(
        Vec3i::new(0, 0, -10),
        2,
        Surface::Lambertian(SurfaceTexture::Solid(canon_color(COLOR_DEN / 2))),
    ));
    let smoke = raytracer::volumes::Constant::new(
        Rat::from_int(1000),
        boundary,
        canon_color(COLOR_DEN / 2),
    );
    let r = Ray::new(Vec3i::new(0, 0, 0), Vec3i::new(0, 0, -1), Rat::from_int(0));
    let mut rng = Prng::new(99);
    let rec = smoke
        .hit(&r, &Rat::new(1, 1000), &Rat::from_int(1000), &mut rng)
        .expect("scatter inside the medium");
    // The scatter point lies within the boundary's chord [8, 12].
    assert!(rec.t.num * 1 >= 8 * rec.t.den - rec.t.den / 2);
    assert!(rec.t.num * 1 <= 12 * rec.t.den);
    assert!(rec.front_face);
}

#[test]
fn thin_medium_passes_through() {
    // A nearly massless medium: the free flight outruns the chord and the
    // ray passes through unscattered.
    let boundary = HitModel::Sphere(Sphere::new(
        Vec3i::new(0, 0, -10),
        2,
        Surface::Lambertian(SurfaceTexture::Solid(canon_color(COLOR_DEN / 2))),
    ));
    let haze = raytracer::volumes::Constant::new(
        Rat::new(1, 1000000),
        boundary,
        canon_color(COLOR_DEN / 2),
    );
    let r = Ray::new(Vec3i::new(0, 0, 0), Vec3i::new(0, 0, -1), Rat::from_int(0));
    let mut rng = Prng::new(2);
    // With density ~1e-6 the flight is astronomically long for any draw
    // that is not exactly 2^20.
    let mut any_scatter = false;
    for _ in 0..50 {
        if haze.hit(&r, &Rat::new(1, 1000), &Rat::from_int(1000), &mut rng).is_some() {
            any_scatter = true;
        }
    }
    assert!(!any_scatter);
}

#[test]
fn medium_sits_in_a_scene() {
    // A dense medium placed in the world list participates in transport:
    // the estimator runs, scatters inside it, and stays well formed.
    let boundary = HitModel::Sphere(Sphere::new(
        Vec3i::new(0, 0, -10),
        2,
        Surface::Lambertian(SurfaceTexture::Solid(canon_color(COLOR_DEN / 2))),
    ));
    let smoke = raytracer::volumes::Constant::new(
        Rat::from_int(1000),
        boundary,
        canon_color(COLOR_DEN / 2),
    );
    let mut world = HittableList::new();
    world.add(HitModel::Volume(smoke));
    let lights = HittableList::new();
    let images: Vec<PixelBuffer> = Vec::new();
    let background = canon_color(COLOR_DEN / 4);
    let mut rng = Prng::new(21);
    let r = Ray::new(Vec3i::new(0, 0, 0), Vec3i::new(0, 0, -1), Rat::from_int(0));
    let through = ray_color(&r, &background, &world, &lights, 8, &images, &mut rng);
    assert!(through.r.num >= 0);
    // A ray that misses the boundary still reads the background exactly.
    let aside = Ray::new(Vec3i::new(100, 100, 0), Vec3i::new(0, 0, -1), Rat::from_int(0));
    let miss = ray_color(&aside, &background, &world, &lights, 8, &images, &mut rng);
    assert_eq!(miss.r.num, background.r.num);
}

#[test]
fn sphere_pdf_covers_the_full_sphere() {
    // The whole-sphere strategy prices every direction at 1/(4*pi) under
    // the fixed 355/113 ratio for pi.
    let pdf = raytracer::pdf::SpherePDF::new();
    let v = pdf.value(&Vec3i::new(0, 1, 0));
    assert_eq!(v.num, 113);
    assert_eq!(v.den, 4 * 355);
    // Its draws land on both sides of every coordinate plane eventually:
    // no hemisphere restriction.
    let mut rng = Prng::new(7);
    let mut neg = false;
    let mut pos = false;
    for _ in 0..64 {
        let d = pdf.generate(&mut rng);
        assert!(d.x != 0 || d.y != 0 || d.z != 0);
        if d.z < 0 {
            neg = true;
        }
        if d.z > 0 {
            pos = true;
        }
    }
    assert!(neg && pos);
}

#[test]
fn isotropic_scatter_uses_the_sphere_strategy() {
    // A medium's phase function scatters diffusely over the full sphere
    // and attenuates by its own tint.
    let tint = canon_color(COLOR_DEN / 4);
    let boundary = HitModel::Sphere(Sphere::new(
        Vec3i::new(0, 0, -10),
        2,
        Surface::Lambertian(SurfaceTexture::Solid(canon_color(COLOR_DEN / 2))),
    ));
    let smoke = raytracer::volumes::Constant::new(Rat::from_int(1000), boundary, tint);
    let r = Ray::new(Vec3i::new(0, 0, 0), Vec3i::new(0, 0, -1), Rat::from_int(0));
    let mut rng = Prng::new(99);
    let rec = smoke
        .hit(&r, &Rat::new(1, 1000), &Rat::from_int(1000), &mut rng)
        .expect("scatter inside the medium");
    let images: Vec<PixelBuffer> = Vec::new();
    let srec = rec.material.scatter(&r, &rec, &images, &mut rng).expect("phase scatter");
    assert!(!srec.is_specular);
    match srec.pdf.expect("strategy") {
        raytracer::pdf::PDF::Sphere(_) => {},
        _ => panic!("the phase function must sample the full sphere"),
    }
    assert_eq!(srec.attenuation.r.num, (COLOR_DEN / 4) as i128);
    assert_eq!(srec.attenuation.r.den, COLOR_DEN as i128);
}

#[test]
fn fuzzy_metal_keeps_scatter_above_surface() {
    // With fuzz the perturbed direction decides absorption: every ray the
    // metal keeps leaves on the outside of the surface.
    let brushed = Surface::Metal(canon_color(COLOR_DEN), Rat::new(1, 2));
    let mut world = HittableList::new();
    world.add(HitModel::XZRect(XZRect::new(-5, 5, -5, 5, -3, brushed)));
    let r = Ray::new(Vec3i::new(0, 0, 0), Vec3i::new(1, -4, 0), Rat::from_int(0));
    let mut rng = Prng::new(11);
    let images: Vec<PixelBuffer> = Vec::new();
    let mut kept = 0;
    for _ in 0..32 {
        let rec = world
            .hit(&r, &Rat::new(1, 1000), &Rat::from_int(100), &mut rng)
            .expect("hit the plate");
        if let Some(srec) = rec.material.scatter(&r, &rec, &images, &mut rng) {
            let d = srec.specular_ray.expect("specular ray").dir;
            assert!(d.y > 0);
            kept += 1;
        }
    }
    assert!(kept > 0);
}

#[test]
fn bvh_build_keeps_duplicate_primitives() {
    // Building the hierarchy only permutes the backing list: a primitive
    // present twice is still present twice afterwards.
    let mat = Surface::Lambertian(SurfaceTexture::Solid(canon_color(COLOR_DEN / 2)));
    let twin = Sphere::new(Vec3i::new(3, 0, 0), 1, mat);
    let mut objects: Vec<HitModel> = Vec::new();
    objects.push(HitModel::Sphere(Sphere::new(Vec3i::new(-4, 0, 0), 1, mat)));
    objects.push(HitModel::Sphere(twin));
    objects.push(HitModel::Sphere(twin));
    objects.push(HitModel::Sphere(Sphere::new(Vec3i::new(0, 5, 0), 1, mat)));
    let mut rng = Prng::new(3);
    let node = raytracer::bvh::BVHNode::new(&mut objects, 0, 4, 0, 1, &mut rng);
    assert_eq!(objects.len(), 4);
    let dup = objects
        .iter()
        .filter(|m| match m {
            HitModel::Sphere(s) => s.center.x == 3,
            _ => false,
        })
        .count();
    assert_eq!(dup, 2);
    // The finished tree still finds the duplicated sphere.
    let tree = HitModel::BVH(node);
    let r = Ray::new(Vec3i::new(3, 0, 10), Vec3i::new(0, 0, -1), Rat::from_int(0));
    let rec = tree
        .hit(&r, &Rat::new(1, 1000), &Rat::from_int(100), &mut rng)
        .expect("hit the twin");
    assert_eq!(rec.t.num, 9 * rec.t.den);
}
