use raytracer::aabb::Aabb;
use raytracer::aabb::surrounding_box;
use raytracer::bvh::BVHNode;
use raytracer::color::ColorR;
use raytracer::color::process_color;
use raytracer::hittable::HitModel;
use raytracer::hittable::HittableList;
use raytracer::material::Surface;
use raytracer::rat::Rat;
use raytracer::ray::Ray;
use raytracer::rect::XZRect;
use raytracer::rng::Prng;
use raytracer::sphere::Sphere;
use raytracer::texture::SurfaceTexture;
use raytracer::vec3::Vec3i;

fn solid_gray() -> Surface {
    Surface::Lambertian(SurfaceTexture::Solid(ColorR::new(
        Rat::new(1, 2),
        Rat::new(1, 2),
        Rat::new(1, 2),
    )))
}

fn rat_is(r: &Rat, num: i64, den: i64) -> bool {
    // Exact value comparison by cross multiplication.
    r.num * (den as i128) == (num as i128) * r.den
}

#[test]
fn aabb_hit_axis_ray() {
    let b = Aabb::new(Vec3i::new(-1, -1, -1), Vec3i::new(1, 1, 1));
    let r = Ray::new(Vec3i::new(-5, 0, 0), Vec3i::new(1, 0, 0), Rat::from_int(0));
    assert!(b.hit(&r, &Rat::from_int(0), &Rat::from_int(100)));
    let miss = Ray::new(Vec3i::new(-5, 5, 0), Vec3i::new(1, 0, 0), Rat::from_int(0));
    assert!(!miss.dir.near_zero());
    assert!(!b.hit(&miss, &Rat::from_int(0), &Rat::from_int(100)));
}

#[test]
fn surrounding_box_union() {
    let a = Aabb::new(Vec3i::new(0, 0, 0), Vec3i::new(2, 2, 2));
    let b = Aabb::new(Vec3i::new(-2, -2, -2), Vec3i::new(1, 1, 1));
    let u = surrounding_box(a, b);
    assert_eq!(u.min(), Vec3i::new(-2, -2, -2));
    assert_eq!(u.max(), Vec3i::new(2, 2, 2));
}

#[test]
fn sphere_hit_front() {
    let s = Sphere::new(Vec3i::new(0, 0, -5), 1, solid_gray());
    let r = Ray::new(Vec3i::new(0, 0, 0), Vec3i::new(0, 0, -1), Rat::from_int(0));
    let rec = s.hit(&r, &Rat::new(1, 1000), &Rat::from_int(100)).expect("hit");
    assert!(rat_is(&rec.t, 4, 1));
    assert!(rec.front_face);
    // The outward normal at the hit point is (0, 0, 1).
    assert_eq!(rec.normal.nx, 0);
    assert_eq!(rec.normal.ny, 0);
    assert_eq!(rec.normal.nz, rec.normal.den);
}

#[test]
fn sphere_miss() {
    let s = Sphere::new(Vec3i::new(5, 5, 5), 1, solid_gray());
    let r = Ray::new(Vec3i::new(0, 0, 0), Vec3i::new(0, 0, -1), Rat::from_int(0));
    assert!(s.hit(&r, &Rat::new(1, 1000), &Rat::from_int(100)).is_none());
}

#[test]
fn sphere_inner_root() {
    // From the center, the nearer root is behind tmin; the farther one is
    // returned.
    let s = Sphere::new(Vec3i::new(0, 0, 0), 2, solid_gray());
    let r = Ray::new(Vec3i::new(0, 0, 0), Vec3i::new(0, 0, -1), Rat::from_int(0));
    let rec = s.hit(&r, &Rat::new(1, 1000), &Rat::from_int(100)).expect("hit");
    assert!(rat_is(&rec.t, 2, 1));
    assert!(!rec.front_face);
}

#[test]
fn list_closest_hit() {
    let mut world = HittableList::new();
    world.add(HitModel::Sphere(Sphere::new(Vec3i::new(0, 0, -10), 1, solid_gray())));
    world.add(HitModel::Sphere(Sphere::new(Vec3i::new(0, 0, -5), 1, solid_gray())));
    let r = Ray::new(Vec3i::new(0, 0, 0), Vec3i::new(0, 0, -1), Rat::from_int(0));
    let mut rng = Prng::new(1);
    let rec = world.hit(&r, &Rat::new(1, 1000), &Rat::from_int(1000), &mut rng).expect("hit");
    assert!(rat_is(&rec.t, 4, 1));
}

#[test]
fn empty_list_misses() {
    let world = HittableList::new();
    let r = Ray::new(Vec3i::new(0, 0, 0), Vec3i::new(0, 0, -1), Rat::from_int(0));
    let mut rng = Prng::new(1);
    assert!(world.hit(&r, &Rat::new(1, 1000), &Rat::from_int(1000), &mut rng).is_none());
    assert!(world.bounding_box(0, 1).is_none());
}

#[test]
fn rect_hit_and_uv() {
    let rect = XZRect::new(-2, 2, -2, 2, -3, solid_gray());
    let r = Ray::new(Vec3i::new(0, 0, 0), Vec3i::new(0, -1, 0), Rat::from_int(0));
    let rec = rect.hit(&r, &Rat::new(1, 1000), &Rat::from_int(100)).expect("hit");
    assert!(rat_is(&rec.t, 3, 1));
    assert!(rec.front_face);
    // Hit at the rectangle's center: both surface coordinates are 1/2.
    assert!(rat_is(&rec.u, 1, 2));
    assert!(rat_is(&rec.v, 1, 2));
}

#[test]
fn bvh_matches_linear_scan() {
    // The acceleration structure must agree with the plain scan for every
    // probe ray, at exactly the same parameter.
    let mut rng = Prng::new(7);
    let mut objects: Vec<HitModel> = Vec::new();
    let mut list = HittableList::new();
    let centers = [
        (0i64, 0i64, -8i64, 1i64),
        (3, 1, -12, 2),
        (-4, -2, -9, 1),
        (2, -3, -20, 4),
        (-1, 2, -6, 1),
        (5, 5, -15, 3),
        (0, -4, -11, 2),
    ];
    for (x, y, z, rad) in centers.iter() {
        let s = Sphere::new(Vec3i::new(*x, *y, *z), *rad, solid_gray());
        objects.push(HitModel::Sphere(s));
        list.add(HitModel::Sphere(s));
    }
    objects.push(HitModel::XZRect(XZRect::new(-6, 6, -25, -2, -5, solid_gray())));
    list.add(HitModel::XZRect(XZRect::new(-6, 6, -25, -2, -5, solid_gray())));
    let n = objects.len();
    let node = BVHNode::new(&mut objects, 0, n, 0, 1, &mut rng);
    let tree = HitModel::BVH(node);
    for dx in -5i64..6 {
        for dy in -5i64..6 {
            let r = Ray::new(Vec3i::new(0, 1, 2), Vec3i::new(dx, dy, -7), Rat::from_int(0));
            let ht = tree.hit(&r, &Rat::new(1, 1000), &Rat::from_int(100000), &mut rng);
            let hl = list.hit(&r, &Rat::new(1, 1000), &Rat::from_int(100000), &mut rng);
            match (ht, hl) {
                (None, None) => {},
                (Some(a), Some(b)) => {
                    assert_eq!(a.t.num * b.t.den, b.t.num * a.t.den);
                },
                _ => panic!("tree and scan disagree"),
            }
        }
    }
}

#[test]
fn reflect_mirror_angle() {
    // Angle of incidence equals angle of reflection: for a unit normal,
    // reflect(v, n) . n == -(v . n).
    let v = Vec3i::new(3, -2, 1);
    let n = Vec3i::new(0, 1, 0);
    let r = raytracer::vec3::reflect(&v, &n);
    let vn = v.dot(&n);
    let rn = r.dot(&n);
    assert_eq!(rn, -vn);
    assert_eq!(r.x, 3);
    assert_eq!(r.y, 2);
    assert_eq!(r.z, 1);
}

#[test]
fn process_color_sample_count_cancels() {
    // N identical samples averaged over N equal one sample alone.
    let c = ColorR::new(Rat::new(3, 4), Rat::new(1, 5), Rat::new(9, 10));
    for n in [2u32, 7, 100] {
        let acc = ColorR::new(
            Rat { num: c.r.num * (n as i128), den: c.r.den },
            Rat { num: c.g.num * (n as i128), den: c.g.den },
            Rat { num: c.b.num * (n as i128), den: c.b.den },
        );
        let lhs = process_color(acc, n);
        let rhs = process_color(c, 1);
        assert_eq!(lhs.r.num * rhs.r.den, rhs.r.num * lhs.r.den);
        assert_eq!(lhs.g.num * rhs.g.den, rhs.g.num * lhs.g.den);
        assert_eq!(lhs.b.num * rhs.b.den, rhs.b.num * lhs.b.den);
    }
}

#[test]
fn process_color_clamps_and_zeroes() {
    // A negative (non-finite) channel reads as zero; a huge one clamps to
    // 256 * 0.999.
    let c = ColorR::new(Rat::from_int(-3), Rat::from_int(1000000), Rat::from_int(0));
    let out = process_color(c, 1);
    assert!(rat_is(&out.r, 0, 1));
    assert_eq!(out.g.num * 1000, 255744 * out.g.den);
    assert!(rat_is(&out.b, 0, 1));
}

#[test]
fn translate_rebases_the_ray() {
    let s = Sphere::new(Vec3i::new(0, 0, 0), 1, solid_gray());
    let moved = raytracer::instances::Translate::new(
        HitModel::Sphere(s),
        Vec3i::new(0, 0, -5),
    );
    let tree = HitModel::Translate(moved);
    let r = Ray::new(Vec3i::new(0, 0, 0), Vec3i::new(0, 0, -1), Rat::from_int(0));
    let mut rng = Prng::new(1);
    let rec = tree.hit(&r, &Rat::new(1, 1000), &Rat::from_int(100), &mut rng).expect("hit");
    assert!(rat_is(&rec.t, 4, 1));
    // The reported point is in world coordinates: z = -4.
    assert_eq!(rec.p.nz, -4 * rec.p.den);
}

#[test]
fn list_accessors_keep_contents() {
    let mut list = HittableList::new();
    list.add(HitModel::Sphere(Sphere::new(Vec3i::new(0, 0, -5), 1, solid_gray())));
    assert_eq!(list.objects().len(), 1);
    let b = list.bounding_box(0, 1).expect("box");
    assert_eq!(b.min(), Vec3i::new(-1, -1, -6));
    assert_eq!(b.max(), Vec3i::new(1, 1, -4));
}

#[test]
fn perlin_tables_are_permutations() {
    let mut rng = Prng::new(8);
    let p = raytracer::perlin::Perlin::new(&mut rng);
    let mut seen = [false; 256];
    for &v in p.perm_x.iter() {
        assert!(v < 256);
        assert!(!seen[v], "index repeated");
        seen[v] = true;
    }
    // Hashed corner directions stay at unit scale.
    let v = p.corner_vector(1000, 3, 77);
    assert!(v.x.abs() <= 4096 && v.y.abs() <= 4096 && v.z.abs() <= 4096);
}

#[test]
fn moving_sphere_interpolates_between_shutter_times() {
    // At the shutter endpoints the moving sphere sits exactly at its
    // endpoint centers.
    let ms = raytracer::sphere::MovingSphere::new(
        Vec3i::new(0, 0, -5),
        Vec3i::new(0, 4, -5),
        0,
        1,
        1,
        solid_gray(),
    );
    let down = Ray::new(Vec3i::new(0, 0, 0), Vec3i::new(0, 0, -1), Rat::from_int(0));
    let rec0 = ms.hit(&down, &Rat::new(1, 1000), &Rat::from_int(100)).expect("hit at open");
    assert!(rat_is(&rec0.t, 4, 1));
    // At shutter close the sphere has moved up and the same ray misses.
    let late = Ray::new(Vec3i::new(0, 0, 0), Vec3i::new(0, 0, -1), Rat::from_int(1));
    assert!(ms.hit(&late, &Rat::new(1, 1000), &Rat::from_int(100)).is_none());
    // Halfway, the center is at y = 2 and a ray aimed there hits.
    let mid = Ray::new(Vec3i::new(0, 2, 0), Vec3i::new(0, 0, -1), Rat::new(1, 2));
    let rec_mid = ms.hit(&mid, &Rat::new(1, 1000), &Rat::from_int(100)).expect("hit midway");
    assert!(rat_is(&rec_mid.t, 4, 1));
}

#[test]
fn moving_sphere_box_spans_both_endpoints() {
    let ms = raytracer::sphere::MovingSphere::new(
        Vec3i::new(0, 0, -5),
        Vec3i::new(0, 4, -5),
        0,
        1,
        1,
        solid_gray(),
    );
    let b = ms.bounding_box();
    assert_eq!(b.min(), Vec3i::new(-1, -1, -6));
    assert_eq!(b.max(), Vec3i::new(1, 5, -4));
}
