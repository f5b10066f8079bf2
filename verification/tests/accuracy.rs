use raytracer::fixed::Fixed;
use raytracer::hittable::Hittable;
use raytracer::hittable::Sphere;
use raytracer::interval::Interval;
use raytracer::material::Lambertian;
use raytracer::material::MaterialKind;
use raytracer::ray::Ray;
use raytracer::rng::Rng;
use raytracer::vec::Vec3;

const S: i128 = 1_000_000_000;

fn fx(x: f64) -> Fixed {
    Fixed::from_raw((x * 1e9).round() as i64)
}

fn v(x: f64, y: f64, z: f64) -> Vec3 {
    Vec3::new(fx(x), fx(y), fx(z))
}

fn grey() -> MaterialKind {
    MaterialKind::Lambertian(Lambertian::new(v(0.5, 0.5, 0.5)))
}

/// Exact squared distance of `p` from the center less the squared radius.
fn off_sphere(s: &Sphere, p: Vec3) -> i128 {
    let gx = (p.x.raw - s.center.x.raw) as i128;
    let gy = (p.y.raw - s.center.y.raw) as i128;
    let gz = (p.z.raw - s.center.z.raw) as i128;
    gx * gx + gy * gy + gz * gz - (s.radius.raw as i128) * (s.radius.raw as i128)
}

fn spread(s: &Sphere, p: Vec3) -> i128 {
    ((p.x.raw - s.center.x.raw) as i128).abs()
        + ((p.y.raw - s.center.y.raw) as i128).abs()
        + ((p.z.raw - s.center.z.raw) as i128).abs()
}

fn tolerance(a: i128, sq: i128, t: i128, sp: i128) -> i128 {
    S * S * (2 * sq + 2 * S + 1)
        + a * a
        + 2 * a * sq * S
        + a * (3 * t * t + 6 * S * t.abs() + 3 * S * S + 3 * S + 2 * S * sp)
}

fn check_hit(s: &Sphere, ray: &Ray) -> bool {
    let range = Interval::new(fx(0.001), Fixed::infinity());
    match s.hit(ray, range) {
        None => false,
        Some(rec) => {
            let oc = s.center - ray.origin;
            let a = ray.direction.length_squared();
            let h = ray.direction.dot(oc);
            let c = oc.length_squared() - s.radius * s.radius;
            let sq = (h * h - a * c).sqrt();
            let lhs = (a.raw as i128) * S * off_sphere(s, rec.point).abs();
            let rhs = tolerance(
                a.raw as i128,
                sq.raw as i128,
                rec.t.raw as i128,
                spread(s, rec.point),
            );
            assert!(lhs <= rhs, "off by {} against {}", lhs, rhs);
            true
        }
    }
}

#[test]
fn unit_squared_length_is_within_its_bounds() {
    let mut rng = Rng::new(77);
    for k in 0..2000 {
        let scale = [fx(0.000001), fx(0.01), fx(1.0), fx(50.0), fx(100000.0)][k % 5];
        let a = Vec3::random_minmax(&mut rng, -scale, scale);
        let n = a.x.raw as i128 * a.x.raw as i128
            + a.y.raw as i128 * a.y.raw as i128
            + a.z.raw as i128 * a.z.raw as i128;
        if n == 0 {
            continue;
        }
        let len = a.length().raw as i128;
        assert!(len * len <= n && n < (len + 1) * (len + 1));
        let u = a.unit();
        let sq = u.x.raw as i128 * u.x.raw as i128
            + u.y.raw as i128 * u.y.raw as i128
            + u.z.raw as i128 * u.z.raw as i128;
        assert!(sq > S * S - 6 * S - 3);
        // |u| <= 1 + 1 / len, compared in 256-bit-safe form.
        let lhs = (sq as f64) * (len as f64) * (len as f64);
        let rhs = (S as f64) * (S as f64) * ((len + 1) as f64) * ((len + 1) as f64);
        assert!(lhs < rhs * (1.0 + 1e-12));
    }
}

#[test]
fn random_unit_vector_squared_length_is_within_its_bounds() {
    let mut rng = Rng::new(13);
    for _ in 0..2000 {
        let u = Vec3::random_unitvector(&mut rng);
        let sq = u.x.raw as i128 * u.x.raw as i128
            + u.y.raw as i128 * u.y.raw as i128
            + u.z.raw as i128 * u.z.raw as i128;
        assert!(sq > S * S - 6 * S - 3);
        assert!(sq * 10_000 < S * S * 10_001);
    }
}

#[test]
fn hit_point_is_within_tolerance_of_the_sphere() {
    let spheres = [
        Sphere::new(v(0.0, 0.0, -1.0), fx(0.5), grey()),
        Sphere::new(v(0.0, -100.5, -1.0), fx(100.0), grey()),
        Sphere::new(v(3.0, 2.0, -7.0), fx(2.5), grey()),
        Sphere::new(v(0.0, -1000.0, 0.0), fx(999.5), grey()),
    ];
    let mut rng = Rng::new(4242);
    let mut hits = 0;
    for k in 0..4000 {
        let s = &spheres[k % spheres.len()];
        let origin = Vec3::random_minmax(&mut rng, fx(-1.0), fx(1.0));
        let aim = s.center - origin;
        let jitter = Vec3::random_minmax(&mut rng, fx(-0.6), fx(0.6));
        let dir = aim.unit() + jitter;
        if check_hit(s, &Ray::new(&origin, &dir)) {
            hits += 1;
        }
    }
    assert!(hits > 1000);
}

#[test]
fn hit_from_inside_is_within_tolerance_of_the_sphere() {
    let s = Sphere::new(v(0.5, -0.25, 0.0), fx(3.0), grey());
    let mut rng = Rng::new(99);
    for _ in 0..1000 {
        let origin = Vec3::random_minmax(&mut rng, fx(-1.0), fx(1.0));
        let dir = Vec3::random_minmax(&mut rng, fx(-2.0), fx(2.0));
        if dir.length_squared().raw >= 62_500_000 {
            assert!(check_hit(&s, &Ray::new(&origin, &dir)));
        }
    }
}

#[test]
fn hit_tolerance_is_small_for_a_unit_ray() {
    // For a unit direction and a sphere of radius one at distance two the
    // squared distance is off by less than a hundred billionths.
    let s = Sphere::new(v(0.0, 0.0, -2.0), fx(1.0), grey());
    let range = Interval::new(fx(0.001), Fixed::infinity());
    for i in -4..=4 {
        let dir = v(i as f64 * 0.1, 0.03, -1.0).unit();
        let ray = Ray::new(&v(0.0, 0.0, 0.0), &dir);
        let rec = s.hit(&ray, range).unwrap();
        assert!(off_sphere(&s, rec.point).abs() < 100 * S);
    }
}
