use raytracer::fixed::Fixed;
use raytracer::hittable::HitRecord;
use raytracer::material::Dielectric;
use raytracer::material::Lambertian;
use raytracer::material::Material;
use raytracer::material::MaterialKind;
use raytracer::material::Metal;
use raytracer::ray::Ray;
use raytracer::rng::Rng;
use raytracer::vec::Vec3;

fn fx(x: f64) -> Fixed {
    Fixed::from_raw((x * 1e9).round() as i64)
}

fn v(x: f64, y: f64, z: f64) -> Vec3 {
    Vec3::new(fx(x), fx(y), fx(z))
}

fn val(x: Fixed) -> f64 {
    x.raw as f64 / 1e9
}

fn floor_hit(material: MaterialKind, front: bool) -> HitRecord {
    let mut rec = HitRecord::new(v(1.0, 0.0, 2.0), v(0.0, 1.0, 0.0), fx(3.0), material);
    rec.front_face = Some(front);
    rec
}

fn diffuse() -> Lambertian {
    Lambertian::new(v(0.1, 0.2, 0.5))
}

#[test]
fn constructors_keep_their_arguments() {
    assert_eq!(diffuse().albedo, v(0.1, 0.2, 0.5));
    assert_eq!(Dielectric::new(fx(1.5)).refractive_index, fx(1.5));
    let m = Metal::new(v(0.8, 0.6, 0.2), fx(0.3));
    assert_eq!(m.albedo, v(0.8, 0.6, 0.2));
    assert_eq!(m.fuzz, fx(0.3));
}

#[test]
fn metal_fuzz_is_clamped() {
    assert_eq!(Metal::new(v(0.8, 0.8, 0.8), fx(1.5)).fuzz, fx(1.0));
    assert_eq!(Metal::new(v(0.8, 0.8, 0.8), fx(-0.5)).fuzz, fx(0.0));
    assert_eq!(Metal::new(v(0.8, 0.8, 0.8), fx(1.0)).fuzz, fx(1.0));
    assert_eq!(Metal::new(v(0.8, 0.8, 0.8), fx(0.0)).fuzz, fx(0.0));
}

#[test]
fn lambertian_scatters_along_displaced_normal() {
    let m = diffuse();
    let rec = floor_hit(MaterialKind::Lambertian(m), true);
    let (attenuation, scattered) = m.scatter_with(&rec, v(0.6, 0.0, 0.8));
    assert_eq!(attenuation, v(0.1, 0.2, 0.5));
    assert_eq!(scattered.origin, v(1.0, 0.0, 2.0));
    assert_eq!(scattered.direction, v(0.6, 1.0, 0.8));
}

#[test]
fn lambertian_falls_back_to_the_normal() {
    let m = diffuse();
    let rec = floor_hit(MaterialKind::Lambertian(m), true);
    let (_, scattered) = m.scatter_with(&rec, v(0.0, -1.0, 0.0));
    assert_eq!(scattered.direction, v(0.0, 1.0, 0.0));
    let almost = Vec3::new(Fixed::from_raw(5), fx(-1.0), Fixed::from_raw(-9));
    let (_, scattered) = m.scatter_with(&rec, almost);
    assert_eq!(scattered.direction, v(0.0, 1.0, 0.0));
}

#[test]
fn lambertian_always_scatters() {
    let m = diffuse();
    let rec = floor_hit(MaterialKind::Lambertian(m), true);
    let ray = Ray::new(&v(0.0, 1.0, 0.0), &v(1.0, -1.0, 2.0));
    let mut rng = Rng::new(42);
    for _ in 0..300 {
        let mut probe = rng;
        let unit = Vec3::random_unitvector(&mut probe);
        let got = m.scatter(&ray, &rec, &mut rng);
        assert_eq!(got, Some(m.scatter_with(&rec, unit)));
        assert_eq!(rng, probe);
    }
}

#[test]
fn metal_mirrors_without_fuzz() {
    let m = Metal::new(v(0.8, 0.8, 0.8), fx(0.0));
    let rec = floor_hit(MaterialKind::Metal(m), true);
    let ray = Ray::new(&v(-2.0, 4.0, 2.0), &v(3.0, -4.0, 0.0));
    let (attenuation, scattered) = m.scatter_with(&ray, &rec, v(0.0, 0.0, 1.0)).unwrap();
    assert_eq!(attenuation, v(0.8, 0.8, 0.8));
    assert_eq!(scattered.origin, v(1.0, 0.0, 2.0));
    assert!((val(scattered.direction.x) - 0.6).abs() < 1e-8);
    assert!((val(scattered.direction.y) - 0.8).abs() < 1e-8);
    assert_eq!(scattered.direction.z, Fixed::zero());
}

#[test]
fn metal_absorbs_when_fuzz_pushes_below_the_surface() {
    let m = Metal::new(v(0.8, 0.8, 0.8), fx(1.0));
    let rec = floor_hit(MaterialKind::Metal(m), true);
    let ray = Ray::new(&v(0.0, 1.0, 2.0), &v(1.0, -1.0, 0.0));
    // Mirror direction (0.707, 0.707, 0), pushed down by a whole unit.
    assert_eq!(m.scatter_with(&ray, &rec, v(0.0, -1.0, 0.0)), None);
    // Pushed sideways it still leaves the surface.
    assert!(m.scatter_with(&ray, &rec, v(1.0, 0.0, 0.0)).is_some());
}

#[test]
fn metal_absorbs_exactly_on_a_non_positive_product() {
    let m = Metal::new(v(0.8, 0.6, 0.2), fx(0.9));
    let rec = floor_hit(MaterialKind::Metal(m), true);
    let ray = Ray::new(&v(0.0, 1.0, 2.0), &v(2.0, -0.3, 0.5));
    let mut rng = Rng::new(8);
    let mut absorbed = 0;
    let mut scattered_count = 0;
    for _ in 0..400 {
        let unit = Vec3::random_unitvector(&mut rng);
        let reflected = ray.direction.unit().reflect(&rec.normal);
        let direction = reflected.unit() + unit * m.fuzz;
        let leaves = direction.dot(rec.normal).raw > 0;
        match m.scatter_with(&ray, &rec, unit) {
            None => {
                assert!(!leaves);
                absorbed += 1;
            }
            Some((attenuation, out)) => {
                assert!(leaves);
                assert_eq!(attenuation, m.albedo);
                assert_eq!(out.origin, rec.point);
                assert_eq!(out.direction, direction);
                scattered_count += 1;
            }
        }
    }
    assert!(absorbed > 0);
    assert!(scattered_count > 0);
}

#[test]
fn metal_scatter_draws_one_unit_vector() {
    let m = Metal::new(v(0.8, 0.6, 0.2), fx(0.5));
    let rec = floor_hit(MaterialKind::Metal(m), true);
    let ray = Ray::new(&v(0.0, 1.0, 2.0), &v(1.0, -1.0, 0.0));
    let mut rng = Rng::new(17);
    let mut probe = rng;
    let unit = Vec3::random_unitvector(&mut probe);
    assert_eq!(m.scatter(&ray, &rec, &mut rng), m.scatter_with(&ray, &rec, unit));
    assert_eq!(rng, probe);
}

#[test]
fn schlick_reflectance_values() {
    // r0 = ((1 - 1.5) / (1 + 1.5))^2 = 0.04
    assert_eq!(Dielectric::reflectance(fx(1.0), fx(1.5)), fx(0.04));
    assert_eq!(Dielectric::reflectance(fx(0.0), fx(1.5)), fx(1.0));
    // 0.04 + 0.96 * 0.5^5 = 0.07
    assert_eq!(Dielectric::reflectance(fx(0.5), fx(1.5)), fx(0.07));
    assert_eq!(Dielectric::reflectance(fx(0.3), fx(1.0)), fx(0.16807));
}

#[test]
fn dielectric_refracts_head_on() {
    let m = Dielectric::new(fx(1.5));
    let rec = floor_hit(MaterialKind::Dielectric(m), true);
    let ray = Ray::new(&v(1.0, 5.0, 2.0), &v(0.0, -5.0, 0.0));
    let (attenuation, scattered) = m.scatter_with(&ray, &rec, fx(0.5));
    assert_eq!(attenuation, v(1.0, 1.0, 1.0));
    assert_eq!(scattered.origin, v(1.0, 0.0, 2.0));
    assert_eq!(scattered.direction, v(0.0, -1.0, 0.0));
}

#[test]
fn dielectric_reflects_on_a_low_draw() {
    let m = Dielectric::new(fx(1.5));
    let rec = floor_hit(MaterialKind::Dielectric(m), true);
    let ray = Ray::new(&v(1.0, 5.0, 2.0), &v(0.0, -5.0, 0.0));
    // Reflectance head-on is about 0.04.
    let (_, scattered) = m.scatter_with(&ray, &rec, fx(0.01));
    assert_eq!(scattered.direction, v(0.0, 1.0, 0.0));
}

#[test]
fn dielectric_reflects_totally_from_inside() {
    let m = Dielectric::new(fx(1.5));
    let rec = floor_hit(MaterialKind::Dielectric(m), false);
    let ray = Ray::new(&v(0.2, 0.6, 2.0), &v(0.8, -0.6, 0.0));
    // sin = 0.8 and 1.5 * 0.8 > 1, whatever the draw.
    for draw in [fx(0.0), fx(0.5), fx(0.999999999)] {
        let (attenuation, scattered) = m.scatter_with(&ray, &rec, draw);
        assert_eq!(attenuation, v(1.0, 1.0, 1.0));
        assert_eq!(scattered.direction, v(0.8, 0.6, 0.0));
    }
}

#[test]
fn dielectric_uses_the_inverse_index_from_outside() {
    let m = Dielectric::new(fx(2.0));
    let ray = Ray::new(&v(0.4, 0.8, 2.0), &v(0.6, -0.8, 0.0));
    let outside = floor_hit(MaterialKind::Dielectric(m), true);
    let (_, scattered) = m.scatter_with(&ray, &outside, fx(0.999999999));
    // sin(out) = sin(in) / 2 = 0.3
    assert!((val(scattered.direction.x) - 0.3).abs() < 1e-8);
    assert!((val(scattered.direction.y) + 0.91f64.sqrt()).abs() < 1e-8);
    let mut unset = outside;
    unset.front_face = None;
    let (_, scattered) = m.scatter_with(&ray, &unset, fx(0.999999999));
    // With the index itself, 2 * 0.6 > 1: total reflection.
    assert_eq!(scattered.direction, v(0.6, 0.8, 0.0));
}

#[test]
fn dielectric_always_scatters() {
    let m = Dielectric::new(fx(1.5));
    let ray = Ray::new(&v(0.0, 1.0, 2.0), &v(1.0, -0.7, 0.3));
    let mut rng = Rng::new(77);
    for k in 0..300 {
        let rec = floor_hit(MaterialKind::Dielectric(m), k % 2 == 0);
        let mut probe = rng;
        let draw = probe.next_unit();
        let got = m.scatter(&ray, &rec, &mut rng);
        assert_eq!(got, Some(m.scatter_with(&ray, &rec, draw)));
        assert_eq!(rng, probe);
    }
}

#[test]
fn material_kind_dispatches() {
    let ray = Ray::new(&v(0.0, 1.0, 2.0), &v(1.0, -1.0, 0.0));
    let l = diffuse();
    let m = Metal::new(v(0.8, 0.6, 0.2), fx(0.5));
    let d = Dielectric::new(fx(1.5));
    for seed in 0..20u64 {
        let rec = floor_hit(MaterialKind::Lambertian(l), true);
        let mut a = Rng::new(seed);
        let mut b = Rng::new(seed);
        assert_eq!(
            MaterialKind::Lambertian(l).scatter(&ray, &rec, &mut a),
            l.scatter(&ray, &rec, &mut b)
        );
        assert_eq!(a, b);
        assert_eq!(
            MaterialKind::Metal(m).scatter(&ray, &rec, &mut a),
            m.scatter(&ray, &rec, &mut b)
        );
        assert_eq!(a, b);
        assert_eq!(
            MaterialKind::Dielectric(d).scatter(&ray, &rec, &mut a),
            d.scatter(&ray, &rec, &mut b)
        );
        assert_eq!(a, b);
    }
}
