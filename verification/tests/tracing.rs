use raytracer::camera::Camera;
use raytracer::fixed::Fixed;
use raytracer::hittable::Hittable;
use raytracer::hittable::Sphere;
use raytracer::interval::Interval;
use raytracer::material::Dielectric;
use raytracer::material::Lambertian;
use raytracer::material::Material;
use raytracer::material::MaterialKind;
use raytracer::material::Metal;
use raytracer::ray::Ray;
use raytracer::rng::Rng;
use raytracer::vec::Vec3;

fn fx(x: f64) -> Fixed {
    Fixed::from_raw((x * 1e9).round() as i64)
}

fn v(x: f64, y: f64, z: f64) -> Vec3 {
    Vec3::new(fx(x), fx(y), fx(z))
}

fn val(x: Fixed) -> f64 {
    x.raw as f64 / 1e9
}

fn scene() -> Vec<Sphere> {
    let ground = MaterialKind::Lambertian(Lambertian::new(v(0.8, 0.8, 0.0)));
    let center = MaterialKind::Lambertian(Lambertian::new(v(0.1, 0.2, 0.5)));
    let left = MaterialKind::Dielectric(Dielectric::new(fx(1.5)));
    let right = MaterialKind::Metal(Metal::new(v(0.8, 0.6, 0.2), fx(1.0)));
    vec![
        Sphere::new(v(0.0, -100.5, -1.0), fx(100.0), ground),
        Sphere::new(v(0.0, 0.0, -1.2), fx(0.5), center),
        Sphere::new(v(-1.0, 0.0, -1.0), fx(0.5), left),
        Sphere::new(v(1.0, 0.0, -1.0), fx(0.5), right),
    ]
}

#[test]
fn no_depth_is_black() {
    let world = scene();
    let empty: Vec<Sphere> = Vec::new();
    let mut rng = Rng::new(1);
    for dir in [v(0.0, 0.0, -1.0), v(0.0, 1.0, 0.0), v(1.0, 0.0, -1.0), v(-1.0, 0.1, -1.0)] {
        let ray = Ray::new(&v(0.0, 0.0, 0.0), &dir);
        assert_eq!(Camera::ray_color(&ray, &world, 0, &mut rng), v(0.0, 0.0, 0.0));
        assert_eq!(Camera::ray_color(&ray, &empty, 0, &mut rng), v(0.0, 0.0, 0.0));
    }
    assert_eq!(rng, Rng::new(1));
}

#[test]
fn empty_world_is_background() {
    let empty: Vec<Sphere> = Vec::new();
    let mut rng = Rng::new(1);
    for dir in [v(0.0, 0.0, -1.0), v(0.3, 0.4, -1.0), v(1.0, -2.0, 0.5)] {
        let ray = Ray::new(&v(0.5, 0.5, 0.5), &dir);
        for depth in [1u32, 2, 10, 50] {
            assert_eq!(Camera::ray_color(&ray, &empty, depth, &mut rng), Camera::background(&ray));
        }
    }
    assert_eq!(rng, Rng::new(1));
}

#[test]
fn background_ends_are_exact() {
    let white = v(1.0, 1.0, 1.0);
    let sky_blue = v(0.5, 0.7, 1.0);
    let empty: Vec<Sphere> = Vec::new();
    let mut rng = Rng::new(3);
    for k in [1.0, 0.001, 250.0, 3.75] {
        let down = Ray::new(&v(0.0, 0.0, 0.0), &v(0.0, -k, 0.0));
        let up = Ray::new(&v(0.0, 0.0, 0.0), &v(0.0, k, 0.0));
        assert_eq!(Camera::background(&down), white);
        assert_eq!(Camera::background(&up), sky_blue);
        assert_eq!(Camera::ray_color(&down, &empty, 5, &mut rng), white);
        assert_eq!(Camera::ray_color(&up, &empty, 5, &mut rng), sky_blue);
    }
}

#[test]
fn background_blends_by_height() {
    // Level ray: a = 0.5, the mean of white and sky blue.
    let level = Ray::new(&v(0.0, 0.0, 0.0), &v(0.0, 0.0, -2.0));
    assert_eq!(Camera::background(&level), v(0.75, 0.85, 1.0));
    // Unit direction (0.6, 0.8, 0): a = 0.9.
    let rising = Ray::new(&v(0.0, 0.0, 0.0), &v(3.0, 4.0, 0.0));
    assert_eq!(Camera::background(&rising), v(0.55, 0.73, 1.0));
}

#[test]
fn absorbed_ray_is_black() {
    // A fully fuzzed metal floor hit at a grazing angle absorbs some rays.
    let metal = Metal::new(v(0.8, 0.8, 0.8), fx(1.0));
    let world = vec![Sphere::new(v(0.0, -100.0, 0.0), fx(100.0), MaterialKind::Metal(metal))];
    let ray = Ray::new(&v(-5.0, 1.0, 0.0), &v(5.0, -1.0, 0.0));
    let range = Interval::new(fx(0.001), Fixed::infinity());
    let rec = world.hit(&ray, range).unwrap();
    let mut absorbed = 0;
    for seed in 0..200u64 {
        let mut probe = Rng::new(seed);
        let outcome = metal.scatter(&ray, &rec, &mut probe);
        let mut rng = Rng::new(seed);
        let color = Camera::ray_color(&ray, &world, 3, &mut rng);
        if outcome.is_none() {
            absorbed += 1;
            assert_eq!(color, v(0.0, 0.0, 0.0));
            assert_eq!(rng, probe);
        }
    }
    assert!(absorbed > 0);
}

#[test]
fn one_bounce_multiplies_attenuation_and_the_next_color() {
    let world = scene();
    let range = Interval::new(fx(0.001), Fixed::infinity());
    for seed in 0..50u64 {
        let ray = Ray::new(&v(0.0, 0.0, 0.0), &v(0.1, -0.05, -1.0));
        let rec = world.hit(&ray, range).unwrap();
        let mut probe = Rng::new(seed);
        let expected = match rec.material.scatter(&ray, &rec, &mut probe) {
            Some((attenuation, scattered)) => {
                attenuation * Camera::ray_color(&scattered, &world, 4, &mut probe)
            }
            None => v(0.0, 0.0, 0.0),
        };
        let mut rng = Rng::new(seed);
        assert_eq!(Camera::ray_color(&ray, &world, 5, &mut rng), expected);
        assert_eq!(rng, probe);
    }
}

#[test]
fn last_bounce_on_a_surface_is_black() {
    let world = scene();
    let ray = Ray::new(&v(0.0, 0.0, 0.0), &v(0.0, 0.0, -1.0));
    let mut rng = Rng::new(9);
    assert_eq!(Camera::ray_color(&ray, &world, 1, &mut rng), v(0.0, 0.0, 0.0));
}

#[test]
fn traced_colors_stay_between_black_and_white() {
    let world = scene();
    let mut rng = Rng::new(123);
    for i in -10..=10 {
        for j in -5..=5 {
            let ray = Ray::new(&v(0.0, 0.0, 0.0), &v(i as f64 * 0.15, j as f64 * 0.15, -1.0));
            let c = Camera::ray_color(&ray, &world, 10, &mut rng);
            for ch in [c.x, c.y, c.z] {
                assert!(0.0 <= val(ch) && val(ch) <= 1.0, "channel {}", val(ch));
            }
        }
    }
}

#[test]
fn camera_geometry_for_sixteen_to_nine() {
    let cam = Camera::new(fx(16.0) / fx(9.0), 400);
    assert_eq!(cam.aspect_ratio.raw, 1_777_777_777);
    assert_eq!(cam.image_width, 400);
    assert_eq!(cam.image_height, 225);
    assert_eq!(cam.samples_per_pixel, 100);
    assert_eq!(cam.max_depth, 10);
    assert_eq!(cam.center, v(0.0, 0.0, 0.0));
    // Viewport 3.555555554 wide and 2 high.
    assert_eq!(cam.pixel_delta_u, Vec3::new(Fixed::from_raw(8_888_888), fx(0.0), fx(0.0)));
    assert_eq!(cam.pixel_delta_v, Vec3::new(fx(0.0), Fixed::from_raw(-8_888_888), fx(0.0)));
    assert_eq!(
        cam.pixel00_loc,
        Vec3::new(
            Fixed::from_raw(-1_777_777_777 + 4_444_444),
            Fixed::from_raw(1_000_000_000 - 4_444_444),
            fx(-1.0)
        )
    );
}

#[test]
fn image_height_is_at_least_one() {
    assert_eq!(Camera::new(fx(16.0) / fx(9.0), 1).image_height, 1);
    assert_eq!(Camera::new(fx(100.0), 10).image_height, 1);
    assert_eq!(Camera::new(fx(1.0), 7).image_height, 7);
    assert_eq!(Camera::new(fx(2.0), 7).image_height, 3);
    assert_eq!(Camera::new(fx(0.5), 7).image_height, 14);
    assert_eq!(Camera::new(fx(2.0), 0).image_height, 1);
}

#[test]
fn image_height_for_degenerate_ratios() {
    // A zero ratio makes the quotient infinite, a negative one makes it negative.
    assert_eq!(Camera::new(fx(0.0), 10).image_height, u32::MAX);
    assert_eq!(Camera::new(fx(-2.0), 10).image_height, 1);
}

#[test]
fn sample_square_is_centered() {
    let mut rng = Rng::new(4);
    for _ in 0..200 {
        let mut probe = rng;
        let x = probe.next_unit() - fx(0.5);
        let y = probe.next_unit() - fx(0.5);
        let s = Camera::sample_square(&mut rng);
        assert_eq!(s, Vec3::new(x, y, fx(0.0)));
        assert!(-500_000_000 <= s.x.raw && s.x.raw < 500_000_000);
        assert!(-500_000_000 <= s.y.raw && s.y.raw < 500_000_000);
        assert_eq!(rng, probe);
    }
}

#[test]
fn sample_ray_goes_through_its_pixel() {
    let cam = Camera::new(fx(2.0), 100);
    let mut rng = Rng::new(21);
    for (i, j) in [(0u32, 0u32), (99, 49), (50, 25), (7, 31)] {
        let mut probe = rng;
        let offset = Camera::sample_square(&mut probe);
        let ray = cam.get_ray(i, j, &mut rng);
        let sample = cam.pixel00_loc
            + cam.pixel_delta_u * (Fixed::from_u32(i) + offset.x)
            + cam.pixel_delta_v * (Fixed::from_u32(j) + offset.y);
        assert_eq!(ray.origin, cam.center);
        assert_eq!(ray.direction, sample - cam.center);
        assert_eq!(rng, probe);
        // Within half a pixel of the pixel's center.
        let centre = cam.pixel00_loc + i * cam.pixel_delta_u + j * cam.pixel_delta_v;
        assert!((val(ray.direction.x) - val(centre.x)).abs() <= 0.02 + 1e-6);
        assert!((val(ray.direction.y) - val(centre.y)).abs() <= 0.02 + 1e-6);
        assert_eq!(ray.direction.z, fx(-1.0));
    }
}

#[test]
fn pixel_color_is_the_mean_of_its_samples() {
    let world = scene();
    let mut cam = Camera::new(fx(2.0), 20);
    cam.samples_per_pixel = 4;
    cam.max_depth = 5;
    let mut rng = Rng::new(55);
    let mut probe = rng;
    let mut sum = v(0.0, 0.0, 0.0);
    for _ in 0..4 {
        let ray = cam.get_ray(3, 6, &mut probe);
        sum = sum + Camera::ray_color(&ray, &world, 5, &mut probe);
    }
    assert_eq!(cam.pixel_color(&world, 3, 6, &mut rng), sum * fx(0.25));
    assert_eq!(rng, probe);
}

#[test]
fn pixel_without_samples_is_black() {
    let world = scene();
    let mut cam = Camera::new(fx(2.0), 20);
    cam.samples_per_pixel = 0;
    let mut rng = Rng::new(55);
    assert_eq!(cam.pixel_color(&world, 3, 6, &mut rng), v(0.0, 0.0, 0.0));
    assert_eq!(rng, Rng::new(55));
}
