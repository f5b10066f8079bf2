//! The camera: viewport geometry, sample rays, the trace of a ray through
//! the scene, and the rendering of an image.

use vstd::prelude::*;
use crate::color::color_line;
use crate::color::in_gamut;
use crate::color::lemma_line_counts;
use crate::color::ppm_header;
use crate::color::write_color;
use crate::color::write_header;
use crate::fixed::Fixed;
use crate::fixed::MAX_RAW;
use crate::fixed::SCALE;
use crate::hittable::nearest_hit;
use crate::hittable::Hittable;
use crate::hittable::Sphere;
use crate::interval::Interval;
use crate::material::Material;
use crate::material::white;
use crate::ray::Ray;
use crate::rng::Rng;
use crate::text::lemma_line_count_concat;
use crate::text::line_count;
use crate::vec::Vec3;
use crate::Color;
use crate::Point3;

verus! {

/// Raw value of the smallest ray parameter at which a hit counts: 0.001.
/// Nearer hits are taken for the surface that the ray starts on.
pub const HIT_MIN_RAW: i64 = 1_000_000;

/// Samples per pixel of a new camera.
pub const DEFAULT_SAMPLES: u32 = 100;

/// Bounces after which a ray carries no more light, for a new camera.
pub const DEFAULT_DEPTH: u32 = 10;

/// The color with all channels at zero.
pub open spec fn black() -> Color {
    Vec3::of(0, 0, 0)
}

/// The color of the sky overhead.
pub open spec fn sky_blue() -> Color {
    Vec3::of(500_000_000, 700_000_000, SCALE as int)
}

/// The ray parameters at which a hit counts: from 0.001 to infinity, ends
/// left out.
pub open spec fn trace_interval() -> Interval {
    Interval { min: Fixed::of(HIT_MIN_RAW as int), max: Fixed::of(MAX_RAW as int) }
}

/// Blending weight of the sky: half the height of the ray's unit direction
/// plus one half, so 0 straight down and 1 straight up.
pub open spec fn sky_weight(ray: Ray) -> Fixed {
    Fixed::of(SCALE / 2).times(ray.direction.unit_spec().y.plus(Fixed::of(SCALE as int)))
}

/// The color of a ray that hits nothing: white and sky blue, blended by
/// the height of the ray's direction.
#[verifier::opaque]
pub open spec fn background_spec(ray: Ray) -> Color {
    let a = sky_weight(ray);
    white().scaled(Fixed::of(SCALE as int).minus(a)).plus(sky_blue().scaled(a))
}

/// The color that a ray brings back from the scene, and the generator
/// after the trace. With no bounce left the color is black. A ray that hits
/// a surface is scattered by its material and brings back the attenuated
/// color of the scattered ray, or black where the material absorbs it. A
/// ray that hits nothing brings back the background.
pub open spec fn ray_color_spec(ray: Ray, world: Seq<Sphere>, depth: nat, rng: Rng) -> (
    Color,
    Rng,
)
    decreases depth,
{
    if depth == 0 {
        (black(), rng)
    } else {
        match nearest_hit(world, ray, trace_interval()) {
            Some(rec) => {
                let (scatter, after) = rec.material.scatter_from(ray, rec, rng);
                match scatter {
                    Some((attenuation, scattered)) => {
                        let (color, last) = ray_color_spec(
                            scattered,
                            world,
                            (depth - 1) as nat,
                            after,
                        );
                        (attenuation.times(color), last)
                    },
                    None => (black(), after),
                }
            },
            None => (background_spec(ray), rng),
        }
    }
}

/// A pinhole camera with its image size and sampling parameters.
#[derive(Clone, Copy, Debug, PartialEq, Eq, Structural)]
pub struct Camera {
    /// Ratio of image width to image height.
    pub aspect_ratio: Fixed,
    /// Image width in pixels.
    pub image_width: u32,
    /// Image height in pixels.
    pub image_height: u32,
    /// The eye: origin of all sample rays.
    pub center: Point3,
    /// Center of the pixel in the upper left corner.
    pub pixel00_loc: Point3,
    /// Offset from a pixel to its right neighbour.
    pub pixel_delta_u: Vec3,
    /// Offset from a pixel to the one below.
    pub pixel_delta_v: Vec3,
    /// Number of sample rays per pixel.
    pub samples_per_pixel: u32,
    /// Number of bounces after which a ray carries no more light.
    pub max_depth: u32,
}

impl Camera {
    /// The image has at least one row.
    pub open spec fn wf(self) -> bool {
        self.image_height >= 1
    }

    /// Image height for a width and an aspect ratio: their quotient rounded
    /// down, and at least one.
    pub open spec fn height_for(aspect_ratio: Fixed, image_width: u32) -> u32 {
        let h = Fixed::of(image_width * SCALE).over(aspect_ratio).to_u32_spec();
        if h < 1 {
            1
        } else {
            h as u32
        }
    }

    /// Width of the viewport, whose height is 2.
    pub open spec fn viewport_width(image_width: u32, image_height: u32) -> Fixed {
        Fixed::of(2 * SCALE).times(
            Fixed::of(image_width * SCALE).over(Fixed::of(image_height * SCALE)),
        )
    }

    /// The camera at the origin that looks down the negative z axis onto a
    /// viewport of height 2 at distance 1.
    #[verifier::opaque]
    pub open spec fn new_spec(aspect_ratio: Fixed, image_width: u32) -> Camera {
        let image_height = Camera::height_for(aspect_ratio, image_width);
        let center = Vec3::of(0, 0, 0);
        let viewport_u = Vec3 {
            x: Camera::viewport_width(image_width, image_height),
            y: Fixed::of(0),
            z: Fixed::of(0),
        };
        let viewport_v = Vec3::of(0, -2 * SCALE, 0);
        let pixel_delta_u = viewport_u.over(Fixed::of(image_width * SCALE));
        let pixel_delta_v = viewport_v.over(Fixed::of(image_height * SCALE));
        let viewport_upper_left = center.minus(Vec3::of(0, 0, SCALE as int)).minus(
            viewport_u.over(Fixed::of(2 * SCALE)),
        ).minus(viewport_v.over(Fixed::of(2 * SCALE)));
        Camera {
            aspect_ratio,
            image_width,
            image_height,
            center,
            pixel00_loc: viewport_upper_left.plus(
                pixel_delta_u.plus(pixel_delta_v).scaled(Fixed::of(SCALE / 2)),
            ),
            pixel_delta_u,
            pixel_delta_v,
            samples_per_pixel: DEFAULT_SAMPLES,
            max_depth: DEFAULT_DEPTH,
        }
    }

    /// Offset of a sample within its pixel: two draws, each moved to
    /// `[-0.5, 0.5)`.
    pub open spec fn sample_square_spec(rng: Rng) -> Vec3 {
        Vec3 {
            x: rng.unit_spec().minus(Fixed::of(SCALE / 2)),
            y: rng.next_state().unit_spec().minus(Fixed::of(SCALE / 2)),
            z: Fixed::of(0),
        }
    }

    /// The sample ray through pixel `(i, j)`: from the eye through the
    /// pixel's center displaced by the offset that `rng` yields.
    #[verifier::opaque]
    pub open spec fn get_ray_spec(self, i: u32, j: u32, rng: Rng) -> Ray {
        let offset = Camera::sample_square_spec(rng);
        let pixel_sample = self.pixel00_loc.plus(
            self.pixel_delta_u.scaled(Fixed::of(i * SCALE).plus(offset.x)),
        ).plus(self.pixel_delta_v.scaled(Fixed::of(j * SCALE).plus(offset.y)));
        Ray { origin: self.center, direction: pixel_sample.minus(self.center) }
    }

    /// Sum of the colors of the first `n` sample rays through pixel
    /// `(i, j)`, and the generator after them.
    pub open spec fn sample_sum(self, world: Seq<Sphere>, i: u32, j: u32, n: nat, rng: Rng) -> (
        Color,
        Rng,
    )
        decreases n,
    {
        if n == 0 {
            (black(), rng)
        } else {
            let (sum, after) = self.sample_sum(world, i, j, (n - 1) as nat, rng);
            let ray = self.get_ray_spec(i, j, after);
            let (color, last) = ray_color_spec(ray, world, self.max_depth as nat, after.skip(2));
            (sum.plus(color), last)
        }
    }

    /// Weight of one sample in the mean of a pixel.
    pub open spec fn pixel_sample_scale(self) -> Fixed {
        Fixed::of(SCALE as int).over(Fixed::of(self.samples_per_pixel * SCALE))
    }

    /// Color of pixel `(i, j)`: the mean of its samples.
    pub open spec fn pixel_color_spec(self, world: Seq<Sphere>, i: u32, j: u32, rng: Rng) -> (
        Color,
        Rng,
    ) {
        let (sum, after) = self.sample_sum(world, i, j, self.samples_per_pixel as nat, rng);
        (sum.scaled(self.pixel_sample_scale()), after)
    }

    /// Text of the first `n` pixels of row `j`, left to right.
    pub open spec fn row_text(self, world: Seq<Sphere>, j: u32, n: nat, rng: Rng) -> (
        Seq<u8>,
        Rng,
    )
        decreases n,
    {
        if n == 0 {
            (Seq::empty(), rng)
        } else {
            let (text, after) = self.row_text(world, j, (n - 1) as nat, rng);
            let (color, last) = self.pixel_color_spec(world, (n - 1) as u32, j, after);
            (text + color_line(color), last)
        }
    }

    /// Text of the first `n` rows, top to bottom.
    pub open spec fn rows_text(self, world: Seq<Sphere>, n: nat, rng: Rng) -> (Seq<u8>, Rng)
        decreases n,
    {
        if n == 0 {
            (Seq::empty(), rng)
        } else {
            let (text, after) = self.rows_text(world, (n - 1) as nat, rng);
            let (row, last) = self.row_text(world, (n - 1) as u32, self.image_width as nat, after);
            (text + row, last)
        }
    }

    /// The image as a plain pixmap: the header, and a line for every pixel,
    /// row by row from the top, each row from the left.
    pub open spec fn render_spec(self, world: Seq<Sphere>, rng: Rng) -> (Seq<u8>, Rng) {
        let (rows, after) = self.rows_text(world, self.image_height as nat, rng);
        (ppm_header(self.image_width, self.image_height) + rows, after)
    }

    /// The color that `ray` brings back from `world` within `depth`
    /// bounces.
    pub fn ray_color(ray: &Ray, world: &Vec<Sphere>, depth: u32, rng: &mut Rng) -> (r: Color)
        ensures
            (r, *final(rng)) == ray_color_spec(*ray, world@, depth as nat, *old(rng)),
        decreases depth,
    {
        if depth == 0 {
            return Vec3::new(Fixed::zero(), Fixed::zero(), Fixed::zero());
        }
        let range: Interval = Interval::new(Fixed::from_raw(HIT_MIN_RAW), Fixed::infinity());
        if let Some(rec) = world.hit(ray, range) {
            if let Some((attenuation, scattered)) = rec.material.scatter(ray, &rec, rng) {
                let color: Color = Camera::ray_color(&scattered, world, depth - 1, rng);
                return attenuation * color;
            }
            return Vec3::new(Fixed::zero(), Fixed::zero(), Fixed::zero());
        }
        Camera::background(ray)
    }

    /// The color of a ray that hits nothing.
    pub fn background(ray: &Ray) -> (r: Color)
        ensures
            r == background_spec(*ray),
    {
        proof {
            reveal(background_spec);
        }
        let unit_direction: Vec3 = ray.direction.unit();
        let a: Fixed = Fixed::from_raw(SCALE / 2) * (unit_direction.y + Fixed::one());
        Vec3::new(Fixed::one(), Fixed::one(), Fixed::one()) * (Fixed::one() - a) + Vec3::new(
            Fixed::from_raw(500_000_000),
            Fixed::from_raw(700_000_000),
            Fixed::one(),
        ) * a
    }

    /// The camera for an image of the given width and aspect ratio, with
    /// the default number of samples and depth.
    pub fn new(aspect_ratio: Fixed, image_width: u32) -> (r: Camera)
        ensures
            r.wf(),
            r == Camera::new_spec(aspect_ratio, image_width),
            r.image_width == image_width,
            r.image_height == Camera::height_for(aspect_ratio, image_width),
            r.image_height >= 1,
            r.samples_per_pixel == DEFAULT_SAMPLES,
            r.max_depth == DEFAULT_DEPTH,
    {
        proof {
            reveal(Camera::new_spec);
        }
        let temp_image_height: u32 = (Fixed::from_u32(image_width) / aspect_ratio).to_u32();
        let image_height: u32 = if temp_image_height < 1 {
            1
        } else {
            temp_image_height
        };
        let two: Fixed = Fixed::from_i32(2);
        let width: Fixed = Fixed::from_u32(image_width);
        let height: Fixed = Fixed::from_u32(image_height);
        let viewport_width: Fixed = two * (width / height);

        let center: Point3 = Vec3::new(Fixed::zero(), Fixed::zero(), Fixed::zero());
        let viewport_u: Vec3 = Vec3::new(viewport_width, Fixed::zero(), Fixed::zero());
        let viewport_v: Vec3 = Vec3::new(Fixed::zero(), Fixed::from_i32(-2), Fixed::zero());

        let pixel_delta_u: Vec3 = viewport_u / width;
        let pixel_delta_v: Vec3 = viewport_v / height;

        let viewport_upper_left: Vec3 = center - Vec3::new(
            Fixed::zero(),
            Fixed::zero(),
            Fixed::one(),
        ) - viewport_u / two - viewport_v / two;
        let pixel00_loc: Vec3 = viewport_upper_left + Fixed::from_raw(SCALE / 2) * (pixel_delta_u
            + pixel_delta_v);
        Camera {
            aspect_ratio,
            image_width,
            image_height,
            center,
            pixel00_loc,
            pixel_delta_u,
            pixel_delta_v,
            samples_per_pixel: DEFAULT_SAMPLES,
            max_depth: DEFAULT_DEPTH,
        }
    }

    /// Offset of a sample within its pixel.
    pub fn sample_square(rng: &mut Rng) -> (r: Vec3)
        ensures
            r == Camera::sample_square_spec(*old(rng)),
            -SCALE / 2 <= r.x.raw < SCALE / 2,
            -SCALE / 2 <= r.y.raw < SCALE / 2,
            r.z.raw == 0,
            *final(rng) == old(rng).skip(2),
    {
        let half: Fixed = Fixed::from_raw(SCALE / 2);
        let x: Fixed = rng.next_unit() - half;
        let y: Fixed = rng.next_unit() - half;
        proof {
            reveal_with_fuel(Rng::skip, 3);
        }
        Vec3::new(x, y, Fixed::zero())
    }

    /// A sample ray through pixel `(i, j)`.
    pub fn get_ray(&self, i: u32, j: u32, rng: &mut Rng) -> (r: Ray)
        ensures
            r == self.get_ray_spec(i, j, *old(rng)),
            *final(rng) == old(rng).skip(2),
    {
        proof {
            reveal(Camera::get_ray_spec);
        }
        let offset: Vec3 = Camera::sample_square(rng);
        let pixel_sample: Vec3 = self.pixel00_loc + (Fixed::from_u32(i) + offset.x)
            * self.pixel_delta_u + (Fixed::from_u32(j) + offset.y) * self.pixel_delta_v;
        let ray_origin: Point3 = self.center;
        let ray_direction: Vec3 = pixel_sample - ray_origin;
        Ray::new(&ray_origin, &ray_direction)
    }

    /// The color of pixel `(i, j)`: the mean of its sample rays' colors.
    pub fn pixel_color(&self, world: &Vec<Sphere>, i: u32, j: u32, rng: &mut Rng) -> (r: Color)
        ensures
            (r, *final(rng)) == self.pixel_color_spec(world@, i, j, *old(rng)),
    {
        let mut sum: Color = Vec3::new(Fixed::zero(), Fixed::zero(), Fixed::zero());
        let mut n: u32 = 0;
        while n < self.samples_per_pixel
            invariant
                n <= self.samples_per_pixel,
                (sum, *rng) == self.sample_sum(world@, i, j, n as nat, *old(rng)),
            decreases self.samples_per_pixel - n,
        {
            let ray: Ray = self.get_ray(i, j, rng);
            sum = sum + Camera::ray_color(&ray, world, self.max_depth, rng);
            n = n + 1;
        }
        let scale: Fixed = Fixed::one() / Fixed::from_u32(self.samples_per_pixel);
        sum * scale
    }

    /// Appends the lines of the pixels of row `j`, from the left.
    pub fn write_row(&self, out: &mut Vec<u8>, world: &Vec<Sphere>, j: u32, rng: &mut Rng)
        ensures
            final(out)@ == old(out)@ + self.row_text(
                world@,
                j,
                self.image_width as nat,
                *old(rng),
            ).0,
            *final(rng) == self.row_text(world@, j, self.image_width as nat, *old(rng)).1,
    {
        let mut i: u32 = 0;
        while i < self.image_width
            invariant
                i <= self.image_width,
                out@ == old(out)@ + self.row_text(world@, j, i as nat, *old(rng)).0,
                *rng == self.row_text(world@, j, i as nat, *old(rng)).1,
            decreases self.image_width - i,
        {
            let pixel: Color = self.pixel_color(world, i, j, rng);
            write_color(out, &pixel);
            i = i + 1;
        }
    }

    /// Renders `world` as a plain pixmap.
    pub fn render(&self, world: &Vec<Sphere>, rng: &mut Rng) -> (out: Vec<u8>)
        ensures
            (out@, *final(rng)) == self.render_spec(world@, *old(rng)),
    {
        let mut out: Vec<u8> = Vec::new();
        write_header(&mut out, self.image_width, self.image_height);
        let mut j: u32 = 0;
        while j < self.image_height
            invariant
                j <= self.image_height,
                out@ == ppm_header(self.image_width, self.image_height) + self.rows_text(
                    world@,
                    j as nat,
                    *old(rng),
                ).0,
                *rng == self.rows_text(world@, j as nat, *old(rng)).1,
            decreases self.image_height - j,
        {
            self.write_row(&mut out, world, j, rng);
            j = j + 1;
        }
        out
    }
}

/// With no bounce left a ray brings back black, whatever the scene holds,
/// and the generator is not touched.
pub proof fn lemma_no_depth_is_black(ray: Ray, world: Seq<Sphere>, rng: Rng)
    ensures
        ray_color_spec(ray, world, 0, rng) == (black(), rng),
{
}

/// In a scene without surfaces every ray with a bounce left brings back the
/// background, and the generator is not touched.
pub proof fn lemma_empty_world_is_background(ray: Ray, world: Seq<Sphere>, depth: nat, rng: Rng)
    requires
        world.len() == 0,
        depth > 0,
    ensures
        ray_color_spec(ray, world, depth, rng) == (background_spec(ray), rng),
{
}

/// The ends of the background blend are exact: a ray whose unit direction
/// has height minus one brings back white, and one with height one sky
/// blue.
pub proof fn lemma_background_ends(ray: Ray)
    ensures
        ray.direction.unit_spec().y.raw == -SCALE ==> background_spec(ray) == white(),
        ray.direction.unit_spec().y.raw == SCALE ==> background_spec(ray) == sky_blue(),
{
    reveal(background_spec);
}

/// A ray straight down brings back white and a ray straight up sky blue,
/// whatever its length.
pub proof fn lemma_background_vertical(ray: Ray)
    requires
        ray.direction.x.raw == 0,
        ray.direction.z.raw == 0,
        ray.direction.y.raw != 0,
        ray.direction.y.in_range(),
    ensures
        ray.direction.y.raw < 0 ==> background_spec(ray) == white(),
        ray.direction.y.raw > 0 ==> background_spec(ray) == sky_blue(),
{
    crate::vec::lemma_unit_of_axis(ray.direction.y);
    lemma_background_ends(ray);
}

/// The text of the first `n` pixels of a row has `n` lines.
pub proof fn lemma_row_lines(cam: Camera, world: Seq<Sphere>, j: u32, n: nat, rng: Rng)
    ensures
        line_count(cam.row_text(world, j, n, rng).0) == n,
    decreases n,
{
    if n > 0 {
        lemma_row_lines(cam, world, j, (n - 1) as nat, rng);
        let (text, after) = cam.row_text(world, j, (n - 1) as nat, rng);
        let color = cam.pixel_color_spec(world, (n - 1) as u32, j, after).0;
        lemma_line_counts(color, 0, 0);
        lemma_line_count_concat(text, color_line(color));
    }
}

/// The text of the first `n` rows has a line for each of their pixels.
pub proof fn lemma_rows_lines(cam: Camera, world: Seq<Sphere>, n: nat, rng: Rng)
    ensures
        line_count(cam.rows_text(world, n, rng).0) == n * cam.image_width,
    decreases n,
{
    if n > 0 {
        lemma_rows_lines(cam, world, (n - 1) as nat, rng);
        let (text, after) = cam.rows_text(world, (n - 1) as nat, rng);
        let row = cam.row_text(world, (n - 1) as u32, cam.image_width as nat, after).0;
        lemma_row_lines(cam, world, (n - 1) as u32, cam.image_width as nat, after);
        lemma_line_count_concat(text, row);
        assert((n - 1) * cam.image_width + cam.image_width == n * cam.image_width)
            by (nonlinear_arith);
    } else {
        assert(n * cam.image_width == 0) by (nonlinear_arith)
            requires
                n == 0,
        ;
    }
}

/// A rendered image starts with the header for its size, and after the
/// three lines of the header it has exactly one line for every pixel.
pub proof fn lemma_render_shape(cam: Camera, world: Seq<Sphere>, rng: Rng)
    ensures
        ({
            let text = cam.render_spec(world, rng).0;
            let head = ppm_header(cam.image_width, cam.image_height);
            &&& text.len() >= head.len()
            &&& text.subrange(0, head.len() as int) == head
            &&& line_count(text) == 3 + cam.image_height * cam.image_width
        }),
{
    let head = ppm_header(cam.image_width, cam.image_height);
    let rows = cam.rows_text(world, cam.image_height as nat, rng).0;
    lemma_rows_lines(cam, world, cam.image_height as nat, rng);
    lemma_line_counts(black(), cam.image_width, cam.image_height);
    lemma_line_count_concat(head, rows);
    assert((head + rows).subrange(0, head.len() as int) == head);
}

/// The background lies between black and white.
pub proof fn lemma_background_in_gamut(ray: Ray)
    requires
        ray.direction.in_range(),
    ensures
        in_gamut(background_spec(ray)),
{
    reveal(background_spec);
    crate::vec::lemma_unit_components(ray.direction);
    let y = ray.direction.unit_spec().y;
    let a = sky_weight(ray);
    let lift = y.plus(Fixed::of(SCALE as int));
    assert(0 <= lift.raw <= 2 * SCALE);
    let half = Fixed::of(SCALE / 2);
    assert(0 <= a.raw <= SCALE) by {
        let n = half.raw * lift.raw;
        assert(0 <= n <= SCALE * SCALE) by (nonlinear_arith)
            requires
                n == half.raw * lift.raw,
                half.raw == 500_000_000,
                0 <= lift.raw <= 2_000_000_000,
                SCALE == 1_000_000_000,
        ;
        vstd::arithmetic::div_mod::lemma_div_pos_is_pos(n, SCALE as int);
        vstd::arithmetic::div_mod::lemma_div_is_ordered(n, SCALE * SCALE, SCALE as int);
        vstd::arithmetic::div_mod::lemma_div_multiples_vanish(SCALE as int, SCALE as int);
    }
    let rest = Fixed::of(SCALE as int).minus(a);
    assert(rest.raw == SCALE - a.raw);
    let one = Fixed::of(SCALE as int);
    assert(one.times(rest).raw == rest.raw) by {
        assert(one.raw * rest.raw == SCALE * rest.raw);
        vstd::arithmetic::div_mod::lemma_div_multiples_vanish(rest.raw as int, SCALE as int);
    }
    crate::color::lemma_level_product(a, Fixed::of(500_000_000));
    crate::color::lemma_level_product(a, Fixed::of(700_000_000));
    crate::color::lemma_level_product(a, one);
    assert(Fixed::of(500_000_000).times(a).raw == a.times(Fixed::of(500_000_000)).raw) by {
        assert(500_000_000 * a.raw == a.raw * 500_000_000);
    }
    assert(Fixed::of(700_000_000).times(a).raw == a.times(Fixed::of(700_000_000)).raw) by {
        assert(700_000_000 * a.raw == a.raw * 700_000_000);
    }
    assert(one.times(a).raw == a.times(one).raw) by {
        assert(one.raw * a.raw == a.raw * one.raw) by (nonlinear_arith);
    }
}

/// Every material of the scene dims.
pub open spec fn world_dims(world: Seq<Sphere>) -> bool {
    forall|i: int| 0 <= i < world.len() ==> (#[trigger] world[i]).material.dims()
}

/// No ray brings back more than white. In a scene whose materials all dim,
/// every channel of the color of a ray lies between zero and one, whatever
/// the depth and whatever the generator yields.
pub proof fn lemma_ray_color_in_gamut(ray: Ray, world: Seq<Sphere>, depth: nat, rng: Rng)
    requires
        ray.direction.in_range(),
        world_dims(world),
    ensures
        in_gamut(ray_color_spec(ray, world, depth, rng).0),
    decreases depth,
{
    if depth > 0 {
        match nearest_hit(world, ray, trace_interval()) {
            Some(rec) => {
                crate::hittable::lemma_nearest_hit(world, ray, trace_interval());
                let i = choose|i: int|
                    0 <= i < world.len() && (#[trigger] world[i]).hit_within(
                        ray,
                        trace_interval(),
                    ) == Some(rec);
                crate::hittable::lemma_hit_record(world[i], ray, trace_interval());
                crate::material::lemma_scatter_outcome(rec.material, ray, rec, rng);
                let (scatter, after) = rec.material.scatter_from(ray, rec, rng);
                match scatter {
                    Some((attenuation, scattered)) => {
                        lemma_ray_color_in_gamut(scattered, world, (depth - 1) as nat, after);
                        let color = ray_color_spec(scattered, world, (depth - 1) as nat, after).0;
                        assert(in_gamut(attenuation));
                        crate::color::lemma_attenuated_in_gamut(attenuation, color);
                    },
                    None => {},
                }
            },
            None => {
                lemma_background_in_gamut(ray);
            },
        }
    }
}

} // verus!
