//! Surface materials: how a ray that hits a surface is sent on.
//!
//! Each material has a deterministic rule that takes the random draws as
//! arguments (`scatter_with`), and a `scatter` that makes the draws from a
//! generator and applies the rule.

use core::ops::Neg;
use vstd::prelude::*;
use crate::fixed::Fixed;
use crate::fixed::SCALE;
use crate::hittable::HitRecord;
use crate::ray::Ray;
use crate::rng::Rng;
use crate::vec::Vec3;
use crate::Color;

verus! {

/// What a scattering yields: the attenuation and the outgoing ray, or
/// nothing where the ray is absorbed.
pub type Scatter = Option<(Color, Ray)>;

/// How a surface sends on the rays that hit it.
pub trait Material {
    /// The outcome of `scatter` and the generator after it.
    spec fn scatter_spec(&self, ray_in: Ray, rec: HitRecord, rng: Rng) -> (Scatter, Rng);

    /// Scatters `ray_in` at the hit `rec`, drawing from `rng` what is left
    /// to chance.
    fn scatter(&self, ray_in: &Ray, rec: &HitRecord, rng: &mut Rng) -> (r: Scatter)
        ensures
            (r, *final(rng)) == self.scatter_spec(*ray_in, *rec, *old(rng)),
    ;
}

/// A diffuse surface.
#[derive(Clone, Copy, Debug, PartialEq, Eq, Structural)]
pub struct Lambertian {
    pub albedo: Color,
}

/// A mirror-like surface, blurred by `fuzz` in `[0, 1]`.
#[derive(Clone, Copy, Debug, PartialEq, Eq, Structural)]
pub struct Metal {
    pub albedo: Color,
    pub fuzz: Fixed,
}

/// A transparent surface that reflects or refracts.
#[derive(Clone, Copy, Debug, PartialEq, Eq, Structural)]
pub struct Dielectric {
    pub refractive_index: Fixed,
}

/// The closed set of materials that a surface can have.
#[derive(Clone, Copy, Debug, PartialEq, Eq, Structural)]
pub enum MaterialKind {
    Lambertian(Lambertian),
    Metal(Metal),
    Dielectric(Dielectric),
}

/// The color with all channels at one.
pub open spec fn white() -> Color {
    Vec3::of(SCALE as int, SCALE as int, SCALE as int)
}

impl Lambertian {
    /// Scatters along the normal displaced by `unit`, or along the normal
    /// itself where the two cancel. Never absorbs.
    pub open spec fn scatter_with_spec(self, rec: HitRecord, unit: Vec3) -> (Color, Ray) {
        let displaced = rec.normal.plus(unit);
        let direction = if displaced.near_zero_spec() {
            rec.normal
        } else {
            displaced
        };
        (self.albedo, Ray { origin: rec.point, direction })
    }

    /// The outcome of a scattering with a unit vector drawn from `rng`.
    pub open spec fn scatter_from(self, ray_in: Ray, rec: HitRecord, rng: Rng) -> (Scatter, Rng) {
        let (unit, next) = Vec3::random_unitvector_spec(rng);
        (Some(self.scatter_with_spec(rec, unit)), next)
    }

    /// A diffuse surface with the given albedo.
    pub fn new(albedo: Color) -> (r: Lambertian)
        ensures
            r.albedo == albedo,
    {
        Lambertian { albedo }
    }

    /// Scatters at the hit `rec`, displaced by `unit`.
    pub fn scatter_with(&self, rec: &HitRecord, unit: Vec3) -> (r: (Color, Ray))
        ensures
            r == self.scatter_with_spec(*rec, unit),
    {
        let mut scatter_direction: Vec3 = rec.normal + unit;
        if scatter_direction.near_zero() {
            scatter_direction = rec.normal;
        }
        (self.albedo, Ray::new(&rec.point, &scatter_direction))
    }
}

impl Material for Lambertian {
    open spec fn scatter_spec(&self, ray_in: Ray, rec: HitRecord, rng: Rng) -> (Scatter, Rng) {
        self.scatter_from(ray_in, rec, rng)
    }

    fn scatter(&self, ray_in: &Ray, rec: &HitRecord, rng: &mut Rng) -> (r: Scatter) {
        let unit: Vec3 = Vec3::random_unitvector(rng);
        Some(self.scatter_with(rec, unit))
    }
}

impl Metal {
    /// The fuzz lies between zero and one.
    pub open spec fn wf(self) -> bool {
        0 <= self.fuzz.raw <= SCALE
    }

    /// The mirrored direction of the incoming ray, normalized and displaced
    /// by `fuzz * unit`.
    pub open spec fn fuzzed_direction(self, ray_in: Ray, rec: HitRecord, unit: Vec3) -> Vec3 {
        ray_in.direction.unit_spec().reflect_spec(rec.normal).unit_spec().plus(
            unit.scaled(self.fuzz),
        )
    }

    /// Scatters along the fuzzed mirror direction, and absorbs the ray where
    /// that direction does not leave the surface.
    pub open spec fn scatter_with_spec(self, ray_in: Ray, rec: HitRecord, unit: Vec3) -> Scatter {
        let direction = self.fuzzed_direction(ray_in, rec, unit);
        if direction.dot_spec(rec.normal).raw > 0 {
            Some((self.albedo, Ray { origin: rec.point, direction }))
        } else {
            None
        }
    }

    /// The outcome of a scattering with a unit vector drawn from `rng`.
    pub open spec fn scatter_from(self, ray_in: Ray, rec: HitRecord, rng: Rng) -> (Scatter, Rng) {
        let (unit, next) = Vec3::random_unitvector_spec(rng);
        (self.scatter_with_spec(ray_in, rec, unit), next)
    }

    /// A metallic surface with the given albedo. The fuzz is clamped to
    /// `[0, 1]`.
    pub fn new(albedo: Color, fuzz: Fixed) -> (r: Metal)
        ensures
            r.wf(),
            r.albedo == albedo,
            r.fuzz.raw == if fuzz.raw < 0 {
                0
            } else if fuzz.raw > SCALE {
                SCALE as int
            } else {
                fuzz.raw as int
            },
    {
        let fuzz: Fixed = if fuzz.raw < 0 {
            Fixed::zero()
        } else if fuzz.raw > SCALE {
            Fixed::one()
        } else {
            fuzz
        };
        Metal { albedo, fuzz }
    }

    /// Scatters `ray_in` at the hit `rec`, fuzzed by `unit`.
    pub fn scatter_with(&self, ray_in: &Ray, rec: &HitRecord, unit: Vec3) -> (r: Scatter)
        ensures
            r == self.scatter_with_spec(*ray_in, *rec, unit),
    {
        let reflected: Vec3 = ray_in.direction.unit().reflect(&rec.normal);
        let direction: Vec3 = reflected.unit() + unit * self.fuzz;
        if direction.dot(rec.normal).raw > 0 {
            Some((self.albedo, Ray::new(&rec.point, &direction)))
        } else {
            None
        }
    }
}

impl Material for Metal {
    open spec fn scatter_spec(&self, ray_in: Ray, rec: HitRecord, rng: Rng) -> (Scatter, Rng) {
        self.scatter_from(ray_in, rec, rng)
    }

    fn scatter(&self, ray_in: &Ray, rec: &HitRecord, rng: &mut Rng) -> (r: Scatter) {
        let unit: Vec3 = Vec3::random_unitvector(rng);
        self.scatter_with(ray_in, rec, unit)
    }
}

impl Dielectric {
    /// Schlick's approximation of the reflectance at the given cosine:
    /// `r0 + (1 - r0) * (1 - cosine)^5` with `r0 = ((1 - n) / (1 + n))^2`.
    pub open spec fn reflectance_spec(cosine: Fixed, ref_idx: Fixed) -> Fixed {
        let one = Fixed::of(SCALE as int);
        let ratio = one.minus(ref_idx).over(one.plus(ref_idx));
        let r0 = ratio.times(ratio);
        r0.plus(one.minus(r0).times(one.minus(cosine).powi_spec(5)))
    }

    /// Ratio of the refractive indices on the two sides of the surface, in
    /// the order in which the ray passes them.
    pub open spec fn eta_ratio(self, rec: HitRecord) -> Fixed {
        if rec.front_face == Some(true) {
            Fixed::of(SCALE as int).over(self.refractive_index)
        } else {
            self.refractive_index
        }
    }

    /// Cosine of the angle between the incoming ray and the normal, capped
    /// at one.
    pub open spec fn cos_theta(ray_in: Ray, rec: HitRecord) -> Fixed {
        ray_in.direction.unit_spec().negated().dot_spec(rec.normal).min_spec(
            Fixed::of(SCALE as int),
        )
    }

    /// Sine of that angle.
    pub open spec fn sin_theta(ray_in: Ray, rec: HitRecord) -> Fixed {
        let cos = Dielectric::cos_theta(ray_in, rec);
        Fixed::of(SCALE as int).minus(cos.times(cos)).sqrt_spec()
    }

    /// Total internal reflection: Snell's law has no solution.
    pub open spec fn cannot_refract(self, ray_in: Ray, rec: HitRecord) -> bool {
        self.eta_ratio(rec).times(Dielectric::sin_theta(ray_in, rec)).raw > SCALE
    }

    /// The ray is mirrored rather than refracted: always under total
    /// internal reflection, else where the reflectance exceeds `draw`.
    pub open spec fn reflects(self, ray_in: Ray, rec: HitRecord, draw: Fixed) -> bool {
        self.cannot_refract(ray_in, rec) || Dielectric::reflectance_spec(
            Dielectric::cos_theta(ray_in, rec),
            self.eta_ratio(rec),
        ).raw > draw.raw
    }

    /// Scatters by reflection or refraction, with white attenuation. Never
    /// absorbs.
    pub open spec fn scatter_with_spec(self, ray_in: Ray, rec: HitRecord, draw: Fixed) -> (
        Color,
        Ray,
    ) {
        let unit_direction = ray_in.direction.unit_spec();
        let direction = if self.reflects(ray_in, rec, draw) {
            unit_direction.reflect_spec(rec.normal)
        } else {
            unit_direction.refract_spec(rec.normal, self.eta_ratio(rec))
        };
        (white(), Ray { origin: rec.point, direction })
    }

    /// The outcome of a scattering with one number drawn from `rng`.
    pub open spec fn scatter_from(self, ray_in: Ray, rec: HitRecord, rng: Rng) -> (Scatter, Rng) {
        (Some(self.scatter_with_spec(ray_in, rec, rng.unit_spec())), rng.next_state())
    }

    /// A refractive surface with the given index.
    pub fn new(refractive_index: Fixed) -> (r: Dielectric)
        ensures
            r.refractive_index == refractive_index,
    {
        Dielectric { refractive_index }
    }

    /// Schlick's approximation of the reflectance.
    pub fn reflectance(cosine: Fixed, ref_idx: Fixed) -> (r: Fixed)
        ensures
            r == Dielectric::reflectance_spec(cosine, ref_idx),
    {
        let ratio: Fixed = (Fixed::one() - ref_idx) / (Fixed::one() + ref_idx);
        let r0: Fixed = ratio * ratio;
        r0 + (Fixed::one() - r0) * (Fixed::one() - cosine).powi(5)
    }

    /// Scatters `ray_in` at the hit `rec`; `draw` in `[0, 1)` decides
    /// between reflection and refraction.
    pub fn scatter_with(&self, ray_in: &Ray, rec: &HitRecord, draw: Fixed) -> (r: (Color, Ray))
        ensures
            r == self.scatter_with_spec(*ray_in, *rec, draw),
    {
        let attenuation: Color = Vec3::new(Fixed::one(), Fixed::one(), Fixed::one());
        let ri: Fixed = match rec.front_face {
            Some(true) => Fixed::one() / self.refractive_index,
            _ => self.refractive_index,
        };
        let unit_direction: Vec3 = ray_in.direction.unit();
        let cos_theta: Fixed = unit_direction.neg().dot(rec.normal).min(Fixed::one());
        let sin_theta: Fixed = (Fixed::one() - cos_theta * cos_theta).sqrt();
        let cannot_refract: bool = (ri * sin_theta).raw > SCALE;
        let direction: Vec3 = if cannot_refract || Dielectric::reflectance(cos_theta, ri).raw
            > draw.raw {
            unit_direction.reflect(&rec.normal)
        } else {
            unit_direction.refract(&rec.normal, ri)
        };
        (attenuation, Ray::new(&rec.point, &direction))
    }
}

impl Material for Dielectric {
    open spec fn scatter_spec(&self, ray_in: Ray, rec: HitRecord, rng: Rng) -> (Scatter, Rng) {
        self.scatter_from(ray_in, rec, rng)
    }

    fn scatter(&self, ray_in: &Ray, rec: &HitRecord, rng: &mut Rng) -> (r: Scatter) {
        let draw: Fixed = rng.next_unit();
        Some(self.scatter_with(ray_in, rec, draw))
    }
}

impl MaterialKind {
    /// The material never brightens a ray: its attenuation lies between
    /// black and white.
    pub open spec fn dims(self) -> bool {
        match self {
            MaterialKind::Lambertian(m) => crate::color::in_gamut(m.albedo),
            MaterialKind::Metal(m) => crate::color::in_gamut(m.albedo),
            MaterialKind::Dielectric(m) => true,
        }
    }

    /// The scattering of the material that `self` holds.
    #[verifier::opaque]
    pub open spec fn scatter_from(self, ray_in: Ray, rec: HitRecord, rng: Rng) -> (Scatter, Rng) {
        match self {
            MaterialKind::Lambertian(m) => m.scatter_from(ray_in, rec, rng),
            MaterialKind::Metal(m) => m.scatter_from(ray_in, rec, rng),
            MaterialKind::Dielectric(m) => m.scatter_from(ray_in, rec, rng),
        }
    }
}

impl Material for MaterialKind {
    open spec fn scatter_spec(&self, ray_in: Ray, rec: HitRecord, rng: Rng) -> (Scatter, Rng) {
        self.scatter_from(ray_in, rec, rng)
    }

    fn scatter(&self, ray_in: &Ray, rec: &HitRecord, rng: &mut Rng) -> (r: Scatter) {
        proof {
            reveal(MaterialKind::scatter_from);
        }
        match self {
            MaterialKind::Lambertian(m) => m.scatter(ray_in, rec, rng),
            MaterialKind::Metal(m) => m.scatter(ray_in, rec, rng),
            MaterialKind::Dielectric(m) => m.scatter(ray_in, rec, rng),
        }
    }
}

/// A diffuse or a refractive surface never absorbs a ray, whatever the
/// generator yields.
pub proof fn lemma_always_scatters(kind: MaterialKind, ray_in: Ray, rec: HitRecord, rng: Rng)
    requires
        !(kind is Metal),
    ensures
        kind.scatter_from(ray_in, rec, rng).0 is Some,
{
    reveal(MaterialKind::scatter_from);
}

/// A metal absorbs a ray exactly when the fuzzed mirror direction has no
/// positive inner product with the normal; else it sends the ray on along
/// that direction, from the point of the hit, attenuated by its albedo.
pub proof fn lemma_metal_absorbs(m: Metal, ray_in: Ray, rec: HitRecord, unit: Vec3)
    ensures
        m.scatter_with_spec(ray_in, rec, unit) is None <==> m.fuzzed_direction(
            ray_in,
            rec,
            unit,
        ).dot_spec(rec.normal).raw <= 0,
        m.scatter_with_spec(ray_in, rec, unit) matches Some((attenuation, scattered)) ==> {
            &&& attenuation == m.albedo
            &&& scattered.origin == rec.point
            &&& scattered.direction == m.fuzzed_direction(ray_in, rec, unit)
        },
{
}

/// A scattered ray leaves the point of the hit with a direction in range,
/// and its attenuation is that of the material: the albedo of a diffuse
/// or metallic surface, white for a refractive one.
#[verifier::rlimit(50)]
pub proof fn lemma_scatter_outcome(kind: MaterialKind, ray_in: Ray, rec: HitRecord, rng: Rng)
    ensures
        kind.scatter_from(ray_in, rec, rng).0 matches Some((attenuation, scattered)) ==> {
            &&& scattered.origin == rec.point
            &&& rec.normal.in_range() ==> scattered.direction.in_range()
            &&& attenuation == match kind {
                MaterialKind::Lambertian(m) => m.albedo,
                MaterialKind::Metal(m) => m.albedo,
                MaterialKind::Dielectric(m) => white(),
            }
        },
{
    reveal(MaterialKind::scatter_from);
}

} // verus!
