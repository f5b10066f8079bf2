//! Surfaces that a ray can hit, and the record of a hit.

use core::ops::Neg;
use vstd::prelude::*;
use crate::fixed::Fixed;
use crate::interval::Interval;
use crate::material::MaterialKind;
use crate::ray::Ray;
use crate::vec::Vec3;
use crate::Point3;

verus! {

/// What a ray can hit: a surface, or a collection of surfaces.
pub trait Hittable {
    /// The nearest hit of `ray` with a parameter strictly inside `ray_t`.
    spec fn hit_spec(&self, ray: Ray, ray_t: Interval) -> Option<HitRecord>;

    /// Tests `ray` against `self` for a hit with a parameter strictly
    /// inside `ray_t`.
    fn hit(&self, ray: &Ray, ray_t: Interval) -> (r: Option<HitRecord>)
        ensures
            r == self.hit_spec(*ray, ray_t),
    ;
}

/// Where and how a ray met a surface.
#[derive(Clone, Copy, Debug, PartialEq, Eq)]
pub struct HitRecord {
    pub point: Point3,
    /// Unit normal at the point, on the side that the ray came from.
    pub normal: Vec3,
    /// Ray parameter of the point.
    pub t: Fixed,
    /// Whether the ray came from outside the surface; unset until
    /// `set_face_normal` has been called.
    pub front_face: Option<bool>,
    pub material: MaterialKind,
}

impl HitRecord {
    /// The ray runs against the outward normal, so it comes from outside.
    pub open spec fn faces_front(ray: Ray, outward_normal: Vec3) -> bool {
        ray.direction.dot_spec(outward_normal).raw < 0
    }

    /// The outward normal, turned to the side that the ray came from.
    pub open spec fn facing_normal(ray: Ray, outward_normal: Vec3) -> Vec3 {
        if HitRecord::faces_front(ray, outward_normal) {
            outward_normal
        } else {
            outward_normal.negated()
        }
    }

    /// The record with face flag and normal set for the given ray.
    pub open spec fn with_face_normal(self, ray: Ray, outward_normal: Vec3) -> HitRecord {
        HitRecord {
            front_face: Some(HitRecord::faces_front(ray, outward_normal)),
            normal: HitRecord::facing_normal(ray, outward_normal),
            ..self
        }
    }

    /// A record whose face flag is not set yet.
    pub fn new(point: Point3, normal: Vec3, t: Fixed, material: MaterialKind) -> (r: HitRecord)
        ensures
            r == (HitRecord { point, normal, t, front_face: None, material }),
    {
        HitRecord { point, normal, t, front_face: None, material }
    }

    /// Sets the face flag and turns the normal against the ray. The flag
    /// is set exactly when the ray runs against `outward_normal`. For an
    /// outward normal in range the stored normal never points along the
    /// ray.
    pub fn set_face_normal(&mut self, ray: &Ray, outward_normal: Vec3)
        ensures
            *final(self) == old(self).with_face_normal(*ray, outward_normal),
            final(self).front_face == Some(ray.direction.dot_spec(outward_normal).raw < 0),
            outward_normal.in_range() ==> ray.direction.dot_spec(final(self).normal).raw <= 0,
    {
        let front: bool = ray.direction.dot(outward_normal).raw < 0;
        self.front_face = Some(front);
        self.normal = if front {
            outward_normal
        } else {
            outward_normal.neg()
        };
        proof {
            if outward_normal.in_range() {
                lemma_facing_normal_opposes(*ray, outward_normal);
            }
        }
    }
}

/// A sphere, given by its center and radius, with the material of its
/// surface.
#[derive(Clone, Copy, Debug, PartialEq, Eq)]
pub struct Sphere {
    pub center: Point3,
    pub radius: Fixed,
    pub material: MaterialKind,
}

impl Sphere {
    /// The radius is not negative.
    pub open spec fn wf(self) -> bool {
        self.radius.raw >= 0
    }

    /// Vector from the ray's origin to the center.
    pub open spec fn to_center(self, ray: Ray) -> Vec3 {
        self.center.minus(ray.origin)
    }

    /// Leading coefficient of the quadratic in the ray parameter: the squared
    /// length of the direction.
    pub open spec fn quad_a(ray: Ray) -> Fixed {
        ray.direction.length_squared_spec()
    }

    /// Half the negated linear coefficient: the direction's inner product
    /// with the vector to the center.
    pub open spec fn quad_h(self, ray: Ray) -> Fixed {
        ray.direction.dot_spec(self.to_center(ray))
    }

    /// Constant coefficient: squared distance of the origin from the center,
    /// less the squared radius.
    pub open spec fn quad_c(self, ray: Ray) -> Fixed {
        self.to_center(ray).length_squared_spec().minus(self.radius.times(self.radius))
    }

    /// A quarter of the discriminant: `h * h - a * c`.
    pub open spec fn discriminant(self, ray: Ray) -> Fixed {
        let h = self.quad_h(ray);
        h.times(h).minus(Sphere::quad_a(ray).times(self.quad_c(ray)))
    }

    /// The smaller root, `(h - sqrt(d)) / a`.
    pub open spec fn near_root(self, ray: Ray) -> Fixed {
        self.quad_h(ray).minus(self.discriminant(ray).sqrt_spec()).over(Sphere::quad_a(ray))
    }

    /// The larger root, `(h + sqrt(d)) / a`.
    pub open spec fn far_root(self, ray: Ray) -> Fixed {
        self.quad_h(ray).plus(self.discriminant(ray).sqrt_spec()).over(Sphere::quad_a(ray))
    }

    /// Normal at a point of the surface, pointing away from the center.
    pub open spec fn outward_normal(self, point: Vec3) -> Vec3 {
        point.minus(self.center).over(self.radius)
    }

    /// The record of the hit at ray parameter `t`.
    pub open spec fn record_at(self, ray: Ray, t: Fixed) -> HitRecord {
        let point = ray.at_spec(t);
        let outward = self.outward_normal(point);
        HitRecord {
            point,
            normal: HitRecord::facing_normal(ray, outward),
            t,
            front_face: Some(HitRecord::faces_front(ray, outward)),
            material: self.material,
        }
    }

    /// The hit at the smallest root of the quadratic that lies strictly
    /// inside `ray_t`. There is none where the discriminant is negative or
    /// both roots lie outside.
    #[verifier::opaque]
    pub open spec fn hit_within(self, ray: Ray, ray_t: Interval) -> Option<HitRecord> {
        if self.discriminant(ray).raw < 0 {
            None
        } else if ray_t.surrounds_spec(self.near_root(ray)) {
            Some(self.record_at(ray, self.near_root(ray)))
        } else if ray_t.surrounds_spec(self.far_root(ray)) {
            Some(self.record_at(ray, self.far_root(ray)))
        } else {
            None
        }
    }

    /// A sphere with the given center and material. A negative radius
    /// counts as zero.
    pub fn new(center: Point3, radius: Fixed, material: MaterialKind) -> (r: Sphere)
        ensures
            r.wf(),
            r.center == center,
            r.radius == radius.max_spec(Fixed::of(0)),
            r.material == material,
    {
        Sphere { center, radius: radius.max(Fixed::zero()), material }
    }
}

impl Hittable for Sphere {
    open spec fn hit_spec(&self, ray: Ray, ray_t: Interval) -> Option<HitRecord> {
        self.hit_within(ray, ray_t)
    }

    fn hit(&self, ray: &Ray, ray_t: Interval) -> (r: Option<HitRecord>) {
        proof {
            reveal(Sphere::hit_within);
        }
        let oc: Vec3 = self.center - ray.origin;
        let a: Fixed = ray.direction.length_squared();
        let h: Fixed = ray.direction.dot(oc);
        let c: Fixed = oc.length_squared() - self.radius * self.radius;
        let dis: Fixed = h * h - a * c;
        if dis.raw < 0 {
            return None;
        }
        let sqrtd: Fixed = dis.sqrt();
        let mut root: Fixed = (h - sqrtd) / a;
        if !ray_t.surrounds(root) {
            root = (h + sqrtd) / a;
            if !ray_t.surrounds(root) {
                return None;
            }
        }
        let p: Vec3 = ray.at(root);
        let normal: Vec3 = (p - self.center) / self.radius;
        let mut record: HitRecord = HitRecord::new(p, normal, root, self.material);
        record.set_face_normal(ray, normal);
        Some(record)
    }
}

/// The nearest of the hits of `ray` with the members of `world` inside
/// `ray_t`: the one with the smallest parameter, and among equals the one
/// of the earliest member.
pub open spec fn nearest_hit(world: Seq<Sphere>, ray: Ray, ray_t: Interval) -> Option<HitRecord>
    decreases world.len(),
{
    if world.len() == 0 {
        None
    } else {
        let before = nearest_hit(world.drop_last(), ray, ray_t);
        match (before, world.last().hit_within(ray, ray_t)) {
            (Some(b), Some(c)) => if c.t.raw < b.t.raw {
                Some(c)
            } else {
                Some(b)
            },
            (None, Some(c)) => Some(c),
            (_, None) => before,
        }
    }
}

impl Hittable for Vec<Sphere> {
    open spec fn hit_spec(&self, ray: Ray, ray_t: Interval) -> Option<HitRecord> {
        nearest_hit(self@, ray, ray_t)
    }

    fn hit(&self, ray: &Ray, ray_t: Interval) -> (r: Option<HitRecord>) {
        let mut closest_so_far: Fixed = ray_t.max;
        let mut temp_rec: Option<HitRecord> = None;
        let mut i: usize = 0;
        while i < self.len()
            invariant
                i <= self.len(),
                temp_rec == nearest_hit(self@.take(i as int), *ray, ray_t),
                closest_so_far == match temp_rec {
                    Some(rec) => rec.t,
                    None => ray_t.max,
                },
                closest_so_far.raw <= ray_t.max.raw,
            decreases self.len() - i,
        {
            let narrowed: Interval = Interval::new(ray_t.min, closest_so_far);
            proof {
                lemma_narrowed(self@[i as int], *ray, ray_t, closest_so_far);
                lemma_hit_inside(self@[i as int], *ray, ray_t);
                assert(self@.take(i + 1).drop_last() == self@.take(i as int));
                assert(self@.take(i + 1).last() == self@[i as int]);
            }
            if let Some(rec) = self[i].hit(ray, narrowed) {
                closest_so_far = rec.t;
                temp_rec = Some(rec);
            }
            i = i + 1;
        }
        proof {
            assert(self@.take(self.len() as int) == self@);
        }
        temp_rec
    }
}

/// The square root of the discriminant is added to and taken from the same
/// number, and the divisor is a sum of squares: the two roots are in order.
pub proof fn lemma_roots_ordered(s: Sphere, ray: Ray)
    ensures
        s.near_root(ray).raw <= s.far_root(ray).raw,
{
    let d = ray.direction;
    crate::fixed::lemma_square_nonneg(d.x);
    crate::fixed::lemma_square_nonneg(d.y);
    crate::fixed::lemma_square_nonneg(d.z);
    let root = s.discriminant(ray).sqrt_spec();
    crate::fixed::lemma_sqrt_bounds(s.discriminant(ray));
    crate::fixed::lemma_over_monotone(
        s.quad_h(ray).minus(root),
        s.quad_h(ray).plus(root),
        Sphere::quad_a(ray),
    );
}

/// A hit lies strictly inside the interval it was asked for, at one of the
/// two roots, and its record does not depend on the interval.
pub proof fn lemma_hit_inside(s: Sphere, ray: Ray, ray_t: Interval)
    ensures
        s.hit_within(ray, ray_t) matches Some(rec) ==> {
            &&& ray_t.surrounds_spec(rec.t)
            &&& rec == s.record_at(ray, rec.t)
            &&& rec.t == s.near_root(ray) || rec.t == s.far_root(ray)
            &&& s.discriminant(ray).raw >= 0
        },
{
    reveal(Sphere::hit_within);
}

/// A hit is at the smallest root inside the interval: no root strictly
/// inside lies below its parameter.
pub proof fn lemma_hit_is_smallest_root(s: Sphere, ray: Ray, ray_t: Interval)
    ensures
        s.hit_within(ray, ray_t) matches Some(rec) ==> {
            &&& ray_t.surrounds_spec(s.near_root(ray)) ==> rec.t.raw <= s.near_root(ray).raw
            &&& ray_t.surrounds_spec(s.far_root(ray)) ==> rec.t.raw <= s.far_root(ray).raw
        },
        s.hit_within(ray, ray_t) is None <==> s.discriminant(ray).raw < 0 || (
        !ray_t.surrounds_spec(s.near_root(ray)) && !ray_t.surrounds_spec(s.far_root(ray))),
{
    reveal(Sphere::hit_within);
    lemma_roots_ordered(s, ray);
}

/// The record of a hit holds the point of the ray at its parameter and the
/// sphere's material. Its face flag is set exactly when the ray runs
/// against the outward normal at the point, and its normal is the outward
/// normal turned against the ray: their inner product is not positive.
/// Point and normal are in range.
#[verifier::rlimit(50)]
pub proof fn lemma_hit_record(s: Sphere, ray: Ray, ray_t: Interval)
    ensures
        s.hit_within(ray, ray_t) matches Some(rec) ==> {
            let outward = s.outward_normal(rec.point);
            &&& rec.point == ray.at_spec(rec.t)
            &&& rec.material == s.material
            &&& rec.front_face == Some(ray.direction.dot_spec(outward).raw < 0)
            &&& rec.normal == if ray.direction.dot_spec(outward).raw < 0 {
                outward
            } else {
                outward.negated()
            }
            &&& ray.direction.dot_spec(rec.normal).raw <= 0
            &&& rec.normal.in_range()
            &&& rec.point.in_range()
        },
{
    reveal(Sphere::hit_within);
    if let Some(rec) = s.hit_within(ray, ray_t) {
        lemma_facing_normal_opposes(ray, s.outward_normal(rec.point));
    }
}

/// Lowering the upper end of the interval to `closer` keeps a hit that lies
/// below `closer` and loses any other: no farther hit takes its place.
pub proof fn lemma_narrowed(s: Sphere, ray: Ray, ray_t: Interval, closer: Fixed)
    requires
        closer.raw <= ray_t.max.raw,
    ensures
        s.hit_within(ray, Interval { min: ray_t.min, max: closer }) == match s.hit_within(
            ray,
            ray_t,
        ) {
            Some(rec) => if rec.t.raw < closer.raw {
                Some(rec)
            } else {
                None
            },
            None => None,
        },
{
    reveal(Sphere::hit_within);
    lemma_roots_ordered(s, ray);
}

/// The nearest hit is a hit of some member, and no member has a hit inside
/// the interval with a smaller parameter. There is no nearest hit exactly
/// when no member is hit.
pub proof fn lemma_nearest_hit(world: Seq<Sphere>, ray: Ray, ray_t: Interval)
    ensures
        nearest_hit(world, ray, ray_t) matches Some(rec) ==> {
            &&& exists|i: int|
                0 <= i < world.len() && (#[trigger] world[i]).hit_within(ray, ray_t) == Some(rec)
            &&& forall|j: int|
                0 <= j < world.len() ==> ((#[trigger] world[j]).hit_within(ray, ray_t) matches Some(
                    other,
                ) ==> rec.t.raw <= other.t.raw)
        },
        nearest_hit(world, ray, ray_t) is None ==> forall|j: int|
            0 <= j < world.len() ==> (#[trigger] world[j]).hit_within(ray, ray_t) is None,
    decreases world.len(),
{
    if world.len() > 0 {
        let init = world.drop_last();
        lemma_nearest_hit(init, ray, ray_t);
        assert(forall|j: int| 0 <= j < init.len() ==> init[j] == world[j]);
        let last = world.len() - 1;
        if let Some(rec) = nearest_hit(world, ray, ray_t) {
            if nearest_hit(init, ray, ray_t) == Some(rec) {
                let i = choose|i: int|
                    0 <= i < init.len() && (#[trigger] init[i]).hit_within(ray, ray_t) == Some(
                        rec,
                    );
                assert(world[i].hit_within(ray, ray_t) == Some(rec));
            } else {
                assert(world[last].hit_within(ray, ray_t) == Some(rec));
            }
            assert forall|j: int| 0 <= j < world.len() implies ((#[trigger] world[j]).hit_within(
                ray,
                ray_t,
            ) matches Some(other) ==> rec.t.raw <= other.t.raw) by {
                if j < last {
                    assert(init[j] == world[j]);
                }
            }
        } else {
            assert forall|j: int| 0 <= j < world.len() implies (#[trigger] world[j]).hit_within(
                ray,
                ray_t,
            ) is None by {
                if j < last {
                    assert(init[j] == world[j]);
                }
            }
        }
    }
}

/// Negating the second vector negates the inner product.
pub proof fn lemma_dot_negated(d: Vec3, n: Vec3)
    requires
        n.in_range(),
    ensures
        d.dot_spec(n.negated()) == d.dot_spec(n).negated(),
        d.dot_spec(n.negated()).raw == -d.dot_spec(n).raw,
{
    crate::fixed::lemma_times_negated(d.x, n.x);
    crate::fixed::lemma_times_negated(d.y, n.y);
    crate::fixed::lemma_times_negated(d.z, n.z);
}

/// The stored normal never points along the ray: the face flag is set
/// exactly when the ray runs against the outward normal, and the inner
/// product of the ray's direction with the stored normal is not positive.
pub proof fn lemma_facing_normal_opposes(ray: Ray, outward_normal: Vec3)
    requires
        outward_normal.in_range(),
    ensures
        HitRecord::faces_front(ray, outward_normal) <==> ray.direction.dot_spec(
            outward_normal,
        ).raw < 0,
        ray.direction.dot_spec(HitRecord::facing_normal(ray, outward_normal)).raw <= 0,
{
    lemma_dot_negated(ray.direction, outward_normal);
}

} // verus!
