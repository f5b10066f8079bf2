//! Three-component vectors, used for points, directions and colors alike.

use core::ops::Neg;
use vstd::prelude::*;
use crate::fixed::isqrt;
use crate::fixed::isqrt_u128;
use crate::fixed::sat;
use crate::fixed::Fixed;
use crate::fixed::MAX_RAW;
use crate::fixed::SCALE;
use crate::rng::Rng;

verus! {

/// Number of draws after which `random_unitvector` stops rejecting.
pub const SAMPLE_TRIES: u32 = 64;

/// Raw threshold below which a component counts as zero in `near_zero`.
pub const NEAR_ZERO_RAW: i64 = 10;

/// A vector of three numbers.
#[derive(Clone, Copy, Debug, PartialEq, Eq, Structural)]
pub struct Vec3 {
    pub x: Fixed,
    pub y: Fixed,
    pub z: Fixed,
}

impl Vec3 {
    /// The vector with the given raw components.
    pub open spec fn of(x: int, y: int, z: int) -> Vec3 {
        Vec3 { x: Fixed::of(x), y: Fixed::of(y), z: Fixed::of(z) }
    }

    /// Every component lies in the range that results are clamped to.
    pub open spec fn in_range(self) -> bool {
        self.x.in_range() && self.y.in_range() && self.z.in_range()
    }

    /// Componentwise sum.
    pub open spec fn plus(self, rhs: Vec3) -> Vec3 {
        Vec3 { x: self.x.plus(rhs.x), y: self.y.plus(rhs.y), z: self.z.plus(rhs.z) }
    }

    /// Componentwise difference.
    pub open spec fn minus(self, rhs: Vec3) -> Vec3 {
        Vec3 { x: self.x.minus(rhs.x), y: self.y.minus(rhs.y), z: self.z.minus(rhs.z) }
    }

    /// Componentwise product.
    pub open spec fn times(self, rhs: Vec3) -> Vec3 {
        Vec3 { x: self.x.times(rhs.x), y: self.y.times(rhs.y), z: self.z.times(rhs.z) }
    }

    /// Product with a scalar.
    pub open spec fn scaled(self, s: Fixed) -> Vec3 {
        Vec3 { x: self.x.times(s), y: self.y.times(s), z: self.z.times(s) }
    }

    /// Quotient by a scalar.
    pub open spec fn over(self, s: Fixed) -> Vec3 {
        Vec3 { x: self.x.over(s), y: self.y.over(s), z: self.z.over(s) }
    }

    /// The opposite vector.
    pub open spec fn negated(self) -> Vec3 {
        Vec3 { x: self.x.negated(), y: self.y.negated(), z: self.z.negated() }
    }

    /// Inner product, each step rounded and clamped.
    pub open spec fn dot_spec(self, other: Vec3) -> Fixed {
        self.x.times(other.x).plus(self.y.times(other.y)).plus(self.z.times(other.z))
    }

    /// Squared length: the inner product with itself.
    pub open spec fn length_squared_spec(self) -> Fixed {
        self.dot_spec(self)
    }

    /// Exact sum of the squares of the raw components.
    pub open spec fn sum_sq(self) -> int {
        self.x.raw * self.x.raw + self.y.raw * self.y.raw + self.z.raw * self.z.raw
    }

    /// Euclidean length: the square root of the exact sum of squares,
    /// rounded down and clamped.
    pub open spec fn length_spec(self) -> Fixed {
        Fixed::of(sat(isqrt(self.sum_sq())))
    }

    /// Cross product, each step rounded and clamped.
    pub open spec fn cross_spec(self, other: Vec3) -> Vec3 {
        Vec3 {
            x: self.y.times(other.z).minus(self.z.times(other.y)),
            y: self.z.times(other.x).minus(self.x.times(other.z)),
            z: self.x.times(other.y).minus(self.y.times(other.x)),
        }
    }

    /// The vector divided by its length. The zero vector is its own unit.
    pub open spec fn unit_spec(self) -> Vec3 {
        self.over(self.length_spec())
    }

    /// Every component is smaller in magnitude than the threshold.
    pub open spec fn near_zero_spec(self) -> bool {
        &&& self.x.abs_spec().raw < NEAR_ZERO_RAW
        &&& self.y.abs_spec().raw < NEAR_ZERO_RAW
        &&& self.z.abs_spec().raw < NEAR_ZERO_RAW
    }

    /// Mirror image of `self` about the plane with normal `n`:
    /// `self - 2 * dot(self, n) * n`.
    pub open spec fn reflect_spec(self, n: Vec3) -> Vec3 {
        self.minus(n.scaled(Fixed::of(2 * SCALE).times(self.dot_spec(n))))
    }

    /// Cosine of the angle of incidence used by `refract_spec`, capped at one.
    pub open spec fn incidence_cos(self, n: Vec3) -> Fixed {
        self.negated().dot_spec(n).min_spec(Fixed::of(SCALE as int))
    }

    /// Component of the refracted direction perpendicular to the normal.
    pub open spec fn refract_perp(self, n: Vec3, eta_ratio: Fixed) -> Vec3 {
        self.plus(n.scaled(self.incidence_cos(n))).scaled(eta_ratio)
    }

    /// Component of the refracted direction parallel to the normal.
    pub open spec fn refract_parallel(self, n: Vec3, eta_ratio: Fixed) -> Vec3 {
        let perp = self.refract_perp(n, eta_ratio);
        n.scaled(Fixed::of(SCALE as int).minus(perp.length_squared_spec()).sqrt_spec().negated())
    }

    /// Direction of `self` after passing a surface with normal `n`, by
    /// Snell's law with the given ratio of refractive indices.
    pub open spec fn refract_spec(self, n: Vec3, eta_ratio: Fixed) -> Vec3 {
        self.refract_perp(n, eta_ratio).plus(self.refract_parallel(n, eta_ratio))
    }

    /// Vector of three successive draws in `[0, 1)`.
    pub open spec fn random_spec(rng: Rng) -> Vec3 {
        Vec3 {
            x: rng.unit_spec(),
            y: rng.next_state().unit_spec(),
            z: rng.next_state().next_state().unit_spec(),
        }
    }

    /// Vector of three successive draws in `[min, max)`.
    pub open spec fn random_minmax_spec(rng: Rng, min: Fixed, max: Fixed) -> Vec3 {
        Vec3 {
            x: rng.range_spec(min, max),
            y: rng.next_state().range_spec(min, max),
            z: rng.next_state().next_state().range_spec(min, max),
        }
    }

    /// A draw from the cube is kept when it lies in the unit ball and its
    /// squared length does not round to zero.
    pub open spec fn accepted(self) -> bool {
        0 < self.length_squared_spec().raw <= SCALE
    }

    /// Rejection sampling with at most `tries` draws from the cube
    /// `[-1, 1)^3`: the first accepted draw, normalized, and the generator
    /// after it. With no draw left the result is the first axis.
    pub open spec fn random_unitvector_from(rng: Rng, tries: nat) -> (Vec3, Rng)
        decreases tries,
    {
        if tries == 0 {
            (Vec3::of(SCALE as int, 0, 0), rng)
        } else {
            let p = Vec3::random_minmax_spec(rng, Fixed::of(-SCALE), Fixed::of(SCALE as int));
            let next = rng.skip(3);
            if p.accepted() {
                (p.unit_spec(), next)
            } else {
                Vec3::random_unitvector_from(next, (tries - 1) as nat)
            }
        }
    }

    /// Rejection sampling with the full number of tries.
    pub open spec fn random_unitvector_spec(rng: Rng) -> (Vec3, Rng) {
        Vec3::random_unitvector_from(rng, SAMPLE_TRIES as nat)
    }

    /// A random unit vector, flipped into the hemisphere around `normal`.
    pub open spec fn random_on_hemisphere_spec(rng: Rng, normal: Vec3) -> (Vec3, Rng) {
        let (v, next) = Vec3::random_unitvector_spec(rng);
        if v.dot_spec(normal).raw > 0 {
            (v, next)
        } else {
            (v.negated(), next)
        }
    }

    /// The vector with the given components.
    pub fn new(x: Fixed, y: Fixed, z: Fixed) -> (r: Vec3)
        ensures
            r == (Vec3 { x, y, z }),
    {
        Vec3 { x, y, z }
    }

    /// Euclidean length, rounded down.
    pub fn length(&self) -> (r: Fixed)
        ensures
            r == self.length_spec(),
    {
        let x: i128 = self.x.raw as i128;
        let y: i128 = self.y.raw as i128;
        let z: i128 = self.z.raw as i128;
        assert(forall|a: int|
            -0x8000_0000_0000_0000 <= a <= 0x8000_0000_0000_0000 ==> 0 <= #[trigger] (a * a)
                <= 0x4000_0000_0000_0000_0000_0000_0000_0000) by (nonlinear_arith);
        assert(0 <= x * x <= 0x4000_0000_0000_0000_0000_0000_0000_0000);
        assert(0 <= y * y <= 0x4000_0000_0000_0000_0000_0000_0000_0000);
        assert(0 <= z * z <= 0x4000_0000_0000_0000_0000_0000_0000_0000);
        let n: u128 = (x * x) as u128 + (y * y) as u128 + (z * z) as u128;
        let root: u64 = isqrt_u128(n);
        if root > MAX_RAW as u64 {
            Fixed { raw: MAX_RAW }
        } else {
            Fixed { raw: root as i64 }
        }
    }

    /// Squared length.
    pub fn length_squared(&self) -> (r: Fixed)
        ensures
            r == self.length_squared_spec(),
    {
        self.x * self.x + self.y * self.y + self.z * self.z
    }

    /// Inner product.
    pub fn dot(&self, other: Vec3) -> (r: Fixed)
        ensures
            r == self.dot_spec(other),
    {
        self.x * other.x + self.y * other.y + self.z * other.z
    }

    /// Cross product.
    pub fn cross(&self, other: Vec3) -> (r: Vec3)
        ensures
            r == self.cross_spec(other),
    {
        Vec3 {
            x: self.y * other.z - self.z * other.y,
            y: self.z * other.x - self.x * other.z,
            z: self.x * other.y - self.y * other.x,
        }
    }

    /// The vector divided by its length. The zero vector, which has no
    /// direction, gives the zero vector.
    pub fn unit(&self) -> (r: Vec3)
        ensures
            r == self.unit_spec(),
    {
        let len: Fixed = self.length();
        Vec3 { x: self.x / len, y: self.y / len, z: self.z / len }
    }

    /// Whether every component is within ten billionths of zero.
    pub fn near_zero(&self) -> (r: bool)
        ensures
            r == self.near_zero_spec(),
    {
        self.x.abs().raw < NEAR_ZERO_RAW && self.y.abs().raw < NEAR_ZERO_RAW && self.z.abs().raw
            < NEAR_ZERO_RAW
    }

    /// The mirror image of `self` about the plane with normal `n`.
    pub fn reflect(&self, n: &Vec3) -> (r: Vec3)
        ensures
            r == self.reflect_spec(*n),
    {
        let twice: Fixed = Fixed::from_i32(2) * self.dot(*n);
        *self - *n * twice
    }

    /// The direction of the unit vector `self` after passing a surface
    /// with unit normal `n`, for the given ratio of refractive indices.
    pub fn refract(&self, n: &Vec3, eta_ratio: Fixed) -> (r: Vec3)
        ensures
            r == self.refract_spec(*n, eta_ratio),
    {
        let cos_theta: Fixed = self.neg().dot(*n).min(Fixed::one());
        let perp: Vec3 = (*self + *n * cos_theta) * eta_ratio;
        let parallel: Vec3 = *n * (Fixed::one() - perp.length_squared()).sqrt().neg();
        perp + parallel
    }

    /// A vector with components drawn from `[0, 1)`.
    pub fn random(rng: &mut Rng) -> (r: Vec3)
        ensures
            r == Vec3::random_spec(*old(rng)),
            *final(rng) == old(rng).skip(3),
    {
        let x: Fixed = rng.next_unit();
        let y: Fixed = rng.next_unit();
        let z: Fixed = rng.next_unit();
        proof {
            reveal_with_fuel(Rng::skip, 4);
        }
        Vec3 { x, y, z }
    }

    /// A vector with components drawn from `[min, max)`.
    pub fn random_minmax(rng: &mut Rng, min: Fixed, max: Fixed) -> (r: Vec3)
        ensures
            r == Vec3::random_minmax_spec(*old(rng), min, max),
            *final(rng) == old(rng).skip(3),
    {
        let x: Fixed = rng.next_range(min, max);
        let y: Fixed = rng.next_range(min, max);
        let z: Fixed = rng.next_range(min, max);
        proof {
            reveal_with_fuel(Rng::skip, 4);
        }
        Vec3 { x, y, z }
    }

    /// A random direction: the unit of the first of up to `SAMPLE_TRIES`
    /// draws from the cube `[-1, 1)^3` that lies in the unit ball and is not
    /// too short. Should every draw be rejected, the result is the first
    /// axis.
    pub fn random_unitvector(rng: &mut Rng) -> (r: Vec3)
        ensures
            (r, *final(rng)) == Vec3::random_unitvector_spec(*old(rng)),
    {
        let mut left: u32 = SAMPLE_TRIES;
        while left > 0
            invariant
                Vec3::random_unitvector_spec(*old(rng)) == Vec3::random_unitvector_from(
                    *rng,
                    left as nat,
                ),
            decreases left,
        {
            let p: Vec3 = Vec3::random_minmax(rng, Fixed::from_i32(-1), Fixed::one());
            let lensq: Fixed = p.length_squared();
            if 0 < lensq.raw && lensq.raw <= SCALE {
                return p.unit();
            }
            left = left - 1;
        }
        Vec3 { x: Fixed::one(), y: Fixed::zero(), z: Fixed::zero() }
    }

    /// A random direction on the side of `normal`.
    pub fn random_on_hemisphere(rng: &mut Rng, normal: &Vec3) -> (r: Vec3)
        ensures
            (r, *final(rng)) == Vec3::random_on_hemisphere_spec(*old(rng), *normal),
    {
        let on_sphere: Vec3 = Vec3::random_unitvector(rng);
        if on_sphere.dot(*normal).raw > 0 {
            on_sphere
        } else {
            on_sphere.neg()
        }
    }
}

impl core::ops::Add for Vec3 {
    type Output = Vec3;

    fn add(self, rhs: Vec3) -> (r: Vec3)
        ensures
            r == self.plus(rhs),
    {
        Vec3 { x: self.x + rhs.x, y: self.y + rhs.y, z: self.z + rhs.z }
    }
}

impl vstd::std_specs::ops::AddSpecImpl for Vec3 {
    open spec fn obeys_add_spec() -> bool {
        true
    }

    open spec fn add_req(self, rhs: Vec3) -> bool {
        true
    }

    open spec fn add_spec(self, rhs: Vec3) -> Vec3 {
        self.plus(rhs)
    }
}

impl core::ops::Sub for Vec3 {
    type Output = Vec3;

    fn sub(self, rhs: Vec3) -> (r: Vec3)
        ensures
            r == self.minus(rhs),
    {
        Vec3 { x: self.x - rhs.x, y: self.y - rhs.y, z: self.z - rhs.z }
    }
}

impl vstd::std_specs::ops::SubSpecImpl for Vec3 {
    open spec fn obeys_sub_spec() -> bool {
        true
    }

    open spec fn sub_req(self, rhs: Vec3) -> bool {
        true
    }

    open spec fn sub_spec(self, rhs: Vec3) -> Vec3 {
        self.minus(rhs)
    }
}

impl core::ops::Mul for Vec3 {
    type Output = Vec3;

    fn mul(self, rhs: Vec3) -> (r: Vec3)
        ensures
            r == self.times(rhs),
    {
        Vec3 { x: self.x * rhs.x, y: self.y * rhs.y, z: self.z * rhs.z }
    }
}

impl vstd::std_specs::ops::MulSpecImpl for Vec3 {
    open spec fn obeys_mul_spec() -> bool {
        true
    }

    open spec fn mul_req(self, rhs: Vec3) -> bool {
        true
    }

    open spec fn mul_spec(self, rhs: Vec3) -> Vec3 {
        self.times(rhs)
    }
}

impl core::ops::Mul<Fixed> for Vec3 {
    type Output = Vec3;

    fn mul(self, rhs: Fixed) -> (r: Vec3)
        ensures
            r == self.scaled(rhs),
    {
        Vec3 { x: self.x * rhs, y: self.y * rhs, z: self.z * rhs }
    }
}

impl vstd::std_specs::ops::MulSpecImpl<Fixed> for Vec3 {
    open spec fn obeys_mul_spec() -> bool {
        true
    }

    open spec fn mul_req(self, rhs: Fixed) -> bool {
        true
    }

    open spec fn mul_spec(self, rhs: Fixed) -> Vec3 {
        self.scaled(rhs)
    }
}

impl core::ops::Mul<Vec3> for Fixed {
    type Output = Vec3;

    fn mul(self, rhs: Vec3) -> (r: Vec3)
        ensures
            r == rhs.scaled(self),
    {
        Vec3 { x: rhs.x * self, y: rhs.y * self, z: rhs.z * self }
    }
}

impl vstd::std_specs::ops::MulSpecImpl<Vec3> for Fixed {
    open spec fn obeys_mul_spec() -> bool {
        true
    }

    open spec fn mul_req(self, rhs: Vec3) -> bool {
        true
    }

    open spec fn mul_spec(self, rhs: Vec3) -> Vec3 {
        rhs.scaled(self)
    }
}

impl core::ops::Mul<Vec3> for u32 {
    type Output = Vec3;

    fn mul(self, rhs: Vec3) -> (r: Vec3)
        ensures
            r == rhs.scaled(Fixed::of(self * SCALE)),
    {
        let s: Fixed = Fixed::from_u32(self);
        Vec3 { x: rhs.x * s, y: rhs.y * s, z: rhs.z * s }
    }
}

impl vstd::std_specs::ops::MulSpecImpl<Vec3> for u32 {
    open spec fn obeys_mul_spec() -> bool {
        true
    }

    open spec fn mul_req(self, rhs: Vec3) -> bool {
        true
    }

    open spec fn mul_spec(self, rhs: Vec3) -> Vec3 {
        rhs.scaled(Fixed::of(self * SCALE))
    }
}

impl core::ops::Div<Fixed> for Vec3 {
    type Output = Vec3;

    fn div(self, rhs: Fixed) -> (r: Vec3)
        ensures
            r == self.over(rhs),
    {
        Vec3 { x: self.x / rhs, y: self.y / rhs, z: self.z / rhs }
    }
}

impl vstd::std_specs::ops::DivSpecImpl<Fixed> for Vec3 {
    open spec fn obeys_div_spec() -> bool {
        true
    }

    open spec fn div_req(self, rhs: Fixed) -> bool {
        true
    }

    open spec fn div_spec(self, rhs: Fixed) -> Vec3 {
        self.over(rhs)
    }
}

impl core::ops::Neg for Vec3 {
    type Output = Vec3;

    fn neg(self) -> (r: Vec3)
        ensures
            r == self.negated(),
    {
        Vec3 { x: self.x.neg(), y: self.y.neg(), z: self.z.neg() }
    }
}

impl vstd::std_specs::ops::NegSpecImpl for Vec3 {
    open spec fn obeys_neg_spec() -> bool {
        true
    }

    open spec fn neg_req(self) -> bool {
        true
    }

    open spec fn neg_spec(self) -> Vec3 {
        self.negated()
    }
}

/// A vector along an axis has the magnitude of its component as its
/// length, and its unit has exactly one or minus one there.
pub proof fn lemma_unit_of_axis(k: Fixed)
    requires
        k.raw != 0,
        k.in_range(),
    ensures
        ({
            let v = Vec3 { x: Fixed::of(0), y: k, z: Fixed::of(0) };
            &&& v.length_spec().raw == if k.raw < 0 {
                -k.raw
            } else {
                k.raw as int
            }
            &&& v.unit_spec() == Vec3::of(
                0,
                if k.raw < 0 {
                    -SCALE
                } else {
                    SCALE as int
                },
                0,
            )
        }),
{
    let v = Vec3 { x: Fixed::of(0), y: k, z: Fixed::of(0) };
    let m: int = if k.raw < 0 {
        -k.raw
    } else {
        k.raw as int
    };
    assert(v.sum_sq() == m * m) by (nonlinear_arith)
        requires
            v.sum_sq() == 0 * 0 + k.raw * k.raw + 0 * 0,
            m == k.raw || m == -k.raw,
    ;
    assert((m + 1) * (m + 1) > m * m) by (nonlinear_arith)
        requires
            m >= 0,
    ;
    crate::fixed::lemma_isqrt_is(m * m, m);
    assert(v.length_spec().raw == m);
    assert((m * SCALE) / m == SCALE) by (nonlinear_arith)
        requires
            m > 0,
    ;
}

/// One component of a unit vector: the magnitude `w` of the quotient of
/// `x` by a length `len` that `x` does not exceed lies within one raw unit
/// below the exact quotient, and is at most one.
pub proof fn lemma_unit_component(x: Fixed, len: Fixed) -> (w: int)
    requires
        len.raw >= 1,
        -len.raw <= x.raw <= len.raw,
    ensures
        0 <= w <= SCALE,
        x.over(len).raw == w || x.over(len).raw == -w,
        x.over(len).raw * x.over(len).raw == w * w,
        (w * w) * (len.raw * len.raw) <= (x.raw * x.raw) * (SCALE * SCALE),
        ((w + 1) * (w + 1)) * (len.raw * len.raw) > (x.raw * x.raw) * (SCALE * SCALE),
{
    let a: int = if x.raw < 0 {
        -x.raw
    } else {
        x.raw as int
    };
    let d = len.raw as int;
    let n = a * SCALE;
    let w = n / d;
    vstd::arithmetic::div_mod::lemma_fundamental_div_mod(n, d);
    vstd::arithmetic::div_mod::lemma_mod_bound(n, d);
    assert(n >= 0) by (nonlinear_arith)
        requires
            n == a * SCALE,
            a >= 0,
    ;
    vstd::arithmetic::div_mod::lemma_div_pos_is_pos(n, d);
    assert(d * w <= n < d * w + d);
    assert(n <= d * SCALE) by (nonlinear_arith)
        requires
            n == a * SCALE,
            0 <= a <= d,
    ;
    assert(w <= SCALE) by (nonlinear_arith)
        requires
            d * w <= n,
            n <= d * SCALE,
            d >= 1,
    ;
    assert(crate::fixed::tdiv(x.raw * SCALE, d) == if x.raw < 0 {
        -w
    } else {
        w
    }) by {
        assert(x.raw * SCALE == if x.raw < 0 {
            -n
        } else {
            n
        }) by (nonlinear_arith)
            requires
                n == a * SCALE,
                a == if x.raw < 0 {
                    -x.raw
                } else {
                    x.raw as int
                },
        ;
    }
    assert(x.over(len).raw == w || x.over(len).raw == -w);
    assert(x.over(len).raw * x.over(len).raw == w * w) by (nonlinear_arith)
        requires
            x.over(len).raw == w || x.over(len).raw == -w,
    ;
    assert((x.raw * x.raw) * (SCALE * SCALE) == n * n) by (nonlinear_arith)
        requires
            n == a * SCALE,
            a == x.raw || a == -x.raw,
    ;
    assert((w * w) * (d * d) <= n * n) by (nonlinear_arith)
        requires
            0 <= d * w <= n,
    ;
    assert(((w + 1) * (w + 1)) * (d * d) > n * n) by (nonlinear_arith)
        requires
            0 <= n < d * w + d,
    ;
    w
}

/// The unit of a vector has length one within a tolerance: its squared
/// length falls short of one by less than seven raw units, and its length
/// exceeds one by at most the reciprocal of the raw length of the vector.
/// This holds for every vector that is not zero and whose length is in
/// range.
pub proof fn lemma_unit_length(v: Vec3)
    requires
        v.in_range(),
        v.sum_sq() > 0,
        isqrt(v.sum_sq()) <= MAX_RAW,
    ensures
        ({
            let u = v.unit_spec();
            let len = v.length_spec().raw as int;
            &&& len >= 1
            &&& u.sum_sq() > SCALE * SCALE - 6 * SCALE - 3
            &&& u.sum_sq() * (len * len) < (SCALE * SCALE) * ((len + 1) * (len + 1))
        }),
{
    let u = v.unit_spec();
    let n = v.sum_sq();
    crate::fixed::lemma_isqrt_exists(n);
    let len_fixed = v.length_spec();
    let len = len_fixed.raw as int;
    assert(len == isqrt(n));
    assert(len >= 1) by {
        if len <= 0 {
            assert((len + 1) * (len + 1) <= 1) by (nonlinear_arith)
                requires
                    len == 0,
            ;
        }
    }
    let xx = v.x.raw * v.x.raw;
    let yy = v.y.raw * v.y.raw;
    let zz = v.z.raw * v.z.raw;
    assert(xx >= 0 && yy >= 0 && zz >= 0) by (nonlinear_arith)
        requires
            xx == v.x.raw * v.x.raw,
            yy == v.y.raw * v.y.raw,
            zz == v.z.raw * v.z.raw,
    ;
    let bound = (len + 1) * (len + 1);
    assert(xx < bound && yy < bound && zz < bound);
    lemma_within_length(v.x.raw as int, len);
    lemma_within_length(v.y.raw as int, len);
    lemma_within_length(v.z.raw as int, len);
    let wx = lemma_unit_component(v.x, len_fixed);
    let wy = lemma_unit_component(v.y, len_fixed);
    let wz = lemma_unit_component(v.z, len_fixed);
    let ll = len * len;
    let ss = SCALE * SCALE;
    assert(ll >= 1) by (nonlinear_arith)
        requires
            ll == len * len,
            len >= 1,
    ;
    assert(u.sum_sq() == wx * wx + wy * wy + wz * wz);
    assert(u.sum_sq() * ll == (wx * wx) * ll + (wy * wy) * ll + (wz * wz) * ll)
        by (nonlinear_arith)
        requires
            u.sum_sq() == wx * wx + wy * wy + wz * wz,
    ;
    assert(n * ss == xx * ss + yy * ss + zz * ss) by (nonlinear_arith)
        requires
            n == xx + yy + zz,
    ;
    assert(n * ss < ss * bound) by (nonlinear_arith)
        requires
            n < bound,
            ss == SCALE * SCALE,
    ;
    let up = (wx + 1) * (wx + 1) + (wy + 1) * (wy + 1) + (wz + 1) * (wz + 1);
    assert(up * ll == ((wx + 1) * (wx + 1)) * ll + ((wy + 1) * (wy + 1)) * ll + ((wz + 1) * (wz
        + 1)) * ll) by (nonlinear_arith)
        requires
            up == (wx + 1) * (wx + 1) + (wy + 1) * (wy + 1) + (wz + 1) * (wz + 1),
    ;
    assert(up * ll > n * ss);
    assert(n * ss >= ll * ss) by (nonlinear_arith)
        requires
            n >= ll,
            ss == SCALE * SCALE,
    ;
    assert(up > ss) by (nonlinear_arith)
        requires
            up * ll > ll * ss,
            ll >= 1,
    ;
    assert(up == wx * wx + wy * wy + wz * wz + 2 * (wx + wy + wz) + 3) by (nonlinear_arith)
        requires
            up == (wx + 1) * (wx + 1) + (wy + 1) * (wy + 1) + (wz + 1) * (wz + 1),
    ;
}

/// A component whose square is below the square of `len + 1` has a
/// magnitude of at most `len`.
pub proof fn lemma_within_length(x: int, len: int)
    requires
        len >= 0,
        x * x < (len + 1) * (len + 1),
    ensures
        -len <= x <= len,
{
    if x > len {
        assert(x * x >= (len + 1) * (len + 1)) by (nonlinear_arith)
            requires
                x >= len + 1,
                len >= 0,
        ;
    }
    if x < -len {
        assert(x * x >= (len + 1) * (len + 1)) by (nonlinear_arith)
            requires
                -x >= len + 1,
                len >= 0,
        ;
    }
}

/// An accepted draw is not zero and no longer than one, with room to spare
/// for an accurate unit: its raw length is at least 31622.
pub proof fn lemma_accepted_length(p: Vec3)
    requires
        p.accepted(),
    ensures
        p.sum_sq() >= SCALE,
        31_622 <= isqrt(p.sum_sq()) <= MAX_RAW,
        p.length_spec().raw == isqrt(p.sum_sq()),
{
    let xx = p.x.raw * p.x.raw;
    let yy = p.y.raw * p.y.raw;
    let zz = p.z.raw * p.z.raw;
    assert(xx >= 0 && yy >= 0 && zz >= 0) by (nonlinear_arith)
        requires
            xx == p.x.raw * p.x.raw,
            yy == p.y.raw * p.y.raw,
            zz == p.z.raw * p.z.raw,
    ;
    let qx = xx / (SCALE as int);
    let qy = yy / (SCALE as int);
    let qz = zz / (SCALE as int);
    assert(p.x.times(p.x).raw == crate::fixed::sat(qx));
    assert(p.y.times(p.y).raw == crate::fixed::sat(qy));
    assert(p.z.times(p.z).raw == crate::fixed::sat(qz));
    let n = p.sum_sq();
    assert(0 < qx + qy + qz);
    assert(qx <= SCALE && qy <= SCALE && qz <= SCALE);
    assert(SCALE <= n <= 3 * (SCALE * (SCALE + 1)));
    crate::fixed::lemma_isqrt_exists(n);
    let len = isqrt(n);
    if len < 31_622 {
        assert((len + 1) * (len + 1) <= 31_622 * 31_622) by (nonlinear_arith)
            requires
                0 <= len < 31_622,
        ;
    }
    if len > MAX_RAW {
        assert(len * len > 3 * (SCALE * (SCALE + 1))) by (nonlinear_arith)
            requires
                len > MAX_RAW,
        ;
    }
}

/// Whatever the generator yields, the random unit vector has length one
/// within a ten-thousandth: its squared length lies between `1 - 0.000000007`
/// and `1.0001`.
pub proof fn lemma_random_unitvector_length(rng: Rng, tries: nat)
    ensures
        ({
            let u = Vec3::random_unitvector_from(rng, tries).0;
            &&& u.sum_sq() > SCALE * SCALE - 6 * SCALE - 3
            &&& u.sum_sq() * 10_000 < (SCALE * SCALE) * 10_001
        }),
    decreases tries,
{
    if tries == 0 {
        let u = Vec3::of(SCALE as int, 0, 0);
        assert(u.sum_sq() == 1_000_000_000_000_000_000) by (nonlinear_arith)
            requires
                u.sum_sq() == u.x.raw * u.x.raw + u.y.raw * u.y.raw + u.z.raw * u.z.raw,
                u.x.raw == 1_000_000_000,
                u.y.raw == 0,
                u.z.raw == 0,
        ;
    } else {
        let p = Vec3::random_minmax_spec(rng, Fixed::of(-SCALE), Fixed::of(SCALE as int));
        if p.accepted() {
            lemma_accepted_length(p);
            lemma_unit_length(p);
            assert(Vec3::random_unitvector_from(rng, tries).0 == p.unit_spec());
            let u = p.unit_spec();
            let len = p.length_spec().raw as int;
            let ss = SCALE * SCALE;
            assert(((len + 1) * (len + 1)) * 10_000 <= (len * len) * 10_001) by (nonlinear_arith)
                requires
                    len >= 31_622,
            ;
            assert(u.sum_sq() * 10_000 < ss * 10_001) by (nonlinear_arith)
                requires
                    u.sum_sq() * (len * len) < ss * ((len + 1) * (len + 1)),
                    ((len + 1) * (len + 1)) * 10_000 <= (len * len) * 10_001,
                    len >= 1,
                    ss > 0,
                    u.sum_sq() >= 0,
            ;
        } else {
            lemma_random_unitvector_length(rng.skip(3), (tries - 1) as nat);
        }
    }
}

/// No component of a unit vector exceeds one in magnitude.
pub proof fn lemma_unit_components(v: Vec3)
    requires
        v.in_range(),
    ensures
        -SCALE <= v.unit_spec().x.raw <= SCALE,
        -SCALE <= v.unit_spec().y.raw <= SCALE,
        -SCALE <= v.unit_spec().z.raw <= SCALE,
{
    let n = v.sum_sq();
    let xx = v.x.raw * v.x.raw;
    let yy = v.y.raw * v.y.raw;
    let zz = v.z.raw * v.z.raw;
    assert(xx >= 0 && yy >= 0 && zz >= 0) by (nonlinear_arith)
        requires
            xx == v.x.raw * v.x.raw,
            yy == v.y.raw * v.y.raw,
            zz == v.z.raw * v.z.raw,
    ;
    crate::fixed::lemma_isqrt_exists(n);
    let len = v.length_spec();
    if len.raw == 0 {
        assert(isqrt(n) == 0);
        assert(n < 1) by (nonlinear_arith)
            requires
                n < (0 + 1) * (0 + 1),
        ;
        assert(v.x.raw == 0 && v.y.raw == 0 && v.z.raw == 0) by (nonlinear_arith)
            requires
                v.x.raw * v.x.raw + v.y.raw * v.y.raw + v.z.raw * v.z.raw < 1,
        ;
    } else {
        if isqrt(n) <= MAX_RAW {
            lemma_within_length(v.x.raw as int, len.raw as int);
            lemma_within_length(v.y.raw as int, len.raw as int);
            lemma_within_length(v.z.raw as int, len.raw as int);
        }
        let wx = lemma_unit_component(v.x, len);
        let wy = lemma_unit_component(v.y, len);
        let wz = lemma_unit_component(v.z, len);
    }
}

} // verus!
