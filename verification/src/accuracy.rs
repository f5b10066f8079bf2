//! How closely a computed hit satisfies the equation of its sphere.
//!
//! Every step of the intersection rounds, so the point of a hit does not
//! lie on the sphere exactly. This module bounds how far off it is: for a
//! hit at parameter `t` of a ray whose direction has the squared length `a`,
//! with `sq` the square root of the discriminant, the squared distance of
//! the point from the center differs from the squared radius by about
//!
//! ```text
//! ((2 sq + 2) / a + 2 sq + 3 t^2 + 6 |t| + 3 + 2 sp) * 0.000000001
//! ```
//!
//! where `sp` is the sum of the magnitudes of the components of the offset
//! of the point from the center. The bound holds wherever no step of the
//! computation is clamped, as is the case for scenes of moderate size.

use vstd::prelude::*;
use crate::fixed::abs;
use crate::fixed::lemma_tdiv_remainder;
use crate::fixed::tdiv;
use crate::fixed::Fixed;
use crate::fixed::SCALE;
use crate::hittable::lemma_hit_inside;
use crate::hittable::Sphere;
use crate::interval::Interval;
use crate::ray::Ray;
use crate::vec::Vec3;

verus! {

/// Largest raw magnitude of a coordinate of a moderate scene: 1000.
pub const POSITION_LIMIT_RAW: i64 = 1_000_000_000_000;

/// Largest raw magnitude of a component of a moderate direction: 4.
pub const DIRECTION_LIMIT_RAW: i64 = 4_000_000_000;

/// Smallest raw squared length of a moderate direction: 1/16.
pub const SQUARED_LENGTH_MIN_RAW: i64 = 62_500_000;

/// The rounding error of a quotient by the scale: what the rounded quotient
/// times the scale falls short of the dividend.
pub open spec fn lost(n: int) -> int {
    n - SCALE * tdiv(n, SCALE as int)
}

/// Sum of three rounded quotients by the scale.
pub open spec fn sum3(n1: int, n2: int, n3: int) -> int {
    tdiv(n1, SCALE as int) + tdiv(n2, SCALE as int) + tdiv(n3, SCALE as int)
}

/// The root of the quadratic with the given sign before the square root:
/// the smaller root for a negative sign, else the larger.
pub open spec fn root(s: Sphere, ray: Ray, e: int) -> Fixed {
    if e < 0 {
        s.near_root(ray)
    } else {
        s.far_root(ray)
    }
}

/// The sign of the root that a hit inside `ray_t` is found at.
pub open spec fn accepted_sign(s: Sphere, ray: Ray, ray_t: Interval) -> int {
    if ray_t.surrounds_spec(s.near_root(ray)) {
        -1
    } else {
        1
    }
}

/// No step on the way to the point at the root with sign `e` is clamped:
/// every coefficient, the discriminant, the root and the point have the
/// values that rounding alone gives.
pub open spec fn unclamped(s: Sphere, ray: Ray, e: int) -> bool {
    let d = ray.direction;
    let o = s.to_center(ray);
    let r = s.radius.raw as int;
    let a = Sphere::quad_a(ray).raw as int;
    let h = s.quad_h(ray).raw as int;
    let c = s.quad_c(ray).raw as int;
    let dis = s.discriminant(ray).raw as int;
    let sq = s.discriminant(ray).sqrt_spec().raw as int;
    let t = root(s, ray, e).raw as int;
    let p = ray.at_spec(root(s, ray, e));
    &&& o.x.raw == s.center.x.raw - ray.origin.x.raw
    &&& o.y.raw == s.center.y.raw - ray.origin.y.raw
    &&& o.z.raw == s.center.z.raw - ray.origin.z.raw
    &&& a == sum3(d.x.raw * d.x.raw, d.y.raw * d.y.raw, d.z.raw * d.z.raw)
    &&& h == sum3(d.x.raw * o.x.raw, d.y.raw * o.y.raw, d.z.raw * o.z.raw)
    &&& c == sum3(o.x.raw * o.x.raw, o.y.raw * o.y.raw, o.z.raw * o.z.raw) - tdiv(
        r * r,
        SCALE as int,
    )
    &&& dis == tdiv(h * h, SCALE as int) - tdiv(a * c, SCALE as int)
    &&& t == tdiv((h + e * sq) * SCALE, a)
    &&& p.x.raw == ray.origin.x.raw + tdiv(d.x.raw * t, SCALE as int)
    &&& p.y.raw == ray.origin.y.raw + tdiv(d.y.raw * t, SCALE as int)
    &&& p.z.raw == ray.origin.z.raw + tdiv(d.z.raw * t, SCALE as int)
}

/// A sphere and a ray of moderate size: coordinates and radius within a
/// thousand, the components of the direction within four, and the squared
/// length of the direction at least a sixteenth.
pub open spec fn moderate(s: Sphere, ray: Ray) -> bool {
    &&& abs(s.center.x.raw as int) <= POSITION_LIMIT_RAW
    &&& abs(s.center.y.raw as int) <= POSITION_LIMIT_RAW
    &&& abs(s.center.z.raw as int) <= POSITION_LIMIT_RAW
    &&& abs(ray.origin.x.raw as int) <= POSITION_LIMIT_RAW
    &&& abs(ray.origin.y.raw as int) <= POSITION_LIMIT_RAW
    &&& abs(ray.origin.z.raw as int) <= POSITION_LIMIT_RAW
    &&& 0 <= s.radius.raw <= POSITION_LIMIT_RAW
    &&& abs(ray.direction.x.raw as int) <= DIRECTION_LIMIT_RAW
    &&& abs(ray.direction.y.raw as int) <= DIRECTION_LIMIT_RAW
    &&& abs(ray.direction.z.raw as int) <= DIRECTION_LIMIT_RAW
    &&& Sphere::quad_a(ray).raw >= SQUARED_LENGTH_MIN_RAW
}

/// How far a point is off the sphere: its exact squared distance from the
/// center less the exact squared radius, in squares of raw units.
pub open spec fn off_sphere(s: Sphere, p: Vec3) -> int {
    let gx = p.x.raw - s.center.x.raw;
    let gy = p.y.raw - s.center.y.raw;
    let gz = p.z.raw - s.center.z.raw;
    gx * gx + gy * gy + gz * gz - s.radius.raw * s.radius.raw
}

/// Sum of the magnitudes of the components of the offset of a point from
/// the center, in raw units.
pub open spec fn spread(s: Sphere, p: Vec3) -> int {
    abs(p.x.raw - s.center.x.raw) + abs(p.y.raw - s.center.y.raw) + abs(
        p.z.raw - s.center.z.raw,
    )
}

/// The tolerance of a hit, from the raw values of the leading coefficient
/// `a`, the square root `sq` of the discriminant, the parameter `t` and the
/// spread `sp` of the point. In units of the numbers themselves it is
/// about `2 sq + 2 + 2 a sq + a (3 t^2 + 6 |t| + 3 + 2 sp)` billionths.
pub open spec fn hit_tolerance(a: int, sq: int, t: int, sp: int) -> int {
    (SCALE * SCALE) * (2 * sq + 2 * SCALE + 1) + a * a + 2 * (a * (sq * SCALE)) + a * (3 * (t
        * t) + 6 * (SCALE * abs(t)) + 3 * (SCALE * SCALE) + 3 * SCALE + 2 * (SCALE * sp))
}

/// A hit lies on its sphere within the tolerance. With `a` the squared
/// length of the ray's direction, `a * SCALE * |off_sphere|` of the
/// recorded point is at most the tolerance for the recorded parameter,
/// wherever `a` is above zero and no step is clamped.
pub proof fn lemma_hit_on_sphere(s: Sphere, ray: Ray, ray_t: Interval)
    requires
        s.hit_within(ray, ray_t) is Some,
        Sphere::quad_a(ray).raw > 0,
        unclamped(s, ray, accepted_sign(s, ray, ray_t)),
    ensures
        ({
            let rec = s.hit_within(ray, ray_t)->0;
            Sphere::quad_a(ray).raw * (SCALE * abs(off_sphere(s, rec.point))) <= hit_tolerance(
                Sphere::quad_a(ray).raw as int,
                s.discriminant(ray).sqrt_spec().raw as int,
                rec.t.raw as int,
                spread(s, rec.point),
            )
        }),
{
    reveal(Sphere::hit_within);
    lemma_hit_inside(s, ray, ray_t);
    lemma_root_on_sphere(s, ray, accepted_sign(s, ray, ray_t));
}

/// A hit of a ray of moderate size with a sphere of moderate size lies on
/// the sphere within the tolerance.
pub proof fn lemma_moderate_hit_on_sphere(s: Sphere, ray: Ray, ray_t: Interval)
    requires
        s.hit_within(ray, ray_t) is Some,
        moderate(s, ray),
    ensures
        ({
            let rec = s.hit_within(ray, ray_t)->0;
            Sphere::quad_a(ray).raw * (SCALE * abs(off_sphere(s, rec.point))) <= hit_tolerance(
                Sphere::quad_a(ray).raw as int,
                s.discriminant(ray).sqrt_spec().raw as int,
                rec.t.raw as int,
                spread(s, rec.point),
            )
        }),
{
    lemma_hit_inside(s, ray, ray_t);
    lemma_moderate_is_unclamped(s, ray, accepted_sign(s, ray, ray_t));
    lemma_hit_on_sphere(s, ray, ray_t);
}

/// The point at a root lies on the sphere within the tolerance: with `a`
/// the leading coefficient, `a * SCALE * |off_sphere|` is at most the
/// tolerance, wherever the direction has a squared length above zero and
/// no step is clamped.
pub proof fn lemma_root_on_sphere(s: Sphere, ray: Ray, e: int)
    requires
        e == 1 || e == -1,
        s.discriminant(ray).raw >= 0,
        Sphere::quad_a(ray).raw > 0,
        unclamped(s, ray, e),
    ensures
        ({
            let t = root(s, ray, e);
            let p = ray.at_spec(t);
            Sphere::quad_a(ray).raw * (SCALE * abs(off_sphere(s, p))) <= hit_tolerance(
                Sphere::quad_a(ray).raw as int,
                s.discriminant(ray).sqrt_spec().raw as int,
                t.raw as int,
                spread(s, p),
            )
        }),
{
    let big = SCALE as int;
    let d = ray.direction;
    let o = s.to_center(ray);
    let r = s.radius.raw as int;
    let a = Sphere::quad_a(ray).raw as int;
    let h = s.quad_h(ray).raw as int;
    let c = s.quad_c(ray).raw as int;
    let dis = s.discriminant(ray).raw as int;
    let sq = s.discriminant(ray).sqrt_spec().raw as int;
    let t = root(s, ray, e).raw as int;
    let p = ray.at_spec(root(s, ray, e));

    crate::fixed::lemma_sqrt_bounds(s.discriminant(ray));
    assert(sq * sq <= dis * big < (sq + 1) * (sq + 1)) by {
        if dis == 0 {
            assert(sq * sq <= dis * big < (sq + 1) * (sq + 1)) by (nonlinear_arith)
                requires
                    sq == 0,
                    dis == 0,
            ;
        } else {
            assert(crate::fixed::is_isqrt(dis * big, sq));
        }
    }
    lemma_lost(h * h);
    lemma_lost(a * c);
    assert(dis * big - (h * h - a * c) == lost(a * c) - lost(h * h)) by (nonlinear_arith)
        requires
            dis == tdiv(h * h, big) - tdiv(a * c, big),
            lost(h * h) == h * h - big * tdiv(h * h, big),
            lost(a * c) == a * c - big * tdiv(a * c, big),
    ;
    lemma_root_residual(a, h, c, dis, sq, e, t);
    let (off, res, sp) = lemma_point_residual(
        t,
        d.x.raw as int,
        d.y.raw as int,
        d.z.raw as int,
        o.x.raw as int,
        o.y.raw as int,
        o.z.raw as int,
        r,
    );
    assert(d.x.raw * t == t * d.x.raw && d.y.raw * t == t * d.y.raw && d.z.raw * t == t
        * d.z.raw) by (nonlinear_arith);
    assert(off == off_sphere(s, p));
    assert(sp == spread(s, p));
    let rest = 3 * (t * t) + 6 * (big * abs(t)) + 3 * (big * big) + 3 * big + 2 * (big * sp);
    assert(a * (big * abs(off)) <= abs(a * res) + a * rest) by (nonlinear_arith)
        requires
            big * abs(off) <= abs(res) + rest,
            a > 0,
    ;
}

/// Nothing is clamped on the way to either root for a sphere and a ray of
/// moderate size.
#[verifier::rlimit(50)]
pub proof fn lemma_moderate_is_unclamped(s: Sphere, ray: Ray, e: int)
    requires
        e == 1 || e == -1,
        moderate(s, ray),
        s.discriminant(ray).raw >= 0,
    ensures
        unclamped(s, ray, e),
{
    let big = SCALE as int;
    let d = ray.direction;
    lemma_moderate_coefficients(s, ray);
    let a = Sphere::quad_a(ray).raw as int;
    let h = s.quad_h(ray).raw as int;
    let c = s.quad_c(ray).raw as int;
    // The discriminant and its square root.
    lemma_product_bound(h, h, 24_000, 24_000);
    lemma_product_bound(a, c, 48, 13_000_000);
    let dis = s.discriminant(ray).raw as int;
    assert(dis == tdiv(h * h, big) - tdiv(a * c, big));
    lemma_moderate_sqrt(s.discriminant(ray));
    let sq = s.discriminant(ray).sqrt_spec().raw as int;
    // The root.
    let num = h + e * sq;
    assert(e * sq == sq || e * sq == -sq) by (nonlinear_arith)
        requires
            e == 1 || e == -1,
    ;
    lemma_moderate_quotient(num, a);
    let t = root(s, ray, e).raw as int;
    assert(t == tdiv(num * big, a));
    // The point.
    lemma_product_bound(d.x.raw as int, t, 4, 938_272);
    lemma_product_bound(d.y.raw as int, t, 4, 938_272);
    lemma_product_bound(d.z.raw as int, t, 4, 938_272);
}

/// A root of the rounded quadratic solves it within rounding. For the
/// coefficients `a`, `h` and `c`, a square root `s` of the discriminant
/// taken down to an integer, and `t` the rounded quotient of `(h + e * s)`
/// by `a` with `e` one or minus one, the residual `a t^2 - 2 h t + c`,
/// scaled to integers, is small against `a`.
pub proof fn lemma_root_residual(a: int, h: int, c: int, dis: int, s: int, e: int, t: int)
    requires
        a > 0,
        e == 1 || e == -1,
        s >= 0,
        s * s <= dis * SCALE < (s + 1) * (s + 1),
        abs(dis * SCALE - (h * h - a * c)) < 2 * SCALE,
        t == tdiv((h + e * s) * SCALE, a),
    ensures
        abs(a * (a * (t * t) - 2 * (h * SCALE) * t + c * (SCALE * SCALE))) <= (SCALE * SCALE) * (2
            * s + 2 * SCALE + 1) + a * a + 2 * (a * (s * SCALE)),
{
    let big = SCALE as int;
    let n = (h + e * s) * big;
    lemma_tdiv_remainder(n, a);
    let rho = n - a * t;
    assert(abs(rho) < a);
    let at = a * t;
    let theta = dis * big - (h * h - a * c);
    let gap = s * s - dis * big;
    assert(-(2 * s + 1) < gap <= 0) by (nonlinear_arith)
        requires
            gap == s * s - dis * big,
            s * s <= dis * big < (s + 1) * (s + 1),
    ;
    // The residual times `a`, written in the product `a t`.
    let res = a * (t * t) - 2 * (h * big) * t + c * (big * big);
    assert(a * res == at * at - 2 * (h * big) * at + (a * c) * (big * big)) by (nonlinear_arith)
        requires
            res == a * (t * t) - 2 * (h * big) * t + c * (big * big),
            at == a * t,
    ;
    // With `a t = n - rho` the leading part collapses to the error of the
    // square root.
    assert(at * at - 2 * (h * big) * at == n * n - 2 * (h * big) * n + rho * rho - 2 * rho * (n
        - h * big)) by (nonlinear_arith)
        requires
            at == n - rho,
    ;
    let m = h + e * s;
    assert(e * s == s || e * s == -s) by (nonlinear_arith)
        requires
            e == 1 || e == -1,
    ;
    assert(m * m - 2 * (h * m) == s * s - h * h) by (nonlinear_arith)
        requires
            m == h + s || m == h - s,
    ;
    assert(n * n == (m * m) * (big * big)) by (nonlinear_arith)
        requires
            n == m * big,
    ;
    assert((h * big) * n == (h * m) * (big * big)) by (nonlinear_arith)
        requires
            n == m * big,
    ;
    assert(n * n - 2 * (h * big) * n == (big * big) * (s * s - h * h)) by (nonlinear_arith)
        requires
            n * n == (m * m) * (big * big),
            (h * big) * n == (h * m) * (big * big),
            m * m - 2 * (h * m) == s * s - h * h,
    ;
    assert(n - h * big == e * (s * big)) by (nonlinear_arith)
        requires
            n == (h + e * s) * big,
    ;
    let core = s * s - h * h + a * c;
    assert(core == gap + theta);
    assert(a * res == (big * big) * core + rho * rho - 2 * rho * (e * (s * big)))
        by (nonlinear_arith)
        requires
            a * res == at * at - 2 * (h * big) * at + (a * c) * (big * big),
            at * at - 2 * (h * big) * at == n * n - 2 * (h * big) * n + rho * rho - 2 * rho * (n
                - h * big),
            n * n - 2 * (h * big) * n == (big * big) * (s * s - h * h),
            n - h * big == e * (s * big),
            core == s * s - h * h + a * c,
    ;
    assert(abs(core) <= 2 * s + 2 * big + 1);
    assert(abs((big * big) * core) <= (big * big) * (2 * s + 2 * big + 1)) by (nonlinear_arith)
        requires
            abs(core) <= 2 * s + 2 * big + 1,
            big > 0,
    ;
    assert(rho * rho <= a * a) by (nonlinear_arith)
        requires
            abs(rho) < a,
    ;
    assert(rho * rho >= 0) by (nonlinear_arith);
    assert(abs(2 * rho * (e * (s * big))) <= 2 * (a * (s * big))) by (nonlinear_arith)
        requires
            abs(rho) < a,
            e == 1 || e == -1,
            s >= 0,
            big > 0,
    ;
}

/// From the residual of the rounded quadratic to the distance from the
/// sphere. For a direction `d`, an offset `o` of the center from the
/// origin and a radius `r`, let `a`, `h` and `c` be the rounded
/// coefficients and `g` the offset from the center of the point at `t`.
/// What the squared length of `g` differs from the squared radius is
/// bounded by the residual of the quadratic at `t` and the roundings of
/// the coefficients and of the point.
#[verifier::rlimit(50)]
pub proof fn lemma_point_residual(
    t: int,
    dx: int,
    dy: int,
    dz: int,
    ox: int,
    oy: int,
    oz: int,
    r: int,
) -> (out: (int, int, int))
    ensures
        ({
            let a = sum3(dx * dx, dy * dy, dz * dz);
            let h = sum3(dx * ox, dy * oy, dz * oz);
            let c = sum3(ox * ox, oy * oy, oz * oz) - tdiv(r * r, SCALE as int);
            let gx = tdiv(t * dx, SCALE as int) - ox;
            let gy = tdiv(t * dy, SCALE as int) - oy;
            let gz = tdiv(t * dz, SCALE as int) - oz;
            let off = gx * gx + gy * gy + gz * gz - r * r;
            let res = a * (t * t) - 2 * (h * SCALE) * t + c * (SCALE * SCALE);
            let spread = abs(gx) + abs(gy) + abs(gz);
            &&& out == (off, res, spread)
            &&& SCALE * abs(off) <= abs(res) + 3 * (t * t) + 6 * (SCALE * abs(t)) + 3 * (SCALE
                * SCALE) + 3 * SCALE + 2 * (SCALE * spread)
        }),
{
    let big = SCALE as int;
    let a = sum3(dx * dx, dy * dy, dz * dz);
    let h = sum3(dx * ox, dy * oy, dz * oz);
    let c = sum3(ox * ox, oy * oy, oz * oz) - tdiv(r * r, big);
    let (gx, ux, lag_x) = lemma_offset_component(t, dx, ox);
    let (gy, uy, lag_y) = lemma_offset_component(t, dy, oy);
    let (gz, uz, lag_z) = lemma_offset_component(t, dz, oz);
    let off = gx * gx + gy * gy + gz * gz - r * r;
    let res = a * (t * t) - 2 * (h * big) * t + c * (big * big);
    let spread = abs(gx) + abs(gy) + abs(gz);
    let tt = t * t;
    let bb = big * big;

    // What the roundings of the coefficients lose.
    lemma_lost(dx * dx);
    lemma_lost(dy * dy);
    lemma_lost(dz * dz);
    lemma_lost(dx * ox);
    lemma_lost(dy * oy);
    lemma_lost(dz * oz);
    lemma_lost(ox * ox);
    lemma_lost(oy * oy);
    lemma_lost(oz * oz);
    lemma_lost(r * r);
    assert(dx * dx >= 0 && dy * dy >= 0 && dz * dz >= 0 && ox * ox >= 0 && oy * oy >= 0 && oz
        * oz >= 0 && r * r >= 0) by (nonlinear_arith);
    let alpha = lost(dx * dx) + lost(dy * dy) + lost(dz * dz);
    let eta = lost(dx * ox) + lost(dy * oy) + lost(dz * oz);
    let gamma = lost(ox * ox) + lost(oy * oy) + lost(oz * oz) - lost(r * r);
    let dd = dx * dx + dy * dy + dz * dz;
    let dot = dx * ox + dy * oy + dz * oz;
    let oo = ox * ox + oy * oy + oz * oz;
    assert(dd == big * a + alpha);
    assert(dot == big * h + eta);
    assert(oo - r * r == big * c + gamma);
    assert(0 <= alpha < 3 * big);
    assert(abs(eta) < 3 * big);
    assert(-big < gamma < 3 * big);

    // The squares of the three components, summed.
    let uu = ux * ux + uy * uy + uz * uz;
    lemma_distribute3(tt, dx * dx, dy * dy, dz * dz);
    lemma_distribute3(t * big, dx * ox, dy * oy, dz * oz);
    lemma_distribute3(bb, ox * ox, oy * oy, oz * oz);
    assert(uu == tt * dd - 2 * ((t * big) * dot) + bb * oo);
    let e1 = alpha * tt - 2 * ((t * big) * eta) + bb * gamma;
    assert(tt * dd == big * (a * tt) + alpha * tt) by (nonlinear_arith)
        requires
            dd == big * a + alpha,
    ;
    assert((t * big) * dot == big * ((h * big) * t) + (t * big) * eta) by (nonlinear_arith)
        requires
            dot == big * h + eta,
    ;
    assert(bb * oo - bb * (r * r) == big * (c * bb) + bb * gamma) by (nonlinear_arith)
        requires
            oo - r * r == big * c + gamma,
    ;
    assert(big * res == big * (a * tt) - 2 * (big * ((h * big) * t)) + big * (c * bb))
        by (nonlinear_arith)
        requires
            res == a * tt - 2 * (h * big) * t + c * bb,
    ;
    assert(uu - bb * (r * r) == big * res + e1);
    let kx = lag_x * lag_x + 2 * (big * (lag_x * gx));
    let ky = lag_y * lag_y + 2 * (big * (lag_y * gy));
    let kz = lag_z * lag_z + 2 * (big * (lag_z * gz));
    let e2 = kx + ky + kz;
    assert(bb * off == uu - bb * (r * r) - e2) by (nonlinear_arith)
        requires
            off == gx * gx + gy * gy + gz * gz - r * r,
            bb * (gx * gx) == ux * ux - kx,
            bb * (gy * gy) == uy * uy - ky,
            bb * (gz * gz) == uz * uz - kz,
            uu == ux * ux + uy * uy + uz * uz,
            e2 == kx + ky + kz,
    ;
    assert(bb * off == big * res + e1 - e2);

    // Bounds of the two error terms.
    assert(tt >= 0) by (nonlinear_arith)
        requires
            tt == t * t,
    ;
    assert(abs(alpha * tt) <= 3 * (big * tt)) by (nonlinear_arith)
        requires
            0 <= alpha < 3 * big,
            tt >= 0,
    ;
    assert(abs((t * big) * eta) <= 3 * (bb * abs(t))) by (nonlinear_arith)
        requires
            abs(eta) < 3 * big,
            bb == big * big,
            big > 0,
    ;
    assert(abs(bb * gamma) <= 3 * (bb * big)) by (nonlinear_arith)
        requires
            -big < gamma < 3 * big,
            bb == big * big,
            big > 0,
    ;
    assert(abs(e1) <= 3 * (big * tt) + 6 * (bb * abs(t)) + 3 * (bb * big));
    lemma_rounding_term(lag_x, gx);
    lemma_rounding_term(lag_y, gy);
    lemma_rounding_term(lag_z, gz);
    assert(abs(e2) <= 3 * bb + 2 * (bb * spread)) by (nonlinear_arith)
        requires
            e2 == kx + ky + kz,
            abs(kx) <= bb + 2 * (bb * abs(gx)),
            abs(ky) <= bb + 2 * (bb * abs(gy)),
            abs(kz) <= bb + 2 * (bb * abs(gz)),
            spread == abs(gx) + abs(gy) + abs(gz),
    ;
    let bound = abs(res) + 3 * tt + 6 * (big * abs(t)) + 3 * bb + 3 * big + 2 * (big * spread);
    assert(abs(bb * off) <= big * bound) by (nonlinear_arith)
        requires
            bb * off == big * res + e1 - e2,
            abs(e1) <= 3 * (big * tt) + 6 * (bb * abs(t)) + 3 * (bb * big),
            abs(e2) <= 3 * bb + 2 * (bb * spread),
            bound == abs(res) + 3 * tt + 6 * (big * abs(t)) + 3 * bb + 3 * big + 2 * (big
                * spread),
            bb == big * big,
            big > 0,
    ;
    assert(big * abs(off) <= bound) by (nonlinear_arith)
        requires
            abs(bb * off) <= big * bound,
            bb == big * big,
            big > 0,
    ;
    (off, res, spread)
}

/// One component of the scaled offset of the point from the center. With
/// `q` the rounded product of `t` and `d`, and `g = q - o` the offset, the
/// square of `SCALE * g` differs from the square of `u = t d - SCALE o`
/// only by terms in the rounding error `p = t d - SCALE q`.
proof fn lemma_offset_component(t: int, d: int, o: int) -> (r: (int, int, int))
    ensures
        ({
            let (g, u, p) = r;
            &&& g == tdiv(t * d, SCALE as int) - o
            &&& u == t * d - SCALE * o
            &&& abs(p) < SCALE
            &&& (SCALE * SCALE) * (g * g) == u * u - (p * p + 2 * (SCALE * (p * g)))
            &&& u * u == (t * t) * (d * d) - 2 * ((t * SCALE) * (d * o)) + (SCALE * SCALE) * (o
                * o)
        }),
{
    let big = SCALE as int;
    let q = tdiv(t * d, big);
    lemma_tdiv_remainder(t * d, big);
    let p = t * d - big * q;
    let g = q - o;
    let u = t * d - big * o;
    assert(u == big * g + p) by (nonlinear_arith)
        requires
            p == t * d - big * q,
            g == q - o,
            u == t * d - big * o,
    ;
    assert((big * big) * (g * g) == u * u - (p * p + 2 * (big * (p * g)))) by (nonlinear_arith)
        requires
            u == big * g + p,
    ;
    let td = t * d;
    assert(u * u == td * td - 2 * (td * (big * o)) + (big * o) * (big * o)) by (nonlinear_arith)
        requires
            u == td - big * o,
    ;
    assert(td * td == (t * t) * (d * d)) by (nonlinear_arith)
        requires
            td == t * d,
    ;
    assert(td * (big * o) == (t * big) * (d * o)) by (nonlinear_arith)
        requires
            td == t * d,
    ;
    assert((big * o) * (big * o) == (big * big) * (o * o)) by (nonlinear_arith);
    (g, u, p)
}

/// What is lost has the sign of the dividend and is smaller than the scale.
proof fn lemma_lost(n: int)
    ensures
        abs(lost(n)) < SCALE,
        n >= 0 ==> lost(n) >= 0,
{
    lemma_tdiv_remainder(n, SCALE as int);
    if n >= 0 {
        vstd::arithmetic::div_mod::lemma_fundamental_div_mod(n, SCALE as int);
        vstd::arithmetic::div_mod::lemma_mod_bound(n, SCALE as int);
    }
}

/// A product with a sum of three is the sum of the three products.
proof fn lemma_distribute3(k: int, x: int, y: int, z: int)
    ensures
        k * (x + y + z) == k * x + k * y + k * z,
{
    assert(k * (x + y + z) == k * x + k * y + k * z) by (nonlinear_arith);
}

/// The terms that the rounding of one component of the point adds are
/// bounded by the offset of that component.
proof fn lemma_rounding_term(p: int, g: int)
    requires
        abs(p) < SCALE,
    ensures
        abs(p * p + 2 * (SCALE * (p * g))) <= SCALE * SCALE + 2 * ((SCALE * SCALE) * abs(g)),
{
    let big = SCALE as int;
    assert(0 <= p * p <= big * big) by (nonlinear_arith)
        requires
            abs(p) < big,
    ;
    assert(abs(p * g) <= big * abs(g)) by (nonlinear_arith)
        requires
            abs(p) < big,
    ;
    assert(abs(big * (p * g)) <= (big * big) * abs(g)) by (nonlinear_arith)
        requires
            abs(p * g) <= big * abs(g),
            big > 0,
    ;
}

/// The rounded quotient by the scale of a product of bounded factors.
proof fn lemma_product_bound(x: int, y: int, xm: int, ym: int)
    requires
        abs(x) <= xm * SCALE,
        abs(y) <= ym * SCALE,
        xm >= 0,
        ym >= 0,
    ensures
        abs(tdiv(x * y, SCALE as int)) <= (xm * ym) * SCALE,
{
    let big = SCALE as int;
    let n = x * y;
    let k = (xm * ym) * big;
    assert(abs(n) <= k * big) by (nonlinear_arith)
        requires
            n == x * y,
            abs(x) <= xm * big,
            abs(y) <= ym * big,
            k == (xm * ym) * big,
            xm >= 0,
            ym >= 0,
            big > 0,
    ;
    assert(k >= 0) by (nonlinear_arith)
        requires
            k == (xm * ym) * big,
            xm >= 0,
            ym >= 0,
            big > 0,
    ;
    lemma_tdiv_remainder(n, big);
    let q = tdiv(n, big);
    assert(abs(q) <= k) by (nonlinear_arith)
        requires
            abs(n - big * q) < big,
            abs(n) <= k * big,
            big > 0,
            k >= 0,
    ;
}

/// The coefficients of the quadratic for a sphere and a ray of moderate
/// size are not clamped, and they are bounded.
proof fn lemma_moderate_coefficients(s: Sphere, ray: Ray)
    requires
        moderate(s, ray),
    ensures
        ({
            let d = ray.direction;
            let o = s.to_center(ray);
            let r = s.radius.raw as int;
            let a = Sphere::quad_a(ray).raw as int;
            let h = s.quad_h(ray).raw as int;
            let c = s.quad_c(ray).raw as int;
            &&& o.x.raw == s.center.x.raw - ray.origin.x.raw
            &&& o.y.raw == s.center.y.raw - ray.origin.y.raw
            &&& o.z.raw == s.center.z.raw - ray.origin.z.raw
            &&& a == sum3(d.x.raw * d.x.raw, d.y.raw * d.y.raw, d.z.raw * d.z.raw)
            &&& h == sum3(d.x.raw * o.x.raw, d.y.raw * o.y.raw, d.z.raw * o.z.raw)
            &&& c == sum3(o.x.raw * o.x.raw, o.y.raw * o.y.raw, o.z.raw * o.z.raw) - tdiv(
                r * r,
                SCALE as int,
            )
            &&& abs(a) <= 48 * SCALE
            &&& abs(h) <= 24_000 * SCALE
            &&& abs(c) <= 13_000_000 * SCALE
        }),
{
    let big = SCALE as int;
    let d = ray.direction;
    let o = s.to_center(ray);
    let r = s.radius.raw as int;
    assert(abs(o.x.raw as int) <= 2000 * big && abs(o.y.raw as int) <= 2000 * big && abs(
        o.z.raw as int,
    ) <= 2000 * big);
    lemma_product_bound(d.x.raw as int, d.x.raw as int, 4, 4);
    lemma_product_bound(d.y.raw as int, d.y.raw as int, 4, 4);
    lemma_product_bound(d.z.raw as int, d.z.raw as int, 4, 4);
    lemma_product_bound(d.x.raw as int, o.x.raw as int, 4, 2000);
    lemma_product_bound(d.y.raw as int, o.y.raw as int, 4, 2000);
    lemma_product_bound(d.z.raw as int, o.z.raw as int, 4, 2000);
    lemma_product_bound(o.x.raw as int, o.x.raw as int, 2000, 2000);
    lemma_product_bound(o.y.raw as int, o.y.raw as int, 2000, 2000);
    lemma_product_bound(o.z.raw as int, o.z.raw as int, 2000, 2000);
    lemma_product_bound(r, r, 1000, 1000);
}

/// The square root of a number of at most 1.2 billion is at most 34642.
proof fn lemma_moderate_sqrt(dis: Fixed)
    requires
        0 <= dis.raw <= 1_200_000_000 * SCALE,
    ensures
        0 <= dis.sqrt_spec().raw <= 34_642 * SCALE,
{
    let big = SCALE as int;
    crate::fixed::lemma_sqrt_bounds(dis);
    let sq = dis.sqrt_spec().raw as int;
    if sq > 34_642 * big {
        assert(sq * sq > 1_200_000_000 * big * big) by (nonlinear_arith)
            requires
                sq > 34_642 * big,
                big == 1_000_000_000,
        ;
        assert(dis.raw * big <= 1_200_000_000 * big * big) by (nonlinear_arith)
            requires
                dis.raw <= 1_200_000_000 * big,
                big > 0,
        ;
    }
}

/// The rounded quotient of a bounded numerator by a leading coefficient of
/// at least a sixteenth.
proof fn lemma_moderate_quotient(num: int, a: int)
    requires
        abs(num) <= 58_642 * SCALE,
        a >= SQUARED_LENGTH_MIN_RAW,
    ensures
        abs(tdiv(num * SCALE, a)) <= 938_272 * SCALE,
{
    let big = SCALE as int;
    let quotient = tdiv(num * big, a);
    lemma_tdiv_remainder(num * big, a);
    assert(abs(num * big) <= 58_642 * big * big) by (nonlinear_arith)
        requires
            abs(num) <= 58_642 * big,
            big > 0,
    ;
    assert(abs(quotient) <= 938_272 * big) by (nonlinear_arith)
        requires
            abs(num * big - a * quotient) < a,
            abs(num * big) <= 58_642 * big * big,
            a >= 62_500_000,
            big == 1_000_000_000,
    ;
}

} // verus!
