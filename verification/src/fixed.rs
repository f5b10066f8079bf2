//! Saturating decimal fixed-point numbers.
//!
//! A [`Fixed`] stands for the rational number `raw / SCALE`. Every operation
//! computes the exact result, rounds it toward zero onto the grid of
//! representable values and clamps it to the symmetric range
//! `[-MAX_RAW, MAX_RAW]`, whose ends play the part of the two infinities.

use vstd::prelude::*;

verus! {

/// Number of raw units in the value one.
pub const SCALE: i64 = 1_000_000_000;

/// Largest raw magnitude; the raw value of positive infinity.
pub const MAX_RAW: i64 = 9_223_372_036_854_775_807;

/// Clamps an exact raw result to the representable range.
pub open spec fn sat(x: int) -> int {
    if x > MAX_RAW {
        MAX_RAW as int
    } else if x < -MAX_RAW {
        -MAX_RAW
    } else {
        x
    }
}

/// Quotient of `n` by `d` rounded toward zero, for `d != 0`.
pub open spec fn tdiv(n: int, d: int) -> int {
    if d > 0 {
        if n >= 0 {
            n / d
        } else {
            -((-n) / d)
        }
    } else {
        if n >= 0 {
            -(n / (-d))
        } else {
            (-n) / (-d)
        }
    }
}

/// Magnitude of an integer.
pub open spec fn abs(x: int) -> int {
    if x < 0 {
        -x
    } else {
        x
    }
}

/// `r` is the integer square root of `n`: the largest `r` with `r * r <= n`.
pub open spec fn is_isqrt(n: int, r: int) -> bool {
    0 <= r && r * r <= n && n < (r + 1) * (r + 1)
}

/// The integer square root of `n` for `n >= 0`.
pub open spec fn isqrt(n: int) -> int {
    choose|r: int| is_isqrt(n, r)
}

/// Raw value of a product.
pub open spec fn mul_raw(a: int, b: int) -> int {
    sat(tdiv(a * b, SCALE as int))
}

/// Raw value of a quotient. A zero divisor saturates: the result is the
/// infinity with the sign of the dividend, and zero for `0 / 0`.
pub open spec fn div_raw(a: int, b: int) -> int {
    if b == 0 {
        if a > 0 {
            MAX_RAW as int
        } else if a < 0 {
            -MAX_RAW
        } else {
            0
        }
    } else {
        sat(tdiv(a * SCALE, b))
    }
}

/// Raw value of a square root. Negative inputs count as zero.
pub open spec fn sqrt_raw(a: int) -> int {
    if a <= 0 {
        0
    } else {
        isqrt(a * SCALE)
    }
}

/// A fixed-point number with nine decimal places.
#[derive(Clone, Copy, Debug, PartialEq, Eq, PartialOrd, Ord, Structural)]
pub struct Fixed {
    pub raw: i64,
}

/// Integer square root by bisection.
pub fn isqrt_u128(n: u128) -> (r: u64)
    ensures
        is_isqrt(n as int, r as int),
        r == isqrt(n as int),
{
    let mut lo: u128 = 0;
    let mut hi: u128 = 0x1_0000_0000_0000_0000;
    assert(n < hi * hi) by (nonlinear_arith)
        requires
            hi == 0x1_0000_0000_0000_0000,
            n <= u128::MAX,
    ;
    while hi - lo > 1
        invariant
            lo < hi <= 0x1_0000_0000_0000_0000,
            lo * lo <= n,
            n < hi * hi,
        decreases hi - lo,
    {
        let mid: u128 = lo + (hi - lo) / 2;
        assert(mid * mid <= 0xffff_ffff_ffff_ffff * 0xffff_ffff_ffff_ffff) by (nonlinear_arith)
            requires
                0 <= mid <= 0xffff_ffff_ffff_ffff,
        ;
        if mid * mid <= n {
            lo = mid;
        } else {
            hi = mid;
        }
    }
    proof {
        lemma_isqrt_is(n as int, lo as int);
    }
    lo as u64
}

/// Clamps a wide intermediate result to a number.
fn saturate(q: i128) -> (r: Fixed)
    ensures
        r.raw == sat(q as int),
{
    if q > MAX_RAW as i128 {
        Fixed { raw: MAX_RAW }
    } else if q < -(MAX_RAW as i128) {
        Fixed { raw: -MAX_RAW }
    } else {
        Fixed { raw: q as i64 }
    }
}

impl Fixed {
    /// The number with the given raw value, for raw values in range.
    pub open spec fn of(x: int) -> Fixed {
        Fixed { raw: x as i64 }
    }

    /// The raw value lies in the symmetric range that results are clamped to.
    pub open spec fn in_range(self) -> bool {
        -MAX_RAW <= self.raw
    }

    /// Sum, clamped.
    pub open spec fn plus(self, rhs: Fixed) -> Fixed {
        Fixed::of(sat(self.raw + rhs.raw))
    }

    /// Difference, clamped.
    pub open spec fn minus(self, rhs: Fixed) -> Fixed {
        Fixed::of(sat(self.raw - rhs.raw))
    }

    /// Negation, clamped.
    pub open spec fn negated(self) -> Fixed {
        Fixed::of(sat(-self.raw))
    }

    /// Product, rounded toward zero and clamped.
    pub open spec fn times(self, rhs: Fixed) -> Fixed {
        Fixed::of(mul_raw(self.raw as int, rhs.raw as int))
    }

    /// Quotient, rounded toward zero and clamped.
    pub open spec fn over(self, rhs: Fixed) -> Fixed {
        Fixed::of(div_raw(self.raw as int, rhs.raw as int))
    }

    /// Square root, rounded down.
    pub open spec fn sqrt_spec(self) -> Fixed {
        Fixed::of(sqrt_raw(self.raw as int))
    }

    /// Absolute value.
    pub open spec fn abs_spec(self) -> Fixed {
        if self.raw < 0 {
            self.negated()
        } else {
            self
        }
    }

    /// The lesser of two numbers.
    pub open spec fn min_spec(self, other: Fixed) -> Fixed {
        if self.raw <= other.raw {
            self
        } else {
            other
        }
    }

    /// The greater of two numbers.
    pub open spec fn max_spec(self, other: Fixed) -> Fixed {
        if self.raw >= other.raw {
            self
        } else {
            other
        }
    }

    /// `self` raised to the power `n`, rounding after every multiplication.
    pub open spec fn powi_spec(self, n: nat) -> Fixed
        decreases n,
    {
        if n == 0 {
            Fixed::of(SCALE as int)
        } else {
            self.powi_spec((n - 1) as nat).times(self)
        }
    }

    /// Truncation to an unsigned integer, clamped to the range of `u32`.
    pub open spec fn to_u32_spec(self) -> int {
        if self.raw <= 0 {
            0
        } else if self.raw / SCALE > u32::MAX {
            u32::MAX as int
        } else {
            self.raw / SCALE
        }
    }

    /// The number zero.
    pub fn zero() -> (r: Fixed)
        ensures
            r.raw == 0,
    {
        Fixed { raw: 0 }
    }

    /// The number one.
    pub fn one() -> (r: Fixed)
        ensures
            r.raw == SCALE,
    {
        Fixed { raw: SCALE }
    }

    /// The largest number, which stands for positive infinity.
    pub fn infinity() -> (r: Fixed)
        ensures
            r.raw == MAX_RAW,
    {
        Fixed { raw: MAX_RAW }
    }

    /// The number of `raw` billionths.
    pub fn from_raw(raw: i64) -> (r: Fixed)
        ensures
            r.raw == raw,
    {
        Fixed { raw }
    }

    /// The whole number `n`.
    pub fn from_u32(n: u32) -> (r: Fixed)
        ensures
            r.raw == n * SCALE,
    {
        Fixed { raw: (n as i64) * SCALE }
    }

    /// The whole number `n`.
    pub fn from_i32(n: i32) -> (r: Fixed)
        ensures
            r.raw == n * SCALE,
    {
        Fixed { raw: (n as i64) * SCALE }
    }

    /// The whole part of the number, clamped to the range of `u32`.
    pub fn to_u32(self) -> (r: u32)
        ensures
            r == self.to_u32_spec(),
    {
        if self.raw <= 0 {
            0
        } else {
            let q: i64 = self.raw / SCALE;
            if q > u32::MAX as i64 {
                u32::MAX
            } else {
                q as u32
            }
        }
    }

    /// The square root, rounded down; zero for a negative number.
    pub fn sqrt(self) -> (r: Fixed)
        ensures
            r == self.sqrt_spec(),
    {
        if self.raw <= 0 {
            Fixed { raw: 0 }
        } else {
            let n: u128 = (self.raw as u128) * (SCALE as u128);
            let root: u64 = isqrt_u128(n);
            proof {
                let r = root as int;
                assert(r * r <= n);
                if r > MAX_RAW {
                    assert(r * r > n) by (nonlinear_arith)
                        requires
                            r > MAX_RAW,
                            n <= MAX_RAW * SCALE,
                    ;
                }
            }
            Fixed { raw: root as i64 }
        }
    }

    /// The absolute value.
    pub fn abs(self) -> (r: Fixed)
        ensures
            r == self.abs_spec(),
    {
        if self.raw < 0 {
            saturate(-(self.raw as i128))
        } else {
            self
        }
    }

    /// The lesser of two numbers.
    pub fn min(self, other: Fixed) -> (r: Fixed)
        ensures
            r == self.min_spec(other),
    {
        if self.raw <= other.raw {
            self
        } else {
            other
        }
    }

    /// The greater of two numbers.
    pub fn max(self, other: Fixed) -> (r: Fixed)
        ensures
            r == self.max_spec(other),
    {
        if self.raw >= other.raw {
            self
        } else {
            other
        }
    }

    /// The power with exponent `n`, rounded after every multiplication.
    pub fn powi(self, n: u32) -> (r: Fixed)
        ensures
            r == self.powi_spec(n as nat),
    {
        let mut acc: Fixed = Fixed { raw: SCALE };
        let mut i: u32 = 0;
        while i < n
            invariant
                i <= n,
                acc == self.powi_spec(i as nat),
            decreases n - i,
        {
            acc = acc * self;
            i = i + 1;
        }
        acc
    }
}

impl core::ops::Add for Fixed {
    type Output = Fixed;

    fn add(self, rhs: Fixed) -> (r: Fixed)
        ensures
            r == self.plus(rhs),
    {
        saturate(self.raw as i128 + rhs.raw as i128)
    }
}

impl vstd::std_specs::ops::AddSpecImpl for Fixed {
    open spec fn obeys_add_spec() -> bool {
        true
    }

    open spec fn add_req(self, rhs: Fixed) -> bool {
        true
    }

    open spec fn add_spec(self, rhs: Fixed) -> Fixed {
        self.plus(rhs)
    }
}

impl core::ops::Sub for Fixed {
    type Output = Fixed;

    fn sub(self, rhs: Fixed) -> (r: Fixed)
        ensures
            r == self.minus(rhs),
    {
        saturate(self.raw as i128 - rhs.raw as i128)
    }
}

impl vstd::std_specs::ops::SubSpecImpl for Fixed {
    open spec fn obeys_sub_spec() -> bool {
        true
    }

    open spec fn sub_req(self, rhs: Fixed) -> bool {
        true
    }

    open spec fn sub_spec(self, rhs: Fixed) -> Fixed {
        self.minus(rhs)
    }
}

impl core::ops::Neg for Fixed {
    type Output = Fixed;

    fn neg(self) -> (r: Fixed)
        ensures
            r == self.negated(),
    {
        saturate(-(self.raw as i128))
    }
}

impl vstd::std_specs::ops::NegSpecImpl for Fixed {
    open spec fn obeys_neg_spec() -> bool {
        true
    }

    open spec fn neg_req(self) -> bool {
        true
    }

    open spec fn neg_spec(self) -> Fixed {
        self.negated()
    }
}

/// Product of two numbers, rounded toward zero and clamped.
fn product(x: Fixed, y: Fixed) -> (r: Fixed)
    ensures
        r.raw == mul_raw(x.raw as int, y.raw as int),
{
    let a: i128 = x.raw as i128;
    let b: i128 = y.raw as i128;
    assert(-0x4000_0000_0000_0000_0000_0000_0000_0000 <= a * b
        <= 0x4000_0000_0000_0000_0000_0000_0000_0000) by (nonlinear_arith)
        requires
            -0x8000_0000_0000_0000 <= a <= 0x8000_0000_0000_0000,
            -0x8000_0000_0000_0000 <= b <= 0x8000_0000_0000_0000,
    ;
    saturate((a * b) / (SCALE as i128))
}

/// Quotient of two numbers, rounded toward zero and clamped.
fn quotient(x: Fixed, y: Fixed) -> (r: Fixed)
    ensures
        r.raw == div_raw(x.raw as int, y.raw as int),
{
    if y.raw == 0 {
        if x.raw > 0 {
            Fixed { raw: MAX_RAW }
        } else if x.raw < 0 {
            Fixed { raw: -MAX_RAW }
        } else {
            Fixed { raw: 0 }
        }
    } else {
        let n: i128 = (x.raw as i128) * 1_000_000_000;
        let d: i128 = y.raw as i128;
        if d > 0 {
            saturate(n / d)
        } else if n >= 0 {
            saturate(-(n / (-d)))
        } else {
            saturate((-n) / (-d))
        }
    }
}

impl core::ops::Mul for Fixed {
    type Output = Fixed;

    fn mul(self, rhs: Fixed) -> (r: Fixed)
        ensures
            r == self.times(rhs),
    {
        product(self, rhs)
    }
}

impl vstd::std_specs::ops::MulSpecImpl for Fixed {
    open spec fn obeys_mul_spec() -> bool {
        true
    }

    open spec fn mul_req(self, rhs: Fixed) -> bool {
        true
    }

    open spec fn mul_spec(self, rhs: Fixed) -> Fixed {
        self.times(rhs)
    }
}

impl core::ops::Div for Fixed {
    type Output = Fixed;

    fn div(self, rhs: Fixed) -> (r: Fixed)
        ensures
            r == self.over(rhs),
    {
        quotient(self, rhs)
    }
}

impl vstd::std_specs::ops::DivSpecImpl for Fixed {
    open spec fn obeys_div_spec() -> bool {
        true
    }

    open spec fn div_req(self, rhs: Fixed) -> bool {
        true
    }

    open spec fn div_spec(self, rhs: Fixed) -> Fixed {
        self.over(rhs)
    }
}

/// Any two integer square roots of one number are equal.
pub proof fn lemma_isqrt_unique(n: int, r1: int, r2: int)
    requires
        is_isqrt(n, r1),
        is_isqrt(n, r2),
    ensures
        r1 == r2,
{
    if r1 < r2 {
        assert((r1 + 1) * (r1 + 1) <= r2 * r2) by (nonlinear_arith)
            requires
                0 <= r1,
                r1 + 1 <= r2,
        ;
    } else if r2 < r1 {
        assert((r2 + 1) * (r2 + 1) <= r1 * r1) by (nonlinear_arith)
            requires
                0 <= r2,
                r2 + 1 <= r1,
        ;
    }
}

/// A number that satisfies the defining inequalities is the square root.
pub proof fn lemma_isqrt_is(n: int, r: int)
    requires
        is_isqrt(n, r),
    ensures
        isqrt(n) == r,
{
    lemma_isqrt_unique(n, r, isqrt(n));
}

/// Every non-negative integer has an integer square root.
pub proof fn lemma_isqrt_exists(n: int)
    requires
        n >= 0,
    ensures
        is_isqrt(n, isqrt(n)),
    decreases n,
{
    if n == 0 {
        assert(is_isqrt(0, 0));
    } else {
        lemma_isqrt_exists(n - 1);
        let r = isqrt(n - 1);
        if (r + 1) * (r + 1) <= n {
            assert((r + 2) * (r + 2) > (r + 1) * (r + 1)) by (nonlinear_arith)
                requires
                    r >= 0,
            ;
            assert(n <= (r + 1) * (r + 1));
            assert(is_isqrt(n, r + 1));
        } else {
            assert(is_isqrt(n, r));
        }
    }
}

/// Negating a factor in range negates the product.
pub proof fn lemma_times_negated(a: Fixed, b: Fixed)
    requires
        b.in_range(),
    ensures
        a.times(b.negated()) == a.times(b).negated(),
        a.times(b).in_range(),
{
    let x = a.raw as int;
    let y = b.raw as int;
    assert(x * (-y) == -(x * y)) by (nonlinear_arith);
}

/// The square root of a number is a number that is not negative: it needs
/// no clamping, and for a positive number its raw value is the integer
/// square root of the raw value times the scale.
pub proof fn lemma_sqrt_bounds(a: Fixed)
    ensures
        0 <= a.sqrt_spec().raw,
        a.sqrt_spec().raw == sqrt_raw(a.raw as int),
        a.raw > 0 ==> is_isqrt(a.raw * SCALE, a.sqrt_spec().raw as int),
{
    if a.raw > 0 {
        let n = a.raw * SCALE;
        lemma_isqrt_exists(n);
        let r = isqrt(n);
        if r > MAX_RAW {
            assert(r * r > n) by (nonlinear_arith)
                requires
                    r > MAX_RAW,
                    n <= MAX_RAW * SCALE,
            ;
        }
    }
}

/// The integer square root grows with its argument.
pub proof fn lemma_isqrt_monotone(n1: int, n2: int)
    requires
        0 <= n1 <= n2,
    ensures
        isqrt(n1) <= isqrt(n2),
{
    lemma_isqrt_exists(n1);
    lemma_isqrt_exists(n2);
    let r1 = isqrt(n1);
    let r2 = isqrt(n2);
    if r1 > r2 {
        assert(r1 * r1 >= (r2 + 1) * (r2 + 1)) by (nonlinear_arith)
            requires
                r1 >= r2 + 1,
                r2 >= 0,
        ;
    }
}

/// The square root grows with its argument.
pub proof fn lemma_sqrt_monotone(a: Fixed, b: Fixed)
    requires
        a.raw <= b.raw,
    ensures
        a.sqrt_spec().raw <= b.sqrt_spec().raw,
{
    lemma_sqrt_bounds(a);
    lemma_sqrt_bounds(b);
    if a.raw > 0 {
        assert(a.raw * SCALE <= b.raw * SCALE);
        lemma_isqrt_monotone(a.raw * SCALE, b.raw * SCALE);
    }
}

/// A square is never negative.
pub proof fn lemma_square_nonneg(a: Fixed)
    ensures
        a.times(a).raw >= 0,
{
    let x = a.raw as int;
    assert(x * x >= 0) by (nonlinear_arith);
    lemma_tdiv_sign(x * x, SCALE as int);
}

/// The rounded quotient by a positive divisor has the sign of the dividend
/// or is zero.
pub proof fn lemma_tdiv_sign(n: int, d: int)
    requires
        d > 0,
    ensures
        n >= 0 ==> tdiv(n, d) >= 0,
        n <= 0 ==> tdiv(n, d) <= 0,
{
    if n >= 0 {
        vstd::arithmetic::div_mod::lemma_div_pos_is_pos(n, d);
    } else {
        vstd::arithmetic::div_mod::lemma_div_pos_is_pos(-n, d);
    }
}

/// The rounded quotient by a positive divisor grows with the dividend.
pub proof fn lemma_tdiv_monotone(n1: int, n2: int, d: int)
    requires
        d > 0,
        n1 <= n2,
    ensures
        tdiv(n1, d) <= tdiv(n2, d),
{
    lemma_tdiv_sign(n1, d);
    lemma_tdiv_sign(n2, d);
    if n1 >= 0 {
        vstd::arithmetic::div_mod::lemma_div_is_ordered(n1, n2, d);
    } else if n2 < 0 {
        vstd::arithmetic::div_mod::lemma_div_is_ordered(-n2, -n1, d);
    }
}

/// A quotient by a divisor that is not negative grows with the dividend.
pub proof fn lemma_over_monotone(a1: Fixed, a2: Fixed, b: Fixed)
    requires
        a1.raw <= a2.raw,
        b.raw >= 0,
    ensures
        a1.over(b).raw <= a2.over(b).raw,
{
    if b.raw > 0 {
        lemma_tdiv_monotone(a1.raw * SCALE, a2.raw * SCALE, b.raw as int);
    }
}

/// The rounded quotient and its remainder: the remainder is smaller in
/// magnitude than the divisor.
pub proof fn lemma_tdiv_remainder(n: int, d: int)
    requires
        d > 0,
    ensures
        abs(n - d * tdiv(n, d)) < d,
{
    if n >= 0 {
        vstd::arithmetic::div_mod::lemma_fundamental_div_mod(n, d);
        vstd::arithmetic::div_mod::lemma_mod_bound(n, d);
    } else {
        vstd::arithmetic::div_mod::lemma_fundamental_div_mod(-n, d);
        vstd::arithmetic::div_mod::lemma_mod_bound(-n, d);
        assert(d * (-((-n) / d)) == -(d * ((-n) / d))) by (nonlinear_arith);
    }
}

/// A product that is not clamped is the exact product rounded toward zero:
/// it is off by less than one raw unit, never away from zero.
pub proof fn lemma_times_rounding(a: Fixed, b: Fixed)
    requires
        abs(tdiv(a.raw * b.raw, SCALE as int)) <= MAX_RAW,
    ensures
        abs(a.raw * b.raw - SCALE * a.times(b).raw) < SCALE,
        abs(SCALE * a.times(b).raw) <= abs(a.raw * b.raw),
{
    let n = a.raw * b.raw;
    lemma_tdiv_remainder(n, SCALE as int);
    lemma_tdiv_sign(n, SCALE as int);
}

/// A quotient that is not clamped is the exact quotient rounded toward
/// zero: times the divisor it is off the dividend by less than the divisor.
pub proof fn lemma_over_rounding(a: Fixed, b: Fixed)
    requires
        b.raw != 0,
        abs(tdiv(a.raw * SCALE, b.raw as int)) <= MAX_RAW,
    ensures
        abs(a.raw * SCALE - b.raw * a.over(b).raw) < abs(b.raw as int),
{
    let n = a.raw * SCALE;
    let d = b.raw as int;
    if d > 0 {
        lemma_tdiv_remainder(n, d);
    } else {
        lemma_tdiv_remainder(-n, -d);
        let q = tdiv(-n, -d);
        assert(tdiv(n, d) == q);
        assert(d * q == -((-d) * q)) by (nonlinear_arith);
    }
}

} // verus!
