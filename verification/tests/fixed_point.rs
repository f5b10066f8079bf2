use raytracer::fixed::isqrt_u128;
use raytracer::fixed::Fixed;
use raytracer::fixed::MAX_RAW;
use raytracer::fixed::SCALE;

fn fx(x: f64) -> Fixed {
    Fixed::from_raw((x * 1e9).round() as i64)
}

#[test]
fn constants_have_their_raw_values() {
    assert_eq!(Fixed::zero().raw, 0);
    assert_eq!(Fixed::one().raw, 1_000_000_000);
    assert_eq!(Fixed::infinity().raw, i64::MAX);
    assert_eq!(SCALE, 1_000_000_000);
    assert_eq!(MAX_RAW, i64::MAX);
}

#[test]
fn from_integers_scales() {
    assert_eq!(Fixed::from_i32(-2).raw, -2_000_000_000);
    assert_eq!(Fixed::from_u32(400).raw, 400_000_000_000);
    assert_eq!(Fixed::from_u32(u32::MAX).raw, 4_294_967_295_000_000_000);
}

#[test]
fn sum_and_difference_are_exact_in_range() {
    assert_eq!(fx(1.5) + fx(2.25), fx(3.75));
    assert_eq!(fx(1.5) - fx(2.25), fx(-0.75));
    assert_eq!(-fx(1.5), fx(-1.5));
}

#[test]
fn sum_saturates_at_both_ends() {
    let inf = Fixed::infinity();
    assert_eq!(inf + Fixed::one(), inf);
    assert_eq!((-inf) - Fixed::one(), -inf);
    assert_eq!((-inf).raw, -i64::MAX);
    assert_eq!(inf - inf, Fixed::zero());
}

#[test]
fn negation_of_the_lowest_raw_value_saturates() {
    assert_eq!((-Fixed::from_raw(i64::MIN)).raw, i64::MAX);
    assert_eq!(Fixed::from_raw(i64::MIN).abs().raw, i64::MAX);
}

#[test]
fn product_rounds_toward_zero() {
    // 0.000000003 * 0.5 = 0.0000000015, which rounds to 0.000000001
    assert_eq!((Fixed::from_raw(3) * fx(0.5)).raw, 1);
    assert_eq!((Fixed::from_raw(-3) * fx(0.5)).raw, -1);
    assert_eq!((Fixed::from_raw(3) * fx(-0.5)).raw, -1);
    assert_eq!((Fixed::from_raw(-3) * fx(-0.5)).raw, 1);
    assert_eq!(fx(1.5) * fx(-2.0), fx(-3.0));
}

#[test]
fn product_with_one_is_the_number() {
    for raw in [0i64, 1, -1, 999_999_999, -123_456_789_012, i64::MAX, -i64::MAX] {
        assert_eq!((Fixed::from_raw(raw) * Fixed::one()).raw, raw);
    }
}

#[test]
fn product_saturates() {
    let big = Fixed::from_raw(4_000_000_000_000_000_000);
    assert_eq!((big * big).raw, i64::MAX);
    assert_eq!((big * (-big)).raw, -i64::MAX);
}

#[test]
fn quotient_rounds_toward_zero() {
    // 1 / 3 = 0.333333333...
    assert_eq!((Fixed::one() / fx(3.0)).raw, 333_333_333);
    assert_eq!((fx(-1.0) / fx(3.0)).raw, -333_333_333);
    assert_eq!((Fixed::one() / fx(-3.0)).raw, -333_333_333);
    assert_eq!((fx(-1.0) / fx(-3.0)).raw, 333_333_333);
    assert_eq!((fx(2.0) / fx(3.0)).raw, 666_666_666);
    assert_eq!(fx(16.0) / fx(9.0), Fixed::from_raw(1_777_777_777));
}

#[test]
fn quotient_by_zero_saturates() {
    assert_eq!((Fixed::one() / Fixed::zero()).raw, i64::MAX);
    assert_eq!((fx(-1.0) / Fixed::zero()).raw, -i64::MAX);
    assert_eq!((Fixed::zero() / Fixed::zero()).raw, 0);
}

#[test]
fn quotient_saturates() {
    let big = Fixed::from_raw(4_000_000_000_000_000_000);
    assert_eq!((big / Fixed::from_raw(1)).raw, i64::MAX);
    assert_eq!((big / Fixed::from_raw(-1)).raw, -i64::MAX);
}

#[test]
fn square_root_rounds_down() {
    assert_eq!(fx(4.0).sqrt(), fx(2.0));
    assert_eq!(Fixed::one().sqrt(), Fixed::one());
    // sqrt(2) = 1.41421356237...
    assert_eq!(fx(2.0).sqrt().raw, 1_414_213_562);
    assert_eq!(fx(0.25).sqrt(), fx(0.5));
    assert_eq!(Fixed::from_raw(1).sqrt().raw, 31_622);
}

#[test]
fn square_root_of_zero_and_below_is_zero() {
    assert_eq!(Fixed::zero().sqrt(), Fixed::zero());
    assert_eq!(fx(-4.0).sqrt(), Fixed::zero());
}

#[test]
fn square_root_of_the_largest_number() {
    let r = Fixed::infinity().sqrt().raw as i128;
    let n = (i64::MAX as i128) * 1_000_000_000;
    assert!(r * r <= n);
    assert!((r + 1) * (r + 1) > n);
}

#[test]
fn integer_square_root_by_bisection() {
    assert_eq!(isqrt_u128(0), 0);
    assert_eq!(isqrt_u128(1), 1);
    assert_eq!(isqrt_u128(3), 1);
    assert_eq!(isqrt_u128(4), 2);
    assert_eq!(isqrt_u128(99), 9);
    assert_eq!(isqrt_u128(100), 10);
    assert_eq!(isqrt_u128(u128::MAX), u64::MAX);
    assert_eq!(isqrt_u128(1u128 << 126), 1u64 << 63);
}

#[test]
fn powers_multiply_step_by_step() {
    assert_eq!(fx(2.0).powi(0), Fixed::one());
    assert_eq!(fx(2.0).powi(5), fx(32.0));
    assert_eq!(fx(0.5).powi(5), fx(0.03125));
    assert_eq!(fx(-1.0).powi(3), fx(-1.0));
}

#[test]
fn lesser_and_greater() {
    assert_eq!(fx(1.5).min(Fixed::one()), Fixed::one());
    assert_eq!(fx(0.5).min(Fixed::one()), fx(0.5));
    assert_eq!(fx(-3.0).max(Fixed::zero()), Fixed::zero());
    assert_eq!(fx(3.0).max(Fixed::zero()), fx(3.0));
    assert_eq!(fx(-3.0).abs(), fx(3.0));
    assert_eq!(fx(3.0).abs(), fx(3.0));
}

#[test]
fn truncation_to_unsigned() {
    assert_eq!(fx(255.744).to_u32(), 255);
    assert_eq!(fx(0.999).to_u32(), 0);
    assert_eq!(fx(-5.0).to_u32(), 0);
    assert_eq!(fx(225.0000001).to_u32(), 225);
    assert_eq!(Fixed::infinity().to_u32(), u32::MAX);
    assert_eq!(Fixed::from_u32(u32::MAX).to_u32(), u32::MAX);
}

#[test]
fn numbers_are_ordered_by_value() {
    assert!(fx(-1.0) < fx(0.0));
    assert!(fx(0.5) < fx(0.500000001));
    assert!(Fixed::infinity() > fx(1e9));
    assert!(-Fixed::infinity() < fx(-1e9));
    assert!(fx(2.0) >= fx(2.0));
    let mut xs = vec![fx(3.0), fx(-1.0), fx(0.25)];
    xs.sort();
    assert_eq!(xs, vec![fx(-1.0), fx(0.25), fx(3.0)]);
}
