use raytracer::fixed::Fixed;
use raytracer::text::push_fixed;
use raytracer::text::push_fraction;
use raytracer::vec::Vec3;

fn fx(x: f64) -> Fixed {
    Fixed::from_raw((x * 1e9).round() as i64)
}

fn numeral(x: Fixed) -> String {
    let mut out = Vec::new();
    push_fixed(&mut out, x);
    String::from_utf8(out).unwrap()
}

#[test]
fn numerals_have_nine_places() {
    assert_eq!(numeral(fx(0.0)), "0.000000000");
    assert_eq!(numeral(fx(1.0)), "1.000000000");
    assert_eq!(numeral(fx(-1.5)), "-1.500000000");
    assert_eq!(numeral(fx(0.001)), "0.001000000");
    assert_eq!(numeral(fx(-0.000000001)), "-0.000000001");
    assert_eq!(numeral(fx(1234.56789)), "1234.567890000");
    assert_eq!(numeral(Fixed::from_raw(1_777_777_777)), "1.777777777");
}

#[test]
fn numerals_of_the_extremes() {
    assert_eq!(numeral(Fixed::infinity()), "9223372036.854775807");
    assert_eq!(numeral(-Fixed::infinity()), "-9223372036.854775807");
    assert_eq!(numeral(Fixed::from_raw(i64::MIN)), "-9223372036.854775808");
}

#[test]
fn numerals_read_back_as_their_value() {
    for raw in [0i64, 1, -1, 999_999_999, 1_000_000_000, -123_456_789_012, 42_000_000_007] {
        let text = numeral(Fixed::from_raw(raw));
        let (whole, fraction) = text.split_once('.').unwrap();
        assert_eq!(fraction.len(), 9);
        let negative = whole.starts_with('-');
        let w: i64 = whole.trim_start_matches('-').parse().unwrap();
        let f: i64 = fraction.parse().unwrap();
        let value = w * 1_000_000_000 + f;
        assert_eq!(if negative { -value } else { value }, raw);
    }
}

#[test]
fn fraction_digits_are_padded_with_zeros() {
    let mut out = Vec::new();
    push_fraction(&mut out, 42, 5);
    assert_eq!(out, b"00042");
    let mut out = Vec::new();
    push_fraction(&mut out, 123456, 3);
    assert_eq!(out, b"456");
    let mut out = b"x".to_vec();
    push_fraction(&mut out, 7, 0);
    assert_eq!(out, b"x");
}

#[test]
fn vector_text() {
    let a = Vec3::new(fx(1.0), fx(-0.5), fx(0.0));
    assert_eq!(
        String::from_utf8(a.to_text()).unwrap(),
        "(1.000000000, -0.500000000, 0.000000000)"
    );
}
