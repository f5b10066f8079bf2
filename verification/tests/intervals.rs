use raytracer::fixed::Fixed;
use raytracer::interval::Interval;

fn fx(x: f64) -> Fixed {
    Fixed::from_raw((x * 1e9).round() as i64)
}

#[test]
fn default_interval_is_empty() {
    let d = Interval::default();
    assert_eq!(d, Interval::empty());
    assert_eq!(d.min, Fixed::infinity());
    assert_eq!(d.max, -Fixed::infinity());
}

#[test]
fn empty_contains_nothing() {
    let e = Interval::empty();
    for x in [fx(0.0), fx(-1e9), fx(1e9), Fixed::infinity(), -Fixed::infinity()] {
        assert!(!e.contains(x));
        assert!(!e.surrounds(x));
    }
}

#[test]
fn universe_contains_everything_in_range() {
    let u = Interval::universe();
    for x in [fx(0.0), fx(-1e9), fx(1e9), Fixed::infinity(), -Fixed::infinity()] {
        assert!(u.contains(x));
    }
    assert!(u.surrounds(fx(0.0)));
    assert!(!u.surrounds(Fixed::infinity()));
    assert!(!u.surrounds(-Fixed::infinity()));
}

#[test]
fn contains_counts_the_ends_and_surrounds_does_not() {
    let iv = Interval::new(fx(1.0), fx(2.0));
    assert!(iv.contains(fx(1.0)));
    assert!(iv.contains(fx(2.0)));
    assert!(iv.contains(fx(1.5)));
    assert!(!iv.contains(fx(0.999999999)));
    assert!(!iv.contains(fx(2.000000001)));
    assert!(!iv.surrounds(fx(1.0)));
    assert!(!iv.surrounds(fx(2.0)));
    assert!(iv.surrounds(fx(1.000000001)));
    assert!(iv.surrounds(fx(1.999999999)));
}

#[test]
fn size_is_the_difference_of_the_ends() {
    assert_eq!(Interval::new(fx(1.0), fx(3.5)).size(), fx(2.5));
    assert_eq!(Interval::new(fx(3.5), fx(1.0)).size(), fx(-2.5));
    assert_eq!(Interval::universe().size(), Fixed::infinity());
    assert_eq!(Interval::empty().size(), -Fixed::infinity());
}

#[test]
fn clamp_moves_to_the_nearer_end() {
    let iv = Interval::new(fx(0.0), fx(0.999));
    assert_eq!(iv.clamp(fx(-0.5)), fx(0.0));
    assert_eq!(iv.clamp(fx(1.5)), fx(0.999));
    assert_eq!(iv.clamp(fx(0.25)), fx(0.25));
    assert_eq!(iv.clamp(fx(0.0)), fx(0.0));
    assert_eq!(iv.clamp(fx(0.999)), fx(0.999));
}
