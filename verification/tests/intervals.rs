//! Ranges: containment with and without the bounds, clamping, and the two
//! named ranges.
use raytracer::interval::Interval;
use raytracer::scalar::Scalar;

fn s(x: f32) -> Scalar {
    Scalar::from_bits(x.to_bits())
}

fn f(x: Scalar) -> f32 {
    f32::from_bits(x.to_bits())
}

#[test]
fn contains_includes_both_bounds() {
    let i = Interval::with_min_max(s(1.0), s(2.0));
    assert!(i.contains(s(1.0)));
    assert!(i.contains(s(1.5)));
    assert!(i.contains(s(2.0)));
    assert!(!i.contains(s(0.999_999_9)));
    assert!(!i.contains(s(2.000_000_2)));
    assert!(!i.contains(s(f32::NAN)));
}

#[test]
fn surrounds_excludes_both_bounds() {
    let i = Interval::with_min_max(s(1.0), s(2.0));
    assert!(!i.surrounds(s(1.0)));
    assert!(i.surrounds(s(1.000_000_1)));
    assert!(i.surrounds(s(1.5)));
    assert!(!i.surrounds(s(2.0)));
    assert!(!i.surrounds(s(-3.0)));
    assert!(!i.surrounds(s(f32::NAN)));
}

#[test]
fn a_ray_range_excludes_its_origin() {
    let forward = Interval::with_min_max(s(0.0), s(f32::INFINITY));
    assert!(!forward.surrounds(s(0.0)));
    assert!(!forward.surrounds(s(-0.0)));
    assert!(forward.surrounds(s(f32::MIN_POSITIVE)));
    assert!(forward.surrounds(s(f32::MAX)));
    assert!(!forward.surrounds(s(f32::INFINITY)));
}

#[test]
fn clamp_holds_a_scalar_within_the_bounds() {
    let i = Interval::with_min_max(s(0.0), s(0.999));
    assert_eq!(f(i.clamp(s(0.5))), 0.5);
    assert_eq!(f(i.clamp(s(1.5))), 0.999);
    assert_eq!(f(i.clamp(s(-0.25))), 0.0);
    assert_eq!(f(i.clamp(s(0.999))), 0.999);
    assert_eq!(f(i.clamp(s(0.0))), 0.0);
    assert_eq!(f(i.clamp(s(f32::INFINITY))), 0.999);
    assert_eq!(f(i.clamp(s(f32::NEG_INFINITY))), 0.0);
    assert!(f(i.clamp(s(f32::NAN))).is_nan());
}

#[test]
fn clamp_agrees_with_the_comparisons_of_hardware() {
    let bounds = [(-1.0f32, 1.0f32), (0.0, 0.999), (2.0, 1.0), (f32::NEG_INFINITY, 0.0)];
    let xs = [-2.0f32, -1.0, -0.0, 0.0, 0.5, 0.999, 1.0, 1.5, 2.0, 3.0, f32::INFINITY];
    for &(lo, hi) in bounds.iter() {
        let i = Interval::with_min_max(s(lo), s(hi));
        for &x in xs.iter() {
            let want = if x > hi {
                hi
            } else if x < lo {
                lo
            } else {
                x
            };
            assert_eq!(i.clamp(s(x)).to_bits(), want.to_bits(), "{} in {}..{}", x, lo, hi);
            assert_eq!(i.contains(s(x)), lo <= x && x <= hi);
            assert_eq!(i.surrounds(s(x)), lo < x && x < hi);
        }
    }
}

#[test]
fn the_empty_range_holds_nothing() {
    let e = Interval::empty();
    assert_eq!(f(e.min), f32::INFINITY);
    assert_eq!(f(e.max), f32::NEG_INFINITY);
    for &x in [0.0f32, 1.0, -1.0, f32::MAX, f32::INFINITY, f32::NEG_INFINITY].iter() {
        assert!(!e.contains(s(x)));
        assert!(!e.surrounds(s(x)));
    }
}

#[test]
fn the_universe_holds_every_number() {
    for u in [Interval::universe(), Interval::new()].iter() {
        assert_eq!(f(u.min), f32::NEG_INFINITY);
        assert_eq!(f(u.max), f32::INFINITY);
        for &x in [0.0f32, 1.0, -1.0, f32::MAX, f32::MIN, f32::INFINITY].iter() {
            assert!(u.contains(s(x)));
        }
        assert!(u.surrounds(s(f32::MAX)));
        assert!(!u.surrounds(s(f32::INFINITY)));
        assert!(!u.contains(s(f32::NAN)));
    }
}

#[test]
fn a_range_with_its_bounds_crossed_is_empty() {
    let i = Interval::with_min_max(s(2.0), s(1.0));
    assert!(!i.contains(s(1.5)));
    assert!(!i.surrounds(s(1.5)));
    assert!(!i.contains(s(1.0)));
    assert!(!i.contains(s(2.0)));
}
