//! Unit samples and what is made of them.
use raytracer::scalar::Scalar;
use raytracer::{degrees_to_radians, random, random_with_min_max, sample_from_bits, spread};

fn s(x: f32) -> Scalar {
    Scalar::from_bits(x.to_bits())
}

fn f(x: Scalar) -> f32 {
    f32::from_bits(x.to_bits())
}

#[test]
fn a_unit_sample_is_the_upper_bits_over_two_to_the_24() {
    assert_eq!(f(sample_from_bits(0)), 0.0);
    assert_eq!(f(sample_from_bits(0xff)), 0.0);
    assert_eq!(f(sample_from_bits(0x100)), 1.0 / 16_777_216.0);
    assert_eq!(f(sample_from_bits(0x8000_0000)), 0.5);
    assert_eq!(f(sample_from_bits(0xc000_0000)), 0.75);
    assert_eq!(f(sample_from_bits(u32::MAX)), 1.0 - 1.0 / 16_777_216.0);
    assert_eq!(sample_from_bits(u32::MAX).to_bits(), 0x3f7f_ffff);
}

#[test]
fn unit_samples_follow_the_multiply_method() {
    let mut state: u64 = 99;
    for _ in 0..100_000 {
        state = state.wrapping_mul(6364136223846793005).wrapping_add(1442695040888963407);
        let bits = (state >> 32) as u32;
        let want = (1.0f32 / 16_777_216.0) * ((bits >> 8) as f32);
        assert_eq!(sample_from_bits(bits).to_bits(), want.to_bits());
    }
}

#[test]
fn random_draws_lie_in_the_unit_interval() {
    let mut low = false;
    let mut high = false;
    for _ in 0..20_000 {
        let x = f(random());
        assert!(x >= 0.0 && x < 1.0);
        low = low || x < 0.1;
        high = high || x > 0.9;
    }
    assert!(low && high);
}

#[test]
fn random_draws_differ() {
    let first = random().to_bits();
    let mut differs = false;
    for _ in 0..100 {
        differs = differs || random().to_bits() != first;
    }
    assert!(differs);
}

#[test]
fn spread_maps_the_unit_interval_onto_a_range() {
    assert_eq!(f(spread(s(-1.0), s(1.0), s(0.0))), -1.0);
    assert_eq!(f(spread(s(-1.0), s(1.0), s(0.5))), 0.0);
    assert_eq!(f(spread(s(-1.0), s(1.0), s(0.75))), 0.5);
    assert_eq!(f(spread(s(10.0), s(20.0), s(0.25))), 12.5);
    assert_eq!(f(spread(s(3.0), s(3.0), s(0.9))), 3.0);
}

#[test]
fn random_with_min_max_stays_in_its_range() {
    for _ in 0..20_000 {
        let x = f(random_with_min_max(s(-1.0), s(1.0)));
        assert!(x >= -1.0 && x < 1.0);
        let y = f(random_with_min_max(s(5.0), s(5.5)));
        assert!(y >= 5.0 && y <= 5.5);
    }
}

#[test]
fn degrees_turn_into_radians() {
    assert_eq!(f(degrees_to_radians(s(180.0))), std::f32::consts::PI);
    assert_eq!(f(degrees_to_radians(s(0.0))), 0.0);
    assert_eq!(f(degrees_to_radians(s(90.0))), 90.0f32 * std::f32::consts::PI / 180.0);
    assert_eq!(f(degrees_to_radians(s(-45.0))), -45.0f32 * std::f32::consts::PI / 180.0);
    assert_eq!(f(degrees_to_radians(s(1.0))), 1.0f32 * std::f32::consts::PI / 180.0);
}
