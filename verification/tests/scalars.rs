//! Scalars as bit patterns: how they are named, taken apart and put
//! together.
use raytracer::scalar::{
    Scalar, HALF, INFINITY, MINUS_HALF, MINUS_INFINITY, MINUS_ONE, NAN_BITS, ONE, TWO, ZERO,
};
use raytracer::{HALF_TURN, PI};

#[test]
fn named_patterns_are_the_numbers_they_name() {
    assert_eq!(f32::from_bits(ZERO), 0.0);
    assert_eq!(f32::from_bits(ONE), 1.0);
    assert_eq!(f32::from_bits(MINUS_ONE), -1.0);
    assert_eq!(f32::from_bits(HALF), 0.5);
    assert_eq!(f32::from_bits(MINUS_HALF), -0.5);
    assert_eq!(f32::from_bits(TWO), 2.0);
    assert_eq!(f32::from_bits(INFINITY), f32::INFINITY);
    assert_eq!(f32::from_bits(MINUS_INFINITY), f32::NEG_INFINITY);
    assert!(f32::from_bits(NAN_BITS).is_nan());
    assert_eq!(f32::from_bits(PI), std::f32::consts::PI);
    assert_eq!(f32::from_bits(HALF_TURN), 180.0);
    assert_eq!(f32::from_bits(raytracer::vec3::BRIGHTEST), 0.999);
    assert_eq!(f32::from_bits(raytracer::vec3::LEVELS), 256.0);
    assert_eq!(f32::from_bits(raytracer::vec3::BYTE_SCALE), 255.999);
    assert_eq!(f32::from_bits(raytracer::camera::SKY_GREEN), 0.7);
    assert_eq!(f32::from_bits(raytracer::camera::FIRST_PIXEL_LEFT), -0.09);
    assert_eq!(f32::from_bits(raytracer::camera::FIRST_PIXEL_UP), 0.09);
    assert_eq!(f32::from_bits(raytracer::camera::PIXEL_STEP_RIGHT), 0.02);
    assert_eq!(f32::from_bits(raytracer::camera::PIXEL_STEP_DOWN), -0.02);
    assert_eq!(f32::from_bits(raytracer::unit_length::QUARTER), 0.25);
    assert_eq!(f32::from_bits(raytracer::unit_length::FOUR), 4.0);
    assert_eq!(f32::from_bits(raytracer::unit_length::BOUND), 256.0);
}

#[test]
fn named_scalars_hold_their_patterns() {
    assert_eq!(Scalar::zero().to_bits(), 0);
    assert_eq!(Scalar::one().to_bits(), 1.0f32.to_bits());
    assert_eq!(Scalar::infinity().to_bits(), f32::INFINITY.to_bits());
    assert_eq!(Scalar::neg_infinity().to_bits(), f32::NEG_INFINITY.to_bits());
}

#[test]
fn bits_go_in_and_come_out_unchanged() {
    for &b in [0u32, 1, 0x7fff_ffff, 0x8000_0000, 0xffff_ffff, 0x3f80_0000, 0x7fc0_1234].iter() {
        assert_eq!(Scalar::from_bits(b).to_bits(), b);
        assert_eq!(Scalar::from_bits(b).bits, b);
    }
}

#[test]
fn a_scalar_is_its_sign_and_its_magnitude() {
    let x = Scalar::from_bits((-1.5f32).to_bits());
    assert!(x.is_sign_negative());
    assert_eq!(x.magnitude_bits(), 1.5f32.to_bits());
    assert_eq!(Scalar::compose(true, 1.5f32.to_bits()).to_bits(), (-1.5f32).to_bits());
    assert_eq!(Scalar::compose(false, 1.5f32.to_bits()).to_bits(), 1.5f32.to_bits());
    assert_eq!(Scalar::compose(true, 0).to_bits(), (-0.0f32).to_bits());
    let y = Scalar::from_bits(0.25f32.to_bits());
    assert!(!y.is_sign_negative());
    assert_eq!(y.magnitude_bits(), y.to_bits());
}

#[test]
fn negation_flips_the_sign_bit_only() {
    for &b in [0u32, 0x8000_0000, 0x3f80_0000, 0x7f80_0000, 0x7fc0_0000, 0xffc0_0001, 7].iter() {
        assert_eq!(Scalar::from_bits(b).neg().to_bits(), b ^ 0x8000_0000);
    }
}

#[test]
fn classes_of_scalars() {
    let nan = Scalar::from_bits(0x7fc0_0000);
    let loud = Scalar::from_bits(0xff80_0001);
    let inf = Scalar::infinity();
    let tiny = Scalar::from_bits(1);
    assert!(nan.is_nan() && loud.is_nan());
    assert!(!nan.is_finite() && !nan.is_infinite());
    assert!(inf.is_infinite() && !inf.is_finite() && !inf.is_nan());
    assert!(Scalar::neg_infinity().is_infinite());
    assert!(tiny.is_finite() && !tiny.is_nan() && !tiny.is_infinite());
    assert!(Scalar::zero().is_finite());
}

#[test]
fn every_operation_gives_the_same_nan() {
    let nan = Scalar::from_bits(0xffc0_1234);
    let one = Scalar::one();
    let zero = Scalar::zero();
    let inf = Scalar::infinity();
    assert_eq!(nan.add(one).to_bits(), NAN_BITS);
    assert_eq!(one.sub(nan).to_bits(), NAN_BITS);
    assert_eq!(nan.mul(nan).to_bits(), NAN_BITS);
    assert_eq!(one.div(nan).to_bits(), NAN_BITS);
    assert_eq!(nan.sqrt().to_bits(), NAN_BITS);
    assert_eq!(inf.sub(inf).to_bits(), NAN_BITS);
    assert_eq!(inf.add(Scalar::neg_infinity()).to_bits(), NAN_BITS);
    assert_eq!(zero.mul(inf).to_bits(), NAN_BITS);
    assert_eq!(zero.div(zero).to_bits(), NAN_BITS);
    assert_eq!(inf.div(inf).to_bits(), NAN_BITS);
    assert_eq!(Scalar::from_bits((-1.0f32).to_bits()).sqrt().to_bits(), NAN_BITS);
    assert_eq!(nan.to_u8(), 0);
    assert_eq!(nan.to_usize(), 0);
    assert_eq!(nan.round_to_usize(), 0);
}

#[test]
fn ties_go_to_the_even_pattern() {
    let s = |x: f32| Scalar::from_bits(x.to_bits());
    // 2^24 + 1 lies halfway between two scalars; so does 2^24 + 3.
    assert_eq!(s(16_777_216.0).add(s(1.0)).to_bits(), 16_777_216.0f32.to_bits());
    assert_eq!(s(16_777_218.0).add(s(1.0)).to_bits(), 16_777_220.0f32.to_bits());
    assert_eq!(Scalar::from_u64(16_777_217).to_bits(), 16_777_216.0f32.to_bits());
    assert_eq!(Scalar::from_u64(16_777_219).to_bits(), 16_777_220.0f32.to_bits());
    // Half of the smallest scalar is a tie between zero and that scalar.
    let least = Scalar::from_bits(1);
    assert_eq!(least.mul(s(0.5)).to_bits(), 0);
    assert_eq!(Scalar::from_bits(3).mul(s(0.5)).to_bits(), 2);
    assert_eq!(least.div(s(2.0)).to_bits(), 0);
}

#[test]
fn results_too_large_are_infinite_and_too_small_are_zero() {
    let s = |x: f32| Scalar::from_bits(x.to_bits());
    assert_eq!(s(f32::MAX).add(s(f32::MAX)).to_bits(), f32::INFINITY.to_bits());
    assert_eq!(s(f32::MAX).mul(s(2.0)).to_bits(), f32::INFINITY.to_bits());
    assert_eq!(s(-f32::MAX).mul(s(2.0)).to_bits(), f32::NEG_INFINITY.to_bits());
    assert_eq!(s(1.0).div(s(0.0)).to_bits(), f32::INFINITY.to_bits());
    assert_eq!(s(-1.0).div(s(0.0)).to_bits(), f32::NEG_INFINITY.to_bits());
    assert_eq!(s(1.0).div(s(-0.0)).to_bits(), f32::NEG_INFINITY.to_bits());
    assert_eq!(s(1.0e-30).mul(s(1.0e-30)).to_bits(), 0);
    assert_eq!(s(-1.0e-30).mul(s(1.0e-30)).to_bits(), 0x8000_0000);
    assert_eq!(s(1.0).div(s(f32::INFINITY)).to_bits(), 0);
}

#[test]
fn zeros_keep_their_signs_as_the_standard_says() {
    let s = |x: f32| Scalar::from_bits(x.to_bits());
    assert_eq!(s(0.0).add(s(-0.0)).to_bits(), 0);
    assert_eq!(s(-0.0).add(s(-0.0)).to_bits(), 0x8000_0000);
    assert_eq!(s(1.5).sub(s(1.5)).to_bits(), 0);
    assert_eq!(s(-1.5).add(s(1.5)).to_bits(), 0);
    assert_eq!(s(-0.0).sqrt().to_bits(), 0x8000_0000);
    assert_eq!(s(-0.0).mul(s(3.0)).to_bits(), 0x8000_0000);
    assert_eq!(s(-0.0).mul(s(-3.0)).to_bits(), 0);
}

#[test]
fn conversions_to_integers_cut_off_and_saturate() {
    let s = |x: f32| Scalar::from_bits(x.to_bits());
    assert_eq!(s(255.999).to_u8(), 255);
    assert_eq!(s(256.0).to_u8(), 255);
    assert_eq!(s(0.999).to_u8(), 0);
    assert_eq!(s(-3.0).to_u8(), 0);
    assert_eq!(s(127.5).to_u8(), 127);
    assert_eq!(s(f32::INFINITY).to_u8(), 255);
    assert_eq!(s(f32::INFINITY).to_u64(), u64::MAX);
    assert_eq!(s(1.0e10).to_u64(), 10_000_000_000);
    assert_eq!(s(2.5).round_to_usize(), 3);
    assert_eq!(s(3.5).round_to_usize(), 4);
    assert_eq!(s(0.499_999_97).round_to_usize(), 0);
    assert_eq!(s(0.5).round_to_usize(), 1);
    assert_eq!(s(-0.5).round_to_usize(), 0);
    assert_eq!(s(404.999_97).round_to_usize(), 405);
    assert_eq!(s(404.999_97).to_usize(), 404);
}
