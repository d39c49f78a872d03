//! A small path tracer for scenes of spheres, with its arithmetic carried out
//! on binary32 bit patterns so that every step is open to proof.
//!
//! The renderer follows rays from a camera through the pixels of an image
//! into a scene, lets them bounce off what they hit, and writes the colours
//! they bring back as the text of a plain PPM file.
//!
//! Its numbers are binary32, the single precision of IEEE 754, held as bit
//! patterns and computed with integers: `scalar` defines what a pattern
//! stands for, `grid` what it means to round to the nearest pattern, and
//! `arith`, `sqrt` and `convert` compute sums, products, quotients, roots
//! and conversions that are proved to be rounded correctly. The results
//! agree bit for bit with those of binary32 hardware, but for a NaN, which
//! is always the same one here.
//!
//! On top of the scalars stand `vec3`, `interval`, `ray`, the surfaces of
//! `hitable` and `sphere`, and the `camera`. Chance enters through `rng`
//! alone. `symmetry`, `accuracy` and `unit_length` hold what is proved of
//! the arithmetic beyond its results: what a change of sign does, how large
//! a rounding error can be, and that a normalised vector has length one up
//! to rounding.

/// The representable magnitudes and rounding to the nearest of them.
pub mod grid;
/// The scalar type.
pub mod scalar;
/// From an exact result to its nearest pattern.
pub mod rounding;
/// Sums, differences, products and quotients.
pub mod arith;
/// Square roots.
pub mod sqrt;
/// Conversions between scalars and integers.
pub mod convert;
/// Ranges of scalars.
pub mod interval;
/// The source of random bits.
pub mod rng;
/// Decimal text.
pub mod text;
/// Vectors of three scalars.
pub mod vec3;
/// Rays.
pub mod ray;
/// Hit records, surfaces and scenes.
pub mod hitable;
/// Spheres.
pub mod sphere;
/// The camera and the renderer.
pub mod camera;
/// Laws of negation.
pub mod symmetry;
/// The arithmetic operators.
pub mod ops;
/// The comparison operators.
pub mod compare;
/// Bounds on rounding errors.
pub mod accuracy;
/// The length of a normalised vector.
pub mod unit_length;

use vstd::prelude::*;
use crate::rng::random_bits;
use crate::scalar::{Scalar, ONE};

verus! {

/// The bit pattern of the scalar nearest to pi.
pub const PI: u32 = 0x4049_0fdb;

/// The bit pattern of 180, the degrees of half a turn.
pub const HALF_TURN: u32 = 0x4334_0000;

/// `u` is one of the `2^24` evenly spaced scalars `t / 2^24` of the unit
/// interval, zero included and one excluded.
pub open spec fn is_unit_sample(u: Scalar) -> bool {
    &&& !u.sign()
    &&& u.pattern() < ONE
    &&& exists|t: nat| t < 0x100_0000 && u.value() == #[trigger] Scalar::unit_fraction_spec(t)
}

/// The scalar between `min` and `max` that the unit sample `u` picks.
pub open spec fn spread_spec(min: Scalar, max: Scalar, u: Scalar) -> Scalar {
    min.add_spec(max.sub_spec(min).mul_spec(u))
}

/// An angle in degrees, in radians.
pub open spec fn degrees_to_radians_spec(degrees: Scalar) -> Scalar {
    degrees.mul_spec(Scalar::lit(PI)).div_spec(Scalar::lit(HALF_TURN))
}

/// An angle in degrees, in radians.
pub fn degrees_to_radians(degrees: Scalar) -> (r: Scalar)
    ensures
        r == degrees_to_radians_spec(degrees),
{
    degrees * Scalar::from_bits(PI) / Scalar::from_bits(HALF_TURN)
}

/// The unit sample that 32 drawn bits stand for: their upper 24 bits, read
/// as a multiple of `2^-24`.
pub fn sample_from_bits(bits: u32) -> (r: Scalar)
    ensures
        r.value() == Scalar::unit_fraction_spec((bits / 256) as nat),
        is_unit_sample(r),
{
    Scalar::unit_fraction(bits / 256)
}

/// A scalar drawn evenly from the unit interval, zero included and one
/// excluded.
pub fn random() -> (r: Scalar)
    ensures
        is_unit_sample(r),
{
    sample_from_bits(random_bits())
}

/// The scalar between `min` and `max` that the unit sample `u` picks:
/// `min + (max - min) * u`.
pub fn spread(min: Scalar, max: Scalar, u: Scalar) -> (r: Scalar)
    ensures
        r == spread_spec(min, max, u),
{
    min + (max - min) * u
}

/// A scalar drawn from between `min` and `max`.
pub fn random_with_min_max(min: Scalar, max: Scalar) -> (r: Scalar)
    ensures
        exists|u: Scalar| is_unit_sample(u) && r == #[trigger] spread_spec(min, max, u),
{
    let u = random();
    spread(min, max, u)
}

} // verus!
