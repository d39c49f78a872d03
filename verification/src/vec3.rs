//! Three scalars, read as a point, a direction or a colour.
use vstd::prelude::*;
use crate::{is_unit_sample, random, spread, spread_spec};
use crate::grid::lemma_nearest_exact;
use crate::interval::Interval;
use crate::scalar::{Scalar, lemma_grid_compare, MINUS_ONE, ONE, ZERO};
use crate::text::{triple, triple_text};
use vstd::arithmetic::power2::{pow2, lemma_pow2_pos};

verus! {

/// The bit pattern of 0.999, the brightest channel value that is kept.
pub const BRIGHTEST: u32 = 0x3f7f_be77;

/// The bit pattern of 256, the number of levels of a channel.
pub const LEVELS: u32 = 0x4380_0000;

/// The bit pattern of 255.999, by which a channel in the unit interval is
/// scaled to a byte for display.
pub const BYTE_SCALE: u32 = 0x437f_ffbe;

/// How many candidates `random_in_unit_sphere` draws before it gives up.
pub const MAX_DRAWS: u64 = u64::MAX;

/// Three scalars. Nothing tells a point from a direction or a colour but
/// the use that is made of it.
#[derive(Clone, Copy, Debug)]
pub struct Vec3 {
    pub e0: Scalar,
    pub e1: Scalar,
    pub e2: Scalar,
}

impl Vec3 {
    /// The vector of three positive zeros.
    pub open spec fn zero_spec() -> Vec3 {
        Vec3 { e0: Scalar::lit(ZERO), e1: Scalar::lit(ZERO), e2: Scalar::lit(ZERO) }
    }

    /// The sum, component by component.
    pub open spec fn add_spec(self, rhs: Vec3) -> Vec3 {
        Vec3 {
            e0: self.e0.add_spec(rhs.e0),
            e1: self.e1.add_spec(rhs.e1),
            e2: self.e2.add_spec(rhs.e2),
        }
    }

    /// The difference, component by component.
    pub open spec fn sub_spec(self, rhs: Vec3) -> Vec3 {
        Vec3 {
            e0: self.e0.sub_spec(rhs.e0),
            e1: self.e1.sub_spec(rhs.e1),
            e2: self.e2.sub_spec(rhs.e2),
        }
    }

    /// The vector with each component times `t`.
    pub open spec fn mul_spec(self, t: Scalar) -> Vec3 {
        Vec3 { e0: self.e0.mul_spec(t), e1: self.e1.mul_spec(t), e2: self.e2.mul_spec(t) }
    }

    /// The vector with each component over `t`.
    pub open spec fn div_spec(self, t: Scalar) -> Vec3 {
        Vec3 { e0: self.e0.div_spec(t), e1: self.e1.div_spec(t), e2: self.e2.div_spec(t) }
    }

    /// The opposite vector.
    pub open spec fn neg_spec(self) -> Vec3 {
        Vec3 { e0: self.e0.neg_spec(), e1: self.e1.neg_spec(), e2: self.e2.neg_spec() }
    }

    /// The sum of the squared components, added from the first on.
    pub open spec fn length_squared_spec(self) -> Scalar {
        self.e0.mul_spec(self.e0).add_spec(self.e1.mul_spec(self.e1)).add_spec(
            self.e2.mul_spec(self.e2),
        )
    }

    /// The square root of the squared length.
    pub open spec fn length_spec(self) -> Scalar {
        self.length_squared_spec().sqrt_spec()
    }

    /// The sum of the products of like components, added from the first on.
    pub open spec fn dot_spec(u: Vec3, v: Vec3) -> Scalar {
        u.e0.mul_spec(v.e0).add_spec(u.e1.mul_spec(v.e1)).add_spec(u.e2.mul_spec(v.e2))
    }

    /// The cross product.
    pub open spec fn cross_spec(u: Vec3, v: Vec3) -> Vec3 {
        Vec3 {
            e0: u.e1.mul_spec(v.e2).sub_spec(u.e2.mul_spec(v.e1)),
            e1: u.e2.mul_spec(v.e0).sub_spec(u.e0.mul_spec(v.e2)),
            e2: u.e0.mul_spec(v.e1).sub_spec(u.e1.mul_spec(v.e0)),
        }
    }

    /// The vector divided by its length. The zero vector gives three NaNs.
    pub open spec fn unit_vector_spec(v: Vec3) -> Vec3 {
        v.div_spec(v.length_spec())
    }

    /// Whether the vector lies strictly inside the unit sphere.
    pub open spec fn in_unit_sphere_spec(self) -> bool {
        self.length_squared_spec().lt_spec(Scalar::lit(ONE))
    }

    /// Whether the three components are unit samples.
    pub open spec fn is_unit_samples(self) -> bool {
        is_unit_sample(self.e0) && is_unit_sample(self.e1) && is_unit_sample(self.e2)
    }

    /// The point of the cube from `min` to `max` that three unit samples
    /// pick.
    pub open spec fn limits_spec(min: Scalar, max: Scalar, u: Vec3) -> Vec3 {
        Vec3 {
            e0: spread_spec(min, max, u.e0),
            e1: spread_spec(min, max, u.e1),
            e2: spread_spec(min, max, u.e2),
        }
    }

    /// `v` itself where it points into the half space of `normal`, else its
    /// opposite.
    pub open spec fn toward_spec(v: Vec3, normal: Vec3) -> Vec3 {
        if Vec3::dot_spec(v, normal).gt_spec(Scalar::lit(ZERO)) {
            v
        } else {
            v.neg_spec()
        }
    }

    /// The display value of a colour channel that was summed over samples
    /// and scaled to their mean: its square root, held within 0 and 0.999,
    /// times 256, cut off to a whole number.
    pub open spec fn quantize_spec(c: Scalar) -> nat {
        let shown = Interval { min: Scalar::lit(ZERO), max: Scalar::lit(BRIGHTEST) }.clamp_spec(
            Vec3::linear_to_gamma_spec(c),
        );
        Scalar::lit(LEVELS).mul_spec(shown).truncate_spec(255)
    }

    /// The display encoding of a linear intensity: its square root.
    pub open spec fn linear_to_gamma_spec(c: Scalar) -> Scalar {
        c.sqrt_spec()
    }

    /// The factor that turns a sum over samples into their mean.
    pub open spec fn sample_scale_spec(samples_per_pixel: nat) -> Scalar {
        Scalar::lit(ONE).div_spec(Scalar::from_int_spec(samples_per_pixel))
    }

    /// The three display values of a colour summed over samples.
    pub open spec fn quantized_spec(self, samples_per_pixel: nat) -> (nat, nat, nat) {
        let scale = Vec3::sample_scale_spec(samples_per_pixel);
        (
            Vec3::quantize_spec(self.e0.mul_spec(scale)),
            Vec3::quantize_spec(self.e1.mul_spec(scale)),
            Vec3::quantize_spec(self.e2.mul_spec(scale)),
        )
    }

    /// The line of an image file for a colour summed over samples.
    pub open spec fn write_color_spec(self, samples_per_pixel: nat) -> Seq<char> {
        let q = self.quantized_spec(samples_per_pixel);
        triple_text(q.0, q.1, q.2)
    }

    /// The text of a colour in the unit cube as three bytes.
    pub open spec fn to_string_spec(self) -> Seq<char> {
        triple_text(
            self.e0.mul_spec(Scalar::lit(BYTE_SCALE)).truncate_spec(255),
            self.e1.mul_spec(Scalar::lit(BYTE_SCALE)).truncate_spec(255),
            self.e2.mul_spec(Scalar::lit(BYTE_SCALE)).truncate_spec(255),
        )
    }

    /// The component with the given index.
    pub open spec fn component_spec(self, i: int) -> Scalar {
        if i == 0 {
            self.e0
        } else if i == 1 {
            self.e1
        } else {
            self.e2
        }
    }

    /// The origin.
    pub fn new() -> (r: Vec3)
        ensures
            r == Vec3::zero_spec(),
    {
        Vec3 { e0: Scalar::zero(), e1: Scalar::zero(), e2: Scalar::zero() }
    }

    /// The colour with the given red, green and blue.
    pub fn with_color(red: Scalar, green: Scalar, blue: Scalar) -> (r: Vec3)
        ensures
            r == (Vec3 { e0: red, e1: green, e2: blue }),
    {
        Vec3 { e0: red, e1: green, e2: blue }
    }

    /// The point with the given coordinates.
    pub fn with_position(x: Scalar, y: Scalar, z: Scalar) -> (r: Vec3)
        ensures
            r == (Vec3 { e0: x, e1: y, e2: z }),
    {
        Vec3 { e0: x, e1: y, e2: z }
    }

    /// The first component.
    pub fn x(&self) -> (r: Scalar)
        ensures
            r == self.e0,
    {
        self.e0
    }

    /// The second component.
    pub fn y(&self) -> (r: Scalar)
        ensures
            r == self.e1,
    {
        self.e1
    }

    /// The third component.
    pub fn z(&self) -> (r: Scalar)
        ensures
            r == self.e2,
    {
        self.e2
    }

    /// The component with the given index.
    pub fn component(&self, i: usize) -> (r: Scalar)
        requires
            i < 3,
        ensures
            r == self.component_spec(i as int),
    {
        if i == 0 {
            self.e0
        } else if i == 1 {
            self.e1
        } else {
            self.e2
        }
    }

    /// Replaces the component with the given index.
    pub fn set_component(&mut self, i: usize, value: Scalar)
        requires
            i < 3,
        ensures
            final(self).component_spec(i as int) == value,
            forall|j: int| 0 <= j < 3 && j != i ==> final(self).component_spec(j) == old(
                self,
            ).component_spec(j),
    {
        if i == 0 {
            self.e0 = value;
        } else if i == 1 {
            self.e1 = value;
        } else {
            self.e2 = value;
        }
    }

    /// The sum, component by component.
    pub fn add(self, rhs: Vec3) -> (r: Vec3)
        ensures
            r == self.add_spec(rhs),
    {
        Vec3 { e0: self.e0 + rhs.e0, e1: self.e1 + rhs.e1, e2: self.e2 + rhs.e2 }
    }

    /// The difference, component by component.
    pub fn sub(self, rhs: Vec3) -> (r: Vec3)
        ensures
            r == self.sub_spec(rhs),
    {
        Vec3 { e0: self.e0 - rhs.e0, e1: self.e1 - rhs.e1, e2: self.e2 - rhs.e2 }
    }

    /// The vector with each component times `t`.
    pub fn mul(self, t: Scalar) -> (r: Vec3)
        ensures
            r == self.mul_spec(t),
    {
        Vec3 { e0: self.e0 * t, e1: self.e1 * t, e2: self.e2 * t }
    }

    /// The vector with each component over `t`.
    pub fn div(self, t: Scalar) -> (r: Vec3)
        ensures
            r == self.div_spec(t),
    {
        Vec3 { e0: self.e0 / t, e1: self.e1 / t, e2: self.e2 / t }
    }

    /// The opposite vector.
    pub fn neg(self) -> (r: Vec3)
        ensures
            r == self.neg_spec(),
    {
        Vec3 { e0: self.e0.neg(), e1: self.e1.neg(), e2: self.e2.neg() }
    }

    /// The squared length.
    pub fn length_squared(&self) -> (r: Scalar)
        ensures
            r == self.length_squared_spec(),
    {
        self.e0 * self.e0 + self.e1 * self.e1 + self.e2 * self.e2
    }

    /// The length.
    pub fn length(&self) -> (r: Scalar)
        ensures
            r == self.length_spec(),
    {
        self.length_squared().sqrt()
    }

    /// The dot product.
    pub fn dot(u: &Vec3, v: &Vec3) -> (r: Scalar)
        ensures
            r == Vec3::dot_spec(*u, *v),
    {
        u.e0 * v.e0 + u.e1 * v.e1 + u.e2 * v.e2
    }

    /// The cross product.
    pub fn cross(u: &Vec3, v: &Vec3) -> (r: Vec3)
        ensures
            r == Vec3::cross_spec(*u, *v),
    {
        Vec3 {
            e0: u.e1 * v.e2 - u.e2 * v.e1,
            e1: u.e2 * v.e0 - u.e0 * v.e2,
            e2: u.e0 * v.e1 - u.e1 * v.e0,
        }
    }

    /// The vector divided by its length.
    pub fn unit_vector(v: &Vec3) -> (r: Vec3)
        ensures
            r == Vec3::unit_vector_spec(*v),
    {
        v / v.length()
    }

    /// Whether the vector lies strictly inside the unit sphere.
    pub fn in_unit_sphere(&self) -> (r: bool)
        ensures
            r == self.in_unit_sphere_spec(),
    {
        self.length_squared() < Scalar::one()
    }

    /// The point of the cube from `min` to `max` that the three unit samples
    /// in `u` pick.
    pub fn within_limits(min: Scalar, max: Scalar, u: &Vec3) -> (r: Vec3)
        ensures
            r == Vec3::limits_spec(min, max, *u),
    {
        Vec3 { e0: spread(min, max, u.e0), e1: spread(min, max, u.e1), e2: spread(min, max, u.e2) }
    }

    /// `v` itself where it points into the half space of `normal`, else its
    /// opposite.
    pub fn toward(v: Vec3, normal: &Vec3) -> (r: Vec3)
        ensures
            r == Vec3::toward_spec(v, *normal),
    {
        if Vec3::dot(&v, normal) > Scalar::zero() {
            v
        } else {
            v.neg()
        }
    }

    /// Three scalars drawn from the unit interval.
    pub fn random() -> (r: Vec3)
        ensures
            r.is_unit_samples(),
    {
        let e0 = random();
        let e1 = random();
        let e2 = random();
        Vec3 { e0, e1, e2 }
    }

    /// A point drawn from the cube from `min` to `max`.
    pub fn random_with_limits(min: Scalar, max: Scalar) -> (r: Vec3)
        ensures
            exists|u: Vec3| u.is_unit_samples() && r == #[trigger] Vec3::limits_spec(min, max, u),
    {
        let u = Vec3::random();
        Vec3::within_limits(min, max, &u)
    }

    /// A point drawn from inside the unit sphere: points of the cube around
    /// it are drawn until one falls inside. The loop counts down from
    /// `MAX_DRAWS`, a number of draws that no run lives to see; were it
    /// ever used up, the centre would be returned.
    pub fn random_in_unit_sphere() -> (r: Vec3)
        ensures
            r.in_unit_sphere_spec(),
            r == Vec3::zero_spec() || exists|u: Vec3|
                u.is_unit_samples() && r == #[trigger] Vec3::limits_spec(
                    Scalar::lit(MINUS_ONE),
                    Scalar::lit(ONE),
                    u,
                ),
    {
        let mut left: u64 = MAX_DRAWS;
        while left > 0
            decreases left,
        {
            let p = Vec3::random_with_limits(Scalar::from_bits(MINUS_ONE), Scalar::from_bits(ONE));
            if p.in_unit_sphere() {
                return p;
            }
            left = left - 1;
        }
        proof {
            lemma_centre_in_unit_sphere();
        }
        Vec3::new()
    }

    /// A direction drawn from the unit sphere: a point from inside it,
    /// divided by its length.
    pub fn random_unit_vector() -> (r: Vec3)
        ensures
            exists|p: Vec3| p.in_unit_sphere_spec() && r == #[trigger] Vec3::unit_vector_spec(p),
    {
        let p = Vec3::random_in_unit_sphere();
        Vec3::unit_vector(&p)
    }

    /// A direction drawn from the half of the unit sphere that `normal`
    /// points into.
    pub fn random_on_hemisphere(normal: &Vec3) -> (r: Vec3)
        ensures
            exists|p: Vec3|
                p.in_unit_sphere_spec() && r == Vec3::toward_spec(
                    #[trigger] Vec3::unit_vector_spec(p),
                    *normal,
                ),
    {
        let on_unit_sphere = Vec3::random_unit_vector();
        Vec3::toward(on_unit_sphere, normal)
    }

    /// The display encoding of a linear intensity: its square root.
    pub fn linear_to_gamma(linear_component: Scalar) -> (r: Scalar)
        ensures
            r == Vec3::linear_to_gamma_spec(linear_component),
    {
        linear_component.sqrt()
    }

    /// The display value of a channel that was scaled to the mean of its
    /// samples.
    pub fn quantize(c: Scalar) -> (r: u8)
        ensures
            r == Vec3::quantize_spec(c),
    {
        let intensity = Interval::with_min_max(Scalar::zero(), Scalar::from_bits(BRIGHTEST));
        (Scalar::from_bits(LEVELS) * intensity.clamp(Vec3::linear_to_gamma(c))).to_u8()
    }

    /// The three display values of a colour summed over
    /// `samples_per_pixel` samples.
    pub fn quantized(&self, samples_per_pixel: usize) -> (r: (u8, u8, u8))
        ensures
            (r.0 as nat, r.1 as nat, r.2 as nat) == self.quantized_spec(samples_per_pixel as nat),
    {
        let scale = Scalar::one() / Scalar::from_usize(samples_per_pixel);
        (
            Vec3::quantize(self.e0 * scale),
            Vec3::quantize(self.e1 * scale),
            Vec3::quantize(self.e2 * scale),
        )
    }

    /// The line of an image file for a colour summed over
    /// `samples_per_pixel` samples: three numbers from 0 to 255.
    pub fn write_color(&self, samples_per_pixel: usize) -> (r: String)
        ensures
            r@ == self.write_color_spec(samples_per_pixel as nat),
    {
        let q = self.quantized(samples_per_pixel);
        triple(q.0 as u64, q.1 as u64, q.2 as u64)
    }

    /// The text of a colour in the unit cube as three bytes, each channel
    /// times 255.999 and cut off.
    pub fn to_string(&self) -> (r: String)
        ensures
            r@ == self.to_string_spec(),
    {
        let scale = Scalar::from_bits(BYTE_SCALE);
        triple(
            (self.e0 * scale).to_u8() as u64,
            (self.e1 * scale).to_u8() as u64,
            (self.e2 * scale).to_u8() as u64,
        )
    }
}

/// The centre of the unit sphere lies inside it.
pub proof fn lemma_centre_in_unit_sphere()
    ensures
        Vec3::zero_spec().in_unit_sphere_spec(),
        Vec3::zero_spec().length_squared_spec() == Scalar::lit(ZERO),
{
    reveal(Scalar::add_spec);
    reveal(Scalar::mul_spec);
    let z = Scalar::lit(ZERO);
    lemma_pow2_pos(149);
    lemma_nearest_exact(0, pow2(149));
    assert(z.magnitude() * z.magnitude() == 0) by (nonlinear_arith)
        requires
            z.magnitude() == 0,
    ;
    assert(0 * pow2(149) == 0) by (nonlinear_arith);
    assert(z.mul_spec(z) == z);
    assert(z.add_spec(z) == z);
    lemma_grid_compare(0, ONE as nat);
}

} // verus!
