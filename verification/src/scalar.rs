//! The scalar type: a binary32 number held as its bit pattern.
//!
//! Every `u32` is a valid scalar. The top bit is the sign, the remaining 31
//! bits are the magnitude pattern described in `grid`. Patterns above that of
//! infinity are NaNs; all of them are treated alike.
use vstd::prelude::*;
use crate::grid::{grid, lemma_grid_increasing, INFINITY_PATTERN};

verus! {

/// The bit that holds the sign.
pub const SIGN_BIT: u32 = 0x8000_0000;

/// The NaN that every operation of this library produces.
pub const NAN_BITS: u32 = 0x7fc0_0000;

/// The bit patterns of the numbers that the library names.
pub const ZERO: u32 = 0x0000_0000;

/// 1
pub const ONE: u32 = 0x3f80_0000;

/// -1
pub const MINUS_ONE: u32 = 0xbf80_0000;

/// 0.5
pub const HALF: u32 = 0x3f00_0000;

/// -0.5
pub const MINUS_HALF: u32 = 0xbf00_0000;

/// 2
pub const TWO: u32 = 0x4000_0000;

/// Positive infinity.
pub const INFINITY: u32 = 0x7f80_0000;

/// Negative infinity.
pub const MINUS_INFINITY: u32 = 0xff80_0000;

/// A binary32 number.
#[derive(Clone, Copy, Debug)]
pub struct Scalar {
    pub bits: u32,
}

impl Scalar {
    /// Whether the sign bit is set.
    pub open spec fn sign(self) -> bool {
        self.bits >= SIGN_BIT
    }

    /// The magnitude pattern: the 31 bits below the sign.
    pub open spec fn pattern(self) -> nat {
        (self.bits % SIGN_BIT) as nat
    }

    /// Whether the scalar is not a number.
    pub open spec fn is_nan_spec(self) -> bool {
        self.pattern() > INFINITY_PATTERN
    }

    /// Whether the scalar is one of the two infinities.
    pub open spec fn is_infinite_spec(self) -> bool {
        self.pattern() == INFINITY_PATTERN
    }

    /// Whether the scalar is a number and not an infinity.
    pub open spec fn is_finite_spec(self) -> bool {
        self.pattern() < INFINITY_PATTERN
    }

    /// Whether the scalar is one of the two zeros.
    pub open spec fn is_zero(self) -> bool {
        self.pattern() == 0
    }

    /// The magnitude in units of `2^-149`. For an infinity this is `2^277`,
    /// which lies above every finite magnitude; for a NaN it means nothing.
    pub open spec fn magnitude(self) -> nat {
        grid(self.pattern())
    }

    /// The signed value in units of `2^-149`, infinities included as in
    /// `magnitude`. Both zeros have value 0.
    pub open spec fn value(self) -> int {
        if self.sign() {
            -(self.magnitude() as int)
        } else {
            self.magnitude() as int
        }
    }

    /// The scalar with the given sign and magnitude pattern.
    pub open spec fn of(sign: bool, pattern: nat) -> Scalar {
        Scalar {
            bits: if sign {
                (pattern + SIGN_BIT) as u32
            } else {
                pattern as u32
            },
        }
    }

    /// The canonical NaN.
    pub open spec fn nan() -> Scalar {
        Scalar { bits: NAN_BITS }
    }

    /// The scalar with the given bit pattern.
    pub open spec fn lit(bits: u32) -> Scalar {
        Scalar { bits }
    }

    /// The sign-and-pattern number by which scalars that are not NaN are
    /// ordered.
    pub open spec fn key(self) -> int {
        if self.sign() {
            -(self.pattern() as int)
        } else {
            self.pattern() as int
        }
    }

    /// The same magnitude pattern with the other sign.
    pub open spec fn neg_spec(self) -> Scalar {
        Scalar::of(!self.sign(), self.pattern())
    }

    /// `self < rhs` as binary32 orders them: false when either is NaN.
    pub open spec fn lt_spec(self, rhs: Scalar) -> bool {
        !self.is_nan_spec() && !rhs.is_nan_spec() && self.value() < rhs.value()
    }

    /// `self <= rhs` as binary32 orders them: false when either is NaN.
    pub open spec fn le_spec(self, rhs: Scalar) -> bool {
        !self.is_nan_spec() && !rhs.is_nan_spec() && self.value() <= rhs.value()
    }

    /// `self > rhs` as binary32 orders them: false when either is NaN.
    pub open spec fn gt_spec(self, rhs: Scalar) -> bool {
        rhs.lt_spec(self)
    }

    /// `self >= rhs` as binary32 orders them: false when either is NaN.
    pub open spec fn ge_spec(self, rhs: Scalar) -> bool {
        rhs.le_spec(self)
    }

    /// Numeric equality: the two zeros are equal, a NaN equals nothing.
    pub open spec fn eq_spec(self, rhs: Scalar) -> bool {
        !self.is_nan_spec() && !rhs.is_nan_spec() && self.value() == rhs.value()
    }

    /// The scalar with the given bit pattern.
    pub fn from_bits(bits: u32) -> (r: Scalar)
        ensures
            r.bits == bits,
            r == Scalar::lit(bits),
    {
        Scalar { bits }
    }

    /// The bit pattern.
    pub fn to_bits(self) -> (r: u32)
        ensures
            r == self.bits,
    {
        self.bits
    }

    /// Positive zero.
    pub fn zero() -> (r: Scalar)
        ensures
            r == Scalar::lit(ZERO),
    {
        Scalar { bits: 0 }
    }

    /// The number one.
    pub fn one() -> (r: Scalar)
        ensures
            r == Scalar::lit(ONE),
    {
        Scalar { bits: 0x3f80_0000 }
    }

    /// Positive infinity.
    pub fn infinity() -> (r: Scalar)
        ensures
            r == Scalar::lit(INFINITY),
    {
        Scalar { bits: INFINITY_PATTERN }
    }

    /// Negative infinity.
    pub fn neg_infinity() -> (r: Scalar)
        ensures
            r == Scalar::lit(MINUS_INFINITY),
    {
        Scalar { bits: 0xff80_0000 }
    }

    /// The magnitude pattern.
    pub fn magnitude_bits(self) -> (r: u32)
        ensures
            r == self.pattern(),
            r < SIGN_BIT,
    {
        self.bits % SIGN_BIT
    }

    /// Whether the sign bit is set, as it is for negative zero too.
    pub fn is_sign_negative(self) -> (r: bool)
        ensures
            r == self.sign(),
    {
        self.bits >= SIGN_BIT
    }

    /// Whether the scalar is not a number.
    pub fn is_nan(self) -> (r: bool)
        ensures
            r == self.is_nan_spec(),
    {
        self.magnitude_bits() > INFINITY_PATTERN
    }

    /// Whether the scalar is one of the two infinities.
    pub fn is_infinite(self) -> (r: bool)
        ensures
            r == self.is_infinite_spec(),
    {
        self.magnitude_bits() == INFINITY_PATTERN
    }

    /// Whether the scalar is a number and not an infinity.
    pub fn is_finite(self) -> (r: bool)
        ensures
            r == self.is_finite_spec(),
    {
        self.magnitude_bits() < INFINITY_PATTERN
    }

    /// Builds a scalar from a sign and a magnitude pattern.
    pub fn compose(sign: bool, pattern: u32) -> (r: Scalar)
        requires
            pattern < SIGN_BIT,
        ensures
            r == Scalar::of(sign, pattern as nat),
            r.sign() == sign,
            r.pattern() == pattern,
    {
        if sign {
            Scalar { bits: pattern + SIGN_BIT }
        } else {
            Scalar { bits: pattern }
        }
    }

    /// The same magnitude with the opposite sign. A NaN stays a NaN.
    pub fn neg(self) -> (r: Scalar)
        ensures
            r == self.neg_spec(),
            r.pattern() == self.pattern(),
            r.sign() == !self.sign(),
    {
        Scalar::compose(!self.is_sign_negative(), self.magnitude_bits())
    }

    fn order_key(self) -> (r: i64)
        ensures
            r == self.key(),
    {
        if self.is_sign_negative() {
            -(self.magnitude_bits() as i64)
        } else {
            self.magnitude_bits() as i64
        }
    }

    /// Whether `self < rhs`; false where either is NaN.
    pub fn lt(self, rhs: Scalar) -> (r: bool)
        ensures
            r == self.lt_spec(rhs),
    {
        proof {
            lemma_key_orders(self, rhs);
        }
        !self.is_nan() && !rhs.is_nan() && self.order_key() < rhs.order_key()
    }

    /// Whether `self <= rhs`; false where either is NaN.
    pub fn le(self, rhs: Scalar) -> (r: bool)
        ensures
            r == self.le_spec(rhs),
    {
        proof {
            lemma_key_orders(self, rhs);
        }
        !self.is_nan() && !rhs.is_nan() && self.order_key() <= rhs.order_key()
    }

    /// Whether `self > rhs`; false where either is NaN.
    pub fn gt(self, rhs: Scalar) -> (r: bool)
        ensures
            r == self.gt_spec(rhs),
    {
        rhs.lt(self)
    }

    /// Whether `self >= rhs`; false where either is NaN.
    pub fn ge(self, rhs: Scalar) -> (r: bool)
        ensures
            r == self.ge_spec(rhs),
    {
        rhs.le(self)
    }

    /// Numeric equality, as `==` on binary32.
    pub fn eq(self, rhs: Scalar) -> (r: bool)
        ensures
            r == self.eq_spec(rhs),
    {
        proof {
            lemma_key_orders(self, rhs);
        }
        !self.is_nan() && !rhs.is_nan() && self.order_key() == rhs.order_key()
    }
}

/// A magnitude is zero only at pattern zero, and magnitudes compare as their
/// patterns do.
pub proof fn lemma_grid_compare(p: nat, q: nat)
    ensures
        p < q <==> grid(p) < grid(q),
        p == q <==> grid(p) == grid(q),
        grid(0) == 0,
{
    if p < q {
        lemma_grid_increasing(p, q);
    } else if q < p {
        lemma_grid_increasing(q, p);
    }
}

/// Values compare as keys do.
pub proof fn lemma_key_orders(a: Scalar, b: Scalar)
    ensures
        a.key() < b.key() <==> a.value() < b.value(),
        a.key() == b.key() <==> a.value() == b.value(),
        a.key() <= b.key() <==> a.value() <= b.value(),
{
    lemma_grid_compare(a.pattern(), b.pattern());
    lemma_grid_compare(a.pattern(), 0);
    lemma_grid_compare(b.pattern(), 0);
}

} // verus!
