//! Conversions between scalars and machine integers.
use vstd::prelude::*;
use vstd::arithmetic::power2::{pow2, lemma_pow2_pos, lemma_pow2_adds, lemma_pow2_unfold, lemma2_to64};
use vstd::arithmetic::div_mod::lemma_fundamental_div_mod_converse;
use crate::grid::{round, lemma_grid_pack, lemma_round_is};
use crate::arith::{split, pow2_u64, shift_right_sticky, lemma_pow2_monotone};
use crate::rounding::{round_pack, lemma_mul_parts, lemma_mul_assoc};
use crate::scalar::Scalar;

verus! {

/// A quotient is known from the two multiples of the divisor around the
/// dividend.
pub proof fn lemma_quotient_between(x: nat, p: nat, q: nat)
    requires
        p > 0,
        q * p <= x < (q + 1) * p,
    ensures
        x / p == q,
{
    lemma_mul_parts(q as int, 0, p as int);
    lemma_fundamental_div_mod_converse(x as int, p as int, q as int, x - q * p);
}

/// The significand `m` at exponent `e`, cut down by `2^(cut - e)`, gives
/// the whole multiples of `2^cut` in the magnitude.
pub proof fn lemma_whole_part(m: nat, e: nat, cut: nat, q: nat)
    requires
        e <= cut,
        q * pow2((cut - e) as nat) <= m < (q + 1) * pow2((cut - e) as nat),
    ensures
        q * pow2(cut) <= m * pow2(e) < (q + 1) * pow2(cut),
{
    let s = pow2((cut - e) as nat) as int;
    let u = pow2(e) as int;
    lemma_pow2_adds((cut - e) as nat, e);
    lemma_pow2_pos(e);
    lemma_mul_assoc(q as int, s, u);
    lemma_mul_assoc((q + 1) as int, s, u);
    let lo = q * s;
    let hi = (q + 1) * s;
    assert(lo * u <= m * u) by (nonlinear_arith)
        requires
            lo <= m,
            u > 0,
    ;
    assert(m * u < hi * u) by (nonlinear_arith)
        requires
            m < hi,
            u > 0,
    ;
}

impl Scalar {
    /// The scalar nearest to the integer `n`.
    pub open spec fn from_int_spec(n: nat) -> Scalar {
        Scalar::of(false, round(n * pow2(149), 1))
    }

    /// The whole part of the magnitude.
    pub open spec fn integer_part(self) -> nat {
        self.magnitude() / pow2(149)
    }

    /// The magnitude rounded to the nearest integer, halves going up.
    pub open spec fn nearest_integer(self) -> nat {
        (2 * self.magnitude() + pow2(149)) / pow2(150)
    }

    /// The value cut off towards zero and held within `0 ..= max`; a NaN
    /// gives 0.
    pub open spec fn truncate_spec(self, max: nat) -> nat {
        if self.is_nan_spec() || self.sign() {
            0
        } else if self.integer_part() > max {
            max
        } else {
            self.integer_part()
        }
    }

    /// The value rounded to the nearest integer, halves away from zero, and
    /// held within `0 ..= max`; a NaN gives 0.
    pub open spec fn round_spec(self, max: nat) -> nat {
        if self.is_nan_spec() || self.sign() {
            0
        } else if self.nearest_integer() > max {
            max
        } else {
            self.nearest_integer()
        }
    }

    /// The fraction `t / 2^24`, which every `t` below `2^24` has exactly.
    pub open spec fn unit_fraction_spec(t: nat) -> int {
        (t * pow2(125)) as int
    }

    /// The scalar nearest to `n`.
    pub fn from_u64(n: u64) -> (r: Scalar)
        ensures
            r == Scalar::from_int_spec(n as nat),
    {
        let ghost exact = n as nat * pow2(149);
        proof {
            lemma_pow2_unfold(150);
            let scale = (pow2(150) * 1) as int;
            assert(scale == 2 * pow2(149));
            lemma_mul_parts(n as int, 0, pow2(149) as int);
            lemma_mul_parts(n as int, 0, scale);
            lemma_pow2_pos(149);
        }
        let k = round_pack(n, 150, false, Ghost(exact), Ghost(1));
        proof {
            lemma_round_is(exact, 1, k as nat);
        }
        Scalar::compose(false, k)
    }

    /// The scalar nearest to `n`.
    pub fn from_usize(n: usize) -> (r: Scalar)
        ensures
            r == Scalar::from_int_spec(n as nat),
    {
        Scalar::from_u64(n as u64)
    }

    /// The value cut off towards zero, held within the range of `u64`.
    pub fn to_u64(self) -> (r: u64)
        ensures
            r == self.truncate_spec(u64::MAX as nat),
    {
        if self.is_nan() || self.is_sign_negative() {
            return 0;
        }
        let (m, e) = split(self.magnitude_bits());
        proof {
            lemma_pow2_pos(149);
            lemma2_to64();
        }
        if e >= 149 {
            let sl: u32 = e - 149;
            proof {
                lemma_pow2_adds(sl as nat, 149);
                let s = pow2(sl as nat) as int;
                let f = pow2(149) as int;
                lemma_mul_assoc(m as int, s, f);
                let v = m * s;
                lemma_mul_parts(v, 0, f);
                assert(v >= 0) by (nonlinear_arith)
                    requires
                        v == m * s,
                        m >= 0,
                        s >= 0,
                ;
                lemma_quotient_between((m * pow2(e as nat)) as nat, f as nat, v as nat);
            }
            if sl >= 41 {
                proof {
                    vstd::arithmetic::power2::lemma2_to64_rest();
                    lemma_pow2_monotone(41, sl as nat);
                    assert(m * pow2(sl as nat) >= 0x80_0000 * 0x200_0000_0000)
                        by (nonlinear_arith)
                        requires
                            m >= 0x80_0000,
                            pow2(sl as nat) >= 0x200_0000_0000,
                    ;
                }
                u64::MAX
            } else {
                let w = pow2_u64(sl);
                proof {
                    vstd::arithmetic::power2::lemma2_to64_rest();
                    lemma_pow2_monotone(sl as nat, 40);
                    assert(m * w <= 0xff_ffff * 0x100_0000_0000) by (nonlinear_arith)
                        requires
                            m <= 0xff_ffff,
                            w <= 0x100_0000_0000,
                    ;
                }
                (m as u64) * w
            }
        } else {
            let (q, _lost) = shift_right_sticky(m as u64, 149 - e);
            proof {
                lemma_whole_part(m as nat, e as nat, 149, q as nat);
                lemma_quotient_between((m * pow2(e as nat)) as nat, pow2(149), q as nat);
            }
            q
        }
    }

    /// The value cut off towards zero, held within the range of `u8`.
    pub fn to_u8(self) -> (r: u8)
        ensures
            r == self.truncate_spec(255),
    {
        let v = self.to_u64();
        if v > 255 {
            255
        } else {
            v as u8
        }
    }

    /// The value cut off towards zero, held within the range of `usize`.
    pub fn to_usize(self) -> (r: usize)
        ensures
            r == self.truncate_spec(usize::MAX as nat),
    {
        let v = self.to_u64();
        if v > usize::MAX as u64 {
            usize::MAX
        } else {
            v as usize
        }
    }

    /// The value rounded to the nearest integer, halves away from zero, held
    /// within the range of `usize`.
    pub fn round_to_usize(self) -> (r: usize)
        ensures
            r == self.round_spec(usize::MAX as nat),
    {
        if self.is_nan() || self.is_sign_negative() {
            return 0;
        }
        let (m, e) = split(self.magnitude_bits());
        proof {
            lemma_pow2_pos(149);
            lemma_pow2_unfold(150);
            lemma2_to64();
        }
        if e >= 149 {
            proof {
                let f = pow2(149) as int;
                let g = self.magnitude() as int;
                let sl = (e - 149) as nat;
                lemma_pow2_adds(sl, 149);
                let s = pow2(sl) as int;
                lemma_mul_assoc(m as int, s, f);
                let v = m * s;
                assert(v >= 0) by (nonlinear_arith)
                    requires
                        v == m * s,
                        m >= 0,
                        s >= 0,
                ;
                lemma_mul_parts(v, 0, f);
                lemma_mul_parts(v, 0, 2 * f);
                lemma_quotient_between(g as nat, f as nat, v as nat);
                lemma_quotient_between((2 * g + f) as nat, (2 * f) as nat, v as nat);
            }
            self.to_usize()
        } else {
            let (h, _lost) = shift_right_sticky(m as u64, 148 - e);
            proof {
                let f = pow2(149) as int;
                let g = self.magnitude() as int;
                lemma_whole_part(m as nat, e as nat, 148, h as nat);
                lemma_pow2_unfold(149);
                let half = pow2(148) as int;
                assert(f == 2 * half);
                lemma_mul_parts(h as int, 0, half);
                lemma_mul_parts(h as int, 0, f);
                let res = ((h + 1) / 2) as int;
                lemma_mul_parts(res, 0, f);
                lemma_mul_parts(res, 0, 2 * f);
                assert(h * f <= 2 * g < (h + 1) * f);
                lemma_quotient_between((2 * g + f) as nat, (2 * f) as nat, res as nat);
                let top = pow2(24);
                assert(h < 0x100_0000) by (nonlinear_arith)
                    requires
                        h * pow2((148 - e) as nat) <= m,
                        m < 0x100_0000,
                        pow2((148 - e) as nat) >= 1,
                        h >= 0,
                ;
            }
            ((h + 1) / 2) as usize
        }
    }

    /// The fraction `t / 2^24`.
    pub fn unit_fraction(t: u32) -> (r: Scalar)
        requires
            t < 0x100_0000,
        ensures
            r.value() == Scalar::unit_fraction_spec(t as nat),
            !r.sign(),
            r.pattern() < 0x3f80_0000,
    {
        if t == 0 {
            proof {
                lemma_mul_parts(0, 0, pow2(125) as int);
            }
            return Scalar::zero();
        }
        let mut m: u32 = t;
        let mut sh: u32 = 0;
        proof {
            lemma2_to64();
            assert(t * pow2(0) == t) by (nonlinear_arith)
                requires
                    pow2(0) == 1,
            ;
        }
        while m < 0x80_0000
            invariant
                m == t * pow2(sh as nat),
                1 <= t,
                1 <= m < 0x100_0000,
                sh <= 23,
            decreases 0x100_0000 - m,
        {
            proof {
                lemma2_to64();
                if sh >= 23 {
                    lemma_pow2_monotone(23, sh as nat);
                    assert(t * pow2(sh as nat) >= pow2(sh as nat)) by (nonlinear_arith)
                        requires
                            t >= 1,
                    ;
                }
                lemma_pow2_unfold((sh + 1) as nat);
                lemma_mul_parts(t as int, 0, pow2(sh as nat) as int);
            }
            m = 2 * m;
            sh = sh + 1;
        }
        let e: u32 = 125 - sh;
        proof {
            lemma_grid_pack(e as nat, m as nat);
            lemma_pow2_adds(sh as nat, e as nat);
            lemma_mul_assoc(t as int, pow2(sh as nat) as int, pow2(e as nat) as int);
        }
        Scalar::compose(false, e * 0x80_0000 + m)
    }
}

} // verus!
