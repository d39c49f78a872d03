//! The square root of a scalar, rounded to the nearest representable value.
use vstd::prelude::*;
use vstd::arithmetic::power2::{pow2, lemma_pow2_pos, lemma_pow2_adds, lemma_pow2_unfold, lemma2_to64};
use crate::grid::{
    grid,
    nearest_root,
    round_root,
    lemma_grid_pack,
    lemma_grid_step,
    lemma_grid_increasing,
    lemma_round_root_is,
    INFINITY_PATTERN,
};
use crate::arith::{split, pow2_u64, lemma_pow2_monotone};
use crate::rounding::lemma_mul_parts;
use crate::scalar::{Scalar, NAN_BITS};

verus! {

/// The integer square root of a number between `2^46` and `2^48`.
pub fn integer_root(w: u64) -> (r: u64)
    requires
        0x4000_0000_0000 <= w < 0x1_0000_0000_0000,
    ensures
        0x80_0000 <= r < 0x100_0000,
        r * r <= w < (r + 1) * (r + 1),
{
    let mut lo: u64 = 0x80_0000;
    let mut hi: u64 = 0x100_0000;
    while hi - lo > 1
        invariant
            0x80_0000 <= lo < hi <= 0x100_0000,
            lo * lo <= w < hi * hi,
        decreases hi - lo,
    {
        let mid: u64 = lo + (hi - lo) / 2;
        proof {
            assert(mid * mid < 0x100_0000 * 0x100_0000) by (nonlinear_arith)
                requires
                    0 <= mid < 0x100_0000,
            ;
        }
        if mid * mid <= w {
            lo = mid;
        } else {
            hi = mid;
        }
    }
    lo
}

/// The magnitude `m0 * 2^e`, scaled by `2^149`, is the radicand
/// `m0 * 2^sh * 2^b` at the even exponent `2 * j`.
pub proof fn lemma_radicand(m0: nat, sh: nat, e: nat, b: nat, j: nat)
    requires
        e + 149 == sh + b + 2 * j,
    ensures
        (m0 * pow2(e)) * pow2(149) == ((m0 * pow2(sh)) * pow2(b)) * (pow2(j) * pow2(j)),
{
    let pe = pow2(e) as int;
    let pf = pow2(149) as int;
    let ps = pow2(sh) as int;
    let pb = pow2(b) as int;
    let pj = pow2(j) as int;
    lemma_pow2_adds(e, 149);
    lemma_pow2_adds(sh, b);
    lemma_pow2_adds(j, j);
    lemma_pow2_adds(sh + b, j + j);
    assert(pe * pf == (ps * pb) * (pj * pj));
    assert((m0 * pe) * pf == m0 * (pe * pf)) by (nonlinear_arith);
    assert(((m0 * ps) * pb) * (pj * pj) == m0 * ((ps * pb) * (pj * pj))) by (nonlinear_arith);
}

/// An integer root with its remainder decides the rounding: the root goes
/// up exactly when the remainder exceeds it, and no tie can occur.
pub proof fn lemma_root_rounds(r: nat, w: nat, j: nat, n: nat)
    requires
        0x80_0000 <= r < 0x100_0000,
        r * r <= w < (r + 1) * (r + 1),
        n == w * (pow2(j) * pow2(j)),
        j <= 253,
    ensures
        nearest_root(
            n,
            if w - r * r > r {
                j * 0x80_0000 + r + 1
            } else {
                j * 0x80_0000 + r
            },
        ),
{
    let u = pow2(j) as int;
    let uu = u * u;
    lemma_pow2_pos(j);
    assert(uu > 0) by (nonlinear_arith)
        requires
            uu == u * u,
            u > 0,
    ;
    let k0 = j * 0x80_0000 + r;
    lemma_grid_pack(j, r);
    lemma_grid_pack(j, r + 1);
    let g0 = grid(k0) as int;
    let g1 = grid(k0 + 1) as int;
    assert(g0 == r * u);
    assert(g1 == (r + 1) * u);
    let rr = (r * r) as int;
    assert((g0 + g1) * (g0 + g1) == (4 * rr + 4 * r + 1) * uu) by (nonlinear_arith)
        requires
            g0 == r * u,
            g1 == (r + 1) * u,
            rr == r * r,
            uu == u * u,
    ;
    assert((2 * g0) * (2 * g0) == (4 * rr) * uu) by (nonlinear_arith)
        requires
            g0 == r * u,
            rr == r * r,
            uu == u * u,
    ;
    assert((2 * g1) * (2 * g1) == (4 * rr + 8 * r + 4) * uu) by (nonlinear_arith)
        requires
            g1 == (r + 1) * u,
            rr == r * r,
            uu == u * u,
    ;
    assert((r + 1) * (r + 1) == rr + 2 * r + 1) by (nonlinear_arith)
        requires
            rr == r * r,
    ;
    assert(4 * n == (4 * w) * uu) by (nonlinear_arith)
        requires
            n == w * uu,
    ;
    if w - rr > r {
        let k = k0 + 1;
        assert((4 * rr + 4 * r + 1) * uu < (4 * w) * uu) by (nonlinear_arith)
            requires
                4 * rr + 4 * r + 1 < 4 * w,
                uu > 0,
        ;
        lemma_grid_step(k);
        let g2 = grid(k + 1) as int;
        assert((4 * w) * uu < (4 * rr + 8 * r + 4) * uu) by (nonlinear_arith)
            requires
                4 * w < 4 * rr + 8 * r + 4,
                uu > 0,
        ;
        assert((2 * g1) * (2 * g1) < (g1 + g2) * (g1 + g2)) by (nonlinear_arith)
            requires
                0 <= g1 < g2,
        ;
    } else {
        assert((4 * w) * uu < (4 * rr + 4 * r + 1) * uu) by (nonlinear_arith)
            requires
                4 * w < 4 * rr + 4 * r + 1,
                uu > 0,
        ;
        lemma_grid_increasing((k0 - 1) as nat, k0);
        let gm = grid((k0 - 1) as nat) as int;
        assert((gm + g0) * (gm + g0) < (2 * g0) * (2 * g0)) by (nonlinear_arith)
            requires
                0 <= gm < g0,
        ;
        assert((4 * rr) * uu <= (4 * w) * uu) by (nonlinear_arith)
            requires
                4 * rr <= 4 * w,
                uu > 0,
        ;
    }
}

/// The nearest pattern to the square root of a finite magnitude that is not
/// zero.
pub fn sqrt_magnitude(pa: u32) -> (k: u32)
    requires
        0 < pa < INFINITY_PATTERN,
    ensures
        nearest_root(grid(pa as nat) * pow2(149), k as nat),
        k < INFINITY_PATTERN,
{
    let (m0, e) = split(pa);
    let mut m: u64 = m0 as u64;
    let mut sh: u32 = 0;
    proof {
        lemma2_to64();
        assert(m0 * pow2(0) == m0) by (nonlinear_arith)
            requires
                pow2(0) == 1,
        ;
    }
    while m < 0x80_0000
        invariant
            m == m0 * pow2(sh as nat),
            1 <= m0,
            1 <= m < 0x100_0000,
            sh <= 23,
        decreases 0x100_0000 - m,
    {
        proof {
            lemma2_to64();
            if sh >= 23 {
                lemma_pow2_monotone(23, sh as nat);
                assert(m0 * pow2(sh as nat) >= pow2(sh as nat)) by (nonlinear_arith)
                    requires
                        m0 >= 1,
                ;
            }
            lemma_pow2_unfold((sh + 1) as nat);
            lemma_mul_parts(m0 as int, 0, pow2(sh as nat) as int);
        }
        m = 2 * m;
        sh = sh + 1;
    }
    let c: u32 = e + 149 - sh;
    let b: u32 = if c % 2 == 1 {
        23
    } else {
        24
    };
    let j: u32 = (c - b) / 2;
    let pb: u64 = pow2_u64(b);
    proof {
        lemma2_to64();
        assert(pb == 0x80_0000 || pb == 0x100_0000);
        assert(m * pb >= 0x80_0000 * 0x80_0000 && m * pb < 0x100_0000 * 0x100_0000)
            by (nonlinear_arith)
            requires
                0x80_0000 <= m < 0x100_0000,
                0x80_0000 <= pb <= 0x100_0000,
        ;
    }
    let w: u64 = m * pb;
    let r: u64 = integer_root(w);
    proof {
        lemma_radicand(m0 as nat, sh as nat, e as nat, b as nat, j as nat);
        lemma_root_rounds(r as nat, w as nat, j as nat, grid(pa as nat) * pow2(149));
    }
    let k0: u32 = j * 0x80_0000 + (r as u32);
    if w - r * r > r {
        k0 + 1
    } else {
        k0
    }
}

impl Scalar {
    /// The square root, rounded to nearest with ties to even. A zero keeps
    /// its sign; anything else below zero gives NaN.
    #[verifier::opaque]
    pub open spec fn sqrt_spec(self) -> Scalar {
        if self.is_nan_spec() {
            Scalar::nan()
        } else if self.is_zero() {
            self
        } else if self.sign() {
            Scalar::nan()
        } else if self.is_infinite_spec() {
            self
        } else {
            Scalar::of(false, round_root(self.magnitude() * pow2(149)))
        }
    }

    /// The square root.
    pub fn sqrt(self) -> (r: Scalar)
        ensures
            r == self.sqrt_spec(),
    {
        reveal(Scalar::sqrt_spec);
        if self.is_nan() {
            return Scalar::from_bits(NAN_BITS);
        }
        let p = self.magnitude_bits();
        if p == 0 {
            return self;
        }
        if self.is_sign_negative() {
            return Scalar::from_bits(NAN_BITS);
        }
        if p == INFINITY_PATTERN {
            return self;
        }
        let k = sqrt_magnitude(p);
        proof {
            lemma_round_root_is(grid(p as nat) * pow2(149), k as nat);
        }
        Scalar::compose(false, k)
    }
}

} // verus!
