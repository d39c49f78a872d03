//! Addition, subtraction, multiplication and division of scalars, each
//! rounded once to the nearest representable value.
use vstd::prelude::*;
use vstd::arithmetic::power2::{
    pow2,
    lemma_pow2_pos,
    lemma_pow2_adds,
    lemma_pow2_unfold,
    lemma_pow2_strictly_increases,
    lemma2_to64,
};
use crate::grid::{
    grid,
    nearest,
    round,
    exponent_of,
    significand_of,
    lemma_grid_split,
    lemma_nearest_exact,
    lemma_round_is,
    INFINITY_PATTERN,
};
use vstd::arithmetic::div_mod::{lemma_fundamental_div_mod, lemma_mod_bound};
use crate::rounding::{bracket, round_pack, lemma_mul_parts, lemma_mul_assoc};
use crate::scalar::{Scalar, NAN_BITS, lemma_grid_compare};

verus! {

/// The power `2^s` as a machine word.
pub fn pow2_u64(s: u32) -> (r: u64)
    requires
        s < 64,
    ensures
        r == pow2(s as nat),
        r >= 1,
{
    proof {
        vstd::bits::lemma_u64_pow2_no_overflow(s as nat);
        vstd::bits::lemma_u64_shl_is_mul(1, s as u64);
    }
    1u64 << (s as u64)
}

/// Powers of two do not decrease with the exponent.
pub proof fn lemma_pow2_monotone(a: nat, b: nat)
    requires
        a <= b,
    ensures
        pow2(a) <= pow2(b),
        pow2(a) > 0,
{
    lemma_pow2_pos(a);
    if a < b {
        lemma_pow2_strictly_increases(a, b);
    }
}

/// Splits a magnitude pattern into its significand and its exponent.
pub fn split(p: u32) -> (r: (u32, u32))
    requires
        p <= INFINITY_PATTERN,
    ensures
        r.0 == significand_of(p as nat),
        r.1 == exponent_of(p as nat),
        r.0 < 0x100_0000,
        r.1 <= 254,
        r.1 == 0 || r.0 >= 0x80_0000,
        grid(p as nat) == r.0 * pow2(r.1 as nat),
        p == r.1 * 0x80_0000 + r.0,
        p < INFINITY_PATTERN ==> r.1 <= 253,
        p == 0 <==> r.0 == 0,
{
    proof {
        lemma_grid_split(p as nat);
    }
    if p < 0x80_0000 {
        (p, 0)
    } else {
        (0x80_0000 + p % 0x80_0000, p / 0x80_0000 - 1)
    }
}

/// With exponents at most 26 apart, a sum or difference of two magnitudes is
/// an exact multiple of the smaller one's unit.
pub proof fn lemma_sum_near(ma: nat, ea: nat, mb: nat, eb: nat, subtract: bool)
    requires
        ea >= eb,
        subtract ==> ma * pow2(ea) >= mb * pow2(eb),
    ensures
        subtract ==> ma * pow2((ea - eb) as nat) >= mb,
        !subtract ==> bracket(
            ma * pow2((ea - eb) as nat) + mb,
            eb + 1,
            false,
            ma * pow2(ea) + mb * pow2(eb),
            1,
        ),
        subtract ==> bracket(
            (ma * pow2((ea - eb) as nat) - mb) as nat,
            eb + 1,
            false,
            (ma * pow2(ea) - mb * pow2(eb)) as nat,
            1,
        ),
{
    let dl = (ea - eb) as nat;
    let w = pow2(dl) as int;
    let u = pow2(eb) as int;
    lemma_pow2_adds(dl, eb);
    lemma_pow2_pos(eb);
    lemma_pow2_unfold(eb + 1);
    let big = ma * w;
    lemma_mul_assoc(ma as int, w, u);
    assert(ma * pow2(ea) == big * u);
    let scale = (pow2(eb + 1) * 1) as int;
    assert(scale == 2 * u);
    if subtract {
        assert(big >= mb) by (nonlinear_arith)
            requires
                big * u >= mb * u,
                u > 0,
        ;
        let sig = big - mb;
        assert(sig * u == big * u - mb * u) by (nonlinear_arith)
            requires
                sig == big - mb,
        ;
        lemma_mul_parts(sig, 0, u);
        lemma_mul_parts(sig, 0, scale);
        assert(sig * scale == 2 * (sig * u));
        assert((sig + 1) * scale == sig * scale + scale);
    } else {
        let sig = big + mb;
        lemma_mul_parts(big, mb as int, u);
        lemma_mul_parts(sig, 0, u);
        lemma_mul_parts(sig, 0, scale);
        assert(sig * scale == 2 * (sig * u));
        assert((sig + 1) * scale == sig * scale + scale);
    }
}

/// With exponents at least 27 apart, the smaller magnitude only tells on
/// which side of the larger one the result lies.
pub proof fn lemma_sum_far(ma: nat, ea: nat, mb: nat, eb: nat, subtract: bool)
    requires
        ea >= eb + 27,
        0x80_0000 <= ma,
        1 <= mb < 0x100_0000,
    ensures
        ma * pow2(ea) > mb * pow2(eb),
        !subtract ==> bracket(8 * ma, (ea - 2) as nat, true, ma * pow2(ea) + mb * pow2(eb), 1),
        subtract ==> bracket(
            (8 * ma - 1) as nat,
            (ea - 2) as nat,
            true,
            (ma * pow2(ea) - mb * pow2(eb)) as nat,
            1,
        ),
{
    let c = pow2((ea - 2) as nat) as int;
    let u = pow2(eb) as int;
    let ga = (ma * pow2(ea)) as int;
    let gb = (mb * pow2(eb)) as int;
    lemma2_to64();
    lemma_pow2_adds((ea - 2) as nat, 2);
    assert(pow2(ea) == c * 4);
    lemma_pow2_adds(eb, 25);
    lemma_pow2_monotone(eb + 25, (ea - 2) as nat);
    lemma_pow2_pos(eb);
    assert(pow2(eb + 25) == u * 0x200_0000);
    assert(ga == 4 * (ma * c)) by (nonlinear_arith)
        requires
            ga == ma * (c * 4),
    ;
    assert(0 < 2 * gb < c) by (nonlinear_arith)
        requires
            gb == mb * u,
            1 <= mb < 0x100_0000,
            u > 0,
            u * 0x200_0000 <= c,
    ;
    assert(ma * c >= c) by (nonlinear_arith)
        requires
            ma >= 1,
            c > 0,
    ;
    let scale = c * 1;
    assert(scale == c);
    lemma_mul_parts(ma as int, 0, c);
    assert((8 * ma) * scale == 8 * (ma * c)) by (nonlinear_arith)
        requires
            scale == c,
    ;
    assert((8 * ma + 1) * scale == 8 * (ma * c) + c) by (nonlinear_arith)
        requires
            scale == c,
    ;
    assert((8 * ma - 1) * scale == 8 * (ma * c) - c) by (nonlinear_arith)
        requires
            scale == c,
    ;
}

/// The nearest pattern to the sum of two finite magnitudes.
pub fn add_magnitudes(pa: u32, pb: u32) -> (k: u32)
    requires
        pa < INFINITY_PATTERN,
        pb < INFINITY_PATTERN,
    ensures
        nearest(grid(pa as nat) + grid(pb as nat), 1, k as nat),
        k <= INFINITY_PATTERN,
{
    let (hi, lo) = if pa >= pb {
        (pa, pb)
    } else {
        (pb, pa)
    };
    let (ma, ea) = split(hi);
    let (mb, eb) = split(lo);
    let ghost n = grid(pa as nat) + grid(pb as nat);
    if mb == 0 {
        proof {
            lemma_nearest_exact(hi as nat, 1);
            assert(grid(hi as nat) * 1 == grid(hi as nat)) by (nonlinear_arith);
        }
        return hi;
    }
    let dl = ea - eb;
    if dl <= 26 {
        let w = pow2_u64(dl);
        proof {
            lemma2_to64();
            lemma_pow2_monotone(dl as nat, 26);
            assert(ma * w <= 0x100_0000 * 0x400_0000) by (nonlinear_arith)
                requires
                    ma < 0x100_0000,
                    w <= 0x400_0000,
            ;
            lemma_sum_near(ma as nat, ea as nat, mb as nat, eb as nat, false);
        }
        let sig = (ma as u64) * w + (mb as u64);
        round_pack(sig, eb + 1, false, Ghost(n), Ghost(1))
    } else {
        proof {
            lemma_sum_far(ma as nat, ea as nat, mb as nat, eb as nat, false);
        }
        round_pack(8 * (ma as u64), ea - 2, true, Ghost(n), Ghost(1))
    }
}

/// The nearest pattern to the difference of two finite magnitudes, the
/// larger one first.
pub fn sub_magnitudes(pa: u32, pb: u32) -> (k: u32)
    requires
        pb < pa < INFINITY_PATTERN,
    ensures
        grid(pa as nat) > grid(pb as nat),
        nearest((grid(pa as nat) - grid(pb as nat)) as nat, 1, k as nat),
        k <= INFINITY_PATTERN,
{
    let (ma, ea) = split(pa);
    let (mb, eb) = split(pb);
    proof {
        lemma_grid_compare(pb as nat, pa as nat);
    }
    let ghost n = (grid(pa as nat) - grid(pb as nat)) as nat;
    if mb == 0 {
        proof {
            lemma_nearest_exact(pa as nat, 1);
            assert(grid(pa as nat) * 1 == grid(pa as nat)) by (nonlinear_arith);
        }
        return pa;
    }
    let dl = ea - eb;
    if dl <= 26 {
        let w = pow2_u64(dl);
        proof {
            lemma2_to64();
            lemma_pow2_monotone(dl as nat, 26);
            assert(ma * w <= 0x100_0000 * 0x400_0000) by (nonlinear_arith)
                requires
                    ma < 0x100_0000,
                    w <= 0x400_0000,
            ;
            lemma_sum_near(ma as nat, ea as nat, mb as nat, eb as nat, true);
        }
        let sig = (ma as u64) * w - (mb as u64);
        round_pack(sig, eb + 1, false, Ghost(n), Ghost(1))
    } else {
        proof {
            lemma_sum_far(ma as nat, ea as nat, mb as nat, eb as nat, true);
        }
        round_pack(8 * (ma as u64) - 1, ea - 2, true, Ghost(n), Ghost(1))
    }
}

/// Cuts the lowest `s` bits off `q` and tells whether any of them was set.
pub fn shift_right_sticky(q: u64, s: u32) -> (r: (u64, bool))
    ensures
        r.0 * pow2(s as nat) <= q < (r.0 + 1) * pow2(s as nat),
        r.1 <==> r.0 * pow2(s as nat) != q,
{
    if s >= 64 {
        proof {
            lemma2_to64();
            lemma_pow2_monotone(64, s as nat);
            lemma_mul_parts(0, 0, pow2(s as nat) as int);
        }
        (0, q != 0)
    } else {
        let w = pow2_u64(s);
        proof {
            lemma_fundamental_div_mod(q as int, w as int);
            lemma_mod_bound(q as int, w as int);
            let h = (q / w) as int;
            assert(w * h == h * w) by (nonlinear_arith);
            lemma_mul_parts(h, 0, w as int);
        }
        (q / w, q % w != 0)
    }
}

/// A quotient with its remainder, scaled up, is a cell around the exact
/// result: if `q * c <= prod < (q + 1) * c`, twice the result `n / d` is
/// `prod * w`, and the scale `2^e * d` is `c * w`, then twice the result lies
/// in `[q, q + 1) * 2^e`.
pub proof fn lemma_bracket_from_quotient(
    q: nat,
    inexact: bool,
    prod: nat,
    c: nat,
    w: nat,
    e: nat,
    n: nat,
    d: nat,
)
    requires
        c > 0,
        w > 0,
        d > 0,
        q * c <= prod < (q + 1) * c,
        inexact <==> q * c != prod,
        2 * n == prod * w,
        pow2(e) * d == c * w,
    ensures
        bracket(q, e, inexact, n, d),
{
    let scale = (pow2(e) * d) as int;
    lemma_mul_assoc(q as int, c as int, w as int);
    lemma_mul_assoc((q + 1) as int, c as int, w as int);
    let lo = q * c;
    let hi = (q + 1) * c;
    assert(lo * w <= prod * w) by (nonlinear_arith)
        requires
            lo <= prod,
            w > 0,
    ;
    assert(prod * w < hi * w) by (nonlinear_arith)
        requires
            prod < hi,
            w > 0,
    ;
    assert(lo * w == prod * w <==> lo == prod) by (nonlinear_arith)
        requires
            w > 0,
    ;
}

/// The exact product of two magnitudes, as a product of significands at the
/// sum of the exponents.
pub proof fn lemma_product(ma: nat, ea: nat, mb: nat, eb: nat)
    ensures
        2 * ((ma * pow2(ea)) * (mb * pow2(eb))) == (ma * mb) * pow2(ea + eb + 1),
{
    let a = pow2(ea) as int;
    let b = pow2(eb) as int;
    lemma_pow2_adds(ea, eb);
    lemma_pow2_unfold(ea + eb + 1);
    assert(2 * ((ma * a) * (mb * b)) == (ma * mb) * (2 * (a * b))) by (nonlinear_arith);
}

/// The nearest pattern to the product of two finite magnitudes.
pub fn mul_magnitudes(pa: u32, pb: u32) -> (k: u32)
    requires
        pa < INFINITY_PATTERN,
        pb < INFINITY_PATTERN,
    ensures
        nearest(grid(pa as nat) * grid(pb as nat), pow2(149), k as nat),
        k <= INFINITY_PATTERN,
{
    let (ma, ea) = split(pa);
    let (mb, eb) = split(pb);
    proof {
        assert(ma * mb <= 0x100_0000 * 0x100_0000) by (nonlinear_arith)
            requires
                ma < 0x100_0000,
                mb < 0x100_0000,
        ;
    }
    let prod: u64 = (ma as u64) * (mb as u64);
    let s: u32 = ea + eb + 1;
    let ghost n = grid(pa as nat) * grid(pb as nat);
    let ghost d = pow2(149);
    proof {
        lemma_product(ma as nat, ea as nat, mb as nat, eb as nat);
        lemma_pow2_pos(149);
        lemma_pow2_pos(s as nat);
        lemma2_to64();
    }
    if s >= 149 {
        proof {
            lemma_pow2_adds((s - 149) as nat, 149);
            lemma_mul_parts(prod as int, 0, 1);
            assert(prod * 1 == prod) by (nonlinear_arith);
            assert((prod + 1) * 1 == prod + 1) by (nonlinear_arith);
            assert(1 * pow2(s as nat) == pow2(s as nat)) by (nonlinear_arith);
            lemma_bracket_from_quotient(
                prod as nat,
                false,
                prod as nat,
                1,
                pow2(s as nat),
                (s - 149) as nat,
                n,
                d,
            );
        }
        round_pack(prod, s - 149, false, Ghost(n), Ghost(d))
    } else {
        let (q, lost) = shift_right_sticky(prod, 149 - s);
        proof {
            lemma_pow2_adds((149 - s) as nat, s as nat);
            lemma_pow2_pos((149 - s) as nat);
            assert(pow2(0) * d == d) by (nonlinear_arith)
                requires
                    pow2(0) == 1,
            ;
            lemma_bracket_from_quotient(
                q as nat,
                lost,
                prod as nat,
                pow2((149 - s) as nat),
                pow2(s as nat),
                0,
                n,
                d,
            );
        }
        round_pack(q, 0, lost, Ghost(n), Ghost(d))
    }
}

/// The exact quotient of two magnitudes in terms of the dividend's
/// significand shifted up by `sh + 40` bits.
pub proof fn lemma_quotient(ma: nat, sh: nat, ea: nat)
    requires
        sh <= ea + 110,
    ensures
        2 * ((ma * pow2(ea)) * pow2(149)) == ((ma * pow2(sh)) * 0x100_0000_0000) * pow2(
            (ea + 110 - sh) as nat,
        ),
{
    let a = pow2(ea) as int;
    let b = pow2(sh) as int;
    let c = pow2((ea + 110 - sh) as nat) as int;
    let f = pow2(149) as int;
    lemma2_to64();
    vstd::arithmetic::power2::lemma2_to64_rest();
    assert(pow2(40) == 0x100_0000_0000);
    lemma_pow2_adds(sh, 40);
    lemma_pow2_adds(sh + 40, (ea + 110 - sh) as nat);
    lemma_pow2_adds(ea, 150);
    lemma_pow2_unfold(150);
    assert(pow2(ea + 150) == a * (2 * f));
    assert(pow2(ea + 150) == (b * 0x100_0000_0000) * c);
    assert(2 * ((ma * a) * f) == ma * (a * (2 * f))) by (nonlinear_arith);
    assert(((ma * b) * 0x100_0000_0000) * c == ma * ((b * 0x100_0000_0000) * c))
        by (nonlinear_arith);
}

/// The nearest pattern to the quotient of two finite magnitudes, the
/// divisor not zero.
pub fn div_magnitudes(pa: u32, pb: u32) -> (k: u32)
    requires
        pa < INFINITY_PATTERN,
        0 < pb < INFINITY_PATTERN,
    ensures
        grid(pb as nat) > 0,
        nearest(grid(pa as nat) * pow2(149), grid(pb as nat), k as nat),
        k <= INFINITY_PATTERN,
{
    let ghost d = grid(pb as nat);
    let ghost n = grid(pa as nat) * pow2(149);
    proof {
        lemma_grid_compare(pb as nat, 0);
        lemma_grid_compare(pa as nat, 0);
    }
    if pa == 0 {
        proof {
            lemma_nearest_exact(0, d);
            lemma_mul_parts(0, 0, d as int);
            lemma_mul_parts(0, 0, pow2(149) as int);
        }
        return 0;
    }
    let (ma0, ea) = split(pa);
    let (mb, eb) = split(pb);
    let mut ma: u64 = ma0 as u64;
    let mut sh: u32 = 0;
    proof {
        lemma2_to64();
        assert(ma0 * pow2(0) == ma0) by (nonlinear_arith)
            requires
                pow2(0) == 1,
        ;
    }
    while ma < 0x80_0000
        invariant
            ma == ma0 * pow2(sh as nat),
            1 <= ma0,
            1 <= ma < 0x100_0000,
            sh <= 23,
            sh > 0 ==> ma0 < 0x80_0000,
        decreases 0x100_0000 - ma,
    {
        proof {
            lemma2_to64();
            if sh >= 23 {
                lemma_pow2_monotone(23, sh as nat);
                assert(ma0 * pow2(sh as nat) >= pow2(sh as nat)) by (nonlinear_arith)
                    requires
                        ma0 >= 1,
                ;
            }
            lemma_pow2_unfold((sh + 1) as nat);
            lemma_mul_parts(ma0 as int, 0, pow2(sh as nat) as int);
        }
        ma = 2 * ma;
        sh = sh + 1;
    }
    let prod: u64 = ma * 0x100_0000_0000;
    let q: u64 = prod / (mb as u64);
    let lost: bool = prod % (mb as u64) != 0;
    let hi: u32 = ea + 110;
    let lo: u32 = sh + eb;
    let ghost w = pow2((ea + 110 - sh) as nat);
    proof {
        lemma_quotient(ma0 as nat, sh as nat, ea as nat);
        lemma_fundamental_div_mod(prod as int, mb as int);
        lemma_mod_bound(prod as int, mb as int);
        assert(mb * q == q * mb) by (nonlinear_arith);
        lemma_mul_parts(q as int, 0, mb as int);
        lemma_pow2_pos((ea + 110 - sh) as nat);
        assert(q >= 0x100_0000) by (nonlinear_arith)
            requires
                q * mb + (prod % (mb as u64)) == prod,
                prod >= 0x80_0000 * 0x100_0000_0000,
                0 <= (prod % (mb as u64)) < mb,
                0 < mb < 0x100_0000,
        ;
    }
    if hi >= lo {
        proof {
            let e = (hi - lo) as nat;
            lemma_pow2_adds(e, eb as nat);
            lemma_mul_assoc(pow2(e) as int, mb as int, pow2(eb as nat) as int);
            assert(pow2(e) * d == mb * w) by (nonlinear_arith)
                requires
                    d == mb * pow2(eb as nat),
                    w == pow2(e) * pow2(eb as nat),
            ;
            lemma_bracket_from_quotient(q as nat, lost, prod as nat, mb as nat, w, e, n, d);
        }
        round_pack(q, hi - lo, lost, Ghost(n), Ghost(d))
    } else {
        let s: u32 = lo - hi;
        let (q2, lost2) = shift_right_sticky(q, s);
        proof {
            let c = pow2(s as nat);
            lemma_pow2_pos(s as nat);
            lemma_pow2_adds(s as nat, (eb - s) as nat);
            assert(pow2(0) * d == (c * mb) * w) by (nonlinear_arith)
                requires
                    pow2(0) == 1,
                    d == mb * pow2(eb as nat),
                    pow2(eb as nat) == c * w,
            ;
            assert(c * mb > 0) by (nonlinear_arith)
                requires
                    c > 0,
                    mb > 0,
            ;
            assert(q2 * (c * mb) <= prod < (q2 + 1) * (c * mb) && (q2 * (c * mb) == prod <==> (q2
                * c == q && q * mb == prod))) by (nonlinear_arith)
                requires
                    q2 * c <= q < (q2 + 1) * c,
                    q * mb <= prod < (q + 1) * mb,
                    mb > 0,
                    c > 0,
            ;
            lemma_bracket_from_quotient(
                q2 as nat,
                lost || lost2,
                prod as nat,
                (c * mb) as nat,
                w,
                0,
                n,
                d,
            );
        }
        round_pack(q2, 0, lost || lost2, Ghost(n), Ghost(d))
    }
}

impl Scalar {
    /// The sum, rounded to nearest with ties to even. Infinities of
    /// opposite sign give NaN; an exact zero is positive unless both
    /// operands are negative zeros.
    #[verifier::opaque]
    pub open spec fn add_spec(self, rhs: Scalar) -> Scalar {
        if self.is_nan_spec() || rhs.is_nan_spec() {
            Scalar::nan()
        } else if self.is_infinite_spec() || rhs.is_infinite_spec() {
            if self.is_infinite_spec() && rhs.is_infinite_spec() && self.sign() != rhs.sign() {
                Scalar::nan()
            } else if self.is_infinite_spec() {
                self
            } else {
                rhs
            }
        } else {
            let s = self.value() + rhs.value();
            if s == 0 {
                Scalar::of(self.sign() && rhs.sign(), 0)
            } else if s > 0 {
                Scalar::of(false, round(s as nat, 1))
            } else {
                Scalar::of(true, round((-s) as nat, 1))
            }
        }
    }

    /// The difference: the sum with the negated right operand.
    pub open spec fn sub_spec(self, rhs: Scalar) -> Scalar {
        self.add_spec(rhs.neg_spec())
    }

    /// The sum `self + rhs`.
    pub fn add(self, rhs: Scalar) -> (r: Scalar)
        ensures
            r == self.add_spec(rhs),
    {
        reveal(Scalar::add_spec);
        if self.is_nan() || rhs.is_nan() {
            return Scalar::from_bits(NAN_BITS);
        }
        let sa = self.is_sign_negative();
        let sb = rhs.is_sign_negative();
        let pa = self.magnitude_bits();
        let pb = rhs.magnitude_bits();
        if pa == INFINITY_PATTERN || pb == INFINITY_PATTERN {
            if pa == INFINITY_PATTERN && pb == INFINITY_PATTERN && sa != sb {
                return Scalar::from_bits(NAN_BITS);
            }
            if pa == INFINITY_PATTERN {
                return self;
            }
            return rhs;
        }
        let ghost ga = grid(pa as nat);
        let ghost gb = grid(pb as nat);
        if sa == sb {
            let k = add_magnitudes(pa, pb);
            proof {
                lemma_round_is(ga + gb, 1, k as nat);
                lemma_grid_compare(pa as nat, 0);
                lemma_grid_compare(pb as nat, 0);
                if ga + gb == 0 {
                    lemma_nearest_exact(0, 1);
                }
            }
            Scalar::compose(sa, k)
        } else if pa == pb {
            Scalar::zero()
        } else if pa > pb {
            let k = sub_magnitudes(pa, pb);
            proof {
                lemma_round_is((ga - gb) as nat, 1, k as nat);
            }
            Scalar::compose(sa, k)
        } else {
            let k = sub_magnitudes(pb, pa);
            proof {
                lemma_round_is((gb - ga) as nat, 1, k as nat);
            }
            Scalar::compose(sb, k)
        }
    }

    /// The difference `self - rhs`.
    pub fn sub(self, rhs: Scalar) -> (r: Scalar)
        ensures
            r == self.sub_spec(rhs),
    {
        self.add(rhs.neg())
    }

    /// The product, rounded to nearest with ties to even. Zero times
    /// infinity gives NaN; the sign is the product of the signs.
    #[verifier::opaque]
    pub open spec fn mul_spec(self, rhs: Scalar) -> Scalar {
        if self.is_nan_spec() || rhs.is_nan_spec() {
            Scalar::nan()
        } else if (self.is_infinite_spec() && rhs.is_zero()) || (self.is_zero()
            && rhs.is_infinite_spec()) {
            Scalar::nan()
        } else if self.is_infinite_spec() || rhs.is_infinite_spec() {
            Scalar::of(self.sign() != rhs.sign(), INFINITY_PATTERN as nat)
        } else {
            Scalar::of(
                self.sign() != rhs.sign(),
                round(self.magnitude() * rhs.magnitude(), pow2(149)),
            )
        }
    }

    /// The quotient, rounded to nearest with ties to even. Zero by zero and
    /// infinity by infinity give NaN; anything else by zero gives an
    /// infinity; the sign is the product of the signs.
    #[verifier::opaque]
    pub open spec fn div_spec(self, rhs: Scalar) -> Scalar {
        if self.is_nan_spec() || rhs.is_nan_spec() {
            Scalar::nan()
        } else if (self.is_infinite_spec() && rhs.is_infinite_spec()) || (self.is_zero()
            && rhs.is_zero()) {
            Scalar::nan()
        } else if self.is_infinite_spec() || rhs.is_zero() {
            Scalar::of(self.sign() != rhs.sign(), INFINITY_PATTERN as nat)
        } else if rhs.is_infinite_spec() {
            Scalar::of(self.sign() != rhs.sign(), 0)
        } else {
            Scalar::of(
                self.sign() != rhs.sign(),
                round(self.magnitude() * pow2(149), rhs.magnitude()),
            )
        }
    }

    /// The product `self * rhs`.
    pub fn mul(self, rhs: Scalar) -> (r: Scalar)
        ensures
            r == self.mul_spec(rhs),
    {
        reveal(Scalar::mul_spec);
        if self.is_nan() || rhs.is_nan() {
            return Scalar::from_bits(NAN_BITS);
        }
        let sign = self.is_sign_negative() != rhs.is_sign_negative();
        let pa = self.magnitude_bits();
        let pb = rhs.magnitude_bits();
        if pa == INFINITY_PATTERN || pb == INFINITY_PATTERN {
            if pa == 0 || pb == 0 {
                return Scalar::from_bits(NAN_BITS);
            }
            return Scalar::compose(sign, INFINITY_PATTERN);
        }
        let k = mul_magnitudes(pa, pb);
        proof {
            lemma_pow2_pos(149);
            lemma_round_is(grid(pa as nat) * grid(pb as nat), pow2(149), k as nat);
        }
        Scalar::compose(sign, k)
    }

    /// The quotient `self / rhs`.
    pub fn div(self, rhs: Scalar) -> (r: Scalar)
        ensures
            r == self.div_spec(rhs),
    {
        reveal(Scalar::div_spec);
        if self.is_nan() || rhs.is_nan() {
            return Scalar::from_bits(NAN_BITS);
        }
        let sign = self.is_sign_negative() != rhs.is_sign_negative();
        let pa = self.magnitude_bits();
        let pb = rhs.magnitude_bits();
        if (pa == INFINITY_PATTERN && pb == INFINITY_PATTERN) || (pa == 0 && pb == 0) {
            return Scalar::from_bits(NAN_BITS);
        }
        if pa == INFINITY_PATTERN || pb == 0 {
            return Scalar::compose(sign, INFINITY_PATTERN);
        }
        if pb == INFINITY_PATTERN {
            return Scalar::compose(sign, 0);
        }
        let k = div_magnitudes(pa, pb);
        proof {
            lemma_round_is(grid(pa as nat) * pow2(149), grid(pb as nat), k as nat);
        }
        Scalar::compose(sign, k)
    }
}

} // verus!
