//! How far a rounded result lies from the exact one.
//!
//! The error of one operation is measured first as an integer, in units of
//! `2^-149`, and then as a real number: a sum is off by at most one part in
//! `2^24`, a product or a quotient by that and half a unit, a square root by
//! one part in `2^24`.
use vstd::prelude::*;
use vstd::arithmetic::power2::{pow2, lemma_pow2_pos, lemma_pow2_adds, lemma2_to64};
use crate::arith::lemma_pow2_monotone;
use crate::grid::{
    grid,
    nearest,
    nearest_root,
    round,
    ulp,
    lemma_grid_increasing,
    lemma_grid_monotone,
    lemma_grid_pack,
    lemma_grid_split,
    lemma_grid_step,
    lemma_round_nearest,
    INFINITY_PATTERN,
};
use crate::scalar::{Scalar, lemma_grid_compare};
use crate::symmetry::{lemma_add_shape, magnitude_of};

verus! {

/// The larger of two integers.
pub open spec fn larger(a: int, b: int) -> int {
    if a >= b {
        a
    } else {
        b
    }
}

/// A unit in the last place is at most one part in `2^23` of the magnitude,
/// or one unit for the subnormal.
pub proof fn lemma_ulp_small(k: nat)
    ensures
        ulp(k) * 0x80_0000 <= larger(0x80_0000, grid(k) as int),
        ulp(k) >= 1,
{
    lemma_grid_split(k);
    lemma2_to64();
    let e = crate::grid::exponent_of(k);
    let m = crate::grid::significand_of(k);
    let p = pow2(e);
    if e > 0 {
        assert(p * 0x80_0000 <= m * p) by (nonlinear_arith)
            requires
                m >= 0x80_0000,
                p >= 0,
        ;
    }
}

/// A rounded magnitude is off by at most half a unit, or by one part in
/// `2^24` of the exact value.
pub proof fn lemma_round_error(n: nat, d: nat, k: nat)
    requires
        d > 0,
        nearest(n, d, k),
        k < INFINITY_PATTERN,
    ensures
        0x100_0000 * (grid(k) * d - n) <= larger(0x80_0000 * (d as int), n as int),
        0x100_0000 * (n - grid(k) * d) <= larger(0x80_0000 * (d as int), n as int),
{
    let g = grid(k) as int;
    let up = ulp(k) as int;
    lemma_grid_step(k);
    lemma_ulp_small(k);
    if n >= g * d {
        // 2n <= (2g + up) d
        assert(2 * (n - g * d) <= up * d) by (nonlinear_arith)
            requires
                2 * n <= (g + (g + up)) * d,
        ;
        assert(0x80_0000 * (up * d) <= larger(0x80_0000 * (d as int), n as int)) by (nonlinear_arith)
            requires
                up * 0x80_0000 <= larger(0x80_0000, g),
                g * d <= n,
                d > 0,
                up >= 1,
        ;
    } else {
        lemma_grid_compare(k, 0);
        assert(k > 0) by (nonlinear_arith)
            requires
                n < g * d,
                n >= 0,
                d > 0,
                k == 0 ==> g == 0,
        ;
        let below = grid((k - 1) as nat) as int;
        let down = ulp((k - 1) as nat) as int;
        lemma_grid_step((k - 1) as nat);
        lemma_ulp_small((k - 1) as nat);
        assert(2 * (g * d - n) <= down * d && below * d <= n) by (nonlinear_arith)
            requires
                (below + g) * d <= 2 * n,
                g == below + down,
                n < g * d,
                d > 0,
        ;
        assert(0x80_0000 * (down * d) <= larger(0x80_0000 * (d as int), n as int)) by (nonlinear_arith)
            requires
                down * 0x80_0000 <= larger(0x80_0000, below),
                below * d <= n,
                d > 0,
                down >= 1,
        ;
    }
}

/// Rounding keeps below whatever representable magnitude the exact value
/// keeps below.
pub proof fn lemma_round_bounded(n: nat, d: nat, k: nat, j: nat)
    requires
        d > 0,
        nearest(n, d, k),
        n <= grid(j) * d,
    ensures
        k <= j,
{
    if k > j {
        lemma_grid_monotone(j, (k - 1) as nat);
        lemma_grid_increasing(j, k);
        let a = grid((k - 1) as nat) as int;
        let b = grid(k) as int;
        let c = grid(j) as int;
        assert((a + b) * d > 2 * (c * d)) by (nonlinear_arith)
            requires
                a >= c,
                b > c,
                d > 0,
        ;
    }
}

/// A rounded square root is off by at most one part in `2^24`, provided the
/// radicand is at least `2^149`.
pub proof fn lemma_root_error(n: nat, k: nat)
    requires
        nearest_root(n, k),
        pow2(149) <= n < pow2(149) * pow2(277),
    ensures
        0x100_0000 <= k < INFINITY_PATTERN,
        (0x100_0000 - 1) * (0x100_0000 - 1) * (grid(k) * grid(k)) <= 0x100_0000 * 0x100_0000 * n,
        0x100_0000 * 0x100_0000 * n <= (0x100_0000 + 1) * (0x100_0000 + 1) * (grid(k) * grid(k)),
{
    let g = grid(k) as int;
    lemma2_to64();
    vstd::arithmetic::power2::lemma2_to64_rest();
    lemma_pow2_monotone(64, 149);
    // The root is neither subnormal nor infinite.
    if k < 0x100_0000 {
        lemma_grid_monotone(k + 1, 0x100_0000);
        lemma_grid_monotone(k, 0x100_0000);
        lemma_grid_pack(1, 0x80_0000);
        let a = grid(k) + grid(k + 1);
        assert(a * a <= 0x400_0000 * 0x400_0000) by (nonlinear_arith)
            requires
                0 <= a <= 0x400_0000,
        ;
    }
    lemma_root_below_infinity(n, k);
    let up = ulp(k) as int;
    let below = grid((k - 1) as nat) as int;
    let down = ulp((k - 1) as nat) as int;
    lemma_grid_step(k);
    lemma_grid_step((k - 1) as nat);
    lemma_ulp_small(k);
    lemma_ulp_small((k - 1) as nat);
    lemma_grid_monotone(0x80_0000, (k - 1) as nat);
    lemma_grid_pack(0, 0x80_0000);
    assert(grid(0x80_0000) == 0x80_0000);
    assert(up * 0x80_0000 <= g);
    assert(down * 0x80_0000 <= below);
    // 4n <= (2g + up)^2 and up <= g / 2^23
    assert(0x100_0000 * 0x100_0000 * n <= (0x100_0000 + 1) * (0x100_0000 + 1) * (g * g))
        by (nonlinear_arith)
        requires
            4 * n <= (g + (g + up)) * (g + (g + up)),
            up * 0x80_0000 <= g,
            up >= 0,
            g >= 0,
    ;
    // (2g - down)^2 <= 4n and down <= below / 2^23 <= g / 2^23
    assert((0x100_0000 - 1) * (0x100_0000 - 1) * (g * g) <= 0x100_0000 * 0x100_0000 * n)
        by (nonlinear_arith)
        requires
            (below + g) * (below + g) <= 4 * n,
            g == below + down,
            down * 0x80_0000 <= below,
            down >= 0,
            below >= 0,
    ;
}

/// The square root of a finite magnitude is far from infinity.
proof fn lemma_root_below_infinity(n: nat, k: nat)
    requires
        nearest_root(n, k),
    ensures
        n < pow2(149) * pow2(277) ==> k < INFINITY_PATTERN,
{
    if k == INFINITY_PATTERN {
        let inf = INFINITY_PATTERN as nat;
        lemma_grid_pack(254, 0x80_0000);
        lemma_grid_pack(253, 0xff_ffff);
        assert(inf == 254 * 0x80_0000 + 0x80_0000);
        assert(inf - 1 == 253 * 0x80_0000 + 0xff_ffff);
        lemma_pow2_adds(1, 253);
        lemma_pow2_adds(23, 254);
        lemma_pow2_adds(24, 253);
        lemma_pow2_adds(128, 149);
        lemma_pow2_adds(149, 277);
        lemma_pow2_adds(213, 213);
        lemma2_to64();
        let top = grid(inf) as int;
        let below = grid((inf - 1) as nat) as int;
        let q = pow2(253) as int;
        assert(top == 0x100_0000 * q);
        assert(below == 0xff_ffff * q);
        // (top + below)^2 <= 4n gives n >= (2^25 - 1)^2 q^2 / 4 > 2^48 q^2 / 2
        let h = pow2(213) as int;
        lemma_pow2_adds(40, 213);
        vstd::arithmetic::power2::lemma2_to64_rest();
        assert(q == 0x100_0000_0000 * h);
        assert(pow2(149) * pow2(277) == h * h);
        lemma_pow2_pos(213);
        assert(n >= h * h) by (nonlinear_arith)
            requires
                (below + top) * (below + top) <= 4 * n,
                top == 0x100_0000 * q,
                below == 0xff_ffff * q,
                q == 0x100_0000_0000 * h,
                h > 0,
        ;
    }
}

/// The unit `2^-149` as the divisor that turns a value into a real number.
pub open spec fn unit_real() -> real {
    pow2(149) as real
}

/// The real number that a scalar stands for, if it is finite.
pub open spec fn re(x: Scalar) -> real {
    (x.value() as real) / unit_real()
}

/// One part in `2^24`: the relative error of one rounding.
pub open spec fn eps() -> real {
    1real / 16777216real
}

/// Half a unit, `2^-150`: the absolute error of one rounding near zero.
pub open spec fn tiny() -> real {
    1real / (2real * unit_real())
}

/// The distance of two real numbers.
pub open spec fn dist(a: real, b: real) -> real {
    if a >= b {
        a - b
    } else {
        b - a
    }
}

/// The magnitude of a real number.
pub open spec fn size(a: real) -> real {
    if a >= 0real {
        a
    } else {
        -a
    }
}

/// The magnitude of an integer.
pub open spec fn size_of(a: int) -> int {
    if a >= 0 {
        a
    } else {
        -a
    }
}

/// Casting to the reals goes through a product.
pub proof fn lemma_cast_product(a: int, b: int)
    ensures
        (a * b) as real == (a as real) * (b as real),
{
    assert((a * b) as real == (a as real) * (b as real)) by (nonlinear_arith);
}

/// The unit is positive, and half a unit is far below the square of one
/// part in `2^24`.
pub proof fn lemma_constants()
    ensures
        unit_real() > 0real,
        unit_real() >= 1real,
        0real < tiny(),
        tiny() * 1000000real <= eps() * eps(),
        eps() == 1real / 16777216real,
{
    lemma2_to64();
    vstd::arithmetic::power2::lemma2_to64_rest();
    lemma_pow2_adds(64, 64);
    lemma_pow2_monotone(128, 149);
    let u = unit_real();
    let h = pow2(64);
    lemma_cast_product(h as int, h as int);
    assert(u >= (h as real) * (h as real));
    let hr = h as real;
    assert(hr == 18446744073709551616real);
    assert(1real / (2real * u) > 0real && (1real / (2real * u)) * 1000000real <= (1real
        / 16777216real) * (1real / 16777216real)) by (nonlinear_arith)
        requires
            u >= hr * hr,
            hr == 18446744073709551616real,
    ;
}

/// What the value of a scalar is in terms of its sign and magnitude, as an
/// integer and as a real number.
pub proof fn lemma_re(x: Scalar)
    ensures
        size_of(x.value()) == x.magnitude(),
        x.sign() ==> x.value() <= 0,
        !x.sign() ==> x.value() >= 0,
        re(x) * unit_real() == x.value() as real,
        x.sign() ==> re(x) <= 0real,
        !x.sign() ==> re(x) >= 0real,
        size(re(x)) * unit_real() == x.magnitude() as real,
        x.is_zero() <==> re(x) == 0real,
{
    lemma_constants();
    lemma_grid_compare(x.pattern(), 0);
    let u = unit_real();
    let v = x.value() as real;
    assert((v / u) * u == v && (v >= 0real ==> v / u >= 0real) && (v <= 0real ==> v / u <= 0real)
        && (v / u == 0real ==> v == 0real)) by (nonlinear_arith)
        requires
            u > 0real,
    ;
    let m = x.magnitude() as real;
    assert((m / u) * u == m && ((0real - m) / u) == 0real - m / u && m / u >= 0real)
        by (nonlinear_arith)
        requires
            u > 0real,
            m >= 0real,
    ;
    if x.sign() {
        assert(v == 0real - m);
    } else {
        assert(v == m);
    }
}

/// An error measured in units turns into an error of real numbers.
pub proof fn lemma_scale_error(r: real, s: real, u: real)
    requires
        u > 0real,
        16777216real * dist(r, s) <= size(s),
    ensures
        dist(r / u, s / u) <= eps() * size(s / u),
{
    assert(dist(r / u, s / u) <= (1real / 16777216real) * size(s / u)) by (nonlinear_arith)
        requires
            u > 0real,
            16777216real * dist(r, s) <= size(s),
    ;
}

/// A finite sum is off by at most one part in `2^24`, and its terms are
/// finite.
pub proof fn lemma_add_real(x: Scalar, y: Scalar)
    requires
        x.add_spec(y).is_finite_spec(),
    ensures
        x.is_finite_spec(),
        y.is_finite_spec(),
        dist(re(x.add_spec(y)), re(x) + re(y)) <= eps() * size(re(x) + re(y)),
{
    let r = x.add_spec(y);
    lemma_add_shape(x, y);
    lemma_constants();
    let s = x.value() + y.value();
    let u = unit_real();
    lemma_re(r);
    assert(((x.value() as real) + (y.value() as real)) / u == re(x) + re(y)) by (nonlinear_arith)
        requires
            u > 0real,
            re(x) == (x.value() as real) / u,
            re(y) == (y.value() as real) / u,
    ;
    if s == 0 {
        assert(r.value() == 0);
    } else {
        let k = r.pattern();
        lemma_round_nearest(magnitude_of(s), 1);
        lemma_round_error(magnitude_of(s), 1, k);
        assert(0x100_0000 * size_of(r.value() - s) <= size_of(s));
    }
    lemma_scale_error(r.value() as real, s as real, u);
}

/// The error of a product or a quotient measured in units, as an error of
/// real numbers: half a unit and one part in `2^24`.
pub proof fn lemma_product_error(r: real, x: real, y: real, u: real)
    requires
        u > 0real,
        16777216real * dist(r * u, x * y) <= 8388608real * u + size(x * y),
    ensures
        dist(r / u, (x / u) * (y / u)) <= 1real / (2real * u) + eps() * size((x / u) * (y / u)),
{
    let p = x * y;
    let uu = u * u;
    assert(uu > 0real) by (nonlinear_arith)
        requires
            u > 0real,
            uu == u * u,
    ;
    assert((x / u) * (y / u) == p / uu && r / u == (r * u) / uu && 1real / (2real * u) == (u
        / 2real) / uu) by (nonlinear_arith)
        requires
            u > 0real,
            uu == u * u,
            p == x * y,
    ;
    let a = r * u;
    assert(dist(a / uu, p / uu) <= (u / 2real) / uu + (1real / 16777216real) * size(p / uu))
        by (nonlinear_arith)
        requires
            uu > 0real,
            16777216real * dist(a, p) <= 8388608real * u + size(p),
    ;
}

/// A finite product of finite factors is off by at most half a unit and one
/// part in `2^24`.
pub proof fn lemma_mul_real(x: Scalar, y: Scalar)
    requires
        x.is_finite_spec(),
        y.is_finite_spec(),
        x.mul_spec(y).is_finite_spec(),
    ensures
        dist(re(x.mul_spec(y)), re(x) * re(y)) <= tiny() + eps() * size(re(x) * re(y)),
        x.mul_spec(y).sign() == (x.sign() != y.sign()),
{
    reveal(Scalar::mul_spec);
    let r = x.mul_spec(y);
    lemma_constants();
    lemma_pow2_pos(149);
    let n = x.magnitude() * y.magnitude();
    let d = pow2(149);
    lemma_round_nearest(n, d);
    let k = round(n, d);
    assert(r.pattern() == k);
    lemma_round_error(n, d, k);
    let g = grid(k) as int;
    let xv = x.value();
    let yv = y.value();
    let rv = r.value();
    let gx = x.magnitude() as int;
    let gy = y.magnitude() as int;
    let sx = x.sign();
    let sy = y.sign();
    assert(size_of(rv * d - xv * yv) == size_of(g * d - n) && size_of(xv * yv) == n)
        by (nonlinear_arith)
        requires
            n == gx * gy,
            gx >= 0,
            gy >= 0,
            g >= 0,
            d > 0,
            xv == (if sx {
                -gx
            } else {
                gx
            }),
            yv == (if sy {
                -gy
            } else {
                gy
            }),
            rv == (if sx != sy {
                -g
            } else {
                g
            }),
    ;
    lemma_cast_product(rv, d as int);
    lemma_cast_product(xv, yv);
    lemma_product_error(rv as real, xv as real, yv as real, unit_real());
}

/// A finite quotient of finite operands is off by at most half a unit and
/// one part in `2^24`.
pub proof fn lemma_div_real(x: Scalar, y: Scalar)
    requires
        x.is_finite_spec(),
        y.is_finite_spec(),
        !y.is_zero(),
        x.div_spec(y).is_finite_spec(),
    ensures
        dist(re(x.div_spec(y)), re(x) / re(y)) <= tiny() + eps() * size(re(x) / re(y)),
        x.div_spec(y).sign() == (x.sign() != y.sign()),
{
    reveal(Scalar::div_spec);
    let r = x.div_spec(y);
    lemma_constants();
    lemma_pow2_pos(149);
    lemma_re(y);
    lemma_grid_compare(y.pattern(), 0);
    let d = y.magnitude();
    let n = x.magnitude() * pow2(149);
    lemma_round_nearest(n, d);
    let k = round(n, d);
    assert(r.pattern() == k);
    lemma_round_error(n, d, k);
    let g = grid(k) as int;
    let u = pow2(149) as int;
    let xv = x.value();
    let yv = y.value();
    let rv = r.value();
    let gx = x.magnitude() as int;
    let gy = y.magnitude() as int;
    let sx = x.sign();
    let sy = y.sign();
    assert(size_of(rv * yv - xv * u) == size_of(g * gy - n) && size_of(xv * u) == n && size_of(yv)
        == gy) by (nonlinear_arith)
        requires
            n == gx * u,
            gx >= 0,
            gy > 0,
            g >= 0,
            u > 0,
            xv == (if sx {
                -gx
            } else {
                gx
            }),
            yv == (if sy {
                -gy
            } else {
                gy
            }),
            rv == (if sx != sy {
                -g
            } else {
                g
            }),
    ;
    lemma_cast_product(rv, yv);
    lemma_cast_product(xv, u);
    lemma_quotient_error(rv as real, xv as real, yv as real, unit_real());
}

/// The error of a quotient measured in units, as an error of real numbers.
pub proof fn lemma_quotient_error(r: real, x: real, y: real, u: real)
    requires
        u > 0real,
        y != 0real,
        16777216real * dist(r * y, x * u) <= 8388608real * size(y) + size(x * u),
    ensures
        dist(r / u, (x / u) / (y / u)) <= 1real / (2real * u) + eps() * size((x / u) / (y / u)),
{
    assert((x / u) / (y / u) == x / y) by (nonlinear_arith)
        requires
            u > 0real,
            y != 0real,
    ;
    let q = x / y;
    assert(q * y == x) by (nonlinear_arith)
        requires
            y != 0real,
            q == x / y,
    ;
    let b = r / u;
    assert(b * u == r) by (nonlinear_arith)
        requires
            u > 0real,
            b == r / u,
    ;
    let h = 1real / (2real * u);
    assert(h * (2real * u) == 1real) by (nonlinear_arith)
        requires
            u > 0real,
            h == 1real / (2real * u),
    ;
    // In terms of b, q, h: 2^24 * |b u y - q y u| <= 2^23 |y| + |q y u|.
    assert(dist(b, q) <= h + (1real / 16777216real) * size(q)) by (nonlinear_arith)
        requires
            u > 0real,
            y != 0real,
            h * (2real * u) == 1real,
            16777216real * dist((b * u) * y, (q * y) * u) <= 8388608real * size(y) + size(
                (q * y) * u,
            ),
    ;
}

} // verus!
