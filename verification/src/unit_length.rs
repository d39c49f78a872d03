//! A vector divided by its length has length one, up to rounding.
//!
//! The bound is carried through every rounding on the way: three squares and
//! two sums for the squared length, a square root, three quotients, and then
//! the same squares, sums and root again.
use vstd::prelude::*;
use vstd::arithmetic::power2::{pow2, lemma_pow2_pos, lemma_pow2_adds, lemma2_to64};
use crate::accuracy::{
    dist,
    eps,
    re,
    size,
    size_of,
    tiny,
    unit_real,
    lemma_add_real,
    lemma_cast_product,
    lemma_constants,
    lemma_div_real,
    lemma_mul_real,
    lemma_re,
    lemma_root_error,
    lemma_round_bounded,
};
use crate::grid::{
    grid,
    round,
    round_root,
    lemma_grid_increasing,
    lemma_grid_pack,
    lemma_round_nearest,
    lemma_round_root_nearest,
    INFINITY_PATTERN,
};
use crate::scalar::{Scalar, lemma_grid_compare, ONE};
use crate::symmetry::{lemma_add_shape, magnitude_of};
use crate::vec3::Vec3;

verus! {

/// The bit pattern of a quarter.
pub const QUARTER: u32 = 0x3e80_0000;

/// The bit pattern of four.
pub const FOUR: u32 = 0x4080_0000;

/// The bit pattern of 256.
pub const BOUND: u32 = 0x4380_0000;

/// The real numbers that the named scalars stand for.
pub proof fn lemma_named_values()
    ensures
        re(Scalar::lit(ONE)) == 1real,
        re(Scalar::lit(QUARTER)) == 1real / 4real,
        re(Scalar::lit(FOUR)) == 4real,
        re(Scalar::lit(BOUND)) == 256real,
        grid(BOUND as nat) == 256 * pow2(149),
        grid(INFINITY_PATTERN as nat) == pow2(277),
{
    lemma_constants();
    lemma2_to64();
    lemma_grid_pack(126, 0x80_0000);
    lemma_grid_pack(124, 0x80_0000);
    lemma_grid_pack(128, 0x80_0000);
    lemma_grid_pack(134, 0x80_0000);
    lemma_grid_pack(254, 0x80_0000);
    lemma_pow2_adds(23, 126);
    lemma_pow2_adds(23, 124);
    lemma_pow2_adds(2, 147);
    lemma_pow2_adds(2, 149);
    lemma_pow2_adds(8, 149);
    lemma_pow2_adds(23, 128);
    lemma_pow2_adds(23, 134);
    lemma_pow2_adds(23, 254);
    let u = unit_real();
    let ui = pow2(149) as int;
    assert(Scalar::lit(ONE).value() == ui);
    assert(4 * Scalar::lit(QUARTER).value() == ui);
    assert(Scalar::lit(FOUR).value() == 4 * ui);
    assert(Scalar::lit(BOUND).value() == 256 * ui);
    assert(u / u == 1real && (u / 4real) / u == 1real / 4real && (4real * u) / u == 4real && (
    256real * u) / u == 256real) by (nonlinear_arith)
        requires
            u > 0real,
    ;
    assert(Scalar::lit(QUARTER).value() as real == u / 4real);
}

/// A product is finite where the exact product is at most 256.
pub proof fn lemma_mul_finite(x: Scalar, y: Scalar)
    requires
        x.is_finite_spec(),
        y.is_finite_spec(),
        size(re(x)) * size(re(y)) <= 256real,
    ensures
        x.mul_spec(y).is_finite_spec(),
{
    reveal(Scalar::mul_spec);
    lemma_named_values();
    lemma_constants();
    lemma_re(x);
    lemma_re(y);
    lemma_pow2_pos(149);
    let u = pow2(149);
    let gx = x.magnitude();
    let gy = y.magnitude();
    let n = gx * gy;
    lemma_round_nearest(n, u);
    lemma_cast_product(gx as int, gy as int);
    lemma_cast_product((256 * u) as int, u as int);
    let ur = unit_real();
    let a = size(re(x));
    let b = size(re(y));
    assert((a * ur) * (b * ur) <= (256real * ur) * ur) by (nonlinear_arith)
        requires
            a * b <= 256real,
            ur > 0real,
    ;
    assert(n <= grid(BOUND as nat) * u);
    lemma_round_bounded(n, u, round(n, u), BOUND as nat);
}

/// A quotient is finite where the exact quotient is at most 256.
pub proof fn lemma_div_finite(x: Scalar, y: Scalar)
    requires
        x.is_finite_spec(),
        y.is_finite_spec(),
        !y.is_zero(),
        size(re(x)) <= 256real * size(re(y)),
    ensures
        x.div_spec(y).is_finite_spec(),
{
    reveal(Scalar::div_spec);
    lemma_named_values();
    lemma_constants();
    lemma_re(x);
    lemma_re(y);
    lemma_pow2_pos(149);
    lemma_grid_compare(y.pattern(), 0);
    let u = pow2(149);
    let gx = x.magnitude();
    let gy = y.magnitude();
    let n = gx * u;
    lemma_round_nearest(n, gy);
    let ur = unit_real();
    let a = size(re(x));
    let b = size(re(y));
    assert(a * ur <= 256real * (b * ur)) by (nonlinear_arith)
        requires
            a <= 256real * b,
            ur > 0real,
    ;
    assert(gx <= 256 * gy);
    assert(gx * u <= (256 * u) * gy) by (nonlinear_arith)
        requires
            gx <= 256 * gy,
            u > 0,
    ;
    lemma_round_bounded(n, gy, round(n, gy), BOUND as nat);
}

/// A sum is finite where the exact sum is at most 256.
pub proof fn lemma_add_finite(x: Scalar, y: Scalar)
    requires
        x.is_finite_spec(),
        y.is_finite_spec(),
        size(re(x) + re(y)) <= 256real,
    ensures
        x.add_spec(y).is_finite_spec(),
{
    lemma_add_shape(x, y);
    lemma_named_values();
    lemma_constants();
    lemma_re(x);
    lemma_re(y);
    let s = x.value() + y.value();
    let ur = unit_real();
    let rx = re(x);
    let ry = re(y);
    let a = rx + ry;
    assert(a * ur == rx * ur + ry * ur && size(a) * ur == size(a * ur) && size(a) * ur
        <= 256real * ur) by (nonlinear_arith)
        requires
            ur > 0real,
            a == rx + ry,
            size(a) <= 256real,
    ;
    assert(a * ur == s as real);
    assert(size_of(s) as real == size(s as real));
    if s != 0 {
        let n = magnitude_of(s);
        lemma_round_nearest(n, 1);
        assert(n <= grid(BOUND as nat) * 1);
        lemma_round_bounded(n, 1, round(n, 1), BOUND as nat);
    }
}

/// A finite product has finite factors.
pub proof fn lemma_mul_operands(x: Scalar, y: Scalar)
    requires
        x.mul_spec(y).is_finite_spec(),
    ensures
        x.is_finite_spec(),
        y.is_finite_spec(),
{
    reveal(Scalar::mul_spec);
}

/// The square root of a finite scalar above zero is finite and above zero,
/// and its square is off by at most two parts in `2^24`.
pub proof fn lemma_sqrt_real(x: Scalar)
    requires
        x.is_finite_spec(),
        re(x) > 0real,
    ensures
        x.sqrt_spec().is_finite_spec(),
        re(x.sqrt_spec()) > 0real,
        (1real - eps()) * (1real - eps()) * (re(x.sqrt_spec()) * re(x.sqrt_spec())) <= re(x),
        re(x) <= (1real + eps()) * (1real + eps()) * (re(x.sqrt_spec()) * re(x.sqrt_spec())),
{
    reveal(Scalar::sqrt_spec);
    let r = x.sqrt_spec();
    lemma_named_values();
    lemma_constants();
    lemma_re(x);
    lemma_re(r);
    lemma_pow2_pos(149);
    lemma_grid_compare(x.pattern(), 0);
    lemma_grid_increasing(x.pattern(), INFINITY_PATTERN as nat);
    let u = pow2(149);
    let gx = x.magnitude();
    let n = gx * u;
    assert(u <= n < u * pow2(277)) by (nonlinear_arith)
        requires
            n == gx * u,
            1 <= gx < pow2(277),
            u > 0,
    ;
    lemma_round_root_nearest(n);
    let k = round_root(n);
    lemma_root_error(n, k);
    assert(r.pattern() == k);
    lemma_grid_compare(k, 0);
    let g = grid(k);
    let gg = g * g;
    lemma_cast_product(g as int, g as int);
    lemma_cast_product(gx as int, u as int);
    let ur = unit_real();
    let gr = g as real;
    let xr = gx as real;
    let b = re(r);
    let a = re(x);
    assert(b * ur == gr);
    assert(a * ur == xr);
    let gi = (g * g) as int;
    let ni = n as int;
    assert(gi as real == gr * gr);
    assert(ni as real == xr * ur);
    assert(16777215 * 16777215 * gi <= 16777216 * 16777216 * ni);
    assert(16777216 * 16777216 * ni <= 16777217 * 16777217 * gi);
    assert(16777215real * 16777215real * (gi as real) <= 16777216real * 16777216real * (ni as real))
        by (nonlinear_arith)
        requires
            16777215 * 16777215 * gi <= 16777216 * 16777216 * ni,
    ;
    assert(16777216real * 16777216real * (ni as real) <= 16777217real * 16777217real * (gi as real))
        by (nonlinear_arith)
        requires
            16777216 * 16777216 * ni <= 16777217 * 16777217 * gi,
    ;
    assert(16777215real * 16777215real * (gr * gr) <= 16777216real * 16777216real * (xr * ur));
    assert(16777216real * 16777216real * (xr * ur) <= 16777217real * 16777217real * (gr * gr));
    assert((1real - 1real / 16777216real) * (1real - 1real / 16777216real) * (b * b) <= a && a <= (
    1real + 1real / 16777216real) * (1real + 1real / 16777216real) * (b * b)) by (nonlinear_arith)
        requires
            ur > 0real,
            b * ur == gr,
            a * ur == xr,
            16777215real * 16777215real * (gr * gr) <= 16777216real * 16777216real * (xr * ur),
            16777216real * 16777216real * (xr * ur) <= 16777217real * 16777217real * (gr * gr),
    ;
}

/// Half a unit is less than `2^-70`.
pub proof fn lemma_tiny()
    ensures
        0real < tiny(),
        tiny() * 100000000000000000000real <= 1real,
        eps() == 1real / 16777216real,
{
    lemma_constants();
    let t = tiny();
    assert(t * 100000000000000000000real <= 1real) by (nonlinear_arith)
        requires
            t > 0real,
            t * 1000000real <= (1real / 16777216real) * (1real / 16777216real),
    ;
}

/// The square of a scalar, where it is finite: it is not below zero, and
/// off by at most half a unit and one part in `2^24`.
pub proof fn lemma_square(x: Scalar)
    requires
        x.mul_spec(x).is_finite_spec(),
    ensures
        x.is_finite_spec(),
        re(x.mul_spec(x)) >= 0real,
        re(x) * re(x) >= 0real,
        16777216real * dist(re(x.mul_spec(x)), re(x) * re(x)) <= 16777216real * tiny() + re(x)
            * re(x),
{
    lemma_mul_operands(x, x);
    lemma_mul_real(x, x);
    lemma_re(x.mul_spec(x));
    lemma_tiny();
    let a = re(x);
    let sq = a * a;
    assert(sq >= 0real) by (nonlinear_arith)
        requires
            sq == a * a,
    ;
    let d = dist(re(x.mul_spec(x)), sq);
    let t = tiny();
    let e = eps();
    assert(16777216real * d <= 16777216real * t + sq) by (nonlinear_arith)
        requires
            d <= t + e * size(sq),
            e == 1real / 16777216real,
            sq >= 0real,
    ;
}

/// A finite sum: its terms are finite, and it is off by at most one part
/// in `2^24`.
pub proof fn lemma_sum(x: Scalar, y: Scalar)
    requires
        x.add_spec(y).is_finite_spec(),
    ensures
        x.is_finite_spec(),
        y.is_finite_spec(),
        16777216real * dist(re(x.add_spec(y)), re(x) + re(y)) <= size(re(x) + re(y)),
{
    lemma_add_real(x, y);
    lemma_tiny();
    let d = dist(re(x.add_spec(y)), re(x) + re(y));
    let s = size(re(x) + re(y));
    let e = eps();
    assert(16777216real * d <= s) by (nonlinear_arith)
        requires
            d <= e * s,
            e == 1real / 16777216real,
    ;
}

/// The square root of a finite scalar above zero: it is finite and above
/// zero, and its square is off by at most two parts in `2^24`.
pub proof fn lemma_root(x: Scalar)
    requires
        x.is_finite_spec(),
        re(x) > 0real,
    ensures
        x.sqrt_spec().is_finite_spec(),
        re(x.sqrt_spec()) > 0real,
        16777215real * 16777215real * (re(x.sqrt_spec()) * re(x.sqrt_spec())) <= 16777216real
            * 16777216real * re(x),
        16777216real * 16777216real * re(x) <= 16777217real * 16777217real * (re(x.sqrt_spec())
            * re(x.sqrt_spec())),
{
    lemma_sqrt_real(x);
    lemma_tiny();
    let b = re(x.sqrt_spec());
    let q = b * b;
    let a = re(x);
    let e = eps();
    assert(16777215real * 16777215real * q <= 16777216real * 16777216real * a && 16777216real
        * 16777216real * a <= 16777217real * 16777217real * q) by (nonlinear_arith)
        requires
            e == 1real / 16777216real,
            (1real - e) * (1real - e) * q <= a,
            a <= (1real + e) * (1real + e) * q,
    ;
}

/// The squared length of a vector, where it is finite: the components are
/// finite, and it is off from the exact sum of squares by at most four
/// parts in `2^24` and four halves of a unit.
pub proof fn lemma_length_squared_real(v: Vec3)
    requires
        v.length_squared_spec().is_finite_spec(),
    ensures
        v.e0.is_finite_spec(),
        v.e1.is_finite_spec(),
        v.e2.is_finite_spec(),
        re(v.e0) * re(v.e0) >= 0real,
        re(v.e1) * re(v.e1) >= 0real,
        re(v.e2) * re(v.e2) >= 0real,
        re(v.length_squared_spec()) >= 0real,
        16777216real * re(v.length_squared_spec()) <= 16777220real * (re(v.e0) * re(v.e0) + re(
            v.e1,
        ) * re(v.e1) + re(v.e2) * re(v.e2)) + 67108864real * tiny(),
        16777216real * re(v.length_squared_spec()) >= 16777212real * (re(v.e0) * re(v.e0) + re(
            v.e1,
        ) * re(v.e1) + re(v.e2) * re(v.e2)) - 67108864real * tiny(),
{
    let first = v.e0.mul_spec(v.e0);
    let second = v.e1.mul_spec(v.e1);
    let third = v.e2.mul_spec(v.e2);
    let sum = first.add_spec(second);
    lemma_sum(sum, third);
    lemma_sum(first, second);
    lemma_square(v.e0);
    lemma_square(v.e1);
    lemma_square(v.e2);
    lemma_tiny();
}

/// One component of a vector over the vector's length: the quotient is
/// finite, and its square is off from the exact square by at most three
/// parts in `2^24` and a trifle.
pub proof fn lemma_component(a: Scalar, len: Scalar)
    requires
        a.is_finite_spec(),
        len.is_finite_spec(),
        100real * re(len) >= 48real,
        10real * size(re(a)) <= 21real,
    ensures
        a.div_spec(len).is_finite_spec(),
        size(re(a.div_spec(len))) <= 5real,
        re(a.div_spec(len)) * re(a.div_spec(len)) >= 0real,
        (re(a) / re(len)) * (re(a) / re(len)) >= 0real,
        (re(a) / re(len)) * (re(a) / re(len)) * (re(len) * re(len)) == re(a) * re(a),
        16777216real * dist(
            re(a.div_spec(len)) * re(a.div_spec(len)),
            (re(a) / re(len)) * (re(a) / re(len)),
        ) <= 3real * ((re(a) / re(len)) * (re(a) / re(len))) + 1real / 1000000real,
{
    lemma_tiny();
    lemma_re(len);
    lemma_div_finite(a, len);
    lemma_div_real(a, len);
    let x = re(a);
    let l = re(len);
    let w = x / l;
    let u = re(a.div_spec(len));
    let t = tiny();
    let e = eps();
    assert(w * l == x && 10real * size(w) <= 44real && size(w) * l == size(x)) by (nonlinear_arith)
        requires
            w == x / l,
            100real * l >= 48real,
            10real * size(x) <= 21real,
    ;
    assert((w * w) * (l * l) == x * x && w * w >= 0real) by (nonlinear_arith)
        requires
            w * l == x,
    ;
    let d = dist(u, w);
    assert(16777216real * d <= 16777216real * t + size(w)) by (nonlinear_arith)
        requires
            d <= t + e * size(w),
            e == 1real / 16777216real,
    ;
    assert(size(u) <= 5real && u * u >= 0real && 16777216real * dist(u * u, w * w) <= 3real * (w
        * w) + 1real / 1000000real) by (nonlinear_arith)
        requires
            d == dist(u, w),
            16777216real * d <= 16777216real * t + size(w),
            10real * size(w) <= 44real,
            0real < t,
            t * 100000000000000000000real <= 1real,
    ;
}

/// Scalars that are numbers are ordered as the real numbers they stand for.
pub proof fn lemma_re_order(x: Scalar, y: Scalar)
    ensures
        x.value() <= y.value() <==> re(x) <= re(y),
{
    lemma_constants();
    let u = unit_real();
    let a = x.value() as real;
    let b = y.value() as real;
    assert(a <= b <==> a / u <= b / u) by (nonlinear_arith)
        requires
            u > 0real,
    ;
}

/// A scalar between a quarter and four is finite.
pub proof fn lemma_between_is_finite(x: Scalar)
    requires
        Scalar::lit(QUARTER).le_spec(x),
        x.le_spec(Scalar::lit(FOUR)),
    ensures
        x.is_finite_spec(),
        4real * re(x) >= 1real,
        re(x) <= 4real,
{
    lemma_named_values();
    lemma_re_order(Scalar::lit(QUARTER), x);
    lemma_re_order(x, Scalar::lit(FOUR));
    lemma_re(x);
    lemma_grid_compare(x.pattern(), INFINITY_PATTERN as nat);
    lemma_grid_compare(FOUR as nat, INFINITY_PATTERN as nat);
}

/// The components of a vector whose squared length lies between a quarter
/// and four, each over the length: the quotients are finite and at most 5,
/// and their exact squares add up to one within eleven parts in `2^24`.
pub proof fn lemma_normalised(v: Vec3)
    requires
        Scalar::lit(QUARTER).le_spec(v.length_squared_spec()),
        v.length_squared_spec().le_spec(Scalar::lit(FOUR)),
    ensures
        ({
            let u = Vec3::unit_vector_spec(v);
            let c = re(u.e0) * re(u.e0) + re(u.e1) * re(u.e1) + re(u.e2) * re(u.e2);
            &&& u.e0.is_finite_spec() && u.e1.is_finite_spec() && u.e2.is_finite_spec()
            &&& size(re(u.e0)) <= 5real && size(re(u.e1)) <= 5real && size(re(u.e2)) <= 5real
            &&& re(u.e0) * re(u.e0) >= 0real
            &&& re(u.e1) * re(u.e1) >= 0real
            &&& re(u.e2) * re(u.e2) >= 0real
            &&& 16777216real * c <= 16777227real
            &&& 16777216real * c >= 16777205real
        }),
{
    lemma_tiny();
    let t = tiny();
    let sq = v.length_squared_spec();
    lemma_between_is_finite(sq);
    lemma_length_squared_real(v);
    lemma_root(sq);
    let len = sq.sqrt_spec();
    let big = re(sq);
    let l = re(len);
    let q = l * l;
    let a0 = re(v.e0);
    let a1 = re(v.e1);
    let a2 = re(v.e2);
    let s0 = a0 * a0;
    let s1 = a1 * a1;
    let s2 = a2 * a2;
    let s = s0 + s1 + s2;
    // The exact squared length and the square of the rounded length agree
    // within seven parts in 2^24.
    assert(16777216real * s <= 16777223real * q && 16777216real * s >= 16777209real * q && 100real
        * q >= 24real && 10real * s <= 41real);
    assert(100real * l >= 48real) by (nonlinear_arith)
        requires
            l > 0real,
            100real * (l * l) >= 24real,
    ;
    assert(10real * size(a0) <= 21real) by (nonlinear_arith)
        requires
            10real * (a0 * a0) <= 41real,
    ;
    assert(10real * size(a1) <= 21real) by (nonlinear_arith)
        requires
            10real * (a1 * a1) <= 41real,
    ;
    assert(10real * size(a2) <= 21real) by (nonlinear_arith)
        requires
            10real * (a2 * a2) <= 41real,
    ;
    lemma_component(v.e0, len);
    lemma_component(v.e1, len);
    lemma_component(v.e2, len);
    let b0 = (a0 / l) * (a0 / l);
    let b1 = (a1 / l) * (a1 / l);
    let b2 = (a2 / l) * (a2 / l);
    let b = b0 + b1 + b2;
    assert(b * q == s) by (nonlinear_arith)
        requires
            b == b0 + b1 + b2,
            b0 * q == s0,
            b1 * q == s1,
            b2 * q == s2,
            s == s0 + s1 + s2,
    ;
    assert(16777216real * b <= 16777223real && 16777216real * b >= 16777209real)
        by (nonlinear_arith)
        requires
            b * q == s,
            q > 0real,
            16777216real * s <= 16777223real * q,
            16777216real * s >= 16777209real * q,
    ;
}

/// The squared length of a vector whose components are at most 5 is
/// finite.
pub proof fn lemma_length_squared_finite(u: Vec3)
    requires
        u.e0.is_finite_spec() && u.e1.is_finite_spec() && u.e2.is_finite_spec(),
        size(re(u.e0)) <= 5real && size(re(u.e1)) <= 5real && size(re(u.e2)) <= 5real,
    ensures
        u.length_squared_spec().is_finite_spec(),
{
    lemma_tiny();
    let first = u.e0.mul_spec(u.e0);
    let second = u.e1.mul_spec(u.e1);
    let third = u.e2.mul_spec(u.e2);
    lemma_small_square(u.e0);
    lemma_small_square(u.e1);
    lemma_small_square(u.e2);
    lemma_add_finite(first, second);
    lemma_sum(first, second);
    lemma_add_finite(first.add_spec(second), third);
}

/// The square of a scalar that is at most 5 is finite and at most 26.
pub proof fn lemma_small_square(x: Scalar)
    requires
        x.is_finite_spec(),
        size(re(x)) <= 5real,
    ensures
        x.mul_spec(x).is_finite_spec(),
        0real <= re(x.mul_spec(x)) <= 26real,
{
    lemma_tiny();
    let a = size(re(x));
    assert(a * a <= 256real) by (nonlinear_arith)
        requires
            0real <= a <= 5real,
    ;
    lemma_mul_finite(x, x);
    lemma_square(x);
    let r = re(x);
    assert(r * r <= 25real) by (nonlinear_arith)
        requires
            size(r) <= 5real,
    ;
}

/// A vector divided by its length has length one within `2^-20`, provided
/// its squared length lies between a quarter and four.
pub proof fn lemma_unit_vector_length(v: Vec3)
    requires
        Scalar::lit(QUARTER).le_spec(v.length_squared_spec()),
        v.length_squared_spec().le_spec(Scalar::lit(FOUR)),
    ensures
        Vec3::unit_vector_spec(v).length_spec().is_finite_spec(),
        1048576real * dist(re(Vec3::unit_vector_spec(v).length_spec()), 1real) <= 1real,
        Scalar::lit(JUST_BELOW_ONE).le_spec(Vec3::unit_vector_spec(v).length_spec()),
        Vec3::unit_vector_spec(v).length_spec().le_spec(Scalar::lit(JUST_ABOVE_ONE)),
{
    lemma_tiny();
    let u = Vec3::unit_vector_spec(v);
    lemma_normalised(v);
    lemma_length_squared_finite(u);
    lemma_length_squared_real(u);
    let sq = u.length_squared_spec();
    let c = re(u.e0) * re(u.e0) + re(u.e1) * re(u.e1) + re(u.e2) * re(u.e2);
    let big = re(sq);
    assert(16777216real * big <= 16777232real && 16777216real * big >= 16777200real);
    lemma_root(sq);
    let l = re(sq.sqrt_spec());
    assert(1048576real * dist(l, 1real) <= 1real) by (nonlinear_arith)
        requires
            l > 0real,
            16777215real * 16777215real * (l * l) <= 16777216real * 16777216real * big,
            16777216real * 16777216real * big <= 16777217real * 16777217real * (l * l),
            16777216real * big <= 16777232real,
            16777216real * big >= 16777200real,
    ;
    let len = sq.sqrt_spec();
    lemma_tolerance_values();
    lemma_re_order(Scalar::lit(JUST_BELOW_ONE), len);
    lemma_re_order(len, Scalar::lit(JUST_ABOVE_ONE));
}

/// The bit pattern of `1 - 2^-20`.
pub const JUST_BELOW_ONE: u32 = 0x3f7f_fff0;

/// The bit pattern of `1 + 2^-20`.
pub const JUST_ABOVE_ONE: u32 = 0x3f80_0008;

/// The real numbers that the two bounds of the tolerance stand for.
pub proof fn lemma_tolerance_values()
    ensures
        1048576real * re(Scalar::lit(JUST_BELOW_ONE)) == 1048575real,
        1048576real * re(Scalar::lit(JUST_ABOVE_ONE)) == 1048577real,
{
    lemma_constants();
    lemma2_to64();
    lemma_grid_pack(125, 0xff_fff0);
    lemma_grid_pack(126, 0x80_0008);
    lemma_pow2_adds(24, 125);
    lemma_pow2_adds(23, 126);
    lemma_pow2_adds(1, 125);
    let u = unit_real();
    let h = pow2(125) as int;
    let below = Scalar::lit(JUST_BELOW_ONE).value();
    let above = Scalar::lit(JUST_ABOVE_ONE).value();
    assert(below == 0xff_fff0 * h);
    assert(above == 0x80_0008 * (2 * h));
    assert(pow2(149) == 0x100_0000 * h);
    let hr = h as real;
    assert(u == 16777216real * hr);
    assert(below as real == 16777200real * hr);
    assert(above as real == 16777232real * hr);
    assert(1048576real * ((16777200real * hr) / u) == 1048575real && 1048576real * ((16777232real
        * hr) / u) == 1048577real) by (nonlinear_arith)
        requires
            u == 16777216real * hr,
            hr > 0real,
    ;
}

} // verus!
