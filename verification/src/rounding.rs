//! Rounding an exactly known quantity to the nearest binary32 magnitude.
//!
//! Every arithmetic operation first works out its result exactly, as a
//! significand, a scale and a note of whether anything was cut off below the
//! significand. `round_pack` turns that into a magnitude pattern and proves
//! that it is the nearest one.
use vstd::prelude::*;
use vstd::arithmetic::power2::{
    pow2,
    lemma_pow2_pos,
    lemma_pow2_unfold,
    lemma_pow2_strictly_increases,
    lemma2_to64,
};
use crate::grid::{
    grid,
    nearest,
    lemma_grid_pack,
    lemma_grid_step,
    lemma_grid_increasing,
    INFINITY_PATTERN,
};

verus! {

/// What an operation knows of its exact result `n / d`, measured in halves of
/// the unit `2^-149`: twice the result lies in the cell
/// `[sig, sig + 1) * 2^e`, and `inexact` tells whether it lies strictly
/// inside.
pub open spec fn bracket(sig: nat, e: nat, inexact: bool, n: nat, d: nat) -> bool {
    &&& d > 0
    &&& sig * (pow2(e) * d) <= 2 * n
    &&& 2 * n < (sig + 1) * (pow2(e) * d)
    &&& inexact <==> sig * (pow2(e) * d) != 2 * n
}

/// Products with a common factor, arranged so that what remains is linear.
pub proof fn lemma_mul_parts(a: int, b: int, p: int)
    ensures
        (a + b) * p == a * p + b * p,
        (2 * a) * p == 2 * (a * p),
        a * (2 * p) == 2 * (a * p),
        (a + 1) * p == a * p + p,
        (2 * a + 1) * p == 2 * (a * p) + p,
        (2 * a + 2) * p == 2 * (a * p) + 2 * p,
        1 * p == p,
        0 * p == 0,
{
    assert((a + b) * p == a * p + b * p) by (nonlinear_arith);
    assert((2 * a) * p == 2 * (a * p)) by (nonlinear_arith);
    assert(a * (2 * p) == 2 * (a * p)) by (nonlinear_arith);
    assert((a + 1) * p == a * p + p) by (nonlinear_arith);
    assert((2 * a + 1) * p == 2 * (a * p) + p) by (nonlinear_arith);
    assert((2 * a + 2) * p == 2 * (a * p) + 2 * p) by (nonlinear_arith);
}

/// Multiplication is associative, in the one shape the proofs here need.
pub proof fn lemma_mul_assoc(a: int, b: int, c: int)
    ensures
        (a * b) * c == a * (b * c),
{
    assert((a * b) * c == a * (b * c)) by (nonlinear_arith);
}

/// The scale of a cell is positive, and doubles with the exponent.
pub proof fn lemma_scale(e: nat, d: nat)
    requires
        d > 0,
    ensures
        pow2(e) * d > 0,
        pow2(e + 1) * d == 2 * (pow2(e) * d),
{
    lemma_pow2_pos(e);
    lemma_pow2_unfold(e + 1);
    let p = pow2(e);
    assert(p * d > 0) by (nonlinear_arith)
        requires
            p > 0,
            d > 0,
    ;
    assert((2 * p) * d == 2 * (p * d)) by (nonlinear_arith);
}

/// Dropping the lowest bit of the significand keeps the result in the cell,
/// which is now twice as wide; a dropped one makes the result inexact.
pub proof fn lemma_bracket_halve(t: nat, x: nat, st: bool, n: nat, d: nat)
    requires
        bracket(t, x, st, n, d),
    ensures
        bracket(t / 2, x + 1, st || t % 2 == 1, n, d),
{
    lemma_scale(x, d);
    let p = (pow2(x) * d) as int;
    let wide = (pow2(x + 1) * d) as int;
    let h = (t / 2) as int;
    lemma_mul_parts(h, 0, p);
    lemma_mul_parts(h, 0, wide);
    assert(wide == 2 * p);
    assert(h * wide == 2 * (h * p));
    assert((h + 1) * wide == 2 * (h * p) + 2 * p);
    if t % 2 == 0 {
        assert(t == 2 * h);
        assert(t * p == 2 * (h * p));
        assert((t + 1) * p == 2 * (h * p) + p);
    } else {
        assert(t == 2 * h + 1);
        assert(t * p == 2 * (h * p) + p);
        assert((t + 1) * p == 2 * (h * p) + 2 * p);
    }
}

/// An exact result may be written with a doubled significand at the next
/// lower exponent.
pub proof fn lemma_bracket_double(t: nat, x: nat, n: nat, d: nat)
    requires
        bracket(t, x, false, n, d),
        x > 0,
    ensures
        bracket(2 * t, (x - 1) as nat, false, n, d),
{
    lemma_scale((x - 1) as nat, d);
    let p = (pow2((x - 1) as nat) * d) as int;
    lemma_mul_parts(t as int, 0, p);
    lemma_mul_parts((2 * t) as int, 0, p);
}

/// A result below half a unit rounds to zero.
pub proof fn lemma_round_to_zero(e: nat, st: bool, n: nat, d: nat)
    requires
        bracket(0, e, st, n, d),
        st ==> e == 0,
    ensures
        nearest(n, d, 0),
{
    lemma2_to64();
    let p = (pow2(e) * d) as int;
    lemma_mul_parts(0, 0, p);
    lemma_mul_parts(0, 0, d as int);
    assert(grid(0) == 0);
    assert(grid(1) == 1);
    if e == 0 {
        assert(pow2(0) * d == d) by (nonlinear_arith)
            requires
                pow2(0) == 1,
        ;
    }
}

/// A result at or above `2^24 * 2^254` half units rounds to infinity.
pub proof fn lemma_round_to_infinity(t: nat, x: nat, st: bool, n: nat, d: nat)
    requires
        bracket(t, x, st, n, d),
        t >= 0x100_0000,
        x >= 254,
    ensures
        nearest(n, d, INFINITY_PATTERN as nat),
{
    let inf = INFINITY_PATTERN as nat;
    lemma_grid_pack(254, 0x80_0000);
    assert(inf == 254 * 0x80_0000 + 0x80_0000);
    let top = grid(inf);
    let below = grid((inf - 1) as nat);
    lemma_grid_increasing((inf - 1) as nat, inf);
    let q = pow2(254);
    let px = pow2(x);
    if x > 254 {
        lemma_pow2_strictly_increases(254, x);
    }
    lemma_pow2_pos(254);
    assert(top == 0x80_0000 * q);
    assert((below + top) * d <= t * (px * d)) by (nonlinear_arith)
        requires
            below < top,
            top == 0x80_0000 * q,
            0 < q <= px,
            t >= 0x100_0000,
            d > 0,
    ;
}

/// The last step of rounding: a significand of at most 25 bits, whose lowest
/// bit decides together with `st` and the parity of the pattern.
pub proof fn lemma_round_finish(t: nat, x: nat, st: bool, n: nat, d: nat)
    requires
        bracket(t, x, st, n, d),
        t < 0x200_0000,
        x == 0 || t >= 0x100_0000,
        x <= 253,
    ensures
        ({
            let k0 = x * 0x80_0000 + t / 2;
            let up = t % 2 == 1 && (st || k0 % 2 == 1);
            nearest(
                n,
                d,
                if up {
                    k0 + 1
                } else {
                    k0
                },
            )
        }),
{
    let m = t / 2;
    let k0 = x * 0x80_0000 + m;
    let up = t % 2 == 1 && (st || k0 % 2 == 1);
    lemma_grid_pack(x, m);
    lemma_grid_pack(x, m + 1);
    lemma_scale(x, d);
    let u = pow2(x) as int;
    let p = u * d;
    let g0 = grid(k0) as int;
    let g1 = grid(k0 + 1) as int;
    let a = g0 * d;
    lemma_mul_parts(m as int, 0, u);
    assert(g1 == g0 + u);
    lemma_mul_assoc(m as int, u, d as int);
    assert(a == m * p);
    lemma_mul_parts(m as int, 0, p);
    lemma_mul_parts(g0, u, d as int);
    lemma_mul_parts(g0, g0, d as int);
    assert((g0 + g1) * d == 2 * a + p) by {
        lemma_mul_parts(g0 + g0, u, d as int);
    }
    if t % 2 == 0 {
        assert(t == 2 * m);
        assert(t * p == 2 * a);
        assert((t + 1) * p == 2 * a + p);
    } else {
        assert(t == 2 * m + 1);
        assert(t * p == 2 * a + p);
        assert((t + 1) * p == 2 * a + 2 * p);
    }
    if up {
        let k = k0 + 1;
        if k < INFINITY_PATTERN {
            lemma_grid_step(k);
            let g2 = grid(k + 1) as int;
            assert((g1 + g2) * d > 2 * a + 2 * p) by (nonlinear_arith)
                requires
                    g2 > g1,
                    g1 == g0 + u,
                    a == g0 * d,
                    p == u * d,
                    d > 0,
            ;
        }
    } else {
        if k0 > 0 {
            lemma_grid_increasing((k0 - 1) as nat, k0);
            let gm = grid((k0 - 1) as nat) as int;
            assert((gm + g0) * d < 2 * a) by (nonlinear_arith)
                requires
                    gm < g0,
                    a == g0 * d,
                    d > 0,
            ;
        }
    }
}

/// Rounds twice the quantity `n / d`, known to lie in the cell
/// `[sig, sig + 1) * 2^e`, to the nearest magnitude pattern. A cell that is
/// not hit exactly must be narrow enough to decide: its significand has at
/// least 25 bits, or its exponent is 0.
pub(crate) fn round_pack(sig: u64, e: u32, inexact: bool, Ghost(n): Ghost<nat>, Ghost(d): Ghost<nat>) -> (k:
    u32)
    requires
        bracket(sig as nat, e as nat, inexact, n, d),
        e <= 1000,
        inexact ==> e == 0 || sig >= 0x100_0000,
    ensures
        nearest(n, d, k as nat),
        k <= INFINITY_PATTERN,
{
    if sig == 0 {
        proof {
            lemma_round_to_zero(e as nat, inexact, n, d);
        }
        return 0;
    }
    let mut t: u64 = sig;
    let mut x: u32 = e;
    let mut st: bool = inexact;
    let mut cut: u32 = 0;
    proof {
        lemma2_to64();
    }
    while t >= 0x200_0000
        invariant
            bracket(t as nat, x as nat, st, n, d),
            t >= 1,
            st ==> x == 0 || t >= 0x100_0000,
            x == e + cut,
            e <= 1000,
            cut <= 64,
            cut < 64 ==> t < pow2((64 - cut) as nat),
            cut == 64 ==> t < 1,
            cut > 0 ==> t >= 0x100_0000,
        decreases t,
    {
        proof {
            lemma_bracket_halve(t as nat, x as nat, st, n, d);
            lemma2_to64();
            if cut < 63 {
                lemma_pow2_unfold((64 - cut) as nat);
            }
        }
        st = st || t % 2 == 1;
        t = t / 2;
        x = x + 1;
        cut = cut + 1;
    }
    while t < 0x100_0000 && x > 0
        invariant
            bracket(t as nat, x as nat, st, n, d),
            1 <= t < 0x200_0000,
            st ==> x == 0 || t >= 0x100_0000,
        decreases x,
    {
        proof {
            lemma_bracket_double(t as nat, x as nat, n, d);
        }
        t = 2 * t;
        x = x - 1;
    }
    if x >= 254 {
        proof {
            lemma_round_to_infinity(t as nat, x as nat, st, n, d);
        }
        return INFINITY_PATTERN;
    }
    proof {
        lemma_round_finish(t as nat, x as nat, st, n, d);
    }
    let m: u32 = (t / 2) as u32;
    let k0: u32 = x * 0x80_0000 + m;
    if t % 2 == 1 && (st || k0 % 2 == 1) {
        k0 + 1
    } else {
        k0
    }
}

} // verus!
