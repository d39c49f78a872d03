//! The magnitudes that binary32 can represent, and what it means to round to
//! the nearest of them.
//!
//! A magnitude pattern is the low 31 bits of a binary32 number: eight bits of
//! exponent field above twenty-three bits of fraction. Read as a natural
//! number, the patterns `0 ..= INFINITY_PATTERN` enumerate the representable
//! magnitudes in increasing order, which is what makes rounding easy to state.
use vstd::prelude::*;
use vstd::arithmetic::power2::{pow2, lemma_pow2_pos, lemma_pow2_unfold, lemma2_to64};

verus! {

/// The pattern of infinity: exponent field 255, fraction 0.
pub const INFINITY_PATTERN: u32 = 0x7f80_0000;

/// The magnitude that pattern `k` stands for, in units of `2^-149`.
///
/// Patterns below `2^23` are subnormal and count units directly. Above that
/// the significand `2^23 + fraction` is scaled by the exponent field. The
/// formula is extended to the pattern of infinity, where it gives `2^277`: the
/// magnitude that the next binade would start with.
pub open spec fn grid(k: nat) -> nat {
    if k < 0x80_0000 {
        k
    } else {
        (0x80_0000 + k % 0x80_0000) * pow2((k / 0x80_0000 - 1) as nat)
    }
}

/// The distance from `grid(k)` up to `grid(k + 1)`.
pub open spec fn ulp(k: nat) -> nat {
    if k < 0x100_0000 {
        1
    } else {
        pow2((k / 0x80_0000 - 1) as nat)
    }
}

/// `k` is the pattern nearest to the rational `n / d`, ties going to the even
/// pattern. The two neighbouring midpoints bound `n / d`; they are excluded
/// when `k` is odd. Above the largest finite magnitude the pattern of
/// infinity takes the place of the next representable value.
pub open spec fn nearest(n: nat, d: nat, k: nat) -> bool {
    &&& k <= INFINITY_PATTERN
    &&& k > 0 ==> if k % 2 == 0 {
        (grid((k - 1) as nat) + grid(k)) * d <= 2 * n
    } else {
        (grid((k - 1) as nat) + grid(k)) * d < 2 * n
    }
    &&& k < INFINITY_PATTERN ==> if k % 2 == 0 {
        2 * n <= (grid(k) + grid(k + 1)) * d
    } else {
        2 * n < (grid(k) + grid(k + 1)) * d
    }
}

/// The pattern that `n / d` rounds to.
pub open spec fn round(n: nat, d: nat) -> nat {
    choose|k: nat| nearest(n, d, k)
}

/// `k` is the pattern nearest to the square root of `n`, ties going to the
/// even pattern.
pub open spec fn nearest_root(n: nat, k: nat) -> bool {
    &&& k <= INFINITY_PATTERN
    &&& k > 0 ==> if k % 2 == 0 {
        (grid((k - 1) as nat) + grid(k)) * (grid((k - 1) as nat) + grid(k)) <= 4 * n
    } else {
        (grid((k - 1) as nat) + grid(k)) * (grid((k - 1) as nat) + grid(k)) < 4 * n
    }
    &&& k < INFINITY_PATTERN ==> if k % 2 == 0 {
        4 * n <= (grid(k) + grid(k + 1)) * (grid(k) + grid(k + 1))
    } else {
        4 * n < (grid(k) + grid(k + 1)) * (grid(k) + grid(k + 1))
    }
}

/// The pattern that the square root of `n` rounds to.
pub open spec fn round_root(n: nat) -> nat {
    choose|k: nat| nearest_root(n, k)
}

/// A significand `m` at exponent `e` sits at pattern `e * 2^23 + m`. The
/// significand may be subnormal (only at exponent 0) or may have carried to
/// `2^24`.
pub proof fn lemma_grid_pack(e: nat, m: nat)
    requires
        m <= 0x100_0000,
        e == 0 || m >= 0x80_0000,
    ensures
        grid(e * 0x80_0000 + m) == m * pow2(e),
{
    let k = e * 0x80_0000 + m;
    lemma2_to64();
    if m < 0x80_0000 {
        assert(k == m);
        assert(m * pow2(0) == m);
    } else if m < 0x100_0000 {
        assert(k / 0x80_0000 == e + 1);
        assert(k % 0x80_0000 == m - 0x80_0000);
    } else {
        assert(k / 0x80_0000 == e + 2);
        assert(k % 0x80_0000 == 0);
        lemma_pow2_unfold(e + 1);
        let p = pow2(e);
        assert(0x80_0000 * (2 * p) == 0x100_0000 * p) by (nonlinear_arith);
    }
}

/// Every pattern splits into an exponent and a significand.
pub open spec fn exponent_of(k: nat) -> nat {
    if k < 0x100_0000 {
        0
    } else {
        (k / 0x80_0000 - 1) as nat
    }
}

/// The significand of pattern `k`, hidden bit included.
pub open spec fn significand_of(k: nat) -> nat {
    if k < 0x80_0000 {
        k
    } else {
        0x80_0000 + k % 0x80_0000
    }
}

/// Splitting a pattern and packing it again gives the pattern back.
pub proof fn lemma_grid_split(k: nat)
    ensures
        k == exponent_of(k) * 0x80_0000 + significand_of(k),
        significand_of(k) < 0x100_0000,
        exponent_of(k) == 0 || significand_of(k) >= 0x80_0000,
        grid(k) == significand_of(k) * pow2(exponent_of(k)),
        ulp(k) == pow2(exponent_of(k)),
        ulp(k) > 0,
{
    lemma2_to64();
    lemma_pow2_pos(exponent_of(k));
    lemma_grid_pack(exponent_of(k), significand_of(k));
}

/// One pattern up is one unit in the last place up.
pub proof fn lemma_grid_step(k: nat)
    ensures
        grid(k + 1) == grid(k) + ulp(k),
        ulp(k) > 0,
{
    lemma_grid_split(k);
    let e = exponent_of(k);
    let m = significand_of(k);
    lemma_grid_pack(e, m + 1);
    let p = pow2(e);
    assert((m + 1) * p == m * p + p) by (nonlinear_arith);
}

/// The magnitudes increase with the pattern.
pub proof fn lemma_grid_increasing(j: nat, k: nat)
    requires
        j < k,
    ensures
        grid(j) < grid(k),
    decreases k - j,
{
    lemma_grid_step(j);
    if j + 1 < k {
        lemma_grid_increasing(j + 1, k);
    }
}

/// The magnitudes never decrease with the pattern.
pub proof fn lemma_grid_monotone(j: nat, k: nat)
    requires
        j <= k,
    ensures
        grid(j) <= grid(k),
{
    if j < k {
        lemma_grid_increasing(j, k);
    }
}

/// At most one pattern is nearest to a given rational.
pub proof fn lemma_nearest_unique(n: nat, d: nat, j: nat, k: nat)
    requires
        d > 0,
        nearest(n, d, j),
        nearest(n, d, k),
    ensures
        j == k,
{
    if j < k {
        lemma_nearest_ordered(n, d, j, k);
    } else if k < j {
        lemma_nearest_ordered(n, d, k, j);
    }
}

proof fn lemma_nearest_ordered(n: nat, d: nat, j: nat, k: nat)
    requires
        d > 0,
        j <= k,
        nearest(n, d, j),
        nearest(n, d, k),
    ensures
        j == k,
{
    if j < k {
        let lo = grid(j) + grid(j + 1);
        let hi = grid((k - 1) as nat) + grid(k);
        lemma_grid_monotone(j, (k - 1) as nat);
        lemma_grid_monotone(j + 1, k);
        assert(lo * d <= hi * d) by (nonlinear_arith)
            requires
                lo <= hi,
                d > 0,
        ;
        assert(lo == hi) by (nonlinear_arith)
            requires
                lo <= hi,
                d > 0,
                hi * d <= lo * d,
        ;
        if j + 1 < k {
            lemma_grid_increasing(j + 1, k);
        }
    }
}

/// The rounding of `n / d` is whichever pattern is shown to be nearest.
pub proof fn lemma_round_is(n: nat, d: nat, k: nat)
    requires
        d > 0,
        nearest(n, d, k),
    ensures
        round(n, d) == k,
{
    lemma_nearest_unique(n, d, round(n, d), k);
}

/// A representable magnitude rounds to itself.
pub proof fn lemma_nearest_exact(k: nat, d: nat)
    requires
        k <= INFINITY_PATTERN,
        d > 0,
    ensures
        nearest(grid(k) * d, d, k),
        round(grid(k) * d, d) == k,
{
    let g = grid(k);
    lemma_grid_step(k);
    let up = grid(k + 1);
    assert(2 * (g * d) < (g + up) * d) by (nonlinear_arith)
        requires
            g < up,
            d > 0,
    ;
    if k > 0 {
        let down = grid((k - 1) as nat);
        lemma_grid_step((k - 1) as nat);
        assert((down + g) * d < 2 * (g * d)) by (nonlinear_arith)
            requires
                down < g,
                d > 0,
        ;
    }
    lemma_round_is(g * d, d, k);
}

/// At most one pattern is nearest to a given square root.
pub proof fn lemma_nearest_root_unique(n: nat, j: nat, k: nat)
    requires
        nearest_root(n, j),
        nearest_root(n, k),
    ensures
        j == k,
{
    if j < k {
        lemma_nearest_root_ordered(n, j, k);
    } else if k < j {
        lemma_nearest_root_ordered(n, k, j);
    }
}

proof fn lemma_nearest_root_ordered(n: nat, j: nat, k: nat)
    requires
        j <= k,
        nearest_root(n, j),
        nearest_root(n, k),
    ensures
        j == k,
{
    if j < k {
        let lo = grid(j) + grid(j + 1);
        let hi = grid((k - 1) as nat) + grid(k);
        lemma_grid_monotone(j, (k - 1) as nat);
        lemma_grid_monotone(j + 1, k);
        assert(lo == hi) by (nonlinear_arith)
            requires
                0 <= lo <= hi,
                hi * hi <= lo * lo,
        ;
        if j + 1 < k {
            lemma_grid_increasing(j + 1, k);
        }
    }
}

/// The rounding of a square root is whichever pattern is shown to be nearest.
pub proof fn lemma_round_root_is(n: nat, k: nat)
    requires
        nearest_root(n, k),
    ensures
        round_root(n) == k,
{
    lemma_nearest_root_unique(n, round_root(n), k);
}

proof fn lemma_nearest_from(n: nat, d: nat, k: nat)
    requires
        d > 0,
        k <= INFINITY_PATTERN,
        k > 0 ==> if k % 2 == 0 {
            (grid((k - 1) as nat) + grid(k)) * d <= 2 * n
        } else {
            (grid((k - 1) as nat) + grid(k)) * d < 2 * n
        },
    ensures
        exists|j: nat| nearest(n, d, j),
    decreases INFINITY_PATTERN - k,
{
    if k == INFINITY_PATTERN {
        assert(nearest(n, d, k));
    } else {
        let below_upper = if k % 2 == 0 {
            2 * n <= (grid(k) + grid(k + 1)) * d
        } else {
            2 * n < (grid(k) + grid(k + 1)) * d
        };
        if below_upper {
            assert(nearest(n, d, k));
        } else {
            lemma_nearest_from(n, d, k + 1);
        }
    }
}

/// Every rational that is not negative has a nearest pattern, and `round`
/// names it.
pub proof fn lemma_round_nearest(n: nat, d: nat)
    requires
        d > 0,
    ensures
        nearest(n, d, round(n, d)),
        round(n, d) <= INFINITY_PATTERN,
{
    lemma_nearest_from(n, d, 0);
}

proof fn lemma_nearest_root_from(n: nat, k: nat)
    requires
        k <= INFINITY_PATTERN,
        k > 0 ==> if k % 2 == 0 {
            (grid((k - 1) as nat) + grid(k)) * (grid((k - 1) as nat) + grid(k)) <= 4 * n
        } else {
            (grid((k - 1) as nat) + grid(k)) * (grid((k - 1) as nat) + grid(k)) < 4 * n
        },
    ensures
        exists|j: nat| nearest_root(n, j),
    decreases INFINITY_PATTERN - k,
{
    if k == INFINITY_PATTERN {
        assert(nearest_root(n, k));
    } else {
        let below_upper = if k % 2 == 0 {
            4 * n <= (grid(k) + grid(k + 1)) * (grid(k) + grid(k + 1))
        } else {
            4 * n < (grid(k) + grid(k + 1)) * (grid(k) + grid(k + 1))
        };
        if below_upper {
            assert(nearest_root(n, k));
        } else {
            lemma_nearest_root_from(n, k + 1);
        }
    }
}

/// Every square root has a nearest pattern, and `round_root` names it.
pub proof fn lemma_round_root_nearest(n: nat)
    ensures
        nearest_root(n, round_root(n)),
        round_root(n) <= INFINITY_PATTERN,
{
    lemma_nearest_root_from(n, 0);
}

} // verus!
