//! Fixed-point arithmetic for the UCT selection heuristic.
//!
//! The UCT value of a child node is `wins / games + sqrt(2 * ln(parent) /
//! games)`.  Verus excludes floating point, so the heuristic is computed in
//! integer fixed point with 16 fractional bits: divisions scale by `FP`, the
//! square root is the integer square root, and the natural logarithm is
//! approximated as `ln(2)` times a piecewise-linear base-two logarithm.
//! Every function here is an exact implementation of its own mathematical
//! specification, so selection is a deterministic function of the node
//! statistics.

use vstd::prelude::*;

verus! {

use vstd::arithmetic::div_mod::lemma_div_is_ordered;
use vstd::arithmetic::mul::lemma_mul_inequality;

/// The fixed-point scale: values carry 16 fractional bits.
pub const FP: u64 = 65536;

/// `ln(2)` in fixed point: `round(ln(2) * 65536)`.
pub const LN2_FP: u64 = 45426;

/// The integer square root: the greatest `s` with `s * s <= x`.
pub open spec fn sqrt_floor(x: int) -> int
    decreases x,
{
    if x <= 0 {
        0
    } else {
        let s = sqrt_floor(x - 1);
        if (s + 1) * (s + 1) <= x {
            s + 1
        } else {
            s
        }
    }
}

/// `sqrt_floor(x)` is the unique `s >= 0` with `s * s <= x < (s+1) * (s+1)`.
pub proof fn lemma_sqrt_floor_bounds(x: int)
    requires
        0 <= x,
    ensures
        0 <= sqrt_floor(x),
        sqrt_floor(x) * sqrt_floor(x) <= x,
        x < (sqrt_floor(x) + 1) * (sqrt_floor(x) + 1),
    decreases x,
{
    if x > 0 {
        lemma_sqrt_floor_bounds(x - 1);
        let s = sqrt_floor(x - 1);
        if (s + 1) * (s + 1) <= x {
            assert(x < (s + 2) * (s + 2)) by (nonlinear_arith)
                requires
                    0 <= s,
                    x <= (s + 1) * (s + 1),
            ;
        }
    }
}

/// Two candidate integer square roots of the same value are equal.
pub proof fn lemma_sqrt_floor_unique(x: int, s: int)
    requires
        0 <= x,
        0 <= s,
        s * s <= x,
        x < (s + 1) * (s + 1),
    ensures
        s == sqrt_floor(x),
{
    lemma_sqrt_floor_bounds(x);
    let t = sqrt_floor(x);
    assert(s == t) by (nonlinear_arith)
        requires
            0 <= s,
            0 <= t,
            s * s <= x,
            x < (s + 1) * (s + 1),
            t * t <= x,
            x < (t + 1) * (t + 1),
    ;
}

/// The integer square root, by binary search.
pub fn isqrt(x: u64) -> (r: u64)
    ensures
        r == sqrt_floor(x as int),
{
    if x == 0 {
        proof {
            lemma_sqrt_floor_unique(0, 0);
        }
        return 0;
    }
    let mut lo: u64 = 0;
    let mut hi: u64 = 0x1_0000_0000;
    while hi - lo > 1
        invariant
            0 <= lo < hi <= 0x1_0000_0000,
            (lo as int) * (lo as int) <= x as int,
            (x as int) < (hi as int) * (hi as int),
        decreases hi - lo,
    {
        let mid = lo + (hi - lo) / 2;
        assert(lo < mid < hi);
        assert(mid as int * mid as int <= 0xffff_ffff * 0xffff_ffff) by (nonlinear_arith)
            requires
                0 <= mid as int <= 0xffff_ffff,
        ;
        if mid * mid <= x {
            lo = mid;
        } else {
            hi = mid;
        }
    }
    proof {
        assert(hi == lo + 1);
        lemma_sqrt_floor_unique(x as int, lo as int);
    }
    lo
}

/// The floor of the base-two logarithm.
pub open spec fn spec_log2_floor(n: int) -> int
    decreases n,
{
    if n < 2 {
        0
    } else {
        1 + spec_log2_floor(n / 2)
    }
}

/// Two raised to a nonnegative power.
pub open spec fn spec_pow2(k: int) -> int
    decreases k,
{
    if k <= 0 {
        1
    } else {
        2 * spec_pow2(k - 1)
    }
}

/// `spec_log2_floor` inverts `spec_pow2`: if `2^k <= n < 2^(k+1)` then the
/// floor of the logarithm is `k`.
pub proof fn lemma_log2_of_range(n: int, k: int)
    requires
        0 <= k,
        spec_pow2(k) <= n,
        n < 2 * spec_pow2(k),
    ensures
        spec_log2_floor(n) == k,
    decreases k,
{
    if k == 0 {
        assert(n == 1);
    } else {
        assert(spec_pow2(k) == 2 * spec_pow2(k - 1));
        assert(spec_pow2(k - 1) >= 1) by {
            lemma_pow2_pos(k - 1);
        }
        assert(n >= 2);
        assert(spec_pow2(k - 1) <= n / 2 && n / 2 < 2 * spec_pow2(k - 1)) by (nonlinear_arith)
            requires
                2 * spec_pow2(k - 1) <= n < 4 * spec_pow2(k - 1),
                spec_pow2(k - 1) >= 1,
        ;
        lemma_log2_of_range(n / 2, k - 1);
    }
}

/// Powers of two are positive.
pub proof fn lemma_pow2_pos(k: int)
    ensures
        spec_pow2(k) >= 1,
    decreases k,
{
    if k > 0 {
        lemma_pow2_pos(k - 1);
    }
}

/// The natural logarithm in fixed point, approximated as `ln(2)` times a
/// piecewise-linear base-two logarithm: for `2^k <= n < 2^(k+1)`,
/// `log2(n)` is taken as `k + (n - 2^k) / 2^k`.
pub open spec fn spec_ln_fp(n: int) -> int {
    let k = spec_log2_floor(n);
    let p = spec_pow2(k);
    (LN2_FP as int) * k + (LN2_FP as int) * ((n - p) * (FP as int) / p) / (FP as int)
}

/// Compute the fixed-point natural logarithm.
pub fn ln_fp(n: u64) -> (r: u64)
    requires
        1 <= n <= 0x1_0000_0000,
    ensures
        r == spec_ln_fp(n as int),
        r <= 33 * LN2_FP,
{
    let mut k: u64 = 0;
    let mut p: u64 = 1;
    while p * 2 <= n
        invariant
            1 <= n <= 0x1_0000_0000,
            p == spec_pow2(k as int),
            1 <= p <= n,
            k <= 32,
        decreases n - p,
    {
        proof {
            if k == 32 {
                lemma_pow2_33();
            }
        }
        p = p * 2;
        k = k + 1;
    }
    proof {
        lemma_log2_of_range(n as int, k as int);
    }
    let frac = (n - p) * FP / p;
    proof {
        assert((n - p) * FP < p * FP) by (nonlinear_arith)
            requires
                0 <= (n as int) - (p as int) < p as int,
                FP > 0,
        ;
        vstd::arithmetic::div_mod::lemma_multiply_divide_lt((n - p) as int * FP as int, p as int, FP as int);
        assert(frac < FP);
        assert(LN2_FP as int * (frac as int) / (FP as int) <= frac as int) by (nonlinear_arith)
            requires
                0 <= frac as int,
                LN2_FP == 45426,
                FP == 65536,
        ;
    }
    LN2_FP * k + LN2_FP * frac / FP
}

/// `2^33` written out, for the loop bound above.
proof fn lemma_pow2_33()
    ensures
        spec_pow2(32) == 0x1_0000_0000,
{
    assert(spec_pow2(32) == 0x1_0000_0000) by {
        reveal_with_fuel(spec_pow2, 33);
    }
}

/// The UCT heuristic of a child in fixed point: the exploitation ratio
/// `wins / games` plus the exploration bonus
/// `sqrt(2 * ln(parent_games) / games)`.
pub open spec fn spec_uct(wins: int, games: int, parent_games: int) -> int {
    wins * (FP as int) / games + sqrt_floor(2 * spec_ln_fp(parent_games) * (FP as int) / games)
}

/// Compute the UCT heuristic of a child.
pub fn uct(wins: u64, games: u64, parent_games: u64) -> (r: u64)
    requires
        1 <= games,
        wins <= 0x1_0000_0000,
        1 <= parent_games <= 0x1_0000_0000,
    ensures
        r == spec_uct(wins as int, games as int, parent_games as int),
{
    let exploit = wins * FP / games;
    let e = ln_fp(parent_games);
    let explore = isqrt(2 * e * FP / games);
    proof {
        lemma_div_is_ordered(0, wins as int * FP as int, games as int);
        assert(wins as int * FP as int <= 0x1_0000_0000 * 65536) by (nonlinear_arith)
            requires
                0 <= wins as int <= 0x1_0000_0000,
                FP == 65536,
        ;
        vstd::arithmetic::div_mod::lemma_div_nonincreasing(wins as int * FP as int, games as int);
        let arg = 2 * spec_ln_fp(parent_games as int) * (FP as int) / (games as int);
        vstd::arithmetic::div_mod::lemma_div_nonincreasing(
            2 * spec_ln_fp(parent_games as int) * (FP as int),
            games as int,
        );
        lemma_div_is_ordered(0, 2 * spec_ln_fp(parent_games as int) * (FP as int), games as int);
        lemma_sqrt_floor_bounds(arg);
        assert(sqrt_floor(arg) <= arg) by (nonlinear_arith)
            requires
                0 <= arg,
                0 <= sqrt_floor(arg),
                sqrt_floor(arg) * sqrt_floor(arg) <= arg,
        ;
    }
    exploit + explore
}

/// With equal play counts, a child with at least as many wins never has a
/// smaller UCT heuristic: the exploration bonus is identical, and the
/// exploitation ratio is monotone in the win count.
pub proof fn lemma_uct_monotone(w1: int, w2: int, games: int, parent_games: int)
    requires
        0 <= w1 <= w2,
        1 <= games,
    ensures
        spec_uct(w1, games, parent_games) <= spec_uct(w2, games, parent_games),
{
    lemma_mul_inequality(w1, w2, FP as int);
    lemma_div_is_ordered(w1 * FP, w2 * FP, games);
}

} // verus!
