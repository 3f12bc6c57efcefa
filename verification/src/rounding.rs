//! Rounding to the nearest single-precision number.
//!
//! The numbers of the format are spaced unevenly, but their bit patterns are
//! not: the pattern after a magnitude's pattern holds the next larger
//! magnitude, from zero up to infinity. Rounding a value is therefore a
//! matter of finding the pattern at or below it and deciding between that
//! pattern and the next.

use crate::scalar::{lemma_magnitude_units_increase, magnitude_units, HIDDEN_BIT, INFINITY_BITS};
use vstd::arithmetic::div_mod::{
    lemma_div_denominator, lemma_fundamental_div_mod, lemma_mod_bound, lemma_small_div_converse,
};
use vstd::arithmetic::power2::{
    lemma2_to64, lemma_pow2_adds, lemma_pow2_pos, lemma_pow2_strictly_increases,
    lemma_pow2_unfold, pow2,
};
use vstd::bits::{lemma_u64_pow2_no_overflow, lemma_u64_shl_is_mul};
use vstd::prelude::*;

verus! {

/// Whether `lo` is the pattern at or below the value `num / den`, counted
/// in units of 2^-149: the largest magnitude pattern, up to that of
/// infinity, whose number is not above the value.
pub open spec fn is_floor(num: nat, den: nat, lo: nat) -> bool {
    &&& lo <= INFINITY_BITS
    &&& magnitude_units(lo) * den <= num
    &&& lo < INFINITY_BITS ==> num < magnitude_units(lo + 1) * den
}

/// The pattern at or below the value `num / den`.
pub open spec fn floor_of(num: nat, den: nat) -> nat {
    choose|lo: nat| is_floor(num, den, lo)
}

/// The magnitude pattern nearest to the value `num / den`, counted in units
/// of 2^-149. Halfway between two patterns the even one is taken. A value
/// that is nearer to 2^128 than to the largest finite number, or halfway,
/// comes to infinity.
pub open spec fn nearest(num: nat, den: nat) -> nat {
    let lo = floor_of(num, den);
    if lo >= INFINITY_BITS {
        INFINITY_BITS as nat
    } else {
        let middle = (magnitude_units(lo) + magnitude_units(lo + 1)) * den;
        if 2 * num < middle || (2 * num == middle && lo % 2 == 0) {
            lo
        } else {
            lo + 1
        }
    }
}

/// There is one pattern at or below a value.
pub proof fn lemma_floor_is_unique(num: nat, den: nat, lo: nat)
    requires
        den > 0,
        is_floor(num, den, lo),
    ensures
        floor_of(num, den) == lo,
{
    let other = floor_of(num, den);
    assert(is_floor(num, den, other));
    if other < lo {
        if other + 1 < lo {
            lemma_magnitude_units_increase(other + 1, lo);
        }
        assert(magnitude_units(other + 1) * den <= magnitude_units(lo) * den) by (nonlinear_arith)
            requires
                magnitude_units(other + 1) <= magnitude_units(lo),
        ;
    }
    if lo < other {
        if lo + 1 < other {
            lemma_magnitude_units_increase(lo + 1, other);
        }
        assert(magnitude_units(lo + 1) * den <= magnitude_units(other) * den) by (nonlinear_arith)
            requires
                magnitude_units(lo + 1) <= magnitude_units(other),
        ;
    }
}

/// A number of the format rounds to itself.
pub proof fn lemma_numbers_round_to_themselves(pattern: nat)
    requires
        pattern <= INFINITY_BITS,
    ensures
        nearest(magnitude_units(pattern), 1) == pattern,
{
    let units = magnitude_units(pattern);
    lemma_magnitude_units_increase(pattern, pattern + 1);
    assert(is_floor(units, 1, pattern));
    lemma_floor_is_unique(units, 1, pattern);
}

/// Every value has a pattern at or below it.
pub proof fn lemma_floor_exists(num: nat, den: nat)
    requires
        den > 0,
    ensures
        is_floor(num, den, floor_of(num, den)),
{
    assert(magnitude_units(0) == 0);
    assert(magnitude_units(0) * den == 0) by (nonlinear_arith)
        requires
            magnitude_units(0) == 0,
    ;
    lemma_floor_search(num, den, 0);
}

/// Walking up from a pattern that is not above the value comes to the
/// pattern at or below it.
proof fn lemma_floor_search(num: nat, den: nat, from: nat)
    requires
        den > 0,
        from <= INFINITY_BITS,
        magnitude_units(from) * den <= num,
    ensures
        is_floor(num, den, floor_of(num, den)),
    decreases INFINITY_BITS - from,
{
    if from == INFINITY_BITS || num < magnitude_units(from + 1) * den {
        assert(is_floor(num, den, from));
    } else {
        lemma_floor_search(num, den, from + 1);
    }
}

/// Rounding looks at the value only: two fractions of one value round to
/// one pattern.
pub proof fn lemma_nearest_of_equal_values(n1: nat, d1: nat, n2: nat, d2: nat)
    requires
        d1 > 0,
        d2 > 0,
        n1 * d2 == n2 * d1,
    ensures
        nearest(n1, d1) == nearest(n2, d2),
{
    lemma_floor_exists(n2, d2);
    let lo = floor_of(n2, d2);
    let below = magnitude_units(lo);
    let above = magnitude_units(lo + 1);
    assert(below * d1 <= n1) by (nonlinear_arith)
        requires
            below * d2 <= n2,
            n1 * d2 == n2 * d1,
            d1 > 0,
            d2 > 0,
    ;
    if lo < INFINITY_BITS {
        assert(n1 < above * d1) by (nonlinear_arith)
            requires
                n2 < above * d2,
                n1 * d2 == n2 * d1,
                d1 > 0,
                d2 > 0,
        ;
        assert(2 * n1 < (below + above) * d1 <==> 2 * n2 < (below + above) * d2)
            by (nonlinear_arith)
            requires
                n1 * d2 == n2 * d1,
                d1 > 0,
                d2 > 0,
        ;
        assert(2 * n1 == (below + above) * d1 <==> 2 * n2 == (below + above) * d2)
            by (nonlinear_arith)
            requires
                n1 * d2 == n2 * d1,
                d1 > 0,
                d2 > 0,
        ;
    }
    assert(is_floor(n1, d1, lo));
    lemma_floor_is_unique(n1, d1, lo);
}

/// Whether `lo` is the pattern at or below the square root of `n`, counted
/// in units of 2^-149.
pub open spec fn is_root_floor(n: nat, lo: nat) -> bool {
    &&& lo <= INFINITY_BITS
    &&& magnitude_units(lo) * magnitude_units(lo) <= n
    &&& lo < INFINITY_BITS ==> n < magnitude_units(lo + 1) * magnitude_units(lo + 1)
}

/// The pattern at or below the square root of `n`.
pub open spec fn root_floor_of(n: nat) -> nat {
    choose|lo: nat| is_root_floor(n, lo)
}

/// The magnitude pattern nearest to the square root of `n`, counted in
/// units of 2^-149. Halfway between two patterns the even one is taken.
pub open spec fn nearest_root(n: nat) -> nat {
    let lo = root_floor_of(n);
    if lo >= INFINITY_BITS {
        INFINITY_BITS as nat
    } else {
        let middle = magnitude_units(lo) + magnitude_units(lo + 1);
        if 4 * n < middle * middle || (4 * n == middle * middle && lo % 2 == 0) {
            lo
        } else {
            lo + 1
        }
    }
}

/// Of two numbers that are not negative, the larger has the larger square.
proof fn lemma_squares_increase(a: nat, b: nat)
    by (nonlinear_arith)
    requires
        a <= b,
    ensures
        a * a <= b * b,
        a < b ==> a * a < b * b,
{
}

/// There is one pattern at or below a square root.
pub proof fn lemma_root_floor_is_unique(n: nat, lo: nat)
    requires
        is_root_floor(n, lo),
    ensures
        root_floor_of(n) == lo,
{
    let other = root_floor_of(n);
    assert(is_root_floor(n, other));
    if other < lo {
        if other + 1 < lo {
            lemma_magnitude_units_increase(other + 1, lo);
        }
        lemma_squares_increase(magnitude_units(other + 1), magnitude_units(lo));
    }
    if lo < other {
        if lo + 1 < other {
            lemma_magnitude_units_increase(lo + 1, other);
        }
        lemma_squares_increase(magnitude_units(lo + 1), magnitude_units(other));
    }
}

/// The pattern made of a grid exponent and a count of grid steps.
pub open spec fn grid_pattern(g: nat, q: nat) -> nat {
    g * (HIDDEN_BIT as nat) + q
}

/// The pattern made of a grid exponent `g` and a count `q` of grid steps
/// denotes `q` steps of 2^g units. The count may reach 2^24, where the
/// pattern runs over into the next exponent.
pub proof fn lemma_grid_units(g: nat, q: nat)
    requires
        q <= 0x100_0000,
        g == 0 || q >= HIDDEN_BIT,
    ensures
        magnitude_units(grid_pattern(g, q)) == q * pow2(g),
{
    let h: nat = HIDDEN_BIT as nat;
    let pattern = g * h + q;
    vstd::arithmetic::power2::lemma2_to64();
    if q < h {
        assert(pattern == q);
        assert(pattern / h == 0 && pattern % h == q);
        assert(q * pow2(0) == q);
    } else if q < 2 * h {
        assert(pattern == h * (g + 1) + (q - h));
        assert(pattern / h == g + 1 && pattern % h == q - h) by {
            vstd::arithmetic::div_mod::lemma_fundamental_div_mod_converse(
                pattern as int,
                h as int,
                (g + 1) as int,
                (q - h) as int,
            );
        }
    } else {
        assert(pattern == h * (g + 2) + 0);
        assert(pattern / h == g + 2 && pattern % h == 0) by {
            vstd::arithmetic::div_mod::lemma_fundamental_div_mod_converse(
                pattern as int,
                h as int,
                (g + 2) as int,
                0,
            );
        }
        lemma_pow2_unfold(g + 1);
        assert(h * (2 * pow2(g)) == (2 * h) * pow2(g)) by (nonlinear_arith);
    }
}

/// Rounding, once the value is known to lie `q` steps of 2^g units up, and
/// less than one step further.
pub proof fn lemma_nearest_from_grid(num: nat, den: nat, g: nat, q: nat)
    requires
        den > 0,
        q < 0x100_0000,
        g == 0 || q >= HIDDEN_BIT,
        q * (pow2(g) * den) <= num < (q + 1) * (pow2(g) * den),
    ensures
        nearest(num, den) == ({
            let lo = grid_pattern(g, q);
            let step = pow2(g) * den;
            if lo >= INFINITY_BITS {
                INFINITY_BITS as nat
            } else if 2 * num < (2 * q + 1) * step || (2 * num == (2 * q + 1) * step && q % 2
                == 0) {
                lo
            } else {
                (lo + 1) as nat
            }
        }),
{
    let h: nat = HIDDEN_BIT as nat;
    let lo = grid_pattern(g, q);
    let step = pow2(g) * den;
    let grid = pow2(g);
    lemma_pow2_pos(g);
    lemma_grid_units(g, q);
    lemma_grid_units(g, q + 1);
    assert(lo + 1 == grid_pattern(g, q + 1));
    assert(magnitude_units(lo) * den == q * step) by (nonlinear_arith)
        requires
            magnitude_units(lo) == q * grid,
            step == grid * den,
    ;
    assert(magnitude_units(lo + 1) * den == (q + 1) * step) by (nonlinear_arith)
        requires
            magnitude_units(lo + 1) == (q + 1) * grid,
            step == grid * den,
    ;
    if lo >= INFINITY_BITS {
        let inf: nat = INFINITY_BITS as nat;
        if lo > inf {
            lemma_magnitude_units_increase(inf, lo);
        }
        assert(magnitude_units(inf) * den <= magnitude_units(lo) * den) by (nonlinear_arith)
            requires
                magnitude_units(inf) <= magnitude_units(lo),
        ;
        assert(is_floor(num, den, inf));
        lemma_floor_is_unique(num, den, inf);
    } else {
        assert(is_floor(num, den, lo));
        lemma_floor_is_unique(num, den, lo);
        assert((magnitude_units(lo) + magnitude_units(lo + 1)) * den == (2 * q + 1) * step)
            by (nonlinear_arith)
            requires
                magnitude_units(lo) * den == q * step,
                magnitude_units(lo + 1) * den == (q + 1) * step,
        ;
        assert(lo % 2 == q % 2) by {
            assert(lo == 2 * (g * 0x40_0000) + q);
        }
    }
}

/// Rounding a square root, once it is known to lie `q` steps of 2^g units
/// up, and less than one step further.
pub proof fn lemma_root_from_grid(n: nat, g: nat, q: nat)
    requires
        q < 0x100_0000,
        g == 0 || q >= HIDDEN_BIT,
        (q * pow2(g)) * (q * pow2(g)) <= n < ((q + 1) * pow2(g)) * ((q + 1) * pow2(g)),
        grid_pattern(g, q) < INFINITY_BITS,
    ensures
        nearest_root(n) == ({
            let lo = grid_pattern(g, q);
            let middle = (2 * q + 1) * pow2(g);
            if 4 * n < middle * middle || (4 * n == middle * middle && q % 2 == 0) {
                lo
            } else {
                (lo + 1) as nat
            }
        }),
{
    let lo = grid_pattern(g, q);
    let grid = pow2(g);
    lemma_grid_units(g, q);
    lemma_grid_units(g, q + 1);
    assert(lo + 1 == grid_pattern(g, q + 1));
    assert(is_root_floor(n, lo));
    lemma_root_floor_is_unique(n, lo);
    assert(magnitude_units(lo) + magnitude_units(lo + 1) == (2 * q + 1) * grid)
        by (nonlinear_arith)
        requires
            magnitude_units(lo) == q * grid,
            magnitude_units(lo + 1) == (q + 1) * grid,
    ;
    assert(lo % 2 == q % 2) by {
        assert(lo == 2 * (g * 0x40_0000) + q);
    }
}

/// A smaller exponent gives a power of two that is not larger.
proof fn lemma_pow2_increases(a: nat, b: nat)
    requires
        a <= b,
    ensures
        pow2(a) <= pow2(b),
{
    if a < b {
        lemma_pow2_strictly_increases(a, b);
    }
}

/// What cutting `p` into `q` whole steps of `s` and a rest says of `p`
/// scaled by `u`: where it lies among the steps of `s * u`, and on which
/// side of the middle of its step.
proof fn lemma_scaled_steps(p: nat, q: nat, rest: nat, s: nat, u: nat)
    by (nonlinear_arith)
    requires
        p == q * s + rest,
        rest < s,
        u > 0,
    ensures
        q * (s * u) <= p * u < (q + 1) * (s * u),
        2 * (p * u) < (2 * q + 1) * (s * u) <==> 2 * rest < s,
        2 * (p * u) == (2 * q + 1) * (s * u) <==> 2 * rest == s,
{
    assert(p * u == q * (s * u) + rest * u);
    assert((q + 1) * (s * u) == q * (s * u) + s * u);
    assert((2 * q + 1) * (s * u) == 2 * (q * (s * u)) + s * u);
    assert(rest * u < s * u);
    assert(2 * rest < s ==> 2 * (rest * u) < s * u);
    assert(2 * rest > s ==> 2 * (rest * u) > s * u);
    assert(2 * rest == s ==> 2 * (rest * u) == s * u);
}

/// What cutting `p` into `q` whole steps of `s` and a rest says of a value
/// that lies strictly between `p` and `p + 1`, both scaled by `w` as the
/// value is: where it lies among the steps of `s * w`, and on which side
/// of the middle of its step.
proof fn lemma_inexact_steps(
    p: nat,
    q: nat,
    rest: nat,
    s: nat,
    half: nat,
    w: nat,
    value: nat,
)
    by (nonlinear_arith)
    requires
        p == q * s + rest,
        rest < s,
        s == 2 * half,
        p * w < value < (p + 1) * w,
    ensures
        q * (s * w) < value < (q + 1) * (s * w),
        rest >= half ==> 2 * value > (2 * q + 1) * (s * w),
        rest < half ==> 2 * value < (2 * q + 1) * (s * w),
{
    assert(w > 0);
    assert(q * (s * w) == (q * s) * w);
    assert((q * s) * w <= p * w);
    assert((q + 1) * (s * w) == (q * s + s) * w);
    assert((p + 1) * w <= (q * s + s) * w);
    assert((2 * q + 1) * (s * w) == 2 * ((q * s + half) * w));
    assert(rest >= half ==> (q * s + half) * w <= p * w);
    assert(rest < half ==> (p + 1) * w <= (q * s + half) * w);
}

/// 2 to the power of `e`.
pub(crate) fn power_of_two(e: u32) -> (r: u64)
    requires
        e < 64,
    ensures
        r == pow2(e as nat),
{
    proof {
        lemma_u64_pow2_no_overflow(e as nat);
        lemma_u64_shl_is_mul(1, e as u64);
    }
    1u64 << (e as u64)
}

/// The number of binary digits of `p`.
pub(crate) fn bit_length(p: u64) -> (len: u32)
    ensures
        len <= 64,
        p < pow2(len as nat),
        len > 0 ==> pow2((len - 1) as nat) <= p,
        len == 0 <==> p == 0,
{
    let mut len: u32 = 0;
    let mut rest: u64 = p;
    proof {
        lemma2_to64();
    }
    while rest > 0
        invariant
            len <= 64,
            rest == p as nat / pow2(len as nat),
            len > 0 ==> pow2((len - 1) as nat) <= p,
            len == 0 ==> rest == p,
        decreases rest,
    {
        proof {
            let d = pow2(len as nat) as int;
            lemma_pow2_pos(len as nat);
            lemma_pow2_unfold((len + 1) as nat);
            lemma_div_denominator(p as int, d, 2);
            lemma_fundamental_div_mod(p as int, d);
            lemma_mod_bound(p as int, d);
            assert(d <= p) by (nonlinear_arith)
                requires
                    p == d * (p as int / d) + (p as int % d),
                    p as int / d >= 1,
                    p as int % d >= 0,
                    d > 0,
            ;
            assert(d * 2 == pow2((len + 1) as nat));
            if len >= 64 {
                lemma2_to64();
                vstd::arithmetic::div_mod::lemma_basic_div(p as int, d);
            }
        }
        rest = rest / 2;
        len = len + 1;
    }
    proof {
        lemma_pow2_pos(len as nat);
        lemma_small_div_converse(p as int, pow2(len as nat) as int);
        if len > 0 {
            lemma_pow2_pos((len - 1) as nat);
        }
    }
    len
}

/// Rounds `p * 2^up / 2^down`, counted in units of 2^-149, to the nearest
/// magnitude pattern.
#[verifier::rlimit(50)]
pub(crate) fn round_scaled(p: u64, up: u32, down: u32) -> (pattern: u32)
    requires
        p < 0x4000_0000_0000_0000,
        up <= 1000,
        down <= 1000,
    ensures
        pattern == nearest(p as nat * pow2(up as nat), pow2(down as nat)),
        pattern <= INFINITY_BITS,
{
    let ghost num: nat = p as nat * pow2(up as nat);
    let ghost den: nat = pow2(down as nat);
    let ghost u: nat = pow2(up as nat);
    proof {
        lemma2_to64();
        vstd::arithmetic::power2::lemma2_to64_rest();
        lemma_pow2_pos(up as nat);
        lemma_pow2_pos(down as nat);
    }
    if p == 0 {
        proof {
            assert(num == 0) by (nonlinear_arith)
                requires
                    num == p * u,
                    p == 0,
            ;
            assert(0 * (pow2(0) * den) <= num < (0 + 1) * (pow2(0) * den)) by (nonlinear_arith)
                requires
                    num == 0,
                    den > 0,
                    pow2(0) == 1,
            ;
            lemma_nearest_from_grid(num, den, 0, 0);
            assert((2 * 0 + 1) * (pow2(0) * den) > 0) by (nonlinear_arith)
                requires
                    den > 0,
                    pow2(0) == 1,
            ;
        }
        return 0;
    }
    let len: u32 = bit_length(p);
    proof {
        if len > 62 {
            lemma_pow2_increases(62, (len - 1) as nat);
        }
    }
    // The grid on which the value is rounded: steps of 2^g units.
    let g: u32 = if len + up > down + 24 {
        len + up - down - 24
    } else {
        0
    };
    if g >= 254 {
        proof {
            // The value is at least 2^(len - 1 + up - down) units, which is
            // at least the 2^277 units of infinity.
            let inf: nat = INFINITY_BITS as nat;
            lemma_grid_units(254, 0x80_0000);
            assert(grid_pattern(254, 0x80_0000) == inf);
            lemma_pow2_adds(23, 254);
            lemma_pow2_adds(277, down as nat);
            lemma_pow2_adds((len - 1) as nat, up as nat);
            lemma_pow2_increases((277 + down) as nat, (len - 1 + up) as nat);
            assert(magnitude_units(inf) * den <= num) by (nonlinear_arith)
                requires
                    magnitude_units(inf) == 0x80_0000 * pow2(254),
                    pow2(277) == pow2(23) * pow2(254),
                    pow2(23) == 0x80_0000,
                    pow2((277 + down) as nat) == pow2(277) * den,
                    pow2((len - 1 + up) as nat) == pow2((len - 1) as nat) * u,
                    pow2((277 + down) as nat) <= pow2((len - 1 + up) as nat),
                    pow2((len - 1) as nat) <= p,
                    num == p * u,
            ;
            assert(is_floor(num, den, inf));
            lemma_floor_is_unique(num, den, inf);
        }
        return INFINITY_BITS;
    }
    // The value in steps of the grid is `p`, shifted to the right or to the
    // left.
    let right: u32 = if g > 0 {
        if len > 24 {
            len - 24
        } else {
            0
        }
    } else if down > up {
        down - up
    } else {
        0
    };
    let left: u32 = if g > 0 {
        if len > 24 {
            0
        } else {
            24 - len
        }
    } else if down > up {
        0
    } else {
        up - down
    };
    assert(g + down + left == up + right);
    assert(right == 0 || left == 0);
    assert(len + left <= 24 + right);
    assert(g > 0 ==> len + left == 24 + right);
    if right > 63 {
        proof {
            // Less than a quarter of a unit.
            assert(g == 0 && left == 0);
            lemma_pow2_adds(62, up as nat);
            lemma_pow2_adds(2, (62 + up) as nat);
            lemma_pow2_increases((64 + up) as nat, down as nat);
            assert(4 * num < den) by (nonlinear_arith)
                requires
                    num == p * u,
                    p < pow2(62),
                    u > 0,
                    pow2((62 + up) as nat) == pow2(62) * u,
                    pow2((64 + up) as nat) == 4 * pow2((62 + up) as nat),
                    pow2((64 + up) as nat) <= den,
            ;
            assert(0 * (pow2(0) * den) <= num < (0 + 1) * (pow2(0) * den)) by (nonlinear_arith)
                requires
                    4 * num < den,
                    pow2(0) == 1,
            ;
            assert(2 * num < (2 * 0 + 1) * (pow2(0) * den)) by (nonlinear_arith)
                requires
                    4 * num < den,
                    pow2(0) == 1,
            ;
            lemma_nearest_from_grid(num, den, 0, 0);
        }
        return 0;
    }
    let s: u64 = power_of_two(right);
    let ghost l: nat = pow2(left as nat);
    proof {
        lemma_pow2_pos(left as nat);
        lemma_pow2_pos(right as nat);
        lemma_pow2_pos(g as nat);
        // p * 2^left stays below 2^24.
        lemma_pow2_adds(len as nat, left as nat);
        lemma_pow2_increases((len + left) as nat, (24 + right) as nat);
        lemma_pow2_adds(24, right as nat);
        assert(p * l < pow2(24) * s) by (nonlinear_arith)
            requires
                p < pow2(len as nat),
                l > 0,
                pow2((len + left) as nat) == pow2(len as nat) * l,
                pow2((len + left) as nat) <= pow2((24 + right) as nat),
                pow2((24 + right) as nat) == pow2(24) * s,
        ;
        if left > 0 {
            assert(s == 1);
        }
    }
    let scaled: u64 = p * power_of_two(left);
    let q: u64 = scaled / s;
    let rest: u64 = scaled % s;
    proof {
        lemma_fundamental_div_mod(scaled as int, s as int);
        lemma_mod_bound(scaled as int, s as int);
        assert(scaled == q * s + rest) by (nonlinear_arith)
            requires
                scaled == s * q + rest,
        ;
        assert(q < pow2(24)) by (nonlinear_arith)
            requires
                scaled == q * s + rest,
                scaled < pow2(24) * s,
                s > 0,
        ;
        if g > 0 {
            lemma_pow2_adds((len - 1) as nat, left as nat);
            lemma_pow2_adds(23, right as nat);
            assert(q >= pow2(23)) by (nonlinear_arith)
                requires
                    scaled == q * s + rest,
                    rest < s,
                    scaled == p * l,
                    pow2((len - 1) as nat) <= p,
                    l > 0,
                    pow2((len - 1 + left) as nat) == pow2((len - 1) as nat) * l,
                    pow2((23 + right) as nat) == pow2(23) * s,
                    pow2((len - 1 + left) as nat) == pow2((23 + right) as nat),
            ;
        }
        // The value is `scaled / s` steps: scaling both by 2^x, where x is
        // what is left of `up` after the shift to the left.
        let x: nat = (up - left) as nat;
        let scale: nat = pow2(x);
        lemma_pow2_pos(x);
        lemma_pow2_adds(left as nat, x);
        lemma_pow2_adds(g as nat, down as nat);
        lemma_pow2_adds(right as nat, x);
        assert(num == scaled * scale) by (nonlinear_arith)
            requires
                num == p * u,
                scaled == p * l,
                u == l * scale,
        ;
        assert(pow2(g as nat) * den == s * scale);
        lemma_scaled_steps(scaled as nat, q as nat, rest as nat, s as nat, scale);
        lemma_nearest_from_grid(num, den, g as nat, q as nat);
    }
    let round_up: bool = if right == 0 {
        false
    } else {
        let half: u64 = s / 2;
        proof {
            lemma_pow2_unfold(right as nat);
        }
        rest > half || (rest == half && q % 2 == 1)
    };
    let lo: u64 = (g as u64) * (HIDDEN_BIT as u64) + q;
    let rounded: u64 = if round_up {
        lo + 1
    } else {
        lo
    };
    if rounded >= INFINITY_BITS as u64 {
        INFINITY_BITS
    } else {
        rounded as u32
    }
}

/// Rounds a value that lies strictly between `p * 2^up / 2^down` and
/// `(p + 1) * 2^up / 2^down`, counted in units of 2^-149, to the nearest
/// magnitude pattern. The value itself is `num / den`; `p` has enough
/// digits to tell on which side of a middle the value lies.
#[verifier::rlimit(50)]
pub(crate) fn round_inexact(
    p: u64,
    up: u32,
    down: u32,
    Ghost(num): Ghost<nat>,
    Ghost(den): Ghost<nat>,
) -> (pattern: u32)
    requires
        0x200_0000 <= p < 0x4000_0000_0000_0000,
        up <= 1000,
        down <= 1000,
        den > 0,
        p * pow2(up as nat) * den < num * pow2(down as nat) < (p + 1) * pow2(up as nat) * den,
    ensures
        pattern == nearest(num, den),
        pattern <= INFINITY_BITS,
{
    let ghost u: nat = pow2(up as nat);
    let ghost d: nat = pow2(down as nat);
    let ghost w: nat = u * den;
    let ghost value: nat = num * d;
    proof {
        lemma2_to64();
        vstd::arithmetic::power2::lemma2_to64_rest();
        lemma_pow2_pos(up as nat);
        lemma_pow2_pos(down as nat);
        assert(p * w < value < (p + 1) * w) by (nonlinear_arith)
            requires
                p * u * den < num * d < (p + 1) * u * den,
                w == u * den,
                value == num * d,
        ;
    }
    let len: u32 = bit_length(p);
    proof {
        if len > 62 {
            lemma_pow2_increases(62, (len - 1) as nat);
        }
        if len < 26 {
            lemma_pow2_increases(len as nat, 25);
        }
    }
    let g: u32 = if len + up > down + 24 {
        len + up - down - 24
    } else {
        0
    };
    if g >= 254 {
        proof {
            // Above p * 2^up / 2^down, which is at least the 2^277 units
            // of infinity.
            let inf: nat = INFINITY_BITS as nat;
            lemma_grid_units(254, 0x80_0000);
            assert(grid_pattern(254, 0x80_0000) == inf);
            lemma_pow2_adds(23, 254);
            lemma_pow2_adds(277, down as nat);
            lemma_pow2_adds((len - 1) as nat, up as nat);
            lemma_pow2_increases((277 + down) as nat, (len - 1 + up) as nat);
            assert(magnitude_units(inf) * den <= num) by (nonlinear_arith)
                requires
                    magnitude_units(inf) == 0x80_0000 * pow2(254),
                    pow2(277) == pow2(23) * pow2(254),
                    pow2(23) == 0x80_0000,
                    pow2((277 + down) as nat) == pow2(277) * d,
                    pow2((len - 1 + up) as nat) == pow2((len - 1) as nat) * u,
                    pow2((277 + down) as nat) <= pow2((len - 1 + up) as nat),
                    pow2((len - 1) as nat) <= p,
                    p * w < value,
                    w == u * den,
                    value == num * d,
                    d > 0,
                    den > 0,
            ;
            assert(is_floor(num, den, inf));
            lemma_floor_is_unique(num, den, inf);
        }
        return INFINITY_BITS;
    }
    let right: u32 = if g > 0 {
        len - 24
    } else {
        down - up
    };
    assert(g + down == up + right);
    assert(right >= 2);
    assert(len <= 24 + right);
    assert(g > 0 ==> len == 24 + right);
    if right > 63 {
        proof {
            // Less than a quarter of a unit.
            lemma_pow2_adds(62, up as nat);
            lemma_pow2_adds(2, (62 + up) as nat);
            lemma_pow2_increases((64 + up) as nat, down as nat);
            assert(4 * num < den) by (nonlinear_arith)
                requires
                    value < (p + 1) * w,
                    w == u * den,
                    value == num * d,
                    p + 1 <= pow2(62),
                    pow2((62 + up) as nat) == pow2(62) * u,
                    pow2((64 + up) as nat) == 4 * pow2((62 + up) as nat),
                    pow2((64 + up) as nat) <= d,
                    d > 0,
                    den > 0,
                    u > 0,
            ;
            assert(0 * (pow2(0) * den) <= num < (0 + 1) * (pow2(0) * den)) by (nonlinear_arith)
                requires
                    4 * num < den,
                    pow2(0) == 1,
            ;
            assert(2 * num < (2 * 0 + 1) * (pow2(0) * den)) by (nonlinear_arith)
                requires
                    4 * num < den,
                    pow2(0) == 1,
            ;
            lemma_nearest_from_grid(num, den, 0, 0);
        }
        return 0;
    }
    let s: u64 = power_of_two(right);
    let q: u64 = p / s;
    let rest: u64 = p % s;
    let half: u64 = s / 2;
    proof {
        lemma_pow2_pos(right as nat);
        lemma_pow2_pos(g as nat);
        lemma_pow2_unfold(right as nat);
        lemma_fundamental_div_mod(p as int, s as int);
        lemma_mod_bound(p as int, s as int);
        assert(p == q * s + rest) by (nonlinear_arith)
            requires
                p == s * q + rest,
        ;
        lemma_pow2_increases(len as nat, (24 + right) as nat);
        lemma_pow2_adds(24, right as nat);
        assert(q < pow2(24)) by (nonlinear_arith)
            requires
                p == q * s + rest,
                p < pow2(len as nat),
                pow2(len as nat) <= pow2((24 + right) as nat),
                pow2((24 + right) as nat) == pow2(24) * s,
                s > 0,
        ;
        if g > 0 {
            lemma_pow2_adds(23, right as nat);
            assert(q >= pow2(23)) by (nonlinear_arith)
                requires
                    p == q * s + rest,
                    rest < s,
                    pow2((len - 1) as nat) <= p,
                    pow2((len - 1) as nat) == pow2(23) * s,
            ;
        }
        // In steps of the grid, scaled by 2^down: a step is s * w.
        let step: nat = pow2(g as nat) * den;
        lemma_pow2_adds(g as nat, down as nat);
        lemma_pow2_adds(up as nat, right as nat);
        assert(step * d == s * w) by (nonlinear_arith)
            requires
                step == pow2(g as nat) * den,
                w == u * den,
                pow2(g as nat) * d == u * s,
        ;
        lemma_inexact_steps(p as nat, q as nat, rest as nat, s as nat, half as nat, w, value);
        assert(q * step <= num < (q + 1) * step) by (nonlinear_arith)
            requires
                q * (s * w) < value < (q + 1) * (s * w),
                step * d == s * w,
                value == num * d,
                d > 0,
        ;
        assert(rest >= half ==> 2 * num > (2 * q + 1) * step) by (nonlinear_arith)
            requires
                rest >= half ==> 2 * value > (2 * q + 1) * (s * w),
                step * d == s * w,
                value == num * d,
                d > 0,
        ;
        assert(rest < half ==> 2 * num < (2 * q + 1) * step) by (nonlinear_arith)
            requires
                rest < half ==> 2 * value < (2 * q + 1) * (s * w),
                step * d == s * w,
                value == num * d,
                d > 0,
        ;
        lemma_nearest_from_grid(num, den, g as nat, q as nat);
    }
    let lo: u64 = (g as u64) * (HIDDEN_BIT as u64) + q;
    let rounded: u64 = if rest >= half {
        lo + 1
    } else {
        lo
    };
    if rounded >= INFINITY_BITS as u64 {
        INFINITY_BITS
    } else {
        rounded as u32
    }
}

/// The whole part of the square root of a number of 51 or 52 binary
/// digits.
pub(crate) fn integer_root(m: u64) -> (r: u64)
    requires
        0x4_0000_0000_0000 <= m < 0x10_0000_0000_0000,
    ensures
        r * r <= m < (r + 1) * (r + 1),
        0x200_0000 <= r < 0x400_0000,
{
    let mut r: u64 = 0x200_0000;
    let mut step: u64 = 0x200_0000;
    assert(0x200_0000 * 0x200_0000 == 0x4_0000_0000_0000) by (nonlinear_arith);
    assert(0x400_0000 * 0x400_0000 == 0x10_0000_0000_0000) by (nonlinear_arith);
    proof {
        lemma2_to64();
        assert(step == pow2(25));
    }
    while step > 1
        invariant
            1 <= step <= 0x200_0000,
            0x200_0000 <= r,
            r + step <= 0x400_0000,
            r * r <= m < (r + step) * (r + step),
            step == 1 || step % 2 == 0,
            exists|k: nat| k <= 25 && step == pow2(k),
        decreases step,
    {
        let ghost k = choose|k: nat| k <= 25 && step == pow2(k);
        proof {
            lemma2_to64();
            assert(k > 0);
            lemma_pow2_unfold(k);
            assert(step / 2 == pow2((k - 1) as nat));
            if k - 1 > 0 {
                lemma_pow2_unfold((k - 1) as nat);
            }
        }
        step = step / 2;
        let candidate: u64 = r + step;
        assert(candidate * candidate <= 0x400_0000 * 0x400_0000) by (nonlinear_arith)
            requires
                candidate <= 0x400_0000,
        ;
        if candidate * candidate <= m {
            r = candidate;
        }
    }
    r
}

/// Rounds the square root of `n`, counted in units of 2^-149, to the
/// nearest magnitude pattern. The root is `r * 2^up / 2^down`, or lies
/// strictly between that and `(r + 1) * 2^up / 2^down`; it lies among the
/// numbers whose exponent is neither the smallest nor the largest.
#[verifier::rlimit(50)]
pub(crate) fn round_root(
    r: u64,
    exact: bool,
    up: u32,
    down: u32,
    Ghost(n): Ghost<nat>,
) -> (pattern: u32)
    requires
        0x200_0000 <= r < 0x400_0000,
        down + 2 <= up <= down + 200,
        down <= 100,
        exact ==> (r * pow2(up as nat)) * (r * pow2(up as nat)) == n * (pow2(down as nat) * pow2(
            down as nat,
        )),
        !exact ==> (r * pow2(up as nat)) * (r * pow2(up as nat)) < n * (pow2(down as nat) * pow2(
            down as nat,
        )) < ((r + 1) * pow2(up as nat)) * ((r + 1) * pow2(up as nat)),
    ensures
        pattern == nearest_root(n),
        pattern < INFINITY_BITS,
{
    // Two digits of `r` are beyond the 24 that a number holds.
    let g: u32 = up - down + 2;
    let q: u64 = r / 4;
    let rest: u64 = r % 4;
    let lo: u64 = (g as u64) * (HIDDEN_BIT as u64) + q;
    let round_up: bool = rest > 2 || (rest == 2 && (!exact || q % 2 == 1));
    proof {
        let u: nat = pow2(up as nat);
        let d: nat = pow2(down as nat);
        let grid: nat = pow2(g as nat);
        lemma2_to64();
        lemma_pow2_pos(up as nat);
        lemma_pow2_pos(down as nat);
        lemma_pow2_pos(g as nat);
        lemma_pow2_adds(g as nat, down as nat);
        lemma_pow2_adds(up as nat, 2);
        assert(grid * d == 4 * u);
        // Scaled by d, the steps of the grid are steps of 4 * u.
        let below: nat = q as nat * grid;
        let above: nat = (q + 1) as nat * grid;
        let middle: nat = (2 * q + 1) as nat * grid;
        assert(below * d == (4 * q) * u && above * d == (4 * q + 4) * u && middle * d == 2 * ((4
            * q + 2) * u)) by (nonlinear_arith)
            requires
                below == q * grid,
                above == (q + 1) * grid,
                middle == (2 * q + 1) * grid,
                grid * d == 4 * u,
        ;
        let low: nat = r as nat * u;
        let high: nat = (r + 1) as nat * u;
        let mid: nat = (4 * q + 2) as nat * u;
        assert(below * d <= low && high <= above * d) by (nonlinear_arith)
            requires
                below * d == (4 * q) * u,
                above * d == (4 * q + 4) * u,
                low == r * u,
                high == (r + 1) * u,
                r == 4 * q + rest,
                rest < 4,
        ;
        assert(rest >= 2 ==> mid <= low) by (nonlinear_arith)
            requires
                low == r * u,
                mid == (4 * q + 2) * u,
                r == 4 * q + rest,
        ;
        assert(rest > 2 ==> mid < low) by (nonlinear_arith)
            requires
                low == r * u,
                mid == (4 * q + 2) * u,
                r == 4 * q + rest,
                u > 0,
        ;
        assert(rest < 2 ==> high <= mid) by (nonlinear_arith)
            requires
                high == (r + 1) * u,
                mid == (4 * q + 2) * u,
                r == 4 * q + rest,
        ;
        assert(rest < 2 ==> low < mid) by (nonlinear_arith)
            requires
                low == r * u,
                mid == (4 * q + 2) * u,
                r == 4 * q + rest,
                u > 0,
        ;
        assert(rest == 2 ==> low == mid);
        assert(low < high) by (nonlinear_arith)
            requires
                low == r * u,
                high == (r + 1) * u,
                u > 0,
        ;
        lemma_squares_increase(below * d, low);
        lemma_squares_increase(high, above * d);
        lemma_squares_increase(low, high);
        if rest >= 2 {
            lemma_squares_increase(mid, low);
        } else {
            lemma_squares_increase(high, mid);
            lemma_squares_increase(low, mid);
        }
        let nd: nat = n * (d * d);
        assert(low * low == (r * pow2(up as nat)) * (r * pow2(up as nat)));
        assert(high * high == ((r + 1) * pow2(up as nat)) * ((r + 1) * pow2(up as nat)));
        assert(nd == n * (pow2(down as nat) * pow2(down as nat)));
        assert(low * low <= nd < high * high);
        assert((below * d) * (below * d) == (below * below) * (d * d) && (above * d) * (above * d)
            == (above * above) * (d * d) && (middle * d) * (middle * d) == (middle * middle) * (d
            * d)) by (nonlinear_arith);
        assert((middle * d) * (middle * d) == 4 * (mid * mid)) by (nonlinear_arith)
            requires
                middle * d == 2 * mid,
        ;
        assert(below * below <= n < above * above) by (nonlinear_arith)
            requires
                (below * below) * (d * d) <= nd,
                nd < (above * above) * (d * d),
                nd == n * (d * d),
                d > 0,
        ;
        let beyond: bool = rest > 2 || (rest == 2 && !exact);
        let halfway: bool = rest == 2 && exact;
        assert(beyond ==> nd > mid * mid);
        assert(halfway ==> nd == mid * mid);
        assert(!beyond && !halfway ==> nd < mid * mid);
        assert(beyond ==> 4 * n > middle * middle) by (nonlinear_arith)
            requires
                beyond ==> nd > mid * mid,
                (middle * middle) * (d * d) == 4 * (mid * mid),
                nd == n * (d * d),
                d > 0,
        ;
        assert(!beyond && !halfway ==> 4 * n < middle * middle) by (nonlinear_arith)
            requires
                !beyond && !halfway ==> nd < mid * mid,
                (middle * middle) * (d * d) == 4 * (mid * mid),
                nd == n * (d * d),
                d > 0,
        ;
        assert(halfway ==> 4 * n == middle * middle) by (nonlinear_arith)
            requires
                halfway ==> nd == mid * mid,
                (middle * middle) * (d * d) == 4 * (mid * mid),
                nd == n * (d * d),
                d > 0,
        ;
        assert(grid_pattern(g as nat, q as nat) == lo);
        lemma_root_from_grid(n, g as nat, q as nat);
    }
    if round_up {
        (lo + 1) as u32
    } else {
        lo as u32
    }
}

} // verus!
