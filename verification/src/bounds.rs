//! How far rounding moves a value.

use crate::arith::{signed, UNIT_EXPONENT};
use crate::rounding::{
    floor_of, grid_pattern, is_floor, lemma_floor_exists, lemma_floor_is_unique,
    lemma_grid_units, lemma_nearest_from_grid, nearest,
};
use crate::scalar::{
    lemma_magnitude_units_increase, magnitude_units, Scalar, HIDDEN_BIT, INFINITY_BITS, ONE_BITS,
};
use vstd::arithmetic::power2::{
    lemma2_to64, lemma_pow2_adds, lemma_pow2_pos, lemma_pow2_strictly_increases, pow2,
};
use vstd::prelude::*;

verus! {

/// How far two numbers are apart.
pub open spec fn apart(a: int, b: int) -> nat {
    if a >= b {
        (a - b) as nat
    } else {
        (b - a) as nat
    }
}

/// Every magnitude pattern stands on a grid: it is a count of steps of a
/// power of two, and but for the finest grid the count has 24 digits.
proof fn lemma_pattern_on_grid(pattern: nat) -> (r: (nat, nat))
    ensures
        pattern == grid_pattern(r.0, r.1),
        r.1 < 0x100_0000,
        r.0 == 0 || r.1 >= HIDDEN_BIT,
{
    let h: nat = HIDDEN_BIT as nat;
    let exponent = pattern / h;
    let fraction = pattern % h;
    assert(pattern == h * exponent + fraction);
    if exponent == 0 {
        (0, fraction)
    } else {
        assert(pattern == (exponent - 1) * h + (h + fraction)) by (nonlinear_arith)
            requires
                pattern == h * exponent + fraction,
                exponent >= 1,
        ;
        ((exponent - 1) as nat, h + fraction)
    }
}

/// Rounding moves a value by little: a value below the reach of infinity
/// is moved by at most half a unit of 2^-149, or by at most one part in
/// 2^24 of itself.
pub proof fn lemma_rounding_error(num: nat, den: nat)
    requires
        den > 0,
        num < magnitude_units(INFINITY_BITS as nat) * den,
    ensures
        nearest(num, den) <= INFINITY_BITS,
        2 * apart((magnitude_units(nearest(num, den)) * den) as int, num as int) <= den
            || 0x100_0000 * apart((magnitude_units(nearest(num, den)) * den) as int, num as int)
            <= num,
{
    lemma_floor_exists(num, den);
    let lo = floor_of(num, den);
    assert(lo < INFINITY_BITS);
    let (g, q) = lemma_pattern_on_grid(lo);
    let grid = pow2(g);
    let step = grid * den;
    lemma_pow2_pos(g);
    lemma2_to64();
    lemma_grid_units(g, q);
    lemma_grid_units(g, q + 1);
    assert(lo + 1 == grid_pattern(g, q + 1));
    assert(magnitude_units(lo) * den == q * step && magnitude_units(lo + 1) * den == (q + 1)
        * step) by (nonlinear_arith)
        requires
            magnitude_units(lo) == q * grid,
            magnitude_units(lo + 1) == (q + 1) * grid,
            step == grid * den,
    ;
    lemma_nearest_from_grid(num, den, g, q);
    let m = nearest(num, den);
    let e = apart((magnitude_units(m) * den) as int, num as int);
    assert((2 * q + 1) * step == 2 * (q * step) + step && (q + 1) * step == q * step + step)
        by (nonlinear_arith);
    assert(2 * e <= step);
    if g == 0 {
        assert(step == den) by (nonlinear_arith)
            requires
                step == grid * den,
                grid == 1,
        ;
    } else {
        assert(0x80_0000 * step <= num) by (nonlinear_arith)
            requires
                q * step <= num,
                q >= 0x80_0000,
                step >= 0,
        ;
    }
}

/// The bound of [`lemma_rounding_error`], doubled and scaled so that it
/// is one statement: 2^25 times the error is at most 2^24 times the
/// denominator and twice the numerator together.
proof fn lemma_rounding_error_scaled(num: nat, den: nat)
    requires
        den > 0,
        num < magnitude_units(INFINITY_BITS as nat) * den,
    ensures
        nearest(num, den) <= INFINITY_BITS,
        0x200_0000 * apart((magnitude_units(nearest(num, den)) * den) as int, num as int)
            <= 0x100_0000 * den + 2 * num,
{
    lemma_rounding_error(num, den);
}

/// A focal length times a number between a half and one, over that
/// number again, is the focal length to within one part in 100000 of the
/// larger of the focal length and one. This is the width of the
/// projection plane where both sines of which it is made are the same, as
/// they are at a field of view of 90 degrees. Only from a focal length of
/// 2^127 up can the width come to infinity instead.
pub proof fn lemma_times_and_over_changes_little(focal_length: Scalar, sine: Scalar)
    requires
        focal_length.positive(),
        !focal_length.is_infinite(),
        !sine.is_nan(),
        !sine.sign_negative(),
        pow2(148) <= sine.units() <= pow2(149),
    ensures
        ({
            let width = focal_length.product(sine).quotient(sine);
            let limit = if focal_length.units() >= pow2(149) {
                focal_length.units()
            } else {
                pow2(149) as int
            };
            &&& !width.is_nan()
            &&& !width.sign_negative()
            &&& width.is_infinite() ==> 2 * focal_length.units() >= magnitude_units(
                INFINITY_BITS as nat,
            )
            &&& !width.is_infinite() ==> 100_000 * apart(width.units(), focal_length.units())
                <= limit
        }),
{
    reveal(Scalar::product);
    reveal(Scalar::quotient);
    let one: nat = pow2(UNIT_EXPONENT as nat);
    let top: nat = magnitude_units(INFINITY_BITS as nat);
    let f: nat = magnitude_units(focal_length.magnitude());
    let s: nat = magnitude_units(sine.magnitude());
    let a: nat = f * s;
    lemma2_to64();
    lemma_pow2_pos(148);
    lemma_pow2_adds(148, 1);
    lemma_pow2_strictly_increases(64, 149);
    assert(one == 2 * pow2(148));
    assert(one >= 0x1_0000_0000_0000_0000);
    // The sine is a finite number other than zero, and the focal length
    // is below the reach of infinity.
    lemma_grid_units(126, 0x80_0000);
    assert(grid_pattern(126, 0x80_0000) == ONE_BITS);
    lemma_pow2_adds(23, 126);
    assert(magnitude_units(ONE_BITS as nat) == one);
    if sine.magnitude() > ONE_BITS {
        lemma_magnitude_units_increase(ONE_BITS as nat, sine.magnitude());
    }
    assert(sine.magnitude() <= ONE_BITS);
    assert(sine.magnitude() != 0);
    lemma_magnitude_units_increase(ONE_BITS as nat, INFINITY_BITS as nat);
    lemma_magnitude_units_increase(focal_length.magnitude(), INFINITY_BITS as nat);
    assert(focal_length.magnitude() != 0);
    assert(f == focal_length.units() && s == sine.units());
    assert(0 < f < top && one < top);
    // The product.
    assert(a <= f * one && f * one < top * one && a >= f * pow2(148) && a > 0)
        by (nonlinear_arith)
        requires
            a == f * s,
            pow2(148) <= s <= one,
            0 < f < top,
            one > 0,
            pow2(148) > 0,
    ;
    lemma_rounding_error_scaled(a, one);
    let pm: nat = nearest(a, one);
    let p: nat = magnitude_units(pm);
    let e1: nat = apart((p * one) as int, a as int);
    let product = focal_length.product(sine);
    assert(product == signed(false, pm));
    assert(product.magnitude() == pm && !product.sign_negative() && !product.is_nan());
    let width = product.quotient(sine);
    if pm == INFINITY_BITS {
        // The product itself came to infinity.
        assert(width == signed(false, INFINITY_BITS as nat));
        assert(2 * top <= 3 * f + 1) by (nonlinear_arith)
            requires
                p == top,
                e1 == apart((p * one) as int, a as int),
                0x200_0000 * e1 <= 0x100_0000 * one + 2 * a,
                a <= f * one,
                one > 0,
        ;
    } else if pm == 0 {
        // The product came to zero: the focal length is the smallest
        // number there is.
        assert(magnitude_units(0) == 0);
        assert(width == signed(false, 0));
        assert(p * one == 0) by (nonlinear_arith)
            requires
                p == 0,
        ;
        assert(e1 == a);
        assert(f == 1) by (nonlinear_arith)
            requires
                0x200_0000 * a <= 0x100_0000 * one + 2 * a,
                a >= f * pow2(148),
                one == 2 * pow2(148),
                f > 0,
                pow2(148) > 0,
        ;
        assert(width.units() == 0);
    } else {
        lemma_magnitude_units_increase(0, pm);
        let n: nat = p * one;
        assert(width == signed(false, nearest(n, s)));
        if n >= top * s {
            // The quotient lies in the reach of infinity.
            let inf: nat = INFINITY_BITS as nat;
            assert(is_floor(n, s, inf));
            lemma_floor_is_unique(n, s, inf);
            assert(nearest(n, s) == inf);
            assert(2 * top <= 3 * f + 2) by (nonlinear_arith)
                requires
                    n >= top * s,
                    n == p * one,
                    e1 == apart((p * one) as int, a as int),
                    0x200_0000 * e1 <= 0x100_0000 * one + 2 * a,
                    a == f * s,
                    one <= 2 * s,
                    s > 0,
            ;
        } else {
            lemma_rounding_error_scaled(n, s);
            let qm: nat = nearest(n, s);
            let q: nat = magnitude_units(qm);
            let e2: nat = apart((q * s) as int, n as int);
            assert(width.magnitude() == qm);
            assert(width.units() == q);
            let d: nat = apart(q as int, f as int);
            // Times the sine, the width is within both errors of the
            // focal length times the sine.
            assert(0x200_0000 * d <= 3 * 0x100_0000 + 2 + 5 * f) by (nonlinear_arith)
                requires
                    d == apart(q as int, f as int),
                    e2 == apart((q * s) as int, n as int),
                    e1 == apart(n as int, a as int),
                    0x200_0000 * e1 <= 0x100_0000 * one + 2 * a,
                    0x200_0000 * e2 <= 0x100_0000 * s + 2 * n,
                    a == f * s,
                    one <= 2 * s,
                    s > 0,
                    f > 0,
            ;
            if qm == INFINITY_BITS {
                assert(q == top);
            } else {
                assert(!width.is_infinite());
            }
        }
    }
}

} // verus!
