//! Single-precision numbers, held by their IEEE 754 bit pattern.
//!
//! Every number of a scene is a 32-bit binary floating-point value. A
//! [`Scalar`] keeps the 32 bits and gives them a meaning: every pattern that
//! is not a NaN denotes a whole number of units of 2^-149, the smallest
//! positive value of the format. What is done with scalars is specified over
//! that number and computed over the bits. This module orders them and cuts
//! them down to bytes; sums, products, quotients and roots are in
//! [`crate::arith`].

use vstd::arithmetic::div_mod::lemma_div_multiples_vanish_quotient;
use vstd::arithmetic::mul::{lemma_mul_inequality, lemma_mul_strict_inequality};
use vstd::arithmetic::power2::{
    lemma2_to64, lemma_pow2_adds, lemma_pow2_pos, lemma_pow2_strictly_increases,
    lemma_pow2_unfold, pow2,
};
use vstd::bits::lemma_u32_shr_is_div;
use vstd::prelude::*;

verus! {

/// The bit that holds the sign.
pub const SIGN_BIT: u32 = 0x8000_0000;

/// The pattern of positive infinity; every larger magnitude is a NaN.
pub const INFINITY_BITS: u32 = 0x7f80_0000;

/// The weight of the leading significand bit, which normal numbers leave out.
pub const HIDDEN_BIT: u32 = 0x0080_0000;

/// The pattern of the number zero.
pub const ZERO_BITS: u32 = 0x0000_0000;

/// The pattern of the number one.
pub const ONE_BITS: u32 = 0x3f80_0000;

/// The exponent field of the numbers from one up to, not including, two.
pub const EXPONENT_BIAS: u32 = 127;

/// A single-precision number, by its bit pattern.
#[derive(Clone, Copy, Debug, PartialEq, Eq, Structural)]
pub struct Scalar {
    pub bits: u32,
}

/// The number of units of 2^-149 that a magnitude (a pattern without its sign
/// bit) denotes. Subnormal patterns count their fraction; normal ones add the
/// hidden bit and scale by their exponent. Infinity comes out as 2^277, above
/// every finite magnitude.
pub open spec fn magnitude_units(magnitude: nat) -> nat {
    let exponent = magnitude / (HIDDEN_BIT as nat);
    let fraction = magnitude % (HIDDEN_BIT as nat);
    if exponent == 0 {
        fraction
    } else {
        (HIDDEN_BIT as nat + fraction) * pow2((exponent - 1) as nat)
    }
}

/// A larger magnitude pattern denotes a larger number, and only the zero
/// pattern denotes zero.
pub proof fn lemma_magnitude_units_increase(a: nat, b: nat)
    requires
        a < b,
    ensures
        magnitude_units(a) < magnitude_units(b),
{
    let h: nat = HIDDEN_BIT as nat;
    let ea: nat = a / h;
    let eb: nat = b / h;
    let fa: nat = a % h;
    let fb: nat = b % h;
    assert(a == h * ea + fa && b == h * eb + fb);
    assert(ea <= eb);
    if ea == eb {
        if ea > 0 {
            let p: int = pow2((ea - 1) as nat) as int;
            lemma_pow2_pos((ea - 1) as nat);
            lemma_mul_strict_inequality((h + fa) as int, (h + fb) as int, p);
        }
    } else {
        // The exponent of `b` is the larger one, so `b` is normal.
        let pb: int = pow2((eb - 1) as nat) as int;
        lemma_pow2_pos((eb - 1) as nat);
        lemma_mul_inequality(h as int, (h + fb) as int, pb);
        assert(h * pb <= magnitude_units(b));
        if ea == 0 {
            lemma_mul_inequality(1, pb, h as int);
            assert(h * 1 <= h * pb) by {
                vstd::arithmetic::mul::lemma_mul_is_commutative(h as int, pb);
            }
        } else {
            let pa: int = pow2((ea - 1) as nat) as int;
            lemma_pow2_pos((ea - 1) as nat);
            lemma_pow2_unfold(ea);
            lemma_mul_strict_inequality((h + fa) as int, (2 * h) as int, pa);
            assert((2 * h) * pa == h * (2 * pa)) by (nonlinear_arith);
            assert(magnitude_units(a) < h * pow2(ea));
            if ea < eb - 1 {
                lemma_pow2_strictly_increases(ea, (eb - 1) as nat);
            }
            assert(pow2(ea) <= pb);
            lemma_mul_inequality(pow2(ea) as int, pb, h as int);
            assert(h * pow2(ea) <= h * pb) by {
                vstd::arithmetic::mul::lemma_mul_is_commutative(h as int, pb);
                vstd::arithmetic::mul::lemma_mul_is_commutative(h as int, pow2(ea) as int);
            }
        }
    }
}

impl Scalar {
    /// The pattern without its sign bit.
    pub open spec fn magnitude(self) -> nat {
        (self.bits % SIGN_BIT) as nat
    }

    /// Whether the sign bit is set.
    pub open spec fn sign_negative(self) -> bool {
        self.bits >= SIGN_BIT
    }

    /// Whether the pattern is a NaN, which denotes no number.
    pub open spec fn is_nan(self) -> bool {
        self.magnitude() > INFINITY_BITS
    }

    /// The number that the pattern denotes, in units of 2^-149. Both zero
    /// patterns denote 0. For a NaN the result has no meaning.
    pub open spec fn units(self) -> int {
        if self.sign_negative() {
            -(magnitude_units(self.magnitude()) as int)
        } else {
            magnitude_units(self.magnitude()) as int
        }
    }

    /// The order of the format: a NaN is neither below nor above anything.
    pub open spec fn less(self, other: Scalar) -> bool {
        !self.is_nan() && !other.is_nan() && self.units() < other.units()
    }

    /// Whether the number is strictly above zero.
    pub open spec fn positive(self) -> bool {
        !self.is_nan() && self.units() > 0
    }

    /// The pattern read as a signed magnitude: an integer that is ordered as
    /// the numbers are.
    pub open spec fn key(self) -> int {
        if self.sign_negative() {
            -(self.magnitude() as int)
        } else {
            self.magnitude() as int
        }
    }

    /// Numbers are ordered as their keys are, which is how [`Scalar::lt`]
    /// can compare bit patterns and be right about the numbers.
    pub proof fn lemma_order_by_key(self, other: Scalar)
        ensures
            self.units() < other.units() <==> self.key() < other.key(),
            self.units() == other.units() <==> self.key() == other.key(),
            self.units() > 0 <==> self.key() > 0,
    {
        let a = self.magnitude();
        let b = other.magnitude();
        if a < b {
            lemma_magnitude_units_increase(a, b);
        }
        if b < a {
            lemma_magnitude_units_increase(b, a);
        }
        if 0 < a {
            lemma_magnitude_units_increase(0, a);
        }
        if 0 < b {
            lemma_magnitude_units_increase(0, b);
        }
    }

    /// On the patterns that denote numbers, [`Scalar::less`] is a strict
    /// order in which every two of them either denote the same number or
    /// are ordered one way or the other; and two patterns denote the same
    /// number only if they are the same pattern or both denote zero.
    pub proof fn lemma_less_is_a_strict_order(self, other: Scalar, third: Scalar)
        ensures
            !self.less(self),
            self.less(other) ==> !other.less(self),
            self.less(other) && other.less(third) ==> self.less(third),
            !self.is_nan() && !other.is_nan() ==> self.less(other) || other.less(self)
                || self.units() == other.units(),
            self.units() == other.units() ==> self == other || (self.units() == 0
                && other.units() == 0),
    {
        self.lemma_order_by_key(other);
        if self.units() == other.units() && self.units() != 0 {
            assert(self.bits == other.bits);
        }
    }

    /// The whole part of the number, kept within what a byte holds: 0 for
    /// everything below one and for a NaN, 255 for everything from 255 up.
    pub open spec fn byte(self) -> u8 {
        let one = pow2(149) as int;
        if self.is_nan() || self.units() < one {
            0
        } else if self.units() >= 255 * one {
            255
        } else {
            (self.units() / one) as u8
        }
    }

    /// The scalar with the given bit pattern.
    pub fn from_bits(bits: u32) -> (s: Scalar)
        ensures
            s.bits == bits,
    {
        Scalar { bits }
    }

    /// The bit pattern.
    pub fn to_bits(self) -> (bits: u32)
        ensures
            bits == self.bits,
    {
        self.bits
    }

    /// `self < other` in the order of the format.
    pub fn lt(self, other: Scalar) -> (r: bool)
        ensures
            r == self.less(other),
    {
        let a: u32 = self.bits % SIGN_BIT;
        let b: u32 = other.bits % SIGN_BIT;
        if a > INFINITY_BITS || b > INFINITY_BITS {
            return false;
        }
        proof {
            self.lemma_order_by_key(other);
        }
        if self.bits >= SIGN_BIT {
            if other.bits >= SIGN_BIT {
                b < a
            } else {
                a != 0 || b != 0
            }
        } else {
            if other.bits >= SIGN_BIT {
                false
            } else {
                a < b
            }
        }
    }

    /// The number cut down to a byte: what lies behind the point is
    /// dropped, and what does not fit is brought to the nearer end.
    pub fn to_byte(self) -> (b: u8)
        ensures
            b == self.byte(),
    {
        let magnitude: u32 = self.bits % SIGN_BIT;
        let exponent: u32 = magnitude / HIDDEN_BIT;
        let fraction: u32 = magnitude % HIDDEN_BIT;
        proof {
            lemma_pow2_pos(149);
            lemma2_to64();
        }
        if self.bits >= SIGN_BIT || magnitude > INFINITY_BITS {
            return 0;
        }
        if exponent < EXPONENT_BIAS {
            proof {
                if exponent == 0 {
                    lemma_pow2_strictly_increases(23, 149);
                } else {
                    // Less than 2^24 times 2^(exponent - 1), which is at most 2^149.
                    let p = pow2((exponent - 1) as nat) as int;
                    lemma_pow2_pos((exponent - 1) as nat);
                    lemma_mul_strict_inequality((HIDDEN_BIT + fraction) as int, pow2(24) as int, p);
                    lemma_pow2_adds(24, (exponent - 1) as nat);
                    if exponent + 23 < 149 {
                        lemma_pow2_strictly_increases((exponent + 23) as nat, 149);
                    }
                }
            }
            return 0;
        }
        if exponent >= EXPONENT_BIAS + 8 {
            proof {
                // At least 2^23 times 2^134, which is 256 times 2^149.
                let p = pow2((exponent - 1) as nat) as int;
                lemma_pow2_pos((exponent - 1) as nat);
                lemma_mul_inequality(HIDDEN_BIT as int, (HIDDEN_BIT + fraction) as int, p);
                if 134 < exponent - 1 {
                    lemma_pow2_strictly_increases(134, (exponent - 1) as nat);
                }
                lemma_mul_inequality(pow2(134) as int, p, HIDDEN_BIT as int);
                lemma_pow2_adds(8, 149);
                lemma_pow2_adds(23, 134);
                assert(pow2(23) * pow2(134) == pow2(8) * pow2(149));
                assert(pow2(134) * HIDDEN_BIT <= p * HIDDEN_BIT);
                assert(p * HIDDEN_BIT == HIDDEN_BIT * p) by (nonlinear_arith);
                assert(pow2(134) * HIDDEN_BIT == pow2(23) * pow2(134)) by (nonlinear_arith)
                    requires
                        pow2(23) == HIDDEN_BIT,
                ;
            }
            return 255;
        }
        let significand: u32 = HIDDEN_BIT + fraction;
        let shift: u32 = EXPONENT_BIAS + 23 - exponent;
        let whole: u32 = significand >> shift;
        proof {
            // The units are the significand times 2^(exponent - 1), and one
            // is 2^(exponent - 1) times 2^shift.
            let one: int = pow2(149) as int;
            let units: int = self.units();
            let m: int = significand as int;
            let p: int = pow2((exponent - 1) as nat) as int;
            let q: int = pow2(shift as nat) as int;
            lemma_pow2_pos((exponent - 1) as nat);
            lemma_pow2_pos(shift as nat);
            lemma_pow2_adds((exponent - 1) as nat, shift as nat);
            lemma_u32_shr_is_div(significand, shift);
            lemma_div_multiples_vanish_quotient(p, m, q);
            assert(m * p == p * m) by (nonlinear_arith);
            assert(units == p * m);
            assert(one == p * q);
            assert(units / one == whole);
            // The whole part lies between 1 and 255.
            if shift > 16 {
                lemma_pow2_strictly_increases(16, shift as nat);
            }
            if shift < 23 {
                lemma_pow2_strictly_increases(shift as nat, 23);
            }
            vstd::arithmetic::div_mod::lemma_div_is_ordered(q, m, q);
            vstd::arithmetic::div_mod::lemma_div_is_ordered(m, 0xff_ffff, q);
            assert(q / q == 1) by (nonlinear_arith)
                requires
                    q > 0,
            ;
            assert(0xff_ffffint / q <= 255) by (nonlinear_arith)
                requires
                    q >= 0x1_0000,
            ;
            assert(1 <= whole <= 255);
            vstd::arithmetic::div_mod::lemma_fundamental_div_mod(units, one);
            assert(units >= one) by (nonlinear_arith)
                requires
                    units == one * (units / one) + (units % one),
                    units / one >= 1,
                    units % one >= 0,
                    one > 0,
            ;
            if units >= 255 * one {
                vstd::arithmetic::div_mod::lemma_div_is_ordered(255 * one, units, one);
                assert((255 * one) / one == 255) by (nonlinear_arith)
                    requires
                        one > 0,
                ;
            }
        }
        whole as u8
    }

    /// `0 < self` in the order of the format.
    pub fn is_positive(self) -> (r: bool)
        ensures
            r == self.positive(),
    {
        let a: u32 = self.bits % SIGN_BIT;
        proof {
            self.lemma_order_by_key(self);
        }
        self.bits < SIGN_BIT && 0 < a && a <= INFINITY_BITS
    }
}

} // verus!
