//! Sums, products, quotients and square roots of single-precision numbers,
//! computed on their bit patterns and rounded as the format asks: to the
//! nearest number, and halfway between two to the one with the even
//! pattern.
//!
//! Every result is specified over the numbers that the patterns denote.
//! Where the result is no number, it is always the same pattern; which
//! pattern a machine gives in that case is left open by the format.

use crate::rounding::{
    bit_length, grid_pattern, integer_root, lemma_grid_units, lemma_nearest_from_grid,
    lemma_nearest_of_equal_values, lemma_numbers_round_to_themselves, nearest, nearest_root,
    power_of_two, round_inexact, round_root, round_scaled,
};
use crate::scalar::{
    magnitude_units, Scalar, HIDDEN_BIT, INFINITY_BITS, ONE_BITS, SIGN_BIT, ZERO_BITS,
};
use vstd::arithmetic::power2::{lemma2_to64, lemma_pow2_adds, lemma_pow2_pos, pow2};
use vstd::prelude::*;

verus! {

/// The pattern that stands for every result that is no number.
pub const NAN_BITS: u32 = 0x7fc0_0000;

/// The number one is 2 to this power, counted in units of 2^-149.
pub const UNIT_EXPONENT: u32 = 149;

/// The largest gap between the exponents of two numbers whose sum is
/// worked out digit by digit. Beyond it the smaller one is less than half a
/// step of the larger one and changes nothing.
pub const NEAR_GAP: u32 = 32;

/// The scalar with the given sign and magnitude pattern.
pub open spec fn signed(negative: bool, magnitude: nat) -> Scalar {
    Scalar {
        bits: if negative {
            (SIGN_BIT + magnitude) as u32
        } else {
            magnitude as u32
        },
    }
}

impl Scalar {
    /// Whether the pattern is that of an infinity.
    pub open spec fn is_infinite(self) -> bool {
        self.magnitude() == INFINITY_BITS
    }

    /// The number with the other sign. A NaN stays a NaN.
    pub open spec fn negation(self) -> Scalar {
        signed(!self.sign_negative(), self.magnitude())
    }

    /// The product: the exact product of the two numbers, rounded to the
    /// nearest number of the format. Infinity times zero is no number.
    #[verifier::opaque]
    pub open spec fn product(self, other: Scalar) -> Scalar {
        let negative = self.sign_negative() != other.sign_negative();
        if self.is_nan() || other.is_nan() || (self.is_infinite() && other.magnitude() == 0) || (
        other.is_infinite() && self.magnitude() == 0) {
            Scalar { bits: NAN_BITS }
        } else if self.is_infinite() || other.is_infinite() {
            signed(negative, INFINITY_BITS as nat)
        } else {
            signed(
                negative,
                nearest(
                    magnitude_units(self.magnitude()) * magnitude_units(other.magnitude()),
                    pow2(UNIT_EXPONENT as nat),
                ),
            )
        }
    }

    /// The sum: the exact sum of the two numbers, rounded to the nearest
    /// number of the format. A sum of exactly zero is negative only if both
    /// numbers are. Infinity less infinity is no number.
    #[verifier::opaque]
    pub open spec fn sum(self, other: Scalar) -> Scalar {
        if self.is_nan() || other.is_nan() || (self.is_infinite() && other.is_infinite()
            && self.sign_negative() != other.sign_negative()) {
            Scalar { bits: NAN_BITS }
        } else if self.is_infinite() {
            self
        } else if other.is_infinite() {
            other
        } else {
            let total = self.units() + other.units();
            if total < 0 {
                signed(true, nearest((-total) as nat, 1))
            } else if total > 0 {
                signed(false, nearest(total as nat, 1))
            } else {
                signed(self.sign_negative() && other.sign_negative(), 0)
            }
        }
    }

    /// The quotient: the exact quotient of the two numbers, rounded to the
    /// nearest number of the format. A number other than zero divided by
    /// zero is an infinity; zero by zero and infinity by infinity are no
    /// numbers.
    #[verifier::opaque]
    pub open spec fn quotient(self, other: Scalar) -> Scalar {
        let negative = self.sign_negative() != other.sign_negative();
        if self.is_nan() || other.is_nan() || (self.is_infinite() && other.is_infinite()) || (
        self.magnitude() == 0 && other.magnitude() == 0) {
            Scalar { bits: NAN_BITS }
        } else if self.is_infinite() || other.magnitude() == 0 {
            signed(negative, INFINITY_BITS as nat)
        } else if other.is_infinite() || self.magnitude() == 0 {
            signed(negative, 0)
        } else {
            signed(
                negative,
                nearest(
                    magnitude_units(self.magnitude()) * pow2(UNIT_EXPONENT as nat),
                    magnitude_units(other.magnitude()),
                ),
            )
        }
    }

    /// The square root: the exact root, rounded to the nearest number of
    /// the format. The root of a negative number is no number; the root
    /// of a zero is that zero.
    #[verifier::opaque]
    pub open spec fn root(self) -> Scalar {
        if self.is_nan() || (self.sign_negative() && self.magnitude() != 0) {
            Scalar { bits: NAN_BITS }
        } else if self.magnitude() == 0 || self.is_infinite() {
            self
        } else {
            signed(
                false,
                nearest_root(magnitude_units(self.magnitude()) * pow2(UNIT_EXPONENT as nat)),
            )
        }
    }

    /// The number of the format nearest to a whole number. Whole numbers
    /// below 2^24 are numbers of the format themselves.
    #[verifier::opaque]
    pub open spec fn whole(n: nat) -> Scalar {
        signed(false, nearest(n * pow2(UNIT_EXPONENT as nat), 1))
    }

    /// Whether both are numbers, and the same number. The two zeros are.
    pub open spec fn same_number(self, other: Scalar) -> bool {
        !self.is_nan() && !other.is_nan() && self.units() == other.units()
    }

    /// The number if it is above zero, else zero.
    pub open spec fn or_zero(self) -> Scalar {
        if self.positive() {
            self
        } else {
            Scalar { bits: ZERO_BITS }
        }
    }

    /// The larger of two numbers; of a number and a NaN, the number.
    pub open spec fn larger(self, other: Scalar) -> Scalar {
        if self.is_nan() || self.less(other) {
            other
        } else {
            self
        }
    }

    /// The difference: the sum with the other number negated.
    pub open spec fn difference(self, other: Scalar) -> Scalar {
        self.sum(other.negation())
    }

    /// Sums and products do not depend on the order of the two numbers.
    pub proof fn lemma_order_does_not_matter(self, other: Scalar)
        ensures
            self.sum(other) == other.sum(self),
            self.product(other) == other.product(self),
    {
        reveal(Scalar::sum);
        reveal(Scalar::product);
        assert(magnitude_units(self.magnitude()) * magnitude_units(other.magnitude())
            == magnitude_units(other.magnitude()) * magnitude_units(self.magnitude()))
            by (nonlinear_arith);
        if !self.is_nan() && !other.is_nan() && !self.is_infinite() && !other.is_infinite() {
            assert(self.units() + other.units() == other.units() + self.units());
        }
    }

    /// One times a number is that number, and zero added to a number
    /// other than zero is that number.
    pub proof fn lemma_one_and_zero_change_nothing(self)
        requires
            !self.is_nan(),
        ensures
            self.product(Scalar { bits: ONE_BITS }) == self,
            self.magnitude() != 0 ==> self.sum(Scalar { bits: ZERO_BITS }) == self,
    {
        reveal(Scalar::sum);
        reveal(Scalar::product);
        let one = Scalar { bits: ONE_BITS };
        let zero = Scalar { bits: ZERO_BITS };
        let units = magnitude_units(self.magnitude());
        lemma2_to64();
        lemma_grid_units(126, 0x80_0000);
        assert(one.magnitude() == grid_pattern(126, 0x80_0000));
        lemma_pow2_adds(23, 126);
        assert(magnitude_units(one.magnitude()) == pow2(UNIT_EXPONENT as nat));
        lemma_pow2_pos(UNIT_EXPONENT as nat);
        assert((units * pow2(UNIT_EXPONENT as nat)) * 1 == units * pow2(UNIT_EXPONENT as nat))
            by (nonlinear_arith);
        lemma_nearest_of_equal_values(
            units * pow2(UNIT_EXPONENT as nat),
            pow2(UNIT_EXPONENT as nat),
            units,
            1,
        );
        lemma_numbers_round_to_themselves(self.magnitude());
        assert(signed(self.sign_negative(), self.magnitude()) == self);
        if self.magnitude() != 0 {
            crate::scalar::lemma_magnitude_units_increase(0, self.magnitude());
            assert(zero.units() == 0);
        }
    }

    /// Where the exact sum, product or quotient of two finite numbers is
    /// itself a number of the format, that number is the result.
    pub proof fn lemma_exact_results_stay(self, other: Scalar, result: Scalar)
        requires
            !self.is_nan() && !self.is_infinite(),
            !other.is_nan() && !other.is_infinite(),
            !result.is_nan() && !result.is_infinite(),
            result.magnitude() != 0,
        ensures
            self.units() + other.units() == result.units() ==> self.sum(other) == result,
            self.units() * other.units() == result.units() * pow2(UNIT_EXPONENT as nat)
                ==> self.product(other) == result,
            other.units() != 0 && self.units() * pow2(UNIT_EXPONENT as nat) == result.units()
                * other.units() ==> self.quotient(other) == result,
    {
        reveal(Scalar::sum);
        reveal(Scalar::product);
        reveal(Scalar::quotient);
        let one: nat = pow2(UNIT_EXPONENT as nat);
        let a: nat = magnitude_units(self.magnitude());
        let b: nat = magnitude_units(other.magnitude());
        let c: nat = magnitude_units(result.magnitude());
        lemma_pow2_pos(UNIT_EXPONENT as nat);
        crate::scalar::lemma_magnitude_units_increase(0, result.magnitude());
        lemma_numbers_round_to_themselves(result.magnitude());
        assert(signed(result.sign_negative(), result.magnitude()) == result);
        if self.units() + other.units() == result.units() {
            assert(self.units() + other.units() != 0);
        }
        if self.units() * other.units() == result.units() * one {
            assert(a * b == c * one && (result.sign_negative() <==> self.sign_negative()
                != other.sign_negative())) by (nonlinear_arith)
                requires
                    self.units() * other.units() == result.units() * one,
                    one > 0,
                    c > 0,
                    self.sign_negative() ==> self.units() == -a,
                    !self.sign_negative() ==> self.units() == a,
                    other.sign_negative() ==> other.units() == -b,
                    !other.sign_negative() ==> other.units() == b,
                    result.sign_negative() ==> result.units() == -c,
                    !result.sign_negative() ==> result.units() == c,
                    a >= 0,
                    b >= 0,
            ;
            assert((a * b) * 1 == c * one);
            lemma_nearest_of_equal_values(a * b, one, c, 1);
        }
        if other.units() != 0 && self.units() * one == result.units() * other.units() {
            assert(a * one == c * b && b > 0 && a > 0 && (result.sign_negative()
                <==> self.sign_negative() != other.sign_negative())) by (nonlinear_arith)
                requires
                    self.units() * one == result.units() * other.units(),
                    other.units() != 0,
                    one > 0,
                    c > 0,
                    self.sign_negative() ==> self.units() == -a,
                    !self.sign_negative() ==> self.units() == a,
                    other.sign_negative() ==> other.units() == -b,
                    !other.sign_negative() ==> other.units() == b,
                    result.sign_negative() ==> result.units() == -c,
                    !result.sign_negative() ==> result.units() == c,
                    a >= 0,
                    b >= 0,
            ;
            if self.magnitude() == 0 || other.magnitude() == 0 {
                assert(magnitude_units(0) == 0);
            }
            assert((a * one) * 1 == c * b);
            lemma_nearest_of_equal_values(a * one, b, c, 1);
        }
    }

    /// `-self`.
    pub fn negated(self) -> (r: Scalar)
        ensures
            r == self.negation(),
    {
        if self.bits >= SIGN_BIT {
            Scalar { bits: self.bits - SIGN_BIT }
        } else {
            Scalar { bits: self.bits + SIGN_BIT }
        }
    }

    /// `self * other`.
    pub fn times(self, other: Scalar) -> (r: Scalar)
        ensures
            r == self.product(other),
    {
        reveal(Scalar::product);
        let a: u32 = self.bits % SIGN_BIT;
        let b: u32 = other.bits % SIGN_BIT;
        let negative: bool = (self.bits >= SIGN_BIT) != (other.bits >= SIGN_BIT);
        if a > INFINITY_BITS || b > INFINITY_BITS {
            return Scalar { bits: NAN_BITS };
        }
        if a == INFINITY_BITS || b == INFINITY_BITS {
            if a == 0 || b == 0 {
                return Scalar { bits: NAN_BITS };
            }
            return with_sign(negative, INFINITY_BITS);
        }
        let (ma, xa) = parts(a);
        let (mb, xb) = parts(b);
        proof {
            lemma2_to64();
            lemma_pow2_adds(xa as nat, xb as nat);
            assert(ma * mb < 0x1_0000_0000_0000) by (nonlinear_arith)
                requires
                    ma < 0x100_0000,
                    mb < 0x100_0000,
            ;
            assert(magnitude_units(a as nat) * magnitude_units(b as nat) == (ma * mb) * pow2(
                (xa + xb) as nat,
            )) by (nonlinear_arith)
                requires
                    magnitude_units(a as nat) == ma * pow2(xa as nat),
                    magnitude_units(b as nat) == mb * pow2(xb as nat),
                    pow2((xa + xb) as nat) == pow2(xa as nat) * pow2(xb as nat),
            ;
        }
        let magnitude: u32 = round_scaled((ma as u64) * (mb as u64), xa + xb, UNIT_EXPONENT);
        with_sign(negative, magnitude)
    }

    /// `self + other`.
    pub fn plus(self, other: Scalar) -> (r: Scalar)
        ensures
            r == self.sum(other),
    {
        reveal(Scalar::sum);
        let a: u32 = self.bits % SIGN_BIT;
        let b: u32 = other.bits % SIGN_BIT;
        let a_negative: bool = self.bits >= SIGN_BIT;
        let b_negative: bool = other.bits >= SIGN_BIT;
        if a > INFINITY_BITS || b > INFINITY_BITS {
            return Scalar { bits: NAN_BITS };
        }
        if a == INFINITY_BITS {
            if b == INFINITY_BITS && a_negative != b_negative {
                return Scalar { bits: NAN_BITS };
            }
            return self;
        }
        if b == INFINITY_BITS {
            return other;
        }
        let (ma, xa) = parts(a);
        let (mb, xb) = parts(b);
        assert(self == signed(a_negative, a as nat));
        assert(other == signed(b_negative, b as nat));
        if xa >= xb {
            add_aligned(a_negative, a, ma, xa, b_negative, b, mb, xb)
        } else {
            add_aligned(b_negative, b, mb, xb, a_negative, a, ma, xa)
        }
    }

    /// `self / other`.
    pub fn over(self, other: Scalar) -> (r: Scalar)
        ensures
            r == self.quotient(other),
    {
        reveal(Scalar::quotient);
        let a: u32 = self.bits % SIGN_BIT;
        let b: u32 = other.bits % SIGN_BIT;
        let negative: bool = (self.bits >= SIGN_BIT) != (other.bits >= SIGN_BIT);
        if a > INFINITY_BITS || b > INFINITY_BITS || (a == INFINITY_BITS && b == INFINITY_BITS)
            || (a == 0 && b == 0) {
            return Scalar { bits: NAN_BITS };
        }
        if a == INFINITY_BITS || b == 0 {
            return with_sign(negative, INFINITY_BITS);
        }
        if b == INFINITY_BITS || a == 0 {
            return with_sign(negative, 0);
        }
        let (ma, xa) = parts(a);
        let (mb, xb) = parts(b);
        let ghost ua: nat = magnitude_units(a as nat);
        let ghost ub: nat = magnitude_units(b as nat);
        proof {
            lemma2_to64();
            vstd::arithmetic::power2::lemma2_to64_rest();
            lemma_pow2_pos(xa as nat);
            lemma_pow2_pos(xb as nat);
            crate::scalar::lemma_magnitude_units_increase(0, a as nat);
            crate::scalar::lemma_magnitude_units_increase(0, b as nat);
            assert(ma > 0) by (nonlinear_arith)
                requires
                    ua == ma * pow2(xa as nat),
                    ua > 0,
            ;
            assert(mb > 0) by (nonlinear_arith)
                requires
                    ub == mb * pow2(xb as nat),
                    ub > 0,
            ;
        }
        // Enough digits of the quotient of the significands to round it:
        // at least 26.
        let la: u32 = bit_length(ma as u64);
        let lb: u32 = bit_length(mb as u64);
        proof {
            if la > 24 {
                vstd::arithmetic::power2::lemma_pow2_strictly_increases(24, (la - 1) as nat);
            }
            if lb > 24 {
                vstd::arithmetic::power2::lemma_pow2_strictly_increases(24, (lb - 1) as nat);
            }
        }
        let k: u32 = 26 + lb - la;
        let scale: u64 = power_of_two(k);
        proof {
            lemma_pow2_adds(la as nat, k as nat);
            lemma_pow2_adds((la - 1) as nat, k as nat);
            lemma_pow2_adds(25, lb as nat);
            lemma_pow2_adds(26, lb as nat);
            if lb < 24 {
                vstd::arithmetic::power2::lemma_pow2_strictly_increases(lb as nat, 24);
            }
            assert(ma * scale < pow2(26) * pow2(24)) by (nonlinear_arith)
                requires
                    ma < pow2(la as nat),
                    scale > 0,
                    pow2((la + k) as nat) == pow2(la as nat) * scale,
                    pow2((26 + lb) as nat) == pow2(26) * pow2(lb as nat),
                    la + k == 26 + lb,
                    pow2(lb as nat) <= pow2(24),
            ;
        }
        let dividend: u64 = (ma as u64) * scale;
        let p: u64 = dividend / (mb as u64);
        let rest: u64 = dividend % (mb as u64);
        let up: u32 = xa + UNIT_EXPONENT;
        let down: u32 = xb + k;
        let ghost num: nat = ua * pow2(UNIT_EXPONENT as nat);
        proof {
            vstd::arithmetic::div_mod::lemma_fundamental_div_mod(dividend as int, mb as int);
            vstd::arithmetic::div_mod::lemma_mod_bound(dividend as int, mb as int);
            assert(dividend == p * mb + rest) by (nonlinear_arith)
                requires
                    dividend == mb * p + rest,
            ;
            assert(p >= pow2(25)) by (nonlinear_arith)
                requires
                    dividend == p * mb + rest,
                    rest < mb,
                    dividend == ma * scale,
                    pow2((la - 1) as nat) <= ma,
                    pow2((la - 1 + k) as nat) == pow2((la - 1) as nat) * scale,
                    pow2((25 + lb) as nat) == pow2(25) * pow2(lb as nat),
                    la - 1 + k == 25 + lb,
                    mb < pow2(lb as nat),
                    scale > 0,
            ;
            assert(p <= dividend) by (nonlinear_arith)
                requires
                    dividend == p * mb + rest,
                    mb > 0,
            ;
            // The value is ma * 2^(xa + 149) / (mb * 2^xb), and the
            // dividend over mb is the same value scaled by 2^k.
            lemma_pow2_adds(xa as nat, UNIT_EXPONENT as nat);
            lemma_pow2_adds(xb as nat, k as nat);
            lemma_pow2_pos(up as nat);
            lemma_pow2_pos(down as nat);
            assert(num * pow2(down as nat) == dividend * pow2(up as nat) * pow2(xb as nat))
                by (nonlinear_arith)
                requires
                    num == ua * pow2(UNIT_EXPONENT as nat),
                    ua == ma * pow2(xa as nat),
                    pow2(up as nat) == pow2(xa as nat) * pow2(UNIT_EXPONENT as nat),
                    pow2(down as nat) == pow2(xb as nat) * scale,
                    dividend == ma * scale,
            ;
        }
        let magnitude: u32 = if rest == 0 {
            proof {
                assert(num * pow2(down as nat) == (p * pow2(up as nat)) * ub) by (nonlinear_arith)
                    requires
                        num * pow2(down as nat) == dividend * pow2(up as nat) * pow2(xb as nat),
                        dividend == p * mb,
                        ub == mb * pow2(xb as nat),
                ;
                lemma_nearest_of_equal_values(
                    num,
                    ub,
                    p as nat * pow2(up as nat),
                    pow2(down as nat),
                );
            }
            round_scaled(p, up, down)
        } else {
            proof {
                assert(p * pow2(up as nat) * ub < num * pow2(down as nat) < (p + 1) * pow2(
                    up as nat,
                ) * ub) by (nonlinear_arith)
                    requires
                        num * pow2(down as nat) == dividend * pow2(up as nat) * pow2(xb as nat),
                        dividend == p * mb + rest,
                        0 < rest < mb,
                        ub == mb * pow2(xb as nat),
                        pow2(up as nat) > 0,
                        pow2(xb as nat) > 0,
                ;
            }
            round_inexact(p, up, down, Ghost(num), Ghost(ub))
        };
        with_sign(negative, magnitude)
    }

    /// The square root of `self`.
    pub fn square_root(self) -> (r: Scalar)
        ensures
            r == self.root(),
    {
        reveal(Scalar::root);
        let a: u32 = self.bits % SIGN_BIT;
        if a > INFINITY_BITS || (self.bits >= SIGN_BIT && a != 0) {
            return Scalar { bits: NAN_BITS };
        }
        if a == 0 || a == INFINITY_BITS {
            return self;
        }
        let (ma, xa) = parts(a);
        let ghost ua: nat = magnitude_units(a as nat);
        let ghost n: nat = ua * pow2(UNIT_EXPONENT as nat);
        proof {
            lemma2_to64();
            vstd::arithmetic::power2::lemma2_to64_rest();
            lemma_pow2_pos(xa as nat);
            crate::scalar::lemma_magnitude_units_increase(0, a as nat);
            assert(ma > 0) by (nonlinear_arith)
                requires
                    ua == ma * pow2(xa as nat),
                    ua > 0,
            ;
        }
        // The number under the root as a whole number times an even power
        // of two.
        let exponent: u32 = xa + UNIT_EXPONENT;
        let odd: bool = exponent % 2 == 1;
        let m1: u64 = if odd {
            2 * (ma as u64)
        } else {
            ma as u64
        };
        let up: u32 = exponent / 2;
        proof {
            lemma_pow2_adds(xa as nat, UNIT_EXPONENT as nat);
            lemma_pow2_adds(up as nat, up as nat);
            if odd {
                vstd::arithmetic::power2::lemma_pow2_unfold(exponent as nat);
            }
            assert(n == m1 * (pow2(up as nat) * pow2(up as nat))) by (nonlinear_arith)
                requires
                    n == ua * pow2(UNIT_EXPONENT as nat),
                    ua == ma * pow2(xa as nat),
                    pow2(exponent as nat) == pow2(xa as nat) * pow2(UNIT_EXPONENT as nat),
                    odd ==> pow2(exponent as nat) == 2 * (pow2(up as nat) * pow2(up as nat)) && m1
                        == 2 * ma,
                    !odd ==> pow2(exponent as nat) == pow2(up as nat) * pow2(up as nat) && m1
                        == ma,
            ;
        }
        // Scaled by an even power of two to 51 or 52 digits, of whose root
        // 26 are whole.
        let len: u32 = bit_length(m1);
        proof {
            if len > 25 {
                vstd::arithmetic::power2::lemma_pow2_strictly_increases(25, (len - 1) as nat);
            }
        }
        let down: u32 = (52 - len) / 2;
        let scale: u64 = power_of_two(2 * down);
        proof {
            lemma_pow2_adds(down as nat, down as nat);
            lemma_pow2_adds(len as nat, (2 * down) as nat);
            lemma_pow2_adds((len - 1) as nat, (2 * down) as nat);
            if len + 2 * down < 52 {
                vstd::arithmetic::power2::lemma_pow2_strictly_increases(
                    (len + 2 * down) as nat,
                    52,
                );
            }
            if 50 < len - 1 + 2 * down {
                vstd::arithmetic::power2::lemma_pow2_strictly_increases(
                    50,
                    (len - 1 + 2 * down) as nat,
                );
            }
            assert(pow2(50) <= m1 * scale < pow2(52)) by (nonlinear_arith)
                requires
                    pow2((len - 1) as nat) <= m1 < pow2(len as nat),
                    scale > 0,
                    pow2((len + 2 * down) as nat) == pow2(len as nat) * scale,
                    pow2((len - 1 + 2 * down) as nat) == pow2((len - 1) as nat) * scale,
                    pow2((len + 2 * down) as nat) <= pow2(52),
                    pow2(50) <= pow2((len - 1 + 2 * down) as nat),
            ;
        }
        let m2: u64 = m1 * scale;
        let r: u64 = integer_root(m2);
        assert(r * r <= 0x10_0000_0000_0000) by (nonlinear_arith)
            requires
                r * r <= m2,
                m2 < 0x10_0000_0000_0000,
        ;
        let exact: bool = r * r == m2;
        proof {
            let u: nat = pow2(up as nat);
            let d: nat = pow2(down as nat);
            lemma_pow2_pos(up as nat);
            lemma_pow2_pos(down as nat);
            // n * d^2 is m2 * u^2, and r^2 <= m2 < (r + 1)^2.
            assert(n * (d * d) == m2 * (u * u)) by (nonlinear_arith)
                requires
                    n == m1 * (u * u),
                    m2 == m1 * scale,
                    scale == d * d,
            ;
            assert((r * u) * (r * u) == (r * r) * (u * u) && ((r + 1) * u) * ((r + 1) * u) == ((r
                + 1) * (r + 1)) * (u * u)) by (nonlinear_arith);
            assert((r * r) * (u * u) <= m2 * (u * u) < ((r + 1) * (r + 1)) * (u * u))
                by (nonlinear_arith)
                requires
                    r * r <= m2 < (r + 1) * (r + 1),
                    u > 0,
            ;
            assert(!exact ==> (r * r) * (u * u) < m2 * (u * u)) by (nonlinear_arith)
                requires
                    !exact ==> r * r < m2,
                    u > 0,
            ;
        }
        let magnitude: u32 = round_root(r, exact, up, down, Ghost(n));
        with_sign(false, magnitude)
    }

    /// The number nearest to a whole number.
    pub fn from_u32(n: u32) -> (r: Scalar)
        ensures
            r == Scalar::whole(n as nat),
    {
        reveal(Scalar::whole);
        let magnitude: u32 = round_scaled(n as u64, UNIT_EXPONENT, 0);
        proof {
            lemma2_to64();
        }
        with_sign(false, magnitude)
    }

    /// `self == other` as numbers.
    pub fn is_same_number(self, other: Scalar) -> (r: bool)
        ensures
            r == self.same_number(other),
    {
        let a: u32 = self.bits % SIGN_BIT;
        let b: u32 = other.bits % SIGN_BIT;
        proof {
            self.lemma_order_by_key(other);
        }
        a <= INFINITY_BITS && b <= INFINITY_BITS && (self.bits == other.bits || (a == 0 && b
            == 0))
    }

    /// The larger of the number and zero; zero for a NaN.
    pub fn max_zero(self) -> (r: Scalar)
        ensures
            r == self.or_zero(),
    {
        if self.is_positive() {
            self
        } else {
            Scalar { bits: ZERO_BITS }
        }
    }

    /// The larger of `self` and `other`.
    pub fn max(self, other: Scalar) -> (r: Scalar)
        ensures
            r == self.larger(other),
    {
        if self.bits % SIGN_BIT > INFINITY_BITS || self.lt(other) {
            other
        } else {
            self
        }
    }

    /// `self - other`.
    pub fn minus(self, other: Scalar) -> (r: Scalar)
        ensures
            r == self.difference(other),
    {
        self.plus(other.negated())
    }
}

/// Puts a sign on a magnitude pattern.
fn with_sign(negative: bool, magnitude: u32) -> (r: Scalar)
    requires
        magnitude <= INFINITY_BITS,
    ensures
        r == signed(negative, magnitude as nat),
        r.magnitude() == magnitude,
        r.sign_negative() == negative,
{
    if negative {
        Scalar { bits: SIGN_BIT + magnitude }
    } else {
        Scalar { bits: magnitude }
    }
}

/// Takes a finite magnitude pattern apart: the number it denotes is the
/// significand times 2 to the exponent, in units of 2^-149.
fn parts(magnitude: u32) -> (r: (u32, u32))
    requires
        magnitude < INFINITY_BITS,
    ensures
        magnitude_units(magnitude as nat) == r.0 * pow2(r.1 as nat),
        r.0 < 0x100_0000,
        r.1 <= 253,
        magnitude == grid_pattern(r.1 as nat, r.0 as nat),
        r.1 == 0 || r.0 >= HIDDEN_BIT,
{
    let exponent: u32 = magnitude / HIDDEN_BIT;
    let fraction: u32 = magnitude % HIDDEN_BIT;
    proof {
        lemma2_to64();
    }
    if exponent == 0 {
        assert(fraction * pow2(0) == fraction);
        (fraction, 0)
    } else {
        (HIDDEN_BIT + fraction, exponent - 1)
    }
}

/// The sum of two finite numbers, the first of which has the exponent that
/// is not the smaller one. Each number is given by its sign, its magnitude
/// pattern and the parts of that pattern.
fn add_aligned(
    a_negative: bool,
    a: u32,
    ma: u32,
    xa: u32,
    b_negative: bool,
    b: u32,
    mb: u32,
    xb: u32,
) -> (r: Scalar)
    requires
        a < INFINITY_BITS,
        b < INFINITY_BITS,
        magnitude_units(a as nat) == ma * pow2(xa as nat),
        magnitude_units(b as nat) == mb * pow2(xb as nat),
        ma < 0x100_0000,
        mb < 0x100_0000,
        xb <= xa <= 253,
        a == grid_pattern(xa as nat, ma as nat),
        xa == 0 || ma >= HIDDEN_BIT,
    ensures
        r == signed(a_negative, a as nat).sum(signed(b_negative, b as nat)),
        r == signed(b_negative, b as nat).sum(signed(a_negative, a as nat)),
{
    reveal(Scalar::sum);
    let ghost sa = signed(a_negative, a as nat);
    let ghost sb = signed(b_negative, b as nat);
    let ghost ua: int = magnitude_units(a as nat) as int;
    let ghost ub: int = magnitude_units(b as nat) as int;
    let ghost step: nat = pow2(xb as nat);
    proof {
        lemma2_to64();
        lemma_pow2_pos(xb as nat);
        assert(sa.magnitude() == a && sb.magnitude() == b);
        assert(sa.sign_negative() == a_negative && sb.sign_negative() == b_negative);
        assert(!sa.is_nan() && !sb.is_nan() && !sa.is_infinite() && !sb.is_infinite());
        assert(sa.units() + sb.units() == sb.units() + sa.units());
    }
    let gap: u32 = xa - xb;
    if gap > NEAR_GAP {
        proof {
            lemma_sum_far(a_negative, a, ma, xa, b_negative, b, mb, xb);
        }
        return with_sign(a_negative, a);
    }
    let scale: u64 = power_of_two(gap);
    proof {
        lemma_pow2_adds(gap as nat, xb as nat);
        vstd::arithmetic::power2::lemma2_to64_rest();
        assert(pow2(gap as nat) <= pow2(32)) by {
            if gap < 32 {
                vstd::arithmetic::power2::lemma_pow2_strictly_increases(gap as nat, 32);
            }
        }
        assert(ma * scale < 0x100_0000 * 0x1_0000_0000) by (nonlinear_arith)
            requires
                ma < 0x100_0000,
                scale <= 0x1_0000_0000,
        ;
    }
    let shifted: u64 = (ma as u64) * scale;
    proof {
        assert(ua == shifted * step) by (nonlinear_arith)
            requires
                ua == ma * pow2(xa as nat),
                shifted == ma * pow2(gap as nat),
                pow2(xa as nat) == pow2(gap as nat) * step,
        ;
    }
    if a_negative == b_negative {
        let total: u64 = shifted + mb as u64;
        proof {
            assert(ua + ub == total * step) by (nonlinear_arith)
                requires
                    ua == shifted * step,
                    ub == mb * step,
                    total == shifted + mb,
            ;
            assert(total > 0 ==> total * step > 0) by (nonlinear_arith)
                requires
                    step > 0,
            ;
            lemma_round_of_zero();
        }
        let magnitude: u32 = round_scaled(total, xb, 0);
        with_sign(a_negative, magnitude)
    } else if shifted > mb as u64 {
        let total: u64 = shifted - mb as u64;
        proof {
            assert(ua - ub == total * step) by (nonlinear_arith)
                requires
                    ua == shifted * step,
                    ub == mb * step,
                    total == shifted - mb,
            ;
            assert(total * step > 0) by (nonlinear_arith)
                requires
                    step > 0,
                    total > 0,
            ;
        }
        let magnitude: u32 = round_scaled(total, xb, 0);
        with_sign(a_negative, magnitude)
    } else if shifted < mb as u64 {
        let total: u64 = mb as u64 - shifted;
        proof {
            assert(ub - ua == total * step) by (nonlinear_arith)
                requires
                    ua == shifted * step,
                    ub == mb * step,
                    total == mb - shifted,
            ;
            assert(total * step > 0) by (nonlinear_arith)
                requires
                    step > 0,
                    total > 0,
            ;
        }
        let magnitude: u32 = round_scaled(total, xb, 0);
        with_sign(b_negative, magnitude)
    } else {
        with_sign(false, 0)
    }
}

/// Zero rounds to zero.
proof fn lemma_round_of_zero()
    ensures
        nearest(0, 1) == 0,
{
    lemma2_to64();
    lemma_nearest_from_grid(0, 1, 0, 0);
}

/// Where the exponents of two finite numbers are far apart, their sum
/// rounds to the one with the larger exponent.
proof fn lemma_sum_far(
    a_negative: bool,
    a: u32,
    ma: u32,
    xa: u32,
    b_negative: bool,
    b: u32,
    mb: u32,
    xb: u32,
)
    requires
        a < INFINITY_BITS,
        b < INFINITY_BITS,
        magnitude_units(a as nat) == ma * pow2(xa as nat),
        magnitude_units(b as nat) == mb * pow2(xb as nat),
        ma < 0x100_0000,
        mb < 0x100_0000,
        xb + NEAR_GAP < xa <= 253,
        a == grid_pattern(xa as nat, ma as nat),
        ma >= HIDDEN_BIT,
    ensures
        signed(a_negative, a as nat).sum(signed(b_negative, b as nat)) == signed(
            a_negative,
            a as nat,
        ),
{
    reveal(Scalar::sum);
    let sa = signed(a_negative, a as nat);
    let sb = signed(b_negative, b as nat);
    let ua: nat = magnitude_units(a as nat);
    let ub: nat = magnitude_units(b as nat);
    let step: nat = pow2(xa as nat);
    let fine: nat = pow2((xa - 1) as nat);
    lemma2_to64();
    lemma_pow2_pos(xa as nat);
    lemma_pow2_pos(xb as nat);
    vstd::arithmetic::power2::lemma_pow2_unfold(xa as nat);
    assert(sa.magnitude() == a && sb.magnitude() == b);
    assert(sa.sign_negative() == a_negative && sb.sign_negative() == b_negative);
    // The smaller number is less than a quarter of the finer step.
    lemma_pow2_adds(24, xb as nat);
    lemma_pow2_adds(2, (24 + xb) as nat);
    if 26 + xb < xa - 1 {
        vstd::arithmetic::power2::lemma_pow2_strictly_increases((26 + xb) as nat, (xa - 1) as nat);
    }
    assert(4 * ub < fine) by (nonlinear_arith)
        requires
            ub == mb * pow2(xb as nat),
            mb < 0x100_0000,
            pow2(24) == 0x100_0000,
            pow2((24 + xb) as nat) == pow2(24) * pow2(xb as nat),
            pow2((26 + xb) as nat) == 4 * pow2((24 + xb) as nat),
            pow2((26 + xb) as nat) <= fine,
            pow2(xb as nat) > 0,
    ;
    assert(ua >= HIDDEN_BIT * step) by (nonlinear_arith)
        requires
            ua == ma * step,
            ma >= HIDDEN_BIT,
    ;
    assert(ua > ub && ua > 0) by (nonlinear_arith)
        requires
            ua >= HIDDEN_BIT * step,
            step == 2 * fine,
            4 * ub < fine,
            fine > 0,
    ;
    let total: int = sa.units() + sb.units();
    let size: nat = if a_negative == b_negative {
        ua + ub
    } else {
        (ua - ub) as nat
    };
    assert(total == if a_negative {
        -(size as int)
    } else {
        size as int
    });
    assert(size > 0);
    if a_negative == b_negative || ub == 0 {
        // At or just above the larger number.
        assert(ma * (step * 1) <= size < (ma + 1) * (step * 1) && 2 * size < (2 * ma + 1) * (step
            * 1)) by (nonlinear_arith)
            requires
                size == ua + ub,
                ua == ma * step,
                step == 2 * fine,
                4 * ub < fine,
        ;
        lemma_nearest_from_grid(size, 1, xa as nat, ma as nat);
    } else if ma > HIDDEN_BIT {
        // Just below the larger number, on its own grid.
        assert((ma - 1) * (step * 1) <= size < (ma - 1 + 1) * (step * 1) && 2 * size > (2 * (ma
            - 1) + 1) * (step * 1)) by (nonlinear_arith)
            requires
                size == ua - ub,
                ua == ma * step,
                step == 2 * fine,
                4 * ub < fine,
                ub > 0,
        ;
        lemma_nearest_from_grid(size, 1, xa as nat, (ma - 1) as nat);
        assert(grid_pattern(xa as nat, (ma - 1) as nat) + 1 == a);
    } else {
        // Just below a power of two, where the grid is finer.
        let top: nat = 0xff_ffff;
        assert(top * (fine * 1) <= size < (top + 1) * (fine * 1) && 2 * size > (2 * top + 1) * (
        fine * 1)) by (nonlinear_arith)
            requires
                size == ua - ub,
                ua == ma * step,
                ma == 0x80_0000,
                top == 0xff_ffff,
                step == 2 * fine,
                4 * ub < fine,
                ub > 0,
        ;
        lemma_nearest_from_grid(size, 1, (xa - 1) as nat, top);
        assert(grid_pattern((xa - 1) as nat, top) + 1 == a);
    }
}

} // verus!
