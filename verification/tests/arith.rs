use raytracer::arith::NAN_BITS;
use raytracer::scalar::Scalar;

fn s(x: f32) -> Scalar {
    Scalar::from_bits(x.to_bits())
}

fn agree(seen: Scalar, expected: f32, what: &str) {
    if expected.is_nan() {
        assert_eq!(seen.to_bits(), NAN_BITS, "{what}");
    } else {
        assert_eq!(seen.to_bits(), expected.to_bits(), "{what}");
    }
}

fn check(a: u32, b: u32) {
    let (x, y) = (f32::from_bits(a), f32::from_bits(b));
    let (sa, sb) = (Scalar::from_bits(a), Scalar::from_bits(b));
    agree(sa.times(sb), x * y, &format!("{a:#x} * {b:#x}"));
    agree(sa.plus(sb), x + y, &format!("{a:#x} + {b:#x}"));
    agree(sa.minus(sb), x - y, &format!("{a:#x} - {b:#x}"));
    agree(sa.over(sb), x / y, &format!("{a:#x} / {b:#x}"));
    agree(sa.square_root(), x.sqrt(), &format!("sqrt {a:#x}"));
}

const LANDMARKS: [u32; 40] = [
    0x0000_0000,
    0x8000_0000,
    0x0000_0001,
    0x8000_0001,
    0x0000_0002,
    0x0000_0003,
    0x007f_ffff,
    0x0080_0000,
    0x0080_0001,
    0x00ff_ffff,
    0x0100_0000,
    0x3380_0000,
    0x3400_0000,
    0x3f00_0000,
    0x3f7f_ffff,
    0x3f80_0000,
    0x3f80_0001,
    0x3f80_0002,
    0x3fc0_0000,
    0x4000_0000,
    0x4040_0000,
    0x4b7f_ffff,
    0x4b80_0000,
    0x4b80_0001,
    0x5f00_0000,
    0x7e80_0000,
    0x7f00_0000,
    0x7f7f_fffe,
    0x7f7f_ffff,
    0x7f80_0000,
    0xff80_0000,
    0x7fc0_0000,
    0xffc0_0001,
    0x7f80_0001,
    0xbf80_0000,
    0xbf80_0001,
    0xff7f_ffff,
    0x8080_0000,
    0x807f_ffff,
    0xc0a0_0000,
];

#[test]
fn negation_flips_the_sign_and_nothing_else() {
    for bits in LANDMARKS {
        assert_eq!(Scalar::from_bits(bits).negated().to_bits(), bits ^ 0x8000_0000);
    }
    assert_eq!(s(1.5).negated(), s(-1.5));
    assert_eq!(s(-0.0).negated(), s(0.0));
}

#[test]
fn sums_and_products_agree_with_the_hardware_on_landmarks() {
    for a in LANDMARKS {
        for b in LANDMARKS {
            check(a, b);
        }
    }
}

#[test]
fn small_whole_numbers_add_and_multiply_exactly() {
    for i in -40i32..40 {
        for j in -40i32..40 {
            let (x, y) = (i as f32, j as f32);
            assert_eq!(s(x).times(s(y)).to_bits(), (x * y).to_bits());
            if i * j != 0 {
                assert_eq!(s(x).times(s(y)), s((i * j) as f32));
            }
            if i + j != 0 {
                assert_eq!(s(x).plus(s(y)), s((i + j) as f32));
            }
            if i != j {
                assert_eq!(s(x).minus(s(y)), s((i - j) as f32));
            }
        }
    }
    assert_eq!(s(3.0).plus(s(-3.0)).to_bits(), 0);
    assert_eq!(s(-3.0).plus(s(3.0)).to_bits(), 0);
    assert_eq!(s(-0.0).plus(s(-0.0)).to_bits(), 0x8000_0000);
    assert_eq!(s(-0.0).plus(s(0.0)).to_bits(), 0);
    assert_eq!(s(0.0).minus(s(0.0)).to_bits(), 0);
    assert_eq!(s(-0.0).minus(s(0.0)).to_bits(), 0x8000_0000);
}

#[test]
fn halfway_cases_go_to_the_even_pattern() {
    // 1 + 2^-24 lies halfway between 1 and the next number.
    assert_eq!(s(1.0).plus(Scalar::from_bits(0x3380_0000)).to_bits(), 0x3f80_0000);
    // The number after 1, plus 2^-24, lies halfway between two numbers.
    assert_eq!(
        Scalar::from_bits(0x3f80_0001).plus(Scalar::from_bits(0x3380_0000)).to_bits(),
        0x3f80_0002
    );
    // (1 + 2^-23) * (1 + 2^-23) is just above 1 + 2^-22.
    assert_eq!(
        Scalar::from_bits(0x3f80_0001).times(Scalar::from_bits(0x3f80_0001)).to_bits(),
        0x3f80_0002
    );
    // Half of the smallest number rounds to zero, three halves to two.
    assert_eq!(Scalar::from_bits(1).times(s(0.5)).to_bits(), 0);
    assert_eq!(Scalar::from_bits(3).times(s(0.5)).to_bits(), 2);
    assert_eq!(Scalar::from_bits(1).times(s(0.75)).to_bits(), 1);
}

#[test]
fn quotients_round_to_the_nearest_number() {
    assert_eq!(s(1.0).over(s(3.0)).to_bits(), 0x3eaa_aaab);
    assert_eq!(s(2.0).over(s(3.0)).to_bits(), 0x3f2a_aaab);
    assert_eq!(s(75.0).over(s(15.0)), s(5.0));
    assert_eq!(s(1.0).over(s(-4.0)), s(-0.25));
    assert_eq!(s(1.0).over(s(0.0)), s(f32::INFINITY));
    assert_eq!(s(-1.0).over(s(0.0)), s(f32::NEG_INFINITY));
    assert_eq!(s(1.0).over(s(-0.0)), s(f32::NEG_INFINITY));
    assert_eq!(s(0.0).over(s(-5.0)).to_bits(), 0x8000_0000);
    assert_eq!(s(5.0).over(s(f32::INFINITY)).to_bits(), 0);
    assert_eq!(s(0.0).over(s(0.0)).to_bits(), NAN_BITS);
    assert_eq!(s(f32::INFINITY).over(s(f32::NEG_INFINITY)).to_bits(), NAN_BITS);
    assert_eq!(Scalar::from_bits(1).over(s(2.0)).to_bits(), 0);
    assert_eq!(Scalar::from_bits(3).over(s(2.0)).to_bits(), 2);
    assert_eq!(s(f32::MAX).over(s(0.5)), s(f32::INFINITY));
}

#[test]
fn roots_round_to_the_nearest_number() {
    assert_eq!(s(4.0).square_root(), s(2.0));
    assert_eq!(s(100.0).square_root(), s(10.0));
    assert_eq!(s(2.0).square_root().to_bits(), 0x3fb5_04f3);
    assert_eq!(s(0.25).square_root(), s(0.5));
    assert_eq!(s(0.0).square_root().to_bits(), 0);
    assert_eq!(s(-0.0).square_root().to_bits(), 0x8000_0000);
    assert_eq!(s(f32::INFINITY).square_root(), s(f32::INFINITY));
    assert_eq!(s(-1.0).square_root().to_bits(), NAN_BITS);
    assert_eq!(s(f32::NEG_INFINITY).square_root().to_bits(), NAN_BITS);
    assert_eq!(s(f32::NAN).square_root().to_bits(), NAN_BITS);
    assert_eq!(Scalar::from_bits(1).square_root().to_bits(), 0x1a35_04f3);
    for whole in 0..2000u32 {
        assert_eq!(s((whole * whole) as f32).square_root(), s(whole as f32));
    }
}

#[test]
fn roots_agree_with_the_hardware_on_every_exponent() {
    for exponent in 0u32..=255 {
        for fraction in [0u32, 1, 2, 0x3f_ffff, 0x40_0000, 0x40_0001, 0x7f_fffe, 0x7f_ffff] {
            let bits = (exponent << 23) | fraction;
            agree(
                Scalar::from_bits(bits).square_root(),
                f32::from_bits(bits).sqrt(),
                &format!("sqrt {bits:#x}"),
            );
        }
    }
}

#[test]
fn what_is_too_large_comes_to_infinity() {
    assert_eq!(s(f32::MAX).plus(s(f32::MAX)), s(f32::INFINITY));
    assert_eq!(s(f32::MAX).times(s(2.0)), s(f32::INFINITY));
    assert_eq!(s(f32::MIN).times(s(2.0)), s(f32::NEG_INFINITY));
    assert_eq!(s(f32::MAX).plus(Scalar::from_bits(0x7300_0000)), s(f32::INFINITY));
    assert_eq!(s(f32::MAX).plus(Scalar::from_bits(0x72ff_ffff)), s(f32::MAX));
    assert_eq!(s(1.0e30).times(s(1.0e30)), s(f32::INFINITY));
}

#[test]
fn what_is_no_number_has_one_pattern() {
    assert_eq!(s(f32::INFINITY).minus(s(f32::INFINITY)).to_bits(), NAN_BITS);
    assert_eq!(s(f32::INFINITY).plus(s(f32::NEG_INFINITY)).to_bits(), NAN_BITS);
    assert_eq!(s(f32::INFINITY).times(s(0.0)).to_bits(), NAN_BITS);
    assert_eq!(s(-0.0).times(s(f32::NEG_INFINITY)).to_bits(), NAN_BITS);
    assert_eq!(s(f32::NAN).times(s(1.0)).to_bits(), NAN_BITS);
    assert_eq!(s(1.0).plus(Scalar::from_bits(0xffff_ffff)).to_bits(), NAN_BITS);
    assert_eq!(s(f32::INFINITY).plus(s(f32::INFINITY)), s(f32::INFINITY));
    assert_eq!(s(f32::NEG_INFINITY).times(s(-2.0)), s(f32::INFINITY));
}

#[test]
fn sums_and_products_agree_with_the_hardware_on_many_patterns() {
    let mut state: u64 = 0x0123_4567_89ab_cdef;
    let mut next = || {
        state = state
            .wrapping_mul(6364136223846793005)
            .wrapping_add(1442695040888963407);
        (state >> 32) as u32
    };
    for _ in 0..300_000 {
        check(next(), next());
    }
}

#[test]
fn sums_agree_with_the_hardware_for_close_exponents() {
    let mut state: u64 = 0xfeed_beef_cafe_f00d;
    let mut next = || {
        state = state
            .wrapping_mul(6364136223846793005)
            .wrapping_add(1442695040888963407);
        (state >> 32) as u32
    };
    for _ in 0..300_000 {
        let a = next();
        let exponent = (a >> 23) & 0xff;
        let shift = next() % 70;
        let other = (exponent + 35).saturating_sub(shift).min(254);
        let b = (next() & 0x807f_ffff) | (other << 23);
        check(a, b);
        check(b, a);
    }
}

#[test]
fn products_agree_with_the_hardware_near_the_smallest_numbers() {
    let mut state: u64 = 0x5555_aaaa_3333_cccc;
    let mut next = || {
        state = state
            .wrapping_mul(6364136223846793005)
            .wrapping_add(1442695040888963407);
        (state >> 32) as u32
    };
    for _ in 0..300_000 {
        let a = next();
        let exponent = (a >> 23) & 0xff;
        // Pick the other exponent so that the product lands near 2^-126.
        let target = 127 + 127 - 126 + (next() % 60) as i32 - 40;
        let other = (target - exponent as i32).clamp(0, 254) as u32;
        let b = (next() & 0x807f_ffff) | (other << 23);
        check(a, b);
    }
}

#[test]
fn whole_numbers_become_the_nearest_number() {
    for whole in [0u32, 1, 2, 3, 255, 256, 720, 1280, 65535, 16_777_215, 16_777_216] {
        assert_eq!(Scalar::from_u32(whole), s(whole as f32), "{whole}");
    }
    // Beyond 2^24 not every whole number is a number of the format.
    for whole in [16_777_217u32, 16_777_218, 16_777_219, 33_554_433, 4_294_967_167, u32::MAX] {
        assert_eq!(Scalar::from_u32(whole), s(whole as f32), "{whole}");
    }
    let mut state: u64 = 0x1357_9bdf_0246_8ace;
    for _ in 0..100_000 {
        state = state
            .wrapping_mul(6364136223846793005)
            .wrapping_add(1442695040888963407);
        let whole = (state >> 32) as u32 >> (state % 32);
        assert_eq!(Scalar::from_u32(whole), s(whole as f32), "{whole}");
    }
}

#[test]
fn the_same_number_may_have_two_patterns() {
    assert!(s(0.0).is_same_number(s(-0.0)));
    assert!(s(-0.0).is_same_number(s(0.0)));
    assert!(s(1.5).is_same_number(s(1.5)));
    assert!(!s(1.5).is_same_number(s(-1.5)));
    assert!(!s(1.5).is_same_number(Scalar::from_bits(0x3fc0_0001)));
    assert!(!s(f32::NAN).is_same_number(s(f32::NAN)));
    assert!(!s(f32::NAN).is_same_number(s(0.0)));
    assert!(s(f32::INFINITY).is_same_number(s(f32::INFINITY)));
    for a in LANDMARKS {
        for b in LANDMARKS {
            assert_eq!(
                Scalar::from_bits(a).is_same_number(Scalar::from_bits(b)),
                f32::from_bits(a) == f32::from_bits(b),
                "{a:#x} == {b:#x}"
            );
        }
    }
}

#[test]
fn what_is_not_above_zero_becomes_zero() {
    assert_eq!(s(0.75).max_zero(), s(0.75));
    assert_eq!(s(f32::INFINITY).max_zero(), s(f32::INFINITY));
    assert_eq!(s(-0.75).max_zero().to_bits(), 0);
    assert_eq!(s(-0.0).max_zero().to_bits(), 0);
    assert_eq!(s(0.0).max_zero().to_bits(), 0);
    assert_eq!(s(f32::NAN).max_zero().to_bits(), 0);
    assert_eq!(s(f32::NEG_INFINITY).max_zero().to_bits(), 0);
}

#[test]
fn one_and_zero_change_nothing() {
    for bits in LANDMARKS {
        let x = Scalar::from_bits(bits);
        if !f32::from_bits(bits).is_nan() {
            assert_eq!(x.times(s(1.0)), x, "{bits:#x}");
            assert_eq!(s(1.0).times(x), x, "{bits:#x}");
            if f32::from_bits(bits) != 0.0 {
                assert_eq!(x.plus(s(0.0)), x, "{bits:#x}");
                assert_eq!(s(0.0).plus(x), x, "{bits:#x}");
            }
        }
    }
}

#[test]
fn the_larger_of_two_is_taken() {
    assert_eq!(s(1.0).max(s(2.0)), s(2.0));
    assert_eq!(s(2.0).max(s(1.0)), s(2.0));
    assert_eq!(s(-2.0).max(s(-1.0)), s(-1.0));
    assert_eq!(s(f32::NAN).max(s(1.0)), s(1.0));
    assert_eq!(s(1.0).max(s(f32::NAN)), s(1.0));
    assert_eq!(s(1.4142135).max(s(1.0)), s(1.4142135));
    for a in LANDMARKS {
        for b in LANDMARKS {
            let (x, y) = (f32::from_bits(a), f32::from_bits(b));
            if !x.is_nan() && !y.is_nan() && x != y {
                assert_eq!(Scalar::from_bits(a).max(Scalar::from_bits(b)), s(x.max(y)));
            }
        }
    }
}
