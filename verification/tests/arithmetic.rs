use ember_rs::quantize::{
    apply_activation, clamp_i8, multiply_by_quantized_multiplier, output_channel_multiplier_shift,
    quantize_multiplier, requantize, round_divide, round_f32_to_i32, saturating_add,
    saturating_left_shift, saturating_mul, Double,
};
use ember_rs::single::{Single, ONE_BITS};
use ember_rs::types::{FusedActivation, PerChannelQuantParam, QuantParam};

/// Bit patterns of singles of every kind: zeros, subnormals, normals around powers
/// of two, the largest ones, infinities and NaNs.
fn patterns() -> Vec<u32> {
    let mut bits = vec![
        0,
        1,
        2,
        3,
        0x007f_ffff,
        0x0080_0000,
        0x0080_0001,
        0x00ff_ffff,
        0x3f7f_ffff,
        ONE_BITS,
        0x3f80_0001,
        0x3fc0_0000,
        0x4b00_0001,
        0x4b7f_ffff,
        0x7f00_0000,
        0x7f7f_ffff,
        0x7f80_0000,
        0x7f80_0001,
        0x7fc0_0000,
    ];
    let mut state = 0x1234_5678u32;
    for _ in 0..200 {
        state = state.wrapping_mul(1_664_525).wrapping_add(1_013_904_223);
        bits.push(state & 0x7fff_ffff);
        // A number of ordinary size.
        bits.push(0x3a00_0000 + (state >> 5) % 0x0c00_0000);
    }
    let negative: Vec<u32> = bits.iter().map(|b| b | 0x8000_0000).collect();
    bits.extend(negative);
    bits
}

fn same(left: f32, right: f32) -> bool {
    (left.is_nan() && right.is_nan()) || left.to_bits() == right.to_bits()
}

#[test]
fn bits_round_trip() {
    for bits in patterns() {
        let value = f32::from_bits(bits);
        let back = Single::from_bits(bits).to_bits();
        if value.is_nan() {
            assert_eq!(back, 0x7fc0_0000);
        } else {
            assert_eq!(back, bits);
        }
    }
}

#[test]
fn products_match_the_machine() {
    for a in patterns() {
        for b in patterns() {
            let r = Single::from_bits(a).times(Single::from_bits(b)).to_bits();
            let e = f32::from_bits(a) * f32::from_bits(b);
            assert!(same(f32::from_bits(r), e), "{a:#x} * {b:#x}: {r:#x}");
        }
    }
}

#[test]
fn quotients_match_the_machine() {
    for a in patterns() {
        for b in patterns() {
            let r = Single::from_bits(a).over(Single::from_bits(b)).to_bits();
            let e = f32::from_bits(a) / f32::from_bits(b);
            assert!(same(f32::from_bits(r), e), "{a:#x} / {b:#x}: {r:#x}");
        }
    }
}

#[test]
fn sums_match_the_machine() {
    for a in patterns() {
        for b in patterns() {
            let r = Single::from_bits(a).plus(Single::from_bits(b)).to_bits();
            let e = f32::from_bits(a) + f32::from_bits(b);
            assert!(same(f32::from_bits(r), e), "{a:#x} + {b:#x}: {r:#x}");
        }
    }
}

#[test]
fn sums_and_products_commute() {
    for a in patterns().into_iter().step_by(7) {
        for b in patterns().into_iter().step_by(5) {
            let (x, y) = (Single::from_bits(a), Single::from_bits(b));
            assert_eq!(x.plus(y).to_bits(), y.plus(x).to_bits());
            assert_eq!(x.times(y).to_bits(), y.times(x).to_bits());
        }
    }
}

#[test]
fn one_is_neutral() {
    for bits in patterns() {
        let value = Single::from_bits(bits);
        let one = Single::from_bits(ONE_BITS);
        assert_eq!(value.times(one).to_bits(), value.to_bits());
        assert_eq!(value.over(one).to_bits(), value.to_bits());
    }
}

#[test]
fn integers_match_the_machine() {
    let mut values = vec![0, 1, -1, 127, -128, 16_777_216, 16_777_217, 16_777_219, -16_777_217];
    values.extend([i32::MAX, i32::MIN, i32::MAX - 63, i32::MAX - 64, 33_554_431, -33_554_435]);
    for n in values {
        assert_eq!(Single::from_i32(n).to_bits(), (n as f32).to_bits(), "{n}");
    }
}

#[test]
fn zero_is_recognised() {
    assert!(Single::from_bits(0).is_zero());
    assert!(Single::from_bits(0x8000_0000).is_zero());
    assert!(!Single::from_bits(1).is_zero());
    assert!(!Single::from_bits(f32::NAN.to_bits()).is_zero());
    assert!(!Single::from_bits(f32::INFINITY.to_bits()).is_zero());
}

#[test]
fn rounding_matches_libm() {
    for bits in patterns() {
        let expected = libm::roundf(f32::from_bits(bits)) as i32;
        assert_eq!(round_f32_to_i32(Single::from_bits(bits)), expected, "{bits:#x}");
    }
    for (value, expected) in [(0.5, 1), (-0.5, -1), (1.5, 2), (2.5, 3), (-2.5, -3), (0.49999997, 0)]
    {
        let value: f32 = value;
        assert_eq!(round_f32_to_i32(Single::from_bits(value.to_bits())), expected);
    }
    assert_eq!(round_f32_to_i32(Single::from_bits(f32::NAN.to_bits())), 0);
    assert_eq!(round_f32_to_i32(Single::from_bits(3e9f32.to_bits())), i32::MAX);
    assert_eq!(round_f32_to_i32(Single::from_bits((-3e9f32).to_bits())), i32::MIN);
}

/// The multiplier and shift of a scale, in floating point.
fn float_multiplier(scale: f64) -> (i32, i32) {
    if scale <= 0.0 {
        return (0, 0);
    }
    let mut significand = scale;
    let mut shift = 0i32;
    while significand < 0.5 {
        significand *= 2.0;
        shift -= 1;
    }
    while significand >= 1.0 {
        significand /= 2.0;
        shift += 1;
    }
    let mut q = libm::round(significand * (1i64 << 31) as f64) as i64;
    if q == 1i64 << 31 {
        q /= 2;
        shift += 1;
    }
    (q as i32, shift)
}

#[test]
fn multipliers_match_floating_point() {
    for bits in patterns() {
        let value = f32::from_bits(bits);
        if value == f32::INFINITY {
            continue;
        }
        let expected = float_multiplier(value as f64);
        assert_eq!(
            quantize_multiplier(Double::widen(Single::from_bits(bits))),
            expected,
            "{value}"
        );
        assert_eq!(
            quantize_multiplier(Double::from_bits((value as f64).to_bits())),
            expected,
            "{value}"
        );
    }
    for scale in [0.1f64, 0.3, 1.0 - f64::EPSILON / 2.0, 1e-310, 5e-324, 1e300, -1.0, 0.0] {
        assert_eq!(
            quantize_multiplier(Double::from_bits(scale.to_bits())),
            float_multiplier(scale),
            "{scale}"
        );
    }
}

#[test]
fn multiplier_of_known_scales() {
    let multiplier = |scale: f64| quantize_multiplier(Double::from_bits(scale.to_bits()));
    assert_eq!(multiplier(1.0), (1 << 30, 1));
    assert_eq!(multiplier(0.5), (1 << 30, 0));
    assert_eq!(multiplier(0.75), (3 << 29, 0));
    assert_eq!(multiplier(0.0), (0, 0));
    assert_eq!(multiplier(-0.25), (0, 0));
    assert_eq!(multiplier(f64::NAN), (0, 0));
    // The largest number below one rounds up to one.
    assert_eq!(multiplier(1.0 - f64::EPSILON / 2.0), (1 << 30, 1));
}

#[test]
fn fixed_point_multiplication() {
    // A scale of one, and of one half with ties rounded upward.
    assert_eq!(multiply_by_quantized_multiplier(12_345, 1 << 30, 1), 12_345);
    assert_eq!(multiply_by_quantized_multiplier(5, 1 << 30, 0), 3);
    assert_eq!(multiply_by_quantized_multiplier(-5, 1 << 30, 0), -2);
    // No right shift is left: the product saturates.
    assert_eq!(multiply_by_quantized_multiplier(3, 1 << 30, 31), i32::MAX);
    assert_eq!(multiply_by_quantized_multiplier(-3, 1 << 30, 32), i32::MIN);
    assert_eq!(multiply_by_quantized_multiplier(0, 1 << 30, 40), 0);
    assert_eq!(multiply_by_quantized_multiplier(2, 3, 33), 24);
}

#[test]
fn unit_scale_is_the_identity() {
    let unit = QuantParam {
        scale: ONE_BITS,
        zero_point: 7,
    };
    let (multiplier, shift) = output_channel_multiplier_shift(unit, unit, None, unit, 0);
    for acc in [0, 1, -1, 77, -128, 1_000_000, -7_654_321] {
        assert_eq!(requantize(acc, multiplier, shift, unit), acc + 7);
    }
}

#[test]
fn channel_scales_come_before_the_tensor_scale() {
    let quant = |scale: f32| QuantParam {
        scale: scale.to_bits(),
        zero_point: 0,
    };
    let scales = [0.5f32.to_bits(), 0.25f32.to_bits()];
    let channel = Some(PerChannelQuantParam { scales: &scales });
    let shift = |channel, index| {
        output_channel_multiplier_shift(quant(1.0), quant(1.0), channel, quant(1.0), index)
    };
    assert_eq!(shift(channel, 0), (1 << 30, 0));
    assert_eq!(shift(channel, 1), (1 << 30, -1));
    assert_eq!(shift(channel, 2), (1 << 30, 1));
    assert_eq!(shift(None, 0), (1 << 30, 1));
}

#[test]
fn saturating_arithmetic() {
    assert_eq!(saturating_add(i32::MAX, 1), i32::MAX);
    assert_eq!(saturating_add(i32::MIN, -1), i32::MIN);
    assert_eq!(saturating_add(2, -5), -3);
    assert_eq!(saturating_mul(i32::MIN, -1), i32::MAX);
    assert_eq!(saturating_mul(65_536, -65_536), i32::MIN);
    assert_eq!(saturating_mul(-7, 6), -42);
    assert_eq!(saturating_left_shift(0, 99), 0);
    assert_eq!(saturating_left_shift(1, 31), i32::MAX);
    assert_eq!(saturating_left_shift(-1, 31), i32::MIN);
    assert_eq!(saturating_left_shift(-1, 30), -(1 << 30));
    assert_eq!(saturating_left_shift(3, 30), i32::MAX);
    assert_eq!(saturating_left_shift(5, 3), 40);
}

#[test]
fn clamping_to_a_byte() {
    assert_eq!(clamp_i8(-129), -128);
    assert_eq!(clamp_i8(-128), -128);
    assert_eq!(clamp_i8(5), 5);
    assert_eq!(clamp_i8(127), 127);
    assert_eq!(clamp_i8(i32::MAX), 127);
}

#[test]
fn division_rounds_ties_away_from_zero() {
    assert_eq!(round_divide(7, 2), 4);
    assert_eq!(round_divide(-7, 2), -4);
    assert_eq!(round_divide(7, 3), 2);
    assert_eq!(round_divide(-8, 3), -3);
    assert_eq!(round_divide(16, 4), 4);
    assert_eq!(round_divide(5, -2), -2);
    for n in -50..50 {
        for d in 1..9 {
            let q = round_divide(n, d);
            assert!(2 * (n - d * q).abs() <= d);
        }
    }
}

#[test]
fn activations_clamp_to_quantized_levels() {
    let quant = QuantParam {
        scale: 0.1f32.to_bits(),
        zero_point: -10,
    };
    let apply = |value, activation| apply_activation(value, activation, quant);
    assert_eq!(apply(-200, FusedActivation::Identity), -128);
    assert_eq!(apply(200, FusedActivation::Identity), 127);
    assert_eq!(apply(-50, FusedActivation::Relu), -10);
    assert_eq!(apply(200, FusedActivation::Relu), 127);
    assert_eq!(apply(-50, FusedActivation::Relu6), -10);
    assert_eq!(apply(120, FusedActivation::Relu6), 50);
    assert_eq!(apply(-50, FusedActivation::ReluN1To1), -20);
    assert_eq!(apply(50, FusedActivation::ReluN1To1), 0);
    assert_eq!(apply(-50, FusedActivation::Tanh), -20);
    assert_eq!(apply(50, FusedActivation::Tanh), 0);
    assert_eq!(apply(-50, FusedActivation::Sigmoid), -10);
    assert_eq!(apply(-5, FusedActivation::Sigmoid), -5);
    assert_eq!(apply(50, FusedActivation::Sigmoid), 0);
    assert_eq!(apply(-50, FusedActivation::SignBit), -50);
    assert_eq!(apply(50, FusedActivation::SignBit), 50);

    let unit = QuantParam {
        scale: ONE_BITS,
        zero_point: 0,
    };
    assert_eq!(apply_activation(-5, FusedActivation::Sigmoid, unit), 0);
    assert_eq!(apply_activation(5, FusedActivation::Sigmoid, unit), 1);
    let sigmoid = |value, scale: f32, zero_point| {
        let quant = QuantParam {
            scale: scale.to_bits(),
            zero_point,
        };
        apply_activation(value, FusedActivation::Sigmoid, quant)
    };
    // Beyond `i8` both ends of the range are the nearest byte.
    assert_eq!(sigmoid(-5, 1.0, 200), 127);
    assert_eq!(sigmoid(500, 1.0, 200), 127);
    assert_eq!(sigmoid(-500, 1.0, -129), -128);
    assert_eq!(sigmoid(500, 1.0, -129), -128);
    // A negative scale puts the quantized one below the quantized zero.
    assert_eq!(sigmoid(-5, -1.0, 0), -1);
    assert_eq!(sigmoid(5, -1.0, 0), -1);
}

#[test]
fn scaled_values_are_nearest() {
    for shift in [-20i32, -5, -1, 0, 1] {
        for multiplier in [1 << 30, 1_234_567_891, i32::MAX] {
            for x in [0, 1, -1, 12_345, -99_999, 30_000_000, -30_000_000] {
                let unit = 1i64 << (31 - shift);
                let r = multiply_by_quantized_multiplier(x, multiplier, shift) as i64;
                let error = 2 * (x as i64 * multiplier as i64 - r * unit);
                assert!(-unit <= error && error < unit);
            }
        }
    }
}

#[test]
fn small_scales_never_overflow() {
    let output = QuantParam {
        scale: ONE_BITS,
        zero_point: 127,
    };
    for scale in [0.49f64, 0.1, 1e-5, 3e-10] {
        let (multiplier, shift) = quantize_multiplier(Double::from_bits(scale.to_bits()));
        for acc in [i32::MIN, -1, 0, 1, i32::MAX] {
            let expected = (acc as f64 * scale).round() + 127.0;
            let r = requantize(acc, multiplier, shift, output) as f64;
            assert!((r - expected).abs() <= 1.0);
        }
    }
}
