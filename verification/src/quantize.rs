//! Fixed-point requantization of accumulators and fused activations.
use crate::single;
use crate::single::{Real, Single, ONE_BITS};
use crate::types::{FusedActivation, PerChannelQuantParam, QuantParam};
use vstd::arithmetic::div_mod::*;
use vstd::arithmetic::mul::*;
use vstd::arithmetic::power2::*;
use vstd::prelude::*;

verus! {

/// The value of `i32` nearest to `v`.
pub open spec fn clamp_i32(v: int) -> int {
    if v < i32::MIN {
        i32::MIN as int
    } else if v > i32::MAX {
        i32::MAX as int
    } else {
        v
    }
}

/// `v` fits in 32 bits, signed.
pub open spec fn fits_i32(v: int) -> bool {
    i32::MIN <= v <= i32::MAX
}

/// The value of `i32` that is congruent to `v` modulo 2^32.
pub open spec fn wrap_i32(v: int) -> int {
    (v + 0x8000_0000) % 0x1_0000_0000 - 0x8000_0000
}

/// Division that truncates toward zero.
pub open spec fn trunc_div(a: int, b: int) -> int {
    let q = abs(a) / abs(b);
    if (a < 0) == (b < 0) {
        q
    } else {
        -q
    }
}

/// The magnitude of an integer.
pub open spec fn abs(a: int) -> int {
    if a < 0 {
        -a
    } else {
        a
    }
}

/// Number of binary digits of `n`.
pub open spec fn bit_length(n: nat) -> nat
    decreases n,
{
    if n == 0 {
        0
    } else {
        1 + bit_length(n / 2)
    }
}

/// The 31-bit multiplier and the shift of the positive number `n * 2^e`.
///
/// The number is `q / 2^31 * 2^shift`, where `q` has 31 binary digits and is
/// rounded to the nearest integer, ties away from zero.
pub open spec fn quantized(n: nat, e: int) -> (int, int) {
    let k = bit_length(n);
    let q = (2 * (n * pow2(31)) + pow2(k)) as int / (2 * pow2(k)) as int;
    if q == 0x8000_0000 {
        (0x4000_0000, e + k + 1)
    } else {
        (q, e + k)
    }
}

/// The multiplier and shift of a single; zero for anything that is not a
/// positive finite number.
pub open spec fn real_multiplier(scale: Real) -> (int, int) {
    match scale {
        Real::Finite { negative, units } => if negative || units == 0 {
            (0, 0)
        } else {
            quantized(units, -149)
        },
        _ => (0, 0),
    }
}

/// A double-precision number, taken apart into integers.
#[derive(Clone, Copy, Debug)]
pub enum Double {
    /// Not a number.
    Nan,
    /// Positive or negative infinity.
    Infinite { negative: bool },
    /// `significand` times 2^`exponent`, with a sign.
    Finite { negative: bool, significand: u64, exponent: i32 },
}

impl Double {
    /// The parts are those of a representable number.
    pub open spec fn wf(self) -> bool {
        self matches Double::Finite { significand, exponent, .. } ==> significand
            < 0x20_0000_0000_0000 && -1074 <= exponent <= 971
    }

    /// The multiplier and shift of this number.
    pub open spec fn multiplier(self) -> (int, int) {
        match self {
            Double::Finite { negative, significand, exponent } => if negative || significand == 0 {
                (0, 0)
            } else {
                quantized(significand as nat, exponent as int)
            },
            _ => (0, 0),
        }
    }

    /// The datum that the 64 bits of a double encode.
    pub open spec fn decoded(bits: u64) -> Double {
        let negative = bits >= 0x8000_0000_0000_0000;
        let exponent = (bits / 0x10_0000_0000_0000) % 2048;
        let fraction = bits % 0x10_0000_0000_0000;
        if exponent == 2047 {
            if fraction == 0 {
                Double::Infinite { negative }
            } else {
                Double::Nan
            }
        } else if exponent == 0 {
            Double::Finite { negative, significand: fraction, exponent: -1074i32 }
        } else {
            Double::Finite {
                negative,
                significand: (0x10_0000_0000_0000 + fraction) as u64,
                exponent: (exponent - 1075) as i32,
            }
        }
    }

    /// Takes the bits of a double apart.
    pub fn from_bits(bits: u64) -> (r: Double)
        ensures
            r.wf(),
            r == Double::decoded(bits),
    {
        let negative = bits >= 0x8000_0000_0000_0000;
        let exponent: u64 = (bits / 0x10_0000_0000_0000) % 2048;
        let fraction: u64 = bits % 0x10_0000_0000_0000;
        if exponent == 2047 {
            if fraction == 0 {
                Double::Infinite { negative }
            } else {
                Double::Nan
            }
        } else if exponent == 0 {
            Double::Finite { negative, significand: fraction, exponent: -1074 }
        } else {
            Double::Finite {
                negative,
                significand: 0x10_0000_0000_0000 + fraction,
                exponent: exponent as i32 - 1075,
            }
        }
    }

    /// The double of the same value as a single.
    pub fn widen(value: Single) -> (r: Double)
        requires
            value.wf(),
        ensures
            r.wf(),
            r.multiplier() == real_multiplier(value@),
            (r == Double::Infinite { negative: false }) == (value@ == Real::Infinite {
                negative: false,
            }),
            match (value, r) {
                (
                    Single::Finite { negative: s, significand: m, shift },
                    Double::Finite { negative: t, significand: n, exponent },
                ) => s == t && m == n && exponent == shift - 149,
                (Single::Infinite { negative: s }, Double::Infinite { negative: t }) => s == t,
                (Single::Nan, Double::Nan) => true,
                _ => false,
            },
    {
        match value {
            Single::Nan => Double::Nan,
            Single::Infinite { negative } => Double::Infinite { negative },
            Single::Finite { negative, significand, shift } => {
                proof {
                    lemma_pow2_pos(shift as nat);
                    if significand == 0 {
                        lemma_mul_by_zero_is_zero(pow2(shift as nat) as int);
                    } else {
                        lemma_mul_strictly_positive(significand as int, pow2(shift as nat) as int);
                        lemma_quantized_scale(significand as nat, shift - 149, shift as nat);
                    }
                }
                Double::Finite {
                    negative,
                    significand: significand as u64,
                    exponent: shift as i32 - 149,
                }
            },
        }
    }
}

proof fn lemma_bit_length(n: nat, k: nat)
    requires
        n < pow2(k),
        k > 0 ==> n >= pow2((k - 1) as nat),
    ensures
        bit_length(n) == k,
    decreases k,
{
    lemma2_to64();
    if k > 0 {
        lemma_pow2_pos((k - 1) as nat);
        lemma_pow2_unfold(k);
        if k > 1 {
            lemma_pow2_unfold((k - 1) as nat);
        }
        lemma_bit_length(n / 2, (k - 1) as nat);
    }
}

/// `n` lies between two powers of two that its digits give.
pub proof fn lemma_bit_length_bounds(n: nat)
    requires
        n > 0,
    ensures
        bit_length(n) > 0,
        pow2((bit_length(n) - 1) as nat) <= n < pow2(bit_length(n)),
    decreases n,
{
    lemma2_to64();
    if n > 1 {
        lemma_bit_length_bounds(n / 2);
        lemma_pow2_unfold(bit_length(n));
        lemma_pow2_unfold((bit_length(n) - 1) as nat);
    } else {
        assert(bit_length(0) == 0);
    }
}

/// The multiplier and shift depend on the number alone, not on how it is split.
proof fn lemma_quantized_scale(n: nat, e: int, h: nat)
    requires
        n > 0,
    ensures
        quantized(n * pow2(h), e - h) == quantized(n, e),
{
    let k = bit_length(n);
    let t = pow2(h);
    lemma_pow2_pos(h);
    lemma_bit_length_bounds(n);
    lemma_pow2_adds(k, h);
    lemma_pow2_adds((k - 1) as nat, h);
    assert((k - 1) as nat + h == (k + h - 1) as nat);
    assert(pow2((k - 1) as nat) * t <= n * t < pow2(k) * t) by (nonlinear_arith)
        requires
            pow2((k - 1) as nat) <= n < pow2(k),
            t > 0,
    ;
    lemma_bit_length(n * t, k + h);
    lemma_pow2_pos(k);
    let a = (2 * (n * pow2(31)) + pow2(k)) as int;
    let b = (2 * pow2(k)) as int;
    assert(2 * ((n * t) * pow2(31)) + pow2(k) * t == a * t) by (nonlinear_arith)
        requires
            a == 2 * (n * pow2(31)) + pow2(k),
    ;
    assert(2 * (pow2(k) * t) == b * t) by (nonlinear_arith)
        requires
            b == 2 * pow2(k),
    ;
    lemma_mul_strictly_positive(b, t as int);
    assert((a * t) / (b * t) == a / b) by {
        lemma_mul_is_commutative(b, t as int);
        lemma_div_denominator(a * t as int, t as int, b);
        lemma_div_by_multiple(a, t as int);
    }
}

/// The multiplier that a quantized scale gives has 31 binary digits and differs
/// from the scale by at most half of its last digit.
pub proof fn lemma_quantized_error(n: nat, e: int)
    requires
        n > 0,
    ensures
        0x4000_0000 <= quantized(n, e).0 < 0x8000_0000,
        quantized(n, e).1 > e,
        2 * abs(n * pow2(31) - quantized(n, e).0 * pow2((quantized(n, e).1 - e) as nat)) <= pow2(
            (quantized(n, e).1 - e) as nat,
        ),
{
    let k = bit_length(n);
    let p = pow2(k) as int;
    let m = (n * pow2(31)) as int;
    lemma_bit_length_bounds(n);
    lemma_pow2_unfold(k);
    lemma_pow2_pos(k);
    lemma2_to64();
    let q = (2 * m + p) / (2 * p);
    lemma_fundamental_div_mod(2 * m + p, 2 * p);
    let r = (2 * m + p) % (2 * p);
    assert(p * 0x4000_0000 <= m < p * 0x8000_0000) by (nonlinear_arith)
        requires
            m == n * 0x8000_0000,
            2 * n >= p,
            n < p,
    ;
    assert(0x4000_0000 <= q <= 0x8000_0000) by (nonlinear_arith)
        requires
            2 * m + p == (2 * p) * q + r,
            0 <= r < 2 * p,
            p * 0x4000_0000 <= m < p * 0x8000_0000,
            p > 0,
    ;
    assert((2 * p) * q == 2 * (q * p)) by (nonlinear_arith);
    assert(2 * (m - q * p) == r - p);
    if q == 0x8000_0000 {
        lemma_pow2_unfold((k + 1) as nat);
        assert(0x4000_0000 * pow2((k + 1) as nat) == q * p);
    }
}

/// Splits a scale into a 31-bit multiplier and a shift.
pub fn quantize_multiplier(scale: Double) -> (r: (i32, i32))
    requires
        scale.wf(),
        scale != (Double::Infinite { negative: false }),
    ensures
        r.0 == scale.multiplier().0,
        r.1 == scale.multiplier().1,
{
    match scale {
        Double::Finite { negative, significand, exponent } => {
            if negative || significand == 0 {
                return (0, 0);
            }
            let mut power: u64 = 1;
            let mut digits: i32 = 0;
            proof {
                lemma2_to64();
                lemma2_to64_rest();
            }
            while power <= significand
                invariant
                    0 <= digits <= 53,
                    power == pow2(digits as nat),
                    0 < significand < 0x20_0000_0000_0000,
                    digits > 0 ==> pow2((digits - 1) as nat) <= significand,
                    pow2(53) == 0x20_0000_0000_0000,
                decreases 53 - digits,
            {
                proof {
                    if digits == 53 {
                        assert(false);
                    }
                    lemma_pow2_unfold((digits + 1) as nat);
                }
                power = power * 2;
                digits = digits + 1;
            }
            proof {
                lemma2_to64();
                if digits == 0 {
                    assert(false);
                }
                lemma_bit_length(significand as nat, digits as nat);
                lemma_quantized_error(significand as nat, exponent as int);
            }
            let doubled: u128 = significand as u128 * 0x1_0000_0000 + power as u128;
            let q: u64 = (doubled / (2 * power as u128)) as u64;
            proof {
                lemma_div_pos_is_pos(doubled as int, 2 * power as int);
                assert(doubled as int / (2 * power as int) <= 0x8000_0000) by {
                    lemma_fundamental_div_mod(doubled as int, 2 * power as int);
                    let t = doubled as int / (2 * power as int);
                    assert(t <= 0x8000_0000) by (nonlinear_arith)
                        requires
                            doubled == (2 * power) * t + doubled as int % (2 * power as int),
                            0 <= doubled as int % (2 * power as int),
                            doubled == significand * 0x1_0000_0000 + power,
                            significand < power,
                            power > 0,
                    ;
                }
            }
            if q == 0x8000_0000 {
                (0x4000_0000, exponent + digits + 1)
            } else {
                (q as i32, exponent + digits)
            }
        },
        _ => (0, 0),
    }
}

/// `v` times 2^`n`, clamped to `i32`.
pub open spec fn shifted_left(v: int, n: nat) -> int {
    clamp_i32(v * pow2(n))
}

/// `x` times `multiplier / 2^31 * 2^shift`, in the fixed-point arithmetic of the
/// kernels: rounded to the nearest integer, ties upward, and wrapped to 32 bits
/// where a right shift remains; saturated where a left shift does.
pub open spec fn scaled(x: int, multiplier: int, shift: int) -> int {
    if shift < 31 {
        wrap_i32((x * multiplier + pow2((30 - shift) as nat)) / pow2((31 - shift) as nat) as int)
    } else {
        shifted_left(clamp_i32(x * multiplier), (shift - 31) as nat)
    }
}

/// The right shift stays below 64 and the rounding term does not overflow.
pub open spec fn scaling_defined(x: int, multiplier: int, shift: int) -> bool {
    shift < 31 ==> shift >= -32 && x * multiplier + pow2((30 - shift) as nat) <= i64::MAX
}

proof fn lemma_shl_one(n: u32)
    requires
        n < 63,
    ensures
        1i64 << n == pow2(n as nat),
    decreases n,
{
    lemma2_to64();
    if n == 0 {
        assert(1i64 << 0u32 == 1) by (bit_vector);
    } else {
        let m = (n - 1) as u32;
        lemma_shl_one(m);
        lemma_pow2_unfold(n as nat);
        assert(1i64 << n == 2 * (1i64 << m)) by (bit_vector)
            requires
                n < 63,
                n >= 1,
                m == n - 1,
        ;
    }
}

proof fn lemma_shr_floor(v: i64, n: u32)
    requires
        n < 64,
    ensures
        (v >> n) as int == v as int / pow2(n as nat) as int,
    decreases n,
{
    lemma2_to64();
    if n == 0 {
        assert(v >> 0u32 == v) by (bit_vector);
    } else {
        let m = (n - 1) as u32;
        lemma_shr_floor(v, m);
        lemma_pow2_unfold(n as nat);
        lemma_pow2_pos(m as nat);
        let w = v >> m;
        assert(v >> n == w >> 1u32) by (bit_vector)
            requires
                n < 64,
                n >= 1,
                m == n - 1,
                w == v >> m,
        ;
        assert(w == 2 * (w >> 1u32) + (w & 1)) by (bit_vector);
        assert(w & 1 == 0 || w & 1 == 1) by (bit_vector);
        assert(v >> n == w as int / 2);
        let c = pow2(m as nat) as int;
        let z = w as int / 2;
        let b = w as int % 2;
        lemma_fundamental_div_mod(v as int, c);
        lemma_mod_bound(v as int, c);
        let r = v as int % c;
        assert(v == (2 * c) * z + (c * b + r)) by (nonlinear_arith)
            requires
                v == c * w + r,
                w == 2 * z + b,
        ;
        assert(0 <= c * b + r < 2 * c) by (nonlinear_arith)
            requires
                0 <= b < 2,
                0 <= r < c,
        ;
        lemma_fundamental_div_mod_converse(v as int, 2 * c, z, c * b + r);
    }
}

proof fn lemma_shl_mul(v: i64, n: u32)
    requires
        n < 31,
        i32::MIN <= v <= i32::MAX,
    ensures
        (v << n) as int == v * pow2(n as nat),
        i64::MIN <= v * pow2(n as nat) <= i64::MAX,
    decreases n,
{
    lemma2_to64();
    if n == 0 {
        assert(v << 0u32 == v) by (bit_vector);
    } else {
        let m = (n - 1) as u32;
        lemma_shl_mul(v, m);
        lemma_pow2_unfold(n as nat);
        assert(v << n == 2 * (v << m)) by (bit_vector)
            requires
                n < 31,
                n >= 1,
                m == n - 1,
                -0x8000_0000 <= v <= 0x7fff_ffff,
        ;
        assert(v * (2 * pow2(m as nat)) == 2 * (v * pow2(m as nat))) by (nonlinear_arith);
    }
}

proof fn lemma_wrap(v: i64)
    ensures
        (v as i32) as int == wrap_i32(v as int),
{
    let w: i64 = v as i32 as i64;
    let high: i64 = v >> 32u32;
    let low: u32 = v as u32;
    assert(v == high * 0x1_0000_0000 + low) by (bit_vector)
        requires
            high == v >> 32u32,
            low == v as u32,
    ;
    assert(w == (if low >= 0x8000_0000 {
        low - 0x1_0000_0000
    } else {
        low as int
    })) by (bit_vector)
        requires
            w == v as i32 as i64,
            low == v as u32,
    ;
}

/// Product of two `i32`, clamped to `i32`.
pub fn saturating_mul(x: i32, y: i32) -> (r: i32)
    ensures
        r == clamp_i32(x * y),
{
    proof {
        assert(-0x4000_0000_0000_0000 <= x * y <= 0x4000_0000_0000_0000) by (nonlinear_arith)
            requires
                -0x8000_0000 <= x <= 0x7fff_ffff,
                -0x8000_0000 <= y <= 0x7fff_ffff,
        ;
    }
    let product: i64 = x as i64 * y as i64;
    clamp_to_i32(product)
}

/// Sum of two `i32`, clamped to `i32`.
pub fn saturating_add(x: i32, y: i32) -> (r: i32)
    ensures
        r == clamp_i32(x + y),
{
    clamp_to_i32(x as i64 + y as i64)
}

fn clamp_to_i32(v: i64) -> (r: i32)
    ensures
        r == clamp_i32(v as int),
{
    if v < i32::MIN as i64 {
        i32::MIN
    } else if v > i32::MAX as i64 {
        i32::MAX
    } else {
        v as i32
    }
}

/// Multiplies an accumulator by a quantized multiplier.
pub fn multiply_by_quantized_multiplier(x: i32, multiplier: i32, shift: i32) -> (r: i32)
    requires
        scaling_defined(x as int, multiplier as int, shift as int),
    ensures
        r == scaled(x as int, multiplier as int, shift as int),
{
    if shift >= 31 {
        return saturating_left_shift(saturating_mul(x, multiplier), (shift - 31) as u32);
    }
    let total_shift: u32 = (31 - shift) as u32;
    proof {
        lemma_shl_one((total_shift - 1) as u32);
        assert(-0x4000_0000_0000_0000 <= x * multiplier <= 0x4000_0000_0000_0000) by (
        nonlinear_arith)
            requires
                -0x8000_0000 <= x <= 0x7fff_ffff,
                -0x8000_0000 <= multiplier <= 0x7fff_ffff,
        ;
    }
    let round: i64 = 1i64 << (total_shift - 1);
    let sum: i64 = x as i64 * multiplier as i64 + round;
    proof {
        lemma_shr_floor(sum, total_shift);
        lemma_wrap(sum >> total_shift);
    }
    (sum >> total_shift) as i32
}

/// `value` times 2^`shift`, clamped to `i32`.
pub fn saturating_left_shift(value: i32, shift: u32) -> (r: i32)
    ensures
        r == shifted_left(value as int, shift as nat),
{
    proof {
        lemma_mul_by_zero_is_zero(pow2(shift as nat) as int);
    }
    if value == 0 {
        return 0;
    }
    if shift >= 31 {
        proof {
            lemma2_to64();
            if shift > 31 {
                lemma_pow2_strictly_increases(31, shift as nat);
            }
            assert(value > 0 ==> value * pow2(shift as nat) >= 0x8000_0000) by (nonlinear_arith)
                requires
                    pow2(shift as nat) >= 0x8000_0000,
            ;
            assert(value < 0 ==> value * pow2(shift as nat) <= -0x8000_0000) by (nonlinear_arith)
                requires
                    pow2(shift as nat) >= 0x8000_0000,
            ;
        }
        if value >= 0 {
            i32::MAX
        } else {
            i32::MIN
        }
    } else {
        proof {
            lemma_shl_mul(value as i64, shift);
        }
        clamp_to_i32((value as i64) << shift)
    }
}

/// An accumulator brought to the scale and zero point of the output.
pub open spec fn requantized(acc: int, multiplier: (int, int), zero_point: int) -> int {
    scaled(acc, multiplier.0, multiplier.1) + zero_point
}

/// Requantization of `acc` meets no overflow.
pub open spec fn requantize_defined(acc: int, multiplier: (int, int), zero_point: int) -> bool {
    &&& scaling_defined(acc, multiplier.0, multiplier.1)
    &&& fits_i32(requantized(acc, multiplier, zero_point))
}

/// Brings an accumulator to the scale and zero point of the output.
pub fn requantize(acc: i32, multiplier: i32, shift: i32, output_quant: QuantParam) -> (r: i32)
    requires
        requantize_defined(
            acc as int,
            (multiplier as int, shift as int),
            output_quant.zero_point as int,
        ),
    ensures
        r == requantized(
            acc as int,
            (multiplier as int, shift as int),
            output_quant.zero_point as int,
        ),
{
    multiply_by_quantized_multiplier(acc, multiplier, shift) + output_quant.zero_point
}

/// The scale that an accumulator of products has, relative to the output.
pub open spec fn effective_scale(input: Real, weight: Real, output: Real) -> Real {
    input.times(weight).over(output)
}

/// The scale of one output channel of the weights: its own where the tensor has
/// one, that of the whole tensor otherwise.
pub open spec fn weight_scale(
    weights_quant: QuantParam,
    channel_scales: Option<Seq<u32>>,
    output_channel: int,
) -> Real {
    match channel_scales {
        Some(scales) => if 0 <= output_channel < scales.len() {
            crate::single::decode(scales[output_channel])
        } else {
            weights_quant.real_scale()
        },
        None => weights_quant.real_scale(),
    }
}

/// The scale by which the accumulators of one output channel are multiplied.
pub open spec fn channel_scale(
    input_quant: QuantParam,
    weights_quant: QuantParam,
    channel_scales: Option<Seq<u32>>,
    output_quant: QuantParam,
    output_channel: int,
) -> Real {
    effective_scale(
        input_quant.real_scale(),
        weight_scale(weights_quant, channel_scales, output_channel),
        output_quant.real_scale(),
    )
}

/// The scales of a weight tensor, as a sequence.
pub open spec fn scales_view(per_channel: Option<PerChannelQuantParam<'_>>) -> Option<Seq<u32>> {
    match per_channel {
        Some(p) => Some(p.scales@),
        None => None,
    }
}

/// Multiplier and shift of one output channel.
pub fn output_channel_multiplier_shift(
    input_quant: QuantParam,
    weights_quant: QuantParam,
    weights_per_channel_quant: Option<PerChannelQuantParam<'_>>,
    output_quant: QuantParam,
    output_channel: usize,
) -> (r: (i32, i32))
    requires
        channel_scale(
            input_quant,
            weights_quant,
            scales_view(weights_per_channel_quant),
            output_quant,
            output_channel as int,
        ) != (Real::Infinite { negative: false }),
    ensures
        (r.0 as int, r.1 as int) == real_multiplier(
            channel_scale(
                input_quant,
                weights_quant,
                scales_view(weights_per_channel_quant),
                output_quant,
                output_channel as int,
            ),
        ),
{
    let mut weight_bits: u32 = weights_quant.scale;
    if let Some(per_channel) = weights_per_channel_quant {
        if output_channel < per_channel.scales.len() {
            weight_bits = per_channel.scales[output_channel];
        }
    }
    let scale = Single::from_bits(input_quant.scale).times(Single::from_bits(weight_bits)).over(
        Single::from_bits(output_quant.scale),
    );
    quantize_multiplier(Double::widen(scale))
}

/// The nearest integer, ties away from zero, clamped to `i32`; 0 for NaN.
pub fn round_f32_to_i32(value: Single) -> (r: i32)
    requires
        value.wf(),
    ensures
        r == value@.rounded(),
{
    match value {
        Single::Nan => 0,
        Single::Infinite { negative } => {
            if negative {
                i32::MIN
            } else {
                i32::MAX
            }
        },
        Single::Finite { negative, significand, shift } => {
            let magnitude: u64 = round_magnitude(significand, shift);
            if negative {
                if magnitude > 0x8000_0000 {
                    i32::MIN
                } else {
                    (-(magnitude as i64)) as i32
                }
            } else {
                if magnitude > 0x7fff_ffff {
                    i32::MAX
                } else {
                    magnitude as i32
                }
            }
        },
    }
}

/// The nearest integer to a magnitude, or some number above 2^31 where it
/// exceeds 2^31.
fn round_magnitude(significand: u32, shift: u32) -> (r: u64)
    requires
        significand < 0x100_0000,
        shift <= 253,
    ensures
        ({
            let u = (significand as nat) * pow2(shift as nat);
            let m = (2 * u + pow2(149)) as int / (2 * pow2(149)) as int;
            r == m || (r > 0x8000_0000 && m > 0x8000_0000)
        }),
{
    let ghost u = (significand as nat) * pow2(shift as nat);
    let ghost h = pow2(149) as int;
    proof {
        lemma2_to64();
        lemma_pow2_pos(149);
        lemma_pow2_pos(shift as nat);
    }
    if shift >= 149 {
        if significand == 0 {
            proof {
                lemma_mul_by_zero_is_zero(pow2(shift as nat) as int);
                assert(h / (2 * h) == 0) by {
                    lemma_basic_div(h, 2 * h);
                }
            }
            return 0;
        }
        let gap: u32 = shift - 149;
        proof {
            lemma_pow2_adds(gap as nat, 149);
            let g = pow2(gap as nat) as int;
            let w = significand * g;
            assert(u == w * h) by (nonlinear_arith)
                requires
                    u == significand * pow2(shift as nat),
                    pow2(shift as nat) == g * h,
                    w == significand * g,
            ;
            assert(2 * u + h == w * (2 * h) + h) by (nonlinear_arith)
                requires
                    u == w * h,
            ;
            lemma_fundamental_div_mod_converse(2 * u + h, 2 * h, w, h);
            if gap >= 32 {
                if gap > 32 {
                    lemma_pow2_strictly_increases(32, gap as nat);
                }
                assert(w >= 0x1_0000_0000) by (nonlinear_arith)
                    requires
                        w == significand * g,
                        significand >= 1,
                        g >= 0x1_0000_0000,
                ;
            }
        }
        if gap >= 32 {
            return 0x1_0000_0000;
        }
        let power: u64 = small_power(gap);
        proof {
            if gap < 32 {
                lemma_pow2_strictly_increases(gap as nat, 32);
            }
            assert(significand * power < 0x100_0000 * 0x1_0000_0000) by (nonlinear_arith)
                requires
                    significand < 0x100_0000,
                    0 < power < 0x1_0000_0000,
            ;
        }
        significand as u64 * power
    } else {
        let gap: u32 = 149 - shift;
        let ghost g = pow2(gap as nat) as int;
        let ghost v = pow2(shift as nat) as int;
        proof {
            lemma_pow2_adds(gap as nat, shift as nat);
            lemma_pow2_pos(gap as nat);
            let a = 2 * significand + g;
            assert(2 * u + h == a * v) by (nonlinear_arith)
                requires
                    u == significand * v,
                    h == g * v,
                    a == 2 * significand + g,
            ;
            assert(2 * h == (2 * g) * v) by (nonlinear_arith)
                requires
                    h == g * v,
            ;
            lemma_mul_strictly_positive(2 * g, v);
            lemma_mul_is_commutative(2 * g, v);
            lemma_div_denominator(a * v, v, 2 * g);
            lemma_div_by_multiple(a, v);
            assert((2 * u + h) / (2 * h) == a / (2 * g));
            if gap > 25 {
                lemma_pow2_strictly_increases(25, gap as nat);
                assert(a / (2 * g) == 0) by {
                    lemma_basic_div(a, 2 * g);
                }
            }
        }
        if gap > 25 {
            return 0;
        }
        let power: u64 = small_power(gap);
        proof {
            if gap < 32 {
                lemma_pow2_strictly_increases(gap as nat, 32);
            }
        }
        (2 * significand as u64 + power) / (2 * power)
    }
}

/// 2 to a power below 32.
fn small_power(e: u32) -> (r: u64)
    requires
        e < 32,
    ensures
        r == pow2(e as nat),
{
    proof {
        lemma2_to64();
        lemma_shl_one(e);
        lemma_pow2_strictly_increases(e as nat, 32);
    }
    (1i64 << e) as u64
}

/// The range that an activation limits quantized values to: `[0, 6]` for ReLU6,
/// `[-1, 1]` for Tanh and its ReLU, `[0, 1]` for Sigmoid, each end quantized, and
/// within `i8`. Where the quantized zero lies above the upper end of Sigmoid, as for a
/// zero point beyond `i8`, the upper end stands for the lower one too.
pub open spec fn activation_bounds(
    activation: FusedActivation,
    scale: Real,
    zero_point: int,
) -> (int, int) {
    let high = match activation {
        FusedActivation::Relu6 => min(127, zero_point + Real::from_int(6).over(scale).rounded()),
        FusedActivation::ReluN1To1
        | FusedActivation::Tanh
        | FusedActivation::Sigmoid => min(
            127,
            zero_point + Real::from_int(1).over(scale).rounded(),
        ),
        FusedActivation::Identity | FusedActivation::Relu | FusedActivation::SignBit => 127,
    };
    let low = match activation {
        FusedActivation::Identity | FusedActivation::SignBit => -128,
        FusedActivation::Relu | FusedActivation::Relu6 => max(-128, zero_point),
        FusedActivation::Sigmoid => max(-128, min(zero_point, high)),
        FusedActivation::ReluN1To1 | FusedActivation::Tanh => max(
            -128,
            zero_point + Real::from_int(-1).over(scale).rounded(),
        ),
    };
    (low, high)
}

/// The smaller of two integers.
pub open spec fn min(a: int, b: int) -> int {
    if a <= b {
        a
    } else {
        b
    }
}

/// The larger of two integers.
pub open spec fn max(a: int, b: int) -> int {
    if a >= b {
        a
    } else {
        b
    }
}

/// `v` limited to `[low, high]`.
pub open spec fn clamped(v: int, low: int, high: int) -> int {
    if v < low {
        low
    } else if v > high {
        high
    } else {
        v
    }
}

/// The bounds of the activation are computed without overflow and are in order.
pub open spec fn activation_defined(activation: FusedActivation, output_quant: QuantParam) -> bool {
    let scale = output_quant.real_scale();
    let z = output_quant.zero_point as int;
    let bounds = activation_bounds(activation, scale, z);
    &&& bounds.0 <= bounds.1
    &&& match activation {
        FusedActivation::Relu6 => fits_i32(z + Real::from_int(6).over(scale).rounded()),
        FusedActivation::Sigmoid => fits_i32(z + Real::from_int(1).over(scale).rounded()),
        FusedActivation::ReluN1To1 | FusedActivation::Tanh => fits_i32(
            z + Real::from_int(-1).over(scale).rounded(),
        ) && fits_i32(z + Real::from_int(1).over(scale).rounded()),
        _ => true,
    }
}

/// A quantized value limited to the range of an activation.
pub open spec fn activated(
    val: int,
    activation: FusedActivation,
    output_quant: QuantParam,
) -> int {
    let bounds = activation_bounds(
        activation,
        output_quant.real_scale(),
        output_quant.zero_point as int,
    );
    clamped(val, bounds.0, bounds.1)
}

/// `zero_point` plus the quantized value of `n`.
fn quantized_level(n: i32, output_quant: QuantParam) -> (r: i32)
    requires
        fits_i32(
            output_quant.zero_point + Real::from_int(n as int).over(
                output_quant.real_scale(),
            ).rounded(),
        ),
    ensures
        r == output_quant.zero_point + Real::from_int(n as int).over(
            output_quant.real_scale(),
        ).rounded(),
{
    output_quant.zero_point + round_f32_to_i32(
        Single::from_i32(n).over(Single::from_bits(output_quant.scale)),
    )
}

/// Limits a quantized value to the range of a fused activation.
pub fn apply_activation(val: i32, activation: FusedActivation, output_quant: QuantParam) -> (r: i8)
    requires
        activation_defined(activation, output_quant),
    ensures
        r == activated(val as int, activation, output_quant),
{
    let high: i32 = match activation {
        FusedActivation::Relu6 => smaller(127, quantized_level(6, output_quant)),
        FusedActivation::ReluN1To1 | FusedActivation::Tanh | FusedActivation::Sigmoid => smaller(
            127,
            quantized_level(1, output_quant),
        ),
        FusedActivation::Identity | FusedActivation::Relu | FusedActivation::SignBit => 127,
    };
    let low: i32 = match activation {
        FusedActivation::Identity | FusedActivation::SignBit => -128,
        FusedActivation::Relu | FusedActivation::Relu6 => larger(-128, output_quant.zero_point),
        FusedActivation::Sigmoid => larger(-128, smaller(output_quant.zero_point, high)),
        FusedActivation::ReluN1To1 | FusedActivation::Tanh => larger(
            -128,
            quantized_level(-1, output_quant),
        ),
    };
    let limited: i32 = if val < low {
        low
    } else if val > high {
        high
    } else {
        val
    };
    clamp_i8(limited)
}

fn larger(a: i32, b: i32) -> (r: i32)
    ensures
        r == max(a as int, b as int),
{
    if a >= b {
        a
    } else {
        b
    }
}

fn smaller(a: i32, b: i32) -> (r: i32)
    ensures
        r == min(a as int, b as int),
{
    if a <= b {
        a
    } else {
        b
    }
}

/// The value of `i8` nearest to `value`.
pub fn clamp_i8(value: i32) -> (r: i8)
    ensures
        r == clamped(value as int, -128, 127),
{
    if value < -128 {
        -128
    } else if value > 127 {
        127
    } else {
        value as i8
    }
}

/// Quotient rounded by half of the denominator, away from zero.
pub open spec fn rounded_quotient(numerator: int, denominator: int) -> int {
    let half = trunc_div(denominator, 2);
    if numerator >= 0 {
        trunc_div(numerator + half, denominator)
    } else {
        trunc_div(numerator - half, denominator)
    }
}

/// The rounding term and the quotient fit in `i32`.
pub open spec fn rounded_quotient_defined(numerator: int, denominator: int) -> bool {
    let half = trunc_div(denominator, 2);
    &&& denominator != 0
    &&& fits_i32(
        if numerator >= 0 {
            numerator + half
        } else {
            numerator - half
        },
    )
    &&& fits_i32(rounded_quotient(numerator, denominator))
}

/// Divides and rounds to the nearest integer.
pub fn round_divide(numerator: i32, denominator: i32) -> (r: i32)
    requires
        rounded_quotient_defined(numerator as int, denominator as int),
    ensures
        r == rounded_quotient(numerator as int, denominator as int),
{
    let half: i32 = denominator / 2;
    assert(half == trunc_div(denominator as int, 2));
    let sum: i32 = if numerator >= 0 {
        numerator + half
    } else {
        numerator - half
    };
    proof {
        if denominator < 0 {
            lemma_div_negative(abs(sum as int), -(denominator as int));
        }
        if sum == i32::MIN && denominator == -1 {
            assert(abs(sum as int) == 0x8000_0000);
            assert(abs(sum as int) / 1 == 0x8000_0000);
            assert(false);
        }
    }
    sum / denominator
}

proof fn lemma_div_negative(a: int, b: int)
    requires
        b > 0,
        a >= 0,
    ensures
        a / (-b) == -(a / b),
{
    lemma_fundamental_div_mod(a, b);
    lemma_fundamental_div_mod(a, -b);
    let q = a / b;
    let p = a / (-b);
    assert((-b) * p == b * (-p)) by (nonlinear_arith);
    lemma_fundamental_div_mod_converse(a, b, -p, a % (-b));
}

/// A scale of one leaves every accumulator as it is.
pub proof fn lemma_unit_scale(acc: int)
    requires
        fits_i32(acc),
    ensures
        scaling_defined(
            acc,
            real_multiplier(single::decode(ONE_BITS)).0,
            real_multiplier(single::decode(ONE_BITS)).1,
        ),
        scaled(
            acc,
            real_multiplier(single::decode(ONE_BITS)).0,
            real_multiplier(single::decode(ONE_BITS)).1,
        ) == acc,
{
    lemma2_to64();
    lemma_pow2_adds(23, 126);
    lemma_pow2_pos(149);
    assert(single::decode(ONE_BITS) == (Real::Finite { negative: false, units: pow2(149) }));
    lemma_quantized_scale(1, 0, 149);
    assert(1 * pow2(149) == pow2(149));
    assert(bit_length(1) == 1) by {
        reveal_with_fuel(bit_length, 2);
    }
    let k = bit_length(1);
    assert(pow2(k) == 2);
    lemma_fundamental_div_mod_converse(0x1_0000_0002, 4, 0x4000_0000, 2);
    assert((2 * (1 * pow2(31)) + pow2(k)) as int / (2 * pow2(k)) as int == 0x4000_0000);
    assert(quantized(1, 0) == (0x4000_0000int, 1int));
    lemma_fundamental_div_mod_converse(
        acc * 0x4000_0000 + 0x2000_0000,
        0x4000_0000,
        acc,
        0x2000_0000,
    );
}

/// Between tensors of scale one, requantization only adds the zero point.
pub proof fn lemma_unit_quantization(acc: int, zero_point: i32, channel: int)
    requires
        fits_i32(acc),
    ensures
        ({
            let unit = QuantParam { scale: ONE_BITS, zero_point };
            requantized(
                acc,
                real_multiplier(channel_scale(unit, unit, None, unit, channel)),
                zero_point as int,
            ) == acc + zero_point
        }),
{
    single::lemma_one_is_neutral(ONE_BITS);
    lemma_unit_scale(acc);
}

/// An activation gives a value within its bounds, and within `i8`, and never
/// turns the order of two values round.
pub proof fn lemma_activation(
    low: int,
    high: int,
    activation: FusedActivation,
    output_quant: QuantParam,
)
    requires
        activation_defined(activation, output_quant),
        low <= high,
    ensures
        -128 <= activated(low, activation, output_quant) <= 127,
        activated(low, activation, output_quant) <= activated(high, activation, output_quant),
{
}

/// ReLU is the larger of the value and the quantized zero, within `i8`.
pub proof fn lemma_relu(val: int, output_quant: QuantParam)
    requires
        -128 <= output_quant.zero_point <= 127,
    ensures
        activated(val, FusedActivation::Relu, output_quant) == clamped(
            max(val, output_quant.zero_point as int),
            -128,
            127,
        ),
{
}

/// The sigmoid activation never gives a value above the quantized one, nor below the
/// quantized zero, wherever that is in `i8` and not above the quantized one.
pub proof fn lemma_sigmoid(val: int, output_quant: QuantParam)
    requires
        activation_defined(FusedActivation::Sigmoid, output_quant),
    ensures
        ({
            let zero = output_quant.zero_point as int;
            let one = zero + Real::from_int(1).over(output_quant.real_scale()).rounded();
            let r = activated(val, FusedActivation::Sigmoid, output_quant);
            r <= one && (zero <= 127 && zero <= one ==> zero <= r)
        }),
{
}

/// The sigmoid activation is defined wherever the quantized one is computed without
/// overflow and not below `i8`.
pub proof fn lemma_sigmoid_defined(output_quant: QuantParam)
    ensures
        ({
            let one = output_quant.zero_point + Real::from_int(1).over(
                output_quant.real_scale(),
            ).rounded();
            activation_defined(FusedActivation::Sigmoid, output_quant) <==> -128 <= one <= i32::MAX
        }),
{
}

/// Dividing by a positive number gives the nearest integer, ties away from zero.
pub proof fn lemma_rounded_quotient(numerator: int, denominator: int)
    requires
        denominator > 0,
    ensures
        2 * abs(numerator - denominator * rounded_quotient(numerator, denominator)) <= denominator,
        2 * abs(numerator - denominator * rounded_quotient(numerator, denominator)) == denominator
            ==> denominator * abs(rounded_quotient(numerator, denominator)) > abs(numerator),
{
    let d = denominator;
    let half = d / 2;
    assert(trunc_div(d, 2) == half);
    let n = abs(numerator);
    let q = (n + half) / d;
    lemma_fundamental_div_mod(n + half, d);
    lemma_mod_bound(n + half, d);
    lemma_div_pos_is_pos(n + half, d);
    assert(2 * abs(n - d * q) <= d);
    if numerator < 0 {
        assert(abs(numerator - half) == n + half);
        assert(rounded_quotient(numerator, d) == -q);
        assert(d * (-q) == -(d * q)) by (nonlinear_arith);
    } else {
        assert(rounded_quotient(numerator, d) == q);
    }
}

/// A scaled value is the nearest integer to the product, ties upward, where it fits
/// in 32 bits.
pub proof fn lemma_scaled_nearest(x: int, multiplier: int, shift: int)
    requires
        shift < 31,
        fits_i32((x * multiplier + pow2((30 - shift) as nat)) / pow2((31 - shift) as nat) as int),
    ensures
        ({
            let unit = pow2((31 - shift) as nat);
            let error = 2 * (x * multiplier - scaled(x, multiplier, shift) * unit);
            -unit <= error < unit
        }),
{
    let unit = pow2((31 - shift) as nat) as int;
    let half = pow2((30 - shift) as nat) as int;
    lemma_pow2_unfold((31 - shift) as nat);
    lemma_pow2_pos((31 - shift) as nat);
    let sum = x * multiplier + half;
    let q = sum / unit;
    lemma_fundamental_div_mod(sum, unit);
    lemma_mod_bound(sum, unit);
    assert(q * unit == unit * q) by (nonlinear_arith);
    assert(wrap_i32(q) == q);
}

/// A positive scale below one half, down to 2^-32, requantizes every accumulator
/// without overflow, wherever the zero point has at most 30 binary digits.
pub proof fn lemma_small_scale_defined(acc: int, scale: Real, zero_point: int)
    requires
        fits_i32(acc),
        scale matches Real::Finite { negative, units } && !negative && units > 0,
        -32 <= real_multiplier(scale).1 <= -1,
        -0x3fff_ffff <= zero_point <= 0x3fff_fffe,
    ensures
        requantize_defined(acc, real_multiplier(scale), zero_point),
{
    let units = scale->units;
    let (m, s) = real_multiplier(scale);
    lemma_quantized_error(units, -149);
    let unit = pow2((31 - s) as nat) as int;
    let half = pow2((30 - s) as nat) as int;
    lemma_pow2_unfold((31 - s) as nat);
    lemma2_to64();
    lemma2_to64_rest();
    if 31 - s > 32 {
        lemma_pow2_strictly_increases(32, (31 - s) as nat);
    }
    if 31 - s < 63 {
        lemma_pow2_strictly_increases((31 - s) as nat, 63);
    }
    assert(-0x3fff_ffff_8000_0000 <= acc * m <= 0x3fff_ffff_0000_0001) by (nonlinear_arith)
        requires
            -0x8000_0000 <= acc <= 0x7fff_ffff,
            0 <= m <= 0x7fff_ffff,
    ;
    let sum = acc * m + half;
    let q = sum / unit;
    lemma_fundamental_div_mod(sum, unit);
    lemma_mod_bound(sum, unit);
    assert(-0x4000_0000 <= q <= 0x4000_0000) by (nonlinear_arith)
        requires
            sum == unit * q + sum % unit,
            0 <= sum % unit < unit,
            unit == 2 * half,
            unit >= 0x1_0000_0000,
            -0x3fff_ffff_8000_0000 <= sum - half <= 0x3fff_ffff_0000_0001,
    ;
    assert(wrap_i32(q) == q);
}

} // verus!
