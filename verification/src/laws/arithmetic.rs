//! Integer and fixed-point arithmetic.
use crate::laws::results;
use crate::quantize;
use crate::quantize::Double;
use crate::single;
use crate::single::{Real, Single};
use crate::softmax;
use crate::types::{FusedActivation, QuantParam};
use vstd::arithmetic::div_mod::*;
use vstd::arithmetic::mul::*;
use vstd::arithmetic::power2::*;
use vstd::prelude::*;

verus! {

/// `r` is `v` where 32 bits hold it, and the end of their range that is nearer to `v`
/// otherwise.
pub open spec fn saturates(v: int, r: i32) -> bool {
    &&& -0x8000_0000 <= v <= 0x7fff_ffff ==> r == v
    &&& v > 0x7fff_ffff ==> r == 0x7fff_ffff
    &&& v < -0x8000_0000 ==> r == -0x8000_0000
}

/// Saturating multiplication gives the product, or the end of the range before it.
pub proof fn law_saturating_mul(x: i32, y: i32, r: i32)
    requires
        call_ensures(quantize::saturating_mul, (x, y), r),
    ensures
        saturates(x * y, r),
{
}

/// Saturating addition gives the sum, or the end of the range before it.
pub proof fn law_saturating_add(x: i32, y: i32, r: i32)
    requires
        call_ensures(quantize::saturating_add, (x, y), r),
    ensures
        saturates(x + y, r),
{
}

/// A saturating shift multiplies by a power of two, up to the end of the range.
pub proof fn law_saturating_left_shift(value: i32, shift: u32, r: i32)
    requires
        call_ensures(quantize::saturating_left_shift, (value, shift), r),
    ensures
        saturates(value * pow2(shift as nat), r),
{
}

/// A quantized multiplier stands for `multiplier * 2^(shift - 31)`: the result is the
/// nearest integer to the product, ties upward, where 32 bits hold it; a multiplier above
/// two to the thirtieth saturates the product before it is shifted.
pub proof fn law_multiply(x: i32, multiplier: i32, shift: i32, r: i32)
    requires
        call_ensures(
            quantize::multiply_by_quantized_multiplier,
            (x, multiplier, shift),
            r,
        ),
    ensures
        shift < 31 ==> ({
            let unit = pow2((31 - shift) as nat);
            let q = (2 * (x * multiplier) + unit) / (2 * unit as int);
            -0x8000_0000 <= q <= 0x7fff_ffff ==> {
                &&& r == q
                &&& -unit <= 2 * (x * multiplier - r * unit) < unit
            }
        }),
        shift >= 31 ==> exists|p: i32| #[trigger]
            saturates(x * multiplier, p) && saturates(p * pow2((shift - 31) as nat), r),
{
    if shift < 31 {
        let half = pow2((30 - shift) as nat) as int;
        let unit = pow2((31 - shift) as nat) as int;
        lemma_pow2_unfold((31 - shift) as nat);
        lemma_pow2_pos((30 - shift) as nat);
        let v = x * multiplier;
        let q = (v + half) / unit;
        lemma_fundamental_div_mod(v + half, unit);
        lemma_mod_bound(v + half, unit);
        assert((2 * unit) * q == 2 * (unit * q)) by (nonlinear_arith);
        assert(q * (2 * unit) == (2 * unit) * q) by (nonlinear_arith);
        lemma_fundamental_div_mod_converse(2 * v + unit, 2 * unit, q, 2 * ((v + half) % unit));
        if -0x8000_0000 <= (v + half) / unit <= 0x7fff_ffff {
            quantize::lemma_scaled_nearest(x as int, multiplier as int, shift as int);
            assert(quantize::wrap_i32((v + half) / unit) == (v + half) / unit);
        }
    } else {
        let p = quantize::clamp_i32(x * multiplier) as i32;
        assert(saturates(x * multiplier, p));
    }
}

/// Requantization multiplies, and then moves by the zero point of the output.
pub proof fn law_requantize(
    acc: i32,
    multiplier: i32,
    shift: i32,
    output_quant: QuantParam,
    r: i32,
    p: i32,
)
    requires
        call_ensures(quantize::requantize, (acc, multiplier, shift, output_quant), r),
        call_ensures(
            quantize::multiply_by_quantized_multiplier,
            (acc, multiplier, shift),
            p,
        ),
    ensures
        r == p + output_quant.zero_point,
{
}

/// The multiplier of a positive number has 31 binary digits, and stands with its shift
/// for the number to half of its last digit; anything else has the multiplier zero.
pub proof fn law_quantize_multiplier(scale: Double, r: (i32, i32))
    requires
        call_ensures(quantize::quantize_multiplier, (scale,), r),
    ensures
        match scale {
            Double::Finite { negative: false, significand, exponent } => if significand > 0 {
                let unit = pow2((r.1 - exponent) as nat);
                &&& 0x4000_0000 <= r.0
                &&& r.1 > exponent
                &&& -unit <= 2 * (significand * pow2(31) - r.0 * unit) <= unit
            } else {
                r == (0i32, 0i32)
            },
            _ => r == (0i32, 0i32),
        },
{
    if let Double::Finite { negative: false, significand, exponent } = scale {
        if significand > 0 {
            quantize::lemma_quantized_error(significand as nat, exponent as int);
        }
    }
}

/// Rounding gives the nearest integer, and of two the one further from zero; where 32
/// bits do not hold it, the end of their range, and zero where there is no number.
pub proof fn law_round(value: Single, r: i32)
    requires
        call_ensures(quantize::round_f32_to_i32, (value,), r),
    ensures
        match value@ {
            Real::Nan => r == 0,
            Real::Infinite { negative } => r == (if negative {
                i32::MIN
            } else {
                i32::MAX
            }),
            Real::Finite { negative, units } => {
                let unit = pow2(149) as int;
                let n = if negative {
                    -(units as int)
                } else {
                    units as int
                };
                &&& -0x8000_0000 < r < 0x7fff_ffff ==> {
                    &&& -unit <= 2 * (n - r * unit) <= unit
                    &&& 2 * (n - r * unit) == unit ==> negative
                    &&& 2 * (n - r * unit) == -unit ==> !negative
                }
                &&& r == 0x7fff_ffff ==> 2 * n >= (2 * r - 1) * unit
                &&& r == -0x8000_0000 ==> 2 * n <= (2 * r + 1) * unit
            },
        },
{
    if let Real::Finite { negative, units } = value@ {
        let unit = pow2(149) as int;
        lemma_pow2_pos(149);
        let m = (2 * units + unit) / (2 * unit);
        lemma_fundamental_div_mod(2 * units + unit, 2 * unit);
        lemma_mod_bound(2 * units + unit, 2 * unit);
        assert((2 * unit) * m == 2 * (m * unit)) by (nonlinear_arith);
        assert((-m) * unit == -(m * unit)) by (nonlinear_arith);
        lemma_div_pos_is_pos(2 * units + unit, 2 * unit);
        assert(m > 0x7fff_ffff ==> m * unit >= 0x8000_0000 * unit) by (nonlinear_arith)
            requires
                unit > 0,
        ;
        assert((2 * r - 1) * unit == 2 * (r * unit) - unit) by (nonlinear_arith);
        assert((2 * r + 1) * unit == 2 * (r * unit) + unit) by (nonlinear_arith);
        if negative {
            if m <= 0x8000_0000 {
                assert(r == -m);
                assert(r * unit == -(m * unit));
            } else {
                assert(r == -0x8000_0000);
                assert(r * unit == -0x8000_0000 * unit);
            }
        } else {
            if m <= 0x7fff_ffff {
                assert(r == m);
                assert(r * unit == m * unit);
            } else {
                assert(r == 0x7fff_ffff);
                assert(r * unit == 0x7fff_ffff * unit);
            }
        }
    }
}

/// Division gives the nearest integer, and of two the one further from zero.
pub proof fn law_round_divide(numerator: i32, denominator: i32, r: i32)
    requires
        call_ensures(quantize::round_divide, (numerator, denominator), r),
        denominator > 0,
    ensures
        -denominator <= 2 * (numerator - denominator * r) <= denominator,
        2 * (numerator - denominator * r) == denominator ==> numerator < 0,
        2 * (numerator - denominator * r) == -denominator ==> numerator > 0,
{
    quantize::lemma_rounded_quotient(numerator as int, denominator as int);
    let d = denominator as int;
    assert(d * quantize::abs(r as int) == quantize::abs(d * r)) by (nonlinear_arith)
        requires
            d > 0,
    ;
    assert((d * r > 0 ==> d * r >= d) && (d * r < 0 ==> d * r <= -d)) by (nonlinear_arith)
        requires
            d > 0,
    ;
}

/// The nearest value of `i8`.
pub proof fn law_clamp_i8(value: i32, r: i8)
    requires
        call_ensures(quantize::clamp_i8, (value,), r),
    ensures
        -128 <= value <= 127 ==> r == value,
        value > 127 ==> r == 127,
        value < -128 ==> r == -128,
{
}

/// An activation gives the value of `i8` that it permits and that is nearest to what it
/// is given.
pub proof fn law_apply_activation(
    val: i32,
    activation: FusedActivation,
    output_quant: QuantParam,
    r: i8,
    other: i8,
)
    requires
        call_ensures(quantize::apply_activation, (val, activation, output_quant), r),
        quantize::activation_defined(activation, output_quant),
        activation == FusedActivation::Sigmoid ==> output_quant.zero_point <= 127 && Real::from_int(
            1,
        ).over(single::decode(output_quant.scale)).rounded() >= 0,
        results::permitted(other as int, activation, output_quant),
    ensures
        results::permitted(r as int, activation, output_quant),
        quantize::abs(val - r) <= quantize::abs(val - other),
{
    results::lemma_activation_permits(val as int, other as int, activation, output_quant);
}

/// The exponential function is needed at the distances, from 0 to -255, times the scale
/// of the input times beta.
pub proof fn law_exponent_arguments(input_quant: QuantParam, beta: u32, r: Vec<u32>, d: int)
    requires
        call_ensures(softmax::exponent_arguments, (input_quant, beta), r),
        0 <= d < 256,
    ensures
        r@.len() == 256,
        single::decode(r@[d]) == Real::from_int(-d).times(single::decode(input_quant.scale)).times(
            single::decode(beta),
        ),
{
}

} // verus!
