//! From accumulators to quantized results.
use crate::quantize;
use crate::single;
use crate::single::{Real, ONE_BITS};
use crate::types::{FusedActivation, QuantParam};
use vstd::arithmetic::mul::*;
use vstd::arithmetic::power2::*;
use vstd::prelude::*;

verus! {

/// An accumulator, scaled, moved by the zero point of the output and limited to the
/// range of the activation.
pub open spec fn finished(
    acc: int,
    scale: Real,
    activation: FusedActivation,
    output_quant: QuantParam,
) -> int {
    quantize::activated(
        quantize::requantized(
            acc,
            quantize::real_multiplier(scale),
            output_quant.zero_point as int,
        ),
        activation,
        output_quant,
    )
}

/// A result that an activation may give: ReLU gives nothing below the quantized zero,
/// ReLU6 nothing above the quantized six either, Tanh and the ReLU of range `[-1, 1]`
/// nothing outside the quantized ends of that range, Sigmoid nothing above the
/// quantized one, nor below the quantized zero where that is no larger than the
/// quantized one and within `i8`.
pub open spec fn permitted(
    value: int,
    activation: FusedActivation,
    output_quant: QuantParam,
) -> bool {
    let zero = output_quant.zero_point as int;
    let scale = output_quant.real_scale();
    let one = zero + Real::from_int(1).over(scale).rounded();
    let minus_one = zero + Real::from_int(-1).over(scale).rounded();
    let six = zero + Real::from_int(6).over(scale).rounded();
    match activation {
        FusedActivation::Identity | FusedActivation::SignBit => true,
        FusedActivation::Relu => zero <= value,
        FusedActivation::Relu6 => zero <= value <= six,
        FusedActivation::ReluN1To1 | FusedActivation::Tanh => minus_one <= value <= one,
        FusedActivation::Sigmoid => value <= one && (zero <= 127 && zero <= one ==> zero <= value),
    }
}

/// An activation gives a permitted value of `i8`, leaves a permitted value of `i8` as it
/// is, and moves no other value further than it must.
pub proof fn lemma_activation_permits(
    value: int,
    other: int,
    activation: FusedActivation,
    output_quant: QuantParam,
)
    requires
        quantize::activation_defined(activation, output_quant),
        activation == FusedActivation::Sigmoid ==> ({
            let zero = output_quant.zero_point as int;
            zero <= 127 && Real::from_int(1).over(output_quant.real_scale()).rounded() >= 0
        }),
        -128 <= other <= 127,
        permitted(other, activation, output_quant),
    ensures
        ({
            let r = quantize::activated(value, activation, output_quant);
            &&& -128 <= r <= 127
            &&& permitted(r, activation, output_quant)
            &&& -128 <= value <= 127 && permitted(value, activation, output_quant) ==> r == value
            &&& quantize::abs(value - r) <= quantize::abs(value - other)
        }),
{
}

/// Results are permitted values of `i8`.
pub proof fn lemma_activation_range(
    value: int,
    activation: FusedActivation,
    output_quant: QuantParam,
)
    requires
        quantize::activation_defined(activation, output_quant),
    ensures
        -128 <= quantize::activated(value, activation, output_quant) <= 127,
        permitted(
            quantize::activated(value, activation, output_quant),
            activation,
            output_quant,
        ),
{
}

/// At a scale of one and without an activation, a result is the accumulator plus the
/// zero point, limited to `i8`.
pub proof fn lemma_finished_at_unit_scale(acc: int, output_quant: QuantParam)
    requires
        -0x8000_0000 <= acc <= 0x7fff_ffff,
    ensures
        finished(acc, single::decode(ONE_BITS), FusedActivation::Identity, output_quant)
            == quantize::clamped(acc + output_quant.zero_point, -128, 127),
{
    quantize::lemma_unit_scale(acc);
}

/// A single divided by itself is one.
pub proof fn lemma_ratio_of_equals(bits: u32)
    requires
        single::decode(bits) matches Real::Finite { units, .. } && units > 0,
    ensures
        single::decode(bits).over(single::decode(bits)) == single::decode(ONE_BITS),
{
    let u = single::decode(bits)->units;
    lemma2_to64();
    lemma_pow2_adds(23, 126);
    lemma_pow2_pos(149);
    lemma_pow2_strictly_increases(149, 277);
    assert(single::decode(ONE_BITS) == (Real::Finite { negative: false, units: pow2(149) }));
    assert(1nat * pow2(149) == pow2(149));
    assert(single::representable(pow2(149)));
    single::lemma_exact(pow2(149), u);
    lemma_mul_is_commutative(u as int, pow2(149) as int);
}

/// Requantization multiplies by the scale: the result, before the zero point is added,
/// differs from the accumulator times the scale by at most half and three parts in 2^32
/// of the product, wherever it fits in 32 bits.
pub proof fn lemma_requantization_multiplies(acc: int, units: nat, zero_point: int)
    requires
        units > 0,
        -32 <= quantize::quantized(units, -149).1 < 31,
        ({
            let (m, s) = quantize::quantized(units, -149);
            quantize::fits_i32((acc * m + pow2((30 - s) as nat)) / pow2((31 - s) as nat) as int)
        }),
    ensures
        ({
            let scale = Real::Finite { negative: false, units };
            let r = quantize::requantized(acc, quantize::real_multiplier(scale), zero_point)
                - zero_point;
            2 * quantize::abs(acc * units - r * pow2(149)) * pow2(31) <= pow2(180) + 3 * (
            quantize::abs(acc) * units)
        }),
{
    let (m, s) = quantize::quantized(units, -149);
    quantize::lemma_quantized_error(units, -149);
    quantize::lemma_scaled_nearest(acc, m, s);
    let r = quantize::scaled(acc, m, s);
    let a = pow2((31 - s) as nat) as int;
    let b = pow2((s + 149) as nat) as int;
    let p = pow2(31) as int;
    let q = pow2(149) as int;
    lemma_pow2_adds((31 - s) as nat, (s + 149) as nat);
    lemma_pow2_adds(31, 149);
    lemma2_to64();
    lemma_pow2_pos((31 - s) as nat);
    lemma_pow2_pos((s + 149) as nat);
    assert(a * b == pow2(180));
    assert(p * q == pow2(180));
    let n = units as int;
    let e = acc * m - r * a;
    let d = n * p - m * b;
    assert(-a <= 2 * e < a);
    assert(2 * quantize::abs(d) <= b);
    assert(b <= 3 * n) by (nonlinear_arith)
        requires
            -b <= 2 * d <= b,
            d == n * p - m * b,
            m >= 0x4000_0000,
            p == 0x8000_0000,
            b > 0,
            n > 0,
    ;
    let err = acc * n - r * q;
    assert(err * p == (acc * n) * p - (r * q) * p) by (nonlinear_arith)
        requires
            err == acc * n - r * q,
    ;
    assert(e * b == (acc * m) * b - (r * a) * b) by (nonlinear_arith)
        requires
            e == acc * m - r * a,
    ;
    assert(acc * d == acc * (n * p) - acc * (m * b)) by (nonlinear_arith)
        requires
            d == n * p - m * b,
    ;
    lemma_mul_is_associative(acc, n, p);
    lemma_mul_is_associative(acc, m, b);
    lemma_mul_is_associative(r, q, p);
    lemma_mul_is_associative(r, a, b);
    lemma_mul_is_commutative(p, q);
    assert(err * p == e * b + acc * d);
    assert(2 * quantize::abs(e * b) <= a * b) by (nonlinear_arith)
        requires
            -a <= 2 * e <= a,
            b > 0,
    ;
    assert(2 * quantize::abs(acc * d) <= quantize::abs(acc) * b) by (nonlinear_arith)
        requires
            -b <= 2 * d <= b,
            b > 0,
    ;
    assert(quantize::abs(acc) * b <= 3 * (quantize::abs(acc) * n)) by (nonlinear_arith)
        requires
            b <= 3 * n,
            quantize::abs(acc) >= 0,
    ;
    assert(quantize::abs(err * p) == quantize::abs(err) * p) by (nonlinear_arith)
        requires
            p > 0,
    ;
    assert(2 * quantize::abs(err) * p == 2 * (quantize::abs(err) * p)) by (nonlinear_arith);
}

} // verus!
