//! Sizes, scales and activations of ordinary models, on which nothing overflows.
use crate::quantize;
use crate::shape;
use crate::single;
use crate::single::Real;
use crate::types::{FusedActivation, Padding, QuantParam};
use vstd::arithmetic::div_mod::*;
use vstd::arithmetic::mul::*;
use vstd::arithmetic::power2::*;
use vstd::prelude::*;

verus! {

/// A size of an image or a filter, a stride or a dilation.
pub open spec fn is_modest(n: int) -> bool {
    1 <= n <= 0x4000
}

/// Four dimensions of a tensor that 32 bits can count.
pub open spec fn is_tensor(dims: [usize; 4]) -> bool {
    &&& dims[0] >= 1 && dims[1] >= 1 && dims[2] >= 1 && dims[3] >= 1
    &&& dims[0] * dims[1] * dims[2] * dims[3] <= 0xffff_ffff
}

/// A zero point of `i8`.
pub open spec fn has_byte_zero(quant: QuantParam) -> bool {
    -128 <= quant.zero_point <= 127
}

/// A positive scale from 2^-32 to a quarter.
pub open spec fn is_small(scale: Real) -> bool {
    scale matches Real::Finite { negative, units } && !negative && pow2(117) <= units < pow2(147)
}

/// The range of an activation is not empty, and 32 bits hold its ends.
pub open spec fn has_range(activation: FusedActivation, quant: QuantParam) -> bool {
    let zero = quant.zero_point as int;
    let scale = single::decode(quant.scale);
    let one = zero + Real::from_int(1).over(scale).rounded();
    let minus_one = zero + Real::from_int(-1).over(scale).rounded();
    let six = zero + Real::from_int(6).over(scale).rounded();
    match activation {
        FusedActivation::Identity | FusedActivation::SignBit => true,
        FusedActivation::Relu => zero <= 127,
        FusedActivation::Relu6 => zero <= 127 && -128 <= six <= 0x7fff_ffff && zero <= six,
        FusedActivation::Sigmoid => -128 <= one <= 0x7fff_ffff,
        FusedActivation::ReluN1To1 | FusedActivation::Tanh => {
            &&& -0x8000_0000 <= minus_one <= 127
            &&& -128 <= one <= 0x7fff_ffff
            &&& minus_one <= one
        },
    }
}

pub proof fn lemma_range(activation: FusedActivation, quant: QuantParam)
    requires
        has_range(activation, quant),
    ensures
        quantize::activation_defined(activation, quant),
{
}

pub proof fn lemma_tensor(dims: [usize; 4])
    requires
        is_tensor(dims),
    ensures
        shape::product_defined(dims@),
        shape::dims_product(dims@) == dims[0] * dims[1] * dims[2] * dims[3],
{
    let (a, b, c, d) = (dims[0] as int, dims[1] as int, dims[2] as int, dims[3] as int);
    shape::lemma_product4(dims@);
    assert(a <= a * b && a * b <= a * b * c && a * b * c <= a * b * c * d) by (nonlinear_arith)
        requires
            a >= 1,
            b >= 1,
            c >= 1,
            d >= 1,
    ;
    reveal_with_fuel(shape::dims_product, 5);
    let s = dims@;
    assert(s.take(4) =~= s);
    assert(s.take(4).drop_last() =~= s.take(3));
    assert(s.take(3).drop_last() =~= s.take(2));
    assert(s.take(2).drop_last() =~= s.take(1));
    assert(s.take(1).drop_last() =~= s.take(0));
    assert(s.take(0) =~= Seq::<usize>::empty());
    assert(shape::dims_product(s.take(0)) == 1);
    assert(s.take(1).last() == s[0]);
    assert(1nat * s[0] as nat == s[0]);
    assert(shape::dims_product(s.take(1)) == a);
    assert(shape::dims_product(s.take(2)) == a * b);
    assert(shape::dims_product(s.take(3)) == a * b * c);
    assert forall|k: int| 0 <= k <= s.len() implies #[trigger] shape::dims_product(s.take(k))
        <= usize::MAX by {
        assert(k == 0 || k == 1 || k == 2 || k == 3 || k == 4);
    }
}

/// A small scale requantizes every accumulator without overflow.
pub proof fn lemma_small(acc: int, scale: Real, quant: QuantParam)
    requires
        is_small(scale),
        has_byte_zero(quant),
        -0x8000_0000 <= acc <= 0x7fff_ffff,
    ensures
        quantize::requantize_defined(
            acc,
            quantize::real_multiplier(scale),
            quant.zero_point as int,
        ),
        scale != (Real::Infinite { negative: false }),
{
    let units = scale->units;
    let k = quantize::bit_length(units);
    lemma_pow2_pos(117);
    quantize::lemma_bit_length_bounds(units);
    if k > 147 {
        if k > 148 {
            lemma_pow2_strictly_increases(147, (k - 1) as nat);
        }
    }
    if k < 118 {
        if k < 117 {
            lemma_pow2_strictly_increases(k, 117);
        }
    }
    quantize::lemma_small_scale_defined(acc, scale, quant.zero_point as int);
}

/// Windows of modest size, stride and dilation are found without overflow.
pub proof fn lemma_axis(
    size: usize,
    filter: int,
    stride: int,
    dilation: int,
    padding: Padding,
    outputs: int,
)
    requires
        is_modest(size as int),
        is_modest(filter),
        is_modest(stride),
        is_modest(dilation),
        is_modest(outputs),
    ensures
        shape::window_defined(size, filter, stride, dilation, padding),
        forall|out: int, tap: int|
            0 <= out < outputs && 0 <= tap < filter ==> #[trigger] shape::window_axis(
                size,
                filter,
                stride,
                dilation,
                padding,
            ).source_defined(out, tap),
{
    let extent = shape::dilated_size(filter, dilation);
    assert(0 <= (filter - 1) * dilation <= 0x4000 * 0x4000) by (nonlinear_arith)
        requires
            1 <= filter <= 0x4000,
            1 <= dilation <= 0x4000,
    ;
    let n = shape::ceil_div(size as int, stride);
    lemma_fundamental_div_mod(size + stride - 1, stride);
    lemma_mod_bound(size + stride - 1, stride);
    assert((n - 1) * stride == stride * n - stride) by (nonlinear_arith);
    assert(0 <= (n - 1) * stride) by {
        lemma_div_is_ordered(stride, size + stride - 1, stride);
        lemma_div_by_self(stride);
        lemma_mul_nonnegative(n - 1, stride);
    }
    let axis = shape::window_axis(size, filter, stride, dilation, padding);
    assert forall|out: int, tap: int| 0 <= out < outputs && 0 <= tap < filter implies #[trigger]
        axis.source_defined(out, tap) by {
        assert(0 <= out * stride <= 0x4000 * 0x4000) by (nonlinear_arith)
            requires
                0 <= out <= 0x4000,
                1 <= stride <= 0x4000,
        ;
        assert(0 <= tap * dilation <= 0x4000 * 0x4000) by (nonlinear_arith)
            requires
                0 <= tap <= 0x4000,
                1 <= dilation <= 0x4000,
        ;
    }
}

} // verus!
