//! Fully-connected layers.
use crate::params::{FullyConnectedArgs, FullyConnectedParams};
use crate::quantize;
use crate::shape;
use crate::single::Real;
use crate::types::{KernelError, Status};
use vstd::prelude::*;

verus! {

impl FullyConnectedArgs {
    /// The output has the stated depth, which is that of the weights.
    pub open spec fn depth_valid(self) -> bool {
        &&& self.output_len == self.output_depth
        &&& self.output_depth == self.weights_shape[0]
    }

    /// Buffers and shapes agree.
    pub open spec fn valid(self) -> bool {
        &&& self.depth_valid()
        &&& self.weights.len() == self.weights_shape[0] * self.weights_shape[1]
        &&& self.input.len() == self.weights_shape[1]
        &&& shape::bias_fits(self.bias, self.weights_shape[0] as int)
    }

    /// An input element, relative to the zero point.
    pub open spec fn input_at(self, i: int) -> int {
        self.input[i] - self.input_quant.zero_point
    }

    /// A weight, relative to the zero point.
    pub open spec fn weight_at(self, channel: int, i: int) -> int {
        self.weights[channel * self.weights_shape[1] + i] - self.weights_quant.zero_point
    }

    /// The bias after the first `n` products, each step saturating.
    pub open spec fn over_inputs(self, channel: int, n: int) -> int
        decreases n,
    {
        if n <= 0 {
            shape::bias_at(self.bias, channel)
        } else {
            quantize::clamp_i32(
                self.over_inputs(channel, n - 1) + quantize::clamp_i32(
                    self.input_at(n - 1) * self.weight_at(channel, n - 1),
                ),
            )
        }
    }

    /// The accumulator of one output element.
    pub open spec fn accumulated(self, channel: int) -> int {
        self.over_inputs(channel, self.weights_shape[1] as int)
    }

    /// The scale of the accumulator of one output element.
    pub open spec fn scale(self, channel: int) -> Real {
        quantize::channel_scale(
            self.input_quant,
            self.weights_quant,
            self.channel_scales,
            self.output_quant,
            channel,
        )
    }

    /// One element of the output.
    pub open spec fn element(self, channel: int) -> int {
        quantize::activated(
            quantize::requantized(
                self.accumulated(channel),
                quantize::real_multiplier(self.scale(channel)),
                self.output_quant.zero_point as int,
            ),
            self.activation,
            self.output_quant,
        )
    }

    /// One output element is computed without overflow.
    pub open spec fn element_defined(self, channel: int) -> bool {
        &&& self.scale(channel) != (Real::Infinite { negative: false })
        &&& forall|i: int|
            0 <= i < self.weights_shape[1] ==> quantize::fits_i32(self.input_at(i))
                && quantize::fits_i32(#[trigger] self.weight_at(channel, i))
        &&& quantize::requantize_defined(
            self.accumulated(channel),
            quantize::real_multiplier(self.scale(channel)),
            self.output_quant.zero_point as int,
        )
        &&& quantize::activation_defined(self.activation, self.output_quant)
    }

    /// No step that the operator takes overflows.
    pub open spec fn defined(self) -> bool {
        &&& self.depth_valid() ==> self.weights_shape[0] * self.weights_shape[1] <= usize::MAX
        &&& self.valid() ==> forall|i: int|
            0 <= i < self.output_len ==> #[trigger] self.element_defined(i)
    }

    /// Success, or the error that is returned.
    pub open spec fn status(self) -> Status {
        if self.valid() {
            Ok(())
        } else {
            Err(KernelError::InvalidShape)
        }
    }

    /// The output buffer after the operator, given its contents before.
    pub open spec fn output(self, before: Seq<i8>) -> Seq<i8> {
        if self.valid() {
            Seq::new(self.output_len, |i: int| self.element(i) as i8)
        } else {
            before
        }
    }
}

fn accumulate(params: &FullyConnectedParams<'_>, channel: usize) -> (r: i32)
    requires
        params@.valid(),
        channel < params@.output_depth,
        params@.element_defined(channel as int),
    ensures
        r == params@.accumulated(channel as int),
{
    let ghost args = params@;
    let input_depth: usize = params.weights_shape[1];
    let mut acc: i32 = shape::channel_bias(params.bias, channel);
    let mut i: usize = 0;
    while i < input_depth
        invariant
            args == params@,
            args.valid(),
            channel < args.output_depth,
            args.element_defined(channel as int),
            i <= input_depth == args.weights_shape[1],
            acc == args.over_inputs(channel as int, i as int),
        decreases input_depth - i,
    {
        proof {
            assert(params.weights.len() == args.weights.len());
            assert(channel * input_depth + i < args.weights.len() && 0 <= channel * input_depth)
                by (nonlinear_arith)
                requires
                    0 <= channel < args.weights_shape[0],
                    0 <= i < input_depth,
                    args.weights.len() == args.weights_shape[0] * args.weights_shape[1],
                    input_depth == args.weights_shape[1],
            ;
            assert(quantize::fits_i32(args.weight_at(channel as int, i as int)));
        }
        let input: i32 = params.input[i] as i32 - params.input_quant.zero_point;
        let weight: i32 = params.weights[channel * input_depth + i] as i32
            - params.weights_quant.zero_point;
        acc = quantize::saturating_add(acc, quantize::saturating_mul(input, weight));
        i = i + 1;
    }
    acc
}

/// Executes a fully-connected layer.
pub fn fully_connected(params: FullyConnectedParams<'_>) -> (r: Status)
    requires
        params@.defined(),
    ensures
        r == params@.status(),
        final(params.output)@ == params@.output(old(params.output)@),
{
    let ghost args = params@;
    let ghost given = params;
    shape::validate_len(params.output, params.output_depth)?;
    let output_depth: usize = params.weights_shape[0];
    let input_depth: usize = params.weights_shape[1];
    proof {
        if args.depth_valid() {
            vstd::arithmetic::mul::lemma_mul_nonnegative(output_depth as int, input_depth as int);
        }
    }
    if params.output_depth != output_depth || params.weights.len() != output_depth * input_depth
        || params.input.len() != input_depth {
        return Err(KernelError::InvalidShape);
    }
    shape::validate_bias(params.bias, output_depth)?;
    let mut channel: usize = 0;
    while channel < output_depth
        invariant
            params@ == args,
            args.valid(),
            args.defined(),
            channel <= output_depth == args.output_len,
            forall|i: int|
                0 <= i < channel ==> params.output@[i] == #[trigger] args.output(
                    given.output@,
                )[i],
            final(params.output)@ == final(given.output)@,
        decreases output_depth - channel,
    {
        assert(args.element_defined(channel as int));
        let (multiplier, shift) = quantize::output_channel_multiplier_shift(
            params.input_quant,
            params.weights_quant,
            params.weights_per_channel_quant,
            params.output_quant,
            channel,
        );
        let acc: i32 = accumulate(&params, channel);
        let scaled: i32 = quantize::requantize(acc, multiplier, shift, params.output_quant);
        params.output[channel] = quantize::apply_activation(
            scaled,
            params.activation,
            params.output_quant,
        );
        channel = channel + 1;
    }
    assert(params.output@ =~= args.output(given.output@));
    Ok(())
}

impl FullyConnectedArgs {
    /// The sum of the first `n` products.
    pub open spec fn dot(self, channel: int, n: int) -> int
        decreases n,
    {
        if n <= 0 {
            0
        } else {
            self.dot(channel, n - 1) + self.input_at(n - 1) * self.weight_at(channel, n - 1)
        }
    }

    /// The sum of the magnitudes of the first `n` products.
    pub open spec fn magnitude(self, channel: int, n: int) -> int
        decreases n,
    {
        if n <= 0 {
            0
        } else {
            self.magnitude(channel, n - 1) + quantize::abs(
                self.input_at(n - 1) * self.weight_at(channel, n - 1),
            )
        }
    }
}

impl FullyConnectedArgs {
    /// The first `n` products, and the bias plus each of their partial sums, fit in
    /// 32 bits.
    pub open spec fn sums_fit(self, channel: int, n: int) -> bool {
        forall|k: int|
            #![trigger self.weight_at(channel, k)]
            0 <= k < n ==> quantize::fits_i32(self.input_at(k) * self.weight_at(channel, k))
                && quantize::fits_i32(
                shape::bias_at(self.bias, channel) + self.dot(channel, k + 1),
            )
    }
}

proof fn lemma_dot_partial(args: FullyConnectedArgs, channel: int, n: int)
    requires
        args.sums_fit(channel, n),
    ensures
        args.over_inputs(channel, n) == shape::bias_at(args.bias, channel) + args.dot(channel, n),
    decreases n,
{
    if n > 0 {
        lemma_dot_partial(args, channel, n - 1);
        assert(quantize::fits_i32(args.input_at(n - 1) * args.weight_at(channel, n - 1)));
    }
}

/// Where no product and no partial sum leaves 32 bits, the accumulator is the bias
/// plus the dot product of the inputs and the weights, each relative to its zero
/// point.
pub proof fn lemma_exact_dot_product(args: FullyConnectedArgs, channel: int)
    requires
        args.sums_fit(channel, args.weights_shape[1] as int),
    ensures
        args.accumulated(channel) == shape::bias_at(args.bias, channel) + args.dot(
            channel,
            args.weights_shape[1] as int,
        ),
{
    lemma_dot_partial(args, channel, args.weights_shape[1] as int);
}

proof fn lemma_magnitude(args: FullyConnectedArgs, channel: int, k: int, n: int)
    requires
        0 <= k <= n,
    ensures
        quantize::abs(args.dot(channel, k)) <= args.magnitude(channel, k) <= args.magnitude(
            channel,
            n,
        ),
    decreases n,
{
    if k < n {
        lemma_magnitude(args, channel, k, n - 1);
    } else if n > 0 {
        lemma_magnitude(args, channel, k - 1, n - 1);
    }
}

/// No product and no partial sum leaves 32 bits where the magnitudes of the bias and
/// the products add up to less.
pub proof fn lemma_magnitudes_fit(args: FullyConnectedArgs, channel: int, n: int)
    requires
        quantize::abs(shape::bias_at(args.bias, channel)) + args.magnitude(channel, n) <= i32::MAX,
    ensures
        args.sums_fit(channel, n),
{
    assert forall|k: int|
        #![trigger args.weight_at(channel, k)]
        0 <= k < n implies quantize::fits_i32(args.input_at(k) * args.weight_at(channel, k))
        && quantize::fits_i32(shape::bias_at(args.bias, channel) + args.dot(channel, k + 1)) by {
        lemma_magnitude(args, channel, k + 1, n);
        lemma_magnitude(args, channel, k, k);
    }
}

} // verus!
