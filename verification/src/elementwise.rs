//! Element-wise addition and multiplication.
use crate::params::{ElementwiseAddArgs, ElementwiseAddParams, MulArgs, MulParams};
use crate::quantize;
use crate::single;
use crate::single::{Real, Single};
use crate::types::{FusedActivation, KernelError, QuantParam, Status};
use vstd::prelude::*;

verus! {

/// The real number that a quantized value stands for.
pub open spec fn dequantized(value: i8, quant: QuantParam) -> Real {
    Real::from_int(value - quant.zero_point).times(quant.real_scale())
}

/// The quantized value of a real number, before the activation.
pub open spec fn requantized_real(value: Real, quant: QuantParam) -> int {
    value.over(quant.real_scale()).rounded() + quant.zero_point
}

/// The quantized value is computed and the activation applied without overflow.
pub open spec fn result_defined(
    value: Real,
    activation: FusedActivation,
    quant: QuantParam,
) -> bool {
    &&& quantize::fits_i32(requantized_real(value, quant))
    &&& quantize::activation_defined(activation, quant)
}

/// The quantized value of a real number, after the activation.
pub open spec fn result(value: Real, activation: FusedActivation, quant: QuantParam) -> int {
    quantize::activated(requantized_real(value, quant), activation, quant)
}

fn dequantize(value: i8, quant: QuantParam) -> (r: Single)
    requires
        quantize::fits_i32(value - quant.zero_point),
    ensures
        r.wf(),
        r@ == dequantized(value, quant),
{
    Single::from_i32(value as i32 - quant.zero_point).times(Single::from_bits(quant.scale))
}

fn quantize_result(value: Single, activation: FusedActivation, quant: QuantParam) -> (r: i8)
    requires
        value.wf(),
        result_defined(value@, activation, quant),
    ensures
        r == result(value@, activation, quant),
{
    let scaled = value.over(Single::from_bits(quant.scale));
    let quantized: i32 = quantize::round_f32_to_i32(scaled) + quant.zero_point;
    quantize::apply_activation(quantized, activation, quant)
}

impl ElementwiseAddArgs {
    /// The three tensors have the same number of elements.
    pub open spec fn valid(self) -> bool {
        self.input1.len() == self.input2.len() == self.output_len
    }

    /// The sum of two elements, as a real number.
    pub open spec fn sum(self, i: int) -> Real {
        dequantized(self.input1[i], self.input1_quant).plus(
            dequantized(self.input2[i], self.input2_quant),
        )
    }

    /// One element of the output.
    pub open spec fn element(self, i: int) -> int {
        result(self.sum(i), self.activation, self.output_quant)
    }

    /// One output element is computed without overflow.
    pub open spec fn element_defined(self, i: int) -> bool {
        &&& quantize::fits_i32(self.input1[i] - self.input1_quant.zero_point)
        &&& quantize::fits_i32(self.input2[i] - self.input2_quant.zero_point)
        &&& result_defined(self.sum(i), self.activation, self.output_quant)
    }

    /// No step that the operator takes overflows.
    pub open spec fn defined(self) -> bool {
        self.valid() ==> forall|i: int|
            0 <= i < self.output_len ==> #[trigger] self.element_defined(i)
    }

    /// Success, or the error that is returned.
    pub open spec fn status(self) -> Status {
        if self.valid() {
            Ok(())
        } else {
            Err(KernelError::InvalidShape)
        }
    }

    /// The output buffer after the operator, given its contents before.
    pub open spec fn output(self, before: Seq<i8>) -> Seq<i8> {
        if self.valid() {
            Seq::new(self.output_len, |i: int| self.element(i) as i8)
        } else {
            before
        }
    }
}

/// Executes element-wise addition.
pub fn add(params: ElementwiseAddParams<'_>) -> (r: Status)
    requires
        params@.defined(),
    ensures
        r == params@.status(),
        final(params.output)@ == params@.output(old(params.output)@),
{
    let ghost args = params@;
    let ghost given = params;
    if params.input1.len() != params.input2.len() || params.output.len() != params.input1.len() {
        return Err(KernelError::InvalidShape);
    }
    let len: usize = params.output.len();
    let mut index: usize = 0;
    while index < len
        invariant
            params@ == args,
            args.valid(),
            args.defined(),
            index <= len == args.output_len,
            forall|i: int|
                0 <= i < index ==> params.output@[i] == #[trigger] args.output(
                    given.output@,
                )[i],
            final(params.output)@ == final(given.output)@,
        decreases len - index,
    {
        assert(args.element_defined(index as int));
        let lhs = dequantize(params.input1[index], params.input1_quant);
        let rhs = dequantize(params.input2[index], params.input2_quant);
        params.output[index] = quantize_result(
            lhs.plus(rhs),
            params.activation,
            params.output_quant,
        );
        index = index + 1;
    }
    assert(params.output@ =~= args.output(given.output@));
    Ok(())
}

impl MulArgs {
    /// The first operand is at least as long as the second.
    pub open spec fn first_is_dense(self) -> bool {
        self.input1.len() >= self.input2.len()
    }

    /// The longer operand.
    pub open spec fn dense(self) -> Seq<i8> {
        if self.first_is_dense() {
            self.input1
        } else {
            self.input2
        }
    }

    /// Quantization parameters of the longer operand.
    pub open spec fn dense_quant(self) -> QuantParam {
        if self.first_is_dense() {
            self.input1_quant
        } else {
            self.input2_quant
        }
    }

    /// The shorter operand, which is repeated.
    pub open spec fn per_channel(self) -> Seq<i8> {
        if self.first_is_dense() {
            self.input2
        } else {
            self.input1
        }
    }

    /// Quantization parameters of the shorter operand.
    pub open spec fn per_channel_quant(self) -> QuantParam {
        if self.first_is_dense() {
            self.input2_quant
        } else {
            self.input1_quant
        }
    }

    /// The shorter operand fits a whole number of times into the longer one, which
    /// is as long as the output.
    pub open spec fn valid(self) -> bool {
        &&& self.per_channel().len() > 0
        &&& self.dense().len() % self.per_channel().len() == 0
        &&& self.output_len == self.dense().len()
    }

    /// The element of the shorter operand that meets element `i` of the longer one.
    pub open spec fn per_channel_at(self, i: int) -> i8 {
        self.per_channel()[i % self.per_channel().len() as int]
    }

    /// The product of two elements, as a real number.
    pub open spec fn product(self, i: int) -> Real {
        dequantized(self.dense()[i], self.dense_quant()).times(
            dequantized(self.per_channel_at(i), self.per_channel_quant()),
        )
    }

    /// One element of the output.
    pub open spec fn element(self, i: int) -> int {
        result(self.product(i), self.activation, self.output_quant)
    }

    /// One output element is computed without overflow.
    pub open spec fn element_defined(self, i: int) -> bool {
        &&& quantize::fits_i32(self.dense()[i] - self.dense_quant().zero_point)
        &&& quantize::fits_i32(self.per_channel_at(i) - self.per_channel_quant().zero_point)
        &&& result_defined(self.product(i), self.activation, self.output_quant)
    }

    /// No step that the operator takes overflows.
    pub open spec fn defined(self) -> bool {
        self.valid() ==> forall|i: int|
            0 <= i < self.output_len ==> #[trigger] self.element_defined(i)
    }

    /// Success, or the error that is returned.
    pub open spec fn status(self) -> Status {
        if self.valid() {
            Ok(())
        } else {
            Err(KernelError::InvalidShape)
        }
    }

    /// The output buffer after the operator, given its contents before.
    pub open spec fn output(self, before: Seq<i8>) -> Seq<i8> {
        if self.valid() {
            Seq::new(self.output_len, |i: int| self.element(i) as i8)
        } else {
            before
        }
    }
}

/// Executes element-wise multiplication.
///
/// Where the lengths differ, the shorter operand is repeated along the trailing
/// (channel) dimension. Multiplication commutes, so the longer operand is taken as
/// the dense one.
pub fn mul(params: MulParams<'_>) -> (r: Status)
    requires
        params@.defined(),
    ensures
        r == params@.status(),
        final(params.output)@ == params@.output(old(params.output)@),
{
    let ghost args = params@;
    let ghost given = params;
    let (dense, dense_quant, per_channel, per_channel_quant) = if params.input1.len()
        >= params.input2.len() {
        (params.input1, params.input1_quant, params.input2, params.input2_quant)
    } else {
        (params.input2, params.input2_quant, params.input1, params.input1_quant)
    };
    let channels: usize = per_channel.len();
    if channels == 0 || dense.len() % channels != 0 || params.output.len() != dense.len() {
        return Err(KernelError::InvalidShape);
    }
    let len: usize = params.output.len();
    let mut index: usize = 0;
    while index < len
        invariant
            params@ == args,
            args.valid(),
            args.defined(),
            dense@ == args.dense(),
            dense_quant == args.dense_quant(),
            per_channel@ == args.per_channel(),
            per_channel_quant == args.per_channel_quant(),
            channels == per_channel@.len(),
            index <= len == args.output_len,
            forall|i: int|
                0 <= i < index ==> params.output@[i] == #[trigger] args.output(
                    given.output@,
                )[i],
            final(params.output)@ == final(given.output)@,
        decreases len - index,
    {
        assert(args.element_defined(index as int));
        let lhs = dequantize(dense[index], dense_quant);
        let rhs = dequantize(per_channel[index % channels], per_channel_quant);
        params.output[index] = quantize_result(
            lhs.times(rhs),
            params.activation,
            params.output_quant,
        );
        index = index + 1;
    }
    assert(params.output@ =~= args.output(given.output@));
    Ok(())
}

impl ElementwiseAddArgs {
    /// The operands, the other way round.
    pub open spec fn swapped(self) -> ElementwiseAddArgs {
        ElementwiseAddArgs {
            input1: self.input2,
            input1_quant: self.input2_quant,
            input2: self.input1,
            input2_quant: self.input1_quant,
            ..self
        }
    }
}

/// Addition commutes: the order of the operands changes neither the status nor
/// the output, nor whether a step overflows.
pub proof fn lemma_add_commutes(args: ElementwiseAddArgs, before: Seq<i8>)
    ensures
        args.swapped().defined() == args.defined(),
        args.swapped().status() == args.status(),
        args.swapped().output(before) == args.output(before),
{
    let other = args.swapped();
    assert forall|i: int| #[trigger] other.sum(i) == args.sum(i) by {
        single::lemma_plus_commutes(
            dequantized(args.input1[i], args.input1_quant),
            dequantized(args.input2[i], args.input2_quant),
        );
    }
    assert forall|i: int| #[trigger] other.element_defined(i) == args.element_defined(i) by {
        assert(other.sum(i) == args.sum(i));
    }
    if args.valid() {
        assert forall|i: int| 0 <= i < args.output_len implies args.output(before)[i]
            == #[trigger] other.output(before)[i] by {
            assert(other.sum(i) == args.sum(i));
        }
        assert(other.output(before) =~= args.output(before));
    }
    if args.defined() {
        assert forall|i: int| other.valid() && 0 <= i < other.output_len implies
            #[trigger] other.element_defined(i) by {
            assert(args.element_defined(i));
        }
    }
    if other.defined() {
        assert forall|i: int| args.valid() && 0 <= i < args.output_len implies
            #[trigger] args.element_defined(i) by {
            assert(other.element_defined(i));
        }
    }
}

impl MulArgs {
    /// The operands, the other way round.
    pub open spec fn swapped(self) -> MulArgs {
        MulArgs {
            input1: self.input2,
            input1_quant: self.input2_quant,
            input2: self.input1,
            input2_quant: self.input1_quant,
            ..self
        }
    }
}

/// Multiplication commutes, also where one operand is repeated: the order of the
/// operands changes neither the status nor the output, nor whether a step overflows.
pub proof fn lemma_mul_commutes(args: MulArgs, before: Seq<i8>)
    ensures
        args.swapped().defined() == args.defined(),
        args.swapped().status() == args.status(),
        args.swapped().output(before) == args.output(before),
{
    let other = args.swapped();
    if args.valid() {
        assert forall|i: int| 0 <= i < args.output_len implies #[trigger] other.element_defined(i)
            == args.element_defined(i) && other.product(i) == args.product(i) by {
            if args.input1.len() == args.input2.len() {
                let len = args.input1.len();
                vstd::arithmetic::div_mod::lemma_small_mod(i as nat, len);
                single::lemma_times_commutes(
                    dequantized(args.input1[i], args.input1_quant),
                    dequantized(args.input2[i], args.input2_quant),
                );
            }
        }
        assert forall|i: int| 0 <= i < args.output_len implies args.output(before)[i]
            == #[trigger] other.output(before)[i] by {
            assert(other.element_defined(i) == args.element_defined(i));
        }
        assert(other.output(before) =~= args.output(before));
        assert(args.defined() ==> other.defined()) by {
            if args.defined() {
                assert forall|i: int| 0 <= i < other.output_len implies
                    #[trigger] other.element_defined(i) by {
                    assert(args.element_defined(i));
                }
            }
        }
        assert(other.defined() ==> args.defined()) by {
            if other.defined() {
                assert forall|i: int| 0 <= i < args.output_len implies
                    #[trigger] args.element_defined(i) by {
                    assert(other.element_defined(i));
                }
            }
        }
    }
}

} // verus!
