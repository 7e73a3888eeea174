//! Running one layer on a backend.
use crate::backend::{Buffers, KernelBackend, Operation};
use crate::layer::{Layer, Source, Target};
use crate::params::{
    Conv2dArgs, Conv2dParams, DepthwiseConv2dArgs, DepthwiseConv2dParams, ElementwiseAddArgs,
    ElementwiseAddParams, FullyConnectedArgs, FullyConnectedParams, PoolArgs, PoolParams,
    SoftmaxArgs, SoftmaxParams,
};
use crate::pool::PoolKind;
use crate::types::{KernelError, Status};
use vstd::prelude::*;

verus! {

/// The elements of an optional list.
pub open spec fn list_view(list: Option<Vec<i32>>) -> Option<Seq<i32>> {
    match list {
        Some(v) => Some(v@),
        None => None,
    }
}

/// A fresh tensor.
pub open spec fn zeros(len: usize) -> Seq<i8> {
    Seq::new(len as nat, |i: int| 0i8)
}

impl Layer {
    /// Where the first input is read.
    pub open spec fn source(self) -> Source {
        match self {
            Layer::Conv2d(l) => l.input,
            Layer::DepthwiseConv2d(l) => l.input,
            Layer::FullyConnected(l) => l.input,
            Layer::Pool(l) => l.input,
            Layer::Softmax(l) => l.input,
            Layer::Add(l) => l.input1,
            Layer::Reshape(l) => l.input,
        }
    }

    /// Where the second input is read, if there is one.
    pub open spec fn second_source(self) -> Option<Source> {
        match self {
            Layer::Add(l) => Some(l.input2),
            _ => None,
        }
    }

    /// Where the output is written.
    pub open spec fn target(self) -> Target {
        match self {
            Layer::Conv2d(l) => l.output,
            Layer::DepthwiseConv2d(l) => l.output,
            Layer::FullyConnected(l) => l.output,
            Layer::Pool(l) => l.output,
            Layer::Softmax(l) => l.output,
            Layer::Add(l) => l.output,
            Layer::Reshape(l) => l.output,
        }
    }

    /// The layer writes the tensor of this number.
    pub open spec fn writes(self, tensor_id: usize) -> bool {
        match self.target() {
            Target::Output => false,
            Target::Tensor { id, .. } => id == tensor_id,
        }
    }

    /// The layer is handed the scratch buffer.
    pub open spec fn takes_scratch(self) -> bool {
        self is Conv2d || self is DepthwiseConv2d || self is Softmax
    }

    /// The operator that the layer invokes on the given inputs; none for a copy.
    pub open spec fn operation(
        self,
        first: Seq<i8>,
        second: Seq<i8>,
        output_len: nat,
        scratch_len: nat,
    ) -> Option<Operation> {
        match self {
            Layer::Conv2d(l) => Some(
                Operation::Conv2d(
                    Conv2dArgs {
                        input: first,
                        input_shape: l.input_shape,
                        input_quant: l.input_quant,
                        weights: l.weights@,
                        weights_shape: l.weights_shape,
                        weights_quant: l.weights_quant,
                        channel_scales: None,
                        bias: list_view(l.bias),
                        output_len,
                        output_shape: l.output_shape,
                        output_quant: l.output_quant,
                        stride_w: l.stride_w,
                        stride_h: l.stride_h,
                        dilation_w_factor: l.dilation_w_factor,
                        dilation_h_factor: l.dilation_h_factor,
                        padding: l.padding,
                        activation: l.activation,
                        scratch_len,
                    },
                ),
            ),
            Layer::DepthwiseConv2d(l) => Some(
                Operation::DepthwiseConv2d(
                    DepthwiseConv2dArgs {
                        input: first,
                        input_shape: l.input_shape,
                        input_quant: l.input_quant,
                        weights: l.weights@,
                        weights_shape: l.weights_shape,
                        weights_quant: l.weights_quant,
                        channel_scales: None,
                        bias: list_view(l.bias),
                        output_len,
                        output_shape: l.output_shape,
                        output_quant: l.output_quant,
                        stride_w: l.stride_w,
                        stride_h: l.stride_h,
                        dilation_w_factor: l.dilation_w_factor,
                        dilation_h_factor: l.dilation_h_factor,
                        depth_multiplier: l.depth_multiplier,
                        padding: l.padding,
                        activation: l.activation,
                        scratch_len,
                    },
                ),
            ),
            Layer::FullyConnected(l) => Some(
                Operation::FullyConnected(
                    FullyConnectedArgs {
                        input: first,
                        input_quant: l.input_quant,
                        weights: l.weights@,
                        weights_shape: l.weights_shape,
                        weights_quant: l.weights_quant,
                        channel_scales: None,
                        bias: list_view(l.bias),
                        output_len,
                        output_depth: l.output_depth,
                        output_quant: l.output_quant,
                        activation: l.activation,
                    },
                ),
            ),
            Layer::Pool(l) => Some(
                Operation::Pool(
                    l.kind,
                    PoolArgs {
                        input: first,
                        input_shape: l.input_shape,
                        input_quant: l.input_quant,
                        output_len,
                        output_shape: l.output_shape,
                        output_quant: l.output_quant,
                        stride_w: l.stride_w,
                        stride_h: l.stride_h,
                        filter_w: l.filter_w,
                        filter_h: l.filter_h,
                        padding: l.padding,
                        activation: l.activation,
                    },
                ),
            ),
            Layer::Softmax(l) => Some(
                Operation::Softmax(
                    SoftmaxArgs {
                        input: first,
                        input_shape: l.input_shape,
                        input_quant: l.input_quant,
                        output_len,
                        output_quant: l.output_quant,
                        beta: l.beta,
                        exponentials: l.exponentials@,
                        scratch_len,
                    },
                ),
            ),
            Layer::Add(l) => Some(
                Operation::Add(
                    ElementwiseAddArgs {
                        input1: first,
                        input1_quant: l.input1_quant,
                        input2: second,
                        input2_quant: l.input2_quant,
                        output_len,
                        output_quant: l.output_quant,
                        activation: l.activation,
                    },
                ),
            ),
            Layer::Reshape(_) => None,
        }
    }

    /// The buffers that the layer hands to its operator.
    pub open spec fn buffers(self, output: Seq<i8>, scratch: Seq<u8>) -> Buffers {
        Buffers {
            output,
            scratch: if self.takes_scratch() {
                scratch
            } else {
                Seq::empty()
            },
        }
    }

    /// The backend can run the layer on these inputs and buffers.
    pub open spec fn invocable<B: KernelBackend>(
        self,
        first: Seq<i8>,
        second: Seq<i8>,
        backend: B,
        output: Seq<i8>,
        scratch: Seq<u8>,
    ) -> bool {
        match self.operation(first, second, output.len(), scratch.len()) {
            Some(operation) => backend.accepts(operation, self.buffers(output, scratch)),
            None => first.len() == output.len(),
        }
    }

    /// The layer, run on these inputs and buffers, may return `status` and leave
    /// the given backend and buffers: what its operator does, or a copy.
    pub open spec fn invoked<B: KernelBackend>(
        self,
        first: Seq<i8>,
        second: Seq<i8>,
        before: B,
        output: Seq<i8>,
        scratch: Seq<u8>,
        after: B,
        output_after: Seq<i8>,
        scratch_after: Seq<u8>,
        status: Status,
    ) -> bool {
        &&& !self.takes_scratch() ==> scratch_after == scratch
        &&& match self.operation(first, second, output.len(), scratch.len()) {
            Some(operation) => B::performs(
                before,
                operation,
                self.buffers(output, scratch),
                after,
                self.buffers(output_after, scratch_after),
                status,
            ),
            None => {
                &&& output_after == first
                &&& after == before
                &&& status == Ok::<(), KernelError>(())
            },
        }
    }

    /// Runs the layer on these inputs and buffers.
    pub(crate) fn invoke<B: KernelBackend>(
        &self,
        backend: &mut B,
        first: &[i8],
        second: &[i8],
        output: &mut [i8],
        scratch: &mut [u8],
    ) -> (r: Status)
        requires
            self.invocable(first@, second@, *old(backend), old(output)@, old(scratch)@),
        ensures
            self.invoked(
                first@,
                second@,
                *old(backend),
                old(output)@,
                old(scratch)@,
                *final(backend),
                final(output)@,
                final(scratch)@,
                r,
            ),
    {
        match self {
            Layer::Conv2d(l) => {
                let bias: Option<&[i32]> = match &l.bias {
                    Some(v) => Some(v.as_slice()),
                    None => None,
                };
                backend.conv2d(
                    Conv2dParams {
                        input: first,
                        input_shape: l.input_shape,
                        input_quant: l.input_quant,
                        weights: l.weights.as_slice(),
                        weights_shape: l.weights_shape,
                        weights_quant: l.weights_quant,
                        weights_per_channel_quant: None,
                        bias,
                        output,
                        output_shape: l.output_shape,
                        output_quant: l.output_quant,
                        stride_w: l.stride_w,
                        stride_h: l.stride_h,
                        dilation_w_factor: l.dilation_w_factor,
                        dilation_h_factor: l.dilation_h_factor,
                        padding: l.padding,
                        activation: l.activation,
                        scratch,
                    },
                )
            },
            Layer::DepthwiseConv2d(l) => {
                let bias: Option<&[i32]> = match &l.bias {
                    Some(v) => Some(v.as_slice()),
                    None => None,
                };
                backend.depthwise_conv2d(
                    DepthwiseConv2dParams {
                        input: first,
                        input_shape: l.input_shape,
                        input_quant: l.input_quant,
                        weights: l.weights.as_slice(),
                        weights_shape: l.weights_shape,
                        weights_quant: l.weights_quant,
                        weights_per_channel_quant: None,
                        bias,
                        output,
                        output_shape: l.output_shape,
                        output_quant: l.output_quant,
                        stride_w: l.stride_w,
                        stride_h: l.stride_h,
                        dilation_w_factor: l.dilation_w_factor,
                        dilation_h_factor: l.dilation_h_factor,
                        depth_multiplier: l.depth_multiplier,
                        padding: l.padding,
                        activation: l.activation,
                        scratch,
                    },
                )
            },
            Layer::FullyConnected(l) => {
                let bias: Option<&[i32]> = match &l.bias {
                    Some(v) => Some(v.as_slice()),
                    None => None,
                };
                backend.fully_connected(
                    FullyConnectedParams {
                        input: first,
                        input_quant: l.input_quant,
                        weights: l.weights.as_slice(),
                        weights_shape: l.weights_shape,
                        weights_quant: l.weights_quant,
                        weights_per_channel_quant: None,
                        bias,
                        output,
                        output_depth: l.output_depth,
                        output_quant: l.output_quant,
                        activation: l.activation,
                    },
                )
            },
            Layer::Pool(l) => {
                let params = PoolParams {
                    input: first,
                    input_shape: l.input_shape,
                    input_quant: l.input_quant,
                    output,
                    output_shape: l.output_shape,
                    output_quant: l.output_quant,
                    stride_w: l.stride_w,
                    stride_h: l.stride_h,
                    filter_w: l.filter_w,
                    filter_h: l.filter_h,
                    padding: l.padding,
                    activation: l.activation,
                };
                match l.kind {
                    PoolKind::Average => backend.avg_pool(params),
                    PoolKind::Max => backend.max_pool(params),
                }
            },
            Layer::Softmax(l) => backend.softmax(
                SoftmaxParams {
                    input: first,
                    input_shape: l.input_shape,
                    input_quant: l.input_quant,
                    output,
                    output_quant: l.output_quant,
                    beta: l.beta,
                    exponentials: l.exponentials.as_slice(),
                    scratch,
                },
            ),
            Layer::Add(l) => backend.add(
                ElementwiseAddParams {
                    input1: first,
                    input1_quant: l.input1_quant,
                    input2: second,
                    input2_quant: l.input2_quant,
                    output,
                    output_quant: l.output_quant,
                    activation: l.activation,
                },
            ),
            Layer::Reshape(_) => {
                let mut i: usize = 0;
                let ghost given = output;
                while i < first.len()
                    invariant
                        i <= first@.len() == output@.len(),
                        forall|k: int| 0 <= k < i ==> output@[k] == #[trigger] first@[k],
                        final(output)@ == final(given)@,
                    decreases first@.len() - i,
                {
                    output[i] = first[i];
                    i = i + 1;
                }
                assert(output@ =~= first@);
                Ok(())
            },
        }
    }
}

} // verus!
