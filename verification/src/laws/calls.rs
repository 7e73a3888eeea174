//! What a call of an operator hands to the backend: its parameters, field by field.
use crate::backend::{Buffers, KernelBackend, Operation};
use crate::params::{
    Conv2dArgs, Conv2dParams, DepthwiseConv2dArgs, DepthwiseConv2dParams, ElementwiseAddArgs,
    ElementwiseAddParams, FullyConnectedArgs, FullyConnectedParams, MulArgs, MulParams, PoolArgs,
    PoolParams, SoftmaxArgs, SoftmaxParams,
};
use crate::pool::PoolKind;
use crate::reference::RefBackend;
use crate::stub;
use crate::types::{KernelError, PerChannelQuantParam, Status};
use vstd::prelude::*;

verus! {

/// The elements of an optional bias.
pub open spec fn bias_of(bias: Option<&[i32]>) -> Option<Seq<i32>> {
    match bias {
        Some(list) => Some(list@),
        None => None,
    }
}

/// The scales of optional per-channel parameters.
pub open spec fn scales_of(quant: Option<PerChannelQuantParam<'_>>) -> Option<Seq<u32>> {
    match quant {
        Some(q) => Some(q.scales@),
        None => None,
    }
}

/// The arguments are the parameters of a convolution.
pub open spec fn of_conv2d(params: Conv2dParams<'_>, a: Conv2dArgs) -> bool {
    &&& a.input == params.input@
    &&& a.input_shape == params.input_shape
    &&& a.input_quant == params.input_quant
    &&& a.weights == params.weights@
    &&& a.weights_shape == params.weights_shape
    &&& a.weights_quant == params.weights_quant
    &&& a.channel_scales == scales_of(params.weights_per_channel_quant)
    &&& a.bias == bias_of(params.bias)
    &&& a.output_len == params.output@.len()
    &&& a.output_shape == params.output_shape
    &&& a.output_quant == params.output_quant
    &&& a.stride_w == params.stride_w
    &&& a.stride_h == params.stride_h
    &&& a.dilation_w_factor == params.dilation_w_factor
    &&& a.dilation_h_factor == params.dilation_h_factor
    &&& a.padding == params.padding
    &&& a.activation == params.activation
    &&& a.scratch_len == params.scratch@.len()
}

/// The arguments are the parameters of a depthwise convolution.
pub open spec fn of_depthwise_conv2d(
    params: DepthwiseConv2dParams<'_>,
    a: DepthwiseConv2dArgs,
) -> bool {
    &&& a.input == params.input@
    &&& a.input_shape == params.input_shape
    &&& a.input_quant == params.input_quant
    &&& a.weights == params.weights@
    &&& a.weights_shape == params.weights_shape
    &&& a.weights_quant == params.weights_quant
    &&& a.channel_scales == scales_of(params.weights_per_channel_quant)
    &&& a.bias == bias_of(params.bias)
    &&& a.output_len == params.output@.len()
    &&& a.output_shape == params.output_shape
    &&& a.output_quant == params.output_quant
    &&& a.stride_w == params.stride_w
    &&& a.stride_h == params.stride_h
    &&& a.dilation_w_factor == params.dilation_w_factor
    &&& a.dilation_h_factor == params.dilation_h_factor
    &&& a.depth_multiplier == params.depth_multiplier
    &&& a.padding == params.padding
    &&& a.activation == params.activation
    &&& a.scratch_len == params.scratch@.len()
}

/// The arguments are the parameters of a fully-connected layer.
pub open spec fn of_fully_connected(
    params: FullyConnectedParams<'_>,
    a: FullyConnectedArgs,
) -> bool {
    &&& a.input == params.input@
    &&& a.input_quant == params.input_quant
    &&& a.weights == params.weights@
    &&& a.weights_shape == params.weights_shape
    &&& a.weights_quant == params.weights_quant
    &&& a.channel_scales == scales_of(params.weights_per_channel_quant)
    &&& a.bias == bias_of(params.bias)
    &&& a.output_len == params.output@.len()
    &&& a.output_depth == params.output_depth
    &&& a.output_quant == params.output_quant
    &&& a.activation == params.activation
}

/// The arguments are the parameters of pooling.
pub open spec fn of_pool(params: PoolParams<'_>, a: PoolArgs) -> bool {
    &&& a.input == params.input@
    &&& a.input_shape == params.input_shape
    &&& a.input_quant == params.input_quant
    &&& a.output_len == params.output@.len()
    &&& a.output_shape == params.output_shape
    &&& a.output_quant == params.output_quant
    &&& a.stride_w == params.stride_w
    &&& a.stride_h == params.stride_h
    &&& a.filter_w == params.filter_w
    &&& a.filter_h == params.filter_h
    &&& a.padding == params.padding
    &&& a.activation == params.activation
}

/// The arguments are the parameters of softmax.
pub open spec fn of_softmax(params: SoftmaxParams<'_>, a: SoftmaxArgs) -> bool {
    &&& a.input == params.input@
    &&& a.input_shape == params.input_shape
    &&& a.input_quant == params.input_quant
    &&& a.output_len == params.output@.len()
    &&& a.output_quant == params.output_quant
    &&& a.beta == params.beta
    &&& a.exponentials == params.exponentials@
    &&& a.scratch_len == params.scratch@.len()
}

/// The arguments are the parameters of an addition.
pub open spec fn of_add(params: ElementwiseAddParams<'_>, a: ElementwiseAddArgs) -> bool {
    &&& a.input1 == params.input1@
    &&& a.input1_quant == params.input1_quant
    &&& a.input2 == params.input2@
    &&& a.input2_quant == params.input2_quant
    &&& a.output_len == params.output@.len()
    &&& a.output_quant == params.output_quant
    &&& a.activation == params.activation
}

/// The arguments are the parameters of a multiplication.
pub open spec fn of_mul(params: MulParams<'_>, a: MulArgs) -> bool {
    &&& a.input1 == params.input1@
    &&& a.input1_quant == params.input1_quant
    &&& a.input2 == params.input2@
    &&& a.input2_quant == params.input2_quant
    &&& a.output_len == params.output@.len()
    &&& a.output_quant == params.output_quant
    &&& a.activation == params.activation
}

/// A convolution is performed on the parameters of the call.
pub proof fn law_conv2d_params<'a, B: KernelBackend>(
    backend: &mut B,
    params: Conv2dParams<'a>,
    r: Status,
) -> (a: Conv2dArgs)
    requires
        call_ensures(B::conv2d, (backend, params), r),
    ensures
        B::performs(
            *old(backend),
            Operation::Conv2d(a),
            (Buffers { output: old(params.output)@, scratch: old(params.scratch)@ }),
            *final(backend),
            (Buffers { output: final(params.output)@, scratch: final(params.scratch)@ }),
            r,
        ),
        of_conv2d(params, a),
{
    params@
}

/// A depthwise convolution is performed on the parameters of the call.
pub proof fn law_depthwise_conv2d_params<'a, B: KernelBackend>(
    backend: &mut B,
    params: DepthwiseConv2dParams<'a>,
    r: Status,
) -> (a: DepthwiseConv2dArgs)
    requires
        call_ensures(B::depthwise_conv2d, (backend, params), r),
    ensures
        B::performs(
            *old(backend),
            Operation::DepthwiseConv2d(a),
            (Buffers { output: old(params.output)@, scratch: old(params.scratch)@ }),
            *final(backend),
            (Buffers { output: final(params.output)@, scratch: final(params.scratch)@ }),
            r,
        ),
        of_depthwise_conv2d(params, a),
{
    params@
}

/// A fully-connected layer is performed on the parameters of the call.
pub proof fn law_fully_connected_params<'a, B: KernelBackend>(
    backend: &mut B,
    params: FullyConnectedParams<'a>,
    r: Status,
) -> (a: FullyConnectedArgs)
    requires
        call_ensures(B::fully_connected, (backend, params), r),
    ensures
        B::performs(
            *old(backend),
            Operation::FullyConnected(a),
            (Buffers { output: old(params.output)@, scratch: Seq::empty() }),
            *final(backend),
            (Buffers { output: final(params.output)@, scratch: Seq::empty() }),
            r,
        ),
        of_fully_connected(params, a),
{
    params@
}

/// Average pooling is performed on the parameters of the call.
pub proof fn law_avg_pool_params<'a, B: KernelBackend>(
    backend: &mut B,
    params: PoolParams<'a>,
    r: Status,
) -> (a: PoolArgs)
    requires
        call_ensures(B::avg_pool, (backend, params), r),
    ensures
        B::performs(
            *old(backend),
            Operation::Pool(PoolKind::Average, a),
            (Buffers { output: old(params.output)@, scratch: Seq::empty() }),
            *final(backend),
            (Buffers { output: final(params.output)@, scratch: Seq::empty() }),
            r,
        ),
        of_pool(params, a),
{
    params@
}

/// Max pooling is performed on the parameters of the call.
pub proof fn law_max_pool_params<'a, B: KernelBackend>(
    backend: &mut B,
    params: PoolParams<'a>,
    r: Status,
) -> (a: PoolArgs)
    requires
        call_ensures(B::max_pool, (backend, params), r),
    ensures
        B::performs(
            *old(backend),
            Operation::Pool(PoolKind::Max, a),
            (Buffers { output: old(params.output)@, scratch: Seq::empty() }),
            *final(backend),
            (Buffers { output: final(params.output)@, scratch: Seq::empty() }),
            r,
        ),
        of_pool(params, a),
{
    params@
}

/// Softmax is performed on the parameters of the call.
pub proof fn law_softmax_params<'a, B: KernelBackend>(
    backend: &mut B,
    params: SoftmaxParams<'a>,
    r: Status,
) -> (a: SoftmaxArgs)
    requires
        call_ensures(B::softmax, (backend, params), r),
    ensures
        B::performs(
            *old(backend),
            Operation::Softmax(a),
            (Buffers { output: old(params.output)@, scratch: old(params.scratch)@ }),
            *final(backend),
            (Buffers { output: final(params.output)@, scratch: final(params.scratch)@ }),
            r,
        ),
        of_softmax(params, a),
{
    params@
}

/// Addition is performed on the parameters of the call.
pub proof fn law_add_params<'a, B: KernelBackend>(
    backend: &mut B,
    params: ElementwiseAddParams<'a>,
    r: Status,
) -> (a: ElementwiseAddArgs)
    requires
        call_ensures(B::add, (backend, params), r),
    ensures
        B::performs(
            *old(backend),
            Operation::Add(a),
            (Buffers { output: old(params.output)@, scratch: Seq::empty() }),
            *final(backend),
            (Buffers { output: final(params.output)@, scratch: Seq::empty() }),
            r,
        ),
        of_add(params, a),
{
    params@
}

/// Multiplication is performed on the parameters of the call.
pub proof fn law_mul_params<'a>(
    backend: &mut RefBackend,
    params: MulParams<'a>,
    r: Status,
) -> (a: MulArgs)
    requires
        call_ensures(RefBackend::mul, (backend, params), r),
    ensures
        r == a.status(),
        final(params.output)@ == a.output(old(params.output)@),
        of_mul(params, a),
{
    params@
}

/// The placeholder backend does not perform `conv2d`: it writes nothing and returns an
/// internal error.
pub proof fn law_stub_conv2d<'a>(
    backend: &mut stub::RefBackend,
    params: Conv2dParams<'a>,
    r: Status,
)
    requires
        call_ensures(<stub::RefBackend as KernelBackend>::conv2d, (backend, params), r),
    ensures
        r == Err::<(), KernelError>(KernelError::InternalError),
        final(params.output)@ == old(params.output)@,
        final(params.scratch)@ == old(params.scratch)@,
{
    law_conv2d_params::<stub::RefBackend>(backend, params, r);
}

/// The placeholder backend does not perform `depthwise_conv2d`: it writes nothing and returns an
/// internal error.
pub proof fn law_stub_depthwise_conv2d<'a>(
    backend: &mut stub::RefBackend,
    params: DepthwiseConv2dParams<'a>,
    r: Status,
)
    requires
        call_ensures(<stub::RefBackend as KernelBackend>::depthwise_conv2d, (backend, params), r),
    ensures
        r == Err::<(), KernelError>(KernelError::InternalError),
        final(params.output)@ == old(params.output)@,
        final(params.scratch)@ == old(params.scratch)@,
{
    law_depthwise_conv2d_params::<stub::RefBackend>(backend, params, r);
}

/// The placeholder backend does not perform `fully_connected`: it writes nothing and returns an
/// internal error.
pub proof fn law_stub_fully_connected<'a>(
    backend: &mut stub::RefBackend,
    params: FullyConnectedParams<'a>,
    r: Status,
)
    requires
        call_ensures(<stub::RefBackend as KernelBackend>::fully_connected, (backend, params), r),
    ensures
        r == Err::<(), KernelError>(KernelError::InternalError),
        final(params.output)@ == old(params.output)@,
{
    law_fully_connected_params::<stub::RefBackend>(backend, params, r);
}

/// The placeholder backend does not perform `avg_pool`: it writes nothing and returns an
/// internal error.
pub proof fn law_stub_avg_pool<'a>(
    backend: &mut stub::RefBackend,
    params: PoolParams<'a>,
    r: Status,
)
    requires
        call_ensures(<stub::RefBackend as KernelBackend>::avg_pool, (backend, params), r),
    ensures
        r == Err::<(), KernelError>(KernelError::InternalError),
        final(params.output)@ == old(params.output)@,
{
    law_avg_pool_params::<stub::RefBackend>(backend, params, r);
}

/// The placeholder backend does not perform `max_pool`: it writes nothing and returns an
/// internal error.
pub proof fn law_stub_max_pool<'a>(
    backend: &mut stub::RefBackend,
    params: PoolParams<'a>,
    r: Status,
)
    requires
        call_ensures(<stub::RefBackend as KernelBackend>::max_pool, (backend, params), r),
    ensures
        r == Err::<(), KernelError>(KernelError::InternalError),
        final(params.output)@ == old(params.output)@,
{
    law_max_pool_params::<stub::RefBackend>(backend, params, r);
}

/// The placeholder backend does not perform `softmax`: it writes nothing and returns an
/// internal error.
pub proof fn law_stub_softmax<'a>(
    backend: &mut stub::RefBackend,
    params: SoftmaxParams<'a>,
    r: Status,
)
    requires
        call_ensures(<stub::RefBackend as KernelBackend>::softmax, (backend, params), r),
    ensures
        r == Err::<(), KernelError>(KernelError::InternalError),
        final(params.output)@ == old(params.output)@,
        final(params.scratch)@ == old(params.scratch)@,
{
    law_softmax_params::<stub::RefBackend>(backend, params, r);
}

/// The placeholder backend does not perform `add`: it writes nothing and returns an
/// internal error.
pub proof fn law_stub_add<'a>(
    backend: &mut stub::RefBackend,
    params: ElementwiseAddParams<'a>,
    r: Status,
)
    requires
        call_ensures(<stub::RefBackend as KernelBackend>::add, (backend, params), r),
    ensures
        r == Err::<(), KernelError>(KernelError::InternalError),
        final(params.output)@ == old(params.output)@,
{
    law_add_params::<stub::RefBackend>(backend, params, r);
}

} // verus!
