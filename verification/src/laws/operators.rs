//! From a call of the reference backend to the output buffer.
use crate::backend::{Buffers, KernelBackend, Operation};
use crate::laws::calls;
use crate::laws::conv;
use crate::laws::dense;
use crate::laws::depthwise;
use crate::laws::elementwise;
use crate::laws::pool;
use crate::laws::results;
use crate::laws::softmax;
use crate::laws::whole;
use crate::params::{
    Conv2dArgs, Conv2dParams, DepthwiseConv2dArgs, DepthwiseConv2dParams, ElementwiseAddArgs,
    ElementwiseAddParams, FullyConnectedArgs, FullyConnectedParams, MulArgs, MulParams, PoolArgs,
    PoolParams, SoftmaxArgs, SoftmaxParams,
};
use crate::pool::PoolKind;
use crate::reference::RefBackend;
use crate::types::FusedActivation;
use vstd::prelude::*;

verus! {

/// Max pooling between tensors of one quantization, without an activation, writes the
/// largest input under each window.
pub proof fn law_max_pool_writes<'a>(
    backend: &mut RefBackend,
    params: PoolParams<'a>,
    a: PoolArgs,
    b: int,
    y: int,
    x: int,
    c: int,
)
    requires
        calls::of_pool(params, a),
        old(backend).accepts(
            Operation::Pool(PoolKind::Max, a),
            (Buffers { output: old(params.output)@, scratch: Seq::empty() }),
        ),
        call_ensures(<RefBackend as KernelBackend>::max_pool, (backend, params), Ok(())),
        pool::same_quantization(a),
        params.activation == FusedActivation::Identity,
        whole::is_place(params.output_shape, b, y, x, c),
    ensures
        whole::is_maximum(a, final(params.output)@, b, y, x, c),
{
    let given = calls::law_max_pool_params::<RefBackend>(backend, params, Ok(()));
    assert(given == a);
    pool::law_max_pool_selects(
        *old(backend),
        a,
        Buffers { output: old(params.output)@, scratch: Seq::empty() },
        *final(backend),
        Buffers { output: final(params.output)@, scratch: Seq::empty() },
        b,
        y,
        x,
        c,
    );
}

/// Average pooling between tensors of one quantization, without an activation, writes the
/// rounded mean of the inputs under each window.
pub proof fn law_avg_pool_writes<'a>(
    backend: &mut RefBackend,
    params: PoolParams<'a>,
    a: PoolArgs,
    b: int,
    y: int,
    x: int,
    c: int,
)
    requires
        calls::of_pool(params, a),
        old(backend).accepts(
            Operation::Pool(PoolKind::Average, a),
            (Buffers { output: old(params.output)@, scratch: Seq::empty() }),
        ),
        call_ensures(<RefBackend as KernelBackend>::avg_pool, (backend, params), Ok(())),
        pool::same_quantization(a),
        params.activation == FusedActivation::Identity,
        whole::is_place(params.output_shape, b, y, x, c),
    ensures
        whole::is_mean(a, final(params.output)@, b, y, x, c),
{
    let given = calls::law_avg_pool_params::<RefBackend>(backend, params, Ok(()));
    assert(given == a);
    pool::law_avg_pool_averages(
        *old(backend),
        a,
        Buffers { output: old(params.output)@, scratch: Seq::empty() },
        *final(backend),
        Buffers { output: final(params.output)@, scratch: Seq::empty() },
        b,
        y,
        x,
        c,
    );
}

/// A convolution writes the result of the accumulator of every output element.
pub proof fn law_conv2d_writes<'a>(
    backend: &mut RefBackend,
    params: Conv2dParams<'a>,
    a: Conv2dArgs,
    b: int,
    y: int,
    x: int,
    c: int,
)
    requires
        calls::of_conv2d(params, a),
        old(backend).accepts(
            Operation::Conv2d(a),
            (Buffers { output: old(params.output)@, scratch: old(params.scratch)@ }),
        ),
        call_ensures(<RefBackend as KernelBackend>::conv2d, (backend, params), Ok(())),
        whole::is_place(params.output_shape, b, y, x, c),
    ensures
        whole::is_convolved(a, final(params.output)@, b, y, x, c),
{
    let given = calls::law_conv2d_params::<RefBackend>(backend, params, Ok(()));
    assert(given == a);
    conv::law_conv2d(
        *old(backend),
        a,
        Buffers { output: old(params.output)@, scratch: old(params.scratch)@ },
        *final(backend),
        Buffers { output: final(params.output)@, scratch: final(params.scratch)@ },
        b,
        y,
        x,
        c,
    );
}

/// A depthwise convolution writes the result of the accumulator of every output element.
pub proof fn law_depthwise_conv2d_writes<'a>(
    backend: &mut RefBackend,
    params: DepthwiseConv2dParams<'a>,
    a: DepthwiseConv2dArgs,
    b: int,
    y: int,
    x: int,
    c: int,
)
    requires
        calls::of_depthwise_conv2d(params, a),
        old(backend).accepts(
            Operation::DepthwiseConv2d(a),
            (Buffers { output: old(params.output)@, scratch: old(params.scratch)@ }),
        ),
        call_ensures(<RefBackend as KernelBackend>::depthwise_conv2d, (backend, params), Ok(())),
        whole::is_place(params.output_shape, b, y, x, c),
    ensures
        whole::is_filtered(a, final(params.output)@, b, y, x, c),
{
    let given = calls::law_depthwise_conv2d_params::<RefBackend>(backend, params, Ok(()));
    assert(given == a);
    depthwise::law_depthwise_conv2d(
        *old(backend),
        a,
        Buffers { output: old(params.output)@, scratch: old(params.scratch)@ },
        *final(backend),
        Buffers { output: final(params.output)@, scratch: final(params.scratch)@ },
        b,
        y,
        x,
        c,
    );
}

/// A fully-connected layer writes the result of the accumulator of every output.
pub proof fn law_fully_connected_writes<'a>(
    backend: &mut RefBackend,
    params: FullyConnectedParams<'a>,
    a: FullyConnectedArgs,
    c: int,
)
    requires
        calls::of_fully_connected(params, a),
        old(backend).accepts(
            Operation::FullyConnected(a),
            (Buffers { output: old(params.output)@, scratch: Seq::empty() }),
        ),
        call_ensures(<RefBackend as KernelBackend>::fully_connected, (backend, params), Ok(())),
        0 <= c < old(params.output)@.len(),
    ensures
        whole::is_connected(a, final(params.output)@, c),
{
    let given = calls::law_fully_connected_params::<RefBackend>(backend, params, Ok(()));
    assert(given == a);
    dense::law_fully_connected(
        *old(backend),
        a,
        Buffers { output: old(params.output)@, scratch: Seq::empty() },
        *final(backend),
        Buffers { output: final(params.output)@, scratch: Seq::empty() },
        c,
    );
}

/// Softmax writes, for every class of every row, its exponential over the sum of the
/// exponentials of the row, quantized.
pub proof fn law_softmax_writes<'a>(
    backend: &mut RefBackend,
    params: SoftmaxParams<'a>,
    a: SoftmaxArgs,
    b: int,
    c: int,
    top: int,
)
    requires
        calls::of_softmax(params, a),
        old(backend).accepts(
            Operation::Softmax(a),
            (Buffers { output: old(params.output)@, scratch: old(params.scratch)@ }),
        ),
        call_ensures(<RefBackend as KernelBackend>::softmax, (backend, params), Ok(())),
        softmax::is_class(a, b, c, top),
    ensures
        whole::is_probability(a, final(params.output)@, b, c, top),
{
    let given = calls::law_softmax_params::<RefBackend>(backend, params, Ok(()));
    assert(given == a);
    softmax::law_softmax(
        *old(backend),
        a,
        Buffers { output: old(params.output)@, scratch: old(params.scratch)@ },
        *final(backend),
        Buffers { output: final(params.output)@, scratch: final(params.scratch)@ },
        b,
        c,
        top,
    );
}

/// An addition writes the quantized sum of the two inputs, and nothing that the activation
/// does not permit.
pub proof fn law_add_writes<'a>(
    backend: &mut RefBackend,
    params: ElementwiseAddParams<'a>,
    a: ElementwiseAddArgs,
    i: int,
)
    requires
        calls::of_add(params, a),
        old(backend).accepts(
            Operation::Add(a),
            (Buffers { output: old(params.output)@, scratch: Seq::empty() }),
        ),
        call_ensures(<RefBackend as KernelBackend>::add, (backend, params), Ok(())),
        0 <= i < old(params.output)@.len(),
    ensures
        whole::is_sum(a, final(params.output)@, i),
{
    let given = calls::law_add_params::<RefBackend>(backend, params, Ok(()));
    assert(given == a);
    elementwise::law_add(
        *old(backend),
        a,
        Buffers { output: old(params.output)@, scratch: Seq::empty() },
        *final(backend),
        Buffers { output: final(params.output)@, scratch: Seq::empty() },
        i,
    );
}

/// A multiplication writes the quantized product of the two inputs, of which the shorter is
/// repeated, and nothing that the activation does not permit.
pub proof fn law_mul_writes<'a>(
    backend: &mut RefBackend,
    params: MulParams<'a>,
    a: MulArgs,
    i: int,
)
    requires
        calls::of_mul(params, a),
        a.defined(),
        call_ensures(RefBackend::mul, (backend, params), Ok(())),
        0 <= i < old(params.output)@.len(),
    ensures
        ({
            let first = elementwise::value(
                params.input1@[i % params.input1@.len() as int],
                params.input1_quant,
            );
            let second = elementwise::value(
                params.input2@[i % params.input2@.len() as int],
                params.input2_quant,
            );
            final(params.output)@[i] == elementwise::level(
                first.times(second),
                params.activation,
                params.output_quant,
            )
        }),
        results::permitted(
            final(params.output)@[i] as int,
            params.activation,
            params.output_quant,
        ),
{
    let given = calls::law_mul_params(backend, params, Ok(()));
    assert(given == a);
    elementwise::law_mul(a, old(params.output)@, i);
}

} // verus!
