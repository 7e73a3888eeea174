//! From the tables of a model to what a backend is given.
use crate::backend::{Buffers, KernelBackend, Operation};
use crate::emit;
use crate::invoke;
use crate::layer::{Layer, Plan, SoftmaxLayer, Target};
use crate::load;
use crate::model;
use crate::model::{Model, ModelError, Operator, OperatorCode, Options, Tensor};
use crate::params::{
    Conv2dArgs, DepthwiseConv2dArgs, ElementwiseAddArgs, FullyConnectedArgs, PoolArgs, SoftmaxArgs,
};
use crate::plan;
use crate::pool::PoolKind;
use crate::predict;
use crate::predict::State;
use crate::shape;
use crate::single;
use crate::single::Real;
use crate::tflite;
use crate::types::{FusedActivation, Padding, QuantParam, Status};
use vstd::prelude::*;

verus! {

/// `filled` is `plan`, with some values of the exponential function in its softmax
/// operations.
pub open spec fn is_filled(plan: Plan, filled: Plan) -> bool {
    &&& filled == (Plan { layers: filled.layers, ..plan })
    &&& filled.layers@.len() == plan.layers@.len()
    &&& forall|k: int|
        0 <= k < plan.layers@.len() ==> (#[trigger] filled.layers@[k] == match plan.layers@[k] {
            Layer::Softmax(l) => Layer::Softmax(
                SoftmaxLayer { exponentials: filled.layers@[k]->Softmax_0.exponentials, ..l },
            ),
            layer => layer,
        })
}

/// `plan` is the result of loading a file that holds the model.
pub open spec fn is_loaded(m: Model, plan: Plan, bytes: &[u8], well_formed: bool) -> bool {
    &&& call_ensures(load::load, (bytes, well_formed), Ok(plan))
    &&& call_ensures(tflite::read_model, (bytes, well_formed), Some(m))
}

/// `plan` is what the model compiles to, or what loading a file that holds the model
/// gives.
pub open spec fn is_plan(m: Model, plan: Plan) -> bool {
    call_ensures(plan::compile, (&m,), Ok(plan)) || exists|bytes: &[u8], well_formed: bool|
        is_loaded(m, plan, bytes, well_formed)
}

/// `plan` is a plan of the model, with some values of the exponential function in its
/// softmax operations.
pub open spec fn compiled(m: Model, plan: Plan) -> bool {
    exists|bare: Plan| #[trigger] is_plan(m, bare) && is_filled(bare, plan)
}

/// Number of operators of the model.
pub open spec fn operator_count(m: Model) -> int {
    m.subgraphs->0@[0].operators->0@.len() as int
}

/// Operator `k` of the model.
pub open spec fn operator(m: Model, k: int) -> Operator {
    m.subgraphs->0@[0].operators->0@[k]
}

/// The code of operator `k`: the short one, unless that is 127.
pub open spec fn code(m: Model, k: int) -> int {
    let table = m.operator_codes->0@[operator(m, k).opcode_index as int];
    if table.deprecated_builtin_code == 127 {
        table.builtin_code as int
    } else {
        table.deprecated_builtin_code as int
    }
}

/// Number of the tensor that is input `j` of operator `k`.
pub open spec fn input_id(m: Model, k: int, j: int) -> int {
    operator(m, k).inputs->0@[j] as usize as int
}

/// Number of the tensor that operator `k` computes.
pub open spec fn output_id(m: Model, k: int) -> int {
    operator(m, k).outputs->0@[0] as usize as int
}

/// Number of the tensor that the model is given.
pub open spec fn model_input_id(m: Model) -> int {
    m.subgraphs->0@[0].inputs->0@[0] as usize as int
}

/// Number of the tensor that the model computes.
pub open spec fn model_output_id(m: Model) -> int {
    m.subgraphs->0@[0].outputs->0@[0] as usize as int
}

/// The tensor of a number.
pub open spec fn tensor(m: Model, id: int) -> Tensor {
    m.subgraphs->0@[0].tensors->0@[id]
}

/// The first scale and zero point of a tensor; one and zero where it has none.
pub open spec fn quant(t: Tensor) -> QuantParam {
    QuantParam {
        scale: match t.quantization->0.scale {
            Some(list) => if list@.len() > 0 {
                list@[0]
            } else {
                0x3f80_0000
            },
            None => 0x3f80_0000,
        },
        zero_point: match t.quantization->0.zero_point {
            Some(list) => if list@.len() > 0 {
                list@[0] as i32
            } else {
                0
            },
            None => 0,
        },
    }
}

/// The bytes of the buffer of a tensor.
pub open spec fn data(m: Model, t: Tensor) -> Seq<u8> {
    match m.buffers->0@[t.buffer as int].data {
        Some(bytes) => bytes@,
        None => Seq::empty(),
    }
}

/// The first `n` dimensions, multiplied.
pub open spec fn product(dims: Seq<i32>, n: int) -> nat
    decreases n,
{
    if n <= 0 {
        1
    } else {
        product(dims, n - 1) * (dims[n - 1] as usize as nat)
    }
}

/// Number of elements of a tensor.
pub open spec fn element_count(t: Tensor) -> nat {
    product(t.shape->0@, t.shape->0@.len() as int)
}

/// The tensor has these four dimensions.
pub open spec fn has_shape4(t: Tensor, s: [usize; 4]) -> bool {
    let dims = t.shape->0@;
    &&& dims.len() == 4
    &&& s[0] == dims[0] as usize
    &&& s[1] == dims[1] as usize
    &&& s[2] == dims[2] as usize
    &&& s[3] == dims[3] as usize
}

/// The tensor has these two dimensions; a vector is a matrix of one row.
pub open spec fn has_shape2(t: Tensor, s: [usize; 2]) -> bool {
    let dims = t.shape->0@;
    if dims.len() == 1 {
        s[0] == 1 && s[1] == dims[0] as usize
    } else {
        dims.len() == 2 && s[0] == dims[0] as usize && s[1] == dims[1] as usize
    }
}

/// The elements are the bytes, as signed numbers.
pub open spec fn are_signed(elements: Seq<i8>, bytes: Seq<u8>) -> bool {
    &&& elements.len() == bytes.len()
    &&& forall|i: int|
        0 <= i < bytes.len() ==> #[trigger] elements[i] == (if bytes[i] < 128 {
            bytes[i] as int
        } else {
            bytes[i] - 256
        })
}

/// The elements are the words that the bytes hold, the least significant byte first.
pub open spec fn are_words(elements: Seq<i32>, bytes: Seq<u8>) -> bool {
    &&& elements.len() == bytes.len() / 4
    &&& forall|i: int|
        0 <= i < elements.len() ==> (#[trigger] elements[i]) as int % 0x1_0000_0000 == bytes[4 * i]
            + 0x100 * bytes[4 * i + 1] + 0x1_0000 * bytes[4 * i + 2] + 0x100_0000 * bytes[4 * i + 3]
}

/// The bias of operator `k` is its third input, where that is there.
pub open spec fn is_bias(m: Model, k: int, bias: Option<Seq<i32>>) -> bool {
    if operator(m, k).inputs->0@.len() > 2 && operator(m, k).inputs->0@[2] >= 0 {
        bias is Some && are_words(bias->0, data(m, tensor(m, input_id(m, k, 2))))
    } else {
        bias is None
    }
}

/// The code of an activation in a model.
pub open spec fn activation_code(activation: FusedActivation) -> int {
    match activation {
        FusedActivation::Identity => 0,
        FusedActivation::Relu => 1,
        FusedActivation::ReluN1To1 => 2,
        FusedActivation::Relu6 => 3,
        FusedActivation::Tanh => 4,
        FusedActivation::SignBit => 5,
        FusedActivation::Sigmoid => 6,
    }
}

/// The code of a padding strategy in a model.
pub open spec fn padding_code(padding: Padding) -> int {
    match padding {
        Padding::Same => 0,
        Padding::Valid => 1,
    }
}

/// The elements of a tensor as an operator finds them.
pub open spec fn contents<B>(m: Model, id: int, input: Seq<i8>, state: State<B>) -> Seq<i8> {
    if id == model_input_id(m) {
        input
    } else {
        state.tensors[id]
    }
}

/// The output of operator `k` before it runs: the output of the model, or fresh zeros.
pub open spec fn found<B>(m: Model, k: int, state: State<B>) -> Seq<i8> {
    if output_id(m, k) == model_output_id(m) {
        state.output
    } else {
        Seq::new(element_count(tensor(m, output_id(m, k))), |i: int| 0i8)
    }
}

/// The output of operator `k` after it has run.
pub open spec fn left<B>(m: Model, k: int, state: State<B>) -> Seq<i8> {
    if output_id(m, k) == model_output_id(m) {
        state.output
    } else {
        state.tensors[output_id(m, k)]
    }
}

/// The first operators are without fault where all are.
proof fn lemma_no_fault(m: Model, i: int, k: int)
    requires
        m.operators_fault(i) is None,
        i <= k < m.operators().len(),
    ensures
        m.operator_fault(k) is None,
    decreases k - i,
{
    if i < k {
        lemma_no_fault(m, i + 1, k);
    }
}

/// The exponentials of a softmax operation before any were filled in.
spec fn bare_exponentials(m: Model, plan: Plan, k: int) -> Vec<u32> {
    let bare = choose|bare: Plan| #[trigger]
        is_plan(m, bare) && is_filled(bare, plan);
    bare.layers@[k]->Softmax_0.exponentials
}

/// What a compiled model has for operator `k`.
proof fn lemma_layer(m: Model, plan: Plan, k: int)
    requires
        compiled(m, plan),
        0 <= k < operator_count(m),
    ensures
        m.fault() is None,
        m.operator_fault(k) is None,
        ({
            let layer = match plan.layers@[k] {
                Layer::Softmax(l) => Layer::Softmax(
                    SoftmaxLayer { exponentials: bare_exponentials(m, plan, k), ..l },
                ),
                layer => layer,
            };
            plan::layer_holds(m.graph(), m.code(k), m.operators()[k], layer)
        }),
{
    let bare = choose|bare: Plan| #[trigger]
        is_plan(m, bare) && is_filled(bare, plan);
    lemma_no_fault(m, 0, k);
    assert(plan::layer_holds(m.graph(), m.code(k), m.operators()[k], bare.layers@[k]));
    assert(bare.layers@.len() == plan.layers@.len());
    assert(plan.layers@[k] == plan.layers@[k]);
}

pub proof fn lemma_product(dims: Seq<i32>, n: int)
    requires
        0 <= n <= dims.len(),
    ensures
        shape::dims_product(Seq::new(n as nat, |i: int| dims[i] as usize)) == product(dims, n),
    decreases n,
{
    if n > 0 {
        lemma_product(dims, n - 1);
        assert(Seq::new(n as nat, |i: int| dims[i] as usize).drop_last() =~= Seq::new(
            (n - 1) as nat,
            |i: int| dims[i] as usize,
        ));
    }
}

proof fn lemma_count(t: Tensor)
    requires
        model::info_of(t) is Some,
        model::info_of(t)->0.countable(),
    ensures
        model::info_of(t)->0.count() == element_count(t),
        element_count(t) <= usize::MAX,
{
    let s = model::info_of(t)->0.shape;
    model::lemma_full_shape(t.shape->0@);
    lemma_product(t.shape->0@, t.shape->0@.len() as int);
    assert(s.take(s.len() as int) =~= s);
}

proof fn lemma_zeros(len: usize)
    ensures
        invoke::zeros(len) == Seq::new(len as nat, |i: int| 0i8),
{
    assert(invoke::zeros(len) =~= Seq::new(len as nat, |i: int| 0i8));
}

/// A tensor with tables, of INT8 elements.
pub open spec fn is_int8(m: Model, id: int) -> bool {
    &&& 0 <= id < m.subgraphs->0@[0].tensors->0@.len()
    &&& tensor(m, id).shape is Some
    &&& tensor(m, id).quantization is Some
    &&& tensor(m, id).tensor_type == 9
}

/// A state that a run of the plan can be in has one entry for each tensor.
pub open spec fn tensors_fit<B>(m: Model, state: State<B>) -> bool {
    state.tensors.len() == m.subgraphs->0@[0].tensors->0@.len()
}

proof fn lemma_weights(bytes: Seq<u8>)
    ensures
        are_signed(model::i8_elements(bytes), bytes),
{
}

pub proof fn lemma_words(bytes: Seq<u8>)
    ensures
        are_words(model::i32_elements(bytes), bytes),
{
    assert forall|i: int| 0 <= i < bytes.len() / 4 implies (#[trigger] model::i32_elements(
        bytes,
    )[i]) as int % 0x1_0000_0000 == bytes[4 * i] + 0x100 * bytes[4 * i + 1] + 0x1_0000 * bytes[4 * i
        + 2] + 0x100_0000 * bytes[4 * i + 3] by {
        lemma_word(bytes, 4 * i);
    }
}

proof fn lemma_word(bytes: Seq<u8>, p: int)
    ensures
        model::le_i32(bytes, p) as int % 0x1_0000_0000 == bytes[p] + 0x100 * bytes[p + 1] + 0x1_0000
            * bytes[p + 2] + 0x100_0000 * bytes[p + 3],
{
}

/// The bias of a layer, seen from the tables.
proof fn lemma_bias(m: Model, k: int, bias: Option<Vec<i32>>)
    requires
        m.complete(),
        operator(m, k).inputs is Some,
        emit::bias_fault(m.graph(), operator(m, k).bias_id()) is None,
        emit::bias_holds(m.graph(), operator(m, k).bias_id(), bias),
    ensures
        is_bias(m, k, invoke::list_view(bias)),
{
    if operator(m, k).bias_id() is Some {
        lemma_words(data(m, tensor(m, input_id(m, k, 2))));
    }
}

/// The arguments are those of the CONV_2D operator `k`, as the tables of the model hold
/// them.
pub open spec fn is_conv2d(m: Model, k: int, a: Conv2dArgs) -> bool {
    &&& is_int8(m, input_id(m, k, 0))
    &&& is_int8(m, input_id(m, k, 1))
    &&& is_int8(m, output_id(m, k))
    &&& has_shape4(tensor(m, input_id(m, k, 0)), a.input_shape)
    &&& a.input_quant == quant(tensor(m, input_id(m, k, 0)))
    &&& are_signed(a.weights, data(m, tensor(m, input_id(m, k, 1))))
    &&& has_shape4(tensor(m, input_id(m, k, 1)), a.weights_shape)
    &&& a.weights_quant == quant(tensor(m, input_id(m, k, 1)))
    &&& a.channel_scales is None
    &&& is_bias(m, k, a.bias)
    &&& has_shape4(tensor(m, output_id(m, k)), a.output_shape)
    &&& a.output_quant == quant(tensor(m, output_id(m, k)))
    &&& operator(m, k).options matches Options::Conv2d {
        padding,
        stride_w,
        stride_h,
        activation,
        dilation_w_factor,
        dilation_h_factor,
    } && {
        &&& padding_code(a.padding) == padding
        &&& activation_code(a.activation) == activation
        &&& a.stride_w == stride_w
        &&& a.stride_h == stride_h
        &&& a.dilation_w_factor == dilation_w_factor
        &&& a.dilation_h_factor == dilation_h_factor
    }
}

/// The arguments are those of the DEPTHWISE_CONV_2D operator `k`, as the tables of the
/// model hold them.
pub open spec fn is_depthwise_conv2d(m: Model, k: int, a: DepthwiseConv2dArgs) -> bool {
    &&& is_int8(m, input_id(m, k, 0))
    &&& is_int8(m, input_id(m, k, 1))
    &&& is_int8(m, output_id(m, k))
    &&& has_shape4(tensor(m, input_id(m, k, 0)), a.input_shape)
    &&& a.input_quant == quant(tensor(m, input_id(m, k, 0)))
    &&& are_signed(a.weights, data(m, tensor(m, input_id(m, k, 1))))
    &&& has_shape4(tensor(m, input_id(m, k, 1)), a.weights_shape)
    &&& a.weights_quant == quant(tensor(m, input_id(m, k, 1)))
    &&& a.channel_scales is None
    &&& is_bias(m, k, a.bias)
    &&& has_shape4(tensor(m, output_id(m, k)), a.output_shape)
    &&& a.output_quant == quant(tensor(m, output_id(m, k)))
    &&& operator(m, k).options matches Options::DepthwiseConv2d {
        padding,
        stride_w,
        stride_h,
        depth_multiplier,
        activation,
        dilation_w_factor,
        dilation_h_factor,
    } && {
        &&& padding_code(a.padding) == padding
        &&& activation_code(a.activation) == activation
        &&& a.stride_w == stride_w
        &&& a.stride_h == stride_h
        &&& a.dilation_w_factor == dilation_w_factor
        &&& a.dilation_h_factor == dilation_h_factor
        &&& a.depth_multiplier == depth_multiplier
    }
}

/// The arguments are those of the FULLY_CONNECTED operator `k`, as the tables of the model
/// hold them.
pub open spec fn is_fully_connected(m: Model, k: int, a: FullyConnectedArgs) -> bool {
    &&& is_int8(m, input_id(m, k, 0))
    &&& is_int8(m, input_id(m, k, 1))
    &&& is_int8(m, output_id(m, k))
    &&& a.input_quant == quant(tensor(m, input_id(m, k, 0)))
    &&& are_signed(a.weights, data(m, tensor(m, input_id(m, k, 1))))
    &&& has_shape2(tensor(m, input_id(m, k, 1)), a.weights_shape)
    &&& a.weights_quant == quant(tensor(m, input_id(m, k, 1)))
    &&& a.channel_scales is None
    &&& is_bias(m, k, a.bias)
    &&& a.output_depth == element_count(tensor(m, output_id(m, k)))
    &&& a.output_quant == quant(tensor(m, output_id(m, k)))
    &&& operator(m, k).options matches Options::FullyConnected { activation } && activation_code(
        a.activation,
    ) == activation
}

/// The arguments are those of the pooling operator `k`, as the tables of the model hold
/// them.
pub open spec fn is_pool(m: Model, k: int, a: PoolArgs) -> bool {
    &&& is_int8(m, input_id(m, k, 0))
    &&& is_int8(m, output_id(m, k))
    &&& has_shape4(tensor(m, input_id(m, k, 0)), a.input_shape)
    &&& a.input_quant == quant(tensor(m, input_id(m, k, 0)))
    &&& has_shape4(tensor(m, output_id(m, k)), a.output_shape)
    &&& a.output_quant == quant(tensor(m, output_id(m, k)))
    &&& operator(m, k).options matches Options::Pool2d {
        padding,
        stride_w,
        stride_h,
        filter_width,
        filter_height,
        activation,
    } && {
        &&& padding_code(a.padding) == padding
        &&& activation_code(a.activation) == activation
        &&& a.stride_w == stride_w
        &&& a.stride_h == stride_h
        &&& a.filter_w == filter_width
        &&& a.filter_h == filter_height
    }
}

/// The arguments are those of the ADD operator `k`, as the tables of the model hold them.
pub open spec fn is_add(m: Model, k: int, a: ElementwiseAddArgs) -> bool {
    &&& is_int8(m, input_id(m, k, 0))
    &&& is_int8(m, input_id(m, k, 1))
    &&& is_int8(m, output_id(m, k))
    &&& a.input1_quant == quant(tensor(m, input_id(m, k, 0)))
    &&& a.input2_quant == quant(tensor(m, input_id(m, k, 1)))
    &&& a.output_quant == quant(tensor(m, output_id(m, k)))
    &&& operator(m, k).options matches Options::Add { activation } && activation_code(a.activation)
        == activation
}

/// The arguments are those of the SOFTMAX operator `k`, as the tables of the model hold
/// them.
pub open spec fn is_softmax(m: Model, k: int, a: SoftmaxArgs) -> bool {
    &&& is_int8(m, input_id(m, k, 0))
    &&& is_int8(m, output_id(m, k))
    &&& has_shape2(tensor(m, input_id(m, k, 0)), a.input_shape)
    &&& a.input_quant == quant(tensor(m, input_id(m, k, 0)))
    &&& a.output_quant == quant(tensor(m, output_id(m, k)))
    &&& operator(m, k).options matches Options::Softmax { beta } && a.beta == beta
}

/// A CONV_2D operator hands the backend its tensors, constants and options as the tables
/// of the model hold them.
pub proof fn law_conv2d_call<B: KernelBackend>(
    m: Model,
    plan: Plan,
    k: int,
    input: Seq<i8>,
    state: State<B>,
    after: State<B>,
    status: Status,
) -> (a: Conv2dArgs)
    requires
        compiled(m, plan),
        0 <= k < operator_count(m),
        code(m, k) == 3,
        tensors_fit(m, state),
        state.steps(plan.layers@[k], input, after, status),
    ensures
        state.accepts(plan.layers@[k], input) ==> state.backend.accepts(
            Operation::Conv2d(a),
            Buffers { output: found(m, k, state), scratch: state.scratch },
        ),
        B::performs(
            state.backend,
            Operation::Conv2d(a),
            Buffers { output: found(m, k, state), scratch: state.scratch },
            after.backend,
            Buffers { output: left(m, k, after), scratch: after.scratch },
            status,
        ),
        is_conv2d(m, k, a),
        a.input == contents(m, input_id(m, k, 0), input, state),
        a.output_len == found(m, k, state).len(),
        a.scratch_len == state.scratch.len(),
{
    let layer = plan.layers@[k];
    lemma_layer(m, plan, k);
    let l = layer->Conv2d_0;
    lemma_count(tensor(m, output_id(m, k)));
    lemma_weights(data(m, tensor(m, input_id(m, k, 1))));
    lemma_bias(m, k, l.bias);
    if let Target::Tensor { len, .. } = l.output {
        lemma_zeros(len);
    }
    layer.operation(
        state.first(layer, input),
        state.second(layer, input),
        state.found(layer.target()).len(),
        state.scratch.len(),
    )->0->Conv2d_0
}

/// A DEPTHWISE_CONV_2D operator hands the backend its tensors, constants and options as
/// the tables of the model hold them.
pub proof fn law_depthwise_conv2d_call<B: KernelBackend>(
    m: Model,
    plan: Plan,
    k: int,
    input: Seq<i8>,
    state: State<B>,
    after: State<B>,
    status: Status,
) -> (a: DepthwiseConv2dArgs)
    requires
        compiled(m, plan),
        0 <= k < operator_count(m),
        code(m, k) == 4,
        tensors_fit(m, state),
        state.steps(plan.layers@[k], input, after, status),
    ensures
        state.accepts(plan.layers@[k], input) ==> state.backend.accepts(
            Operation::DepthwiseConv2d(a),
            Buffers { output: found(m, k, state), scratch: state.scratch },
        ),
        B::performs(
            state.backend,
            Operation::DepthwiseConv2d(a),
            Buffers { output: found(m, k, state), scratch: state.scratch },
            after.backend,
            Buffers { output: left(m, k, after), scratch: after.scratch },
            status,
        ),
        is_depthwise_conv2d(m, k, a),
        a.input == contents(m, input_id(m, k, 0), input, state),
        a.output_len == found(m, k, state).len(),
        a.scratch_len == state.scratch.len(),
{
    let layer = plan.layers@[k];
    lemma_layer(m, plan, k);
    let l = layer->DepthwiseConv2d_0;
    lemma_count(tensor(m, output_id(m, k)));
    lemma_weights(data(m, tensor(m, input_id(m, k, 1))));
    lemma_bias(m, k, l.bias);
    if let Target::Tensor { len, .. } = l.output {
        lemma_zeros(len);
    }
    layer.operation(
        state.first(layer, input),
        state.second(layer, input),
        state.found(layer.target()).len(),
        state.scratch.len(),
    )->0->DepthwiseConv2d_0
}

/// A FULLY_CONNECTED operator hands the backend its tensors, constants and options as the
/// tables of the model hold them.
pub proof fn law_fully_connected_call<B: KernelBackend>(
    m: Model,
    plan: Plan,
    k: int,
    input: Seq<i8>,
    state: State<B>,
    after: State<B>,
    status: Status,
) -> (a: FullyConnectedArgs)
    requires
        compiled(m, plan),
        0 <= k < operator_count(m),
        code(m, k) == 9,
        tensors_fit(m, state),
        state.steps(plan.layers@[k], input, after, status),
    ensures
        state.accepts(plan.layers@[k], input) ==> state.backend.accepts(
            Operation::FullyConnected(a),
            Buffers { output: found(m, k, state), scratch: Seq::empty() },
        ),
        B::performs(
            state.backend,
            Operation::FullyConnected(a),
            Buffers { output: found(m, k, state), scratch: Seq::empty() },
            after.backend,
            Buffers { output: left(m, k, after), scratch: Seq::empty() },
            status,
        ),
        is_fully_connected(m, k, a),
        a.input == contents(m, input_id(m, k, 0), input, state),
        a.output_len == found(m, k, state).len(),
        after.scratch == state.scratch,
{
    let layer = plan.layers@[k];
    lemma_layer(m, plan, k);
    let l = layer->FullyConnected_0;
    lemma_count(tensor(m, output_id(m, k)));
    lemma_weights(data(m, tensor(m, input_id(m, k, 1))));
    lemma_bias(m, k, l.bias);
    if let Target::Tensor { len, .. } = l.output {
        lemma_zeros(len);
    }
    layer.operation(
        state.first(layer, input),
        state.second(layer, input),
        state.found(layer.target()).len(),
        state.scratch.len(),
    )->0->FullyConnected_0
}

/// An AVERAGE_POOL_2D operator has the backend average its input, with the options that the
/// tables of the model hold.
pub proof fn law_average_pool_call<B: KernelBackend>(
    m: Model,
    plan: Plan,
    k: int,
    input: Seq<i8>,
    state: State<B>,
    after: State<B>,
    status: Status,
) -> (a: PoolArgs)
    requires
        compiled(m, plan),
        0 <= k < operator_count(m),
        code(m, k) == 1,
        tensors_fit(m, state),
        state.steps(plan.layers@[k], input, after, status),
    ensures
        state.accepts(plan.layers@[k], input) ==> state.backend.accepts(
            Operation::Pool(PoolKind::Average, a),
            Buffers { output: found(m, k, state), scratch: Seq::empty() },
        ),
        B::performs(
            state.backend,
            Operation::Pool(PoolKind::Average, a),
            Buffers { output: found(m, k, state), scratch: Seq::empty() },
            after.backend,
            Buffers { output: left(m, k, after), scratch: Seq::empty() },
            status,
        ),
        is_pool(m, k, a),
        a.input == contents(m, input_id(m, k, 0), input, state),
        a.output_len == found(m, k, state).len(),
        after.scratch == state.scratch,
{
    let layer = plan.layers@[k];
    lemma_layer(m, plan, k);
    let l = layer->Pool_0;
    lemma_count(tensor(m, output_id(m, k)));
    if let Target::Tensor { len, .. } = l.output {
        lemma_zeros(len);
    }
    layer.operation(
        state.first(layer, input),
        state.second(layer, input),
        state.found(layer.target()).len(),
        state.scratch.len(),
    )->0->Pool_1
}

/// A MAX_POOL_2D operator has the backend take the largest inputs, with the options that the
/// tables of the model hold.
pub proof fn law_max_pool_call<B: KernelBackend>(
    m: Model,
    plan: Plan,
    k: int,
    input: Seq<i8>,
    state: State<B>,
    after: State<B>,
    status: Status,
) -> (a: PoolArgs)
    requires
        compiled(m, plan),
        0 <= k < operator_count(m),
        code(m, k) == 17,
        tensors_fit(m, state),
        state.steps(plan.layers@[k], input, after, status),
    ensures
        state.accepts(plan.layers@[k], input) ==> state.backend.accepts(
            Operation::Pool(PoolKind::Max, a),
            Buffers { output: found(m, k, state), scratch: Seq::empty() },
        ),
        B::performs(
            state.backend,
            Operation::Pool(PoolKind::Max, a),
            Buffers { output: found(m, k, state), scratch: Seq::empty() },
            after.backend,
            Buffers { output: left(m, k, after), scratch: Seq::empty() },
            status,
        ),
        is_pool(m, k, a),
        a.input == contents(m, input_id(m, k, 0), input, state),
        a.output_len == found(m, k, state).len(),
        after.scratch == state.scratch,
{
    let layer = plan.layers@[k];
    lemma_layer(m, plan, k);
    let l = layer->Pool_0;
    lemma_count(tensor(m, output_id(m, k)));
    if let Target::Tensor { len, .. } = l.output {
        lemma_zeros(len);
    }
    layer.operation(
        state.first(layer, input),
        state.second(layer, input),
        state.found(layer.target()).len(),
        state.scratch.len(),
    )->0->Pool_1
}

/// An ADD operator hands the backend its two inputs and options as the tables of the model
/// hold them.
pub proof fn law_add_call<B: KernelBackend>(
    m: Model,
    plan: Plan,
    k: int,
    input: Seq<i8>,
    state: State<B>,
    after: State<B>,
    status: Status,
) -> (a: ElementwiseAddArgs)
    requires
        compiled(m, plan),
        0 <= k < operator_count(m),
        code(m, k) == 0,
        tensors_fit(m, state),
        state.steps(plan.layers@[k], input, after, status),
    ensures
        state.accepts(plan.layers@[k], input) ==> state.backend.accepts(
            Operation::Add(a),
            Buffers { output: found(m, k, state), scratch: Seq::empty() },
        ),
        B::performs(
            state.backend,
            Operation::Add(a),
            Buffers { output: found(m, k, state), scratch: Seq::empty() },
            after.backend,
            Buffers { output: left(m, k, after), scratch: Seq::empty() },
            status,
        ),
        is_add(m, k, a),
        a.input1 == contents(m, input_id(m, k, 0), input, state),
        a.input2 == contents(m, input_id(m, k, 1), input, state),
        a.output_len == found(m, k, state).len(),
        after.scratch == state.scratch,
{
    let layer = plan.layers@[k];
    lemma_layer(m, plan, k);
    let l = layer->Add_0;
    lemma_count(tensor(m, output_id(m, k)));
    if let Target::Tensor { len, .. } = l.output {
        lemma_zeros(len);
    }
    layer.operation(
        state.first(layer, input),
        state.second(layer, input),
        state.found(layer.target()).len(),
        state.scratch.len(),
    )->0->Add_0
}

/// A SOFTMAX operator hands the backend its input and beta as the tables of the model hold
/// them, and the exponentials that were put into its layer.
pub proof fn law_softmax_call<B: KernelBackend>(
    m: Model,
    plan: Plan,
    k: int,
    input: Seq<i8>,
    state: State<B>,
    after: State<B>,
    status: Status,
) -> (a: SoftmaxArgs)
    requires
        compiled(m, plan),
        0 <= k < operator_count(m),
        code(m, k) == 25,
        tensors_fit(m, state),
        state.steps(plan.layers@[k], input, after, status),
    ensures
        state.accepts(plan.layers@[k], input) ==> state.backend.accepts(
            Operation::Softmax(a),
            Buffers { output: found(m, k, state), scratch: state.scratch },
        ),
        B::performs(
            state.backend,
            Operation::Softmax(a),
            Buffers { output: found(m, k, state), scratch: state.scratch },
            after.backend,
            Buffers { output: left(m, k, after), scratch: after.scratch },
            status,
        ),
        is_softmax(m, k, a),
        a.input == contents(m, input_id(m, k, 0), input, state),
        a.output_len == found(m, k, state).len(),
        a.exponentials == plan.layers@[k]->Softmax_0.exponentials@,
        a.scratch_len == state.scratch.len(),
{
    lemma_layer(m, plan, k);
    let layer = plan.layers@[k];
    let l = layer->Softmax_0;
    lemma_count(tensor(m, output_id(m, k)));
    if let Target::Tensor { len, .. } = l.output {
        lemma_zeros(len);
    }
    layer.operation(
        state.first(layer, input),
        state.second(layer, input),
        state.found(layer.target()).len(),
        state.scratch.len(),
    )->0->Softmax_0
}

/// A RESHAPE operator copies its input to its output, and no backend is asked.
pub proof fn law_reshape_copies<B: KernelBackend>(
    m: Model,
    plan: Plan,
    k: int,
    input: Seq<i8>,
    state: State<B>,
    after: State<B>,
    status: Status,
)
    requires
        compiled(m, plan),
        0 <= k < operator_count(m),
        code(m, k) == 22,
        tensors_fit(m, state),
        state.steps(plan.layers@[k], input, after, status),
    ensures
        left(m, k, after) == contents(m, input_id(m, k, 0), input, state),
        status is Ok,
        after.backend == state.backend,
        after.scratch == state.scratch,
{
    lemma_layer(m, plan, k);
}

/// Running an operator changes the tensor that it computes and no other: not the output
/// of the model, where it computes another tensor, nor any tensor between the operators,
/// where it computes the output of the model.
pub proof fn law_operator_writes_its_output<B: KernelBackend>(
    m: Model,
    plan: Plan,
    k: int,
    input: Seq<i8>,
    state: State<B>,
    after: State<B>,
    status: Status,
)
    requires
        compiled(m, plan),
        0 <= k < operator_count(m),
        tensors_fit(m, state),
        state.steps(plan.layers@[k], input, after, status),
    ensures
        tensors_fit(m, after),
        output_id(m, k) != model_output_id(m) ==> after.output == state.output,
        forall|id: int|
            0 <= id < state.tensors.len() && (id != output_id(m, k) || id == model_output_id(m))
                ==> #[trigger] after.tensors[id] == state.tensors[id],
{
    lemma_layer(m, plan, k);
}

/// A model is compiled to one layer for each operator, and expects and gives as many
/// elements, of the same quantization, as the tensors hold that are its input and output.
pub proof fn law_interface(m: Model, plan: Plan)
    requires
        compiled(m, plan),
    ensures
        plan.layers@.len() == operator_count(m),
        is_int8(m, model_input_id(m)),
        is_int8(m, model_output_id(m)),
        plan.input_len == element_count(tensor(m, model_input_id(m))),
        plan.output_len == element_count(tensor(m, model_output_id(m))),
        plan.input_quant == quant(tensor(m, model_input_id(m))),
        plan.output_quant == quant(tensor(m, model_output_id(m))),
        plan.tensor_count == m.subgraphs->0@[0].tensors->0@.len(),
{
    let bare = choose|bare: Plan| #[trigger]
        is_plan(m, bare) && is_filled(bare, plan);
    assert(m.planned(bare));
    lemma_count(tensor(m, model_input_id(m)));
    lemma_count(tensor(m, model_output_id(m)));
}

/// Only operators that a kernel runs are compiled.
pub proof fn law_operators_are_known(m: Model, plan: Plan, k: int)
    requires
        compiled(m, plan),
        0 <= k < operator_count(m),
    ensures
        operator(m, k).opcode_index < m.operator_codes->0@.len(),
        code(m, k) == 0 || code(m, k) == 1 || code(m, k) == 3 || code(m, k) == 4 || code(m, k) == 9
            || code(m, k) == 17 || code(m, k) == 22 || code(m, k) == 25,
{
    lemma_layer(m, plan, k);
}

/// The scratch memory of a convolution is what the backend states for the shapes of its
/// tensors; that of softmax, for the number of classes; other operators need none.
pub proof fn law_scratch<B: KernelBackend>(m: Model, plan: Plan, k: int, size: usize)
    requires
        compiled(m, plan),
        0 <= k < operator_count(m),
        plan.layers@[k].needs_scratch::<B>(size) || call_ensures(
            Layer::scratch_size::<B>,
            (&plan.layers@[k],),
            size,
        ),
    ensures
        code(m, k) == 3 ==> exists|i: [usize; 4], w: [usize; 4], o: [usize; 4]|
            {
                &&& has_shape4(tensor(m, input_id(m, k, 0)), i)
                &&& has_shape4(tensor(m, input_id(m, k, 1)), w)
                &&& has_shape4(tensor(m, output_id(m, k)), o)
                &&& #[trigger] call_ensures(B::conv2d_scratch_size, (i, w, o), size)
            },
        code(m, k) == 4 ==> exists|i: [usize; 4], w: [usize; 4], o: [usize; 4]|
            {
                &&& has_shape4(tensor(m, input_id(m, k, 0)), i)
                &&& has_shape4(tensor(m, input_id(m, k, 1)), w)
                &&& has_shape4(tensor(m, output_id(m, k)), o)
                &&& #[trigger] call_ensures(B::depthwise_conv2d_scratch_size, (i, w, o), size)
            },
        code(m, k) == 25 ==> exists|s: [usize; 2]|
            {
                &&& #[trigger] has_shape2(tensor(m, input_id(m, k, 0)), s)
                &&& call_ensures(B::softmax_scratch_size, (s[1],), size)
            },
        code(m, k) != 3 && code(m, k) != 4 && code(m, k) != 25 ==> size == 0,
{
    let layer = plan.layers@[k];
    lemma_layer(m, plan, k);
    if let Layer::Softmax(l) = layer {
        assert(has_shape2(tensor(m, input_id(m, k, 0)), l.input_shape));
    }
}

/// What a caller is told of the input and the output of a model is what the tensors say
/// that are its input and output.
pub proof fn law_accessors(
    m: Model,
    plan: Plan,
    lengths: (usize, usize),
    scales: (u32, u32),
    zero_points: (i32, i32),
)
    requires
        compiled(m, plan),
        call_ensures(Plan::input_len, (&plan,), lengths.0),
        call_ensures(Plan::output_len, (&plan,), lengths.1),
        call_ensures(Plan::input_scale, (&plan,), scales.0),
        call_ensures(Plan::output_scale, (&plan,), scales.1),
        call_ensures(Plan::input_zero_point, (&plan,), zero_points.0),
        call_ensures(Plan::output_zero_point, (&plan,), zero_points.1),
    ensures
        lengths.0 == element_count(tensor(m, model_input_id(m))),
        lengths.1 == element_count(tensor(m, model_output_id(m))),
        scales.0 == quant(tensor(m, model_input_id(m))).scale,
        scales.1 == quant(tensor(m, model_output_id(m))).scale,
        zero_points.0 == quant(tensor(m, model_input_id(m))).zero_point,
        zero_points.1 == quant(tensor(m, model_output_id(m))).zero_point,
{
    law_interface(m, plan);
}

/// Operator `k` can read the tensor of a number: it is the input of the model, or an
/// earlier operator computes it, and neither is it the output of the model nor does
/// operator `k` compute it.
pub open spec fn is_available(m: Model, k: int, id: int) -> bool {
    id == model_input_id(m) || {
        &&& id != model_output_id(m)
        &&& id != output_id(m, k)
        &&& exists|j: int| 0 <= j < k && #[trigger] output_id(m, j) == id
    }
}

/// Operator `k` can read all that it reads.
pub open spec fn reads_available(m: Model, k: int) -> bool {
    &&& is_available(m, k, input_id(m, k, 0))
    &&& code(m, k) == 0 ==> is_available(m, k, input_id(m, k, 1))
}

/// Where the layer of an operator reads and writes.
proof fn lemma_ends(m: Model, plan: Plan, k: int)
    requires
        compiled(m, plan),
        0 <= k < operator_count(m),
    ensures
        plan.layers@.len() == operator_count(m),
        plan.tensor_count == m.subgraphs->0@[0].tensors->0@.len(),
        0 <= output_id(m, k) < plan.tensor_count,
        ({
            let layer = plan.layers@[k];
            &&& layer.source() == emit::source_of(
                input_id(m, k, 0) as usize,
                model_input_id(m) as usize,
            )
            &&& layer.second_source() == (if code(m, k) == 0 {
                Some(emit::source_of(input_id(m, k, 1) as usize, model_input_id(m) as usize))
            } else {
                None
            })
            &&& forall|id: usize| #[trigger]
                layer.writes(id) <==> id == output_id(m, k) && id != model_output_id(m)
            &&& layer.target() matches Target::Tensor { id, .. } ==> id == output_id(m, k)
        }),
{
    law_interface(m, plan);
    lemma_layer(m, plan, k);
}

proof fn lemma_available(m: Model, plan: Plan, k: int, id: usize)
    requires
        compiled(m, plan),
        0 <= k < operator_count(m),
    ensures
        ({
            let source = emit::source_of(id, model_input_id(m) as usize);
            (predict::source_within(source, plan.tensor_count as int) && plan.source_resolved(
                k,
                source,
            )) == is_available(m, k, id as int)
        }),
{
    lemma_ends(m, plan, k);
    assert forall|j: int| 0 <= j < k implies (#[trigger] plan.layers@[j].writes(id)) == (output_id(
        m,
        j,
    ) == id && id != model_output_id(m)) by {
        lemma_ends(m, plan, j);
    }
    if plan.written_before(k, id) {
        let j = choose|j: int| 0 <= j < k && #[trigger] plan.layers@[j].writes(id);
        lemma_ends(m, plan, j);
        assert(output_id(m, j) == id);
    }
    if is_available(m, k, id as int) && id != model_input_id(m) {
        let j = choose|j: int| 0 <= j < k && #[trigger] output_id(m, j) == id as int;
        lemma_ends(m, plan, j);
        assert(plan.layers@[j].writes(id));
    }
}

/// A model is resolved exactly where every operator reads the input of the model or what
/// an earlier operator has computed.
pub proof fn law_is_resolved(m: Model, plan: Plan, r: bool)
    requires
        compiled(m, plan),
        call_ensures(Plan::is_resolved, (&plan,), r),
    ensures
        r <==> forall|k: int| 0 <= k < operator_count(m) ==> #[trigger] reads_available(m, k),
{
    law_interface(m, plan);
    assert forall|k: int| 0 <= k < operator_count(m) implies plan.layer_resolved(k)
        == #[trigger] reads_available(m, k) by {
        lemma_ends(m, plan, k);
        lemma_available(m, plan, k, input_id(m, k, 0) as usize);
        lemma_available(m, plan, k, input_id(m, k, 1) as usize);
    }
    if !r {
        let k = choose|k: int| 0 <= k < plan.layers@.len() && !#[trigger] plan.layer_resolved(k);
        assert(!reads_available(m, k));
    } else {
        assert forall|k: int| 0 <= k < operator_count(m) implies #[trigger] reads_available(
            m,
            k,
        ) by {
            assert(plan.layer_resolved(k));
        }
    }
}

/// The exponential function is needed for SOFTMAX operators, at the distances, from 0 to
/// -255, times the scale of the input times beta; for no other operator.
pub proof fn law_plan_exponents(m: Model, plan: Plan, k: usize, r: Option<Vec<u32>>)
    requires
        compiled(m, plan),
        k < operator_count(m),
        call_ensures(Plan::exponent_arguments, (&plan, k), r),
    ensures
        r is Some <==> code(m, k as int) == 25,
        r matches Some(v) ==> {
            &&& v@.len() == 256
            &&& operator(m, k as int).options matches Options::Softmax { beta } && forall|d: int|
                0 <= d < 256 ==> single::decode(#[trigger] v@[d]) == Real::from_int(-d).times(
                    single::decode(quant(tensor(m, input_id(m, k as int, 0))).scale),
                ).times(single::decode(beta))
        },
{
    law_interface(m, plan);
    lemma_layer(m, plan, k as int);
}

/// The code of an operator is the short one of its code table, or the long one where the
/// short one is 127.
pub proof fn law_builtin_operator(table: OperatorCode, r: i32)
    requires
        call_ensures(OperatorCode::builtin_operator, (&table,), r),
    ensures
        table.deprecated_builtin_code != 127 ==> r == table.deprecated_builtin_code,
        table.deprecated_builtin_code == 127 ==> r == table.builtin_code,
{
}

/// The codes of activations and padding strategies are read as those of which they are
/// the codes; other codes are refused.
pub proof fn law_option_codes(
    code: i8,
    activation: Result<FusedActivation, ModelError>,
    padding: Result<Padding, ModelError>,
)
    requires
        call_ensures(emit::fused_activation, (code,), activation),
        call_ensures(emit::padding_mode, (code,), padding),
    ensures
        activation is Ok <==> 0 <= code <= 6,
        activation matches Ok(a) ==> activation_code(a) == code,
        activation matches Err(e) ==> e == (ModelError::UnsupportedActivation { activation: code }),
        padding is Ok <==> 0 <= code <= 1,
        padding matches Ok(p) ==> padding_code(p) == code,
        padding matches Err(e) ==> e == (ModelError::UnsupportedPadding { padding: code }),
{
}

} // verus!
