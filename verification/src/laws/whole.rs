//! From the tables of a model of one operator, and the input that it is given, to the
//! output of the reference backend.
use crate::backend::Buffers;
use crate::laws::conv;
use crate::laws::dense;
use crate::laws::depthwise;
use crate::laws::elementwise;
use crate::laws::model;
use crate::laws::pool;
use crate::laws::results;
use crate::laws::runs;
use crate::laws::softmax;
use crate::laws::sums;
use crate::layer::Plan;
use crate::model::{Model, Options};
use crate::params::{
    Conv2dArgs, DepthwiseConv2dArgs, ElementwiseAddArgs, FullyConnectedArgs, PoolArgs, SoftmaxArgs,
};
use crate::predict::State;
use crate::reference::RefBackend;
use crate::single;
use crate::single::Real;
use crate::types::Status;
use vstd::prelude::*;

verus! {

/// The model has one operator, which reads the input of the model and computes its
/// output.
pub open spec fn is_single(m: Model, plan: Plan) -> bool {
    &&& model::compiled(m, plan)
    &&& model::operator_count(m) == 1
    &&& model::input_id(m, 0, 0) == model::model_input_id(m)
    &&& model::output_id(m, 0) == model::model_output_id(m)
}

/// The model can be run on this input and output, and both have the lengths that it
/// needs.
pub open spec fn fits(plan: Plan, backend: RefBackend, input: Seq<i8>, output: Seq<i8>) -> bool {
    &&& input.len() == plan.input_len
    &&& output.len() == plan.output_len
    &&& plan.runnable(input, plan.start(backend, output, Seq::<u8>::empty()))
}

/// The state in which a run of the reference backend starts.
proof fn lemma_start(
    plan: Plan,
    backend: RefBackend,
    input: Seq<i8>,
    output: Seq<i8>,
    state: State<RefBackend>,
)
    requires
        plan.layers@.len() == 1,
        fits(plan, backend, input, output),
        state.backend == backend,
        state.output == output,
        state.scratch.len() == 0,
        state.tensors.len() == plan.tensor_count,
        forall|id: int|
            0 <= id < plan.tensor_count ==> (#[trigger] state.tensors[id]).len() == 0,
    ensures
        state.accepts(plan.layers@[0], input),
{
    let start = plan.start(backend, output, Seq::<u8>::empty());
    assert forall|id: int| 0 <= id < plan.tensor_count implies #[trigger] state.tensors[id]
        == start.tensors[id] by {
        assert(state.tensors[id] =~= Seq::<i8>::empty());
    }
    assert(state.tensors =~= start.tensors);
    assert(state.scratch =~= Seq::<u8>::empty());
    assert(plan.reaches(0, input, start, state));
}

/// The input and the output of the model have one quantization, with a zero point of
/// `i8` and a scale other than zero.
pub open spec fn one_quantization(m: Model) -> bool {
    let q = model::quant(model::tensor(m, model::model_input_id(m)));
    &&& q == model::quant(model::tensor(m, model::model_output_id(m)))
    &&& -128 <= q.zero_point <= 127
    &&& single::decode(q.scale) matches Real::Finite { units, .. } && units > 0
}

/// The code of the activation of a pooling operator.
pub open spec fn pool_activation(m: Model) -> int {
    match model::operator(m, 0).options {
        Options::Pool2d { activation, .. } => activation as int,
        _ => -1,
    }
}

/// The output element at `(b, y, x, c)` is the mean of the inputs under its window,
/// rounded to the nearest integer.
pub open spec fn is_mean(
    a: PoolArgs,
    output: Seq<i8>,
    b: int,
    y: int,
    x: int,
    c: int,
) -> bool {
    let sum = sums::total(
        a.filter_h * a.filter_w,
        |t: int|
            if pool::covered(a, y, x, t) {
                pool::element(a, b, y, x, c, t)
            } else {
                0
            },
    );
    let n = pool::count(a, y, x);
    let r = output[pool::place(a, b, y, x, c)];
    -n <= 2 * (sum - n * r) <= n
}

/// Coordinates of an element of a tensor of these dimensions.
pub open spec fn is_place(dims: [usize; 4], b: int, y: int, x: int, c: int) -> bool {
    0 <= b < dims[0] && 0 <= y < dims[1] && 0 <= x < dims[2] && 0 <= c < dims[3]
}

/// The output element at `(b, y, x, c)` is the largest of the inputs under its window.
pub open spec fn is_maximum(
    a: PoolArgs,
    output: Seq<i8>,
    b: int,
    y: int,
    x: int,
    c: int,
) -> bool {
    pool::is_largest(a, b, y, x, c, output[pool::place(a, b, y, x, c)] as int)
}

/// The output element at `(b, y, x, c)` is the result of its accumulator, and one that
/// the activation permits.
pub open spec fn is_convolved(
    a: Conv2dArgs,
    output: Seq<i8>,
    b: int,
    y: int,
    x: int,
    c: int,
) -> bool {
    let r = output[conv::place(a, b, y, x, c)] as int;
    &&& r == results::finished(
        conv::accumulator(a, b, y, x, c),
        conv::channel_scale(a, c),
        a.activation,
        a.output_quant,
    )
    &&& results::permitted(r, a.activation, a.output_quant)
}

/// The output element at `(b, y, x, c)` is the result of its accumulator, and one that
/// the activation permits.
pub open spec fn is_filtered(
    a: DepthwiseConv2dArgs,
    output: Seq<i8>,
    b: int,
    y: int,
    x: int,
    c: int,
) -> bool {
    let r = output[depthwise::place(a, b, y, x, c)] as int;
    &&& r == results::finished(
        depthwise::accumulator(a, b, y, x, c),
        depthwise::channel_scale(a, c),
        a.activation,
        a.output_quant,
    )
    &&& results::permitted(r, a.activation, a.output_quant)
}

/// Output `c` is the result of its accumulator, and one that the activation permits.
pub open spec fn is_connected(a: FullyConnectedArgs, output: Seq<i8>, c: int) -> bool {
    &&& output[c] == results::finished(
        dense::accumulator(a, c),
        dense::channel_scale(a, c),
        a.activation,
        a.output_quant,
    )
    &&& results::permitted(output[c] as int, a.activation, a.output_quant)
}

/// The output of class `c` in row `b`, whose largest input is `top`, is its exponential over
/// the sum of the exponentials of the row, quantized and limited to `i8`.
pub open spec fn is_probability(
    a: SoftmaxArgs,
    output: Seq<i8>,
    b: int,
    c: int,
    top: int,
) -> bool {
    let level = softmax::exponential(a, b, c, top).over(
        softmax::sum(a, b, a.input_shape[1] as int, top),
    ).over(single::decode(a.output_quant.scale)).rounded() + a.output_quant.zero_point;
    let r = output[b * a.input_shape[1] + c];
    &&& -128 <= level <= 127 ==> r == level
    &&& level > 127 ==> r == 127
    &&& level < -128 ==> r == -128
}

/// Output `i` is the quantized sum of the two inputs, and one that the activation permits.
pub open spec fn is_sum(a: ElementwiseAddArgs, output: Seq<i8>, i: int) -> bool {
    &&& output[i] == elementwise::level(
        elementwise::value(a.input1[i], a.input1_quant).plus(
            elementwise::value(a.input2[i], a.input2_quant),
        ),
        a.activation,
        a.output_quant,
    )
    &&& results::permitted(output[i] as int, a.activation, a.output_quant)
}

/// A model whose only operator is AVERAGE_POOL_2D, on tensors of one quantization and
/// without an activation, gives the rounded means of the inputs under the windows.
pub proof fn law_average_pool_model(
    m: Model,
    plan: Plan,
    backend: &mut RefBackend,
    input: &[i8],
    output: &mut [i8],
    b: int,
    y: int,
    x: int,
    c: int,
)
    requires
        is_single(m, plan),
        model::code(m, 0) == 1,
        one_quantization(m),
        pool_activation(m) == 0,
        fits(plan, *old(backend), input@, old(output)@),
        call_ensures(
            Plan::predict_quantized::<RefBackend>,
            (&plan, backend, input, output),
            Ok(()),
        ),
    ensures
        exists|a: PoolArgs| #[trigger]
            model::is_pool(m, 0, a) && a.input == input@ && (is_place(a.output_shape, b, y, x, c)
                ==> is_mean(a, final(output)@, b, y, x, c)),
{
    model::law_interface(m, plan);
    runs::law_run_without_scratch(plan, backend, input, output, Ok(()));
    let trace = choose|trace: Seq<State<RefBackend>>| #[trigger]
        runs::is_trace(plan, input@, trace, Ok(())) && runs::spans(
            plan,
            trace,
            (*old(backend), old(output)@, Seq::empty()),
            (*final(backend), final(output)@, trace.last().scratch),
        ) && trace.len() == plan.layers@.len() + 1;
    let (first, last) = (trace[0], trace[1]);
    assert(first.steps(plan.layers@[0], input@, last, Ok(())));
    lemma_start(plan, *old(backend), input@, old(output)@, first);
    let a = model::law_average_pool_call(m, plan, 0, input@, first, last, Ok(()));
    if is_place(a.output_shape, b, y, x, c) {
        let found = Buffers { output: first.output, scratch: Seq::empty() };
        let left = Buffers { output: last.output, scratch: Seq::empty() };
        pool::law_avg_pool_averages(first.backend, a, found, last.backend, left, b, y, x, c);
    }
}

/// A model whose only operator is MAX_POOL_2D, on tensors of one quantization and without
/// an activation, gives the largest inputs under the windows.
pub proof fn law_max_pool_model(
    m: Model,
    plan: Plan,
    backend: &mut RefBackend,
    input: &[i8],
    output: &mut [i8],
    b: int,
    y: int,
    x: int,
    c: int,
)
    requires
        is_single(m, plan),
        model::code(m, 0) == 17,
        one_quantization(m),
        pool_activation(m) == 0,
        fits(plan, *old(backend), input@, old(output)@),
        call_ensures(
            Plan::predict_quantized::<RefBackend>,
            (&plan, backend, input, output),
            Ok(()),
        ),
    ensures
        exists|a: PoolArgs| #[trigger]
            model::is_pool(m, 0, a) && a.input == input@ && (is_place(a.output_shape, b, y, x, c)
                ==> is_maximum(a, final(output)@, b, y, x, c)),
{
    model::law_interface(m, plan);
    runs::law_run_without_scratch(plan, backend, input, output, Ok(()));
    let trace = choose|trace: Seq<State<RefBackend>>| #[trigger]
        runs::is_trace(plan, input@, trace, Ok(())) && runs::spans(
            plan,
            trace,
            (*old(backend), old(output)@, Seq::empty()),
            (*final(backend), final(output)@, trace.last().scratch),
        ) && trace.len() == plan.layers@.len() + 1;
    let (first, last) = (trace[0], trace[1]);
    assert(first.steps(plan.layers@[0], input@, last, Ok(())));
    lemma_start(plan, *old(backend), input@, old(output)@, first);
    let a = model::law_max_pool_call(m, plan, 0, input@, first, last, Ok(()));
    if is_place(a.output_shape, b, y, x, c) {
        let found = Buffers { output: first.output, scratch: Seq::empty() };
        let left = Buffers { output: last.output, scratch: Seq::empty() };
        pool::law_max_pool_selects(first.backend, a, found, last.backend, left, b, y, x, c);
    }
}

/// A model whose only operator is CONV_2D gives, for every output element, the bias from
/// the third tensor of the operator plus the products of the weights and the inputs that
/// they meet, scaled to the output and limited to the range of the activation.
pub proof fn law_conv2d_model(
    m: Model,
    plan: Plan,
    backend: &mut RefBackend,
    input: &[i8],
    output: &mut [i8],
    b: int,
    y: int,
    x: int,
    c: int,
)
    requires
        is_single(m, plan),
        model::code(m, 0) == 3,
        fits(plan, *old(backend), input@, old(output)@),
        call_ensures(
            Plan::predict_quantized::<RefBackend>,
            (&plan, backend, input, output),
            Ok(()),
        ),
    ensures
        exists|a: Conv2dArgs| #[trigger]
            model::is_conv2d(m, 0, a) && a.input == input@ && (is_place(a.output_shape, b, y, x, c)
                ==> is_convolved(a, final(output)@, b, y, x, c)),
{
    model::law_interface(m, plan);
    runs::law_run_without_scratch(plan, backend, input, output, Ok(()));
    let trace = choose|trace: Seq<State<RefBackend>>| #[trigger]
        runs::is_trace(plan, input@, trace, Ok(())) && runs::spans(
            plan,
            trace,
            (*old(backend), old(output)@, Seq::empty()),
            (*final(backend), final(output)@, trace.last().scratch),
        ) && trace.len() == plan.layers@.len() + 1;
    let (first, last) = (trace[0], trace[1]);
    assert(first.steps(plan.layers@[0], input@, last, Ok(())));
    lemma_start(plan, *old(backend), input@, old(output)@, first);
    let a = model::law_conv2d_call(m, plan, 0, input@, first, last, Ok(()));
    if is_place(a.output_shape, b, y, x, c) {
        let found = Buffers { output: first.output, scratch: first.scratch };
        let left = Buffers { output: last.output, scratch: last.scratch };
        conv::law_conv2d(first.backend, a, found, last.backend, left, b, y, x, c);
    }
}

/// A model whose only operator is DEPTHWISE_CONV_2D gives, for every output element, the
/// bias from the third tensor of the operator plus the products of the weights of its
/// channel and the inputs under them, scaled to the output and limited to the range of
/// the activation.
pub proof fn law_depthwise_conv2d_model(
    m: Model,
    plan: Plan,
    backend: &mut RefBackend,
    input: &[i8],
    output: &mut [i8],
    b: int,
    y: int,
    x: int,
    c: int,
)
    requires
        is_single(m, plan),
        model::code(m, 0) == 4,
        fits(plan, *old(backend), input@, old(output)@),
        call_ensures(
            Plan::predict_quantized::<RefBackend>,
            (&plan, backend, input, output),
            Ok(()),
        ),
    ensures
        exists|a: DepthwiseConv2dArgs| #[trigger]
            model::is_depthwise_conv2d(m, 0, a) && a.input == input@ && (is_place(
                a.output_shape,
                b,
                y,
                x,
                c,
            ) ==> is_filtered(a, final(output)@, b, y, x, c)),
{
    model::law_interface(m, plan);
    runs::law_run_without_scratch(plan, backend, input, output, Ok(()));
    let trace = choose|trace: Seq<State<RefBackend>>| #[trigger]
        runs::is_trace(plan, input@, trace, Ok(())) && runs::spans(
            plan,
            trace,
            (*old(backend), old(output)@, Seq::empty()),
            (*final(backend), final(output)@, trace.last().scratch),
        ) && trace.len() == plan.layers@.len() + 1;
    let (first, last) = (trace[0], trace[1]);
    assert(first.steps(plan.layers@[0], input@, last, Ok(())));
    lemma_start(plan, *old(backend), input@, old(output)@, first);
    let a = model::law_depthwise_conv2d_call(m, plan, 0, input@, first, last, Ok(()));
    if is_place(a.output_shape, b, y, x, c) {
        let found = Buffers { output: first.output, scratch: first.scratch };
        let left = Buffers { output: last.output, scratch: last.scratch };
        depthwise::law_depthwise_conv2d(first.backend, a, found, last.backend, left, b, y, x, c);
    }
}

/// A model whose only operator is FULLY_CONNECTED gives, for every output, the bias from
/// the third tensor of the operator plus the products of its weights and the inputs,
/// scaled to the output and limited to the range of the activation.
pub proof fn law_fully_connected_model(
    m: Model,
    plan: Plan,
    backend: &mut RefBackend,
    input: &[i8],
    output: &mut [i8],
    c: int,
)
    requires
        is_single(m, plan),
        model::code(m, 0) == 9,
        fits(plan, *old(backend), input@, old(output)@),
        call_ensures(
            Plan::predict_quantized::<RefBackend>,
            (&plan, backend, input, output),
            Ok(()),
        ),
    ensures
        exists|a: FullyConnectedArgs| #[trigger]
            model::is_fully_connected(m, 0, a) && a.input == input@ && (0 <= c
                < final(output)@.len() ==> is_connected(a, final(output)@, c)),
{
    model::law_interface(m, plan);
    runs::law_run_without_scratch(plan, backend, input, output, Ok(()));
    let trace = choose|trace: Seq<State<RefBackend>>| #[trigger]
        runs::is_trace(plan, input@, trace, Ok(())) && runs::spans(
            plan,
            trace,
            (*old(backend), old(output)@, Seq::empty()),
            (*final(backend), final(output)@, trace.last().scratch),
        ) && trace.len() == plan.layers@.len() + 1;
    let (first, last) = (trace[0], trace[1]);
    assert(first.steps(plan.layers@[0], input@, last, Ok(())));
    lemma_start(plan, *old(backend), input@, old(output)@, first);
    let a = model::law_fully_connected_call(m, plan, 0, input@, first, last, Ok(()));
    if 0 <= c < final(output)@.len() {
        let found = Buffers { output: first.output, scratch: Seq::empty() };
        let left = Buffers { output: last.output, scratch: Seq::empty() };
        dense::law_fully_connected(first.backend, a, found, last.backend, left, c);
    }
}

/// A model whose only operator is ADD, of the input of the model to itself, gives twice
/// the value of every input, quantized and limited to the range of the activation.
pub proof fn law_add_model(
    m: Model,
    plan: Plan,
    backend: &mut RefBackend,
    input: &[i8],
    output: &mut [i8],
    i: int,
)
    requires
        is_single(m, plan),
        model::code(m, 0) == 0,
        model::input_id(m, 0, 1) == model::model_input_id(m),
        fits(plan, *old(backend), input@, old(output)@),
        call_ensures(
            Plan::predict_quantized::<RefBackend>,
            (&plan, backend, input, output),
            Ok(()),
        ),
    ensures
        exists|a: ElementwiseAddArgs| #[trigger]
            model::is_add(m, 0, a) && a.input1 == input@ && a.input2 == input@ && (0 <= i
                < final(output)@.len() ==> is_sum(a, final(output)@, i)),
{
    model::law_interface(m, plan);
    runs::law_run_without_scratch(plan, backend, input, output, Ok(()));
    let trace = choose|trace: Seq<State<RefBackend>>| #[trigger]
        runs::is_trace(plan, input@, trace, Ok(())) && runs::spans(
            plan,
            trace,
            (*old(backend), old(output)@, Seq::empty()),
            (*final(backend), final(output)@, trace.last().scratch),
        ) && trace.len() == plan.layers@.len() + 1;
    let (first, last) = (trace[0], trace[1]);
    assert(first.steps(plan.layers@[0], input@, last, Ok(())));
    lemma_start(plan, *old(backend), input@, old(output)@, first);
    let a = model::law_add_call(m, plan, 0, input@, first, last, Ok(()));
    if 0 <= i < final(output)@.len() {
        let found = Buffers { output: first.output, scratch: Seq::empty() };
        let left = Buffers { output: last.output, scratch: Seq::empty() };
        elementwise::law_add(first.backend, a, found, last.backend, left, i);
    }
}

/// A model whose only operator is SOFTMAX gives, for every class of every row, its
/// exponential over the sum of the exponentials of the row, quantized. The exponentials
/// are those that were put into the plan.
pub proof fn law_softmax_model(
    m: Model,
    plan: Plan,
    backend: &mut RefBackend,
    input: &[i8],
    output: &mut [i8],
    b: int,
    c: int,
    top: int,
)
    requires
        is_single(m, plan),
        model::code(m, 0) == 25,
        fits(plan, *old(backend), input@, old(output)@),
        call_ensures(
            Plan::predict_quantized::<RefBackend>,
            (&plan, backend, input, output),
            Ok(()),
        ),
    ensures
        exists|a: SoftmaxArgs| #[trigger]
            model::is_softmax(m, 0, a) && a.input == input@ && a.exponentials
                == plan.layers@[0]->Softmax_0.exponentials@ && (softmax::is_class(a, b, c, top)
                ==> is_probability(a, final(output)@, b, c, top)),
{
    model::law_interface(m, plan);
    runs::law_run_without_scratch(plan, backend, input, output, Ok(()));
    let trace = choose|trace: Seq<State<RefBackend>>| #[trigger]
        runs::is_trace(plan, input@, trace, Ok(())) && runs::spans(
            plan,
            trace,
            (*old(backend), old(output)@, Seq::empty()),
            (*final(backend), final(output)@, trace.last().scratch),
        ) && trace.len() == plan.layers@.len() + 1;
    let (first, last) = (trace[0], trace[1]);
    assert(first.steps(plan.layers@[0], input@, last, Ok(())));
    lemma_start(plan, *old(backend), input@, old(output)@, first);
    let a = model::law_softmax_call(m, plan, 0, input@, first, last, Ok(()));
    if softmax::is_class(a, b, c, top) {
        let found = Buffers { output: first.output, scratch: first.scratch };
        let left = Buffers { output: last.output, scratch: last.scratch };
        softmax::law_softmax(first.backend, a, found, last.backend, left, b, c, top);
    }
}

/// A model whose only operator is RESHAPE gives its input.
pub proof fn law_reshape_model(
    m: Model,
    plan: Plan,
    backend: &mut RefBackend,
    input: &[i8],
    output: &mut [i8],
    r: Status,
)
    requires
        is_single(m, plan),
        model::code(m, 0) == 22,
        input@.len() == plan.input_len,
        old(output)@.len() == plan.output_len,
        call_ensures(Plan::predict_quantized::<RefBackend>, (&plan, backend, input, output), r),
    ensures
        r is Ok,
        final(output)@ == input@,
{
    model::law_interface(m, plan);
    runs::law_run_without_scratch(plan, backend, input, output, r);
    let trace = choose|trace: Seq<State<RefBackend>>| #[trigger]
        runs::is_trace(plan, input@, trace, r) && runs::spans(
            plan,
            trace,
            (*old(backend), old(output)@, Seq::empty()),
            (*final(backend), final(output)@, trace.last().scratch),
        ) && trace.len() == plan.layers@.len() + 1;
    assert(trace[0].steps(plan.layers@[0], input@, trace[1], r));
    model::law_reshape_copies(m, plan, 0, input@, trace[0], trace[1], r);
}

} // verus!
