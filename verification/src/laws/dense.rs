//! Fully-connected layers on raw buffers.
use crate::backend::{Buffers, KernelBackend, Operation};
use crate::laws::domain;
use crate::laws::results;
use crate::laws::sums;
use crate::params::FullyConnectedArgs;
use crate::quantize;
use crate::reference::RefBackend;
use crate::single;
use crate::single::Real;
use crate::types::{KernelError, Status};
use vstd::prelude::*;

verus! {

/// Input `i` times its weight for output `c`, each relative to its zero point.
pub open spec fn term(a: FullyConnectedArgs, c: int, i: int) -> int {
    (a.input[i] - a.input_quant.zero_point) * (a.weights[c * a.input.len() + i]
        - a.weights_quant.zero_point)
}

/// The bias of an output; 0 where there is none.
pub open spec fn start(a: FullyConnectedArgs, c: int) -> int {
    match a.bias {
        Some(bias) => bias[c] as int,
        None => 0,
    }
}

/// The accumulator of an output: the bias, to which the products of all inputs are
/// added, saturating at 32 bits.
pub open spec fn accumulator(a: FullyConnectedArgs, c: int) -> int {
    sums::running(0, a.input.len() as int, |i: int| term(a, c, i), start(a, c))
}

/// The scale of an output: that of the input times that of the weights over that of the
/// output; a scale of the channel's own comes before that of the weight tensor.
pub open spec fn channel_scale(a: FullyConnectedArgs, c: int) -> Real {
    let own = match a.channel_scales {
        Some(scales) => if c < scales.len() {
            single::decode(scales[c])
        } else {
            single::decode(a.weights_quant.scale)
        },
        None => single::decode(a.weights_quant.scale),
    };
    single::decode(a.input_quant.scale).times(own).over(single::decode(a.output_quant.scale))
}

proof fn lemma_inputs(a: FullyConnectedArgs, c: int, n: int)
    requires
        a.valid(),
        0 <= n <= a.input.len(),
    ensures
        a.over_inputs(c, n) == sums::running(0, n, |i: int| term(a, c, i), start(a, c)),
    decreases n,
{
    if n > 0 {
        lemma_inputs(a, c, n - 1);
    }
}

/// A fully-connected layer that succeeds writes, for every output, its bias plus the dot
/// product of the inputs and its row of weights, each relative to its zero point, scaled
/// to the output and limited to the range of the activation.
pub proof fn law_fully_connected(
    before: RefBackend,
    a: FullyConnectedArgs,
    buffers: Buffers,
    after: RefBackend,
    written: Buffers,
    c: int,
)
    requires
        before.accepts(Operation::FullyConnected(a), buffers),
        RefBackend::performs(before, Operation::FullyConnected(a), buffers, after, written, Ok(())),
        0 <= c < a.output_len,
    ensures
        written.output.len() == a.output_len,
        written.output[c] == results::finished(
            accumulator(a, c),
            channel_scale(a, c),
            a.activation,
            a.output_quant,
        ),
        results::permitted(written.output[c] as int, a.activation, a.output_quant),
{
    assert(a.element_defined(c));
    lemma_inputs(a, c, a.input.len() as int);
    results::lemma_activation_range(
        quantize::requantized(
            a.accumulated(c),
            quantize::real_multiplier(a.scale(c)),
            a.output_quant.zero_point as int,
        ),
        a.activation,
        a.output_quant,
    );
}

/// A fully-connected layer succeeds exactly where the weights are a matrix of one row
/// for each output and one column for each input, the output has the stated depth, and
/// the bias has one element for each output. Otherwise the shapes are refused and
/// nothing is written.
pub proof fn law_fully_connected_status(
    before: RefBackend,
    a: FullyConnectedArgs,
    buffers: Buffers,
    after: RefBackend,
    written: Buffers,
    status: Status,
)
    requires
        RefBackend::performs(
            before,
            Operation::FullyConnected(a),
            buffers,
            after,
            written,
            status,
        ),
    ensures
        status is Ok <==> {
            &&& a.output_len == a.output_depth
            &&& a.weights_shape[0] == a.output_depth
            &&& a.weights_shape[1] == a.input.len()
            &&& a.weights.len() == a.weights_shape[0] * a.weights_shape[1]
            &&& a.bias is Some ==> a.bias->0.len() == a.output_depth
        },
        status is Err ==> status == Err::<(), KernelError>(KernelError::InvalidShape)
            && written.output == buffers.output,
{
}

/// Only the distances from the zero points count: the output is the same when inputs and
/// input zero point are moved by `k`, and weights and weight zero point by `m`.
pub proof fn law_fully_connected_zero_points(
    backend: RefBackend,
    a: FullyConnectedArgs,
    moved: FullyConnectedArgs,
    k: int,
    m: int,
    buffers: Buffers,
    after: RefBackend,
    written: Buffers,
    moved_after: RefBackend,
    moved_written: Buffers,
)
    requires
        moved == (FullyConnectedArgs {
            input: moved.input,
            weights: moved.weights,
            input_quant: moved.input_quant,
            weights_quant: moved.weights_quant,
            ..a
        }),
        moved.input.len() == a.input.len(),
        moved.weights.len() == a.weights.len(),
        moved.input_quant.scale == a.input_quant.scale,
        moved.weights_quant.scale == a.weights_quant.scale,
        moved.input_quant.zero_point == a.input_quant.zero_point + k,
        moved.weights_quant.zero_point == a.weights_quant.zero_point + m,
        forall|i: int| 0 <= i < a.input.len() ==> #[trigger] moved.input[i] == a.input[i] + k,
        forall|i: int| 0 <= i < a.weights.len() ==> #[trigger] moved.weights[i] == a.weights[i] + m,
        backend.accepts(Operation::FullyConnected(a), buffers),
        backend.accepts(Operation::FullyConnected(moved), buffers),
        RefBackend::performs(
            backend,
            Operation::FullyConnected(a),
            buffers,
            after,
            written,
            Ok(()),
        ),
        RefBackend::performs(
            backend,
            Operation::FullyConnected(moved),
            buffers,
            moved_after,
            moved_written,
            Ok(()),
        ),
    ensures
        moved_written.output == written.output,
{
    assert forall|c: int| 0 <= c < a.output_len implies moved_written.output[c]
        == #[trigger] written.output[c] by {
        law_fully_connected(backend, a, buffers, after, written, c);
        law_fully_connected(backend, moved, buffers, moved_after, moved_written, c);
        let f = |i: int| term(a, c, i);
        let g = |i: int| term(moved, c, i);
        let n = a.input.len() as int;
        assert forall|i: int| 0 <= i < n implies #[trigger] f(i) == g(i) by {
            assert(0 <= c * n && c * n + i < a.weights.len()) by (nonlinear_arith)
                requires
                    0 <= i < n,
                    0 <= c < a.weights_shape[0],
                    a.weights.len() == a.weights_shape[0] * n,
            ;
        }
        sums::lemma_running_same(0, n, f, g, start(a, c));
    }
    assert(moved_written.output =~= written.output);
}

/// The reference backend accepts every fully-connected layer whose zero points are of
/// `i8`, whose scales are small and whose activation has a range.
pub proof fn law_fully_connected_accepted(
    backend: RefBackend,
    a: FullyConnectedArgs,
    buffers: Buffers,
)
    requires
        a.weights_shape[0] * a.weights_shape[1] <= 0xffff_ffff,
        domain::has_byte_zero(a.input_quant),
        domain::has_byte_zero(a.weights_quant),
        domain::has_byte_zero(a.output_quant),
        domain::has_range(a.activation, a.output_quant),
        forall|c: int| 0 <= c < a.output_depth ==> domain::is_small(#[trigger] channel_scale(a, c)),
    ensures
        backend.accepts(Operation::FullyConnected(a), buffers),
{
    if a.valid() {
        assert forall|c: int| 0 <= c < a.output_len implies #[trigger] a.element_defined(c) by {
            lemma_inputs(a, c, a.input.len() as int);
            sums::lemma_running_in_range(
                0,
                a.input.len() as int,
                |i: int| term(a, c, i),
                start(a, c),
            );
            assert(domain::is_small(channel_scale(a, c)));
            domain::lemma_small(accumulator(a, c), channel_scale(a, c), a.output_quant);
            domain::lemma_range(a.activation, a.output_quant);
        }
    }
}

} // verus!
