//! Convolution on raw buffers.
use crate::backend::{Buffers, KernelBackend, Operation};
use crate::laws::domain;
use crate::laws::results;
use crate::laws::sums;
use crate::laws::windows;
use crate::params::Conv2dArgs;
use crate::quantize;
use crate::reference::RefBackend;
use crate::shape;
use crate::shape::Cell;
use crate::single;
use crate::single::Real;
use crate::types::{KernelError, Status};
use vstd::arithmetic::mul::*;
use vstd::prelude::*;

verus! {

/// The row of the input that weight `t` of a filter meets in output row `y`.
pub open spec fn input_row(a: Conv2dArgs, y: int, t: int) -> int {
    windows::tap_position(
        a.input_shape[1] as int,
        a.weights_shape[1] as int,
        a.stride_h as int,
        a.dilation_h_factor as int,
        a.padding,
        y,
        t / a.input_shape[3] as int / a.weights_shape[2] as int,
    )
}

/// The column of the input that weight `t` of a filter meets in output column `x`.
pub open spec fn input_column(a: Conv2dArgs, x: int, t: int) -> int {
    windows::tap_position(
        a.input_shape[2] as int,
        a.weights_shape[2] as int,
        a.stride_w as int,
        a.dilation_w_factor as int,
        a.padding,
        x,
        t / a.input_shape[3] as int % a.weights_shape[2] as int,
    )
}

/// Number of weights of the filter of one output channel.
pub open spec fn filter_len(a: Conv2dArgs) -> int {
    a.weights_shape[1] * a.weights_shape[2] * a.input_shape[3]
}

/// Weight `t` of the filter of channel `c`, times the input that it meets at `(y, x)`,
/// each relative to its zero point; 0 where it meets padding.
pub open spec fn term(a: Conv2dArgs, b: int, y: int, x: int, c: int, t: int) -> int {
    let row = input_row(a, y, t);
    let column = input_column(a, x, t);
    let height = a.input_shape[1] as int;
    let width = a.input_shape[2] as int;
    let depth = a.input_shape[3] as int;
    if 0 <= row < height && 0 <= column < width {
        (a.input[((b * height + row) * width + column) * depth + t % depth]
            - a.input_quant.zero_point) * (a.weights[c * filter_len(a) + t]
            - a.weights_quant.zero_point)
    } else {
        0
    }
}

/// The bias of a channel; 0 where there is none.
pub open spec fn start(a: Conv2dArgs, c: int) -> int {
    match a.bias {
        Some(bias) => bias[c] as int,
        None => 0,
    }
}

/// The accumulator of an output element: the bias, to which the products of all weights
/// of the filter are added, saturating at 32 bits.
pub open spec fn accumulator(a: Conv2dArgs, b: int, y: int, x: int, c: int) -> int {
    sums::running(0, filter_len(a), |t: int| term(a, b, y, x, c, t), start(a, c))
}

/// The scale of a channel: that of the input times that of the weights over that of the
/// output; a scale of the channel's own comes before that of the weight tensor.
pub open spec fn channel_scale(a: Conv2dArgs, c: int) -> Real {
    let own = match a.channel_scales {
        Some(scales) => if c < scales.len() {
            single::decode(scales[c])
        } else {
            single::decode(a.weights_quant.scale)
        },
        None => single::decode(a.weights_quant.scale),
    };
    single::decode(a.input_quant.scale).times(own).over(single::decode(a.output_quant.scale))
}

/// The place of an output element in the output buffer.
pub open spec fn place(a: Conv2dArgs, b: int, y: int, x: int, c: int) -> int {
    ((b * a.output_shape[1] + y) * a.output_shape[2] + x) * a.output_shape[3] + c
}

proof fn lemma_term(a: Conv2dArgs, cell: Cell, fy: int, fx: int, ic: int)
    requires
        a.valid(),
        a.geometry_defined(),
        0 <= fy < a.weights_shape[1],
        0 <= fx < a.weights_shape[2],
        0 <= ic < a.input_shape[3],
    ensures
        ({
            let t = (fy * a.weights_shape[2] + fx) * a.input_shape[3] + ic;
            term(a, cell.batch, cell.y, cell.x, cell.channel, t) == match (
                a.rows().source(cell.y, fy),
                a.columns().source(cell.x, fx),
            ) {
                (Some(y), Some(x)) => a.product(cell, fy, fx, y, x, ic),
                _ => 0,
            }
        }),
{
    let kw = a.weights_shape[2] as int;
    let depth = a.input_shape[3] as int;
    let tap = fy * kw + fx;
    lemma_mul_nonnegative(fy, kw);
    windows::lemma_flat(fy, fx, kw);
    windows::lemma_flat(tap, ic, depth);
    windows::lemma_tap(
        a.input_shape[1],
        a.weights_shape[1] as int,
        a.stride_h as int,
        a.dilation_h_factor as int,
        a.padding,
        cell.y,
        fy,
    );
    windows::lemma_tap(
        a.input_shape[2],
        kw,
        a.stride_w as int,
        a.dilation_w_factor as int,
        a.padding,
        cell.x,
        fx,
    );
    let kh = a.weights_shape[1] as int;
    let c = cell.channel;
    assert(c * (kh * kw * depth) + ((fy * kw + fx) * depth + ic) == ((c * kh + fy) * kw + fx)
        * depth + ic) by (nonlinear_arith);
}

proof fn lemma_channels(
    a: Conv2dArgs,
    cell: Cell,
    fy: int,
    fx: int,
    y: int,
    x: int,
    n: int,
    acc: int,
)
    requires
        a.valid(),
        a.geometry_defined(),
        0 <= fy < a.weights_shape[1],
        0 <= fx < a.weights_shape[2],
        a.rows().source(cell.y, fy) == Some(y),
        a.columns().source(cell.x, fx) == Some(x),
        0 <= n <= a.input_shape[3],
    ensures
        ({
            let first = (fy * a.weights_shape[2] + fx) * a.input_shape[3];
            a.over_channels(cell, fy, fx, y, x, n, acc) == sums::running(
                first,
                first + n,
                |t: int| term(a, cell.batch, cell.y, cell.x, cell.channel, t),
                acc,
            )
        }),
    decreases n,
{
    if n > 0 {
        lemma_channels(a, cell, fy, fx, y, x, n - 1, acc);
        lemma_term(a, cell, fy, fx, n - 1);
    }
}

proof fn lemma_columns(a: Conv2dArgs, cell: Cell, fy: int, y: int, n: int, acc: int)
    requires
        a.valid(),
        a.geometry_defined(),
        0 <= fy < a.weights_shape[1],
        a.rows().source(cell.y, fy) == Some(y),
        0 <= n <= a.weights_shape[2],
        quantize::fits_i32(acc),
    ensures
        ({
            let f = |t: int| term(a, cell.batch, cell.y, cell.x, cell.channel, t);
            let first = (fy * a.weights_shape[2]) * a.input_shape[3];
            let last = (fy * a.weights_shape[2] + n) * a.input_shape[3];
            &&& first <= last
            &&& a.over_columns(cell, fy, y, n, acc) == sums::running(first, last, f, acc)
            &&& quantize::fits_i32(sums::running(first, last, f, acc))
        }),
    decreases n,
{
    let f = |t: int| term(a, cell.batch, cell.y, cell.x, cell.channel, t);
    let kw = a.weights_shape[2] as int;
    let depth = a.input_shape[3] as int;
    let first = (fy * kw) * depth;
    if n > 0 {
        lemma_columns(a, cell, fy, y, n - 1, acc);
        let middle = (fy * kw + (n - 1)) * depth;
        let last = (fy * kw + n) * depth;
        assert(last == middle + depth) by (nonlinear_arith)
            requires
                last == (fy * kw + n) * depth,
                middle == (fy * kw + (n - 1)) * depth,
        ;
        let before = sums::running(first, middle, f, acc);
        sums::lemma_running_split(first, middle, last, f, acc);
        sums::lemma_running_in_range(first, last, f, acc);
        match a.columns().source(cell.x, n - 1) {
            Some(x) => {
                lemma_channels(a, cell, fy, n - 1, y, x, depth, before);
            },
            None => {
                assert forall|t: int| middle <= t < last implies #[trigger] f(t) == 0 by {
                    lemma_term(a, cell, fy, n - 1, t - middle);
                }
                sums::lemma_running_zero(middle, last, f, before);
            },
        }
    }
}

proof fn lemma_rows(a: Conv2dArgs, cell: Cell, n: int)
    requires
        a.valid(),
        a.geometry_defined(),
        shape::cell_within(cell, a.output_shape@),
        0 <= n <= a.weights_shape[1],
    ensures
        ({
            let f = |t: int| term(a, cell.batch, cell.y, cell.x, cell.channel, t);
            let last = (n * a.weights_shape[2]) * a.input_shape[3];
            &&& 0 <= last
            &&& a.over_rows(cell, n) == sums::running(0, last, f, start(a, cell.channel))
            &&& quantize::fits_i32(a.over_rows(cell, n))
        }),
    decreases n,
{
    let f = |t: int| term(a, cell.batch, cell.y, cell.x, cell.channel, t);
    let kw = a.weights_shape[2] as int;
    let depth = a.input_shape[3] as int;
    let bias = start(a, cell.channel);
    if n <= 0 {
        assert((0 * kw) * depth == 0) by (nonlinear_arith);
    } else {
        lemma_rows(a, cell, n - 1);
        let middle = ((n - 1) * kw) * depth;
        let last = (n * kw) * depth;
        assert(last == ((n - 1) * kw + kw) * depth && middle <= last) by (nonlinear_arith)
            requires
                last == (n * kw) * depth,
                middle == ((n - 1) * kw) * depth,
                kw >= 0,
                depth >= 0,
        ;
        let before = sums::running(0, middle, f, bias);
        sums::lemma_running_split(0, middle, last, f, bias);
        match a.rows().source(cell.y, n - 1) {
            Some(y) => {
                lemma_columns(a, cell, n - 1, y, kw, before);
            },
            None => {
                assert forall|t: int| middle <= t < last implies #[trigger] f(t) == 0 by {
                    lemma_parts(middle, t, n - 1, kw, depth);
                    lemma_term(a, cell, n - 1, (t - middle) / depth, (t - middle) % depth);
                }
                sums::lemma_running_zero(middle, last, f, before);
            },
        }
    }
}

/// The parts of a flat index within row `fy` of a filter.
proof fn lemma_parts(first: int, t: int, fy: int, kw: int, depth: int)
    requires
        first == (fy * kw) * depth,
        first <= t < (fy * kw + kw) * depth,
        depth >= 0,
    ensures
        depth > 0,
        0 <= (t - first) / depth < kw,
        0 <= (t - first) % depth < depth,
        t == (fy * kw + (t - first) / depth) * depth + (t - first) % depth,
{
    let d = t - first;
    assert((fy * kw + kw) * depth == first + kw * depth) by (nonlinear_arith)
        requires
            first == (fy * kw) * depth,
    ;
    assert(depth > 0) by (nonlinear_arith)
        requires
            0 <= d < kw * depth,
            depth >= 0,
    ;
    vstd::arithmetic::div_mod::lemma_fundamental_div_mod(d, depth);
    vstd::arithmetic::div_mod::lemma_mod_bound(d, depth);
    vstd::arithmetic::div_mod::lemma_div_pos_is_pos(d, depth);
    let q = d / depth;
    assert(q < kw) by (nonlinear_arith)
        requires
            d == depth * q + d % depth,
            0 <= d % depth,
            d < kw * depth,
            depth > 0,
    ;
    assert((fy * kw + q) * depth == first + depth * q) by (nonlinear_arith)
        requires
            first == (fy * kw) * depth,
    ;
}

/// A convolution that succeeds writes, at the place of every output element, the bias of
/// its channel plus the sum of the products of the filter's weights and the inputs that
/// they meet, each relative to its zero point, scaled to the output and limited to the
/// range of the activation.
pub proof fn law_conv2d(
    before: RefBackend,
    a: Conv2dArgs,
    buffers: Buffers,
    after: RefBackend,
    written: Buffers,
    b: int,
    y: int,
    x: int,
    c: int,
)
    requires
        before.accepts(Operation::Conv2d(a), buffers),
        RefBackend::performs(before, Operation::Conv2d(a), buffers, after, written, Ok(())),
        0 <= b < a.output_shape[0],
        0 <= y < a.output_shape[1],
        0 <= x < a.output_shape[2],
        0 <= c < a.output_shape[3],
    ensures
        0 <= place(a, b, y, x, c) < written.output.len(),
        written.output[place(a, b, y, x, c)] == results::finished(
            accumulator(a, b, y, x, c),
            channel_scale(a, c),
            a.activation,
            a.output_quant,
        ),
        results::permitted(
            written.output[place(a, b, y, x, c)] as int,
            a.activation,
            a.output_quant,
        ),
        written.scratch == buffers.scratch,
{
    let cell = Cell { batch: b, y, x, channel: c };
    shape::lemma_index_at_cell(a.output_shape@, cell);
    let i = place(a, b, y, x, c);
    assert(shape::cell_at(a.output_shape@, i) == cell);
    assert(a.element_defined(shape::cell_at(a.output_shape@, i)));
    lemma_rows(a, cell, a.weights_shape[1] as int);
    results::lemma_activation_range(
        quantize::requantized(
            a.accumulated(cell),
            quantize::real_multiplier(a.scale(c)),
            a.output_quant.zero_point as int,
        ),
        a.activation,
        a.output_quant,
    );
}

/// A convolution succeeds exactly where the buffers have as many elements as their
/// shapes state, batches and channels agree, the bias has one element for each output
/// channel, and strides and dilations are positive. Otherwise the shapes are refused and
/// nothing is written.
pub proof fn law_conv2d_status(
    before: RefBackend,
    a: Conv2dArgs,
    buffers: Buffers,
    after: RefBackend,
    written: Buffers,
    status: Status,
)
    requires
        RefBackend::performs(before, Operation::Conv2d(a), buffers, after, written, status),
    ensures
        status is Ok <==> {
            &&& a.input.len() == a.input_shape[0] * a.input_shape[1] * a.input_shape[2]
                * a.input_shape[3]
            &&& a.weights.len() == a.weights_shape[0] * a.weights_shape[1] * a.weights_shape[2]
                * a.weights_shape[3]
            &&& a.output_len == a.output_shape[0] * a.output_shape[1] * a.output_shape[2]
                * a.output_shape[3]
            &&& a.output_shape[0] == a.input_shape[0]
            &&& a.output_shape[3] == a.weights_shape[0]
            &&& a.weights_shape[3] == a.input_shape[3]
            &&& a.bias is Some ==> a.bias->0.len() == a.output_shape[3]
            &&& a.stride_w > 0 && a.stride_h > 0
            &&& a.dilation_w_factor > 0 && a.dilation_h_factor > 0
        },
        status is Err ==> status == Err::<(), KernelError>(KernelError::InvalidShape)
            && written.output == buffers.output,
        written.scratch == buffers.scratch,
{
    shape::lemma_product4(a.input_shape@);
    shape::lemma_product4(a.weights_shape@);
    shape::lemma_product4(a.output_shape@);
}

/// `moved` is `a` with `k` added to every input and to the input's zero point, and `m`
/// added to every weight and to the weights' zero point.
pub open spec fn moved_zero_points(a: Conv2dArgs, moved: Conv2dArgs, k: int, m: int) -> bool {
    &&& moved == (Conv2dArgs {
        input: moved.input,
        weights: moved.weights,
        input_quant: moved.input_quant,
        weights_quant: moved.weights_quant,
        ..a
    })
    &&& moved.input.len() == a.input.len()
    &&& moved.weights.len() == a.weights.len()
    &&& moved.input_quant.scale == a.input_quant.scale
    &&& moved.weights_quant.scale == a.weights_quant.scale
    &&& moved.input_quant.zero_point == a.input_quant.zero_point + k
    &&& moved.weights_quant.zero_point == a.weights_quant.zero_point + m
    &&& forall|i: int| 0 <= i < a.input.len() ==> #[trigger] moved.input[i] == a.input[i] + k
    &&& forall|i: int| 0 <= i < a.weights.len() ==> #[trigger] moved.weights[i] == a.weights[i] + m
}

proof fn lemma_places(a: Conv2dArgs, b: int, y: int, x: int, c: int, t: int)
    requires
        a.valid(),
        0 <= b < a.output_shape[0],
        0 <= c < a.output_shape[3],
        0 <= t < filter_len(a),
    ensures
        0 <= c * filter_len(a) + t < a.weights.len(),
        0 <= input_row(a, y, t) < a.input_shape[1] && 0 <= input_column(a, x, t) < a.input_shape[2]
            ==> 0 <= ((b * a.input_shape[1] + input_row(a, y, t)) * a.input_shape[2] + input_column(
            a,
            x,
            t,
        )) * a.input_shape[3] + t % (a.input_shape[3] as int) < a.input.len(),
{
    shape::lemma_product4(a.input_shape@);
    shape::lemma_product4(a.weights_shape@);
    let kh = a.weights_shape[1] as int;
    let kw = a.weights_shape[2] as int;
    let depth = a.input_shape[3] as int;
    let n = filter_len(a);
    let co = a.weights_shape[0] as int;
    assert(((co * kh) * kw) * depth == co * (kh * kw * depth)) by (nonlinear_arith);
    assert(0 <= c * n && c * n + t < co * n) by (nonlinear_arith)
        requires
            0 <= c < co,
            0 <= t < n,
    ;
    assert(depth > 0) by (nonlinear_arith)
        requires
            0 <= t < kh * kw * depth,
            depth >= 0,
    ;
    vstd::arithmetic::div_mod::lemma_mod_bound(t, depth);
    let row = input_row(a, y, t);
    let column = input_column(a, x, t);
    if 0 <= row < a.input_shape[1] && 0 <= column < a.input_shape[2] {
        shape::lemma_index4_bound(
            b,
            row,
            column,
            t % depth,
            a.input_shape[0] as int,
            a.input_shape[1] as int,
            a.input_shape[2] as int,
            depth,
        );
    }
}

/// Only the distances from the zero points count: a convolution gives the same output
/// when inputs and input zero point, and weights and weight zero point, are moved
/// together.
pub proof fn law_conv2d_zero_points(
    backend: RefBackend,
    a: Conv2dArgs,
    moved: Conv2dArgs,
    k: int,
    m: int,
    buffers: Buffers,
    after: RefBackend,
    written: Buffers,
    moved_after: RefBackend,
    moved_written: Buffers,
)
    requires
        moved_zero_points(a, moved, k, m),
        backend.accepts(Operation::Conv2d(a), buffers),
        backend.accepts(Operation::Conv2d(moved), buffers),
        RefBackend::performs(backend, Operation::Conv2d(a), buffers, after, written, Ok(())),
        RefBackend::performs(
            backend,
            Operation::Conv2d(moved),
            buffers,
            moved_after,
            moved_written,
            Ok(()),
        ),
    ensures
        moved_written.output == written.output,
{
    assert forall|i: int| 0 <= i < a.output_len implies moved_written.output[i]
        == #[trigger] written.output[i] by {
        shape::lemma_cell_at_index(a.output_shape@, i);
        let cell = shape::cell_at(a.output_shape@, i);
        law_conv2d(
            backend,
            a,
            buffers,
            after,
            written,
            cell.batch,
            cell.y,
            cell.x,
            cell.channel,
        );
        law_conv2d(
            backend,
            moved,
            buffers,
            moved_after,
            moved_written,
            cell.batch,
            cell.y,
            cell.x,
            cell.channel,
        );
        let f = |t: int| term(a, cell.batch, cell.y, cell.x, cell.channel, t);
        let g = |t: int| term(moved, cell.batch, cell.y, cell.x, cell.channel, t);
        assert forall|t: int| 0 <= t < filter_len(a) implies #[trigger] f(t) == g(t) by {
            lemma_places(a, cell.batch, cell.y, cell.x, cell.channel, t);
        }
        sums::lemma_running_same(0, filter_len(a), f, g, start(a, cell.channel));
    }
    assert(moved_written.output =~= written.output);
}

/// Where every input is the zero point, or every weight is, the output of a channel is
/// its bias, scaled.
pub proof fn law_conv2d_of_nothing(
    before: RefBackend,
    a: Conv2dArgs,
    buffers: Buffers,
    after: RefBackend,
    written: Buffers,
    b: int,
    y: int,
    x: int,
    c: int,
)
    requires
        before.accepts(Operation::Conv2d(a), buffers),
        RefBackend::performs(before, Operation::Conv2d(a), buffers, after, written, Ok(())),
        0 <= b < a.output_shape[0],
        0 <= y < a.output_shape[1],
        0 <= x < a.output_shape[2],
        0 <= c < a.output_shape[3],
        (forall|i: int|
            0 <= i < a.input.len() ==> #[trigger] a.input[i] == a.input_quant.zero_point) || (
        forall|i: int|
            0 <= i < a.weights.len() ==> #[trigger] a.weights[i] == a.weights_quant.zero_point),
    ensures
        written.output[place(a, b, y, x, c)] == results::finished(
            start(a, c),
            channel_scale(a, c),
            a.activation,
            a.output_quant,
        ),
{
    law_conv2d(before, a, buffers, after, written, b, y, x, c);
    let f = |t: int| term(a, b, y, x, c, t);
    assert forall|t: int| 0 <= t < filter_len(a) implies #[trigger] f(t) == 0 by {
        lemma_places(a, b, y, x, c, t);
        let row = input_row(a, y, t);
        let column = input_column(a, x, t);
        let i = ((b * a.input_shape[1] + row) * a.input_shape[2] + column) * a.input_shape[3] + t
            % a.input_shape[3] as int;
        let p = a.input[i] - a.input_quant.zero_point;
        let q = a.weights[c * filter_len(a) + t] - a.weights_quant.zero_point;
        assert(p * q == 0 || p != 0 && q != 0) by (nonlinear_arith);
    }
    sums::lemma_running_zero(0, filter_len(a), f, start(a, c));
}

/// The reference backend accepts every convolution of modest sizes, strides and
/// dilations, whose zero points are of `i8`, whose scales are small and whose activation
/// has a range.
pub proof fn law_conv2d_accepted(backend: RefBackend, a: Conv2dArgs, buffers: Buffers)
    requires
        domain::is_tensor(a.input_shape),
        domain::is_tensor(a.weights_shape),
        domain::is_tensor(a.output_shape),
        domain::is_modest(a.input_shape[1] as int),
        domain::is_modest(a.input_shape[2] as int),
        domain::is_modest(a.weights_shape[1] as int),
        domain::is_modest(a.weights_shape[2] as int),
        domain::is_modest(a.output_shape[1] as int),
        domain::is_modest(a.output_shape[2] as int),
        a.stride_h <= 0x4000 && a.stride_w <= 0x4000,
        a.dilation_h_factor <= 0x4000 && a.dilation_w_factor <= 0x4000,
        domain::has_byte_zero(a.input_quant),
        domain::has_byte_zero(a.weights_quant),
        domain::has_byte_zero(a.output_quant),
        domain::has_range(a.activation, a.output_quant),
        forall|c: int|
            0 <= c < a.output_shape[3] ==> domain::is_small(#[trigger] channel_scale(a, c)),
    ensures
        backend.accepts(Operation::Conv2d(a), buffers),
{
    domain::lemma_tensor(a.input_shape);
    domain::lemma_tensor(a.weights_shape);
    domain::lemma_tensor(a.output_shape);
    if a.valid() {
        domain::lemma_axis(
            a.input_shape[1],
            a.weights_shape[1] as int,
            a.stride_h as int,
            a.dilation_h_factor as int,
            a.padding,
            a.output_shape[1] as int,
        );
        domain::lemma_axis(
            a.input_shape[2],
            a.weights_shape[2] as int,
            a.stride_w as int,
            a.dilation_w_factor as int,
            a.padding,
            a.output_shape[2] as int,
        );
        assert(a.geometry_defined());
        assert forall|i: int| 0 <= i < a.output_len implies #[trigger] a.element_defined(
            shape::cell_at(a.output_shape@, i),
        ) by {
            shape::lemma_cell_at_index(a.output_shape@, i);
            let cell = shape::cell_at(a.output_shape@, i);
            let (b, y, x, c) = (cell.batch, cell.y, cell.x, cell.channel);
            lemma_rows(a, cell, a.weights_shape[1] as int);
            sums::lemma_running_in_range(
                0,
                filter_len(a),
                |t: int| term(a, b, y, x, c, t),
                start(a, c),
            );
            assert(domain::is_small(channel_scale(a, c)));
            domain::lemma_small(accumulator(a, b, y, x, c), channel_scale(a, c), a.output_quant);
            domain::lemma_range(a.activation, a.output_quant);
            assert(a.taps_defined(cell));
        }
    }
}

} // verus!
