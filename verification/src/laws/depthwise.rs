//! Depthwise convolution on raw buffers.
use crate::backend::{Buffers, KernelBackend, Operation};
use crate::laws::domain;
use crate::laws::results;
use crate::laws::sums;
use crate::laws::windows;
use crate::params::DepthwiseConv2dArgs;
use crate::quantize;
use crate::reference::RefBackend;
use crate::shape;
use crate::shape::Cell;
use crate::single;
use crate::single::Real;
use crate::types::{KernelError, Status};
use vstd::arithmetic::div_mod::*;
use vstd::arithmetic::mul::*;
use vstd::prelude::*;

verus! {

/// Height of the filter: weights have the shape `[1, KH, KW, C_out]`, or
/// `[KH, KW, C_in, multiplier]` where `KH` is not 1.
pub open spec fn filter_height(a: DepthwiseConv2dArgs) -> int {
    if a.weights_shape[0] == 1 {
        a.weights_shape[1] as int
    } else {
        a.weights_shape[0] as int
    }
}

/// Width of the filter.
pub open spec fn filter_width(a: DepthwiseConv2dArgs) -> int {
    if a.weights_shape[0] == 1 {
        a.weights_shape[2] as int
    } else {
        a.weights_shape[1] as int
    }
}

/// The row of the input under tap `t` of the filter in output row `y`.
pub open spec fn input_row(a: DepthwiseConv2dArgs, y: int, t: int) -> int {
    windows::tap_position(
        a.input_shape[1] as int,
        filter_height(a),
        a.stride_h as int,
        a.dilation_h_factor as int,
        a.padding,
        y,
        t / filter_width(a),
    )
}

/// The column of the input under tap `t` of the filter in output column `x`.
pub open spec fn input_column(a: DepthwiseConv2dArgs, x: int, t: int) -> int {
    windows::tap_position(
        a.input_shape[2] as int,
        filter_width(a),
        a.stride_w as int,
        a.dilation_w_factor as int,
        a.padding,
        x,
        t % filter_width(a),
    )
}

/// The weight of output channel `c` at tap `t`, times the input under the tap in the
/// channel that `c` belongs to, each relative to its zero point; 0 on padding.
pub open spec fn term(a: DepthwiseConv2dArgs, b: int, y: int, x: int, c: int, t: int) -> int {
    let row = input_row(a, y, t);
    let column = input_column(a, x, t);
    let height = a.input_shape[1] as int;
    let width = a.input_shape[2] as int;
    let depth = a.input_shape[3] as int;
    if 0 <= row < height && 0 <= column < width {
        (a.input[((b * height + row) * width + column) * depth + c / a.depth_multiplier as int]
            - a.input_quant.zero_point) * (a.weights[t * a.output_shape[3] + c]
            - a.weights_quant.zero_point)
    } else {
        0
    }
}

/// The bias of a channel; 0 where there is none.
pub open spec fn start(a: DepthwiseConv2dArgs, c: int) -> int {
    match a.bias {
        Some(bias) => bias[c] as int,
        None => 0,
    }
}

/// The accumulator of an output element: the bias, to which the products of all taps of
/// the filter are added, saturating at 32 bits.
pub open spec fn accumulator(a: DepthwiseConv2dArgs, b: int, y: int, x: int, c: int) -> int {
    sums::running(
        0,
        filter_height(a) * filter_width(a),
        |t: int| term(a, b, y, x, c, t),
        start(a, c),
    )
}

/// The scale of a channel: that of the input times that of the weights over that of the
/// output; a scale of the channel's own comes before that of the weight tensor.
pub open spec fn channel_scale(a: DepthwiseConv2dArgs, c: int) -> Real {
    let own = match a.channel_scales {
        Some(scales) => if c < scales.len() {
            single::decode(scales[c])
        } else {
            single::decode(a.weights_quant.scale)
        },
        None => single::decode(a.weights_quant.scale),
    };
    single::decode(a.input_quant.scale).times(own).over(single::decode(a.output_quant.scale))
}

/// The place of an output element in the output buffer.
pub open spec fn place(a: DepthwiseConv2dArgs, b: int, y: int, x: int, c: int) -> int {
    ((b * a.output_shape[1] + y) * a.output_shape[2] + x) * a.output_shape[3] + c
}

proof fn lemma_channel(a: DepthwiseConv2dArgs, c: int)
    requires
        a.valid(),
        0 <= c < a.output_shape[3],
    ensures
        0 <= c / a.depth_multiplier as int,
        c / (a.depth_multiplier as int) < a.input_shape[3],
        (c / a.depth_multiplier as int) * a.depth_multiplier + c % a.depth_multiplier as int == c,
{
    let m = a.depth_multiplier as int;
    let q = c / m;
    lemma_fundamental_div_mod(c, m);
    lemma_mod_bound(c, m);
    lemma_div_pos_is_pos(c, m);
    lemma_mul_is_commutative(q, m);
    assert(q < a.input_shape[3]) by (nonlinear_arith)
        requires
            q * m <= c,
            c < a.input_shape[3] * m,
            m > 0,
    ;
}

proof fn lemma_term(a: DepthwiseConv2dArgs, cell: Cell, fy: int, fx: int)
    requires
        a.valid(),
        a.geometry_defined(),
        shape::cell_within(cell, a.output_shape@),
        0 <= fy < filter_height(a),
        0 <= fx < filter_width(a),
    ensures
        ({
            let t = fy * filter_width(a) + fx;
            term(a, cell.batch, cell.y, cell.x, cell.channel, t) == match (
                a.rows().source(cell.y, fy),
                a.columns().source(cell.x, fx),
            ) {
                (Some(y), Some(x)) => a.input_at(cell.batch, y, x, cell.channel) * a.weight_at(
                    fy,
                    fx,
                    cell.channel,
                ),
                _ => 0,
            }
        }),
{
    let kw = filter_width(a);
    let c = cell.channel;
    let m = a.depth_multiplier as int;
    let depth = a.input_shape[3] as int;
    let t = fy * kw + fx;
    windows::lemma_flat(fy, fx, kw);
    lemma_channel(a, c);
    windows::lemma_tap(
        a.input_shape[1],
        filter_height(a),
        a.stride_h as int,
        a.dilation_h_factor as int,
        a.padding,
        cell.y,
        fy,
    );
    windows::lemma_tap(
        a.input_shape[2],
        kw,
        a.stride_w as int,
        a.dilation_w_factor as int,
        a.padding,
        cell.x,
        fx,
    );
    let q = c / m;
    let r = c % m;
    assert((t * depth + q) * m + r == t * (depth * m) + (q * m + r)) by (nonlinear_arith);
}

proof fn lemma_columns(a: DepthwiseConv2dArgs, cell: Cell, fy: int, y: int, n: int, acc: int)
    requires
        a.valid(),
        a.geometry_defined(),
        shape::cell_within(cell, a.output_shape@),
        0 <= fy < filter_height(a),
        a.rows().source(cell.y, fy) == Some(y),
        0 <= n <= filter_width(a),
        quantize::fits_i32(acc),
    ensures
        ({
            let f = |t: int| term(a, cell.batch, cell.y, cell.x, cell.channel, t);
            let first = fy * filter_width(a);
            &&& a.over_columns(cell, fy, y, n, acc) == sums::running(first, first + n, f, acc)
            &&& quantize::fits_i32(a.over_columns(cell, fy, y, n, acc))
        }),
    decreases n,
{
    if n > 0 {
        lemma_columns(a, cell, fy, y, n - 1, acc);
        lemma_term(a, cell, fy, n - 1);
    }
}

proof fn lemma_rows(a: DepthwiseConv2dArgs, cell: Cell, n: int)
    requires
        a.valid(),
        a.geometry_defined(),
        shape::cell_within(cell, a.output_shape@),
        0 <= n <= filter_height(a),
    ensures
        ({
            let f = |t: int| term(a, cell.batch, cell.y, cell.x, cell.channel, t);
            let last = n * filter_width(a);
            &&& 0 <= last
            &&& a.over_rows(cell, n) == sums::running(0, last, f, start(a, cell.channel))
            &&& quantize::fits_i32(a.over_rows(cell, n))
        }),
    decreases n,
{
    let f = |t: int| term(a, cell.batch, cell.y, cell.x, cell.channel, t);
    let kw = filter_width(a);
    let bias = start(a, cell.channel);
    if n <= 0 {
        lemma_mul_basics(kw);
    } else {
        lemma_rows(a, cell, n - 1);
        let middle = (n - 1) * kw;
        let last = n * kw;
        assert(last == middle + kw) by (nonlinear_arith)
            requires
                last == n * kw,
                middle == (n - 1) * kw,
        ;
        let before = sums::running(0, middle, f, bias);
        sums::lemma_running_split(0, middle, last, f, bias);
        match a.rows().source(cell.y, n - 1) {
            Some(y) => {
                lemma_columns(a, cell, n - 1, y, kw, before);
            },
            None => {
                assert forall|t: int| middle <= t < last implies #[trigger] f(t) == 0 by {
                    lemma_term(a, cell, n - 1, t - middle);
                }
                sums::lemma_running_zero(middle, last, f, before);
            },
        }
    }
}

/// A depthwise convolution that succeeds writes, at the place of every output element,
/// the bias of its channel plus the sum of the products of the channel's weights and the
/// inputs under them, each relative to its zero point, scaled to the output and limited
/// to the range of the activation.
pub proof fn law_depthwise_conv2d(
    before: RefBackend,
    a: DepthwiseConv2dArgs,
    buffers: Buffers,
    after: RefBackend,
    written: Buffers,
    b: int,
    y: int,
    x: int,
    c: int,
)
    requires
        before.accepts(Operation::DepthwiseConv2d(a), buffers),
        RefBackend::performs(
            before,
            Operation::DepthwiseConv2d(a),
            buffers,
            after,
            written,
            Ok(()),
        ),
        0 <= b < a.output_shape[0],
        0 <= y < a.output_shape[1],
        0 <= x < a.output_shape[2],
        0 <= c < a.output_shape[3],
    ensures
        0 <= place(a, b, y, x, c) < written.output.len(),
        written.output[place(a, b, y, x, c)] == results::finished(
            accumulator(a, b, y, x, c),
            channel_scale(a, c),
            a.activation,
            a.output_quant,
        ),
        results::permitted(
            written.output[place(a, b, y, x, c)] as int,
            a.activation,
            a.output_quant,
        ),
        written.scratch == buffers.scratch,
{
    let cell = Cell { batch: b, y, x, channel: c };
    shape::lemma_index_at_cell(a.output_shape@, cell);
    let i = place(a, b, y, x, c);
    assert(shape::cell_at(a.output_shape@, i) == cell);
    assert(a.element_defined(shape::cell_at(a.output_shape@, i)));
    lemma_rows(a, cell, filter_height(a));
    results::lemma_activation_range(
        quantize::requantized(
            a.accumulated(cell),
            quantize::real_multiplier(a.scale(c)),
            a.output_quant.zero_point as int,
        ),
        a.activation,
        a.output_quant,
    );
}

/// A depthwise convolution succeeds exactly where the buffers have as many elements as
/// their shapes state, batches agree, the shape of the weights has the channels of the
/// input and the depth multiplier, the output has as many channels as both give, the
/// bias has one element for each of them, and multiplier, strides and dilations are
/// positive. Otherwise the shapes are refused and nothing is written.
pub proof fn law_depthwise_conv2d_status(
    before: RefBackend,
    a: DepthwiseConv2dArgs,
    buffers: Buffers,
    after: RefBackend,
    written: Buffers,
    status: Status,
)
    requires
        RefBackend::performs(
            before,
            Operation::DepthwiseConv2d(a),
            buffers,
            after,
            written,
            status,
        ),
    ensures
        status is Ok <==> {
            &&& a.input.len() == a.input_shape[0] * a.input_shape[1] * a.input_shape[2]
                * a.input_shape[3]
            &&& a.weights.len() == a.weights_shape[0] * a.weights_shape[1] * a.weights_shape[2]
                * a.weights_shape[3]
            &&& a.output_len == a.output_shape[0] * a.output_shape[1] * a.output_shape[2]
                * a.output_shape[3]
            &&& a.output_shape[0] == a.input_shape[0]
            &&& a.depth_multiplier > 0
            &&& if a.weights_shape[0] == 1 {
                &&& a.input_shape[3] > 0
                &&& a.weights_shape[3] as int / a.input_shape[3] as int == a.depth_multiplier
            } else {
                &&& a.weights_shape[2] == a.input_shape[3]
                &&& a.weights_shape[3] == a.depth_multiplier
            }
            &&& a.output_shape[3] == a.input_shape[3] * a.depth_multiplier
            &&& a.bias is Some ==> a.bias->0.len() == a.output_shape[3]
            &&& a.stride_w > 0 && a.stride_h > 0
            &&& a.dilation_w_factor > 0 && a.dilation_h_factor > 0
        },
        status is Err ==> status == Err::<(), KernelError>(KernelError::InvalidShape)
            && written.output == buffers.output,
        written.scratch == buffers.scratch,
{
    shape::lemma_product4(a.input_shape@);
    shape::lemma_product4(a.weights_shape@);
    shape::lemma_product4(a.output_shape@);
}

/// `moved` is `a` with `k` added to every input and to the input's zero point, and `m`
/// added to every weight and to the weights' zero point.
pub open spec fn moved_zero_points(
    a: DepthwiseConv2dArgs,
    moved: DepthwiseConv2dArgs,
    k: int,
    m: int,
) -> bool {
    &&& moved == (DepthwiseConv2dArgs {
        input: moved.input,
        weights: moved.weights,
        input_quant: moved.input_quant,
        weights_quant: moved.weights_quant,
        ..a
    })
    &&& moved.input.len() == a.input.len()
    &&& moved.weights.len() == a.weights.len()
    &&& moved.input_quant.scale == a.input_quant.scale
    &&& moved.weights_quant.scale == a.weights_quant.scale
    &&& moved.input_quant.zero_point == a.input_quant.zero_point + k
    &&& moved.weights_quant.zero_point == a.weights_quant.zero_point + m
    &&& forall|i: int| 0 <= i < a.input.len() ==> #[trigger] moved.input[i] == a.input[i] + k
    &&& forall|i: int| 0 <= i < a.weights.len() ==> #[trigger] moved.weights[i] == a.weights[i] + m
}

proof fn lemma_places(a: DepthwiseConv2dArgs, b: int, y: int, x: int, c: int, t: int)
    requires
        a.valid(),
        0 <= b < a.output_shape[0],
        0 <= c < a.output_shape[3],
        0 <= t < filter_height(a) * filter_width(a),
    ensures
        0 <= t * a.output_shape[3] + c < a.weights.len(),
        0 <= input_row(a, y, t) < a.input_shape[1] && 0 <= input_column(a, x, t) < a.input_shape[2]
            ==> 0 <= ((b * a.input_shape[1] + input_row(a, y, t)) * a.input_shape[2] + input_column(
            a,
            x,
            t,
        )) * a.input_shape[3] + c / (a.depth_multiplier as int) < a.input.len(),
{
    shape::lemma_product4(a.input_shape@);
    shape::lemma_product4(a.weights_shape@);
    lemma_channel(a, c);
    let taps = filter_height(a) * filter_width(a);
    let out = a.output_shape[3] as int;
    assert(0 <= t * out && t * out + c < taps * out) by (nonlinear_arith)
        requires
            0 <= t < taps,
            0 <= c < out,
    ;
    let all = a.weights_shape[3] as int;
    if a.weights_shape[0] == 1 {
        let depth = a.input_shape[3] as int;
        lemma_fundamental_div_mod(all, depth);
        lemma_mod_bound(all, depth);
        assert(taps * out <= taps * all) by (nonlinear_arith)
            requires
                taps >= 0,
                out <= all,
        ;
        assert((1 * a.weights_shape[1]) * a.weights_shape[2] == taps);
    } else {
        let depth = a.weights_shape[2] as int;
        assert(taps * (depth * all) == (taps * depth) * all) by (nonlinear_arith);
    }
    let row = input_row(a, y, t);
    let column = input_column(a, x, t);
    if 0 <= row < a.input_shape[1] && 0 <= column < a.input_shape[2] {
        shape::lemma_index4_bound(
            b,
            row,
            column,
            c / a.depth_multiplier as int,
            a.input_shape[0] as int,
            a.input_shape[1] as int,
            a.input_shape[2] as int,
            a.input_shape[3] as int,
        );
    }
}

/// Only the distances from the zero points count: a depthwise convolution gives the same
/// output when inputs and input zero point, and weights and weight zero point, are moved
/// together.
pub proof fn law_depthwise_conv2d_zero_points(
    backend: RefBackend,
    a: DepthwiseConv2dArgs,
    moved: DepthwiseConv2dArgs,
    k: int,
    m: int,
    buffers: Buffers,
    after: RefBackend,
    written: Buffers,
    moved_after: RefBackend,
    moved_written: Buffers,
)
    requires
        moved_zero_points(a, moved, k, m),
        backend.accepts(Operation::DepthwiseConv2d(a), buffers),
        backend.accepts(Operation::DepthwiseConv2d(moved), buffers),
        RefBackend::performs(
            backend,
            Operation::DepthwiseConv2d(a),
            buffers,
            after,
            written,
            Ok(()),
        ),
        RefBackend::performs(
            backend,
            Operation::DepthwiseConv2d(moved),
            buffers,
            moved_after,
            moved_written,
            Ok(()),
        ),
    ensures
        moved_written.output == written.output,
{
    assert forall|i: int| 0 <= i < a.output_len implies moved_written.output[i]
        == #[trigger] written.output[i] by {
        shape::lemma_cell_at_index(a.output_shape@, i);
        let cell = shape::cell_at(a.output_shape@, i);
        let (b, y, x, c) = (cell.batch, cell.y, cell.x, cell.channel);
        law_depthwise_conv2d(backend, a, buffers, after, written, b, y, x, c);
        law_depthwise_conv2d(backend, moved, buffers, moved_after, moved_written, b, y, x, c);
        let f = |t: int| term(a, b, y, x, c, t);
        let g = |t: int| term(moved, b, y, x, c, t);
        let n = filter_height(a) * filter_width(a);
        assert forall|t: int| 0 <= t < n implies #[trigger] f(t) == g(t) by {
            lemma_places(a, b, y, x, c, t);
        }
        sums::lemma_running_same(0, n, f, g, start(a, c));
    }
    assert(moved_written.output =~= written.output);
}

/// Where every input is the zero point, or every weight is, the output of a channel is
/// its bias, scaled.
pub proof fn law_depthwise_conv2d_of_nothing(
    before: RefBackend,
    a: DepthwiseConv2dArgs,
    buffers: Buffers,
    after: RefBackend,
    written: Buffers,
    b: int,
    y: int,
    x: int,
    c: int,
)
    requires
        before.accepts(Operation::DepthwiseConv2d(a), buffers),
        RefBackend::performs(
            before,
            Operation::DepthwiseConv2d(a),
            buffers,
            after,
            written,
            Ok(()),
        ),
        0 <= b < a.output_shape[0],
        0 <= y < a.output_shape[1],
        0 <= x < a.output_shape[2],
        0 <= c < a.output_shape[3],
        (forall|i: int|
            0 <= i < a.input.len() ==> #[trigger] a.input[i] == a.input_quant.zero_point) || (
        forall|i: int|
            0 <= i < a.weights.len() ==> #[trigger] a.weights[i] == a.weights_quant.zero_point),
    ensures
        written.output[place(a, b, y, x, c)] == results::finished(
            start(a, c),
            channel_scale(a, c),
            a.activation,
            a.output_quant,
        ),
{
    law_depthwise_conv2d(before, a, buffers, after, written, b, y, x, c);
    let f = |t: int| term(a, b, y, x, c, t);
    let n = filter_height(a) * filter_width(a);
    assert forall|t: int| 0 <= t < n implies #[trigger] f(t) == 0 by {
        lemma_places(a, b, y, x, c, t);
        let row = input_row(a, y, t);
        let column = input_column(a, x, t);
        let i = ((b * a.input_shape[1] + row) * a.input_shape[2] + column) * a.input_shape[3] + c
            / a.depth_multiplier as int;
        let p = a.input[i] - a.input_quant.zero_point;
        let q = a.weights[t * a.output_shape[3] + c] - a.weights_quant.zero_point;
        assert(p * q == 0 || p != 0 && q != 0) by (nonlinear_arith);
    }
    sums::lemma_running_zero(0, n, f, start(a, c));
}

/// The reference backend accepts every depthwise convolution of modest sizes, strides and
/// dilations, whose zero points are of `i8`, whose scales are small and whose activation
/// has a range.
pub proof fn law_depthwise_conv2d_accepted(
    backend: RefBackend,
    a: DepthwiseConv2dArgs,
    buffers: Buffers,
)
    requires
        domain::is_tensor(a.input_shape),
        domain::is_tensor(a.weights_shape),
        domain::is_tensor(a.output_shape),
        domain::is_modest(a.input_shape[1] as int),
        domain::is_modest(a.input_shape[2] as int),
        domain::is_modest(filter_height(a)),
        domain::is_modest(filter_width(a)),
        domain::is_modest(a.output_shape[1] as int),
        domain::is_modest(a.output_shape[2] as int),
        a.input_shape[3] * a.depth_multiplier <= 0xffff_ffff,
        a.stride_h <= 0x4000 && a.stride_w <= 0x4000,
        a.dilation_h_factor <= 0x4000 && a.dilation_w_factor <= 0x4000,
        domain::has_byte_zero(a.input_quant),
        domain::has_byte_zero(a.weights_quant),
        domain::has_byte_zero(a.output_quant),
        domain::has_range(a.activation, a.output_quant),
        forall|c: int|
            0 <= c < a.output_shape[3] ==> domain::is_small(#[trigger] channel_scale(a, c)),
    ensures
        backend.accepts(Operation::DepthwiseConv2d(a), buffers),
{
    domain::lemma_tensor(a.input_shape);
    domain::lemma_tensor(a.weights_shape);
    domain::lemma_tensor(a.output_shape);
    if a.valid() {
        domain::lemma_axis(
            a.input_shape[1],
            filter_height(a),
            a.stride_h as int,
            a.dilation_h_factor as int,
            a.padding,
            a.output_shape[1] as int,
        );
        domain::lemma_axis(
            a.input_shape[2],
            filter_width(a),
            a.stride_w as int,
            a.dilation_w_factor as int,
            a.padding,
            a.output_shape[2] as int,
        );
        assert(a.geometry_defined());
        assert forall|i: int| 0 <= i < a.output_len implies #[trigger] a.element_defined(
            shape::cell_at(a.output_shape@, i),
        ) by {
            shape::lemma_cell_at_index(a.output_shape@, i);
            let cell = shape::cell_at(a.output_shape@, i);
            let (b, y, x, c) = (cell.batch, cell.y, cell.x, cell.channel);
            lemma_rows(a, cell, filter_height(a));
            sums::lemma_running_in_range(
                0,
                filter_height(a) * filter_width(a),
                |t: int| term(a, b, y, x, c, t),
                start(a, c),
            );
            assert(domain::is_small(channel_scale(a, c)));
            domain::lemma_small(accumulator(a, b, y, x, c), channel_scale(a, c), a.output_quant);
            domain::lemma_range(a.activation, a.output_quant);
            assert(a.taps_defined(cell));
        }
    }
}

} // verus!
