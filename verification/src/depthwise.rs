//! Depthwise 2D convolution.
use crate::params::{DepthwiseConv2dArgs, DepthwiseConv2dParams};
use crate::quantize;
use crate::shape;
use crate::shape::{Axis, Cell, CellIndex, DepthwiseDims};
use crate::single::Real;
use crate::types::{KernelError, Status};
use vstd::arithmetic::div_mod::*;
use vstd::arithmetic::mul::*;
use vstd::prelude::*;

verus! {

impl DepthwiseConv2dArgs {
    /// The buffers hold as many elements as their shapes state.
    pub open spec fn lengths_valid(self) -> bool {
        &&& self.input.len() == shape::dims_product(self.input_shape@)
        &&& self.weights.len() == shape::dims_product(self.weights_shape@)
        &&& self.output_len == shape::dims_product(self.output_shape@)
    }

    /// The shape of the weights agrees with the input and the depth multiplier.
    pub open spec fn filter_valid(self) -> bool {
        &&& self.depth_multiplier > 0
        &&& shape::depthwise_accepts(
            self.weights_shape@,
            self.input_shape[3],
            self.depth_multiplier as usize,
        )
    }

    /// Buffers, shapes and attributes agree.
    pub open spec fn valid(self) -> bool {
        &&& self.lengths_valid()
        &&& self.filter_valid()
        &&& self.input_shape[0] == self.output_shape[0]
        &&& self.output_shape[3] == self.input_shape[3] * self.depth_multiplier
        &&& shape::bias_fits(self.bias, self.output_shape[3] as int)
        &&& self.stride_h > 0
        &&& self.stride_w > 0
        &&& self.dilation_h_factor > 0
        &&& self.dilation_w_factor > 0
    }

    /// The dimensions of the filter.
    pub open spec fn dims(self) -> DepthwiseDims {
        shape::depthwise_layout(self.weights_shape@, self.input_shape[3])
    }

    /// The vertical axis.
    pub open spec fn rows(self) -> Axis {
        shape::window_axis(
            self.input_shape[1],
            self.dims().filter_h as int,
            self.stride_h as int,
            self.dilation_h_factor as int,
            self.padding,
        )
    }

    /// The horizontal axis.
    pub open spec fn columns(self) -> Axis {
        shape::window_axis(
            self.input_shape[2],
            self.dims().filter_w as int,
            self.stride_w as int,
            self.dilation_w_factor as int,
            self.padding,
        )
    }

    /// The input channel that an output channel is computed from.
    pub open spec fn input_channel(self, channel: int) -> int {
        channel / self.depth_multiplier as int
    }

    /// The input element under a tap of an output channel, relative to the zero
    /// point.
    pub open spec fn input_at(self, batch: int, y: int, x: int, channel: int) -> int {
        self.input[shape::index4(
            batch,
            y,
            x,
            self.input_channel(channel),
            self.input_shape[1] as int,
            self.input_shape[2] as int,
            self.input_shape[3] as int,
        )] - self.input_quant.zero_point
    }

    /// The weight of a tap of an output channel, relative to the zero point.
    pub open spec fn weight_at(self, filter_y: int, filter_x: int, channel: int) -> int {
        self.weights[shape::depthwise_index(
            filter_y,
            filter_x,
            self.input_channel(channel),
            channel % self.depth_multiplier as int,
            self.dims(),
        )] - self.weights_quant.zero_point
    }

    /// `acc` after the first `n` taps of one filter row, each step saturating;
    /// taps on padding are skipped.
    pub open spec fn over_columns(self, cell: Cell, filter_y: int, y: int, n: int, acc: int) -> int
        decreases n,
    {
        if n <= 0 {
            acc
        } else {
            let before = self.over_columns(cell, filter_y, y, n - 1, acc);
            match self.columns().source(cell.x, n - 1) {
                Some(x) => quantize::clamp_i32(
                    before + quantize::clamp_i32(
                        self.input_at(cell.batch, y, x, cell.channel) * self.weight_at(
                            filter_y,
                            n - 1,
                            cell.channel,
                        ),
                    ),
                ),
                None => before,
            }
        }
    }

    /// The bias after the first `n` filter rows.
    pub open spec fn over_rows(self, cell: Cell, n: int) -> int
        decreases n,
    {
        if n <= 0 {
            shape::bias_at(self.bias, cell.channel)
        } else {
            let before = self.over_rows(cell, n - 1);
            match self.rows().source(cell.y, n - 1) {
                Some(y) => self.over_columns(
                    cell,
                    n - 1,
                    y,
                    self.dims().filter_w as int,
                    before,
                ),
                None => before,
            }
        }
    }

    /// The accumulator of one output element.
    pub open spec fn accumulated(self, cell: Cell) -> int {
        self.over_rows(cell, self.dims().filter_h as int)
    }

    /// The scale of the accumulators of one output channel.
    pub open spec fn scale(self, channel: int) -> Real {
        quantize::channel_scale(
            self.input_quant,
            self.weights_quant,
            self.channel_scales,
            self.output_quant,
            channel,
        )
    }

    /// One element of the output.
    pub open spec fn element(self, cell: Cell) -> int {
        quantize::activated(
            quantize::requantized(
                self.accumulated(cell),
                quantize::real_multiplier(self.scale(cell.channel)),
                self.output_quant.zero_point as int,
            ),
            self.activation,
            self.output_quant,
        )
    }

    /// The taps of one output element are found and centred without overflow.
    pub open spec fn taps_defined(self, cell: Cell) -> bool {
        &&& forall|f: int|
            0 <= f < self.dims().filter_h ==> #[trigger] self.rows().source_defined(cell.y, f)
        &&& forall|f: int, g: int|
            #![trigger self.rows().source(cell.y, f), self.columns().source_defined(cell.x, g)]
            0 <= f < self.dims().filter_h && 0 <= g < self.dims().filter_w && self.rows().source(
                cell.y,
                f,
            ) is Some ==> self.columns().source_defined(cell.x, g)
        &&& forall|f: int, g: int|
            #![trigger self.weight_at(f, g, cell.channel)]
            0 <= f < self.dims().filter_h && 0 <= g < self.dims().filter_w && self.rows().source(
                cell.y,
                f,
            ) is Some && self.columns().source(cell.x, g) is Some ==> quantize::fits_i32(
                self.input_at(
                    cell.batch,
                    self.rows().source(cell.y, f)->0,
                    self.columns().source(cell.x, g)->0,
                    cell.channel,
                ),
            ) && quantize::fits_i32(self.weight_at(f, g, cell.channel))
    }

    /// One output element is computed without overflow.
    pub open spec fn element_defined(self, cell: Cell) -> bool {
        &&& self.scale(cell.channel) != (Real::Infinite { negative: false })
        &&& self.taps_defined(cell)
        &&& quantize::requantize_defined(
            self.accumulated(cell),
            quantize::real_multiplier(self.scale(cell.channel)),
            self.output_quant.zero_point as int,
        )
        &&& quantize::activation_defined(self.activation, self.output_quant)
    }

    /// Extent and padding of the filter are computed without overflow.
    pub open spec fn geometry_defined(self) -> bool {
        &&& shape::window_defined(
            self.input_shape[1],
            self.dims().filter_h as int,
            self.stride_h as int,
            self.dilation_h_factor as int,
            self.padding,
        )
        &&& shape::window_defined(
            self.input_shape[2],
            self.dims().filter_w as int,
            self.stride_w as int,
            self.dilation_w_factor as int,
            self.padding,
        )
    }

    /// No step that the operator takes overflows.
    pub open spec fn defined(self) -> bool {
        &&& shape::product_defined(self.input_shape@)
        &&& self.input.len() == shape::dims_product(self.input_shape@) ==> {
            &&& shape::product_defined(self.weights_shape@)
            &&& self.weights.len() == shape::dims_product(self.weights_shape@)
                ==> shape::product_defined(self.output_shape@)
        }
        &&& self.lengths_valid() && self.filter_valid() && self.input_shape[0]
            == self.output_shape[0] ==> self.input_shape[3] * self.depth_multiplier <= usize::MAX
        &&& self.valid() ==> {
            &&& self.geometry_defined()
            &&& forall|i: int|
                0 <= i < self.output_len ==> #[trigger] self.element_defined(
                    shape::cell_at(self.output_shape@, i),
                )
        }
    }

    /// Success, or the error that is returned.
    pub open spec fn status(self) -> Status {
        if self.valid() {
            Ok(())
        } else {
            Err(KernelError::InvalidShape)
        }
    }

    /// The output buffer after the operator, given its contents before.
    pub open spec fn output(self, before: Seq<i8>) -> Seq<i8> {
        if self.valid() {
            Seq::new(
                self.output_len,
                |i: int| self.element(shape::cell_at(self.output_shape@, i)) as i8,
            )
        } else {
            before
        }
    }
}

/// The output channels are those of the input, each repeated.
proof fn lemma_channel(args: DepthwiseConv2dArgs, channel: int)
    requires
        args.valid(),
        0 <= channel < args.output_shape[3],
    ensures
        0 <= args.input_channel(channel) < args.input_shape[3],
        0 <= channel % args.depth_multiplier as int <= channel,
        channel % (args.depth_multiplier as int) < args.depth_multiplier,
        args.input_channel(channel) * args.depth_multiplier + channel
            % args.depth_multiplier as int == channel,
{
    let m = args.depth_multiplier as int;
    let q = channel / m;
    lemma_fundamental_div_mod(channel, m);
    lemma_mod_bound(channel, m);
    lemma_div_pos_is_pos(channel, m);
    assert(q * m == m * q) by (nonlinear_arith);
    lemma_mul_nonnegative(q, m);
    assert(q < args.input_shape[3]) by (nonlinear_arith)
        requires
            q * m <= channel,
            channel < args.input_shape[3] * m,
            m > 0,
    ;
}

/// Every weight that a tap needs lies within the weights.
proof fn lemma_weight_bound(args: DepthwiseConv2dArgs, filter_y: int, filter_x: int, channel: int)
    requires
        args.valid(),
        args.weights.len() <= usize::MAX,
        0 <= channel < args.output_shape[3],
        0 <= filter_y < args.dims().filter_h,
        0 <= filter_x < args.dims().filter_w,
    ensures
        ({
            let ic = args.input_channel(channel);
            let m = channel % args.depth_multiplier as int;
            &&& shape::depthwise_index_defined(filter_y, filter_x, ic, m, args.dims())
            &&& 0 <= shape::depthwise_index(filter_y, filter_x, ic, m, args.dims())
                < args.weights.len()
        }),
{
    let dims = args.dims();
    let ic = args.input_channel(channel);
    let m = args.depth_multiplier as int;
    let c = dims.input_channels as int;
    let a = filter_y * dims.filter_w + filter_x;
    let taps = dims.filter_h * dims.filter_w;
    lemma_channel(args, channel);
    shape::lemma_product4(args.weights_shape@);
    assert(0 <= a < taps) by (nonlinear_arith)
        requires
            0 <= filter_y < dims.filter_h,
            0 <= filter_x < dims.filter_w,
            a == filter_y * dims.filter_w + filter_x,
            taps == dims.filter_h * dims.filter_w,
    ;
    shape::lemma_depthwise_layouts_agree(filter_y, filter_x, ic, channel % m, dims);
    assert(a * (c * m) + channel == (a * c + ic) * m + channel % m) by (nonlinear_arith)
        requires
            channel == ic * m + channel % m,
    ;
    assert(0 <= a * (c * m) && a * (c * m) + channel < taps * (c * m)) by (nonlinear_arith)
        requires
            0 <= a < taps,
            0 <= channel < c * m,
    ;
    assert(a <= a * (c * m)) by (nonlinear_arith)
        requires
            a >= 0,
            c * m >= 1,
    ;
    lemma_mul_nonnegative(a, c);
    assert(a * c + ic <= (a * c + ic) * m) by (nonlinear_arith)
        requires
            a * c + ic >= 0,
            m >= 1,
    ;
    if dims.tflite_layout {
        let all = args.weights_shape[3] as int;
        lemma_fundamental_div_mod(all, c);
        lemma_mod_bound(all, c);
        assert(c * m <= all);
        assert(taps * (c * m) <= taps * all) by (nonlinear_arith)
            requires
                taps >= 0,
                c * m <= all,
        ;
        assert((1 * args.weights_shape[1]) * args.weights_shape[2] == taps);
    } else {
        assert(taps * (c * m) == (taps * c) * m) by (nonlinear_arith);
    }
}

fn accumulate_columns(
    params: &DepthwiseConv2dParams<'_>,
    dims: DepthwiseDims,
    cell: CellIndex,
    columns: Axis,
    filter_y: usize,
    y: usize,
    acc: i32,
) -> (r: i32)
    requires
        params@.valid(),
        dims == params@.dims(),
        columns == params@.columns(),
        shape::cell_within(cell@, params@.output_shape@),
        filter_y < dims.filter_h,
        params@.rows().source(cell@.y, filter_y as int) == Some(y as int),
        params@.taps_defined(cell@),
    ensures
        r == params@.over_columns(
            cell@,
            filter_y as int,
            y as int,
            dims.filter_w as int,
            acc as int,
        ),
{
    let ghost args = params@;
    let mut acc: i32 = acc;
    let ghost start = acc as int;
    let multiplier: usize = params.depth_multiplier as usize;
    let input_channel: usize = cell.channel / multiplier;
    let channel_multiplier: usize = cell.channel % multiplier;
    proof {
        lemma_channel(args, cell@.channel);
    }
    let mut filter_x: usize = 0;
    while filter_x < dims.filter_w
        invariant
            args == params@,
            args.valid(),
            dims == args.dims(),
            columns == args.columns(),
            shape::cell_within(cell@, args.output_shape@),
            filter_y < dims.filter_h,
            args.rows().source(cell@.y, filter_y as int) == Some(y as int),
            args.taps_defined(cell@),
            input_channel == args.input_channel(cell@.channel),
            input_channel < args.input_shape[3],
            channel_multiplier == cell@.channel % args.depth_multiplier as int,
            filter_x <= dims.filter_w,
            acc == args.over_columns(cell@, filter_y as int, y as int, filter_x as int, start),
        decreases dims.filter_w - filter_x,
    {
        if let Some(x) = columns.input_index(cell.x, filter_x) {
            proof {
                assert(params.input.len() == args.input.len());
                assert(params.weights.len() == args.weights.len());
                shape::lemma_product4(args.input_shape@);
                shape::lemma_index4_bound(
                    cell@.batch,
                    y as int,
                    x as int,
                    input_channel as int,
                    args.input_shape[0] as int,
                    args.input_shape[1] as int,
                    args.input_shape[2] as int,
                    args.input_shape[3] as int,
                );
                lemma_weight_bound(args, filter_y as int, filter_x as int, cell@.channel);
                assert(quantize::fits_i32(
                    args.weight_at(filter_y as int, filter_x as int, cell@.channel),
                ));
            }
            let input: i32 = params.input[shape::nhwc_index(
                cell.batch,
                y,
                x,
                input_channel,
                params.input_shape[1],
                params.input_shape[2],
                params.input_shape[3],
            )] as i32 - params.input_quant.zero_point;
            let weight: i32 = params.weights[shape::depthwise_weight_index(
                filter_y,
                filter_x,
                input_channel,
                channel_multiplier,
                dims,
            )] as i32 - params.weights_quant.zero_point;
            acc = quantize::saturating_add(acc, quantize::saturating_mul(input, weight));
        }
        filter_x = filter_x + 1;
    }
    acc
}

fn accumulate(
    params: &DepthwiseConv2dParams<'_>,
    dims: DepthwiseDims,
    cell: CellIndex,
    rows: Axis,
    columns: Axis,
) -> (r: i32)
    requires
        params@.valid(),
        dims == params@.dims(),
        rows == params@.rows(),
        columns == params@.columns(),
        shape::cell_within(cell@, params@.output_shape@),
        params@.taps_defined(cell@),
    ensures
        r == params@.accumulated(cell@),
{
    let ghost args = params@;
    let mut acc: i32 = shape::channel_bias(params.bias, cell.channel);
    let mut filter_y: usize = 0;
    while filter_y < dims.filter_h
        invariant
            args == params@,
            args.valid(),
            dims == args.dims(),
            rows == args.rows(),
            columns == args.columns(),
            shape::cell_within(cell@, args.output_shape@),
            args.taps_defined(cell@),
            filter_y <= dims.filter_h,
            acc == args.over_rows(cell@, filter_y as int),
        decreases dims.filter_h - filter_y,
    {
        if let Some(y) = rows.input_index(cell.y, filter_y) {
            acc = accumulate_columns(params, dims, cell, columns, filter_y, y, acc);
        }
        filter_y = filter_y + 1;
    }
    acc
}

/// Computes one element of the output.
fn element(
    params: &DepthwiseConv2dParams<'_>,
    dims: DepthwiseDims,
    cell: CellIndex,
    rows: Axis,
    columns: Axis,
) -> (r: i8)
    requires
        params@.valid(),
        dims == params@.dims(),
        rows == params@.rows(),
        columns == params@.columns(),
        shape::cell_within(cell@, params@.output_shape@),
        params@.element_defined(cell@),
    ensures
        r == params@.element(cell@),
{
    let (multiplier, shift) = quantize::output_channel_multiplier_shift(
        params.input_quant,
        params.weights_quant,
        params.weights_per_channel_quant,
        params.output_quant,
        cell.channel,
    );
    let acc: i32 = accumulate(params, dims, cell, rows, columns);
    let scaled: i32 = quantize::requantize(acc, multiplier, shift, params.output_quant);
    quantize::apply_activation(scaled, params.activation, params.output_quant)
}

/// Executes a depthwise 2D convolution.
pub fn depthwise_conv2d(params: DepthwiseConv2dParams<'_>) -> (r: Status)
    requires
        params@.defined(),
    ensures
        r == params@.status(),
        final(params.output)@ == params@.output(old(params.output)@),
        final(params.scratch)@ == old(params.scratch)@,
{
    let ghost args = params@;
    let ghost given = params;
    shape::validate_len(params.input, shape::product(&params.input_shape))?;
    shape::validate_len(params.weights, shape::product(&params.weights_shape))?;
    shape::validate_len(params.output, shape::product(&params.output_shape))?;
    let input_c: usize = params.input_shape[3];
    let output_c: usize = params.output_shape[3];
    let depth_multiplier: usize = shape::positive_i32_to_usize(params.depth_multiplier)?;
    let dims = shape::depthwise_filter_dims(params.weights_shape, input_c, depth_multiplier)?;
    if params.input_shape[0] != params.output_shape[0] || output_c != input_c * depth_multiplier {
        return Err(KernelError::InvalidShape);
    }
    shape::validate_bias(params.bias, output_c)?;
    let stride_h: usize = shape::positive_i32_to_usize(params.stride_h)?;
    let stride_w: usize = shape::positive_i32_to_usize(params.stride_w)?;
    let dilation_h: usize = shape::positive_i32_to_usize(params.dilation_h_factor)?;
    let dilation_w: usize = shape::positive_i32_to_usize(params.dilation_w_factor)?;
    let rows = Axis::new(
        params.input_shape[1],
        dims.filter_h,
        stride_h,
        dilation_h,
        params.padding,
    );
    let columns = Axis::new(
        params.input_shape[2],
        dims.filter_w,
        stride_w,
        dilation_w,
        params.padding,
    );
    let len: usize = params.output.len();
    let mut index: usize = 0;
    while index < len
        invariant
            params@ == args,
            args.valid(),
            args.defined(),
            dims == args.dims(),
            rows == args.rows(),
            columns == args.columns(),
            index <= len == args.output_len,
            forall|i: int|
                0 <= i < index ==> params.output@[i] == #[trigger] args.output(
                    given.output@,
                )[i],
            final(params.output)@ == final(given.output)@,
        decreases len - index,
    {
        let cell = shape::nhwc_cell(params.output_shape, index);
        assert(args.element_defined(shape::cell_at(args.output_shape@, index as int)));
        let value: i8 = element(&params, dims, cell, rows, columns);
        params.output[index] = value;
        index = index + 1;
    }
    assert(params.output@ =~= args.output(given.output@));
    Ok(())
}

/// The weights of `args`, of shape `[KH, KW, C_in, multiplier]` with the channels of
/// the input, stated in the shape `[1, KH, KW, C_out]`.
pub open spec fn flattened(args: DepthwiseConv2dArgs, flat: DepthwiseConv2dArgs) -> bool {
    &&& flat == (DepthwiseConv2dArgs { weights_shape: flat.weights_shape, ..args })
    &&& args.weights_shape[0] != 1
    &&& args.weights_shape[2] > 0
    &&& args.weights_shape[2] == args.input_shape[3]
    &&& flat.weights_shape[0] == 1
    &&& flat.weights_shape[1] == args.weights_shape[0]
    &&& flat.weights_shape[2] == args.weights_shape[1]
    &&& flat.weights_shape[3] == args.weights_shape[2] * args.weights_shape[3]
}

proof fn lemma_flattened_columns(
    args: DepthwiseConv2dArgs,
    flat: DepthwiseConv2dArgs,
    cell: Cell,
    filter_y: int,
    y: int,
    n: int,
    acc: int,
)
    requires
        flattened(args, flat),
    ensures
        flat.over_columns(cell, filter_y, y, n, acc) == args.over_columns(
            cell,
            filter_y,
            y,
            n,
            acc,
        ),
    decreases n,
{
    lemma_flattened_dims(args, flat);
    if n > 0 {
        lemma_flattened_columns(args, flat, cell, filter_y, y, n - 1, acc);
        let ic = args.input_channel(cell.channel);
        let m = cell.channel % args.depth_multiplier as int;
        shape::lemma_depthwise_layouts_agree(filter_y, n - 1, ic, m, args.dims());
        shape::lemma_depthwise_layouts_agree(filter_y, n - 1, ic, m, flat.dims());
        assert(flat.weight_at(filter_y, n - 1, cell.channel) == args.weight_at(
            filter_y,
            n - 1,
            cell.channel,
        ));
    }
}

proof fn lemma_flattened_rows(
    args: DepthwiseConv2dArgs,
    flat: DepthwiseConv2dArgs,
    cell: Cell,
    n: int,
)
    requires
        flattened(args, flat),
    ensures
        flat.over_rows(cell, n) == args.over_rows(cell, n),
    decreases n,
{
    lemma_flattened_dims(args, flat);
    if n > 0 {
        lemma_flattened_rows(args, flat, cell, n - 1);
        if let Some(y) = args.rows().source(cell.y, n - 1) {
            lemma_flattened_columns(
                args,
                flat,
                cell,
                n - 1,
                y,
                args.dims().filter_w as int,
                args.over_rows(cell, n - 1),
            );
        }
    }
}

proof fn lemma_flattened_dims(args: DepthwiseConv2dArgs, flat: DepthwiseConv2dArgs)
    requires
        flattened(args, flat),
    ensures
        flat.dims() == (DepthwiseDims { tflite_layout: true, ..args.dims() }),
        flat.valid() == args.valid(),
{
    let c = args.weights_shape[2] as int;
    let m = args.weights_shape[3] as int;
    lemma_div_by_multiple(m, c);
    assert(c * m == m * c) by (nonlinear_arith);
    shape::lemma_product4(args.weights_shape@);
    shape::lemma_product4(flat.weights_shape@);
    let h = args.weights_shape[0] as int;
    let w = args.weights_shape[1] as int;
    assert(((h * w) * c) * m == ((1 * h) * w) * (c * m)) by (nonlinear_arith);
}

/// Both layouts of depthwise weights are accepted or refused alike, and give the
/// same output: the same weights may be stated with the shape
/// `[KH, KW, C_in, multiplier]` or, where `KH` is not 1, with the shape
/// `[1, KH, KW, C_out]`.
pub proof fn lemma_depthwise_layouts(
    args: DepthwiseConv2dArgs,
    flat: DepthwiseConv2dArgs,
    before: Seq<i8>,
)
    requires
        flattened(args, flat),
    ensures
        flat.status() == args.status(),
        flat.output(before) == args.output(before),
{
    lemma_flattened_dims(args, flat);
    assert forall|i: int| 0 <= i < args.output_len implies args.output(before)[i]
        == #[trigger] flat.output(before)[i] by {
        lemma_flattened_rows(
            args,
            flat,
            shape::cell_at(args.output_shape@, i),
            args.dims().filter_h as int,
        );
    }
    assert(flat.output(before) =~= args.output(before));
}

impl DepthwiseConv2dArgs {
    /// The sum of the products of the first `n` taps of a filter row, and of their
    /// magnitudes; taps on padding count for nothing.
    pub open spec fn row_sum(self, cell: Cell, filter_y: int, y: int, n: int) -> (int, int)
        decreases n,
    {
        if n <= 0 {
            (0, 0)
        } else {
            let before = self.row_sum(cell, filter_y, y, n - 1);
            match self.columns().source(cell.x, n - 1) {
                Some(x) => {
                    let product = self.input_at(cell.batch, y, x, cell.channel) * self.weight_at(
                        filter_y,
                        n - 1,
                        cell.channel,
                    );
                    (before.0 + product, before.1 + quantize::abs(product))
                },
                None => before,
            }
        }
    }

    /// The sum of the products of the first `n` filter rows, and of their
    /// magnitudes.
    pub open spec fn window_sum(self, cell: Cell, n: int) -> (int, int)
        decreases n,
    {
        if n <= 0 {
            (0, 0)
        } else {
            let before = self.window_sum(cell, n - 1);
            match self.rows().source(cell.y, n - 1) {
                Some(y) => {
                    let row = self.row_sum(cell, n - 1, y, self.dims().filter_w as int);
                    (before.0 + row.0, before.1 + row.1)
                },
                None => before,
            }
        }
    }
}

impl DepthwiseConv2dArgs {
    /// The products of the first `n` taps of a filter row, and `acc` plus each of
    /// their partial sums, fit in 32 bits.
    pub open spec fn row_fits(self, cell: Cell, filter_y: int, y: int, n: int, acc: int) -> bool
        decreases n,
    {
        n <= 0 || {
            &&& self.row_fits(cell, filter_y, y, n - 1, acc)
            &&& self.columns().source(cell.x, n - 1) matches Some(x) ==> quantize::fits_i32(
                self.input_at(cell.batch, y, x, cell.channel) * self.weight_at(
                    filter_y,
                    n - 1,
                    cell.channel,
                ),
            ) && quantize::fits_i32(acc + self.row_sum(cell, filter_y, y, n).0)
        }
    }

    /// The products of the first `n` filter rows, and the bias plus each of their
    /// partial sums, fit in 32 bits.
    pub open spec fn window_fits(self, cell: Cell, n: int) -> bool
        decreases n,
    {
        n <= 0 || {
            &&& self.window_fits(cell, n - 1)
            &&& self.rows().source(cell.y, n - 1) matches Some(y) ==> self.row_fits(
                cell,
                n - 1,
                y,
                self.dims().filter_w as int,
                shape::bias_at(self.bias, cell.channel) + self.window_sum(cell, n - 1).0,
            )
        }
    }
}

proof fn lemma_row_sum(
    args: DepthwiseConv2dArgs,
    cell: Cell,
    filter_y: int,
    y: int,
    n: int,
    acc: int,
)
    ensures
        ({
            let sum = args.row_sum(cell, filter_y, y, n);
            &&& quantize::abs(sum.0) <= sum.1
            &&& quantize::abs(acc) + sum.1 <= i32::MAX ==> args.row_fits(cell, filter_y, y, n, acc)
            &&& args.row_fits(cell, filter_y, y, n, acc) ==> args.over_columns(
                cell,
                filter_y,
                y,
                n,
                acc,
            ) == acc + sum.0
        }),
    decreases n,
{
    if n > 0 {
        lemma_row_sum(args, cell, filter_y, y, n - 1, acc);
    }
}

proof fn lemma_window_sum(args: DepthwiseConv2dArgs, cell: Cell, n: int)
    ensures
        ({
            let sum = args.window_sum(cell, n);
            let bias = shape::bias_at(args.bias, cell.channel);
            &&& quantize::abs(sum.0) <= sum.1
            &&& quantize::abs(bias) + sum.1 <= i32::MAX ==> args.window_fits(cell, n)
            &&& args.window_fits(cell, n) ==> args.over_rows(cell, n) == bias + sum.0
        }),
    decreases n,
{
    if n > 0 {
        lemma_window_sum(args, cell, n - 1);
        if let Some(y) = args.rows().source(cell.y, n - 1) {
            let before = args.window_sum(cell, n - 1);
            lemma_row_sum(
                args,
                cell,
                n - 1,
                y,
                args.dims().filter_w as int,
                shape::bias_at(args.bias, cell.channel) + before.0,
            );
        }
    }
}

/// Where no product and no partial sum leaves 32 bits, the accumulator is the bias
/// plus the sum of all products of an input under the filter and its weight, each
/// relative to its zero point.
pub proof fn lemma_exact_depthwise(args: DepthwiseConv2dArgs, cell: Cell)
    requires
        args.window_fits(cell, args.dims().filter_h as int),
    ensures
        args.accumulated(cell) == shape::bias_at(args.bias, cell.channel) + args.window_sum(
            cell,
            args.dims().filter_h as int,
        ).0,
{
    lemma_window_sum(args, cell, args.dims().filter_h as int);
}

/// No product and no partial sum leaves 32 bits where the magnitudes of the bias and
/// the products add up to less.
pub proof fn lemma_magnitudes_fit(args: DepthwiseConv2dArgs, cell: Cell)
    requires
        quantize::abs(shape::bias_at(args.bias, cell.channel)) + args.window_sum(
            cell,
            args.dims().filter_h as int,
        ).1 <= i32::MAX,
    ensures
        args.window_fits(cell, args.dims().filter_h as int),
{
    lemma_window_sum(args, cell, args.dims().filter_h as int);
}

} // verus!
