//! 2D convolution.
use crate::params::{Conv2dArgs, Conv2dParams};
use crate::quantize;
use crate::shape;
use crate::shape::{Axis, Cell, CellIndex};
use crate::single::Real;
use crate::types::{KernelError, Status};
use vstd::prelude::*;

verus! {

impl Conv2dArgs {
    /// Buffers, shapes and attributes agree.
    pub open spec fn valid(self) -> bool {
        &&& self.input.len() == shape::dims_product(self.input_shape@)
        &&& self.weights.len() == shape::dims_product(self.weights_shape@)
        &&& self.output_len == shape::dims_product(self.output_shape@)
        &&& self.input_shape[0] == self.output_shape[0]
        &&& self.input_shape[3] == self.weights_shape[3]
        &&& self.weights_shape[0] == self.output_shape[3]
        &&& shape::bias_fits(self.bias, self.weights_shape[0] as int)
        &&& self.stride_h > 0
        &&& self.stride_w > 0
        &&& self.dilation_h_factor > 0
        &&& self.dilation_w_factor > 0
    }

    /// The vertical axis.
    pub open spec fn rows(self) -> Axis {
        shape::window_axis(
            self.input_shape[1],
            self.weights_shape[1] as int,
            self.stride_h as int,
            self.dilation_h_factor as int,
            self.padding,
        )
    }

    /// The horizontal axis.
    pub open spec fn columns(self) -> Axis {
        shape::window_axis(
            self.input_shape[2],
            self.weights_shape[2] as int,
            self.stride_w as int,
            self.dilation_w_factor as int,
            self.padding,
        )
    }

    /// An input element, relative to the zero point.
    pub open spec fn input_at(self, batch: int, y: int, x: int, channel: int) -> int {
        self.input[shape::index4(
            batch,
            y,
            x,
            channel,
            self.input_shape[1] as int,
            self.input_shape[2] as int,
            self.input_shape[3] as int,
        )] - self.input_quant.zero_point
    }

    /// A weight, relative to the zero point.
    pub open spec fn weight_at(
        self,
        output_channel: int,
        filter_y: int,
        filter_x: int,
        channel: int,
    ) -> int {
        self.weights[shape::index4(
            output_channel,
            filter_y,
            filter_x,
            channel,
            self.weights_shape[1] as int,
            self.weights_shape[2] as int,
            self.weights_shape[3] as int,
        )] - self.weights_quant.zero_point
    }

    /// `acc` after the first `n` channels of one tap, each step saturating.
    pub open spec fn over_channels(
        self,
        cell: Cell,
        filter_y: int,
        filter_x: int,
        y: int,
        x: int,
        n: int,
        acc: int,
    ) -> int
        decreases n,
    {
        if n <= 0 {
            acc
        } else {
            let product = quantize::clamp_i32(
                self.input_at(cell.batch, y, x, n - 1) * self.weight_at(
                    cell.channel,
                    filter_y,
                    filter_x,
                    n - 1,
                ),
            );
            quantize::clamp_i32(
                self.over_channels(cell, filter_y, filter_x, y, x, n - 1, acc) + product,
            )
        }
    }

    /// `acc` after the first `n` taps of one filter row; taps on padding are
    /// skipped.
    pub open spec fn over_columns(self, cell: Cell, filter_y: int, y: int, n: int, acc: int) -> int
        decreases n,
    {
        if n <= 0 {
            acc
        } else {
            let before = self.over_columns(cell, filter_y, y, n - 1, acc);
            match self.columns().source(cell.x, n - 1) {
                Some(x) => self.over_channels(
                    cell,
                    filter_y,
                    n - 1,
                    y,
                    x,
                    self.input_shape[3] as int,
                    before,
                ),
                None => before,
            }
        }
    }

    /// The bias after the first `n` filter rows.
    pub open spec fn over_rows(self, cell: Cell, n: int) -> int
        decreases n,
    {
        if n <= 0 {
            shape::bias_at(self.bias, cell.channel)
        } else {
            let before = self.over_rows(cell, n - 1);
            match self.rows().source(cell.y, n - 1) {
                Some(y) => self.over_columns(
                    cell,
                    n - 1,
                    y,
                    self.weights_shape[2] as int,
                    before,
                ),
                None => before,
            }
        }
    }

    /// The accumulator of one output element.
    pub open spec fn accumulated(self, cell: Cell) -> int {
        self.over_rows(cell, self.weights_shape[1] as int)
    }

    /// The scale of the accumulators of one output channel.
    pub open spec fn scale(self, channel: int) -> Real {
        quantize::channel_scale(
            self.input_quant,
            self.weights_quant,
            self.channel_scales,
            self.output_quant,
            channel,
        )
    }

    /// One element of the output.
    pub open spec fn element(self, cell: Cell) -> int {
        quantize::activated(
            quantize::requantized(
                self.accumulated(cell),
                quantize::real_multiplier(self.scale(cell.channel)),
                self.output_quant.zero_point as int,
            ),
            self.activation,
            self.output_quant,
        )
    }

    /// The taps of one output element are found and centred without overflow.
    pub open spec fn taps_defined(self, cell: Cell) -> bool {
        &&& forall|f: int|
            0 <= f < self.weights_shape[1] ==> #[trigger] self.rows().source_defined(cell.y, f)
        &&& forall|f: int, g: int|
            #![trigger self.rows().source(cell.y, f), self.columns().source_defined(cell.x, g)]
            0 <= f < self.weights_shape[1] && 0 <= g < self.weights_shape[2] && self.rows().source(
                cell.y,
                f,
            ) is Some ==> self.columns().source_defined(cell.x, g)
        &&& forall|f: int, g: int, c: int|
            #![trigger self.weight_at(cell.channel, f, g, c)]
            0 <= f < self.weights_shape[1] && 0 <= g < self.weights_shape[2] && 0 <= c
                < self.input_shape[3] && self.rows().source(cell.y, f) is Some
                && self.columns().source(cell.x, g) is Some ==> quantize::fits_i32(
                self.input_at(
                    cell.batch,
                    self.rows().source(cell.y, f)->0,
                    self.columns().source(cell.x, g)->0,
                    c,
                ),
            ) && quantize::fits_i32(self.weight_at(cell.channel, f, g, c))
    }

    /// One output element is computed without overflow.
    pub open spec fn element_defined(self, cell: Cell) -> bool {
        &&& self.scale(cell.channel) != (Real::Infinite { negative: false })
        &&& self.taps_defined(cell)
        &&& quantize::requantize_defined(
            self.accumulated(cell),
            quantize::real_multiplier(self.scale(cell.channel)),
            self.output_quant.zero_point as int,
        )
        &&& quantize::activation_defined(self.activation, self.output_quant)
    }

    /// Extent and padding of the filter are computed without overflow.
    pub open spec fn geometry_defined(self) -> bool {
        &&& shape::window_defined(
            self.input_shape[1],
            self.weights_shape[1] as int,
            self.stride_h as int,
            self.dilation_h_factor as int,
            self.padding,
        )
        &&& shape::window_defined(
            self.input_shape[2],
            self.weights_shape[2] as int,
            self.stride_w as int,
            self.dilation_w_factor as int,
            self.padding,
        )
    }

    /// No step that the operator takes overflows.
    pub open spec fn defined(self) -> bool {
        &&& shape::product_defined(self.input_shape@)
        &&& self.input.len() == shape::dims_product(self.input_shape@) ==> {
            &&& shape::product_defined(self.weights_shape@)
            &&& self.weights.len() == shape::dims_product(self.weights_shape@)
                ==> shape::product_defined(self.output_shape@)
        }
        &&& self.valid() ==> {
            &&& self.geometry_defined()
            &&& forall|i: int|
                0 <= i < self.output_len ==> #[trigger] self.element_defined(
                    shape::cell_at(self.output_shape@, i),
                )
        }
    }

    /// Success, or the error that is returned.
    pub open spec fn status(self) -> Status {
        if self.valid() {
            Ok(())
        } else {
            Err(KernelError::InvalidShape)
        }
    }

    /// The output buffer after the operator, given its contents before.
    pub open spec fn output(self, before: Seq<i8>) -> Seq<i8> {
        if self.valid() {
            Seq::new(
                self.output_len,
                |i: int| self.element(shape::cell_at(self.output_shape@, i)) as i8,
            )
        } else {
            before
        }
    }
}

fn accumulate_channels(
    params: &Conv2dParams<'_>,
    cell: CellIndex,
    filter_y: usize,
    filter_x: usize,
    y: usize,
    x: usize,
    acc: i32,
) -> (r: i32)
    requires
        params@.valid(),
        shape::cell_within(cell@, params@.output_shape@),
        filter_y < params@.weights_shape[1],
        filter_x < params@.weights_shape[2],
        params@.rows().source(cell@.y, filter_y as int) == Some(y as int),
        params@.columns().source(cell@.x, filter_x as int) == Some(x as int),
        params@.taps_defined(cell@),
    ensures
        r == params@.over_channels(
            cell@,
            filter_y as int,
            filter_x as int,
            y as int,
            x as int,
            params@.input_shape[3] as int,
            acc as int,
        ),
{
    let ghost args = params@;
    let mut acc: i32 = acc;
    let ghost start = acc as int;
    let channels: usize = params.input_shape[3];
    let mut channel: usize = 0;
    while channel < channels
        invariant
            args == params@,
            args.valid(),
            shape::cell_within(cell@, args.output_shape@),
            filter_y < args.weights_shape[1],
            filter_x < args.weights_shape[2],
            args.rows().source(cell@.y, filter_y as int) == Some(y as int),
            args.columns().source(cell@.x, filter_x as int) == Some(x as int),
            args.taps_defined(cell@),
            channel <= channels == args.input_shape[3],
            acc == args.over_channels(
                cell@,
                filter_y as int,
                filter_x as int,
                y as int,
                x as int,
                channel as int,
                start,
            ),
        decreases channels - channel,
    {
        proof {
            assert(params.input.len() == args.input.len());
            assert(params.weights.len() == args.weights.len());
            shape::lemma_product4(args.input_shape@);
            shape::lemma_product4(args.weights_shape@);
            shape::lemma_index4_bound(
                cell@.batch,
                y as int,
                x as int,
                channel as int,
                args.input_shape[0] as int,
                args.input_shape[1] as int,
                args.input_shape[2] as int,
                args.input_shape[3] as int,
            );
            shape::lemma_index4_bound(
                cell@.channel,
                filter_y as int,
                filter_x as int,
                channel as int,
                args.weights_shape[0] as int,
                args.weights_shape[1] as int,
                args.weights_shape[2] as int,
                args.weights_shape[3] as int,
            );
            assert(quantize::fits_i32(
                args.weight_at(cell@.channel, filter_y as int, filter_x as int, channel as int),
            ));
        }
        let input: i32 = params.input[shape::nhwc_index(
            cell.batch,
            y,
            x,
            channel,
            params.input_shape[1],
            params.input_shape[2],
            channels,
        )] as i32 - params.input_quant.zero_point;
        let weight: i32 = params.weights[shape::conv_weight_index(
            cell.channel,
            filter_y,
            filter_x,
            channel,
            params.weights_shape[1],
            params.weights_shape[2],
            channels,
        )] as i32 - params.weights_quant.zero_point;
        acc = quantize::saturating_add(acc, quantize::saturating_mul(input, weight));
        channel = channel + 1;
    }
    acc
}

fn accumulate_columns(
    params: &Conv2dParams<'_>,
    cell: CellIndex,
    columns: Axis,
    filter_y: usize,
    y: usize,
    acc: i32,
) -> (r: i32)
    requires
        params@.valid(),
        columns == params@.columns(),
        shape::cell_within(cell@, params@.output_shape@),
        filter_y < params@.weights_shape[1],
        params@.rows().source(cell@.y, filter_y as int) == Some(y as int),
        params@.taps_defined(cell@),
    ensures
        r == params@.over_columns(
            cell@,
            filter_y as int,
            y as int,
            params@.weights_shape[2] as int,
            acc as int,
        ),
{
    let ghost args = params@;
    let mut acc: i32 = acc;
    let ghost start = acc as int;
    let filter_w: usize = params.weights_shape[2];
    let mut filter_x: usize = 0;
    while filter_x < filter_w
        invariant
            args == params@,
            args.valid(),
            columns == args.columns(),
            shape::cell_within(cell@, args.output_shape@),
            filter_y < args.weights_shape[1],
            args.rows().source(cell@.y, filter_y as int) == Some(y as int),
            args.taps_defined(cell@),
            filter_x <= filter_w == args.weights_shape[2],
            acc == args.over_columns(cell@, filter_y as int, y as int, filter_x as int, start),
        decreases filter_w - filter_x,
    {
        if let Some(x) = columns.input_index(cell.x, filter_x) {
            acc = accumulate_channels(params, cell, filter_y, filter_x, y, x, acc);
        }
        filter_x = filter_x + 1;
    }
    acc
}

fn accumulate(params: &Conv2dParams<'_>, cell: CellIndex, rows: Axis, columns: Axis) -> (r: i32)
    requires
        params@.valid(),
        rows == params@.rows(),
        columns == params@.columns(),
        shape::cell_within(cell@, params@.output_shape@),
        params@.taps_defined(cell@),
    ensures
        r == params@.accumulated(cell@),
{
    let ghost args = params@;
    let mut acc: i32 = shape::channel_bias(params.bias, cell.channel);
    let filter_h: usize = params.weights_shape[1];
    let mut filter_y: usize = 0;
    while filter_y < filter_h
        invariant
            args == params@,
            args.valid(),
            rows == args.rows(),
            columns == args.columns(),
            shape::cell_within(cell@, args.output_shape@),
            args.taps_defined(cell@),
            filter_y <= filter_h == args.weights_shape[1],
            acc == args.over_rows(cell@, filter_y as int),
        decreases filter_h - filter_y,
    {
        if let Some(y) = rows.input_index(cell.y, filter_y) {
            acc = accumulate_columns(params, cell, columns, filter_y, y, acc);
        }
        filter_y = filter_y + 1;
    }
    acc
}

/// Computes one element of the output.
fn element(params: &Conv2dParams<'_>, cell: CellIndex, rows: Axis, columns: Axis) -> (r: i8)
    requires
        params@.valid(),
        rows == params@.rows(),
        columns == params@.columns(),
        shape::cell_within(cell@, params@.output_shape@),
        params@.element_defined(cell@),
    ensures
        r == params@.element(cell@),
{
    let (multiplier, shift) = quantize::output_channel_multiplier_shift(
        params.input_quant,
        params.weights_quant,
        params.weights_per_channel_quant,
        params.output_quant,
        cell.channel,
    );
    let acc: i32 = accumulate(params, cell, rows, columns);
    let scaled: i32 = quantize::requantize(acc, multiplier, shift, params.output_quant);
    quantize::apply_activation(scaled, params.activation, params.output_quant)
}

/// Executes a 2D convolution.
pub fn conv2d(params: Conv2dParams<'_>) -> (r: Status)
    requires
        params@.defined(),
    ensures
        r == params@.status(),
        final(params.output)@ == params@.output(old(params.output)@),
        final(params.scratch)@ == old(params.scratch)@,
{
    let ghost args = params@;
    let ghost given = params;
    shape::validate_len(params.input, shape::product(&params.input_shape))?;
    shape::validate_len(params.weights, shape::product(&params.weights_shape))?;
    shape::validate_len(params.output, shape::product(&params.output_shape))?;
    if params.input_shape[0] != params.output_shape[0] || params.input_shape[3]
        != params.weights_shape[3] || params.weights_shape[0] != params.output_shape[3] {
        return Err(KernelError::InvalidShape);
    }
    shape::validate_bias(params.bias, params.weights_shape[0])?;
    let stride_h: usize = shape::positive_i32_to_usize(params.stride_h)?;
    let stride_w: usize = shape::positive_i32_to_usize(params.stride_w)?;
    let dilation_h: usize = shape::positive_i32_to_usize(params.dilation_h_factor)?;
    let dilation_w: usize = shape::positive_i32_to_usize(params.dilation_w_factor)?;
    let rows = Axis::new(
        params.input_shape[1],
        params.weights_shape[1],
        stride_h,
        dilation_h,
        params.padding,
    );
    let columns = Axis::new(
        params.input_shape[2],
        params.weights_shape[2],
        stride_w,
        dilation_w,
        params.padding,
    );
    let len: usize = params.output.len();
    let mut index: usize = 0;
    while index < len
        invariant
            params@ == args,
            args.valid(),
            args.defined(),
            rows == args.rows(),
            columns == args.columns(),
            index <= len == args.output_len,
            forall|i: int|
                0 <= i < index ==> params.output@[i] == #[trigger] args.output(
                    given.output@,
                )[i],
            final(params.output)@ == final(given.output)@,
        decreases len - index,
    {
        let cell = shape::nhwc_cell(params.output_shape, index);
        assert(args.element_defined(shape::cell_at(args.output_shape@, index as int)));
        let value: i8 = element(&params, cell, rows, columns);
        params.output[index] = value;
        index = index + 1;
    }
    assert(params.output@ =~= args.output(given.output@));
    Ok(())
}

impl Conv2dArgs {
    /// The product of one channel of a tap.
    pub open spec fn product(
        self,
        cell: Cell,
        filter_y: int,
        filter_x: int,
        y: int,
        x: int,
        channel: int,
    ) -> int {
        self.input_at(cell.batch, y, x, channel) * self.weight_at(
            cell.channel,
            filter_y,
            filter_x,
            channel,
        )
    }

    /// The sum of the products of the first `n` channels of a tap, and of their
    /// magnitudes.
    pub open spec fn tap_sum(
        self,
        cell: Cell,
        filter_y: int,
        filter_x: int,
        y: int,
        x: int,
        n: int,
    ) -> (int, int)
        decreases n,
    {
        if n <= 0 {
            (0, 0)
        } else {
            let before = self.tap_sum(cell, filter_y, filter_x, y, x, n - 1);
            let product = self.product(cell, filter_y, filter_x, y, x, n - 1);
            (before.0 + product, before.1 + quantize::abs(product))
        }
    }

    /// The sum of the products of the first `n` taps of a filter row, and of their
    /// magnitudes; taps on padding count for nothing.
    pub open spec fn row_sum(self, cell: Cell, filter_y: int, y: int, n: int) -> (int, int)
        decreases n,
    {
        if n <= 0 {
            (0, 0)
        } else {
            let before = self.row_sum(cell, filter_y, y, n - 1);
            match self.columns().source(cell.x, n - 1) {
                Some(x) => {
                    let tap = self.tap_sum(
                        cell,
                        filter_y,
                        n - 1,
                        y,
                        x,
                        self.input_shape[3] as int,
                    );
                    (before.0 + tap.0, before.1 + tap.1)
                },
                None => before,
            }
        }
    }

    /// The sum of the products of the first `n` filter rows, and of their
    /// magnitudes.
    pub open spec fn window_sum(self, cell: Cell, n: int) -> (int, int)
        decreases n,
    {
        if n <= 0 {
            (0, 0)
        } else {
            let before = self.window_sum(cell, n - 1);
            match self.rows().source(cell.y, n - 1) {
                Some(y) => {
                    let row = self.row_sum(cell, n - 1, y, self.weights_shape[2] as int);
                    (before.0 + row.0, before.1 + row.1)
                },
                None => before,
            }
        }
    }
}

impl Conv2dArgs {
    /// The products of the first `n` channels of a tap, and `acc` plus each of their
    /// partial sums, fit in 32 bits.
    pub open spec fn tap_fits(
        self,
        cell: Cell,
        filter_y: int,
        filter_x: int,
        y: int,
        x: int,
        n: int,
        acc: int,
    ) -> bool
        decreases n,
    {
        n <= 0 || {
            &&& self.tap_fits(cell, filter_y, filter_x, y, x, n - 1, acc)
            &&& quantize::fits_i32(self.product(cell, filter_y, filter_x, y, x, n - 1))
            &&& quantize::fits_i32(acc + self.tap_sum(cell, filter_y, filter_x, y, x, n).0)
        }
    }

    /// The products of the first `n` taps of a filter row, and `acc` plus each of
    /// their partial sums, fit in 32 bits.
    pub open spec fn row_fits(self, cell: Cell, filter_y: int, y: int, n: int, acc: int) -> bool
        decreases n,
    {
        n <= 0 || {
            &&& self.row_fits(cell, filter_y, y, n - 1, acc)
            &&& self.columns().source(cell.x, n - 1) matches Some(x) ==> self.tap_fits(
                cell,
                filter_y,
                n - 1,
                y,
                x,
                self.input_shape[3] as int,
                acc + self.row_sum(cell, filter_y, y, n - 1).0,
            )
        }
    }

    /// The products of the first `n` filter rows, and the bias plus each of their
    /// partial sums, fit in 32 bits.
    pub open spec fn window_fits(self, cell: Cell, n: int) -> bool
        decreases n,
    {
        n <= 0 || {
            &&& self.window_fits(cell, n - 1)
            &&& self.rows().source(cell.y, n - 1) matches Some(y) ==> self.row_fits(
                cell,
                n - 1,
                y,
                self.weights_shape[2] as int,
                shape::bias_at(self.bias, cell.channel) + self.window_sum(cell, n - 1).0,
            )
        }
    }
}

proof fn lemma_tap_sum(
    args: Conv2dArgs,
    cell: Cell,
    filter_y: int,
    filter_x: int,
    y: int,
    x: int,
    n: int,
    acc: int,
)
    ensures
        ({
            let sum = args.tap_sum(cell, filter_y, filter_x, y, x, n);
            &&& quantize::abs(sum.0) <= sum.1
            &&& quantize::abs(acc) + sum.1 <= i32::MAX ==> args.tap_fits(
                cell,
                filter_y,
                filter_x,
                y,
                x,
                n,
                acc,
            )
            &&& args.tap_fits(cell, filter_y, filter_x, y, x, n, acc) ==> args.over_channels(
                cell,
                filter_y,
                filter_x,
                y,
                x,
                n,
                acc,
            ) == acc + sum.0
        }),
    decreases n,
{
    if n > 0 {
        lemma_tap_sum(args, cell, filter_y, filter_x, y, x, n - 1, acc);
    }
}

proof fn lemma_row_sum(args: Conv2dArgs, cell: Cell, filter_y: int, y: int, n: int, acc: int)
    ensures
        ({
            let sum = args.row_sum(cell, filter_y, y, n);
            &&& quantize::abs(sum.0) <= sum.1
            &&& quantize::abs(acc) + sum.1 <= i32::MAX ==> args.row_fits(cell, filter_y, y, n, acc)
            &&& args.row_fits(cell, filter_y, y, n, acc) ==> args.over_columns(
                cell,
                filter_y,
                y,
                n,
                acc,
            ) == acc + sum.0
        }),
    decreases n,
{
    if n > 0 {
        lemma_row_sum(args, cell, filter_y, y, n - 1, acc);
        if let Some(x) = args.columns().source(cell.x, n - 1) {
            let before = args.row_sum(cell, filter_y, y, n - 1);
            lemma_tap_sum(
                args,
                cell,
                filter_y,
                n - 1,
                y,
                x,
                args.input_shape[3] as int,
                acc + before.0,
            );
        }
    }
}

proof fn lemma_window_sum(args: Conv2dArgs, cell: Cell, n: int)
    ensures
        ({
            let sum = args.window_sum(cell, n);
            let bias = shape::bias_at(args.bias, cell.channel);
            &&& quantize::abs(sum.0) <= sum.1
            &&& quantize::abs(bias) + sum.1 <= i32::MAX ==> args.window_fits(cell, n)
            &&& args.window_fits(cell, n) ==> args.over_rows(cell, n) == bias + sum.0
        }),
    decreases n,
{
    if n > 0 {
        lemma_window_sum(args, cell, n - 1);
        if let Some(y) = args.rows().source(cell.y, n - 1) {
            let before = args.window_sum(cell, n - 1);
            lemma_row_sum(
                args,
                cell,
                n - 1,
                y,
                args.weights_shape[2] as int,
                shape::bias_at(args.bias, cell.channel) + before.0,
            );
        }
    }
}

/// Where no product and no partial sum leaves 32 bits, the accumulator is the bias
/// plus the sum of all products of an input under the filter and its weight, each
/// relative to its zero point.
pub proof fn lemma_exact_convolution(args: Conv2dArgs, cell: Cell)
    requires
        args.window_fits(cell, args.weights_shape[1] as int),
    ensures
        args.accumulated(cell) == shape::bias_at(args.bias, cell.channel) + args.window_sum(
            cell,
            args.weights_shape[1] as int,
        ).0,
{
    lemma_window_sum(args, cell, args.weights_shape[1] as int);
}

/// No product and no partial sum leaves 32 bits where the magnitudes of the bias and
/// the products add up to less.
pub proof fn lemma_magnitudes_fit(args: Conv2dArgs, cell: Cell)
    requires
        quantize::abs(shape::bias_at(args.bias, cell.channel)) + args.window_sum(
            cell,
            args.weights_shape[1] as int,
        ).1 <= i32::MAX,
    ensures
        args.window_fits(cell, args.weights_shape[1] as int),
{
    lemma_window_sum(args, cell, args.weights_shape[1] as int);
}

} // verus!
