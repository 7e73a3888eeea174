//! Average and max pooling.
use crate::params::{PoolArgs, PoolParams};
use crate::quantize;
use crate::quantize::Double;
use crate::shape;
use crate::shape::{Axis, Cell, CellIndex};
use crate::single::{Real, Single};
use crate::types::{KernelError, Padding, Status};
use vstd::prelude::*;

verus! {

/// What a pooling operation computes from a window.
#[derive(Clone, Copy, Debug, PartialEq, Eq, Structural)]
pub enum PoolKind {
    /// The mean of the window.
    Average,
    /// The largest element of the window.
    Max,
}

/// Sum of the distances of the elements from the zero point.
pub open spec fn centered_sum(window: Seq<i8>, zero_point: int) -> int
    decreases window.len(),
{
    if window.len() == 0 {
        0
    } else {
        centered_sum(window.drop_last(), zero_point) + (window.last() - zero_point)
    }
}

/// The largest element, or the smallest `i8` where there is none.
pub open spec fn largest(window: Seq<i8>) -> int
    decreases window.len(),
{
    if window.len() == 0 {
        -128
    } else {
        quantize::max(largest(window.drop_last()), window.last() as int)
    }
}

/// Distances and partial sums fit in 32 bits.
pub open spec fn sum_defined(window: Seq<i8>, zero_point: int) -> bool {
    &&& window.len() <= i32::MAX
    &&& forall|i: int|
        0 <= i < window.len() ==> quantize::fits_i32(#[trigger] window[i] - zero_point)
    &&& forall|i: int|
        0 <= i <= window.len() ==> quantize::fits_i32(
            #[trigger] centered_sum(window.take(i), zero_point),
        )
}

impl PoolArgs {
    /// Buffers, shapes and attributes agree.
    pub open spec fn valid(self) -> bool {
        &&& self.input.len() == shape::dims_product(self.input_shape@)
        &&& self.output_len == shape::dims_product(self.output_shape@)
        &&& self.input_shape[0] == self.output_shape[0]
        &&& self.input_shape[3] == self.output_shape[3]
        &&& self.stride_h > 0
        &&& self.stride_w > 0
        &&& self.filter_h > 0
        &&& self.filter_w > 0
    }

    /// The vertical axis.
    pub open spec fn rows(self) -> Axis {
        shape::window_axis(
            self.input_shape[1],
            self.filter_h as int,
            self.stride_h as int,
            1,
            self.padding,
        )
    }

    /// The horizontal axis.
    pub open spec fn columns(self) -> Axis {
        shape::window_axis(
            self.input_shape[2],
            self.filter_w as int,
            self.stride_w as int,
            1,
            self.padding,
        )
    }

    /// An input element.
    pub open spec fn input_at(self, batch: int, y: int, x: int, channel: int) -> i8 {
        self.input[shape::index4(
            batch,
            y,
            x,
            channel,
            self.input_shape[1] as int,
            self.input_shape[2] as int,
            self.input_shape[3] as int,
        )]
    }

    /// The input elements under the first `n` taps of one filter row; taps on
    /// padding cover none.
    pub open spec fn row_window(self, cell: Cell, y: int, n: int) -> Seq<i8>
        decreases n,
    {
        if n <= 0 {
            Seq::empty()
        } else {
            let before = self.row_window(cell, y, n - 1);
            match self.columns().source(cell.x, n - 1) {
                Some(x) => before.push(self.input_at(cell.batch, y, x, cell.channel)),
                None => before,
            }
        }
    }

    /// The input elements under the first `n` filter rows.
    pub open spec fn window_rows(self, cell: Cell, n: int) -> Seq<i8>
        decreases n,
    {
        if n <= 0 {
            Seq::empty()
        } else {
            let before = self.window_rows(cell, n - 1);
            match self.rows().source(cell.y, n - 1) {
                Some(y) => before + self.row_window(cell, y, self.filter_w as int),
                None => before,
            }
        }
    }

    /// The input elements under the window of one output element.
    pub open spec fn window(self, cell: Cell) -> Seq<i8> {
        self.window_rows(cell, self.filter_h as int)
    }

    /// The scale of the pooled values.
    pub open spec fn scale(self) -> Real {
        self.input_quant.real_scale().over(self.output_quant.real_scale())
    }

    /// What a window is reduced to, relative to the zero point.
    pub open spec fn pooled(self, kind: PoolKind, window: Seq<i8>) -> int {
        match kind {
            PoolKind::Average => quantize::rounded_quotient(
                centered_sum(window, self.input_quant.zero_point as int),
                window.len() as int,
            ),
            PoolKind::Max => largest(window) - self.input_quant.zero_point,
        }
    }

    /// One element of the output.
    pub open spec fn element(self, kind: PoolKind, cell: Cell) -> int {
        quantize::activated(
            quantize::requantized(
                self.pooled(kind, self.window(cell)),
                quantize::real_multiplier(self.scale()),
                self.output_quant.zero_point as int,
            ),
            self.activation,
            self.output_quant,
        )
    }

    /// Number of output elements before the first one, from `i` on, whose window
    /// lies on padding alone.
    pub open spec fn filled_from(self, i: int) -> int
        decreases self.output_len - i,
    {
        if i >= self.output_len || self.window(shape::cell_at(self.output_shape@, i)).len() == 0 {
            i
        } else {
            self.filled_from(i + 1)
        }
    }

    /// Number of output elements that are written.
    pub open spec fn filled(self) -> int {
        if self.valid() {
            self.filled_from(0)
        } else {
            0
        }
    }

    /// The window of one output element is summed without overflow.
    pub open spec fn window_defined(self, cell: Cell) -> bool {
        &&& forall|f: int|
            0 <= f < self.filter_h ==> #[trigger] self.rows().source_defined(cell.y, f)
        &&& forall|f: int, g: int|
            #![trigger self.rows().source(cell.y, f), self.columns().source_defined(cell.x, g)]
            0 <= f < self.filter_h && 0 <= g < self.filter_w && self.rows().source(
                cell.y,
                f,
            ) is Some ==> self.columns().source_defined(cell.x, g)
        &&& sum_defined(self.window(cell), self.input_quant.zero_point as int)
    }

    /// One output element is computed from its window without overflow.
    pub open spec fn element_defined(self, kind: PoolKind, cell: Cell) -> bool {
        let window = self.window(cell);
        &&& kind == PoolKind::Average ==> quantize::rounded_quotient_defined(
            centered_sum(window, self.input_quant.zero_point as int),
            window.len() as int,
        )
        &&& quantize::requantize_defined(
            self.pooled(kind, window),
            quantize::real_multiplier(self.scale()),
            self.output_quant.zero_point as int,
        )
        &&& quantize::activation_defined(self.activation, self.output_quant)
    }

    /// Padding and multiplier are computed without overflow.
    pub open spec fn geometry_defined(self) -> bool {
        &&& shape::window_defined(
            self.input_shape[1],
            self.filter_h as int,
            self.stride_h as int,
            1,
            self.padding,
        )
        &&& shape::window_defined(
            self.input_shape[2],
            self.filter_w as int,
            self.stride_w as int,
            1,
            self.padding,
        )
        &&& self.scale() != (Real::Infinite { negative: false })
    }

    /// No step that the operator takes overflows.
    pub open spec fn defined(self, kind: PoolKind) -> bool {
        &&& shape::product_defined(self.input_shape@)
        &&& self.input.len() == shape::dims_product(self.input_shape@) ==> shape::product_defined(
            self.output_shape@,
        )
        &&& self.valid() ==> {
            &&& self.geometry_defined()
            &&& forall|i: int|
                0 <= i < self.output_len && i <= self.filled() ==> #[trigger] self.window_defined(
                    shape::cell_at(self.output_shape@, i),
                )
            &&& forall|i: int|
                0 <= i < self.filled() ==> #[trigger] self.element_defined(
                    kind,
                    shape::cell_at(self.output_shape@, i),
                )
        }
    }

    /// Success, or the error that is returned.
    pub open spec fn status(self) -> Status {
        if self.valid() && self.filled() == self.output_len {
            Ok(())
        } else {
            Err(KernelError::InvalidShape)
        }
    }

    /// The output buffer after the operator, given its contents before.
    pub open spec fn output(self, kind: PoolKind, before: Seq<i8>) -> Seq<i8> {
        Seq::new(
            self.output_len,
            |i: int|
                if i < self.filled() {
                    self.element(kind, shape::cell_at(self.output_shape@, i)) as i8
                } else {
                    before[i]
                },
        )
    }
}

/// A window as it is reduced.
struct Pooled {
    acc: i32,
    count: i32,
    max_value: i8,
}

impl Pooled {
    /// The reduction of the elements seen so far.
    spec fn of(self, window: Seq<i8>, zero_point: int) -> bool {
        &&& self.acc == centered_sum(window, zero_point)
        &&& self.count == window.len()
        &&& self.max_value == largest(window)
    }
}

proof fn lemma_prefix(window: Seq<i8>, seen: Seq<i8>, element: i8, zero_point: int)
    requires
        seen.push(element).is_prefix_of(window),
        sum_defined(window, zero_point),
    ensures
        quantize::fits_i32(element - zero_point),
        quantize::fits_i32(centered_sum(seen, zero_point) + (element - zero_point)),
        seen.len() < i32::MAX,
        centered_sum(seen.push(element), zero_point) == centered_sum(seen, zero_point) + (element
            - zero_point),
        largest(seen.push(element)) == quantize::max(largest(seen), element as int),
{
    let next = seen.push(element);
    assert(next.drop_last() =~= seen);
    assert(window.take(next.len() as int) =~= next);
    assert(next[seen.len() as int] == element);
    assert(window[seen.len() as int] == element);
    assert(quantize::fits_i32(centered_sum(window.take(next.len() as int), zero_point)));
}

/// What is under the first taps of a row comes first under the whole row.
proof fn lemma_row_prefix(args: PoolArgs, cell: Cell, y: int, n: int, m: int)
    requires
        n <= m,
    ensures
        args.row_window(cell, y, n).is_prefix_of(args.row_window(cell, y, m)),
    decreases m - n,
{
    if n < m {
        lemma_row_prefix(args, cell, y, n, m - 1);
    }
}

/// What is under the first rows comes first under the whole filter.
proof fn lemma_rows_prefix(args: PoolArgs, cell: Cell, n: int, m: int)
    requires
        n <= m,
    ensures
        args.window_rows(cell, n).is_prefix_of(args.window_rows(cell, m)),
    decreases m - n,
{
    if n < m {
        lemma_rows_prefix(args, cell, n, m - 1);
    }
}

fn pool_row(
    params: &PoolParams<'_>,
    cell: CellIndex,
    columns: Axis,
    filter_y: usize,
    y: usize,
    start: Pooled,
) -> (r: Pooled)
    requires
        params@.valid(),
        columns == params@.columns(),
        shape::cell_within(cell@, params@.output_shape@),
        params@.window_defined(cell@),
        filter_y < params@.filter_h,
        params@.rows().source(cell@.y, filter_y as int) == Some(y as int),
        start.of(
            params@.window_rows(cell@, filter_y as int),
            params@.input_quant.zero_point as int,
        ),
    ensures
        r.of(
            params@.window_rows(cell@, filter_y + 1),
            params@.input_quant.zero_point as int,
        ),
{
    let ghost args = params@;
    let ghost zero_point = args.input_quant.zero_point as int;
    let ghost before = args.window_rows(cell@, filter_y as int);
    let mut r = start;
    let filter_w: usize = params.filter_w as usize;
    let mut filter_x: usize = 0;
    assert(before + args.row_window(cell@, y as int, 0) =~= before);
    while filter_x < filter_w
        invariant
            args == params@,
            args.valid(),
            columns == args.columns(),
            shape::cell_within(cell@, args.output_shape@),
            args.window_defined(cell@),
            filter_y < args.filter_h,
            args.rows().source(cell@.y, filter_y as int) == Some(y as int),
            zero_point == args.input_quant.zero_point,
            before == args.window_rows(cell@, filter_y as int),
            filter_x <= filter_w == args.filter_w,
            r.of(before + args.row_window(cell@, y as int, filter_x as int), zero_point),
        decreases filter_w - filter_x,
    {
        if let Some(x) = columns.input_index(cell.x, filter_x) {
            proof {
                assert(params.input.len() == args.input.len());
                shape::lemma_product4(args.input_shape@);
                shape::lemma_index4_bound(
                    cell@.batch,
                    y as int,
                    x as int,
                    cell@.channel,
                    args.input_shape[0] as int,
                    args.input_shape[1] as int,
                    args.input_shape[2] as int,
                    args.input_shape[3] as int,
                );
            }
            let input: i8 = params.input[shape::nhwc_index(
                cell.batch,
                y,
                x,
                cell.channel,
                params.input_shape[1],
                params.input_shape[2],
                params.input_shape[3],
            )];
            proof {
                let seen = before + args.row_window(cell@, y as int, filter_x as int);
                let next = args.row_window(cell@, y as int, filter_x + 1);
                assert(seen.push(input) =~= before + next);
                lemma_row_prefix(args, cell@, y as int, filter_x + 1, filter_w as int);
                lemma_rows_prefix(args, cell@, filter_y + 1, args.filter_h as int);
                assert(args.window_rows(cell@, filter_y + 1) == before + args.row_window(
                    cell@,
                    y as int,
                    filter_w as int,
                ));
                assert(seen.push(input).is_prefix_of(args.window(cell@)));
                lemma_prefix(args.window(cell@), seen, input, zero_point);
            }
            r.acc = r.acc + (input as i32 - params.input_quant.zero_point);
            r.count = r.count + 1;
            if input > r.max_value {
                r.max_value = input;
            }
        }
        filter_x = filter_x + 1;
    }
    r
}

fn pool_window(params: &PoolParams<'_>, cell: CellIndex, rows: Axis, columns: Axis) -> (r: Pooled)
    requires
        params@.valid(),
        rows == params@.rows(),
        columns == params@.columns(),
        shape::cell_within(cell@, params@.output_shape@),
        params@.window_defined(cell@),
    ensures
        r.of(params@.window(cell@), params@.input_quant.zero_point as int),
{
    let ghost args = params@;
    let ghost zero_point = args.input_quant.zero_point as int;
    let filter_h: usize = params.filter_h as usize;
    let mut r = Pooled { acc: 0, count: 0, max_value: -128 };
    let mut filter_y: usize = 0;
    while filter_y < filter_h
        invariant
            args == params@,
            args.valid(),
            rows == args.rows(),
            columns == args.columns(),
            shape::cell_within(cell@, args.output_shape@),
            args.window_defined(cell@),
            zero_point == args.input_quant.zero_point,
            filter_y <= filter_h == args.filter_h,
            r.of(args.window_rows(cell@, filter_y as int), zero_point),
        decreases filter_h - filter_y,
    {
        if let Some(y) = rows.input_index(cell.y, filter_y) {
            r = pool_row(params, cell, columns, filter_y, y, r);
        }
        filter_y = filter_y + 1;
    }
    r
}

/// The number of written elements lies beyond every element that is reached.
proof fn lemma_filled(args: PoolArgs, i: int)
    requires
        0 <= i <= args.output_len,
    ensures
        i <= args.filled_from(i) <= args.output_len,
    decreases args.output_len - i,
{
    if i < args.output_len && args.window(shape::cell_at(args.output_shape@, i)).len() != 0 {
        lemma_filled(args, i + 1);
    }
}

/// Reduces the window of every output element.
pub fn pool(params: PoolParams<'_>, kind: PoolKind) -> (r: Status)
    requires
        params@.defined(kind),
    ensures
        r == params@.status(),
        final(params.output)@ == params@.output(kind, old(params.output)@),
{
    let ghost args = params@;
    let ghost given = params;
    assert(!args.valid() ==> args.output(kind, given.output@) =~= given.output@);
    shape::validate_len(params.input, shape::product(&params.input_shape))?;
    shape::validate_len(params.output, shape::product(&params.output_shape))?;
    if params.input_shape[0] != params.output_shape[0] || params.input_shape[3]
        != params.output_shape[3] {
        return Err(KernelError::InvalidShape);
    }
    let stride_h: usize = shape::positive_i32_to_usize(params.stride_h)?;
    let stride_w: usize = shape::positive_i32_to_usize(params.stride_w)?;
    let filter_h: usize = shape::positive_i32_to_usize(params.filter_h)?;
    let filter_w: usize = shape::positive_i32_to_usize(params.filter_w)?;
    let rows = Axis::new(params.input_shape[1], filter_h, stride_h, 1, params.padding);
    let columns = Axis::new(params.input_shape[2], filter_w, stride_w, 1, params.padding);
    let scale = Single::from_bits(params.input_quant.scale).over(
        Single::from_bits(params.output_quant.scale),
    );
    let (multiplier, shift) = quantize::quantize_multiplier(Double::widen(scale));
    let len: usize = params.output.len();
    let mut index: usize = 0;
    #[verifier::loop_isolation(false)]
    while index < len
        invariant
            params@ == args,
            args.valid(),
            args.defined(kind),
            rows == args.rows(),
            columns == args.columns(),
            (multiplier as int, shift as int) == quantize::real_multiplier(args.scale()),
            index <= len == args.output_len,
            args.filled() == args.filled_from(index as int),
            forall|i: int|
                0 <= i < index ==> params.output@[i] == #[trigger] args.output(
                    kind,
                    given.output@,
                )[i],
            forall|i: int| index <= i < len ==> params.output@[i] == #[trigger] given.output@[i],
            args.output_len == given.output@.len(),
            final(params.output)@ == final(given.output)@,
        decreases len - index,
    {
        let ghost window = args.window(shape::cell_at(args.output_shape@, index as int));
        let cell = shape::nhwc_cell(params.output_shape, index);
        proof {
            lemma_filled(args, index as int);
            assert(args.window_defined(shape::cell_at(args.output_shape@, index as int)));
        }
        let pooled = pool_window(&params, cell, rows, columns);
        if pooled.count == 0 {
            assert(params.output@ =~= args.output(kind, given.output@));
            return Err(KernelError::InvalidShape);
        }
        proof {
            lemma_filled(args, index + 1);
            assert(args.element_defined(kind, shape::cell_at(args.output_shape@, index as int)));
            lemma_largest(window);
            let i = choose|i: int|
                0 <= i < window.len() && #[trigger] window[i] == largest(window);
            assert(quantize::fits_i32(window[i] - args.input_quant.zero_point));
        }
        let value: i32 = match kind {
            PoolKind::Average => quantize::round_divide(pooled.acc, pooled.count),
            PoolKind::Max => pooled.max_value as i32 - params.input_quant.zero_point,
        };
        let quantized: i32 = quantize::requantize(value, multiplier, shift, params.output_quant);
        params.output[index] = quantize::apply_activation(
            quantized,
            params.activation,
            params.output_quant,
        );
        index = index + 1;
    }
    assert(params.output@ =~= args.output(kind, given.output@));
    Ok(())
}

/// A covered tap leaves an element in the window of its row.
proof fn lemma_row_covered(args: PoolArgs, cell: Cell, y: int, tap: int)
    requires
        0 <= tap < args.filter_w,
        args.columns().source(cell.x, tap) is Some,
    ensures
        args.row_window(cell, y, args.filter_w as int).len() > 0,
{
    assert(args.row_window(cell, y, tap + 1).len() > 0);
    lemma_row_prefix(args, cell, y, tap + 1, args.filter_w as int);
}

/// A covered row with a covered tap leaves an element in the window.
proof fn lemma_window_covered(args: PoolArgs, cell: Cell, row: int, tap: int)
    requires
        0 <= row < args.filter_h,
        0 <= tap < args.filter_w,
        args.rows().source(cell.y, row) is Some,
        args.columns().source(cell.x, tap) is Some,
    ensures
        args.window(cell).len() > 0,
{
    lemma_row_covered(args, cell, args.rows().source(cell.y, row)->0, tap);
    assert(args.window_rows(cell, row + 1).len() > 0);
    lemma_rows_prefix(args, cell, row + 1, args.filter_h as int);
}

/// A window along one axis that the padding strategy is meant for has a tap on
/// the input.
proof fn lemma_axis_covered(
    input: usize,
    filter: i32,
    stride: i32,
    padding: Padding,
    out: int,
) -> (tap: int)
    requires
        filter > 0,
        stride > 0,
        match padding {
            Padding::Same => input > 0,
            Padding::Valid => filter <= input,
        },
        0 <= out < shape::output_size(input as int, filter as int, stride as int, padding),
    ensures
        0 <= tap < filter,
        shape::window_axis(input, filter as int, stride as int, 1, padding).source(
            out,
            tap,
        ) is Some,
{
    match padding {
        Padding::Same => shape::lemma_same_window(input, filter as usize, stride as usize, out),
        Padding::Valid => {
            assert((filter - 1) * 1 + 1 == filter);
            shape::lemma_valid_window(input, filter as usize, stride as usize, 1, out, 0);
            0
        },
    }
}

/// Pooling succeeds, and writes the whole output, wherever the output is no larger
/// than the padding strategy gives: `ceil(input / stride)` for `Same`,
/// `floor((input - filter) / stride) + 1` for `Valid`.
pub proof fn lemma_pool_fills_output(args: PoolArgs)
    requires
        args.valid(),
        match args.padding {
            Padding::Same => args.input_shape[1] > 0 && args.input_shape[2] > 0,
            Padding::Valid => args.filter_h <= args.input_shape[1] && args.filter_w
                <= args.input_shape[2],
        },
        args.output_shape[1] <= shape::output_size(
            args.input_shape[1] as int,
            args.filter_h as int,
            args.stride_h as int,
            args.padding,
        ),
        args.output_shape[2] <= shape::output_size(
            args.input_shape[2] as int,
            args.filter_w as int,
            args.stride_w as int,
            args.padding,
        ),
    ensures
        args.filled() == args.output_len,
        args.status() == Ok::<(), KernelError>(()),
{
    assert forall|i: int| 0 <= i < args.output_len implies #[trigger] args.window(
        shape::cell_at(args.output_shape@, i),
    ).len() > 0 by {
        let cell = shape::cell_at(args.output_shape@, i);
        shape::lemma_cell_at_index(args.output_shape@, i);
        let row = lemma_axis_covered(
            args.input_shape[1],
            args.filter_h,
            args.stride_h,
            args.padding,
            cell.y,
        );
        let tap = lemma_axis_covered(
            args.input_shape[2],
            args.filter_w,
            args.stride_w,
            args.padding,
            cell.x,
        );
        lemma_window_covered(args, cell, row, tap);
    }
    lemma_all_filled(args, 0);
}

proof fn lemma_all_filled(args: PoolArgs, i: int)
    requires
        0 <= i <= args.output_len,
        forall|k: int|
            0 <= k < args.output_len ==> #[trigger] args.window(
                shape::cell_at(args.output_shape@, k),
            ).len() > 0,
    ensures
        args.filled_from(i) == args.output_len,
    decreases args.output_len - i,
{
    if i < args.output_len {
        assert(args.window(shape::cell_at(args.output_shape@, i)).len() > 0);
        lemma_all_filled(args, i + 1);
    }
}

/// Max pooling takes an element of the window that no other exceeds.
pub proof fn lemma_largest(window: Seq<i8>)
    ensures
        -128 <= largest(window) <= 127,
        forall|i: int| 0 <= i < window.len() ==> #[trigger] window[i] <= largest(window),
        window.len() > 0 ==> exists|i: int|
            0 <= i < window.len() && #[trigger] window[i] == largest(window),
    decreases window.len(),
{
    if window.len() > 0 {
        let rest = window.drop_last();
        lemma_largest(rest);
        assert forall|i: int| 0 <= i < window.len() implies #[trigger] window[i] <= largest(
            window,
        ) by {
            if i < rest.len() {
                assert(rest[i] == window[i]);
            }
        }
        if largest(rest) > window.last() {
            let i = choose|i: int| 0 <= i < rest.len() && #[trigger] rest[i] == largest(rest);
            assert(window[i] == rest[i]);
        } else {
            assert(window[window.len() - 1] == largest(window));
        }
    }
}

/// A sum lies between as many times the smallest and the largest element as there
/// are elements.
pub proof fn lemma_sum_bounds(window: Seq<i8>, zero_point: int, low: int, high: int)
    requires
        forall|i: int| 0 <= i < window.len() ==> low <= #[trigger] window[i] <= high,
    ensures
        window.len() * (low - zero_point) <= centered_sum(window, zero_point) <= window.len() * (
        high - zero_point),
    decreases window.len(),
{
    if window.len() > 0 {
        let rest = window.drop_last();
        assert forall|i: int| 0 <= i < rest.len() implies low <= #[trigger] rest[i] <= high by {
            assert(rest[i] == window[i]);
        }
        lemma_sum_bounds(rest, zero_point, low, high);
        let n = rest.len() as int;
        assert((n + 1) * (low - zero_point) == n * (low - zero_point) + (low - zero_point))
            by (nonlinear_arith);
        assert((n + 1) * (high - zero_point) == n * (high - zero_point) + (high - zero_point))
            by (nonlinear_arith);
        assert(low <= window[window.len() - 1] <= high);
    }
}

/// The average of a window lies between its smallest and its largest element.
pub proof fn lemma_average_bounds(window: Seq<i8>, zero_point: int, low: int, high: int)
    requires
        window.len() > 0,
        forall|i: int| 0 <= i < window.len() ==> low <= #[trigger] window[i] <= high,
    ensures
        low - zero_point <= quantize::rounded_quotient(
            centered_sum(window, zero_point),
            window.len() as int,
        ) <= high - zero_point,
{
    let n = window.len() as int;
    let sum = centered_sum(window, zero_point);
    let q = quantize::rounded_quotient(sum, n);
    lemma_sum_bounds(window, zero_point, low, high);
    quantize::lemma_rounded_quotient(sum, n);
    let a = low - zero_point;
    let b = high - zero_point;
    let e = sum - n * q;
    assert(2 * quantize::abs(e) <= n);
    if q > b {
        assert(n * q >= n * b + n) by (nonlinear_arith)
            requires
                q >= b + 1,
                n > 0,
        ;
    }
    if q < a {
        assert(n * q <= n * a - n) by (nonlinear_arith)
            requires
                q <= a - 1,
                n > 0,
        ;
    }
}

} // verus!
