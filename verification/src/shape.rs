//! Tensor shapes, memory layouts and window geometry.
use crate::types::{KernelError, Padding, Status};
use vstd::arithmetic::div_mod::*;
use vstd::arithmetic::mul::*;
use vstd::prelude::*;

verus! {

/// Number of elements of a tensor with the given dimensions.
pub open spec fn dims_product(dims: Seq<usize>) -> nat
    decreases dims.len(),
{
    if dims.len() == 0 {
        1
    } else {
        dims_product(dims.drop_last()) * dims.last() as nat
    }
}

/// The dimensions, multiplied from the first to the last, never exceed `usize`.
pub open spec fn product_defined(dims: Seq<usize>) -> bool {
    forall|k: int| 0 <= k <= dims.len() ==> #[trigger] dims_product(dims.take(k)) <= usize::MAX
}

/// Number of elements of a tensor with `N` dimensions.
pub fn product<const N: usize>(shape: &[usize; N]) -> (r: usize)
    requires
        product_defined(shape@),
    ensures
        r == dims_product(shape@),
{
    let mut r: usize = 1;
    let mut i: usize = 0;
    while i < N
        invariant
            i <= N,
            product_defined(shape@),
            r == dims_product(shape@.take(i as int)),
        decreases N - i,
    {
        proof {
            let next = shape@.take(i + 1);
            assert(next.drop_last() =~= shape@.take(i as int));
            assert(dims_product(next) <= usize::MAX);
        }
        r = r * shape[i];
        i = i + 1;
    }
    assert(shape@.take(N as int) =~= shape@);
    r
}

/// Four dimensions multiply to the number of elements.
pub proof fn lemma_product4(shape: Seq<usize>)
    requires
        shape.len() == 4,
    ensures
        dims_product(shape) == ((shape[0] * shape[1]) * shape[2]) * shape[3],
{
    reveal_with_fuel(dims_product, 5);
    let a = shape.drop_last();
    let b = a.drop_last();
    let c = b.drop_last();
    assert(c.drop_last().len() == 0);
    assert(dims_product(c) == 1 * shape[0] as nat);
    assert(dims_product(b) == shape[0] as nat * shape[1] as nat);
}

/// Checks the length of a buffer.
pub fn validate_len<T>(slice: &[T], expected: usize) -> (r: Status)
    ensures
        r == (if slice@.len() == expected {
            Ok::<(), KernelError>(())
        } else {
            Err(KernelError::InvalidShape)
        }),
{
    if slice.len() == expected {
        Ok(())
    } else {
        Err(KernelError::InvalidShape)
    }
}

/// The bias, where there is one, has the expected length.
pub open spec fn bias_fits(bias: Option<Seq<i32>>, expected: int) -> bool {
    bias matches Some(b) ==> b.len() == expected
}

/// The elements of an optional bias.
pub open spec fn bias_view(bias: Option<&[i32]>) -> Option<Seq<i32>> {
    match bias {
        Some(b) => Some(b@),
        None => None,
    }
}

/// Checks the length of an optional bias.
pub fn validate_bias(bias: Option<&[i32]>, expected: usize) -> (r: Status)
    ensures
        r == (if bias_fits(bias_view(bias), expected as int) {
            Ok::<(), KernelError>(())
        } else {
            Err(KernelError::InvalidShape)
        }),
{
    match bias {
        Some(bias) => validate_len(bias, expected),
        None => Ok(()),
    }
}

/// The bias of one channel, zero where there is none.
pub open spec fn bias_at(bias: Option<Seq<i32>>, channel: int) -> int {
    match bias {
        Some(b) => b[channel] as int,
        None => 0,
    }
}

/// The bias of one channel, zero where there is none.
pub fn channel_bias(bias: Option<&[i32]>, channel: usize) -> (r: i32)
    requires
        bias_view(bias) matches Some(b) ==> channel < b.len(),
    ensures
        r == bias_at(bias_view(bias), channel as int),
{
    match bias {
        Some(bias) => bias[channel],
        None => 0,
    }
}

/// Takes a positive operator attribute as a size.
pub fn positive_i32_to_usize(value: i32) -> (r: Result<usize, KernelError>)
    ensures
        value > 0 ==> r == Ok::<usize, KernelError>(value as usize),
        value <= 0 ==> r == Err::<usize, KernelError>(KernelError::InvalidShape),
{
    if value > 0 {
        Ok(value as usize)
    } else {
        Err(KernelError::InvalidShape)
    }
}

/// Extent of a filter whose taps are `dilation` apart.
pub open spec fn dilated_size(filter_size: int, dilation: int) -> int {
    (filter_size - 1) * dilation + 1
}

/// Extent of a filter whose taps are `dilation` apart.
pub fn effective_filter_size(filter_size: usize, dilation: usize) -> (r: usize)
    requires
        filter_size >= 1,
        dilated_size(filter_size as int, dilation as int) <= usize::MAX,
    ensures
        r == dilated_size(filter_size as int, dilation as int),
{
    proof {
        lemma_mul_nonnegative(filter_size - 1, dilation as int);
    }
    (filter_size - 1) * dilation + 1
}

/// Position of an element in a tensor with four dimensions, the last of which
/// varies fastest.
pub open spec fn index4(
    outer: int,
    y: int,
    x: int,
    channel: int,
    height: int,
    width: int,
    channels: int,
) -> int {
    ((outer * height + y) * width + x) * channels + channel
}

/// Every step of the position fits in `usize`.
pub open spec fn index4_defined(
    outer: int,
    y: int,
    x: int,
    channel: int,
    height: int,
    width: int,
    channels: int,
) -> bool {
    &&& outer * height + y <= usize::MAX
    &&& (outer * height + y) * width + x <= usize::MAX
    &&& index4(outer, y, x, channel, height, width, channels) <= usize::MAX
}

proof fn lemma_index4_steps(
    outer: int,
    y: int,
    x: int,
    channel: int,
    height: int,
    width: int,
    channels: int,
)
    requires
        0 <= outer,
        0 <= y,
        0 <= x,
        0 <= channel,
        0 <= height,
        0 <= width,
        0 <= channels,
    ensures
        0 <= outer * height,
        0 <= (outer * height + y) * width,
        0 <= ((outer * height + y) * width + x) * channels,
{
    lemma_mul_nonnegative(outer, height);
    lemma_mul_nonnegative(outer * height + y, width);
    lemma_mul_nonnegative((outer * height + y) * width + x, channels);
}

/// An element within the dimensions of a tensor has a position within it.
pub proof fn lemma_index4_bound(
    outer: int,
    y: int,
    x: int,
    channel: int,
    outers: int,
    height: int,
    width: int,
    channels: int,
)
    requires
        0 <= outer < outers,
        0 <= y < height,
        0 <= x < width,
        0 <= channel < channels,
    ensures
        0 <= outer * height + y < outers * height,
        0 <= (outer * height + y) * width + x < (outers * height) * width,
        0 <= index4(outer, y, x, channel, height, width, channels) < ((outers * height) * width)
            * channels,
        outers * height <= ((outers * height) * width) * channels,
        (outers * height) * width <= ((outers * height) * width) * channels,
{
    let a = outer * height + y;
    let b = a * width + x;
    assert(0 <= a < outers * height) by (nonlinear_arith)
        requires
            0 <= outer < outers,
            0 <= y < height,
            a == outer * height + y,
    ;
    let p = outers * height;
    assert(0 <= b < p * width) by (nonlinear_arith)
        requires
            0 <= a < p,
            0 <= x < width,
            b == a * width + x,
    ;
    let q = p * width;
    assert(0 <= b * channels + channel < q * channels) by (nonlinear_arith)
        requires
            0 <= b < q,
            0 <= channel < channels,
    ;
    assert(p <= q) by (nonlinear_arith)
        requires
            p >= 0,
            width >= 1,
            q == p * width,
    ;
    assert(q <= q * channels) by (nonlinear_arith)
        requires
            q >= 0,
            channels >= 1,
    ;
}

/// Position of an element of an NHWC tensor.
pub fn nhwc_index(
    batch: usize,
    y: usize,
    x: usize,
    channel: usize,
    height: usize,
    width: usize,
    channels: usize,
) -> (r: usize)
    requires
        index4_defined(
            batch as int,
            y as int,
            x as int,
            channel as int,
            height as int,
            width as int,
            channels as int,
        ),
    ensures
        r == index4(
            batch as int,
            y as int,
            x as int,
            channel as int,
            height as int,
            width as int,
            channels as int,
        ),
{
    proof {
        lemma_index4_steps(
            batch as int,
            y as int,
            x as int,
            channel as int,
            height as int,
            width as int,
            channels as int,
        );
    }
    ((batch * height + y) * width + x) * channels + channel
}

/// Position of a weight in a `[C_out, KH, KW, C_in]` tensor.
pub fn conv_weight_index(
    output_channel: usize,
    filter_y: usize,
    filter_x: usize,
    input_channel: usize,
    filter_h: usize,
    filter_w: usize,
    input_channels: usize,
) -> (r: usize)
    requires
        index4_defined(
            output_channel as int,
            filter_y as int,
            filter_x as int,
            input_channel as int,
            filter_h as int,
            filter_w as int,
            input_channels as int,
        ),
    ensures
        r == index4(
            output_channel as int,
            filter_y as int,
            filter_x as int,
            input_channel as int,
            filter_h as int,
            filter_w as int,
            input_channels as int,
        ),
{
    proof {
        lemma_index4_steps(
            output_channel as int,
            filter_y as int,
            filter_x as int,
            input_channel as int,
            filter_h as int,
            filter_w as int,
            input_channels as int,
        );
    }
    ((output_channel * filter_h + filter_y) * filter_w + filter_x) * input_channels + input_channel
}

/// Dimensions of a depthwise filter.
#[derive(Clone, Copy, Debug, PartialEq, Eq, Structural)]
pub struct DepthwiseDims {
    /// Filter height.
    pub filter_h: usize,
    /// Filter width.
    pub filter_w: usize,
    /// Channels of the input.
    pub input_channels: usize,
    /// Output channels per input channel.
    pub depth_multiplier: usize,
    /// The weights are laid out as `[1, KH, KW, C_out]` rather than
    /// `[KH, KW, C_in, multiplier]`.
    pub tflite_layout: bool,
}

/// Position of a depthwise weight.
pub open spec fn depthwise_index(
    filter_y: int,
    filter_x: int,
    input_channel: int,
    channel_multiplier: int,
    dims: DepthwiseDims,
) -> int {
    if dims.tflite_layout {
        (filter_y * dims.filter_w + filter_x) * (dims.input_channels * dims.depth_multiplier) + (
        input_channel * dims.depth_multiplier + channel_multiplier)
    } else {
        ((filter_y * dims.filter_w + filter_x) * dims.input_channels + input_channel)
            * dims.depth_multiplier + channel_multiplier
    }
}

/// Every step of the position fits in `usize`.
pub open spec fn depthwise_index_defined(
    filter_y: int,
    filter_x: int,
    input_channel: int,
    channel_multiplier: int,
    dims: DepthwiseDims,
) -> bool {
    &&& input_channel * dims.depth_multiplier + channel_multiplier <= usize::MAX
    &&& filter_y * dims.filter_w + filter_x <= usize::MAX
    &&& depthwise_index(filter_y, filter_x, input_channel, channel_multiplier, dims) <= usize::MAX
    &&& if dims.tflite_layout {
        dims.input_channels * dims.depth_multiplier <= usize::MAX
    } else {
        (filter_y * dims.filter_w + filter_x) * dims.input_channels + input_channel <= usize::MAX
    }
}

/// Both layouts of depthwise weights put a weight in the same place.
pub proof fn lemma_depthwise_layouts_agree(
    filter_y: int,
    filter_x: int,
    input_channel: int,
    channel_multiplier: int,
    dims: DepthwiseDims,
)
    ensures
        depthwise_index(filter_y, filter_x, input_channel, channel_multiplier, dims) == index4(
            filter_y,
            filter_x,
            input_channel,
            channel_multiplier,
            dims.filter_w as int,
            dims.input_channels as int,
            dims.depth_multiplier as int,
        ),
{
    let a = filter_y * dims.filter_w + filter_x;
    let c = dims.input_channels as int;
    let m = dims.depth_multiplier as int;
    assert((a * c + input_channel) * m + channel_multiplier == a * (c * m) + (input_channel * m
        + channel_multiplier)) by (nonlinear_arith);
}

/// Position of a depthwise weight.
pub fn depthwise_weight_index(
    filter_y: usize,
    filter_x: usize,
    input_channel: usize,
    channel_multiplier: usize,
    dims: DepthwiseDims,
) -> (r: usize)
    requires
        depthwise_index_defined(
            filter_y as int,
            filter_x as int,
            input_channel as int,
            channel_multiplier as int,
            dims,
        ),
    ensures
        r == depthwise_index(
            filter_y as int,
            filter_x as int,
            input_channel as int,
            channel_multiplier as int,
            dims,
        ),
{
    proof {
        let a = filter_y * dims.filter_w + filter_x;
        let c = dims.input_channels as int;
        let m = dims.depth_multiplier as int;
        lemma_mul_nonnegative(filter_y as int, dims.filter_w as int);
        lemma_mul_nonnegative(input_channel as int, m);
        lemma_mul_nonnegative(c, m);
        lemma_mul_nonnegative(a, c);
        lemma_mul_nonnegative(a, c * m);
        lemma_mul_nonnegative(a * c + input_channel, m);
    }
    let output_channel: usize = input_channel * dims.depth_multiplier + channel_multiplier;
    if dims.tflite_layout {
        (filter_y * dims.filter_w + filter_x) * (dims.input_channels * dims.depth_multiplier)
            + output_channel
    } else {
        ((filter_y * dims.filter_w + filter_x) * dims.input_channels + input_channel)
            * dims.depth_multiplier + channel_multiplier
    }
}

/// The dimensions that the shape of depthwise weights states.
pub open spec fn depthwise_layout(
    weights_shape: Seq<usize>,
    input_channels: usize,
) -> DepthwiseDims {
    if weights_shape[0] == 1 {
        DepthwiseDims {
            filter_h: weights_shape[1],
            filter_w: weights_shape[2],
            input_channels,
            depth_multiplier: weights_shape[3] / input_channels,
            tflite_layout: true,
        }
    } else {
        DepthwiseDims {
            filter_h: weights_shape[0],
            filter_w: weights_shape[1],
            input_channels: weights_shape[2],
            depth_multiplier: weights_shape[3],
            tflite_layout: false,
        }
    }
}

/// The shape of the weights agrees with the channels of the input and the depth
/// multiplier.
pub open spec fn depthwise_accepts(
    weights_shape: Seq<usize>,
    input_channels: usize,
    depth_multiplier: usize,
) -> bool {
    let dims = depthwise_layout(weights_shape, input_channels);
    &&& weights_shape[0] == 1 ==> input_channels != 0
    &&& dims.input_channels == input_channels
    &&& dims.depth_multiplier == depth_multiplier
}

/// Reads the dimensions of a depthwise filter from the shape of its weights.
pub fn depthwise_filter_dims(
    weights_shape: [usize; 4],
    input_channels: usize,
    depth_multiplier: usize,
) -> (r: Result<DepthwiseDims, KernelError>)
    ensures
        r == (if depthwise_accepts(weights_shape@, input_channels, depth_multiplier) {
            Ok::<DepthwiseDims, KernelError>(depthwise_layout(weights_shape@, input_channels))
        } else {
            Err(KernelError::InvalidShape)
        }),
{
    let dims = if weights_shape[0] == 1 {
        if input_channels == 0 {
            return Err(KernelError::InvalidShape);
        }
        DepthwiseDims {
            filter_h: weights_shape[1],
            filter_w: weights_shape[2],
            input_channels,
            depth_multiplier: weights_shape[3] / input_channels,
            tflite_layout: true,
        }
    } else {
        DepthwiseDims {
            filter_h: weights_shape[0],
            filter_w: weights_shape[1],
            input_channels: weights_shape[2],
            depth_multiplier: weights_shape[3],
            tflite_layout: false,
        }
    };
    if dims.input_channels == input_channels && dims.depth_multiplier == depth_multiplier {
        Ok(dims)
    } else {
        Err(KernelError::InvalidShape)
    }
}

/// `a / b` rounded up.
pub open spec fn ceil_div(a: int, b: int) -> int {
    (a + b - 1) / b
}

/// Padding before the first element along one axis.
pub open spec fn padding_before(
    input_size: int,
    filter_size: int,
    stride: int,
    padding: Padding,
) -> int {
    match padding {
        Padding::Valid => 0,
        Padding::Same => {
            let missing = (ceil_div(input_size, stride) - 1) * stride + filter_size - input_size;
            if missing < 0 {
                0
            } else {
                missing / 2
            }
        },
    }
}

/// The padding is computed without overflow.
pub open spec fn padding_defined(
    input_size: int,
    filter_size: int,
    stride: int,
    padding: Padding,
) -> bool {
    padding == Padding::Same ==> {
        &&& stride > 0
        &&& input_size > 0
        &&& (ceil_div(input_size, stride) - 1) * stride + filter_size <= usize::MAX
    }
}

/// Padding before the first element along one axis.
pub fn compute_padding(
    input_size: usize,
    filter_size: usize,
    stride: usize,
    padding: Padding,
) -> (r: usize)
    requires
        padding_defined(input_size as int, filter_size as int, stride as int, padding),
    ensures
        r == padding_before(input_size as int, filter_size as int, stride as int, padding),
{
    match padding {
        Padding::Valid => 0,
        Padding::Same => {
            proof {
                lemma_ceil_div(input_size as int, stride as int);
                assert(stride == 1 ==> input_size % stride == 0);
            }
            let whole: usize = input_size / stride;
            let out_size: usize = if input_size % stride == 0 {
                whole
            } else {
                whole + 1
            };
            let extent: usize = (out_size - 1) * stride + filter_size;
            if extent < input_size {
                0
            } else {
                (extent - input_size) / 2
            }
        },
    }
}

proof fn lemma_ceil_div(a: int, b: int)
    requires
        a > 0,
        b > 0,
    ensures
        ceil_div(a, b) == (if a % b == 0 {
            a / b
        } else {
            a / b + 1
        }),
        ceil_div(a, b) >= 1,
        0 <= a / b <= a,
        (a / b == a ==> b == 1),
        (ceil_div(a, b) - 1) * b < a,
        (ceil_div(a, b) - 1) * b >= 0,
{
    lemma_fundamental_div_mod(a, b);
    let q = a / b;
    let r = a % b;
    lemma_mod_bound(a, b);
    assert(0 <= q <= a && (q == a ==> b == 1)) by (nonlinear_arith)
        requires
            a == b * q + r,
            0 <= r < b,
            a > 0,
    ;
    if r == 0 {
        assert(q * b == b * q) by (nonlinear_arith);
        lemma_fundamental_div_mod_converse(a + b - 1, b, q, b - 1);
        assert(q >= 1) by (nonlinear_arith)
            requires
                a == b * q,
                a > 0,
                b > 0,
        ;
        assert((q - 1) * b == b * q - b) by (nonlinear_arith);
        assert((q - 1) * b >= 0) by (nonlinear_arith)
            requires
                q >= 1,
                b > 0,
        ;
    } else {
        assert(a + b - 1 == b * (q + 1) + (r - 1)) by (nonlinear_arith)
            requires
                a == b * q + r,
        ;
        lemma_fundamental_div_mod_converse(a + b - 1, b, q + 1, r - 1);
        assert(q * b == b * q) by (nonlinear_arith);
        lemma_mul_nonnegative(q, b);
    }
}

/// One spatial axis of a sliding window.
#[derive(Clone, Copy, Debug)]
pub struct Axis {
    /// Number of input elements.
    pub input: usize,
    /// Distance between neighbouring windows.
    pub stride: usize,
    /// Distance between neighbouring taps of a window.
    pub dilation: usize,
    /// Padding before the first input element.
    pub pad: usize,
}

/// The axis that a filter of `filter` taps slides along.
pub open spec fn window_axis(
    input: usize,
    filter: int,
    stride: int,
    dilation: int,
    padding: Padding,
) -> Axis {
    Axis {
        input,
        stride: stride as usize,
        dilation: dilation as usize,
        pad: padding_before(input as int, dilated_size(filter, dilation), stride, padding) as usize,
    }
}

/// Extent and padding of the filter are computed without overflow.
pub open spec fn window_defined(
    input: usize,
    filter: int,
    stride: int,
    dilation: int,
    padding: Padding,
) -> bool {
    &&& filter >= 1
    &&& dilated_size(filter, dilation) <= usize::MAX
    &&& padding_defined(input as int, dilated_size(filter, dilation), stride, padding)
}

impl Axis {
    /// The axis that a filter of `filter` taps slides along.
    pub fn new(
        input: usize,
        filter: usize,
        stride: usize,
        dilation: usize,
        padding: Padding,
    ) -> (r: Axis)
        requires
            window_defined(input, filter as int, stride as int, dilation as int, padding),
        ensures
            r == window_axis(input, filter as int, stride as int, dilation as int, padding),
    {
        let extent: usize = effective_filter_size(filter, dilation);
        Axis { input, stride, dilation, pad: compute_padding(input, extent, stride, padding) }
    }

    /// Place of a tap on the padded axis.
    pub open spec fn position(self, out: int, tap: int) -> int {
        out * self.stride + tap * self.dilation
    }

    /// The input element under a tap, if the tap does not fall on padding.
    pub open spec fn source(self, out: int, tap: int) -> Option<int> {
        if self.pad <= self.position(out, tap) < self.input + self.pad {
            Some(self.position(out, tap) - self.pad)
        } else {
            None
        }
    }

    /// The place of a tap and the end of the input fit in `usize`.
    pub open spec fn source_defined(self, out: int, tap: int) -> bool {
        &&& self.position(out, tap) <= usize::MAX
        &&& self.position(out, tap) >= self.pad ==> self.input + self.pad <= usize::MAX
    }

    /// The input element under a tap, if the tap does not fall on padding.
    pub fn input_index(self, out: usize, tap: usize) -> (r: Option<usize>)
        requires
            self.source_defined(out as int, tap as int),
        ensures
            match r {
                Some(i) => self.source(out as int, tap as int) == Some(i as int) && i < self.input,
                None => self.source(out as int, tap as int) is None,
            },
    {
        proof {
            lemma_mul_nonnegative(out as int, self.stride as int);
            lemma_mul_nonnegative(tap as int, self.dilation as int);
        }
        let position: usize = out * self.stride + tap * self.dilation;
        if position < self.pad || position >= self.input + self.pad {
            None
        } else {
            Some(position - self.pad)
        }
    }
}

/// Coordinates of the element at a position of an NHWC tensor.
pub struct Cell {
    /// Batch.
    pub batch: int,
    /// Row.
    pub y: int,
    /// Column.
    pub x: int,
    /// Channel.
    pub channel: int,
}

/// Coordinates of the element at position `i` of a tensor of the given shape.
pub open spec fn cell_at(shape: Seq<usize>, i: int) -> Cell {
    let pixel = i / shape[3] as int;
    let row = pixel / shape[2] as int;
    Cell {
        batch: row / shape[1] as int,
        y: row % shape[1] as int,
        x: pixel % shape[2] as int,
        channel: i % shape[3] as int,
    }
}

/// The coordinates lie within the shape.
pub open spec fn cell_within(cell: Cell, shape: Seq<usize>) -> bool {
    &&& 0 <= cell.batch < shape[0]
    &&& 0 <= cell.y < shape[1]
    &&& 0 <= cell.x < shape[2]
    &&& 0 <= cell.channel < shape[3]
}

/// Each position of an NHWC tensor holds the element at its coordinates.
pub proof fn lemma_cell_at_index(shape: Seq<usize>, i: int)
    requires
        shape.len() == 4,
        0 <= i < dims_product(shape),
    ensures
        cell_within(cell_at(shape, i), shape),
        ({
            let cell = cell_at(shape, i);
            index4(
                cell.batch,
                cell.y,
                cell.x,
                cell.channel,
                shape[1] as int,
                shape[2] as int,
                shape[3] as int,
            )
        }) == i,
{
    lemma_product4(shape);
    let n = shape[0] as int;
    let h = shape[1] as int;
    let w = shape[2] as int;
    let c = shape[3] as int;
    assert(n > 0 && h > 0 && w > 0 && c > 0) by (nonlinear_arith)
        requires
            ((n * h) * w) * c > 0,
            n >= 0,
            h >= 0,
            w >= 0,
            c >= 0,
    ;
    let pixel = i / c;
    let row = pixel / w;
    lemma_fundamental_div_mod(i, c);
    lemma_mod_bound(i, c);
    lemma_div_pos_is_pos(i, c);
    assert(pixel < (n * h) * w) by (nonlinear_arith)
        requires
            i == c * pixel + i % c,
            0 <= i % c,
            i < ((n * h) * w) * c,
            c > 0,
    ;
    lemma_fundamental_div_mod(pixel, w);
    lemma_mod_bound(pixel, w);
    lemma_div_pos_is_pos(pixel, w);
    assert(row < n * h) by (nonlinear_arith)
        requires
            pixel == w * row + pixel % w,
            0 <= pixel % w,
            pixel < (n * h) * w,
            w > 0,
    ;
    lemma_fundamental_div_mod(row, h);
    lemma_mod_bound(row, h);
    lemma_div_pos_is_pos(row, h);
    let b = row / h;
    assert(b < n) by (nonlinear_arith)
        requires
            row == h * b + row % h,
            0 <= row % h,
            row < n * h,
            h > 0,
    ;
    assert(b * h == h * b) by (nonlinear_arith);
    assert(row * w == w * row) by (nonlinear_arith);
    assert(pixel * c == c * pixel) by (nonlinear_arith);
}

/// Distinct elements of an NHWC tensor have distinct positions: the coordinates
/// can be read back from the position.
pub proof fn lemma_index_at_cell(shape: Seq<usize>, cell: Cell)
    requires
        shape.len() == 4,
        cell_within(cell, shape),
    ensures
        ({
            let i = index4(
                cell.batch,
                cell.y,
                cell.x,
                cell.channel,
                shape[1] as int,
                shape[2] as int,
                shape[3] as int,
            );
            0 <= i < dims_product(shape) && cell_at(shape, i) == cell
        }),
{
    lemma_product4(shape);
    let h = shape[1] as int;
    let w = shape[2] as int;
    let c = shape[3] as int;
    lemma_index4_bound(
        cell.batch,
        cell.y,
        cell.x,
        cell.channel,
        shape[0] as int,
        h,
        w,
        c,
    );
    let row = cell.batch * h + cell.y;
    let pixel = row * w + cell.x;
    lemma_fundamental_div_mod_converse(row, h, cell.batch, cell.y);
    lemma_fundamental_div_mod_converse(pixel, w, row, cell.x);
    lemma_fundamental_div_mod_converse(pixel * c + cell.channel, c, pixel, cell.channel);
}

/// Coordinates of an element, as sizes.
#[derive(Clone, Copy, Debug)]
pub struct CellIndex {
    /// Batch.
    pub batch: usize,
    /// Row.
    pub y: usize,
    /// Column.
    pub x: usize,
    /// Channel.
    pub channel: usize,
}

impl View for CellIndex {
    type V = Cell;

    open spec fn view(&self) -> Cell {
        Cell {
            batch: self.batch as int,
            y: self.y as int,
            x: self.x as int,
            channel: self.channel as int,
        }
    }
}

/// Coordinates of the element at a position of an NHWC tensor.
pub fn nhwc_cell(shape: [usize; 4], index: usize) -> (r: CellIndex)
    requires
        index < dims_product(shape@),
    ensures
        r@ == cell_at(shape@, index as int),
        cell_within(r@, shape@),
{
    proof {
        lemma_cell_at_index(shape@, index as int);
    }
    let pixel: usize = index / shape[3];
    let row: usize = pixel / shape[2];
    CellIndex {
        batch: row / shape[1],
        y: row % shape[1],
        x: pixel % shape[2],
        channel: index % shape[3],
    }
}

/// Number of windows along one axis that a padding strategy is meant for.
pub open spec fn output_size(input: int, filter: int, stride: int, padding: Padding) -> int {
    match padding {
        Padding::Same => ceil_div(input, stride),
        Padding::Valid => (input - filter) / stride + 1,
    }
}

/// Without padding, every tap of every window lies on the input, at the place
/// that stride and dilation give.
pub proof fn lemma_valid_window(
    input: usize,
    filter: usize,
    stride: usize,
    dilation: usize,
    out: int,
    tap: int,
)
    requires
        stride > 0,
        dilated_size(filter as int, dilation as int) <= input,
        0 <= out < output_size(
            input as int,
            dilated_size(filter as int, dilation as int),
            stride as int,
            Padding::Valid,
        ),
        0 <= tap < filter,
    ensures
        window_axis(
            input,
            filter as int,
            stride as int,
            dilation as int,
            Padding::Valid,
        ).source(out, tap) == Some(out * stride + tap * dilation),
{
    let extent = dilated_size(filter as int, dilation as int);
    let room = input - extent;
    let s = stride as int;
    let q = room / s;
    lemma_fundamental_div_mod(room, s);
    lemma_mod_bound(room, s);
    assert(out * s <= room) by (nonlinear_arith)
        requires
            out <= q,
            s > 0,
            room == s * q + room % s,
            0 <= room % s,
    ;
    assert(tap * dilation <= (filter - 1) * dilation) by (nonlinear_arith)
        requires
            tap <= filter - 1,
            dilation >= 0,
    ;
    lemma_mul_nonnegative(out, s);
    lemma_mul_nonnegative(tap, dilation as int);
}

/// With `Same` padding and undilated taps, every window has a tap on the input.
pub proof fn lemma_same_window(input: usize, filter: usize, stride: usize, out: int) -> (tap: int)
    requires
        stride > 0,
        input > 0,
        filter >= 1,
        0 <= out < output_size(input as int, filter as int, stride as int, Padding::Same),
    ensures
        0 <= tap < filter,
        window_axis(input, filter as int, stride as int, 1, Padding::Same).source(
            out,
            tap,
        ) is Some,
{
    let s = stride as int;
    let last = ceil_div(input as int, s) - 1;
    lemma_ceil_div(input as int, s);
    assert((filter - 1) * 1 + 1 == filter);
    let pad = padding_before(input as int, filter as int, s, Padding::Same);
    assert(0 <= pad <= filter - 1);
    assert(0 <= out * s <= last * s) by (nonlinear_arith)
        requires
            0 <= out <= last,
            s > 0,
    ;
    let tap = if out * s >= pad {
        0
    } else {
        pad - out * s
    };
    assert(tap * 1 == tap);
    tap
}

} // verus!
