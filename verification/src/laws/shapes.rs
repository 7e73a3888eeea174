//! Lengths, positions in buffers, and windows.
use crate::laws::windows;
use crate::shape;
use crate::shape::{Axis, CellIndex, DepthwiseDims};
use crate::types::{KernelError, Padding, Status};
use vstd::prelude::*;

verus! {

/// A buffer passes where it has the expected length.
pub proof fn law_validate_len(slice: &[i8], expected: usize, r: Status)
    requires
        call_ensures(shape::validate_len::<i8>, (slice, expected), r),
    ensures
        r is Ok <==> slice@.len() == expected,
        r is Err ==> r == Err::<(), KernelError>(KernelError::InvalidShape),
{
}

/// A bias passes where it has the expected length, and no bias passes always; the bias of
/// a channel is its element, and 0 where there is none.
pub proof fn law_bias(bias: Option<&[i32]>, expected: usize, r: Status, channel: usize, value: i32)
    requires
        call_ensures(shape::validate_bias, (bias, expected), r),
        call_ensures(shape::channel_bias, (bias, channel), value),
    ensures
        r is Ok <==> (bias matches Some(list) ==> list@.len() == expected),
        r is Err ==> r == Err::<(), KernelError>(KernelError::InvalidShape),
        match bias {
            Some(list) => value == list@[channel as int],
            None => value == 0,
        },
{
}

/// Only positive numbers pass.
pub proof fn law_positive(value: i32, r: Result<usize, KernelError>)
    requires
        call_ensures(shape::positive_i32_to_usize, (value,), r),
    ensures
        r is Ok <==> value > 0,
        r matches Ok(n) ==> n == value,
        r matches Err(e) ==> e == KernelError::InvalidShape,
{
}

/// The number of elements of a tensor of four dimensions is their product.
pub proof fn law_product(dims: [usize; 4], r: usize)
    requires
        call_ensures(shape::product::<4>, (&dims,), r),
    ensures
        r == dims[0] * dims[1] * dims[2] * dims[3],
{
    shape::lemma_product4(dims@);
}

/// Channels lie side by side, columns a pixel apart, rows a row of pixels apart, and
/// batches an image apart; and the position of an element leads back to it.
pub proof fn law_nhwc(dims: [usize; 4], index: usize, cell: CellIndex, back: usize)
    requires
        call_ensures(shape::nhwc_cell, (dims, index), cell),
        call_ensures(
            shape::nhwc_index,
            (cell.batch, cell.y, cell.x, cell.channel, dims[1], dims[2], dims[3]),
            back,
        ),
        index < dims[0] * dims[1] * dims[2] * dims[3],
    ensures
        cell.batch < dims[0],
        cell.y < dims[1],
        cell.x < dims[2],
        cell.channel < dims[3],
        index == ((cell.batch * dims[1] + cell.y) * dims[2] + cell.x) * dims[3] + cell.channel,
        back == index,
{
    shape::lemma_product4(dims@);
    shape::lemma_cell_at_index(dims@, index as int);
}

/// The weights of an output channel of a convolution lie side by side, in the order of a
/// small image.
pub proof fn law_conv_weight_index(
    output_channel: usize,
    y: usize,
    x: usize,
    input_channel: usize,
    height: usize,
    width: usize,
    depth: usize,
    r: usize,
)
    requires
        call_ensures(
            shape::conv_weight_index,
            (output_channel, y, x, input_channel, height, width, depth),
            r,
        ),
    ensures
        r == ((output_channel * height + y) * width + x) * depth + input_channel,
{
}

/// The weights of a depthwise filter lie tap by tap, with the output channels side by
/// side, the multiples of an input channel together. The shape of the weights is
/// `[1, KH, KW, C_out]`, or `[KH, KW, C_in, multiplier]` where `KH` is not 1.
pub proof fn law_depthwise_weights(
    dims: [usize; 4],
    depth: usize,
    multiplier: usize,
    r: Result<DepthwiseDims, KernelError>,
    y: usize,
    x: usize,
    channel: usize,
    multiple: usize,
    index: usize,
)
    requires
        call_ensures(shape::depthwise_filter_dims, (dims, depth, multiplier), r),
        r matches Ok(d) ==> call_ensures(
            shape::depthwise_weight_index,
            (y, x, channel, multiple, d),
            index,
        ),
    ensures
        r is Ok <==> if dims[0] == 1 {
            depth > 0 && dims[3] / depth == multiplier
        } else {
            dims[2] == depth && dims[3] == multiplier
        },
        r matches Err(e) ==> e == KernelError::InvalidShape,
        r matches Ok(d) ==> {
            &&& d.filter_h == (if dims[0] == 1 {
                dims[1]
            } else {
                dims[0]
            })
            &&& d.filter_w == (if dims[0] == 1 {
                dims[2]
            } else {
                dims[1]
            })
            &&& index == (y * d.filter_w + x) * (depth * multiplier) + (channel * multiplier
                + multiple)
        },
{
    if let Ok(d) = r {
        let tap = y * d.filter_w + x;
        let (a, b, c, e) = (tap, depth as int, channel as int, multiplier as int);
        assert((a * b + c) * e == a * (b * e) + c * e) by (nonlinear_arith);
    }
}

/// A filter with gaps reaches from its first tap to its last.
pub proof fn law_effective_filter_size(filter: usize, dilation: usize, r: usize)
    requires
        call_ensures(shape::effective_filter_size, (filter, dilation), r),
    ensures
        r == (filter - 1) * dilation + 1,
{
}

/// Padding is added only where the output size is kept: half, rounded down, of what the
/// windows reach beyond the input.
pub proof fn law_compute_padding(
    size: usize,
    filter: usize,
    stride: usize,
    padding: Padding,
    r: usize,
)
    requires
        call_ensures(shape::compute_padding, (size, filter, stride, padding), r),
        stride > 0,
    ensures
        r == windows::pad_before(size as int, filter as int, stride as int, 1, padding),
{
}

/// The tap of a window lies on the input element at its distance from the padding, or on
/// padding.
pub proof fn law_input_index(
    size: usize,
    filter: usize,
    stride: usize,
    dilation: usize,
    padding: Padding,
    axis: Axis,
    out: usize,
    tap: usize,
    r: Option<usize>,
)
    requires
        call_ensures(Axis::new, (size, filter, stride, dilation, padding), axis),
        shape::window_defined(size, filter as int, stride as int, dilation as int, padding),
        call_ensures(Axis::input_index, (axis, out, tap), r),
        stride > 0,
        dilation > 0,
    ensures
        ({
            let p = windows::tap_position(
                size as int,
                filter as int,
                stride as int,
                dilation as int,
                padding,
                out as int,
                tap as int,
            );
            match r {
                Some(i) => i == p && p < size,
                None => p < 0 || p >= size,
            }
        }),
{
    windows::lemma_tap(
        size,
        filter as int,
        stride as int,
        dilation as int,
        padding,
        out as int,
        tap as int,
    );
}

} // verus!
