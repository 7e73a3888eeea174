//! Where the taps of a sliding window lie, and which taps a flat index stands for.
use crate::shape;
use crate::types::Padding;
use vstd::arithmetic::div_mod::*;
use vstd::arithmetic::mul::*;
use vstd::prelude::*;

verus! {

/// Elements of padding before the input along one axis: half, rounded down, of what
/// `ceil(size / stride)` windows reach beyond the input.
pub open spec fn pad_before(
    size: int,
    filter: int,
    stride: int,
    dilation: int,
    padding: Padding,
) -> int {
    let reach = ((size + stride - 1) / stride - 1) * stride + (filter - 1) * dilation + 1;
    if padding == Padding::Same && reach > size {
        (reach - size) / 2
    } else {
        0
    }
}

/// The input position under tap `tap` of window `out` along one axis; it lies on the
/// input where it is at least 0 and less than `size`.
pub open spec fn tap_position(
    size: int,
    filter: int,
    stride: int,
    dilation: int,
    padding: Padding,
    out: int,
    tap: int,
) -> int {
    out * stride + tap * dilation - pad_before(size, filter, stride, dilation, padding)
}

pub proof fn lemma_tap(
    size: usize,
    filter: int,
    stride: int,
    dilation: int,
    padding: Padding,
    out: int,
    tap: int,
)
    requires
        shape::window_defined(size, filter, stride, dilation, padding),
        0 < stride <= usize::MAX,
        0 < dilation <= usize::MAX,
    ensures
        ({
            let p = tap_position(size as int, filter, stride, dilation, padding, out, tap);
            shape::window_axis(size, filter, stride, dilation, padding).source(out, tap) == (if 0
                <= p < size {
                Some(p)
            } else {
                None
            })
        }),
{
}

/// The parts of a flat index.
pub proof fn lemma_flat(row: int, column: int, columns: int)
    requires
        0 <= column < columns,
        0 <= row,
    ensures
        (row * columns + column) / columns == row,
        (row * columns + column) % columns == column,
{
    lemma_fundamental_div_mod_converse(row * columns + column, columns, row, column);
}

} // verus!
