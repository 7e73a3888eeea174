//! Pooling on raw buffers.
use crate::backend::{Buffers, KernelBackend, Operation};
use crate::laws::domain;
use crate::laws::results;
use crate::laws::sums;
use crate::laws::windows;
use crate::params::PoolArgs;
use crate::pool;
use crate::pool::PoolKind;
use crate::quantize;
use crate::reference::RefBackend;
use crate::shape;
use crate::shape::Cell;
use crate::single;
use crate::single::Real;
use crate::types::{FusedActivation, KernelError, Status};
use vstd::arithmetic::mul::*;
use vstd::prelude::*;

verus! {

/// The row of the input under tap `t` of the window in output row `y`.
pub open spec fn input_row(a: PoolArgs, y: int, t: int) -> int {
    windows::tap_position(
        a.input_shape[1] as int,
        a.filter_h as int,
        a.stride_h as int,
        1,
        a.padding,
        y,
        t / a.filter_w as int,
    )
}

/// The column of the input under tap `t` of the window in output column `x`.
pub open spec fn input_column(a: PoolArgs, x: int, t: int) -> int {
    windows::tap_position(
        a.input_shape[2] as int,
        a.filter_w as int,
        a.stride_w as int,
        1,
        a.padding,
        x,
        t % a.filter_w as int,
    )
}

/// Tap `t` of the window at `(y, x)` lies on the input.
pub open spec fn covered(a: PoolArgs, y: int, x: int, t: int) -> bool {
    &&& 0 <= t < a.filter_h * a.filter_w
    &&& 0 <= input_row(a, y, t) < a.input_shape[1]
    &&& 0 <= input_column(a, x, t) < a.input_shape[2]
}

/// The input element under tap `t` of the window at `(y, x)`.
pub open spec fn element(a: PoolArgs, b: int, y: int, x: int, c: int, t: int) -> int {
    a.input[((b * a.input_shape[1] + input_row(a, y, t)) * a.input_shape[2] + input_column(a, x, t))
        * a.input_shape[3] + c] as int
}

/// Number of input elements under the window at `(y, x)`.
pub open spec fn count(a: PoolArgs, y: int, x: int) -> int {
    sums::total(
        a.filter_h * a.filter_w,
        |t: int|
            if covered(a, y, x, t) {
                1
            } else {
                0
            },
    )
}

/// The sum of the distances from the zero point of the input elements under the window
/// at `(y, x)`.
pub open spec fn distance_sum(a: PoolArgs, b: int, y: int, x: int, c: int) -> int {
    sums::total(
        a.filter_h * a.filter_w,
        |t: int|
            if covered(a, y, x, t) {
                element(a, b, y, x, c, t) - a.input_quant.zero_point
            } else {
                0
            },
    )
}

/// `m` is the largest input element under the window at `(y, x)`.
pub open spec fn is_largest(a: PoolArgs, b: int, y: int, x: int, c: int, m: int) -> bool {
    &&& exists|t: int| #[trigger] covered(a, y, x, t) && element(a, b, y, x, c, t) == m
    &&& forall|t: int| #[trigger] covered(a, y, x, t) ==> element(a, b, y, x, c, t) <= m
}

/// The place of an output element in the output buffer.
pub open spec fn place(a: PoolArgs, b: int, y: int, x: int, c: int) -> int {
    ((b * a.output_shape[1] + y) * a.output_shape[2] + x) * a.output_shape[3] + c
}

/// The scale of the input over that of the output.
pub open spec fn ratio(a: PoolArgs) -> Real {
    single::decode(a.input_quant.scale).over(single::decode(a.output_quant.scale))
}

/// `seen` holds the elements under the first `bound` taps.
#[verifier::opaque]
spec fn gathered(a: PoolArgs, cell: Cell, seen: Seq<i8>, bound: int) -> bool {
    let (b, y, x, c) = (cell.batch, cell.y, cell.x, cell.channel);
    &&& seen.len() == sums::total(
        bound,
        |t: int|
            if covered(a, y, x, t) {
                1
            } else {
                0
            },
    )
    &&& pool::centered_sum(seen, a.input_quant.zero_point as int) == sums::total(
        bound,
        |t: int|
            if covered(a, y, x, t) {
                element(a, b, y, x, c, t) - a.input_quant.zero_point
            } else {
                0
            },
    )
    &&& forall|i: int|
        0 <= i < seen.len() ==> exists|t: int| #[trigger]
            covered(a, y, x, t) && element(a, b, y, x, c, t) == #[trigger] seen[i]
    &&& forall|t: int|
        t < bound && #[trigger] covered(a, y, x, t) ==> exists|i: int|
            0 <= i < seen.len() && #[trigger] seen[i] == element(a, b, y, x, c, t)
}

proof fn lemma_gather_step(a: PoolArgs, cell: Cell, seen: Seq<i8>, t: int, value: i8)
    requires
        gathered(a, cell, seen, t),
        covered(a, cell.y, cell.x, t),
        element(a, cell.batch, cell.y, cell.x, cell.channel, t) == value,
        t >= 0,
    ensures
        gathered(a, cell, seen.push(value), t + 1),
{
    reveal(gathered);
    let (b, y, x, c) = (cell.batch, cell.y, cell.x, cell.channel);
    let next = seen.push(value);
    assert(next.drop_last() =~= seen);
    assert forall|i: int| 0 <= i < next.len() implies exists|s: int| #[trigger]
        covered(a, y, x, s) && element(a, b, y, x, c, s) == #[trigger] next[i] by {
        if i < seen.len() {
            assert(next[i] == seen[i]);
        } else {
            assert(covered(a, y, x, t));
        }
    }
    assert forall|s: int| s < t + 1 && #[trigger] covered(a, y, x, s) implies exists|i: int|
        0 <= i < next.len() && #[trigger] next[i] == element(a, b, y, x, c, s) by {
        if s < t {
            let i = choose|i: int|
                0 <= i < seen.len() && #[trigger] seen[i] == element(a, b, y, x, c, s);
            assert(next[i] == seen[i]);
        } else {
            assert(next[seen.len() as int] == value);
        }
    }
}

proof fn lemma_gather_skip(a: PoolArgs, cell: Cell, seen: Seq<i8>, t: int)
    requires
        gathered(a, cell, seen, t),
        !covered(a, cell.y, cell.x, t),
        t >= 0,
    ensures
        gathered(a, cell, seen, t + 1),
{
    reveal(gathered);
}

proof fn lemma_tap(a: PoolArgs, cell: Cell, fy: int, fx: int)
    requires
        a.valid(),
        a.geometry_defined(),
        0 <= fy < a.filter_h,
        0 <= fx < a.filter_w,
    ensures
        ({
            let t = fy * a.filter_w + fx;
            &&& 0 <= t < a.filter_h * a.filter_w
            &&& covered(a, cell.y, cell.x, t) <==> a.rows().source(cell.y, fy) is Some
                && a.columns().source(cell.x, fx) is Some
            &&& covered(a, cell.y, cell.x, t) ==> element(
                a,
                cell.batch,
                cell.y,
                cell.x,
                cell.channel,
                t,
            ) == a.input_at(
                cell.batch,
                a.rows().source(cell.y, fy)->0,
                a.columns().source(cell.x, fx)->0,
                cell.channel,
            )
        }),
{
    let w = a.filter_w as int;
    let h = a.filter_h as int;
    lemma_mul_nonnegative(fy, w);
    assert(fy * w + fx < h * w) by (nonlinear_arith)
        requires
            0 <= fy < h,
            0 <= fx < w,
    ;
    windows::lemma_flat(fy, fx, w);
    windows::lemma_tap(
        a.input_shape[1],
        h,
        a.stride_h as int,
        1,
        a.padding,
        cell.y,
        fy,
    );
    windows::lemma_tap(
        a.input_shape[2],
        w,
        a.stride_w as int,
        1,
        a.padding,
        cell.x,
        fx,
    );
}

proof fn lemma_gather_row(a: PoolArgs, cell: Cell, fy: int, y: int, n: int)
    requires
        a.valid(),
        a.geometry_defined(),
        0 <= fy < a.filter_h,
        0 <= n <= a.filter_w,
        a.rows().source(cell.y, fy) == Some(y),
        gathered(a, cell, a.window_rows(cell, fy), fy * a.filter_w),
    ensures
        gathered(
            a,
            cell,
            a.window_rows(cell, fy) + a.row_window(cell, y, n),
            fy * a.filter_w + n,
        ),
    decreases n,
{
    let before = a.window_rows(cell, fy);
    if n <= 0 {
        assert(before + a.row_window(cell, y, n) =~= before);
    } else {
        lemma_gather_row(a, cell, fy, y, n - 1);
        lemma_tap(a, cell, fy, n - 1);
        let seen = before + a.row_window(cell, y, n - 1);
        let t = fy * a.filter_w + (n - 1);
        match a.columns().source(cell.x, n - 1) {
            Some(x) => {
                let value = a.input_at(cell.batch, y, x, cell.channel);
                lemma_gather_step(a, cell, seen, t, value);
                assert(seen.push(value) =~= before + a.row_window(cell, y, n));
            },
            None => {
                lemma_gather_skip(a, cell, seen, t);
            },
        }
    }
}

proof fn lemma_gather_blank(a: PoolArgs, cell: Cell, fy: int, n: int)
    requires
        a.valid(),
        a.geometry_defined(),
        0 <= fy < a.filter_h,
        0 <= n <= a.filter_w,
        a.rows().source(cell.y, fy) is None,
        gathered(a, cell, a.window_rows(cell, fy), fy * a.filter_w),
    ensures
        gathered(a, cell, a.window_rows(cell, fy), fy * a.filter_w + n),
    decreases n,
{
    if n > 0 {
        lemma_gather_blank(a, cell, fy, n - 1);
        lemma_tap(a, cell, fy, n - 1);
        lemma_gather_skip(a, cell, a.window_rows(cell, fy), fy * a.filter_w + (n - 1));
    }
}

proof fn lemma_gather(a: PoolArgs, cell: Cell, n: int)
    requires
        a.valid(),
        a.geometry_defined(),
        0 <= n <= a.filter_h,
    ensures
        gathered(a, cell, a.window_rows(cell, n), n * a.filter_w),
    decreases n,
{
    let w = a.filter_w as int;
    if n <= 0 {
        reveal(gathered);
        assert(0 * w == 0);
        assert(pool::centered_sum(a.window_rows(cell, n), a.input_quant.zero_point as int) == 0);
    } else {
        lemma_gather(a, cell, n - 1);
        assert(n * w == (n - 1) * w + w) by (nonlinear_arith);
        match a.rows().source(cell.y, n - 1) {
            Some(y) => {
                lemma_gather_row(a, cell, n - 1, y, w);
            },
            None => {
                lemma_gather_blank(a, cell, n - 1, w);
            },
        }
    }
}

/// Where the writing ends.
proof fn lemma_filled(a: PoolArgs, i: int)
    requires
        0 <= i <= a.output_len,
    ensures
        i <= a.filled_from(i) <= a.output_len,
        forall|k: int|
            i <= k < a.filled_from(i) ==> #[trigger] a.window(
                shape::cell_at(a.output_shape@, k),
            ).len() > 0,
        a.filled_from(i) < a.output_len ==> a.window(
            shape::cell_at(a.output_shape@, a.filled_from(i)),
        ).len() == 0,
    decreases a.output_len - i,
{
    if i < a.output_len && a.window(shape::cell_at(a.output_shape@, i)).len() != 0 {
        lemma_filled(a, i + 1);
    }
}

proof fn lemma_written_before(
    before: RefBackend,
    kind: PoolKind,
    a: PoolArgs,
    buffers: Buffers,
    after: RefBackend,
    written: Buffers,
    status: Status,
    cell: Cell,
)
    requires
        before.accepts(Operation::Pool(kind, a), buffers),
        RefBackend::performs(before, Operation::Pool(kind, a), buffers, after, written, status),
        shape::cell_within(cell, a.output_shape@),
        a.valid(),
        place(a, cell.batch, cell.y, cell.x, cell.channel) < a.filled(),
    ensures
        ({
            let i = place(a, cell.batch, cell.y, cell.x, cell.channel);
            &&& 0 <= i < written.output.len()
            &&& written.output[i] == a.element(kind, cell)
            &&& a.element_defined(kind, cell)
            &&& a.window(cell).len() > 0
            &&& gathered(a, cell, a.window(cell), a.filter_h * a.filter_w)
        }),
{
    shape::lemma_index_at_cell(a.output_shape@, cell);
    let i = place(a, cell.batch, cell.y, cell.x, cell.channel);
    assert(shape::cell_at(a.output_shape@, i) == cell);
    lemma_filled(a, 0);
    assert(a.element_defined(kind, shape::cell_at(a.output_shape@, i)));
    lemma_gather(a, cell, a.filter_h as int);
    let value = quantize::requantized(
        a.pooled(kind, a.window(cell)),
        quantize::real_multiplier(a.scale()),
        a.output_quant.zero_point as int,
    );
    results::lemma_activation_range(value, a.activation, a.output_quant);
}

proof fn lemma_written(
    before: RefBackend,
    kind: PoolKind,
    a: PoolArgs,
    buffers: Buffers,
    after: RefBackend,
    written: Buffers,
    cell: Cell,
)
    requires
        before.accepts(Operation::Pool(kind, a), buffers),
        RefBackend::performs(before, Operation::Pool(kind, a), buffers, after, written, Ok(())),
        shape::cell_within(cell, a.output_shape@),
    ensures
        ({
            let i = place(a, cell.batch, cell.y, cell.x, cell.channel);
            &&& 0 <= i < written.output.len()
            &&& written.output[i] == a.element(kind, cell)
            &&& a.element_defined(kind, cell)
            &&& a.window(cell).len() > 0
            &&& gathered(a, cell, a.window(cell), a.filter_h * a.filter_w)
        }),
{
    shape::lemma_index_at_cell(a.output_shape@, cell);
    lemma_filled(a, 0);
    lemma_written_before(before, kind, a, buffers, after, written, Ok(()), cell);
}

proof fn lemma_gathered_largest(a: PoolArgs, cell: Cell, seen: Seq<i8>)
    requires
        gathered(a, cell, seen, a.filter_h * a.filter_w),
        seen.len() > 0,
    ensures
        is_largest(a, cell.batch, cell.y, cell.x, cell.channel, pool::largest(seen)),
{
    reveal(gathered);
    let (b, y, x, c) = (cell.batch, cell.y, cell.x, cell.channel);
    pool::lemma_largest(seen);
    let m = pool::largest(seen);
    let top = choose|i: int| 0 <= i < seen.len() && #[trigger] seen[i] == m;
    assert(seen[top] == m);
    let s = choose|t: int| #[trigger]
        covered(a, y, x, t) && element(a, b, y, x, c, t) == seen[top];
    assert(covered(a, y, x, s) && element(a, b, y, x, c, s) == m);
    assert forall|t: int| #[trigger] covered(a, y, x, t) implies element(a, b, y, x, c, t) <= m by {
        let i = choose|i: int|
            0 <= i < seen.len() && #[trigger] seen[i] == element(a, b, y, x, c, t);
        assert(seen[i] <= m);
    }
}

proof fn lemma_gathered_sums(a: PoolArgs, cell: Cell, seen: Seq<i8>)
    requires
        gathered(a, cell, seen, a.filter_h * a.filter_w),
    ensures
        seen.len() == count(a, cell.y, cell.x),
        pool::centered_sum(seen, a.input_quant.zero_point as int) == distance_sum(
            a,
            cell.batch,
            cell.y,
            cell.x,
            cell.channel,
        ),
{
    reveal(gathered);
}

/// A window has one largest element.
proof fn lemma_one_largest(a: PoolArgs, b: int, y: int, x: int, c: int, m: int, n: int)
    requires
        is_largest(a, b, y, x, c, m),
        is_largest(a, b, y, x, c, n),
    ensures
        m == n,
{
    let s = choose|t: int| #[trigger] covered(a, y, x, t) && element(a, b, y, x, c, t) == m;
    let t = choose|t: int| #[trigger] covered(a, y, x, t) && element(a, b, y, x, c, t) == n;
    assert(covered(a, y, x, s) && covered(a, y, x, t));
}

/// Max pooling writes, at the place of every output element, the largest input element
/// under its window, relative to the zero point of the input, scaled to the output and
/// limited to the range of the activation.
pub proof fn law_max_pool(
    before: RefBackend,
    a: PoolArgs,
    buffers: Buffers,
    after: RefBackend,
    written: Buffers,
    b: int,
    y: int,
    x: int,
    c: int,
    m: int,
)
    requires
        before.accepts(Operation::Pool(PoolKind::Max, a), buffers),
        RefBackend::performs(
            before,
            Operation::Pool(PoolKind::Max, a),
            buffers,
            after,
            written,
            Ok(()),
        ),
        0 <= b < a.output_shape[0],
        0 <= y < a.output_shape[1],
        0 <= x < a.output_shape[2],
        0 <= c < a.output_shape[3],
        is_largest(a, b, y, x, c, m),
    ensures
        0 <= place(a, b, y, x, c) < written.output.len(),
        written.output[place(a, b, y, x, c)] == results::finished(
            m - a.input_quant.zero_point,
            ratio(a),
            a.activation,
            a.output_quant,
        ),
        results::permitted(
            written.output[place(a, b, y, x, c)] as int,
            a.activation,
            a.output_quant,
        ),
{
    let cell = Cell { batch: b, y, x, channel: c };
    lemma_written(before, PoolKind::Max, a, buffers, after, written, cell);
    let window = a.window(cell);
    pool::lemma_largest(window);
    lemma_gathered_largest(a, cell, window);
    lemma_one_largest(a, b, y, x, c, m, pool::largest(window));
    assert(pool::largest(window) == m);
    let value = quantize::requantized(
        a.pooled(PoolKind::Max, window),
        quantize::real_multiplier(a.scale()),
        a.output_quant.zero_point as int,
    );
    results::lemma_activation_range(value, a.activation, a.output_quant);
}

/// Average pooling writes, at the place of every output element, the mean of the input
/// elements under its window, relative to the zero point of the input and rounded,
/// scaled to the output and limited to the range of the activation.
pub proof fn law_avg_pool(
    before: RefBackend,
    a: PoolArgs,
    buffers: Buffers,
    after: RefBackend,
    written: Buffers,
    b: int,
    y: int,
    x: int,
    c: int,
)
    requires
        before.accepts(Operation::Pool(PoolKind::Average, a), buffers),
        RefBackend::performs(
            before,
            Operation::Pool(PoolKind::Average, a),
            buffers,
            after,
            written,
            Ok(()),
        ),
        0 <= b < a.output_shape[0],
        0 <= y < a.output_shape[1],
        0 <= x < a.output_shape[2],
        0 <= c < a.output_shape[3],
    ensures
        0 <= place(a, b, y, x, c) < written.output.len(),
        count(a, y, x) > 0,
        written.output[place(a, b, y, x, c)] == results::finished(
            quantize::rounded_quotient(distance_sum(a, b, y, x, c), count(a, y, x)),
            ratio(a),
            a.activation,
            a.output_quant,
        ),
        results::permitted(
            written.output[place(a, b, y, x, c)] as int,
            a.activation,
            a.output_quant,
        ),
{
    let cell = Cell { batch: b, y, x, channel: c };
    lemma_written(before, PoolKind::Average, a, buffers, after, written, cell);
    lemma_gathered_sums(a, cell, a.window(cell));
    let value = quantize::requantized(
        a.pooled(PoolKind::Average, a.window(cell)),
        quantize::real_multiplier(a.scale()),
        a.output_quant.zero_point as int,
    );
    results::lemma_activation_range(value, a.activation, a.output_quant);
}

/// Input and output have the same quantization parameters, with a scale other than zero
/// and a zero point of `i8`.
pub open spec fn same_quantization(a: PoolArgs) -> bool {
    &&& a.input_quant == a.output_quant
    &&& -128 <= a.input_quant.zero_point <= 127
    &&& single::decode(a.input_quant.scale) matches Real::Finite { units, .. } && units > 0
}

/// Between tensors of one quantization and without an activation, max pooling writes the
/// largest input element under each window.
pub proof fn law_max_pool_selects(
    before: RefBackend,
    a: PoolArgs,
    buffers: Buffers,
    after: RefBackend,
    written: Buffers,
    b: int,
    y: int,
    x: int,
    c: int,
)
    requires
        before.accepts(Operation::Pool(PoolKind::Max, a), buffers),
        RefBackend::performs(
            before,
            Operation::Pool(PoolKind::Max, a),
            buffers,
            after,
            written,
            Ok(()),
        ),
        0 <= b < a.output_shape[0],
        0 <= y < a.output_shape[1],
        0 <= x < a.output_shape[2],
        0 <= c < a.output_shape[3],
        same_quantization(a),
        a.activation == FusedActivation::Identity,
    ensures
        is_largest(a, b, y, x, c, written.output[place(a, b, y, x, c)] as int),
{
    let cell = Cell { batch: b, y, x, channel: c };
    lemma_written(before, PoolKind::Max, a, buffers, after, written, cell);
    let window = a.window(cell);
    pool::lemma_largest(window);
    let m = pool::largest(window);
    lemma_gathered_largest(a, cell, window);
    results::lemma_ratio_of_equals(a.input_quant.scale);
    results::lemma_finished_at_unit_scale(m - a.input_quant.zero_point, a.output_quant);
    law_max_pool(before, a, buffers, after, written, b, y, x, c, m);
}

/// Between tensors of one quantization and without an activation, average pooling writes
/// the mean of the input elements under each window, rounded to the nearest integer.
pub proof fn law_avg_pool_averages(
    before: RefBackend,
    a: PoolArgs,
    buffers: Buffers,
    after: RefBackend,
    written: Buffers,
    b: int,
    y: int,
    x: int,
    c: int,
)
    requires
        before.accepts(Operation::Pool(PoolKind::Average, a), buffers),
        RefBackend::performs(
            before,
            Operation::Pool(PoolKind::Average, a),
            buffers,
            after,
            written,
            Ok(()),
        ),
        0 <= b < a.output_shape[0],
        0 <= y < a.output_shape[1],
        0 <= x < a.output_shape[2],
        0 <= c < a.output_shape[3],
        same_quantization(a),
        a.activation == FusedActivation::Identity,
    ensures
        ({
            let sum = sums::total(
                a.filter_h * a.filter_w,
                |t: int|
                    if covered(a, y, x, t) {
                        element(a, b, y, x, c, t)
                    } else {
                        0
                    },
            );
            let r = written.output[place(a, b, y, x, c)] as int;
            2 * quantize::abs(sum - count(a, y, x) * r) <= count(a, y, x)
        }),
{
    let cell = Cell { batch: b, y, x, channel: c };
    lemma_written(before, PoolKind::Average, a, buffers, after, written, cell);
    law_avg_pool(before, a, buffers, after, written, b, y, x, c);
    let window = a.window(cell);
    let z = a.input_quant.zero_point as int;
    let n = count(a, y, x);
    let d = distance_sum(a, b, y, x, c);
    let q = quantize::rounded_quotient(d, n);
    lemma_gathered_sums(a, cell, window);
    pool::lemma_average_bounds(window, z, -128, 127);
    quantize::lemma_rounded_quotient(d, n);
    results::lemma_ratio_of_equals(a.input_quant.scale);
    results::lemma_finished_at_unit_scale(q, a.output_quant);
    lemma_distances(a, b, y, x, c, a.filter_h * a.filter_w);
    assert(n * (q + z) == n * q + n * z) by (nonlinear_arith);
}

/// The distances from the zero point add up to the elements less as many times the zero
/// point.
proof fn lemma_distances(a: PoolArgs, b: int, y: int, x: int, c: int, n: int)
    ensures
        sums::total(
            n,
            |t: int|
                if covered(a, y, x, t) {
                    element(a, b, y, x, c, t) - a.input_quant.zero_point
                } else {
                    0
                },
        ) == sums::total(
            n,
            |t: int|
                if covered(a, y, x, t) {
                    element(a, b, y, x, c, t)
                } else {
                    0
                },
        ) - sums::total(
            n,
            |t: int|
                if covered(a, y, x, t) {
                    1
                } else {
                    0
                },
        ) * a.input_quant.zero_point,
    decreases n,
{
    let z = a.input_quant.zero_point as int;
    if n > 0 {
        lemma_distances(a, b, y, x, c, n - 1);
        let k = sums::total(
            n - 1,
            |t: int|
                if covered(a, y, x, t) {
                    1
                } else {
                    0
                },
        );
        assert((k + 1) * z == k * z + z) by (nonlinear_arith);
    } else {
        lemma_mul_basics(z);
    }
}

/// Pooling succeeds exactly where the buffers have as many elements as their shapes
/// state, batches and channels agree, strides and filter sizes are positive, and every
/// window covers some input. Otherwise the shapes are refused: at once, with nothing
/// written, or at the first window that lies on padding alone, with everything from
/// there on left as it was.
pub proof fn law_pool_status(
    before: RefBackend,
    kind: PoolKind,
    a: PoolArgs,
    buffers: Buffers,
    after: RefBackend,
    written: Buffers,
    status: Status,
)
    requires
        before.accepts(Operation::Pool(kind, a), buffers),
        RefBackend::performs(before, Operation::Pool(kind, a), buffers, after, written, status),
        buffers.output.len() == a.output_len,
    ensures
        ({
            let shapes_agree = {
                &&& a.input.len() == a.input_shape[0] * a.input_shape[1] * a.input_shape[2]
                    * a.input_shape[3]
                &&& a.output_len == a.output_shape[0] * a.output_shape[1] * a.output_shape[2]
                    * a.output_shape[3]
                &&& a.output_shape[0] == a.input_shape[0]
                &&& a.output_shape[3] == a.input_shape[3]
                &&& a.stride_w > 0 && a.stride_h > 0
                &&& a.filter_w > 0 && a.filter_h > 0
            };
            &&& status is Ok <==> shapes_agree && forall|i: int|
                0 <= i < a.output_len ==> #[trigger] some_input(a, i)
            &&& status is Err ==> status == Err::<(), KernelError>(KernelError::InvalidShape)
            &&& !shapes_agree ==> written.output == buffers.output
            &&& shapes_agree ==> forall|j: int, i: int|
                0 <= j <= i < a.output_len && !#[trigger] some_input(a, j)
                    ==> #[trigger] written.output[i] == buffers.output[i]
        }),
{
    shape::lemma_product4(a.input_shape@);
    shape::lemma_product4(a.output_shape@);
    if a.valid() {
        lemma_filled(a, 0);
        assert forall|i: int| 0 <= i < a.output_len implies #[trigger] some_input(a, i) == (
        a.window(shape::cell_at(a.output_shape@, i)).len() > 0) by {
            lemma_some_input(a, i);
        }
        let end = a.filled();
        if end < a.output_len {
            assert(!some_input(a, end));
        }
        assert forall|j: int, i: int| 0 <= j <= i < a.output_len && !#[trigger] some_input(a, j)
            implies #[trigger] written.output[i] == buffers.output[i] by {
            assert(a.window(shape::cell_at(a.output_shape@, j)).len() == 0);
            assert(end <= j);
        }
    } else {
        assert(written.output =~= buffers.output);
    }
}

/// The window of the output element at place `i` covers some input.
pub open spec fn some_input(a: PoolArgs, i: int) -> bool {
    let pixel = i / a.output_shape[3] as int;
    exists|t: int| #[trigger]
        covered(
            a,
            pixel / a.output_shape[2] as int % a.output_shape[1] as int,
            pixel % a.output_shape[2] as int,
            t,
        )
}

proof fn lemma_some_input(a: PoolArgs, i: int)
    requires
        a.valid(),
        a.geometry_defined(),
    ensures
        some_input(a, i) == (a.window(shape::cell_at(a.output_shape@, i)).len() > 0),
{
    let cell = shape::cell_at(a.output_shape@, i);
    lemma_gather(a, cell, a.filter_h as int);
    let window = a.window(cell);
    lemma_gathered_sums(a, cell, window);
    if window.len() > 0 {
        lemma_gathered_largest(a, cell, window);
    } else if some_input(a, i) {
        reveal(gathered);
        let t = choose|t: int| #[trigger] covered(a, cell.y, cell.x, t);
        assert(t < a.filter_h * a.filter_w);
    }
}

/// Pooling that ends at a window that lies on padding alone has written, at the places
/// before it, what it writes where it succeeds.
pub proof fn law_pool_until(
    before: RefBackend,
    kind: PoolKind,
    a: PoolArgs,
    buffers: Buffers,
    after: RefBackend,
    written: Buffers,
    status: Status,
    b: int,
    y: int,
    x: int,
    c: int,
    m: int,
)
    requires
        before.accepts(Operation::Pool(kind, a), buffers),
        RefBackend::performs(before, Operation::Pool(kind, a), buffers, after, written, status),
        a.input.len() == a.input_shape[0] * a.input_shape[1] * a.input_shape[2]
            * a.input_shape[3],
        a.output_len == a.output_shape[0] * a.output_shape[1] * a.output_shape[2]
            * a.output_shape[3],
        a.output_shape[0] == a.input_shape[0],
        a.output_shape[3] == a.input_shape[3],
        a.stride_w > 0 && a.stride_h > 0,
        a.filter_w > 0 && a.filter_h > 0,
        0 <= b < a.output_shape[0],
        0 <= y < a.output_shape[1],
        0 <= x < a.output_shape[2],
        0 <= c < a.output_shape[3],
        forall|i: int| 0 <= i <= place(a, b, y, x, c) ==> #[trigger] some_input(a, i),
        is_largest(a, b, y, x, c, m),
    ensures
        0 <= place(a, b, y, x, c) < written.output.len(),
        written.output[place(a, b, y, x, c)] == results::finished(
            match kind {
                PoolKind::Max => m - a.input_quant.zero_point,
                PoolKind::Average => quantize::rounded_quotient(
                    distance_sum(a, b, y, x, c),
                    count(a, y, x),
                ),
            },
            ratio(a),
            a.activation,
            a.output_quant,
        ),
{
    let cell = Cell { batch: b, y, x, channel: c };
    shape::lemma_product4(a.input_shape@);
    shape::lemma_product4(a.output_shape@);
    shape::lemma_index_at_cell(a.output_shape@, cell);
    lemma_filled(a, 0);
    if a.filled() <= place(a, b, y, x, c) {
        lemma_some_input(a, a.filled());
        assert(some_input(a, a.filled()));
    }
    lemma_written_before(before, kind, a, buffers, after, written, status, cell);
    let window = a.window(cell);
    pool::lemma_largest(window);
    lemma_gathered_largest(a, cell, window);
    lemma_gathered_sums(a, cell, window);
    lemma_one_largest(a, b, y, x, c, m, pool::largest(window) as int);
}

/// Only the distance from the zero point counts: pooling gives the same output when all
/// inputs and the zero point of the input are moved by `k`.
pub proof fn law_pool_zero_point(
    backend: RefBackend,
    kind: PoolKind,
    a: PoolArgs,
    moved: PoolArgs,
    k: int,
    buffers: Buffers,
    after: RefBackend,
    written: Buffers,
    moved_after: RefBackend,
    moved_written: Buffers,
)
    requires
        moved == (PoolArgs { input: moved.input, input_quant: moved.input_quant, ..a }),
        moved.input.len() == a.input.len(),
        moved.input_quant.scale == a.input_quant.scale,
        moved.input_quant.zero_point == a.input_quant.zero_point + k,
        forall|i: int| 0 <= i < a.input.len() ==> #[trigger] moved.input[i] == a.input[i] + k,
        backend.accepts(Operation::Pool(kind, a), buffers),
        backend.accepts(Operation::Pool(kind, moved), buffers),
        RefBackend::performs(backend, Operation::Pool(kind, a), buffers, after, written, Ok(())),
        RefBackend::performs(
            backend,
            Operation::Pool(kind, moved),
            buffers,
            moved_after,
            moved_written,
            Ok(()),
        ),
    ensures
        moved_written.output == written.output,
{
    assert forall|i: int| 0 <= i < a.output_len implies moved_written.output[i]
        == #[trigger] written.output[i] by {
        shape::lemma_cell_at_index(a.output_shape@, i);
        let cell = shape::cell_at(a.output_shape@, i);
        let (b, y, x, c) = (cell.batch, cell.y, cell.x, cell.channel);
        lemma_written(backend, kind, a, buffers, after, written, cell);
        assert forall|t: int| #[trigger] covered(a, y, x, t) implies element(moved, b, y, x, c, t)
            == element(a, b, y, x, c, t) + k by {
            shape::lemma_product4(a.input_shape@);
            shape::lemma_index4_bound(
                b,
                input_row(a, y, t),
                input_column(a, x, t),
                c,
                a.input_shape[0] as int,
                a.input_shape[1] as int,
                a.input_shape[2] as int,
                a.input_shape[3] as int,
            );
        }
        assert forall|t: int| covered(moved, y, x, t) == #[trigger] covered(a, y, x, t) by {}
        match kind {
            PoolKind::Max => {
                let m = pool::largest(a.window(cell));
                lemma_gathered_largest(a, cell, a.window(cell));
                let s = choose|t: int| #[trigger]
                    covered(a, y, x, t) && element(a, b, y, x, c, t) == m;
                assert(covered(moved, y, x, s));
                assert forall|t: int| #[trigger] covered(moved, y, x, t) implies element(
                    moved,
                    b,
                    y,
                    x,
                    c,
                    t,
                ) <= m + k by {
                    assert(covered(a, y, x, t));
                }
                assert(is_largest(moved, b, y, x, c, m + k));
                law_max_pool(backend, a, buffers, after, written, b, y, x, c, m);
                law_max_pool(
                    backend,
                    moved,
                    buffers,
                    moved_after,
                    moved_written,
                    b,
                    y,
                    x,
                    c,
                    m + k,
                );
            },
            PoolKind::Average => {
                law_avg_pool(backend, a, buffers, after, written, b, y, x, c);
                law_avg_pool(backend, moved, buffers, moved_after, moved_written, b, y, x, c);
                let n = a.filter_h * a.filter_w;
                sums::lemma_total_same(
                    n,
                    |t: int|
                        if covered(moved, y, x, t) {
                            element(moved, b, y, x, c, t) - moved.input_quant.zero_point
                        } else {
                            0
                        },
                    |t: int|
                        if covered(a, y, x, t) {
                            element(a, b, y, x, c, t) - a.input_quant.zero_point
                        } else {
                            0
                        },
                );
                sums::lemma_total_same(
                    n,
                    |t: int|
                        if covered(moved, y, x, t) {
                            1
                        } else {
                            0
                        },
                    |t: int|
                        if covered(a, y, x, t) {
                            1
                        } else {
                            0
                        },
                );
            },
        }
    }
    assert(moved_written.output =~= written.output);
}

proof fn lemma_count(a: PoolArgs, y: int, x: int, n: int)
    requires
        0 <= n,
    ensures
        0 <= sums::total(
            n,
            |t: int|
                if covered(a, y, x, t) {
                    1
                } else {
                    0
                },
        ) <= n,
    decreases n,
{
    if n > 0 {
        lemma_count(a, y, x, n - 1);
    }
}

/// A window of no more than 2^23 bytes is summed and averaged without overflow.
proof fn lemma_window_sums(window: Seq<i8>, zero_point: int)
    requires
        window.len() <= 0x7f_ffff,
        -128 <= zero_point <= 127,
    ensures
        pool::sum_defined(window, zero_point),
        window.len() > 0 ==> quantize::rounded_quotient_defined(
            pool::centered_sum(window, zero_point),
            window.len() as int,
        ),
        window.len() > 0 ==> -255 <= quantize::rounded_quotient(
            pool::centered_sum(window, zero_point),
            window.len() as int,
        ) <= 255,
{
    assert forall|i: int| 0 <= i <= window.len() implies quantize::abs(
        #[trigger] pool::centered_sum(window.take(i), zero_point),
    ) <= 0x7f7f_ff01 by {
        pool::lemma_sum_bounds(window.take(i), zero_point, -128, 127);
        assert(i * (-128 - zero_point) >= -0x7f_ffff * 255 && i * (127 - zero_point) <= 0x7f_ffff
            * 255) by (nonlinear_arith)
            requires
                0 <= i <= 0x7f_ffff,
                -128 <= zero_point <= 127,
        ;
    }
    assert(window.take(window.len() as int) =~= window);
    assert(quantize::abs(pool::centered_sum(window.take(window.len() as int), zero_point))
        <= 0x7f7f_ff01);
    if window.len() > 0 {
        pool::lemma_average_bounds(window, zero_point, -128, 127);
    }
}

/// The reference backend accepts all pooling of modest sizes and strides, with windows of
/// no more than 2^23 elements, whose zero points are of `i8`, whose scales are equal or
/// have a small ratio, and whose activation has a range.
pub proof fn law_pool_accepted(backend: RefBackend, kind: PoolKind, a: PoolArgs, buffers: Buffers)
    requires
        domain::is_tensor(a.input_shape),
        domain::is_tensor(a.output_shape),
        domain::is_modest(a.input_shape[1] as int),
        domain::is_modest(a.input_shape[2] as int),
        domain::is_modest(a.output_shape[1] as int),
        domain::is_modest(a.output_shape[2] as int),
        a.filter_h <= 0x4000 && a.filter_w <= 0x4000,
        a.filter_h > 0 && a.filter_w > 0 ==> a.filter_h * a.filter_w <= 0x7f_ffff,
        a.stride_h <= 0x4000 && a.stride_w <= 0x4000,
        domain::has_byte_zero(a.input_quant),
        domain::has_byte_zero(a.output_quant),
        domain::has_range(a.activation, a.output_quant),
        domain::is_small(ratio(a)) || same_quantization(a),
    ensures
        backend.accepts(Operation::Pool(kind, a), buffers),
{
    domain::lemma_tensor(a.input_shape);
    domain::lemma_tensor(a.output_shape);
    if a.valid() {
        domain::lemma_axis(
            a.input_shape[1],
            a.filter_h as int,
            a.stride_h as int,
            1,
            a.padding,
            a.output_shape[1] as int,
        );
        domain::lemma_axis(
            a.input_shape[2],
            a.filter_w as int,
            a.stride_w as int,
            1,
            a.padding,
            a.output_shape[2] as int,
        );
        if same_quantization(a) {
            results::lemma_ratio_of_equals(a.input_quant.scale);
        }
        assert(a.geometry_defined());
        assert forall|i: int| 0 <= i < a.output_len implies #[trigger] a.window_defined(
            shape::cell_at(a.output_shape@, i),
        ) by {
            lemma_window_accepted(a, i);
        }
        lemma_filled(a, 0);
        assert forall|i: int| 0 <= i < a.filled() implies #[trigger] a.element_defined(
            kind,
            shape::cell_at(a.output_shape@, i),
        ) by {
            let cell = shape::cell_at(a.output_shape@, i);
            let window = a.window(cell);
            lemma_window_accepted(a, i);
            pool::lemma_largest(window);
            let pooled = a.pooled(kind, window);
            assert(-255 <= pooled <= 255);
            domain::lemma_range(a.activation, a.output_quant);
            if same_quantization(a) {
                quantize::lemma_unit_scale(pooled);
            } else {
                domain::lemma_small(pooled, ratio(a), a.output_quant);
            }
        }
    }
}

proof fn lemma_window_accepted(a: PoolArgs, i: int)
    requires
        a.valid(),
        a.geometry_defined(),
        0 <= i < a.output_len,
        a.filter_h * a.filter_w <= 0x7f_ffff,
        domain::has_byte_zero(a.input_quant),
        forall|out: int, tap: int|
            0 <= out < a.output_shape[1] && 0 <= tap < a.filter_h
                ==> #[trigger] a.rows().source_defined(out, tap),
        forall|out: int, tap: int|
            0 <= out < a.output_shape[2] && 0 <= tap < a.filter_w
                ==> #[trigger] a.columns().source_defined(out, tap),
    ensures
        ({
            let cell = shape::cell_at(a.output_shape@, i);
            let window = a.window(cell);
            let zero = a.input_quant.zero_point as int;
            &&& a.window_defined(cell)
            &&& window.len() > 0 ==> quantize::rounded_quotient_defined(
                pool::centered_sum(window, zero),
                window.len() as int,
            )
            &&& window.len() > 0 ==> -255 <= quantize::rounded_quotient(
                pool::centered_sum(window, zero),
                window.len() as int,
            ) <= 255
        }),
{
    shape::lemma_cell_at_index(a.output_shape@, i);
    let cell = shape::cell_at(a.output_shape@, i);
    lemma_gather(a, cell, a.filter_h as int);
    lemma_gathered_sums(a, cell, a.window(cell));
    lemma_mul_nonnegative(a.filter_h as int, a.filter_w as int);
    lemma_count(a, cell.y, cell.x, a.filter_h * a.filter_w);
    lemma_window_sums(a.window(cell), a.input_quant.zero_point as int);
}

} // verus!
