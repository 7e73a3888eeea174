//! Softmax on raw buffers.
use crate::backend::{Buffers, KernelBackend, Operation};
use crate::params::SoftmaxArgs;
use crate::pool;
use crate::quantize;
use crate::reference::RefBackend;
use crate::single;
use crate::single::Real;
use crate::types::{KernelError, Status};
use vstd::arithmetic::div_mod::*;
use vstd::arithmetic::mul::*;
use vstd::prelude::*;

verus! {

/// The input of class `c` in row `b`.
pub open spec fn input(a: SoftmaxArgs, b: int, c: int) -> int {
    a.input[b * a.input_shape[1] + c] as int
}

/// `m` is the largest input of row `b`.
pub open spec fn is_largest(a: SoftmaxArgs, b: int, m: int) -> bool {
    &&& exists|c: int| 0 <= c < a.input_shape[1] && #[trigger] input(a, b, c) == m
    &&& forall|c: int| 0 <= c < a.input_shape[1] ==> #[trigger] input(a, b, c) <= m
}

/// The exponential of class `c`, where the largest input of its row is `m`.
pub open spec fn exponential(a: SoftmaxArgs, b: int, c: int, m: int) -> Real {
    single::decode(a.exponentials[m - input(a, b, c)])
}

/// The exponentials of the first `n` classes, added one after the other.
pub open spec fn sum(a: SoftmaxArgs, b: int, n: int, m: int) -> Real
    decreases n,
{
    if n <= 0 {
        Real::from_int(0)
    } else {
        sum(a, b, n - 1, m).plus(exponential(a, b, n - 1, m))
    }
}

proof fn lemma_zero()
    ensures
        Real::from_int(0) == (Real::Finite { negative: false, units: 0 }),
{
    vstd::arithmetic::power2::lemma_pow2_pos(277);
    vstd::arithmetic::power2::lemma2_to64();
    lemma_mul_basics(vstd::arithmetic::power2::pow2(149) as int);
    assert(0nat * vstd::arithmetic::power2::pow2(0) == 0);
    assert(single::representable(0));
    single::lemma_exact(0, 1);
    assert(0nat * 1 == 0);
}

proof fn lemma_row(a: SoftmaxArgs, b: int)
    requires
        a.valid(),
        0 <= b < a.input_shape[0],
    ensures
        a.row(b).len() == a.input_shape[1],
        0 <= b * a.input_shape[1],
        b * a.input_shape[1] + a.input_shape[1] <= a.input.len(),
        forall|c: int| 0 <= c < a.input_shape[1] ==> #[trigger] input(a, b, c) == a.row(b)[c],
{
    let classes = a.input_shape[1] as int;
    let batches = a.input_shape[0] as int;
    lemma_mul_nonnegative(b, classes);
    assert(b * classes + classes <= batches * classes) by (nonlinear_arith)
        requires
            b + 1 <= batches,
            classes >= 0,
    ;
}

proof fn lemma_largest(a: SoftmaxArgs, b: int, m: int)
    requires
        a.valid(),
        0 <= b < a.input_shape[0],
        is_largest(a, b, m),
    ensures
        pool::largest(a.row(b)) == m,
{
    lemma_row(a, b);
    let row = a.row(b);
    pool::lemma_largest(row);
    let c = choose|c: int| 0 <= c < a.input_shape[1] && #[trigger] input(a, b, c) == m;
    assert(row[c] == input(a, b, c));
    let top = choose|i: int| 0 <= i < row.len() && #[trigger] row[i] == pool::largest(row);
    assert(input(a, b, top) == row[top]);
}

proof fn lemma_sum(a: SoftmaxArgs, b: int, n: int, m: int)
    requires
        a.valid(),
        0 <= b < a.input_shape[0],
        is_largest(a, b, m),
        0 <= n <= a.input_shape[1],
    ensures
        a.partial_sum(b, n) == sum(a, b, n, m),
    decreases n,
{
    lemma_row(a, b);
    lemma_largest(a, b, m);
    lemma_zero();
    if n > 0 {
        lemma_sum(a, b, n - 1, m);
        assert(input(a, b, n - 1) == a.row(b)[n - 1]);
    }
}

proof fn lemma_rows_from(a: SoftmaxArgs, b: int)
    requires
        0 <= b <= a.input_shape[0],
    ensures
        b <= a.rows_from(b) <= a.input_shape[0],
        forall|k: int| b <= k < a.rows_from(b) ==> #[trigger] a.row_usable(k),
        a.rows_from(b) < a.input_shape[0] ==> !a.row_usable(a.rows_from(b)),
    decreases a.input_shape[0] - b,
{
    if b < a.input_shape[0] && a.row_usable(b) {
        lemma_rows_from(a, b + 1);
    }
}

/// Softmax writes, for every class of every row, its exponential over the sum of the
/// exponentials of the row, quantized and limited to `i8`. The exponential of a class is
/// that of its distance from the largest input of the row.
pub proof fn law_softmax(
    before: RefBackend,
    a: SoftmaxArgs,
    buffers: Buffers,
    after: RefBackend,
    written: Buffers,
    b: int,
    c: int,
    m: int,
)
    requires
        before.accepts(Operation::Softmax(a), buffers),
        RefBackend::performs(before, Operation::Softmax(a), buffers, after, written, Ok(())),
        0 <= b < a.input_shape[0],
        0 <= c < a.input_shape[1],
        is_largest(a, b, m),
    ensures
        0 <= b * a.input_shape[1] + c < written.output.len(),
        written.output[b * a.input_shape[1] + c] == quantize::clamped(
            exponential(a, b, c, m).over(sum(a, b, a.input_shape[1] as int, m)).over(
                single::decode(a.output_quant.scale),
            ).rounded() + a.output_quant.zero_point,
            -128,
            127,
        ),
        written.scratch == buffers.scratch,
{
    let classes = a.input_shape[1] as int;
    lemma_row(a, b);
    lemma_largest(a, b, m);
    lemma_sum(a, b, classes, m);
    lemma_rows_from(a, 0);
    assert(input(a, b, c) == a.row(b)[c]);
    let i = b * classes + c;
    lemma_fundamental_div_mod_converse(i, classes, b, c);
    assert(i < a.rows_written() * classes) by (nonlinear_arith)
        requires
            i == b * classes + c,
            c < classes,
            b + 1 <= a.rows_written(),
            classes > 0,
    ;
}

/// The exponentials of row `b` add up to zero, where its largest input is `m`.
pub open spec fn vanishes(a: SoftmaxArgs, b: int, m: int) -> bool {
    &&& 0 <= b < a.input_shape[0]
    &&& is_largest(a, b, m)
    &&& sum(a, b, a.input_shape[1] as int, m) matches Real::Finite { units, .. } && units == 0
}

/// A row of classes that is not usable vanishes.
proof fn lemma_unusable(a: SoftmaxArgs, b: int)
    requires
        a.valid(),
        0 <= b < a.input_shape[0],
        a.input_shape[1] > 0,
        !a.row_usable(b),
    ensures
        vanishes(a, b, pool::largest(a.row(b)) as int),
{
    let row = a.row(b);
    let m = pool::largest(row) as int;
    lemma_row(a, b);
    pool::lemma_largest(row);
    let c = choose|i: int| 0 <= i < row.len() && #[trigger] row[i] == pool::largest(row);
    assert(input(a, b, c) == m);
    assert(is_largest(a, b, m));
    lemma_sum(a, b, a.input_shape[1] as int, m);
}

/// Whatever softmax returns, it has written the rows before the first one whose
/// exponentials add up to zero.
pub proof fn law_softmax_rows(
    before: RefBackend,
    a: SoftmaxArgs,
    buffers: Buffers,
    after: RefBackend,
    written: Buffers,
    status: Status,
    b: int,
    c: int,
    m: int,
)
    requires
        before.accepts(Operation::Softmax(a), buffers),
        RefBackend::performs(before, Operation::Softmax(a), buffers, after, written, status),
        a.input.len() == a.input_shape[0] * a.input_shape[1],
        a.output_len == a.input_shape[0] * a.input_shape[1],
        0 <= b < a.input_shape[0],
        0 <= c < a.input_shape[1],
        is_largest(a, b, m),
        forall|q: int, n: int| q <= b ==> !#[trigger] vanishes(a, q, n),
    ensures
        0 <= b * a.input_shape[1] + c < written.output.len(),
        written.output[b * a.input_shape[1] + c] == quantize::clamped(
            exponential(a, b, c, m).over(sum(a, b, a.input_shape[1] as int, m)).over(
                single::decode(a.output_quant.scale),
            ).rounded() + a.output_quant.zero_point,
            -128,
            127,
        ),
{
    let classes = a.input_shape[1] as int;
    lemma_row(a, b);
    lemma_largest(a, b, m);
    lemma_sum(a, b, classes, m);
    lemma_rows_from(a, 0);
    if a.rows_from(0) <= b {
        lemma_unusable(a, a.rows_from(0));
    }
    assert(input(a, b, c) == a.row(b)[c]);
    let i = b * classes + c;
    lemma_fundamental_div_mod_converse(i, classes, b, c);
    assert(i < a.rows_written() * classes) by (nonlinear_arith)
        requires
            i == b * classes + c,
            c < classes,
            b + 1 <= a.rows_written(),
            classes > 0,
    ;
}

/// Softmax refuses buffers of other lengths than the shape states, and writes nothing
/// then. It ends with an internal error at the first row whose exponentials add up to
/// zero, as those of a row without classes do, and leaves the output from there on as it
/// was.
pub proof fn law_softmax_status(
    before: RefBackend,
    a: SoftmaxArgs,
    buffers: Buffers,
    after: RefBackend,
    written: Buffers,
    status: Status,
)
    requires
        RefBackend::performs(before, Operation::Softmax(a), buffers, after, written, status),
        buffers.output.len() == a.output_len,
    ensures
        ({
            let n = a.input_shape[0] * a.input_shape[1];
            let lengths_fit = a.input.len() == n && a.output_len == n;
            &&& !lengths_fit ==> status == Err::<(), KernelError>(KernelError::InvalidShape)
                && written.output == buffers.output
            &&& lengths_fit && a.input_shape[1] == 0 ==> status == (if a.input_shape[0] == 0 {
                Ok::<(), KernelError>(())
            } else {
                Err(KernelError::InternalError)
            })
            &&& lengths_fit ==> status == Ok::<(), KernelError>(()) || status == Err::<
                (),
                KernelError,
            >(KernelError::InternalError)
            &&& lengths_fit ==> forall|b: int, m: int| #[trigger]
                vanishes(a, b, m) ==> status is Err
            &&& lengths_fit && a.input_shape[1] > 0 && status is Err ==> exists|b: int, m: int|
                #[trigger] vanishes(a, b, m)
            &&& lengths_fit ==> forall|b: int, m: int, i: int|
                #![trigger vanishes(a, b, m), written.output[i]]
                vanishes(a, b, m) && b * a.input_shape[1] <= i < a.output_len ==> written.output[i]
                    == buffers.output[i]
        }),
        written.scratch == buffers.scratch,
{
    let classes = a.input_shape[1] as int;
    if !a.valid() {
        assert(written.output =~= buffers.output);
    } else {
        lemma_rows_from(a, 0);
        if classes == 0 && a.input_shape[0] > 0 {
            assert(!a.row_usable(0));
            if a.rows_from(0) > 0 {
                assert(a.row_usable(0));
            }
        }
        if classes > 0 && a.rows_from(0) < a.input_shape[0] {
            lemma_unusable(a, a.rows_from(0));
        }
        assert forall|b: int, m: int| #[trigger] vanishes(a, b, m) implies a.rows_from(0) <= b by {
            lemma_sum(a, b, classes, m);
            assert(!a.row_usable(b));
        }
        assert forall|b: int, m: int, i: int|
            #![trigger vanishes(a, b, m), written.output[i]]
            vanishes(a, b, m) && b * a.input_shape[1] <= i < a.output_len implies written.output[i]
            == buffers.output[i] by {
            assert(a.rows_written() * classes <= b * classes) by (nonlinear_arith)
                requires
                    a.rows_written() <= b,
                    classes >= 0,
            ;
        }
    }
}

/// Class `c` of row `b`, where the largest input of the row is `m`.
pub open spec fn is_class(a: SoftmaxArgs, b: int, c: int, m: int) -> bool {
    0 <= b < a.input_shape[0] && 0 <= c < a.input_shape[1] && is_largest(a, b, m)
}

/// The reference backend accepts every softmax with a table of 256 exponentials, a zero
/// point of `i8` in the output, and probabilities whose levels in the output are far from
/// the ends of 32 bits.
pub proof fn law_softmax_accepted(backend: RefBackend, a: SoftmaxArgs, buffers: Buffers)
    requires
        a.input_shape[0] * a.input_shape[1] <= 0xffff_ffff,
        a.exponentials.len() == 256,
        -128 <= a.output_quant.zero_point <= 127,
        forall|b: int, c: int, m: int| #[trigger]
            is_class(a, b, c, m) ==> -0x7fff_0000 <= exponential(a, b, c, m).over(
                sum(a, b, a.input_shape[1] as int, m),
            ).over(single::decode(a.output_quant.scale)).rounded() <= 0x7fff_0000,
    ensures
        backend.accepts(Operation::Softmax(a), buffers),
{
    assert forall|b: int, c: int|
        0 <= b < a.rows_written() && 0 <= c < a.input_shape[1] implies quantize::fits_i32(
        #[trigger] a.level(b, c),
    ) by {
        lemma_rows_from(a, 0);
        lemma_row(a, b);
        let row = a.row(b);
        let m = pool::largest(row) as int;
        pool::lemma_largest(row);
        let top = choose|i: int| 0 <= i < row.len() && #[trigger] row[i] == pool::largest(row);
        assert(input(a, b, top) == m);
        assert(is_largest(a, b, m));
        lemma_sum(a, b, a.input_shape[1] as int, m);
        assert(input(a, b, c) == row[c]);
        assert(is_class(a, b, c, m));
    }
}

} // verus!
