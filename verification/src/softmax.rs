//! Softmax.
//!
//! An input lies at most 255 below the largest input of its row, so the
//! exponential function is needed at 256 points only. [`exponent_arguments`] gives
//! those points; the operator is handed the function's values there.
use crate::params::{SoftmaxArgs, SoftmaxParams};
use crate::pool;
use crate::quantize;
use crate::single;
use crate::single::{Real, Single};
use crate::types::{KernelError, QuantParam, Status};
use vstd::arithmetic::div_mod::*;
use vstd::arithmetic::mul::*;
use vstd::arithmetic::power2::*;
use vstd::prelude::*;

verus! {

/// The argument of the exponential for an input that lies `distance` below the
/// largest input of its row.
pub open spec fn exponent_argument(distance: int, scale: Real, beta: Real) -> Real {
    Real::from_int(-distance).times(scale).times(beta)
}

/// The arguments at which softmax needs the exponential function, as the bits of
/// singles, by distance from the largest input of a row.
pub fn exponent_arguments(input_quant: QuantParam, beta: u32) -> (r: Vec<u32>)
    ensures
        r@.len() == 256,
        forall|d: int|
            0 <= d < 256 ==> single::decode(#[trigger] r@[d]) == exponent_argument(
                d,
                input_quant.real_scale(),
                single::decode(beta),
            ),
{
    let mut r: Vec<u32> = Vec::new();
    let mut distance: i32 = 0;
    while distance < 256
        invariant
            0 <= distance <= 256,
            r@.len() == distance,
            forall|d: int|
                0 <= d < distance ==> single::decode(#[trigger] r@[d]) == exponent_argument(
                    d,
                    input_quant.real_scale(),
                    single::decode(beta),
                ),
        decreases 256 - distance,
    {
        let argument = Single::from_i32(-distance).times(Single::from_bits(input_quant.scale)).times(
            Single::from_bits(beta),
        );
        r.push(argument.to_bits());
        distance = distance + 1;
    }
    r
}

impl SoftmaxArgs {
    /// Number of elements that the shape states.
    pub open spec fn count(self) -> int {
        self.input_shape[0] * self.input_shape[1]
    }

    /// The buffers hold as many elements as the shape states.
    pub open spec fn valid(self) -> bool {
        self.input.len() == self.count() && self.output_len == self.count()
    }

    /// The inputs of one row.
    pub open spec fn row(self, batch: int) -> Seq<i8> {
        let offset = batch * self.input_shape[1];
        self.input.subrange(offset, offset + self.input_shape[1])
    }

    /// The exponential of one input, relative to the largest input of its row.
    pub open spec fn exponential(self, batch: int, class: int) -> Real {
        let row = self.row(batch);
        single::decode(self.exponentials[pool::largest(row) - row[class]])
    }

    /// The sum of the exponentials of the first `n` classes of a row, each partial
    /// sum rounded.
    pub open spec fn partial_sum(self, batch: int, n: int) -> Real
        decreases n,
    {
        if n <= 0 {
            Real::Finite { negative: false, units: 0 }
        } else {
            self.partial_sum(batch, n - 1).plus(self.exponential(batch, n - 1))
        }
    }

    /// The sum of the exponentials of a row.
    pub open spec fn row_sum(self, batch: int) -> Real {
        self.partial_sum(batch, self.input_shape[1] as int)
    }

    /// The exponentials of the row do not add up to zero.
    pub open spec fn row_usable(self, batch: int) -> bool {
        !(self.row_sum(batch) matches Real::Finite { units, .. } && units == 0)
    }

    /// Number of the first row, from `batch` on, that is not usable.
    pub open spec fn rows_from(self, batch: int) -> int
        decreases self.input_shape[0] - batch,
    {
        if batch >= self.input_shape[0] || !self.row_usable(batch) {
            batch
        } else {
            self.rows_from(batch + 1)
        }
    }

    /// Number of rows that are written.
    pub open spec fn rows_written(self) -> int {
        if self.valid() {
            self.rows_from(0)
        } else {
            0
        }
    }

    /// The probability of one class.
    pub open spec fn probability(self, batch: int, class: int) -> Real {
        self.exponential(batch, class).over(self.row_sum(batch))
    }

    /// The quantized probability of one class.
    pub open spec fn level(self, batch: int, class: int) -> int {
        self.probability(batch, class).over(self.output_quant.real_scale()).rounded()
            + self.output_quant.zero_point
    }

    /// One element of the output.
    pub open spec fn element(self, batch: int, class: int) -> int {
        quantize::clamped(self.level(batch, class), -128, 127)
    }

    /// No step that the operator takes overflows, and the exponential is given at
    /// every distance where there is an input to look it up for.
    pub open spec fn defined(self) -> bool {
        &&& self.count() <= usize::MAX
        &&& self.valid() && self.count() > 0 ==> self.exponentials.len() == 256
        &&& forall|batch: int, class: int|
            0 <= batch < self.rows_written() && 0 <= class < self.input_shape[1]
                ==> quantize::fits_i32(#[trigger] self.level(batch, class))
    }

    /// Success, or the error that is returned.
    pub open spec fn status(self) -> Status {
        if !self.valid() {
            Err(KernelError::InvalidShape)
        } else if self.rows_written() == self.input_shape[0] {
            Ok(())
        } else {
            Err(KernelError::InternalError)
        }
    }

    /// The output buffer after the operator, given its contents before.
    pub open spec fn output(self, before: Seq<i8>) -> Seq<i8> {
        Seq::new(
            self.output_len,
            |i: int|
                if i < self.rows_written() * self.input_shape[1] {
                    let classes = self.input_shape[1] as int;
                    self.element(i / classes, i % classes) as i8
                } else {
                    before[i]
                },
        )
    }
}

/// A row lies within the input.
proof fn lemma_row_bound(args: SoftmaxArgs, batch: int)
    requires
        args.valid(),
        0 <= batch < args.input_shape[0],
    ensures
        0 <= batch * args.input_shape[1],
        batch * args.input_shape[1] + args.input_shape[1] <= args.input.len(),
        (batch + 1) * args.input_shape[1] == batch * args.input_shape[1] + args.input_shape[1],
        args.row(batch).len() == args.input_shape[1],
{
    let classes = args.input_shape[1] as int;
    let batches = args.input_shape[0] as int;
    lemma_mul_nonnegative(batch, classes);
    assert((batch + 1) * classes == batch * classes + classes) by (nonlinear_arith);
    assert((batch + 1) * classes <= batches * classes) by (nonlinear_arith)
        requires
            batch + 1 <= batches,
            classes >= 0,
    ;
}

proof fn lemma_rows_from(args: SoftmaxArgs, batch: int)
    requires
        0 <= batch <= args.input_shape[0],
    ensures
        batch <= args.rows_from(batch) <= args.input_shape[0],
    decreases args.input_shape[0] - batch,
{
    if batch < args.input_shape[0] && args.row_usable(batch) {
        lemma_rows_from(args, batch + 1);
    }
}

fn row_max(params: &SoftmaxParams<'_>, batch: usize) -> (r: i8)
    requires
        params@.valid(),
        params@.defined(),
        batch < params@.input_shape[0],
    ensures
        r == pool::largest(params@.row(batch as int)),
{
    let ghost args = params@;
    let ghost row = args.row(batch as int);
    proof {
        lemma_row_bound(args, batch as int);
    }
    let classes: usize = params.input_shape[1];
    let offset: usize = batch * classes;
    let mut r: i8 = -128;
    let mut class: usize = 0;
    while class < classes
        invariant
            args == params@,
            class <= classes == row.len(),
            offset + classes <= args.input.len(),
            row == args.input.subrange(offset as int, offset + classes),
            r == pool::largest(row.take(class as int)),
        decreases classes - class,
    {
        proof {
            assert(params.input.len() == args.input.len());
            let next = row.take(class + 1);
            assert(next.drop_last() =~= row.take(class as int));
        }
        let input: i8 = params.input[offset + class];
        if input > r {
            r = input;
        }
        class = class + 1;
    }
    assert(row.take(classes as int) =~= row);
    r
}

/// Looks up the exponential of one input.
fn exponential(params: &SoftmaxParams<'_>, batch: usize, class: usize, max_input: i8) -> (r: Single)
    requires
        params@.valid(),
        params@.defined(),
        batch < params@.input_shape[0],
        class < params@.input_shape[1],
        max_input == pool::largest(params@.row(batch as int)),
    ensures
        r.wf(),
        r@ == params@.exponential(batch as int, class as int),
{
    proof {
        lemma_row_bound(params@, batch as int);
        pool::lemma_largest(params@.row(batch as int));
        assert(params@.row(batch as int)[class as int] == params@.input[batch
            * params@.input_shape[1] + class]);
        assert(params.input.len() == params@.input.len());
        assert(params@.count() > 0);
    }
    let input: i8 = params.input[batch * params.input_shape[1] + class];
    let distance: i32 = max_input as i32 - input as i32;
    Single::from_bits(params.exponentials[distance as usize])
}

fn row_sum(params: &SoftmaxParams<'_>, batch: usize, max_input: i8) -> (r: Single)
    requires
        params@.valid(),
        params@.defined(),
        batch < params@.input_shape[0],
        max_input == pool::largest(params@.row(batch as int)),
    ensures
        r.wf(),
        r@ == params@.row_sum(batch as int),
{
    let ghost args = params@;
    let classes: usize = params.input_shape[1];
    let mut sum = Single::from_bits(0);
    assert(sum@ == args.partial_sum(batch as int, 0));
    let mut class: usize = 0;
    while class < classes
        invariant
            args == params@,
            args.valid(),
            args.defined(),
            batch < args.input_shape[0],
            max_input == pool::largest(args.row(batch as int)),
            class <= classes == args.input_shape[1],
            sum.wf(),
            sum@ == args.partial_sum(batch as int, class as int),
        decreases classes - class,
    {
        sum = sum.plus(exponential(params, batch, class, max_input));
        class = class + 1;
    }
    sum
}

/// Computes one element of the output.
fn element(
    params: &SoftmaxParams<'_>,
    batch: usize,
    class: usize,
    max_input: i8,
    sum: Single,
) -> (r: i8)
    requires
        params@.valid(),
        params@.defined(),
        batch < params@.input_shape[0],
        class < params@.input_shape[1],
        max_input == pool::largest(params@.row(batch as int)),
        sum.wf(),
        sum@ == params@.row_sum(batch as int),
        quantize::fits_i32(params@.level(batch as int, class as int)),
    ensures
        r == params@.element(batch as int, class as int),
{
    let probability = exponential(params, batch, class, max_input).over(sum);
    let scaled = probability.over(Single::from_bits(params.output_quant.scale));
    let quantized: i32 = quantize::round_f32_to_i32(scaled) + params.output_quant.zero_point;
    quantize::clamp_i8(quantized)
}

/// Executes softmax.
pub fn softmax(params: SoftmaxParams<'_>) -> (r: Status)
    requires
        params@.defined(),
    ensures
        r == params@.status(),
        final(params.output)@ == params@.output(old(params.output)@),
        final(params.scratch)@ == old(params.scratch)@,
{
    let ghost args = params@;
    let ghost given = params;
    let batches: usize = params.input_shape[0];
    let classes: usize = params.input_shape[1];
    proof {
        lemma_mul_nonnegative(batches as int, classes as int);
    }
    let count: usize = batches * classes;
    if params.input.len() != count || params.output.len() != count {
        assert(args.output(given.output@) =~= given.output@);
        return Err(KernelError::InvalidShape);
    }
    let mut batch: usize = 0;
    #[verifier::loop_isolation(false)]
    while batch < batches
        invariant
            params@ == args,
            batch <= batches,
            args.rows_written() == args.rows_from(batch as int),
            forall|i: int|
                0 <= i < batch * classes ==> params.output@[i] == #[trigger] args.output(
                    given.output@,
                )[i],
            forall|i: int|
                batch * classes <= i < count ==> params.output@[i] == #[trigger] given.output@[i],
            final(params.output)@ == final(given.output)@,
        decreases batches - batch,
    {
        proof {
            lemma_row_bound(args, batch as int);
            lemma_rows_from(args, batch as int);
        }
        let offset: usize = batch * classes;
        let max_input: i8 = row_max(&params, batch);
        let sum = row_sum(&params, batch, max_input);
        if sum.is_zero() {
            assert(params.output@ =~= args.output(given.output@));
            return Err(KernelError::InternalError);
        }
        proof {
            lemma_rows_from(args, batch + 1);
            assert((batch + 1) * classes <= args.rows_written() * classes) by (nonlinear_arith)
                requires
                    batch + 1 <= args.rows_written(),
                    classes >= 0,
            ;
        }
        let mut class: usize = 0;
        #[verifier::loop_isolation(false)]
        while class < classes
            invariant
                params@ == args,
                class <= classes,
                forall|i: int|
                    0 <= i < offset + class ==> params.output@[i] == #[trigger] args.output(
                        given.output@,
                    )[i],
                forall|i: int|
                    offset + class <= i < count ==> params.output@[i]
                        == #[trigger] given.output@[i],
                final(params.output)@ == final(given.output)@,
            decreases classes - class,
        {
            proof {
                lemma_fundamental_div_mod_converse(
                    offset + class,
                    classes as int,
                    batch as int,
                    class as int,
                );
                assert(quantize::fits_i32(args.level(batch as int, class as int)));
            }
            let value: i8 = element(&params, batch, class, max_input, sum);
            params.output[offset + class] = value;
            class = class + 1;
        }
        batch = batch + 1;
    }
    assert(params.output@ =~= args.output(given.output@));
    Ok(())
}

/// Equal inputs of a row get equal probabilities.
pub proof fn lemma_softmax_equal_inputs(args: SoftmaxArgs, batch: int, class: int, other: int)
    requires
        args.row(batch)[class] == args.row(batch)[other],
    ensures
        args.element(batch, class) == args.element(batch, other),
{
}

/// The rows of `args`, each moved by an offset of its own.
pub open spec fn rows_moved(args: SoftmaxArgs, moved: SoftmaxArgs, offsets: Seq<int>) -> bool {
    &&& moved == (SoftmaxArgs { input: moved.input, ..args })
    &&& moved.input.len() == args.input.len()
    &&& forall|batch: int, class: int|
        0 <= batch < args.input_shape[0] && 0 <= class < args.input_shape[1]
            ==> #[trigger] moved.row(batch)[class] == args.row(batch)[class] + offsets[batch]
}

proof fn lemma_largest_moved(row: Seq<i8>, moved: Seq<i8>, offset: int)
    requires
        row.len() == moved.len() > 0,
        forall|i: int| 0 <= i < row.len() ==> #[trigger] moved[i] == row[i] + offset,
    ensures
        pool::largest(moved) == pool::largest(row) + offset,
{
    pool::lemma_largest(row);
    pool::lemma_largest(moved);
    let i = choose|i: int| 0 <= i < row.len() && #[trigger] row[i] == pool::largest(row);
    let j = choose|j: int| 0 <= j < moved.len() && #[trigger] moved[j] == pool::largest(moved);
    assert(moved[i] <= pool::largest(moved));
    assert(row[j] <= pool::largest(row));
}

proof fn lemma_exponentials_moved(
    args: SoftmaxArgs,
    moved: SoftmaxArgs,
    offsets: Seq<int>,
    batch: int,
)
    requires
        args.valid(),
        rows_moved(args, moved, offsets),
        0 <= batch < args.input_shape[0],
    ensures
        forall|class: int|
            0 <= class < args.input_shape[1] ==> #[trigger] moved.exponential(batch, class)
                == args.exponential(batch, class),
        moved.row_sum(batch) == args.row_sum(batch),
{
    lemma_row_bound(args, batch);
    lemma_row_bound(moved, batch);
    if args.input_shape[1] > 0 {
        lemma_largest_moved(args.row(batch), moved.row(batch), offsets[batch]);
    }
    assert forall|class: int| 0 <= class < args.input_shape[1] implies
        #[trigger] moved.exponential(batch, class) == args.exponential(batch, class) by {
        assert(moved.row(batch)[class] == args.row(batch)[class] + offsets[batch]);
    }
    lemma_partial_sums_agree(args, moved, batch, args.input_shape[1] as int);
}

proof fn lemma_partial_sums_agree(args: SoftmaxArgs, moved: SoftmaxArgs, batch: int, n: int)
    requires
        n <= args.input_shape[1],
        forall|class: int|
            0 <= class < args.input_shape[1] ==> #[trigger] moved.exponential(batch, class)
                == args.exponential(batch, class),
    ensures
        moved.partial_sum(batch, n) == args.partial_sum(batch, n),
    decreases n,
{
    if n > 0 {
        lemma_partial_sums_agree(args, moved, batch, n - 1);
        assert(moved.exponential(batch, n - 1) == args.exponential(batch, n - 1));
    }
}

proof fn lemma_rows_agree(args: SoftmaxArgs, moved: SoftmaxArgs, offsets: Seq<int>, batch: int)
    requires
        args.valid(),
        rows_moved(args, moved, offsets),
        0 <= batch <= args.input_shape[0],
    ensures
        moved.rows_from(batch) == args.rows_from(batch),
    decreases args.input_shape[0] - batch,
{
    if batch < args.input_shape[0] {
        lemma_exponentials_moved(args, moved, offsets, batch);
        lemma_rows_agree(args, moved, offsets, batch + 1);
    }
}

/// Softmax depends on the distances between the inputs of a row alone: moving
/// every input of a row by the same amount changes neither the status nor the
/// output.
pub proof fn lemma_softmax_moved(
    args: SoftmaxArgs,
    moved: SoftmaxArgs,
    offsets: Seq<int>,
    before: Seq<i8>,
)
    requires
        rows_moved(args, moved, offsets),
    ensures
        moved.status() == args.status(),
        moved.output(before) == args.output(before),
{
    if args.valid() {
        lemma_rows_agree(args, moved, offsets, 0);
        lemma_rows_from(args, 0);
        let classes = args.input_shape[1] as int;
        let written = args.rows_written();
        assert forall|i: int| 0 <= i < args.output_len implies args.output(before)[i]
            == #[trigger] moved.output(before)[i] by {
            if i < written * classes {
                assert(classes > 0) by (nonlinear_arith)
                    requires
                        0 <= i < written * classes,
                        classes >= 0,
                ;
                let batch = i / classes;
                lemma_fundamental_div_mod(i, classes);
                lemma_mod_bound(i, classes);
                lemma_div_pos_is_pos(i, classes);
                assert(batch < written) by (nonlinear_arith)
                    requires
                        i == classes * batch + i % classes,
                        0 <= i % classes,
                        i < written * classes,
                        classes > 0,
                ;
                lemma_exponentials_moved(args, moved, offsets, batch);
                assert(moved.exponential(batch, i % classes) == args.exponential(
                    batch,
                    i % classes,
                ));
            }
        }
    }
    assert(moved.output(before) =~= args.output(before));
}

/// The exponentials are finite and not negative.
pub open spec fn table_positive(exponentials: Seq<u32>) -> bool {
    forall|d: int|
        0 <= d < exponentials.len() ==> (#[trigger] single::decode(exponentials[d]) matches Real::Finite {
            negative,
            ..
        } && !negative)
}

/// The exponentials do not grow with the distance.
pub open spec fn table_falling(exponentials: Seq<u32>) -> bool {
    forall|d: int, e: int|
        0 <= d <= e < exponentials.len() ==> (#[trigger] single::decode(exponentials[e]))->units <= (
        #[trigger] single::decode(exponentials[d]))->units
}

/// The exponential of an input is one of the table.
proof fn lemma_exponential(args: SoftmaxArgs, batch: int, class: int)
    requires
        args.valid(),
        args.exponentials.len() == 256,
        table_positive(args.exponentials),
        0 <= batch < args.input_shape[0],
        0 <= class < args.input_shape[1],
    ensures
        0 <= pool::largest(args.row(batch)) - args.row(batch)[class] < 256,
        args.exponential(batch, class) matches Real::Finite { negative, units } && !negative
            && single::representable(units) && units < pow2(277),
{
    lemma_row_bound(args, batch);
    pool::lemma_largest(args.row(batch));
    let row = args.row(batch);
    assert(row[class] <= pool::largest(row));
    let d = pool::largest(row) - row[class];
    assert(single::decode(args.exponentials[d]) is Finite);
    single::lemma_decode_parts(args.exponentials[d]);
}

/// The exact sum of the exponentials of the first `n` classes.
pub open spec fn exact_sum(args: SoftmaxArgs, batch: int, n: int) -> int
    decreases n,
{
    if n <= 0 {
        0
    } else {
        exact_sum(args, batch, n - 1) + args.exponential(batch, n - 1)->units
    }
}

/// Partial sums do not shrink, are no smaller than any exponential in them, and
/// differ from the exact sum by at most one part in 2^23 for each class.
proof fn lemma_partial_sum(args: SoftmaxArgs, batch: int, n: int, total: nat)
    requires
        args.valid(),
        args.exponentials.len() == 256,
        table_positive(args.exponentials),
        0 <= batch < args.input_shape[0],
        0 <= n <= args.input_shape[1],
    ensures
        match args.partial_sum(batch, n) {
            Real::Finite { negative, units } => {
                &&& !negative
                &&& single::representable(units)
                &&& forall|class: int|
                    0 <= class < n ==> (#[trigger] args.exponential(batch, class))->units <= units
                &&& units <= total ==> quantize::abs(units - exact_sum(args, batch, n)) * 0x80_0000
                    <= n * total
            },
            Real::Infinite { negative } => !negative,
            Real::Nan => false,
        },
    decreases n,
{
    if n <= 0 {
        lemma2_to64();
        assert(0nat * pow2(0) == 0);
        assert(single::representable(0));
    } else {
        lemma_partial_sum(args, batch, n - 1, total);
        lemma_exponential(args, batch, n - 1);
        let e = args.exponential(batch, n - 1)->units;
        if let Real::Finite { units: before, .. } = args.partial_sum(batch, n - 1) {
            let sum = (before + e) as nat;
            let after = single::round_units(sum, 1);
            if sum == 0 {
                assert(args.partial_sum(batch, n) == (Real::Finite { negative: false, units: 0 }));
            } else {
                assert(before * 1 == before && e * 1 == e);
                single::lemma_exact(before, 1);
                single::lemma_exact(e, 1);
                single::lemma_round_monotone(before, sum, 1);
                single::lemma_round_monotone(e, sum, 1);
                single::lemma_round_representable(sum, 1);
                single::lemma_round_whole(sum);
                assert(args.partial_sum(batch, n) == single::finite_or_infinite(false, after));
            }
            if after <= total {
                let gap = quantize::abs(before - exact_sum(args, batch, n - 1));
                assert(n * total == (n - 1) * total + total) by (nonlinear_arith);
                assert(sum <= 2 * after);
                assert(quantize::abs(after - exact_sum(args, batch, n)) <= gap + quantize::abs(
                    after - sum,
                ));
            }
        }
    }
}

/// Probabilities lie between zero and one.
pub proof fn lemma_probability_bounds(args: SoftmaxArgs, batch: int, class: int)
    requires
        args.valid(),
        args.exponentials.len() == 256,
        table_positive(args.exponentials),
        0 <= batch < args.input_shape[0],
        0 <= class < args.input_shape[1],
        args.row_usable(batch),
    ensures
        args.probability(batch, class) matches Real::Finite { negative, units } && !negative
            && units <= pow2(149),
{
    let classes = args.input_shape[1] as int;
    lemma_partial_sum(args, batch, classes, 0);
    lemma_exponential(args, batch, class);
    lemma_pow2_pos(149);
    lemma_pow2_strictly_increases(149, 277);
    if let Real::Finite { units: sum, .. } = args.row_sum(batch) {
        let e = args.exponential(batch, class)->units;
        assert(e * pow2(149) <= pow2(149) * sum) by (nonlinear_arith)
            requires
                e <= sum,
        ;
        assert(1nat * pow2(149) == pow2(149));
        assert(single::representable(pow2(149)));
        single::lemma_exact(pow2(149), sum);
        single::lemma_round_monotone(e * pow2(149), pow2(149) * sum, sum);
    }
}

/// The sum of the probabilities of the first `n` classes, in units of 2^-149.
pub open spec fn probability_sum(args: SoftmaxArgs, batch: int, n: int) -> int
    decreases n,
{
    if n <= 0 {
        0
    } else {
        probability_sum(args, batch, n - 1) + args.probability(batch, n - 1)->units
    }
}

proof fn lemma_probability_partial(args: SoftmaxArgs, batch: int, n: int, sum: nat)
    requires
        args.valid(),
        args.exponentials.len() == 256,
        table_positive(args.exponentials),
        0 <= batch < args.input_shape[0],
        0 <= n <= args.input_shape[1],
        args.row_sum(batch) == (Real::Finite { negative: false, units: sum }),
        sum > 0,
    ensures
        2 * quantize::abs(
            probability_sum(args, batch, n) * sum - exact_sum(args, batch, n) * pow2(149),
        ) <= n * (sum * pow2(126)),
    decreases n,
{
    if n > 0 {
        lemma_probability_partial(args, batch, n - 1, sum);
        lemma_exponential(args, batch, n - 1);
        lemma_probability_bounds(args, batch, n - 1);
        lemma_partial_sum(args, batch, args.input_shape[1] as int, 0);
        let e = args.exponential(batch, n - 1)->units;
        let p = args.probability(batch, n - 1)->units;
        let scaled = e * pow2(149);
        assert(p == single::round_units(scaled, sum));
        single::lemma_round_error(scaled, sum);
        assert(scaled / sum <= pow2(149)) by {
            assert(scaled <= pow2(149) * sum) by (nonlinear_arith)
                requires
                    e <= sum,
                    scaled == e * pow2(149),
            ;
            lemma_div_is_ordered(scaled as int, (pow2(149) * sum) as int, sum as int);
            lemma_div_by_multiple(pow2(149) as int, sum as int);
        }
        single::lemma_quantum_monotone(scaled / sum, pow2(149));
        single::lemma_quantum_of_one();
        let unit = sum * pow2(126);
        assert(sum * single::quantum(scaled / sum) <= unit) by (nonlinear_arith)
            requires
                single::quantum(scaled / sum) <= pow2(126),
                unit == sum * pow2(126),
        ;
        let a = probability_sum(args, batch, n - 1);
        let b = exact_sum(args, batch, n - 1);
        assert((a + p) * sum == a * sum + p * sum) by (nonlinear_arith);
        assert((b + e) * pow2(149) == b * pow2(149) + scaled) by (nonlinear_arith)
            requires
                scaled == e * pow2(149),
        ;
        assert(n * unit == (n - 1) * unit + unit) by (nonlinear_arith);
    }
}

/// The probabilities of a row add up to one, within three quarters of 2^-22 for each
/// class.
proof fn lemma_probability_sum_error(args: SoftmaxArgs, batch: int)
    requires
        args.valid(),
        args.exponentials.len() == 256,
        table_positive(args.exponentials),
        0 <= batch < args.input_shape[0],
        args.row_usable(batch),
        args.row_sum(batch) is Finite,
    ensures
        2 * quantize::abs(
            probability_sum(args, batch, args.input_shape[1] as int) - pow2(149),
        ) <= 3 * (args.input_shape[1] * pow2(126)),
{
    let n = args.input_shape[1] as int;
    let sum = args.row_sum(batch)->units;
    lemma_partial_sum(args, batch, n, sum);
    assert(sum > 0);
    lemma_probability_partial(args, batch, n, sum);
    let p = probability_sum(args, batch, n);
    let exact = exact_sum(args, batch, n);
    lemma2_to64();
    lemma_pow2_adds(23, 126);
    let u = pow2(126) as int;
    let gap = quantize::abs(sum - exact);
    assert(quantize::abs(exact * (0x80_0000 * u) - sum * (0x80_0000 * u)) == gap * (0x80_0000 * u))
        by (nonlinear_arith)
        requires
            gap == quantize::abs(sum - exact),
            u >= 0,
    ;
    assert((gap * 0x80_0000) * u <= (n * sum) * u) by (nonlinear_arith)
        requires
            gap * 0x80_0000 <= n * sum,
            u >= 0,
    ;
    assert(gap * (0x80_0000 * u) == (gap * 0x80_0000) * u) by (nonlinear_arith);
    assert((n * sum) * u == n * (sum * u)) by (nonlinear_arith);
    let error = p * sum - sum * (0x80_0000 * u);
    assert(2 * quantize::abs(error) <= 3 * (n * (sum * u)));
    let d = p - pow2(149);
    assert(error == d * sum) by (nonlinear_arith)
        requires
            error == p * sum - sum * (0x80_0000 * u),
            pow2(149) == 0x80_0000 * u,
            d == p - pow2(149),
    ;
    assert(2 * quantize::abs(d) <= 3 * (n * u)) by (nonlinear_arith)
        requires
            2 * quantize::abs(error) <= 3 * (n * (sum * u)),
            error == d * sum,
            sum > 0,
            n >= 0,
            u >= 0,
    ;
}

/// The probabilities of a row add up to one, within 2^-22 for each class, wherever
/// the exponentials of the row have a finite sum.
pub proof fn lemma_probabilities_sum_to_one(args: SoftmaxArgs, batch: int)
    requires
        args.valid(),
        args.exponentials.len() == 256,
        table_positive(args.exponentials),
        0 <= batch < args.input_shape[0],
        args.row_usable(batch),
        args.row_sum(batch) is Finite,
    ensures
        quantize::abs(
            probability_sum(args, batch, args.input_shape[1] as int) - pow2(149),
        ) <= args.input_shape[1] * pow2(127),
{
    let n = args.input_shape[1] as int;
    lemma_probability_sum_error(args, batch);
    lemma_pow2_unfold(127);
    lemma_mul_nonnegative(n, pow2(126) as int);
    assert(n * (2 * pow2(126)) == 2 * (n * pow2(126))) by (nonlinear_arith);
}

/// A quantized probability, relative to the zero point, times the scale differs from
/// the probability by at most half a step and 2^-24.
proof fn lemma_level_error(args: SoftmaxArgs, batch: int, class: int, scale: nat)
    requires
        args.valid(),
        args.exponentials.len() == 256,
        table_positive(args.exponentials),
        0 <= batch < args.input_shape[0],
        0 <= class < args.input_shape[1],
        args.row_usable(batch),
        args.output_quant.real_scale() == (Real::Finite { negative: false, units: scale }),
        scale > 0,
        args.level(batch, class) - args.output_quant.zero_point < i32::MAX,
    ensures
        args.level(batch, class) >= args.output_quant.zero_point,
        2 * quantize::abs(
            (args.level(batch, class) - args.output_quant.zero_point) * scale - args.probability(
                batch,
                class,
            )->units,
        ) <= scale + pow2(126),
{
    lemma_probability_bounds(args, batch, class);
    let p = args.probability(batch, class)->units as int;
    let s = scale as int;
    let u = pow2(149) as int;
    let h = pow2(126) as int;
    let n = (p * u) as nat;
    let x = single::round_units(n, scale) as int;
    let m = (2 * x + u) / (2 * u);
    let level = args.level(batch, class) - args.output_quant.zero_point;
    lemma_pow2_pos(149);
    lemma_pow2_pos(126);
    lemma2_to64();
    lemma_pow2_adds(23, 126);
    lemma_mul_nonnegative(p, u);
    assert(args.probability(batch, class).over(args.output_quant.real_scale())
        == single::finite_or_infinite(false, x as nat));
    lemma_fundamental_div_mod(2 * x + u, 2 * u);
    lemma_mod_bound(2 * x + u, 2 * u);
    lemma_div_pos_is_pos(2 * x + u, 2 * u);
    assert(level == m);
    assert((2 * u) * m == 2 * (u * m)) by (nonlinear_arith);
    assert(-u <= 2 * (u * m - x) <= u);
    single::lemma_round_error(n, scale);
    let t = n / scale;
    let g = single::quantum(t) as int;
    lemma_fundamental_div_mod(n as int, s);
    lemma_mod_bound(n as int, s);
    if t < 0x100_0000 {
        assert(g == 1);
        assert(x <= 0x100_0000) by (nonlinear_arith)
            requires
                2 * (x * s - n) <= s * 1,
                n == s * t + n as int % s,
                n as int % s < s,
                t < 0x100_0000,
                s > 0,
        ;
        lemma_pow2_strictly_increases(32, 149);
        assert(m == 0) by {
            lemma_fundamental_div_mod_converse(2 * x + u, 2 * u, 0, 2 * x + u);
        }
        assert(2 * p <= s) by (nonlinear_arith)
            requires
                n == p * u,
                n == s * t + n as int % s,
                n as int % s < s,
                t < 0x100_0000,
                u == 0x80_0000 * h,
                h >= 4,
                s > 0,
                p >= 0,
        ;
        lemma_mul_basics(s);
    } else {
        single::lemma_quantum_bound(t);
        assert(s * g <= u * h) by (nonlinear_arith)
            requires
                0x80_0000 * g <= t,
                n == s * t + n as int % s,
                n as int % s >= 0,
                n == p * u,
                p <= u,
                u == 0x80_0000 * h,
                s > 0,
                u > 0,
        ;
        assert(-(u * h) <= 2 * (x * s - p * u) <= u * h);
        let e = m * s - p;
        assert((u * m) * s == (m * s) * u) by (nonlinear_arith);
        assert(-(u * s) <= 2 * ((u * m) * s - x * s) <= u * s) by (nonlinear_arith)
            requires
                -u <= 2 * (u * m - x) <= u,
                s > 0,
        ;
        assert(e * u == (m * s) * u - p * u) by (nonlinear_arith)
            requires
                e == m * s - p,
        ;
        assert(-(s + h) <= 2 * e <= s + h) by (nonlinear_arith)
            requires
                -(u * s + u * h) <= 2 * (e * u) <= u * s + u * h,
                u > 0,
        ;
    }
}

/// The sum of the quantized probabilities of the first `n` classes, each relative to
/// the zero point.
pub open spec fn level_sum(args: SoftmaxArgs, batch: int, n: int) -> int
    decreases n,
{
    if n <= 0 {
        0
    } else {
        level_sum(args, batch, n - 1) + (args.level(batch, n - 1) - args.output_quant.zero_point)
    }
}

/// The quantized probabilities of a row stay clear of the limits of 32 bits.
pub open spec fn levels_unsaturated(args: SoftmaxArgs, batch: int) -> bool {
    forall|class: int|
        0 <= class < args.input_shape[1] ==> #[trigger] args.level(batch, class)
            - args.output_quant.zero_point < i32::MAX
}

proof fn lemma_level_partial(args: SoftmaxArgs, batch: int, n: int, scale: nat)
    requires
        args.valid(),
        args.exponentials.len() == 256,
        table_positive(args.exponentials),
        0 <= batch < args.input_shape[0],
        0 <= n <= args.input_shape[1],
        args.row_usable(batch),
        args.output_quant.real_scale() == (Real::Finite { negative: false, units: scale }),
        scale > 0,
        levels_unsaturated(args, batch),
    ensures
        2 * quantize::abs(level_sum(args, batch, n) * scale - probability_sum(args, batch, n)) <= n
            * (scale + pow2(126)),
    decreases n,
{
    if n > 0 {
        lemma_level_partial(args, batch, n - 1, scale);
        lemma_level_error(args, batch, n - 1, scale);
        let a = level_sum(args, batch, n - 1);
        let l = args.level(batch, n - 1) - args.output_quant.zero_point;
        let bound = scale + pow2(126);
        assert((a + l) * scale == a * scale + l * scale) by (nonlinear_arith);
        assert(n * bound == (n - 1) * bound + bound) by (nonlinear_arith);
    }
}

/// The quantized probabilities of a row are none below the zero point, and,
/// dequantized, add up to one: within half a step and 2^-22 for each class.
pub proof fn lemma_levels_sum_to_one(args: SoftmaxArgs, batch: int)
    requires
        args.valid(),
        args.exponentials.len() == 256,
        table_positive(args.exponentials),
        0 <= batch < args.input_shape[0],
        args.row_usable(batch),
        args.row_sum(batch) is Finite,
        args.output_quant.real_scale() matches Real::Finite { negative, units } && !negative
            && units > 0,
        levels_unsaturated(args, batch),
    ensures
        forall|class: int|
            0 <= class < args.input_shape[1] ==> #[trigger] args.level(batch, class)
                >= args.output_quant.zero_point,
        2 * quantize::abs(
            level_sum(args, batch, args.input_shape[1] as int)
                * args.output_quant.real_scale()->units - pow2(149),
        ) <= args.input_shape[1] * (args.output_quant.real_scale()->units + pow2(128)),
{
    let n = args.input_shape[1] as int;
    let scale = args.output_quant.real_scale()->units;
    assert forall|class: int| 0 <= class < n implies #[trigger] args.level(batch, class)
        >= args.output_quant.zero_point by {
        lemma_level_error(args, batch, class, scale);
    }
    lemma_level_partial(args, batch, n, scale);
    lemma_probability_sum_error(args, batch);
    lemma_error_budget(n, scale as int);
}

/// The errors of a class add up.
proof fn lemma_error_budget(n: int, step: int)
    ensures
        n * (step + pow2(126)) + 3 * (n * pow2(126)) == n * (step + pow2(128)),
{
    lemma_pow2_unfold(127);
    lemma_pow2_unfold(128);
    let h = pow2(126) as int;
    assert(n * (step + h) + 3 * (n * h) == n * (step + 4 * h)) by (nonlinear_arith);
}

/// The dequantized output of one class, in units of 2^-149.
pub open spec fn output_value(args: SoftmaxArgs, batch: int, class: int) -> int {
    (args.element(batch, class) - args.output_quant.zero_point)
        * args.output_quant.real_scale()->units
}

/// The sum of the dequantized outputs of the first `n` classes.
pub open spec fn output_sum(args: SoftmaxArgs, batch: int, n: int) -> int
    decreases n,
{
    if n <= 0 {
        0
    } else {
        output_sum(args, batch, n - 1) + output_value(args, batch, n - 1)
    }
}

/// The zero point lies within `i8`, the scale is positive, and the largest output
/// stands for one, or for at most a step less.
pub open spec fn output_spans_one(output_quant: QuantParam) -> bool {
    &&& -128 <= output_quant.zero_point <= 127
    &&& output_quant.real_scale() matches Real::Finite { negative, units } && !negative && units > 0
        && pow2(149) <= (127 - output_quant.zero_point) * units + units
}

proof fn lemma_output_error(args: SoftmaxArgs, batch: int, class: int)
    requires
        args.valid(),
        args.exponentials.len() == 256,
        table_positive(args.exponentials),
        0 <= batch < args.input_shape[0],
        0 <= class < args.input_shape[1],
        args.row_usable(batch),
        output_spans_one(args.output_quant),
    ensures
        output_value(args, batch, class) >= 0,
        args.element(batch, class) >= args.output_quant.zero_point,
        2 * quantize::abs(output_value(args, batch, class) - args.probability(batch, class)->units)
            <= 2 * args.output_quant.real_scale()->units + pow2(126),
{
    let scale = args.output_quant.real_scale()->units;
    let s = scale as int;
    let z = args.output_quant.zero_point as int;
    let u = pow2(149);
    lemma_probability_bounds(args, batch, class);
    let p = args.probability(batch, class)->units;
    lemma_pow2_pos(149);
    assert(u <= 256 * s) by (nonlinear_arith)
        requires
            u <= (127 - z) * s + s,
            z >= -128,
            s > 0,
    ;
    // The quotient is at most 256, far from the limits of 32 bits.
    let limit = 256 * u;
    assert(p * u <= limit * scale) by (nonlinear_arith)
        requires
            p <= u,
            u <= 256 * scale,
            limit == 256 * u,
            u > 0,
    ;
    assert(256nat * pow2(149) == limit);
    assert(single::representable(limit));
    single::lemma_exact(limit, scale);
    single::lemma_round_monotone(p * u, limit * scale, scale);
    lemma_rounded_monotone(single::round_units(p * u, scale), limit);
    assert(single::finite_or_infinite(false, limit).rounded() == 256) by {
        lemma2_to64();
        lemma_pow2_adds(8, 149);
        lemma_pow2_strictly_increases(157, 277);
        lemma_fundamental_div_mod_converse(
            (2 * limit + u) as int,
            (2 * u) as int,
            256,
            u as int,
        );
    }
    lemma_level_error(args, batch, class, scale);
    let l = args.level(batch, class) - z;
    let e = args.element(batch, class) - z;
    lemma_mul_nonnegative(e, s);
    if args.level(batch, class) > 127 {
        assert(e * s + s <= l * s) by (nonlinear_arith)
            requires
                e + 1 <= l,
                s > 0,
        ;
    }
}

proof fn lemma_output_partial(args: SoftmaxArgs, batch: int, n: int)
    requires
        args.valid(),
        args.exponentials.len() == 256,
        table_positive(args.exponentials),
        0 <= batch < args.input_shape[0],
        0 <= n <= args.input_shape[1],
        args.row_usable(batch),
        output_spans_one(args.output_quant),
    ensures
        2 * quantize::abs(output_sum(args, batch, n) - probability_sum(args, batch, n)) <= n * (2
            * args.output_quant.real_scale()->units + pow2(126)),
    decreases n,
{
    if n > 0 {
        lemma_output_partial(args, batch, n - 1);
        lemma_output_error(args, batch, n - 1);
        let bound = 2 * args.output_quant.real_scale()->units + pow2(126);
        assert(n * bound == (n - 1) * bound + bound) by (nonlinear_arith);
    }
}

/// The outputs of a row are a probability distribution, wherever they can stand for
/// the numbers from zero to one: dequantized, none is negative, none exceeds what the
/// largest output stands for, and they add up to one, within a step and 2^-22 for
/// each class.
pub proof fn lemma_outputs_are_a_distribution(args: SoftmaxArgs, batch: int)
    requires
        args.valid(),
        args.exponentials.len() == 256,
        table_positive(args.exponentials),
        0 <= batch < args.input_shape[0],
        args.row_usable(batch),
        args.row_sum(batch) is Finite,
        output_spans_one(args.output_quant),
    ensures
        forall|class: int|
            0 <= class < args.input_shape[1] ==> 0 <= #[trigger] output_value(args, batch, class)
                <= (127 - args.output_quant.zero_point) * args.output_quant.real_scale()->units,
        quantize::abs(output_sum(args, batch, args.input_shape[1] as int) - pow2(149))
            <= args.input_shape[1] * (args.output_quant.real_scale()->units + pow2(127)),
{
    let n = args.input_shape[1] as int;
    let s = args.output_quant.real_scale()->units as int;
    let z = args.output_quant.zero_point as int;
    assert forall|class: int| 0 <= class < n implies 0 <= #[trigger] output_value(
        args,
        batch,
        class,
    ) <= (127 - z) * s by {
        lemma_output_error(args, batch, class);
        let e = args.element(batch, class) - z;
        assert(e * s <= (127 - z) * s) by (nonlinear_arith)
            requires
                e <= 127 - z,
                s > 0,
        ;
    }
    lemma_output_partial(args, batch, n);
    lemma_probability_sum_error(args, batch);
    lemma_error_budget(n, 2 * s);
    lemma_pow2_unfold(128);
    let q = pow2(127) as int;
    assert(n * (2 * s + 2 * q) == 2 * (n * (s + q))) by (nonlinear_arith);
}

/// No exponential is a negative number.
pub open spec fn table_nonnegative(exponentials: Seq<u32>) -> bool {
    forall|d: int|
        0 <= d < exponentials.len() ==> match #[trigger] single::decode(exponentials[d]) {
            Real::Finite { negative, .. } => !negative,
            Real::Infinite { negative } => !negative,
            Real::Nan => true,
        }
}

/// A partial sum is not negative and, where it is finite, no smaller than any
/// exponential in it.
proof fn lemma_partial_sum_grows(args: SoftmaxArgs, batch: int, n: int)
    requires
        args.valid(),
        args.exponentials.len() == 256,
        table_nonnegative(args.exponentials),
        0 <= batch < args.input_shape[0],
        0 <= n <= args.input_shape[1],
    ensures
        match args.partial_sum(batch, n) {
            Real::Finite { negative, units } => {
                &&& !negative
                &&& single::representable(units)
                &&& forall|class: int|
                    0 <= class < n ==> (#[trigger] args.exponential(batch, class)) is Finite
                        && args.exponential(batch, class)->units <= units
            },
            Real::Infinite { negative } => !negative,
            Real::Nan => true,
        },
    decreases n,
{
    if n <= 0 {
        lemma2_to64();
        assert(0nat * pow2(0) == 0);
        assert(single::representable(0));
    } else {
        lemma_partial_sum_grows(args, batch, n - 1);
        lemma_row_bound(args, batch);
        let row = args.row(batch);
        pool::lemma_largest(row);
        assert(row[n - 1] <= pool::largest(row));
        let bits = args.exponentials[pool::largest(row) - row[n - 1]];
        assert(args.exponential(batch, n - 1) == single::decode(bits));
        if args.partial_sum(batch, n - 1) is Finite && single::decode(bits) is Finite {
            single::lemma_decode_parts(bits);
            let e = single::decode(bits)->units;
            let before = args.partial_sum(batch, n - 1)->units;
            let sum = (before + e) as nat;
            if sum > 0 {
                assert(before * 1 == before && e * 1 == e);
                single::lemma_exact(before, 1);
                single::lemma_exact(e, 1);
                single::lemma_round_monotone(before, sum, 1);
                single::lemma_round_monotone(e, sum, 1);
                single::lemma_round_representable(sum, 1);
            }
        }
    }
}

proof fn lemma_row_usable(args: SoftmaxArgs, batch: int)
    requires
        args.valid(),
        args.exponentials.len() == 256,
        table_nonnegative(args.exponentials),
        !(single::decode(args.exponentials[0]) matches Real::Finite { units, .. } && units == 0),
        0 <= batch < args.input_shape[0],
        args.input_shape[1] > 0,
    ensures
        args.row_usable(batch),
{
    lemma_row_bound(args, batch);
    let row = args.row(batch);
    pool::lemma_largest(row);
    let top = choose|i: int| 0 <= i < row.len() && #[trigger] row[i] == pool::largest(row);
    lemma_partial_sum_grows(args, batch, args.input_shape[1] as int);
    assert(args.exponential(batch, top) == single::decode(args.exponentials[0]));
}

proof fn lemma_all_rows_usable(args: SoftmaxArgs, batch: int)
    requires
        args.valid(),
        args.exponentials.len() == 256,
        table_nonnegative(args.exponentials),
        !(single::decode(args.exponentials[0]) matches Real::Finite { units, .. } && units == 0),
        0 <= batch <= args.input_shape[0],
        args.input_shape[1] > 0,
    ensures
        args.rows_from(batch) == args.input_shape[0],
    decreases args.input_shape[0] - batch,
{
    if batch < args.input_shape[0] {
        lemma_row_usable(args, batch);
        lemma_all_rows_usable(args, batch + 1);
    }
}

/// Rows with at least one class never end in an internal error, wherever no
/// exponential is negative and that of distance zero is not zero: the largest input
/// of a row has that exponential.
pub proof fn lemma_softmax_succeeds(args: SoftmaxArgs)
    requires
        args.valid(),
        args.exponentials.len() == 256,
        table_nonnegative(args.exponentials),
        !(single::decode(args.exponentials[0]) matches Real::Finite { units, .. } && units == 0),
        args.input_shape[1] > 0,
    ensures
        args.status() == Ok::<(), KernelError>(()),
        forall|batch: int| 0 <= batch < args.input_shape[0] ==> #[trigger] args.row_usable(batch),
{
    lemma_all_rows_usable(args, 0);
    assert forall|batch: int| 0 <= batch < args.input_shape[0] implies #[trigger] args.row_usable(
        batch,
    ) by {
        lemma_row_usable(args, batch);
    }
}

/// Rounding to an integer keeps the order of numbers that are not negative.
proof fn lemma_rounded_monotone(low: nat, high: nat)
    requires
        low <= high,
    ensures
        single::finite_or_infinite(false, low).rounded() <= single::finite_or_infinite(
            false,
            high,
        ).rounded(),
{
    lemma_pow2_pos(149);
    lemma_div_is_ordered(
        (2 * low + pow2(149)) as int,
        (2 * high + pow2(149)) as int,
        (2 * pow2(149)) as int,
    );
}

/// Softmax keeps the order of the inputs of a row: a larger input never gets a
/// smaller output, wherever the exponentials do not grow with the distance and the
/// scale of the output is positive.
pub proof fn lemma_softmax_keeps_order(args: SoftmaxArgs, batch: int, low: int, high: int)
    requires
        args.valid(),
        args.exponentials.len() == 256,
        table_positive(args.exponentials),
        table_falling(args.exponentials),
        args.output_quant.real_scale() matches Real::Finite { negative, units } && !negative
            && units > 0,
        0 <= batch < args.input_shape[0],
        0 <= low < args.input_shape[1],
        0 <= high < args.input_shape[1],
        args.row(batch)[low] <= args.row(batch)[high],
        args.row_usable(batch),
    ensures
        args.element(batch, low) <= args.element(batch, high),
{
    lemma_exponential(args, batch, low);
    lemma_exponential(args, batch, high);
    lemma_probability_bounds(args, batch, low);
    lemma_probability_bounds(args, batch, high);
    lemma_partial_sum(args, batch, args.input_shape[1] as int, 0);
    let row = args.row(batch);
    let a = args.exponential(batch, low)->units;
    let b = args.exponential(batch, high)->units;
    assert(a <= b) by {
        let d = pool::largest(row) - row[high];
        let e = pool::largest(row) - row[low];
        assert(single::decode(args.exponentials[e])->units <= single::decode(
            args.exponentials[d],
        )->units);
    }
    let p = args.probability(batch, low)->units;
    let q = args.probability(batch, high)->units;
    assert(p <= q) by {
        if let Real::Finite { units: sum, .. } = args.row_sum(batch) {
            assert(a * pow2(149) <= b * pow2(149)) by (nonlinear_arith)
                requires
                    a <= b,
            ;
            single::lemma_round_monotone(a * pow2(149), b * pow2(149), sum);
        }
    }
    let scale = args.output_quant.real_scale()->units;
    assert(p * pow2(149) <= q * pow2(149)) by (nonlinear_arith)
        requires
            p <= q,
    ;
    single::lemma_round_monotone(p * pow2(149), q * pow2(149), scale);
    lemma_rounded_monotone(
        single::round_units(p * pow2(149), scale),
        single::round_units(q * pow2(149), scale),
    );
}

} // verus!
