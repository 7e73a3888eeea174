//! Element-wise operators on raw buffers.
use crate::backend::{Buffers, KernelBackend, Operation};
use crate::elementwise;
use crate::laws::domain;
use crate::laws::results;
use crate::params::{ElementwiseAddArgs, MulArgs};
use crate::quantize;
use crate::reference::RefBackend;
use crate::single;
use crate::single::{Real, ONE_BITS};
use crate::types::{FusedActivation, KernelError, QuantParam, Status};
use vstd::arithmetic::div_mod::*;
use vstd::arithmetic::mul::*;
use vstd::arithmetic::power2::*;
use vstd::prelude::*;

verus! {

/// A quantized value as a real number: its distance from the zero point times the scale.
pub open spec fn value(element: i8, quant: QuantParam) -> Real {
    Real::from_int(element - quant.zero_point).times(single::decode(quant.scale))
}

/// A real number over the scale, rounded, moved by the zero point and limited to the
/// range of the activation.
pub open spec fn level(number: Real, activation: FusedActivation, quant: QuantParam) -> int {
    quantize::activated(
        number.over(single::decode(quant.scale)).rounded() + quant.zero_point,
        activation,
        quant,
    )
}

/// The whole number `n`, as a real number of limited precision.
spec fn whole(n: int) -> Real {
    Real::Finite { negative: n < 0, units: (quantize::abs(n) * pow2(149)) as nat }
}

proof fn lemma_whole_units(n: int)
    requires
        -0x100_0000 < n < 0x100_0000,
    ensures
        ({
            let units = (quantize::abs(n) * pow2(149)) as nat;
            &&& units == quantize::abs(n) * pow2(149)
            &&& single::representable(units)
            &&& units < pow2(277)
            &&& single::round_units(units, 1) == units
        }),
{
    let m = quantize::abs(n) as nat;
    let units = m * pow2(149);
    lemma2_to64();
    lemma_pow2_pos(149);
    assert(single::representable(units));
    lemma_pow2_adds(24, 149);
    lemma_pow2_strictly_increases(173, 277);
    assert(m * pow2(149) < 0x100_0000 * pow2(149)) by (nonlinear_arith)
        requires
            m < 0x100_0000,
            pow2(149) > 0,
    ;
    single::lemma_exact(units, 1);
    assert(units * 1 == units);
    lemma_mul_nonnegative(m as int, pow2(149) as int);
}

proof fn lemma_from_int(n: int)
    requires
        -0x100_0000 < n < 0x100_0000,
    ensures
        Real::from_int(n) == whole(n),
{
    lemma_whole_units(n);
}

/// Multiplying or dividing a whole number by one changes nothing, and rounding gives it
/// back.
proof fn lemma_whole_by_one(n: int)
    requires
        -0x100_0000 < n < 0x100_0000,
    ensures
        whole(n).times(single::decode(ONE_BITS)) == whole(n),
        whole(n).over(single::decode(ONE_BITS)) == whole(n),
        whole(n).rounded() == n,
{
    let u = pow2(149);
    let m = quantize::abs(n);
    let units = (m * u) as nat;
    lemma_whole_units(n);
    lemma2_to64();
    lemma_pow2_adds(23, 126);
    lemma_pow2_pos(149);
    assert(single::decode(ONE_BITS) == (Real::Finite { negative: false, units: u }));
    single::lemma_exact(units, u);
    assert(2 * units + u == m * (2 * u) + u) by (nonlinear_arith)
        requires
            units == m * u,
    ;
    lemma_fundamental_div_mod_converse((2 * units + u) as int, (2 * u) as int, m, u as int);
}

proof fn lemma_whole_sum(m: int, n: int)
    requires
        -0x80_0000 < m < 0x80_0000,
        -0x80_0000 < n < 0x80_0000,
    ensures
        whole(m).plus(whole(n)) == whole(m + n),
{
    let u = pow2(149) as int;
    lemma_whole_units(m);
    lemma_whole_units(n);
    lemma_whole_units(m + n);
    lemma_pow2_pos(149);
    assert(m * u + n * u == (m + n) * u) by (nonlinear_arith);
    assert((-m) * u == -(m * u)) by (nonlinear_arith);
    assert((-n) * u == -(n * u)) by (nonlinear_arith);
    assert((-(m + n)) * u == -((m + n) * u)) by (nonlinear_arith);
    let sum = (m + n) * u;
    assert(sum > 0 <==> m + n > 0) by (nonlinear_arith)
        requires
            sum == (m + n) * u,
            u > 0,
    ;
    assert(sum < 0 <==> m + n < 0) by (nonlinear_arith)
        requires
            sum == (m + n) * u,
            u > 0,
    ;
    assert(whole(m).signed_units() == m * u);
    assert(whole(n).signed_units() == n * u);
    if m + n == 0 {
        lemma_mul_basics(u);
    }
}

proof fn lemma_whole_product(m: int, n: int)
    requires
        -0x100_0000 < m < 0x100_0000,
        -0x100_0000 < n < 0x100_0000,
        -0x100_0000 < m * n < 0x100_0000,
    ensures
        ({
            let p = whole(m).times(whole(n));
            &&& p is Finite
            &&& p->units == whole(m * n)->units
            &&& m * n != 0 ==> p == whole(m * n)
            &&& p.over(single::decode(ONE_BITS)).rounded() == m * n
        }),
{
    let u = pow2(149);
    let a = quantize::abs(m);
    let b = quantize::abs(n);
    lemma_whole_units(m);
    lemma_whole_units(n);
    lemma_whole_units(m * n);
    lemma_whole_by_one(m * n);
    lemma_pow2_pos(149);
    assert(a * b == quantize::abs(m * n)) by (nonlinear_arith)
        requires
            a == quantize::abs(m),
            b == quantize::abs(n),
    ;
    let units = ((a * b) * u) as nat;
    assert((a * u) * (b * u) == units * u) by (nonlinear_arith)
        requires
            units == (a * b) * u,
    ;
    single::lemma_exact(units, u);
    assert(m * n < 0 <==> (m < 0) != (n < 0) && m * n != 0) by (nonlinear_arith);
    lemma2_to64();
    lemma_pow2_adds(23, 126);
    assert(single::decode(ONE_BITS) == (Real::Finite { negative: false, units: u }));
}

/// Addition writes the sum of the two real numbers, quantized and limited to the range
/// of the activation.
pub proof fn law_add(
    before: RefBackend,
    a: ElementwiseAddArgs,
    buffers: Buffers,
    after: RefBackend,
    written: Buffers,
    i: int,
)
    requires
        before.accepts(Operation::Add(a), buffers),
        RefBackend::performs(before, Operation::Add(a), buffers, after, written, Ok(())),
        0 <= i < a.output_len,
    ensures
        written.output.len() == a.output_len,
        written.output[i] == level(
            value(a.input1[i], a.input1_quant).plus(value(a.input2[i], a.input2_quant)),
            a.activation,
            a.output_quant,
        ),
        results::permitted(written.output[i] as int, a.activation, a.output_quant),
{
    assert(a.element_defined(i));
    results::lemma_activation_range(
        elementwise::requantized_real(a.sum(i), a.output_quant),
        a.activation,
        a.output_quant,
    );
}

/// Addition succeeds exactly where the three buffers have the same number of elements;
/// otherwise the shapes are refused and nothing is written.
pub proof fn law_add_status(
    before: RefBackend,
    a: ElementwiseAddArgs,
    buffers: Buffers,
    after: RefBackend,
    written: Buffers,
    status: Status,
)
    requires
        RefBackend::performs(before, Operation::Add(a), buffers, after, written, status),
    ensures
        status is Ok <==> a.input1.len() == a.output_len && a.input2.len() == a.output_len,
        status is Err ==> status == Err::<(), KernelError>(KernelError::InvalidShape)
            && written.output == buffers.output,
{
}

/// Between tensors of scale one, addition adds the distances from the zero points.
pub proof fn law_add_of_whole_numbers(
    before: RefBackend,
    a: ElementwiseAddArgs,
    buffers: Buffers,
    after: RefBackend,
    written: Buffers,
    i: int,
)
    requires
        before.accepts(Operation::Add(a), buffers),
        RefBackend::performs(before, Operation::Add(a), buffers, after, written, Ok(())),
        0 <= i < a.output_len,
        a.input1_quant.scale == ONE_BITS,
        a.input2_quant.scale == ONE_BITS,
        a.output_quant.scale == ONE_BITS,
        -0x7f_ff00 < a.input1_quant.zero_point < 0x7f_ff00,
        -0x7f_ff00 < a.input2_quant.zero_point < 0x7f_ff00,
    ensures
        written.output[i] == quantize::activated(
            (a.input1[i] - a.input1_quant.zero_point) + (a.input2[i] - a.input2_quant.zero_point)
                + a.output_quant.zero_point,
            a.activation,
            a.output_quant,
        ),
{
    law_add(before, a, buffers, after, written, i);
    let m = a.input1[i] - a.input1_quant.zero_point;
    let n = a.input2[i] - a.input2_quant.zero_point;
    lemma_from_int(m);
    lemma_from_int(n);
    lemma_whole_by_one(m);
    lemma_whole_by_one(n);
    lemma_whole_sum(m, n);
    lemma_whole_by_one(m + n);
}

/// Only the distances from the zero points count: addition gives the same output when
/// each operand is moved together with its zero point.
pub proof fn law_add_zero_points(
    backend: RefBackend,
    a: ElementwiseAddArgs,
    moved: ElementwiseAddArgs,
    k: int,
    m: int,
    buffers: Buffers,
    after: RefBackend,
    written: Buffers,
    moved_after: RefBackend,
    moved_written: Buffers,
)
    requires
        moved == (ElementwiseAddArgs {
            input1: moved.input1,
            input2: moved.input2,
            input1_quant: moved.input1_quant,
            input2_quant: moved.input2_quant,
            ..a
        }),
        moved.input1.len() == a.input1.len(),
        moved.input2.len() == a.input2.len(),
        moved.input1_quant.scale == a.input1_quant.scale,
        moved.input2_quant.scale == a.input2_quant.scale,
        moved.input1_quant.zero_point == a.input1_quant.zero_point + k,
        moved.input2_quant.zero_point == a.input2_quant.zero_point + m,
        forall|i: int| 0 <= i < a.input1.len() ==> #[trigger] moved.input1[i] == a.input1[i] + k,
        forall|i: int| 0 <= i < a.input2.len() ==> #[trigger] moved.input2[i] == a.input2[i] + m,
        backend.accepts(Operation::Add(a), buffers),
        backend.accepts(Operation::Add(moved), buffers),
        RefBackend::performs(backend, Operation::Add(a), buffers, after, written, Ok(())),
        RefBackend::performs(
            backend,
            Operation::Add(moved),
            buffers,
            moved_after,
            moved_written,
            Ok(()),
        ),
    ensures
        moved_written.output == written.output,
{
    assert forall|i: int| 0 <= i < a.output_len implies moved_written.output[i]
        == #[trigger] written.output[i] by {
        law_add(backend, a, buffers, after, written, i);
        law_add(backend, moved, buffers, moved_after, moved_written, i);
    }
    assert(moved_written.output =~= written.output);
}

/// Multiplication writes the product of the two real numbers, the shorter operand being
/// repeated, quantized and limited to the range of the activation.
pub proof fn law_mul(a: MulArgs, before: Seq<i8>, i: int)
    requires
        a.defined(),
        a.status() == Ok::<(), KernelError>(()),
        0 <= i < a.output_len,
    ensures
        a.output(before).len() == a.output_len,
        ({
            let first = value(a.input1[i % a.input1.len() as int], a.input1_quant);
            let second = value(a.input2[i % a.input2.len() as int], a.input2_quant);
            a.output(before)[i] == level(first.times(second), a.activation, a.output_quant)
        }),
        results::permitted(a.output(before)[i] as int, a.activation, a.output_quant),
{
    assert(a.element_defined(i));
    lemma_small_mod(i as nat, a.output_len);
    results::lemma_activation_range(
        elementwise::requantized_real(a.product(i), a.output_quant),
        a.activation,
        a.output_quant,
    );
    let first = value(a.input1[i % a.input1.len() as int], a.input1_quant);
    let second = value(a.input2[i % a.input2.len() as int], a.input2_quant);
    single::lemma_times_commutes(first, second);
}

/// Multiplication succeeds exactly where the output is as long as the longer operand and
/// a whole number of times as long as the shorter one, which is not empty; otherwise the
/// shapes are refused and nothing is written.
pub proof fn law_mul_status(a: MulArgs, before: Seq<i8>)
    ensures
        a.status() is Ok <==> {
            &&& a.input1.len() > 0 && a.input2.len() > 0
            &&& a.input1.len() <= a.output_len && a.input2.len() <= a.output_len
            &&& a.input1.len() == a.output_len || a.input2.len() == a.output_len
            &&& a.output_len % a.input1.len() == 0 && a.output_len % a.input2.len() == 0
        },
        a.status() is Err ==> a.status() == Err::<(), KernelError>(KernelError::InvalidShape)
            && a.output(before) == before,
{
    if a.output_len > 0 {
        lemma_mod_self_0(a.output_len as int);
    }
}

/// Between tensors of scale one, multiplication multiplies the distances from the zero
/// points.
pub proof fn law_mul_of_whole_numbers(a: MulArgs, before: Seq<i8>, i: int)
    requires
        a.defined(),
        a.status() == Ok::<(), KernelError>(()),
        0 <= i < a.output_len,
        a.input1_quant.scale == ONE_BITS,
        a.input2_quant.scale == ONE_BITS,
        a.output_quant.scale == ONE_BITS,
        -0x800 < a.input1_quant.zero_point < 0x800,
        -0x800 < a.input2_quant.zero_point < 0x800,
    ensures
        a.output(before)[i] == quantize::activated(
            (a.input1[i % a.input1.len() as int] - a.input1_quant.zero_point) * (a.input2[i
                % a.input2.len() as int] - a.input2_quant.zero_point) + a.output_quant.zero_point,
            a.activation,
            a.output_quant,
        ),
{
    law_mul(a, before, i);
    let m = a.input1[i % a.input1.len() as int] - a.input1_quant.zero_point;
    let n = a.input2[i % a.input2.len() as int] - a.input2_quant.zero_point;
    assert(-0x100_0000 < m * n < 0x100_0000) by (nonlinear_arith)
        requires
            -0x900 < m < 0x900,
            -0x900 < n < 0x900,
    ;
    lemma_from_int(m);
    lemma_from_int(n);
    lemma_whole_by_one(m);
    lemma_whole_by_one(n);
    lemma_whole_product(m, n);
}

/// A real number over a scale is far from the ends of 32 bits.
pub open spec fn has_level(number: Real, quant: QuantParam) -> bool {
    -0x7fff_0000 <= number.over(single::decode(quant.scale)).rounded() <= 0x7fff_0000
}

/// The reference backend accepts every addition whose zero points are of `i8`, whose sums
/// have a level in the output and whose activation has a range.
pub proof fn law_add_accepted(backend: RefBackend, a: ElementwiseAddArgs, buffers: Buffers)
    requires
        domain::has_byte_zero(a.input1_quant),
        domain::has_byte_zero(a.input2_quant),
        domain::has_byte_zero(a.output_quant),
        domain::has_range(a.activation, a.output_quant),
        forall|i: int|
            0 <= i < a.output_len ==> has_level(
                value(#[trigger] a.input1[i], a.input1_quant).plus(
                    value(a.input2[i], a.input2_quant),
                ),
                a.output_quant,
            ),
    ensures
        backend.accepts(Operation::Add(a), buffers),
{
    domain::lemma_range(a.activation, a.output_quant);
    if a.valid() {
        assert forall|i: int| 0 <= i < a.output_len implies #[trigger] a.element_defined(i) by {
            assert(has_level(
                value(a.input1[i], a.input1_quant).plus(value(a.input2[i], a.input2_quant)),
                a.output_quant,
            ));
        }
    }
}

/// The reference backend accepts every multiplication whose zero points are of `i8`, whose
/// products have a level in the output and whose activation has a range.
pub proof fn law_mul_accepted(a: MulArgs)
    requires
        domain::has_byte_zero(a.input1_quant),
        domain::has_byte_zero(a.input2_quant),
        domain::has_byte_zero(a.output_quant),
        domain::has_range(a.activation, a.output_quant),
        forall|x: i8, y: i8|
            has_level(
                #[trigger] value(x, a.input1_quant).times(#[trigger] value(y, a.input2_quant)),
                a.output_quant,
            ),
    ensures
        a.defined(),
{
    domain::lemma_range(a.activation, a.output_quant);
    if a.valid() {
        assert forall|i: int| 0 <= i < a.output_len implies #[trigger] a.element_defined(i) by {
            let d = value(a.dense()[i], a.dense_quant());
            let c = value(a.per_channel_at(i), a.per_channel_quant());
            single::lemma_times_commutes(d, c);
            assert(has_level(d.times(c), a.output_quant) || has_level(c.times(d), a.output_quant));
        }
    }
}

} // verus!
