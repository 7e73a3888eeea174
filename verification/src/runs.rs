//! What holds of every run of a model.
use crate::layer::{Layer, Plan};
use crate::predict;
use crate::predict::State;
use crate::reference;
use crate::stub;
use crate::types::{KernelError, Status};
use vstd::prelude::*;

verus! {

/// No size exceeds the largest one, which is one of them unless it is zero.
pub proof fn lemma_largest_size(sizes: Seq<usize>)
    ensures
        forall|k: int| 0 <= k < sizes.len() ==> #[trigger] sizes[k] <= predict::largest_size(sizes),
        predict::largest_size(sizes) != 0 ==> exists|k: int|
            0 <= k < sizes.len() && #[trigger] sizes[k] == predict::largest_size(sizes),
    decreases sizes.len(),
{
    if sizes.len() > 0 {
        let rest = sizes.drop_last();
        lemma_largest_size(rest);
        assert forall|k: int| 0 <= k < sizes.len() implies #[trigger] sizes[k] <= predict::largest_size(
            sizes,
        ) by {
            if k < rest.len() {
                assert(rest[k] == sizes[k]);
            }
        }
        if sizes.last() > predict::largest_size(rest) {
            assert(sizes[sizes.len() - 1] == predict::largest_size(sizes));
        } else if predict::largest_size(rest) != 0 {
            let k = choose|k: int|
                0 <= k < rest.len() && #[trigger] rest[k] == predict::largest_size(rest);
            assert(sizes[k] == rest[k]);
        }
    }
}

/// A backend that keeps the default sizes needs no scratch memory: neither the
/// reference backend nor the stub does, on any model.
pub proof fn lemma_no_scratch(plan: Plan)
    ensures
        plan.scratch_suffices::<reference::RefBackend>(0),
        plan.scratch_suffices::<stub::RefBackend>(0),
{
    assert forall|sizes: Seq<usize>| #[trigger]
        plan.needs_scratch::<reference::RefBackend>(sizes) implies predict::largest_size(sizes) == 0 by {
        assert forall|k: int| 0 <= k < sizes.len() implies #[trigger] sizes[k] == 0 by {
            assert(plan.layers@[k].needs_scratch::<reference::RefBackend>(sizes[k]));
        }
        lemma_largest_size(sizes);
    }
    assert forall|sizes: Seq<usize>| #[trigger]
        plan.needs_scratch::<stub::RefBackend>(sizes) implies predict::largest_size(sizes) == 0 by {
        assert forall|k: int| 0 <= k < sizes.len() implies #[trigger] sizes[k] == 0 by {
            assert(plan.layers@[k].needs_scratch::<stub::RefBackend>(sizes[k]));
        }
        lemma_largest_size(sizes);
    }
}

/// On the reference backend a layer leads to one state and one status only.
proof fn lemma_step_deterministic(
    layer: Layer,
    input: Seq<i8>,
    state: State<reference::RefBackend>,
    first: State<reference::RefBackend>,
    first_status: Status,
    second: State<reference::RefBackend>,
    second_status: Status,
)
    requires
        layer.within(state.tensors.len() as int),
        state.steps(layer, input, first, first_status),
        state.steps(layer, input, second, second_status),
    ensures
        first == second,
        first_status == second_status,
        first.tensors.len() == state.tensors.len(),
{
    let target = layer.target();
    assert(first.left(target) == second.left(target));
    assert(first.scratch == second.scratch);
    assert(first.tensors == second.tensors);
    assert(first.output == second.output);
}

proof fn lemma_reaches_deterministic(
    plan: Plan,
    n: int,
    input: Seq<i8>,
    start: State<reference::RefBackend>,
    first: State<reference::RefBackend>,
    second: State<reference::RefBackend>,
)
    requires
        plan.resolved(),
        n <= plan.layers@.len(),
        start.tensors.len() == plan.tensor_count,
        plan.reaches(n, input, start, first),
        plan.reaches(n, input, start, second),
    ensures
        first == second,
        first.tensors.len() == plan.tensor_count,
    decreases n,
{
    if n > 0 {
        let layer = plan.layers@[n - 1];
        let a = choose|a: State<reference::RefBackend>|
            plan.reaches(n - 1, input, start, a) && #[trigger] a.steps(layer, input, first, Ok(()));
        let b = choose|b: State<reference::RefBackend>|
            plan.reaches(n - 1, input, start, b) && #[trigger] b.steps(layer, input, second, Ok(()));
        lemma_reaches_deterministic(plan, n - 1, input, start, a, b);
        assert(plan.layer_resolved(n - 1));
        lemma_step_deterministic(layer, input, a, first, Ok(()), second, Ok(()));
    }
}

/// A state that is reached lies behind one from which each earlier layer has
/// succeeded.
proof fn lemma_reaches_earlier(
    plan: Plan,
    k: int,
    n: int,
    input: Seq<i8>,
    start: State<reference::RefBackend>,
    state: State<reference::RefBackend>,
) -> (r: (State<reference::RefBackend>, State<reference::RefBackend>))
    requires
        0 <= k < n,
        plan.reaches(n, input, start, state),
    ensures
        plan.reaches(k, input, start, r.0),
        r.0.steps(plan.layers@[k], input, r.1, Ok(())),
    decreases n,
{
    let layer = plan.layers@[n - 1];
    let a = choose|a: State<reference::RefBackend>|
        plan.reaches(n - 1, input, start, a) && #[trigger] a.steps(layer, input, state, Ok(()));
    if k == n - 1 {
        (a, state)
    } else {
        lemma_reaches_earlier(plan, k, n - 1, input, start, a)
    }
}

/// On the reference backend a model, its input and its buffers determine the
/// result: two runs end with the same status, output and scratch contents.
pub proof fn lemma_reference_deterministic(
    plan: Plan,
    input: Seq<i8>,
    start: State<reference::RefBackend>,
    first: State<reference::RefBackend>,
    first_status: Status,
    second: State<reference::RefBackend>,
    second_status: Status,
)
    requires
        plan.resolved(),
        start.tensors.len() == plan.tensor_count,
        plan.ends(input, start, first, first_status),
        plan.ends(input, start, second, second_status),
    ensures
        first == second,
        first_status == second_status,
{
    let len = plan.layers@.len() as int;
    if first_status is Ok && second_status is Ok {
        lemma_reaches_deterministic(plan, len, input, start, first, second);
        assert(first_status->Ok_0 == second_status->Ok_0);
    } else if first_status is Ok {
        lemma_no_mixed_ends(plan, input, start, first, second, second_status);
    } else if second_status is Ok {
        lemma_no_mixed_ends(plan, input, start, second, first, first_status);
    } else {
        let (m, a) = choose|n: int, state: State<reference::RefBackend>|
            0 <= n < len && #[trigger] plan.reaches(n, input, start, state) && state.steps(
                plan.layers@[n],
                input,
                first,
                first_status,
            );
        let (n, b) = choose|n: int, state: State<reference::RefBackend>|
            0 <= n < len && #[trigger] plan.reaches(n, input, start, state) && state.steps(
                plan.layers@[n],
                input,
                second,
                second_status,
            );
        if m < n {
            lemma_no_early_failure(plan, m, n, input, start, b, a, first, first_status);
        } else if n < m {
            lemma_no_early_failure(plan, n, m, input, start, a, b, second, second_status);
        } else {
            lemma_reaches_deterministic(plan, m, input, start, a, b);
            assert(plan.layer_resolved(m));
            lemma_step_deterministic(
                plan.layers@[m],
                input,
                a,
                first,
                first_status,
                second,
                second_status,
            );
        }
    }
}

/// A layer that a later state lies behind does not fail.
proof fn lemma_no_early_failure(
    plan: Plan,
    k: int,
    n: int,
    input: Seq<i8>,
    start: State<reference::RefBackend>,
    later: State<reference::RefBackend>,
    state: State<reference::RefBackend>,
    failed: State<reference::RefBackend>,
    status: Status,
)
    requires
        plan.resolved(),
        start.tensors.len() == plan.tensor_count,
        0 <= k < n <= plan.layers@.len(),
        plan.reaches(n, input, start, later),
        plan.reaches(k, input, start, state),
        state.steps(plan.layers@[k], input, failed, status),
    ensures
        status is Ok,
{
    let (a, b) = lemma_reaches_earlier(plan, k, n, input, start, later);
    lemma_reaches_deterministic(plan, k, input, start, a, state);
    assert(plan.layer_resolved(k));
    lemma_step_deterministic(plan.layers@[k], input, state, b, Ok(()), failed, status);
}

/// A run that can succeed cannot fail.
proof fn lemma_no_mixed_ends(
    plan: Plan,
    input: Seq<i8>,
    start: State<reference::RefBackend>,
    done: State<reference::RefBackend>,
    failed: State<reference::RefBackend>,
    status: Status,
)
    requires
        plan.resolved(),
        start.tensors.len() == plan.tensor_count,
        plan.ends(input, start, done, Ok(())),
        plan.ends(input, start, failed, status),
    ensures
        status is Ok,
{
    if status is Err {
        let len = plan.layers@.len() as int;
        let (n, state) = choose|n: int, state: State<reference::RefBackend>|
            0 <= n < len && #[trigger] plan.reaches(n, input, start, state) && state.steps(
                plan.layers@[n],
                input,
                failed,
                status,
            );
        lemma_no_early_failure(plan, n, len, input, start, done, state, failed, status);
    }
}

/// On the stub backend a model that begins with an operator fails there, with an
/// internal error, and leaves the output as it was.
pub proof fn lemma_stub_fails(
    plan: Plan,
    input: Seq<i8>,
    start: State<stub::RefBackend>,
    end: State<stub::RefBackend>,
    status: Status,
)
    requires
        plan.layers@.len() > 0,
        !(plan.layers@[0] is Reshape),
        plan.ends(input, start, end, status),
    ensures
        status == Err::<(), KernelError>(KernelError::InternalError),
        end.output == start.output,
{
    if status is Ok {
        lemma_stub_stops(plan, plan.layers@.len() as int, input, start, end);
    } else {
        let (n, state) = choose|n: int, state: State<stub::RefBackend>|
            0 <= n < plan.layers@.len() && #[trigger] plan.reaches(n, input, start, state)
                && state.steps(plan.layers@[n], input, end, status);
        lemma_stub_stops(plan, n, input, start, state);
    }
}

/// On the stub backend no state is reached behind an operator.
proof fn lemma_stub_stops(
    plan: Plan,
    n: int,
    input: Seq<i8>,
    start: State<stub::RefBackend>,
    state: State<stub::RefBackend>,
)
    requires
        0 <= n <= plan.layers@.len(),
        !(plan.layers@[0] is Reshape),
        plan.reaches(n, input, start, state),
    ensures
        n == 0,
        state == start,
    decreases n,
{
    if n > 0 {
        let layer = plan.layers@[n - 1];
        let a = choose|a: State<stub::RefBackend>|
            plan.reaches(n - 1, input, start, a) && #[trigger] a.steps(layer, input, state, Ok(()));
        lemma_stub_stops(plan, n - 1, input, start, a);
    }
}

/// Two states differ in the contents of the output of the model alone.
pub open spec fn differ_in_output(
    first: State<reference::RefBackend>,
    second: State<reference::RefBackend>,
) -> bool {
    &&& second == (State { output: second.output, ..first })
    &&& second.output.len() == first.output.len()
}

/// A layer that succeeds keeps what two states have in common, and what it writes
/// does not depend on what the output held before.
proof fn lemma_step_overwrites(
    layer: Layer,
    input: Seq<i8>,
    first: State<reference::RefBackend>,
    second: State<reference::RefBackend>,
    first_after: State<reference::RefBackend>,
    second_after: State<reference::RefBackend>,
)
    requires
        layer.within(first.tensors.len() as int),
        differ_in_output(first, second),
        first.steps(layer, input, first_after, Ok(())),
        second.steps(layer, input, second_after, Ok(())),
    ensures
        differ_in_output(first_after, second_after),
        first_after.tensors.len() == first.tensors.len(),
        layer.target() is Output ==> first_after.output == second_after.output,
        !(layer.target() is Output) ==> first_after.output == first.output && second_after.output
            == second.output,
{
    let target = layer.target();
    let found = first.found(target);
    let other = second.found(target);
    assert(found.len() == other.len());
    match layer.operation(
        first.first(layer, input),
        first.second(layer, input),
        found.len(),
        first.scratch.len(),
    ) {
        Some(operation) => {
            reference::lemma_success_overwrites(operation, found, other);
        },
        None => {},
    }
    assert(first_after.left(target) == second_after.left(target));
    assert(first_after.tensors == second_after.tensors);
    assert(first_after.scratch == second_after.scratch);
}

proof fn lemma_reaches_overwrites(
    plan: Plan,
    n: int,
    input: Seq<i8>,
    start: State<reference::RefBackend>,
    other: State<reference::RefBackend>,
    first: State<reference::RefBackend>,
    second: State<reference::RefBackend>,
)
    requires
        plan.resolved(),
        0 <= n <= plan.layers@.len(),
        start.tensors.len() == plan.tensor_count,
        differ_in_output(start, other),
        plan.reaches(n, input, start, first),
        plan.reaches(n, input, other, second),
    ensures
        differ_in_output(first, second),
        first.tensors.len() == plan.tensor_count,
        (exists|k: int| 0 <= k < n && #[trigger] plan.layers@[k].target() is Output)
            ==> first.output == second.output,
    decreases n,
{
    if n > 0 {
        let layer = plan.layers@[n - 1];
        let a = choose|a: State<reference::RefBackend>|
            plan.reaches(n - 1, input, start, a) && #[trigger] a.steps(layer, input, first, Ok(()));
        let b = choose|b: State<reference::RefBackend>|
            plan.reaches(n - 1, input, other, b) && #[trigger] b.steps(layer, input, second, Ok(()));
        lemma_reaches_overwrites(plan, n - 1, input, start, other, a, b);
        assert(plan.layer_resolved(n - 1));
        lemma_step_overwrites(layer, input, a, b, first, second);
        if exists|k: int| 0 <= k < n && #[trigger] plan.layers@[k].target() is Output {
            let k = choose|k: int| 0 <= k < n && #[trigger] plan.layers@[k].target() is Output;
            if k < n - 1 {
                assert(plan.layers@[k].target() is Output);
                assert(a.output == b.output);
            }
        }
    }
}

/// On the reference backend what the output buffer held before does not matter: two
/// runs that succeed, from states that differ in it alone, end with the same output,
/// wherever some layer writes the output of the model.
pub proof fn lemma_output_overwritten(
    plan: Plan,
    input: Seq<i8>,
    start: State<reference::RefBackend>,
    other: State<reference::RefBackend>,
    first: State<reference::RefBackend>,
    second: State<reference::RefBackend>,
)
    requires
        plan.resolved(),
        start.tensors.len() == plan.tensor_count,
        differ_in_output(start, other),
        plan.ends(input, start, first, Ok(())),
        plan.ends(input, other, second, Ok(())),
        exists|k: int|
            0 <= k < plan.layers@.len() && #[trigger] plan.layers@[k].target() is Output,
    ensures
        first == second,
{
    lemma_reaches_overwrites(
        plan,
        plan.layers@.len() as int,
        input,
        start,
        other,
        first,
        second,
    );
}

} // verus!
