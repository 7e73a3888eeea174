//! Runs of a model: which operators run, in which order, and what comes out.
use crate::backend::KernelBackend;
use crate::layer::{Layer, Plan, SoftmaxLayer};
use crate::predict::State;
use crate::types::{KernelError, Status};
use vstd::prelude::*;

verus! {

/// The states of a run, each with the operator between it and the next: all operators
/// but the last have succeeded, and the last has returned `status`.
pub open spec fn is_trace<B: KernelBackend>(
    plan: Plan,
    input: Seq<i8>,
    trace: Seq<State<B>>,
    status: Status,
) -> bool {
    &&& 1 <= trace.len() <= plan.layers@.len() + 1
    &&& forall|k: int|
        #![trigger plan.layers@[k]]
        0 <= k < trace.len() - 1 ==> trace[k].steps(
            plan.layers@[k],
            input,
            trace[k + 1],
            if k == trace.len() - 2 {
                status
            } else {
                Ok(())
            },
        )
}

/// A reached state has a trace that leads to it.
proof fn lemma_trace<B: KernelBackend>(
    plan: Plan,
    n: int,
    input: Seq<i8>,
    start: State<B>,
    state: State<B>,
) -> (trace: Seq<State<B>>)
    requires
        0 <= n <= plan.layers@.len(),
        plan.reaches(n, input, start, state),
    ensures
        trace.len() == n + 1,
        trace[0] == start,
        trace.last() == state,
        is_trace(plan, input, trace, Ok(())),
    decreases n,
{
    if n == 0 {
        seq![start]
    } else {
        let before = choose|before: State<B>|
            plan.reaches(n - 1, input, start, before) && #[trigger] before.steps(
                plan.layers@[n - 1],
                input,
                state,
                Ok(()),
            );
        let shorter = lemma_trace(plan, n - 1, input, start, before);
        shorter.push(state)
    }
}

/// What a run starts from and ends in, as the caller of it sees both.
pub open spec fn spans<B>(
    plan: Plan,
    trace: Seq<State<B>>,
    before: (B, Seq<i8>, Seq<u8>),
    after: (B, Seq<i8>, Seq<u8>),
) -> bool {
    &&& trace[0].backend == before.0
    &&& trace[0].output == before.1
    &&& trace[0].scratch == before.2
    &&& trace[0].tensors.len() == plan.tensor_count
    &&& forall|id: int| 0 <= id < plan.tensor_count ==> (#[trigger] trace[0].tensors[id]).len() == 0
    &&& trace.last().backend == after.0
    &&& trace.last().output == after.1
    &&& trace.last().scratch == after.2
}

/// A run hands the operators the backend and the buffers one after the other, in their
/// order, until one fails or all have run; the run returns what the last of them
/// returned. Where the input or the output has another length than the model needs,
/// none runs and the shape is refused.
pub proof fn law_run<B: KernelBackend>(
    plan: Plan,
    backend: &mut B,
    input: &[i8],
    output: &mut [i8],
    scratch: &mut [u8],
    r: Status,
)
    requires
        call_ensures(
            Plan::predict_quantized_with_scratch::<B>,
            (&plan, backend, input, output, scratch),
            r,
        ),
    ensures
        if input@.len() == plan.input_len && old(output)@.len() == plan.output_len {
            exists|trace: Seq<State<B>>| #[trigger]
                is_trace(plan, input@, trace, r) && spans(
                    plan,
                    trace,
                    (*old(backend), old(output)@, old(scratch)@),
                    (*final(backend), final(output)@, final(scratch)@),
                ) && (r is Ok ==> trace.len() == plan.layers@.len() + 1) && (r is Err
                    ==> trace.len() >= 2)
        } else {
            &&& r == Err::<(), KernelError>(KernelError::InvalidShape)
            &&& *final(backend) == *old(backend)
            &&& final(output)@ == old(output)@
            &&& final(scratch)@ == old(scratch)@
        },
{
    if input@.len() == plan.input_len && old(output)@.len() == plan.output_len {
        let start = plan.start(*old(backend), old(output)@, old(scratch)@);
        let end = choose|end: State<B>| #[trigger]
            plan.ends(input@, start, end, r) && end.backend == *final(backend) && end.output
                == final(output)@ && end.scratch == final(scratch)@;
        let trace = lemma_ended(plan, input@, start, end, r);
        assert(is_trace(plan, input@, trace, r));
    }
}

/// A run with no scratch memory is a run with an empty scratch buffer.
pub proof fn law_run_without_scratch<B: KernelBackend>(
    plan: Plan,
    backend: &mut B,
    input: &[i8],
    output: &mut [i8],
    r: Status,
)
    requires
        call_ensures(Plan::predict_quantized::<B>, (&plan, backend, input, output), r),
    ensures
        if input@.len() == plan.input_len && old(output)@.len() == plan.output_len {
            exists|trace: Seq<State<B>>| #[trigger]
                is_trace(plan, input@, trace, r) && spans(
                    plan,
                    trace,
                    (*old(backend), old(output)@, Seq::empty()),
                    (*final(backend), final(output)@, trace.last().scratch),
                ) && (r is Ok ==> trace.len() == plan.layers@.len() + 1) && (r is Err
                    ==> trace.len() >= 2)
        } else {
            &&& r == Err::<(), KernelError>(KernelError::InvalidShape)
            &&& *final(backend) == *old(backend)
            &&& final(output)@ == old(output)@
        },
{
    if input@.len() == plan.input_len && old(output)@.len() == plan.output_len {
        let start = plan.start(*old(backend), old(output)@, Seq::<u8>::empty());
        let end = choose|end: State<B>| #[trigger]
            plan.ends(input@, start, end, r) && end.backend == *final(backend) && end.output
                == final(output)@;
        let trace = lemma_ended(plan, input@, start, end, r);
        assert(is_trace(plan, input@, trace, r));
    }
}

proof fn lemma_ended<B: KernelBackend>(
    plan: Plan,
    input: Seq<i8>,
    start: State<B>,
    end: State<B>,
    r: Status,
) -> (trace: Seq<State<B>>)
    requires
        plan.ends(input, start, end, r),
    ensures
        is_trace(plan, input, trace, r),
        trace[0] == start,
        trace.last() == end,
        r is Ok ==> trace.len() == plan.layers@.len() + 1,
        r is Err ==> trace.len() >= 2,
{
    if r is Ok {
        assert(r->Ok_0 == ());
        lemma_trace(plan, plan.layers@.len() as int, input, start, end)
    } else {
        let (n, state) = choose|n: int, state: State<B>|
            0 <= n < plan.layers@.len() && #[trigger] plan.reaches(n, input, start, state)
                && state.steps(plan.layers@[n], input, end, r);
        let before = lemma_trace(plan, n, input, start, state);
        before.push(end)
    }
}

/// The scratch memory that a model needs is the largest that one of its operators needs.
pub proof fn law_scratch_len<B: KernelBackend>(plan: Plan, r: usize) -> (sizes: Seq<usize>)
    requires
        call_ensures(Plan::scratch_len::<B>, (&plan,), r),
    ensures
        sizes.len() == plan.layers@.len(),
        forall|k: int|
            0 <= k < sizes.len() ==> plan.layers@[k].needs_scratch::<B>(#[trigger] sizes[k])
                && sizes[k] <= r,
        r == 0 || exists|k: int| 0 <= k < sizes.len() && #[trigger] sizes[k] == r,
{
    let sizes = choose|sizes: Seq<usize>| #[trigger]
        plan.needs_scratch::<B>(sizes) && r == crate::predict::largest_size(sizes);
    crate::runs::lemma_largest_size(sizes);
    sizes
}

/// Filling in the exponentials of a softmax operation changes nothing else.
pub proof fn law_set_exponentials(plan: &mut Plan, k: usize, values: Vec<u32>, r: bool)
    requires
        call_ensures(Plan::set_exponentials, (plan, k, values), r),
        k < old(plan).layers@.len(),
    ensures
        r == (old(plan).layers@[k as int] is Softmax),
        *final(plan) == (Plan { layers: final(plan).layers, ..*old(plan) }),
        final(plan).layers@.len() == old(plan).layers@.len(),
        forall|j: int|
            0 <= j < old(plan).layers@.len() && (j != k || !r)
                ==> #[trigger] final(plan).layers@[j] == old(plan).layers@[j],
        r ==> final(plan).layers@[k as int] == Layer::Softmax(
            SoftmaxLayer { exponentials: values, ..old(plan).layers@[k as int]->Softmax_0 },
        ),
{
}

} // verus!
