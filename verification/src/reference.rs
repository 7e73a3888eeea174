//! The reference backend.
use crate::backend::{Buffers, KernelBackend, Operation};
use crate::conv;
use crate::dense;
use crate::depthwise;
use crate::params::{
    Conv2dParams, DepthwiseConv2dParams, ElementwiseAddParams, FullyConnectedParams, MulParams,
    PoolParams, SoftmaxParams,
};
use crate::pool;
use crate::pool::PoolKind;
use crate::softmax;
use crate::types::{KernelError, Status};
use vstd::prelude::*;

verus! {

/// Pure reference implementation of [`KernelBackend`].
///
/// For testing, and for platforms where no hardware-accelerated backend is
/// available.
pub struct RefBackend;

/// No step of the operator overflows.
pub open spec fn defined(operation: Operation) -> bool {
    match operation {
        Operation::Conv2d(args) => args.defined(),
        Operation::DepthwiseConv2d(args) => args.defined(),
        Operation::FullyConnected(args) => args.defined(),
        Operation::Pool(kind, args) => args.defined(kind),
        Operation::Softmax(args) => args.defined(),
        Operation::Add(args) => args.defined(),
    }
}

/// What the operator returns.
pub open spec fn status(operation: Operation) -> Status {
    match operation {
        Operation::Conv2d(args) => args.status(),
        Operation::DepthwiseConv2d(args) => args.status(),
        Operation::FullyConnected(args) => args.status(),
        Operation::Pool(_, args) => args.status(),
        Operation::Softmax(args) => args.status(),
        Operation::Add(args) => args.status(),
    }
}

/// The output tensor after the operator, given its contents before.
pub open spec fn output(operation: Operation, before: Seq<i8>) -> Seq<i8> {
    match operation {
        Operation::Conv2d(args) => args.output(before),
        Operation::DepthwiseConv2d(args) => args.output(before),
        Operation::FullyConnected(args) => args.output(before),
        Operation::Pool(kind, args) => args.output(kind, before),
        Operation::Softmax(args) => args.output(before),
        Operation::Add(args) => args.output(before),
    }
}

impl KernelBackend for RefBackend {
    open spec fn accepts(&self, operation: Operation, buffers: Buffers) -> bool {
        defined(operation)
    }

    open spec fn performs(
        before: Self,
        operation: Operation,
        buffers: Buffers,
        after: Self,
        written: Buffers,
        r: Status,
    ) -> bool {
        &&& r == status(operation)
        &&& written.output == output(operation, buffers.output)
        &&& written.scratch == buffers.scratch
        &&& after == before
    }

    fn conv2d(&mut self, params: Conv2dParams<'_>) -> Status {
        conv::conv2d(params)
    }

    fn depthwise_conv2d(&mut self, params: DepthwiseConv2dParams<'_>) -> Status {
        depthwise::depthwise_conv2d(params)
    }

    fn fully_connected(&mut self, params: FullyConnectedParams<'_>) -> Status {
        dense::fully_connected(params)
    }

    fn avg_pool(&mut self, params: PoolParams<'_>) -> Status {
        pool::pool(params, PoolKind::Average)
    }

    fn max_pool(&mut self, params: PoolParams<'_>) -> Status {
        pool::pool(params, PoolKind::Max)
    }

    fn softmax(&mut self, params: SoftmaxParams<'_>) -> Status {
        softmax::softmax(params)
    }

    fn add(&mut self, params: ElementwiseAddParams<'_>) -> Status {
        crate::elementwise::add(params)
    }
}

impl RefBackend {
    /// Executes element-wise multiplication.
    pub fn mul(&mut self, params: MulParams<'_>) -> (r: Status)
        requires
            params@.defined(),
        ensures
            r == params@.status(),
            final(params.output)@ == params@.output(old(params.output)@),
            *final(self) == *old(self),
    {
        crate::elementwise::mul(params)
    }
}

/// Number of elements of the output that an operator is given.
pub open spec fn output_len(operation: Operation) -> nat {
    match operation {
        Operation::Conv2d(args) => args.output_len,
        Operation::DepthwiseConv2d(args) => args.output_len,
        Operation::FullyConnected(args) => args.output_len,
        Operation::Pool(_, args) => args.output_len,
        Operation::Softmax(args) => args.output_len,
        Operation::Add(args) => args.output_len,
    }
}

/// An operator that succeeds overwrites the whole output: what was there before
/// does not matter.
pub proof fn lemma_success_overwrites(operation: Operation, first: Seq<i8>, second: Seq<i8>)
    requires
        status(operation) == Ok::<(), KernelError>(()),
    ensures
        output(operation, first) == output(operation, second),
{
    assert(output(operation, first) =~= output(operation, second));
}

/// An operator that refuses its shapes writes nothing. The one operator that may
/// find a shape invalid after it has begun to write is pooling, where the window of
/// some output element lies on padding alone.
pub proof fn lemma_refusal_writes_nothing(operation: Operation, before: Seq<i8>)
    requires
        status(operation) == Err::<(), KernelError>(KernelError::InvalidShape),
        operation matches Operation::Pool(_, args) ==> !args.valid(),
        before.len() == output_len(operation),
    ensures
        output(operation, before) == before,
{
    assert(output(operation, before) =~= before);
}

} // verus!
