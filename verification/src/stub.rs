//! A backend that performs no operator.
use crate::backend::{Buffers, KernelBackend, Operation};
use crate::params::{
    Conv2dParams, DepthwiseConv2dParams, ElementwiseAddParams, FullyConnectedParams, PoolParams,
    SoftmaxParams,
};
use crate::types::{KernelError, Status};
use vstd::prelude::*;

verus! {

/// A placeholder backend: every operator returns an internal error.
pub struct RefBackend;

impl KernelBackend for RefBackend {
    open spec fn accepts(&self, operation: Operation, buffers: Buffers) -> bool {
        true
    }

    open spec fn performs(
        before: Self,
        operation: Operation,
        buffers: Buffers,
        after: Self,
        written: Buffers,
        status: Status,
    ) -> bool {
        &&& status == Err::<(), KernelError>(KernelError::InternalError)
        &&& written == buffers
        &&& after == before
    }

    fn conv2d(&mut self, params: Conv2dParams<'_>) -> Status {
        Err(KernelError::InternalError)
    }

    fn depthwise_conv2d(&mut self, params: DepthwiseConv2dParams<'_>) -> Status {
        Err(KernelError::InternalError)
    }

    fn fully_connected(&mut self, params: FullyConnectedParams<'_>) -> Status {
        Err(KernelError::InternalError)
    }

    fn avg_pool(&mut self, params: PoolParams<'_>) -> Status {
        Err(KernelError::InternalError)
    }

    fn max_pool(&mut self, params: PoolParams<'_>) -> Status {
        Err(KernelError::InternalError)
    }

    fn softmax(&mut self, params: SoftmaxParams<'_>) -> Status {
        Err(KernelError::InternalError)
    }

    fn add(&mut self, params: ElementwiseAddParams<'_>) -> Status {
        Err(KernelError::InternalError)
    }
}

} // verus!
