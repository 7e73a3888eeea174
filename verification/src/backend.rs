//! The interface between model code and operator kernels.
use crate::params::{
    Conv2dArgs, Conv2dParams, DepthwiseConv2dArgs, DepthwiseConv2dParams, ElementwiseAddArgs,
    ElementwiseAddParams, FullyConnectedArgs, FullyConnectedParams, PoolArgs, PoolParams,
    SoftmaxArgs, SoftmaxParams,
};
use crate::pool::PoolKind;
use crate::types::Status;
use vstd::prelude::*;

verus! {

/// An operator and what it is given.
pub enum Operation {
    /// 2D convolution.
    Conv2d(Conv2dArgs),
    /// Depthwise 2D convolution.
    DepthwiseConv2d(DepthwiseConv2dArgs),
    /// Fully-connected layer.
    FullyConnected(FullyConnectedArgs),
    /// Average or max pooling.
    Pool(PoolKind, PoolArgs),
    /// Softmax.
    Softmax(SoftmaxArgs),
    /// Element-wise addition.
    Add(ElementwiseAddArgs),
}

/// The buffers that an operator writes.
pub struct Buffers {
    /// The output tensor.
    pub output: Seq<i8>,
    /// The scratch buffer; empty for operators that take none.
    pub scratch: Seq<u8>,
}

/// An INT8 inference backend.
///
/// The trait covers the invoke phase only. A backend that needs scratch memory
/// overrides the `*_scratch_size` functions, which state no need by default.
///
/// A backend describes itself by two spec functions: on what it can be invoked,
/// and what comes of it. One that leaves them out can be invoked on anything, and
/// nothing is known of what comes of it.
pub trait KernelBackend: Sized {
    /// The operator can be invoked.
    open spec fn accepts(&self, operation: Operation, buffers: Buffers) -> bool {
        true
    }

    /// The operator, invoked on `before` and `buffers`, may return `status` and
    /// leave `after` and `written`.
    open spec fn performs(
        before: Self,
        operation: Operation,
        buffers: Buffers,
        after: Self,
        written: Buffers,
        status: Status,
    ) -> bool {
        true
    }

    /// Executes a 2D convolution.
    fn conv2d(&mut self, params: Conv2dParams<'_>) -> (r: Status)
        requires
            old(self).accepts(
                Operation::Conv2d(params@),
                (Buffers { output: old(params.output)@, scratch: old(params.scratch)@ }),
            ),
        ensures
            Self::performs(
                *old(self),
                Operation::Conv2d(params@),
                (Buffers { output: old(params.output)@, scratch: old(params.scratch)@ }),
                *final(self),
                (Buffers { output: final(params.output)@, scratch: final(params.scratch)@ }),
                r,
            ),
    ;

    /// Executes a depthwise 2D convolution.
    fn depthwise_conv2d(&mut self, params: DepthwiseConv2dParams<'_>) -> (r: Status)
        requires
            old(self).accepts(
                Operation::DepthwiseConv2d(params@),
                (Buffers { output: old(params.output)@, scratch: old(params.scratch)@ }),
            ),
        ensures
            Self::performs(
                *old(self),
                Operation::DepthwiseConv2d(params@),
                (Buffers { output: old(params.output)@, scratch: old(params.scratch)@ }),
                *final(self),
                (Buffers { output: final(params.output)@, scratch: final(params.scratch)@ }),
                r,
            ),
    ;

    /// Executes a fully-connected layer.
    fn fully_connected(&mut self, params: FullyConnectedParams<'_>) -> (r: Status)
        requires
            old(self).accepts(
                Operation::FullyConnected(params@),
                (Buffers { output: old(params.output)@, scratch: Seq::empty() }),
            ),
        ensures
            Self::performs(
                *old(self),
                Operation::FullyConnected(params@),
                (Buffers { output: old(params.output)@, scratch: Seq::empty() }),
                *final(self),
                (Buffers { output: final(params.output)@, scratch: Seq::empty() }),
                r,
            ),
    ;

    /// Executes average pooling.
    fn avg_pool(&mut self, params: PoolParams<'_>) -> (r: Status)
        requires
            old(self).accepts(
                Operation::Pool(PoolKind::Average, params@),
                (Buffers { output: old(params.output)@, scratch: Seq::empty() }),
            ),
        ensures
            Self::performs(
                *old(self),
                Operation::Pool(PoolKind::Average, params@),
                (Buffers { output: old(params.output)@, scratch: Seq::empty() }),
                *final(self),
                (Buffers { output: final(params.output)@, scratch: Seq::empty() }),
                r,
            ),
    ;

    /// Executes max pooling.
    fn max_pool(&mut self, params: PoolParams<'_>) -> (r: Status)
        requires
            old(self).accepts(
                Operation::Pool(PoolKind::Max, params@),
                (Buffers { output: old(params.output)@, scratch: Seq::empty() }),
            ),
        ensures
            Self::performs(
                *old(self),
                Operation::Pool(PoolKind::Max, params@),
                (Buffers { output: old(params.output)@, scratch: Seq::empty() }),
                *final(self),
                (Buffers { output: final(params.output)@, scratch: Seq::empty() }),
                r,
            ),
    ;

    /// Executes softmax.
    fn softmax(&mut self, params: SoftmaxParams<'_>) -> (r: Status)
        requires
            old(self).accepts(
                Operation::Softmax(params@),
                (Buffers { output: old(params.output)@, scratch: old(params.scratch)@ }),
            ),
        ensures
            Self::performs(
                *old(self),
                Operation::Softmax(params@),
                (Buffers { output: old(params.output)@, scratch: old(params.scratch)@ }),
                *final(self),
                (Buffers { output: final(params.output)@, scratch: final(params.scratch)@ }),
                r,
            ),
    ;

    /// Executes element-wise addition.
    fn add(&mut self, params: ElementwiseAddParams<'_>) -> (r: Status)
        requires
            old(self).accepts(
                Operation::Add(params@),
                (Buffers { output: old(params.output)@, scratch: Seq::empty() }),
            ),
        ensures
            Self::performs(
                *old(self),
                Operation::Add(params@),
                (Buffers { output: old(params.output)@, scratch: Seq::empty() }),
                *final(self),
                (Buffers { output: final(params.output)@, scratch: Seq::empty() }),
                r,
            ),
    ;

    /// Scratch memory in bytes that [`Self::conv2d`] needs.
    fn conv2d_scratch_size(
        input_shape: [usize; 4],
        weights_shape: [usize; 4],
        output_shape: [usize; 4],
    ) -> (r: usize)
        default_ensures
            r == 0,
    {
        0
    }

    /// Scratch memory in bytes that [`Self::depthwise_conv2d`] needs.
    fn depthwise_conv2d_scratch_size(
        input_shape: [usize; 4],
        weights_shape: [usize; 4],
        output_shape: [usize; 4],
    ) -> (r: usize)
        default_ensures
            r == 0,
    {
        0
    }

    /// Scratch memory in bytes that [`Self::softmax`] needs.
    fn softmax_scratch_size(num_classes: usize) -> (r: usize)
        default_ensures
            r == 0,
    {
        0
    }
}

} // verus!
