//! Enums, quantization parameters and errors shared by all operators.
use crate::single;
use crate::single::Real;
use vstd::prelude::*;

verus! {

/// Padding strategy.
#[derive(Clone, Copy, Debug, PartialEq, Eq, Structural)]
pub enum Padding {
    /// Output size equals `ceil(input_size / stride)`.
    Same,
    /// No padding; output size equals `floor((input_size - filter_size) / stride) + 1`.
    Valid,
}

/// Fused activation function applied after an operator.
#[derive(Clone, Copy, Debug, PartialEq, Eq, Structural)]
pub enum FusedActivation {
    /// No activation.
    Identity,
    /// ReLU: `max(0, x)`.
    Relu,
    /// ReLU6: `min(max(0, x), 6)`.
    Relu6,
    /// ReLU with range `[-1, 1]`.
    ReluN1To1,
    /// Tanh activation, limited to its range `[-1, 1]`.
    Tanh,
    /// Sign bit activation.
    SignBit,
    /// Sigmoid activation, limited to its range `[0, 1]`.
    Sigmoid,
}

/// Per-tensor quantization parameters.
#[derive(Clone, Copy, Debug)]
pub struct QuantParam {
    /// The scale factor, as the bits of a single:
    /// `real_value = scale * (quantized_value - zero_point)`.
    pub scale: u32,
    /// The zero point for asymmetric quantization.
    pub zero_point: i32,
}

impl QuantParam {
    /// The number that the scale stands for.
    pub open spec fn real_scale(self) -> Real {
        single::decode(self.scale)
    }
}

/// Per-channel quantization parameters of a weight tensor.
#[derive(Clone, Copy, Debug)]
pub struct PerChannelQuantParam<'a> {
    /// One scale per output channel, each as the bits of a single.
    pub scales: &'a [u32],
}

/// Errors that a backend may return.
#[derive(Clone, Copy, Debug, PartialEq, Eq, Structural)]
pub enum KernelError {
    /// Input or output tensor shapes are invalid for this operation.
    InvalidShape,
    /// The requested activation function is not supported by this backend.
    UnsupportedActivation,
    /// A buffer passed to the backend does not meet alignment requirements.
    ///
    /// This error is only returned by backends that assume aligned buffers when
    /// the caller violates that contract.
    AlignmentError,
    /// An internal error occurred in the backend.
    InternalError,
}

/// Result type of all backend operations.
pub type Status = Result<(), KernelError>;

} // verus!
