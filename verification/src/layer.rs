//! The layers that a model runs.
use crate::pool::PoolKind;
use crate::types::{FusedActivation, Padding, QuantParam};
use vstd::prelude::*;

verus! {

/// Where a layer reads a tensor.
#[derive(Clone, Copy, Debug, PartialEq, Eq, Structural)]
pub enum Source {
    /// The input of the model.
    Input,
    /// The tensor of this number.
    Tensor(usize),
}

/// Where a layer writes its output.
#[derive(Clone, Copy, Debug, PartialEq, Eq, Structural)]
pub enum Target {
    /// The output of the model.
    Output,
    /// A fresh tensor of this number, with `len` elements.
    Tensor { id: usize, len: usize },
}

/// A 2D convolution.
pub struct Conv2dLayer {
    pub input: Source,
    pub input_shape: [usize; 4],
    pub input_quant: QuantParam,
    pub weights: Vec<i8>,
    pub weights_shape: [usize; 4],
    pub weights_quant: QuantParam,
    pub bias: Option<Vec<i32>>,
    pub output: Target,
    pub output_shape: [usize; 4],
    pub output_quant: QuantParam,
    pub stride_w: i32,
    pub stride_h: i32,
    pub dilation_w_factor: i32,
    pub dilation_h_factor: i32,
    pub padding: Padding,
    pub activation: FusedActivation,
}

/// A depthwise 2D convolution.
pub struct DepthwiseConv2dLayer {
    pub input: Source,
    pub input_shape: [usize; 4],
    pub input_quant: QuantParam,
    pub weights: Vec<i8>,
    pub weights_shape: [usize; 4],
    pub weights_quant: QuantParam,
    pub bias: Option<Vec<i32>>,
    pub output: Target,
    pub output_shape: [usize; 4],
    pub output_quant: QuantParam,
    pub stride_w: i32,
    pub stride_h: i32,
    pub dilation_w_factor: i32,
    pub dilation_h_factor: i32,
    pub depth_multiplier: i32,
    pub padding: Padding,
    pub activation: FusedActivation,
}

/// A fully-connected layer.
pub struct FullyConnectedLayer {
    pub input: Source,
    pub input_quant: QuantParam,
    pub weights: Vec<i8>,
    pub weights_shape: [usize; 2],
    pub weights_quant: QuantParam,
    pub bias: Option<Vec<i32>>,
    pub output: Target,
    pub output_depth: usize,
    pub output_quant: QuantParam,
    pub activation: FusedActivation,
}

/// A pooling operation.
pub struct PoolLayer {
    pub kind: PoolKind,
    pub input: Source,
    pub input_shape: [usize; 4],
    pub input_quant: QuantParam,
    pub output: Target,
    pub output_shape: [usize; 4],
    pub output_quant: QuantParam,
    pub stride_w: i32,
    pub stride_h: i32,
    pub filter_w: i32,
    pub filter_h: i32,
    pub padding: Padding,
    pub activation: FusedActivation,
}

/// A softmax operation.
pub struct SoftmaxLayer {
    pub input: Source,
    pub input_shape: [usize; 2],
    pub input_quant: QuantParam,
    pub output: Target,
    pub output_quant: QuantParam,
    /// Beta, as the bits of a single.
    pub beta: u32,
    /// The exponential function at the points that
    /// [`exponent_arguments`](crate::softmax::exponent_arguments) gives; empty until
    /// it is filled in.
    pub exponentials: Vec<u32>,
}

/// An element-wise addition.
pub struct AddLayer {
    pub input1: Source,
    pub input1_quant: QuantParam,
    pub input2: Source,
    pub input2_quant: QuantParam,
    pub output: Target,
    pub output_quant: QuantParam,
    pub activation: FusedActivation,
}

/// A copy of a tensor under another shape.
pub struct ReshapeLayer {
    pub input: Source,
    pub output: Target,
}

/// One step of a model.
pub enum Layer {
    Conv2d(Conv2dLayer),
    DepthwiseConv2d(DepthwiseConv2dLayer),
    FullyConnected(FullyConnectedLayer),
    Pool(PoolLayer),
    Softmax(SoftmaxLayer),
    Add(AddLayer),
    Reshape(ReshapeLayer),
}

/// What a model runs.
pub struct Plan {
    /// Number of input elements.
    pub input_len: usize,
    /// Quantization parameters of the input.
    pub input_quant: QuantParam,
    /// Number of output elements.
    pub output_len: usize,
    /// Quantization parameters of the output.
    pub output_quant: QuantParam,
    /// Number of tensors of the graph.
    pub tensor_count: usize,
    /// The layers, in the order in which they run.
    pub layers: Vec<Layer>,
}

} // verus!
