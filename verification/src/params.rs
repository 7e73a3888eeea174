//! Operator parameters.
//!
//! Each parameter struct has a view that holds the input buffers as sequences and
//! the buffers that the backend writes by their lengths; the contracts of the
//! operators speak of that view and of the contents of the output buffer.
use crate::types::{FusedActivation, Padding, PerChannelQuantParam, QuantParam};
use vstd::prelude::*;

verus! {

/// Parameters for a 2D convolution operation.
///
/// Tensor layout: NHWC (batch, height, width, channels).
pub struct Conv2dParams<'a> {
    /// Input tensor data.
    pub input: &'a [i8],
    /// Input tensor shape `[N, H, W, C_in]`.
    pub input_shape: [usize; 4],
    /// Input quantization parameters.
    pub input_quant: QuantParam,
    /// Weight tensor data. Layout: `[C_out, KH, KW, C_in]`.
    pub weights: &'a [i8],
    /// Weight tensor shape `[C_out, KH, KW, C_in]`.
    pub weights_shape: [usize; 4],
    /// Weight quantization parameters (per-tensor).
    pub weights_quant: QuantParam,
    /// Weight scales per output channel, where the tensor has them.
    pub weights_per_channel_quant: Option<PerChannelQuantParam<'a>>,
    /// Optional bias tensor.
    ///
    /// Length must equal `C_out` when `Some`.
    pub bias: Option<&'a [i32]>,
    /// Output tensor buffer, written by the backend.
    pub output: &'a mut [i8],
    /// Output tensor shape `[N, H_out, W_out, C_out]`.
    pub output_shape: [usize; 4],
    /// Output quantization parameters.
    pub output_quant: QuantParam,
    /// Horizontal stride.
    pub stride_w: i32,
    /// Vertical stride.
    pub stride_h: i32,
    /// Horizontal dilation factor (1 = no dilation).
    pub dilation_w_factor: i32,
    /// Vertical dilation factor (1 = no dilation).
    pub dilation_h_factor: i32,
    /// Padding mode.
    pub padding: Padding,
    /// Fused activation function applied to the output.
    pub activation: FusedActivation,
    /// Scratch buffer for intermediate computation.
    ///
    /// Pass an empty slice if the backend does not require scratch memory.
    pub scratch: &'a mut [u8],
}

/// What a 2D convolution is given.
pub struct Conv2dArgs {
    pub input: Seq<i8>,
    pub input_shape: [usize; 4],
    pub input_quant: QuantParam,
    pub weights: Seq<i8>,
    pub weights_shape: [usize; 4],
    pub weights_quant: QuantParam,
    pub channel_scales: Option<Seq<u32>>,
    pub bias: Option<Seq<i32>>,
    pub output_len: nat,
    pub output_shape: [usize; 4],
    pub output_quant: QuantParam,
    pub stride_w: i32,
    pub stride_h: i32,
    pub dilation_w_factor: i32,
    pub dilation_h_factor: i32,
    pub padding: Padding,
    pub activation: FusedActivation,
    pub scratch_len: nat,
}

impl<'a> View for Conv2dParams<'a> {
    type V = Conv2dArgs;

    open spec fn view(&self) -> Conv2dArgs {
        Conv2dArgs {
            input: self.input@,
            input_shape: self.input_shape,
            input_quant: self.input_quant,
            weights: self.weights@,
            weights_shape: self.weights_shape,
            weights_quant: self.weights_quant,
            channel_scales: crate::quantize::scales_view(self.weights_per_channel_quant),
            bias: crate::shape::bias_view(self.bias),
            output_len: self.output@.len(),
            output_shape: self.output_shape,
            output_quant: self.output_quant,
            stride_w: self.stride_w,
            stride_h: self.stride_h,
            dilation_w_factor: self.dilation_w_factor,
            dilation_h_factor: self.dilation_h_factor,
            padding: self.padding,
            activation: self.activation,
            scratch_len: self.scratch@.len(),
        }
    }
}

/// Parameters for a depthwise 2D convolution operation.
///
/// Tensor layout: NHWC (batch, height, width, channels).
pub struct DepthwiseConv2dParams<'a> {
    /// Input tensor data.
    pub input: &'a [i8],
    /// Input tensor shape `[N, H, W, C_in]`.
    pub input_shape: [usize; 4],
    /// Input quantization parameters.
    pub input_quant: QuantParam,
    /// Weight tensor data. Layout: `[1, KH, KW, C_out]` or
    /// `[KH, KW, C_in, multiplier]`.
    pub weights: &'a [i8],
    /// Weight tensor shape.
    pub weights_shape: [usize; 4],
    /// Weight quantization parameters (per-tensor).
    pub weights_quant: QuantParam,
    /// Weight scales per output channel, where the tensor has them.
    pub weights_per_channel_quant: Option<PerChannelQuantParam<'a>>,
    /// Optional bias tensor.
    ///
    /// Length must equal `C_out` when `Some`.
    pub bias: Option<&'a [i32]>,
    /// Output tensor buffer, written by the backend.
    pub output: &'a mut [i8],
    /// Output tensor shape `[N, H_out, W_out, C_out]`.
    pub output_shape: [usize; 4],
    /// Output quantization parameters.
    pub output_quant: QuantParam,
    /// Horizontal stride.
    pub stride_w: i32,
    /// Vertical stride.
    pub stride_h: i32,
    /// Horizontal dilation factor (1 = no dilation).
    pub dilation_w_factor: i32,
    /// Vertical dilation factor (1 = no dilation).
    pub dilation_h_factor: i32,
    /// The number of output channels per input channel.
    pub depth_multiplier: i32,
    /// Padding mode.
    pub padding: Padding,
    /// Fused activation function applied to the output.
    pub activation: FusedActivation,
    /// Scratch buffer for intermediate computation.
    pub scratch: &'a mut [u8],
}

/// What a depthwise 2D convolution is given.
pub struct DepthwiseConv2dArgs {
    pub input: Seq<i8>,
    pub input_shape: [usize; 4],
    pub input_quant: QuantParam,
    pub weights: Seq<i8>,
    pub weights_shape: [usize; 4],
    pub weights_quant: QuantParam,
    pub channel_scales: Option<Seq<u32>>,
    pub bias: Option<Seq<i32>>,
    pub output_len: nat,
    pub output_shape: [usize; 4],
    pub output_quant: QuantParam,
    pub stride_w: i32,
    pub stride_h: i32,
    pub dilation_w_factor: i32,
    pub dilation_h_factor: i32,
    pub depth_multiplier: i32,
    pub padding: Padding,
    pub activation: FusedActivation,
    pub scratch_len: nat,
}

impl<'a> View for DepthwiseConv2dParams<'a> {
    type V = DepthwiseConv2dArgs;

    open spec fn view(&self) -> DepthwiseConv2dArgs {
        DepthwiseConv2dArgs {
            input: self.input@,
            input_shape: self.input_shape,
            input_quant: self.input_quant,
            weights: self.weights@,
            weights_shape: self.weights_shape,
            weights_quant: self.weights_quant,
            channel_scales: crate::quantize::scales_view(self.weights_per_channel_quant),
            bias: crate::shape::bias_view(self.bias),
            output_len: self.output@.len(),
            output_shape: self.output_shape,
            output_quant: self.output_quant,
            stride_w: self.stride_w,
            stride_h: self.stride_h,
            dilation_w_factor: self.dilation_w_factor,
            dilation_h_factor: self.dilation_h_factor,
            depth_multiplier: self.depth_multiplier,
            padding: self.padding,
            activation: self.activation,
            scratch_len: self.scratch@.len(),
        }
    }
}

/// Parameters for a fully-connected (dense) layer.
pub struct FullyConnectedParams<'a> {
    /// Input tensor data.
    pub input: &'a [i8],
    /// Input quantization parameters.
    pub input_quant: QuantParam,
    /// Weight tensor data. Layout: `[output_depth, input_depth]`.
    pub weights: &'a [i8],
    /// Weight tensor shape `[output_depth, input_depth]`.
    pub weights_shape: [usize; 2],
    /// Weight quantization parameters (per-tensor).
    pub weights_quant: QuantParam,
    /// Weight scales per output channel, where the tensor has them.
    pub weights_per_channel_quant: Option<PerChannelQuantParam<'a>>,
    /// Optional bias tensor.
    pub bias: Option<&'a [i32]>,
    /// Output tensor buffer, written by the backend.
    pub output: &'a mut [i8],
    /// Number of output neurons.
    pub output_depth: usize,
    /// Output quantization parameters.
    pub output_quant: QuantParam,
    /// Fused activation function applied to the output.
    pub activation: FusedActivation,
}

/// What a fully-connected layer is given.
pub struct FullyConnectedArgs {
    pub input: Seq<i8>,
    pub input_quant: QuantParam,
    pub weights: Seq<i8>,
    pub weights_shape: [usize; 2],
    pub weights_quant: QuantParam,
    pub channel_scales: Option<Seq<u32>>,
    pub bias: Option<Seq<i32>>,
    pub output_len: nat,
    pub output_depth: usize,
    pub output_quant: QuantParam,
    pub activation: FusedActivation,
}

impl<'a> View for FullyConnectedParams<'a> {
    type V = FullyConnectedArgs;

    open spec fn view(&self) -> FullyConnectedArgs {
        FullyConnectedArgs {
            input: self.input@,
            input_quant: self.input_quant,
            weights: self.weights@,
            weights_shape: self.weights_shape,
            weights_quant: self.weights_quant,
            channel_scales: crate::quantize::scales_view(self.weights_per_channel_quant),
            bias: crate::shape::bias_view(self.bias),
            output_len: self.output@.len(),
            output_depth: self.output_depth,
            output_quant: self.output_quant,
            activation: self.activation,
        }
    }
}

/// Parameters for a pooling operation (average or max).
pub struct PoolParams<'a> {
    /// Input tensor data.
    pub input: &'a [i8],
    /// Input tensor shape `[N, H, W, C]`.
    pub input_shape: [usize; 4],
    /// Input quantization parameters.
    pub input_quant: QuantParam,
    /// Output tensor buffer, written by the backend.
    pub output: &'a mut [i8],
    /// Output tensor shape `[N, H_out, W_out, C]`.
    pub output_shape: [usize; 4],
    /// Output quantization parameters.
    pub output_quant: QuantParam,
    /// Horizontal stride.
    pub stride_w: i32,
    /// Vertical stride.
    pub stride_h: i32,
    /// Pooling filter width.
    pub filter_w: i32,
    /// Pooling filter height.
    pub filter_h: i32,
    /// Padding mode.
    pub padding: Padding,
    /// Fused activation function applied to the output.
    pub activation: FusedActivation,
}

/// What a pooling operation is given.
pub struct PoolArgs {
    pub input: Seq<i8>,
    pub input_shape: [usize; 4],
    pub input_quant: QuantParam,
    pub output_len: nat,
    pub output_shape: [usize; 4],
    pub output_quant: QuantParam,
    pub stride_w: i32,
    pub stride_h: i32,
    pub filter_w: i32,
    pub filter_h: i32,
    pub padding: Padding,
    pub activation: FusedActivation,
}

impl<'a> View for PoolParams<'a> {
    type V = PoolArgs;

    open spec fn view(&self) -> PoolArgs {
        PoolArgs {
            input: self.input@,
            input_shape: self.input_shape,
            input_quant: self.input_quant,
            output_len: self.output@.len(),
            output_shape: self.output_shape,
            output_quant: self.output_quant,
            stride_w: self.stride_w,
            stride_h: self.stride_h,
            filter_w: self.filter_w,
            filter_h: self.filter_h,
            padding: self.padding,
            activation: self.activation,
        }
    }
}

/// Parameters for the softmax operation.
pub struct SoftmaxParams<'a> {
    /// Input tensor data.
    pub input: &'a [i8],
    /// Input shape `[batch, num_classes]`.
    pub input_shape: [usize; 2],
    /// Input quantization parameters.
    pub input_quant: QuantParam,
    /// Output tensor buffer, written by the backend.
    pub output: &'a mut [i8],
    /// Output quantization parameters.
    pub output_quant: QuantParam,
    /// Softmax beta parameter (typically one), as the bits of a single.
    pub beta: u32,
    /// The exponential function, as the bits of singles: entry `d` is the
    /// exponential of the argument of an input that lies `d` below the largest
    /// input of its row.
    pub exponentials: &'a [u32],
    /// Scratch buffer for intermediate computation.
    pub scratch: &'a mut [u8],
}

/// What the softmax operation is given.
pub struct SoftmaxArgs {
    pub input: Seq<i8>,
    pub input_shape: [usize; 2],
    pub input_quant: QuantParam,
    pub output_len: nat,
    pub output_quant: QuantParam,
    pub beta: u32,
    pub exponentials: Seq<u32>,
    pub scratch_len: nat,
}

impl<'a> View for SoftmaxParams<'a> {
    type V = SoftmaxArgs;

    open spec fn view(&self) -> SoftmaxArgs {
        SoftmaxArgs {
            input: self.input@,
            input_shape: self.input_shape,
            input_quant: self.input_quant,
            output_len: self.output@.len(),
            output_quant: self.output_quant,
            beta: self.beta,
            exponentials: self.exponentials@,
            scratch_len: self.scratch@.len(),
        }
    }
}

/// Parameters for element-wise addition.
pub struct ElementwiseAddParams<'a> {
    /// First input tensor data.
    pub input1: &'a [i8],
    /// First input quantization parameters.
    pub input1_quant: QuantParam,
    /// Second input tensor data.
    pub input2: &'a [i8],
    /// Second input quantization parameters.
    pub input2_quant: QuantParam,
    /// Output tensor buffer, written by the backend.
    pub output: &'a mut [i8],
    /// Output quantization parameters.
    pub output_quant: QuantParam,
    /// Fused activation function applied to the output.
    pub activation: FusedActivation,
}

/// What an element-wise addition is given.
pub struct ElementwiseAddArgs {
    pub input1: Seq<i8>,
    pub input1_quant: QuantParam,
    pub input2: Seq<i8>,
    pub input2_quant: QuantParam,
    pub output_len: nat,
    pub output_quant: QuantParam,
    pub activation: FusedActivation,
}

impl<'a> View for ElementwiseAddParams<'a> {
    type V = ElementwiseAddArgs;

    open spec fn view(&self) -> ElementwiseAddArgs {
        ElementwiseAddArgs {
            input1: self.input1@,
            input1_quant: self.input1_quant,
            input2: self.input2@,
            input2_quant: self.input2_quant,
            output_len: self.output@.len(),
            output_quant: self.output_quant,
            activation: self.activation,
        }
    }
}

/// Parameters for element-wise multiplication.
///
/// The operands may differ in length: the shorter one is then repeated along the
/// trailing (channel) dimension of the longer one.
pub struct MulParams<'a> {
    /// First input tensor data.
    pub input1: &'a [i8],
    /// First input quantization parameters.
    pub input1_quant: QuantParam,
    /// Second input tensor data.
    pub input2: &'a [i8],
    /// Second input quantization parameters.
    pub input2_quant: QuantParam,
    /// Output tensor buffer, written by the backend.
    pub output: &'a mut [i8],
    /// Output quantization parameters.
    pub output_quant: QuantParam,
    /// Fused activation function applied to the output.
    pub activation: FusedActivation,
}

/// What an element-wise multiplication is given.
pub struct MulArgs {
    pub input1: Seq<i8>,
    pub input1_quant: QuantParam,
    pub input2: Seq<i8>,
    pub input2_quant: QuantParam,
    pub output_len: nat,
    pub output_quant: QuantParam,
    pub activation: FusedActivation,
}

impl<'a> View for MulParams<'a> {
    type V = MulArgs;

    open spec fn view(&self) -> MulArgs {
        MulArgs {
            input1: self.input1@,
            input1_quant: self.input1_quant,
            input2: self.input2@,
            input2_quant: self.input2_quant,
            output_len: self.output@.len(),
            output_quant: self.output_quant,
            activation: self.activation,
        }
    }
}

} // verus!
