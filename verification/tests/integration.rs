//! Whole models, run from end to end.
//!
//! No trained model file is part of this crate. The sine, speech and person models
//! here are small networks that this file builds itself, with inputs and outputs of
//! the same sizes; they exercise the whole pipeline, and say nothing of how a trained
//! model classifies its samples.

use ember_rs::model::{
    Buffer, Model, Operator, OperatorCode, Options, Quantization, SubGraph, Tensor,
};
use ember_rs::layer::Plan;
use ember_rs::plan::compile;
use ember_rs::reference::RefBackend;

const INT8: i8 = 9;
const INT32: i8 = 2;

const ADD: i8 = 0;
const AVERAGE_POOL_2D: i8 = 1;
const CONV_2D: i8 = 3;
const DEPTHWISE_CONV_2D: i8 = 4;
const FULLY_CONNECTED: i8 = 9;
const RESHAPE: i8 = 22;
const SOFTMAX: i8 = 25;

const SAME: i8 = 0;
const NONE: i8 = 0;
const RELU: i8 = 1;

/// Collects the tables of a model.
struct Builder {
    codes: Vec<OperatorCode>,
    tensors: Vec<Tensor>,
    buffers: Vec<Buffer>,
    operators: Vec<Operator>,
}

impl Builder {
    fn new() -> Builder {
        Builder {
            codes: vec![],
            tensors: vec![],
            buffers: vec![Buffer { data: None }],
            operators: vec![],
        }
    }

    fn tensor(&mut self, shape: &[i32], scale: f32, zero_point: i64) -> i32 {
        self.typed(shape, scale, zero_point, INT8, 0)
    }

    fn typed(
        &mut self,
        shape: &[i32],
        scale: f32,
        zero_point: i64,
        tensor_type: i8,
        buffer: u32,
    ) -> i32 {
        self.tensors.push(Tensor {
            shape: Some(shape.to_vec()),
            tensor_type,
            buffer,
            quantization: Some(Quantization {
                scale: Some(vec![scale.to_bits()]),
                zero_point: Some(vec![zero_point]),
            }),
        });
        self.tensors.len() as i32 - 1
    }

    fn weights(&mut self, shape: &[i32], scale: f32, values: &[i8]) -> i32 {
        self.buffers.push(Buffer {
            data: Some(values.iter().map(|&v| v as u8).collect()),
        });
        let buffer = self.buffers.len() as u32 - 1;
        self.typed(shape, scale, 0, INT8, buffer)
    }

    fn bias(&mut self, values: &[i32]) -> i32 {
        let mut data = vec![];
        for value in values {
            data.extend_from_slice(&value.to_le_bytes());
        }
        self.buffers.push(Buffer { data: Some(data) });
        let buffer = self.buffers.len() as u32 - 1;
        self.typed(&[values.len() as i32], 1.0, 0, INT32, buffer)
    }

    fn operator(&mut self, code: i8, inputs: &[i32], output: i32, options: Options) {
        self.codes.push(OperatorCode {
            deprecated_builtin_code: code,
            builtin_code: 0,
        });
        self.operators.push(Operator {
            opcode_index: self.codes.len() as u32 - 1,
            inputs: Some(inputs.to_vec()),
            outputs: Some(vec![output]),
            options,
        });
    }

    fn finish(self, input: i32, output: i32) -> Model {
        Model {
            operator_codes: Some(self.codes),
            subgraphs: Some(vec![SubGraph {
                tensors: Some(self.tensors),
                inputs: Some(vec![input]),
                outputs: Some(vec![output]),
                operators: Some(self.operators),
            }]),
            buffers: Some(self.buffers),
        }
    }
}

/// Compiles a model and fills in the exponential function.
fn plan(model: &Model) -> Plan {
    let mut plan = compile(model).unwrap();
    for k in 0..plan.layers.len() {
        if let Some(arguments) = plan.exponent_arguments(k) {
            let values = arguments
                .into_iter()
                .map(|bits| libm::expf(f32::from_bits(bits)).to_bits())
                .collect();
            assert!(plan.set_exponentials(k, values));
        }
    }
    assert!(plan.is_resolved());
    plan
}

/// Sixteen ReLU units that bend a line along the sine curve over one period.
fn sine_model() -> Model {
    let period = 2.0 * core::f32::consts::PI;
    let units = 16;
    let step = period / units as f32;
    let input_scale = period / 255.0;
    let hidden_scale = period / 255.0;
    let weight_scale = 1.0 / 127.0;

    let mut b = Builder::new();
    let input = b.tensor(&[1, 1], input_scale, -128);
    let knots: Vec<i32> = (0..units)
        .map(|i| -(i as f32 * step / (input_scale * weight_scale)).round() as i32)
        .collect();
    let w1 = b.weights(&[units, 1], weight_scale, &vec![127; units as usize]);
    let b1 = b.bias(&knots);
    let hidden = b.tensor(&[1, units], hidden_scale, -128);
    b.operator(
        FULLY_CONNECTED,
        &[input, w1, b1],
        hidden,
        Options::FullyConnected { activation: RELU },
    );

    let slope = |i: i32| ((i as f32 + 1.0) * step).sin() / step - (i as f32 * step).sin() / step;
    let bends: Vec<f32> = (0..units)
        .map(|i| if i == 0 { slope(0) } else { slope(i) - slope(i - 1) })
        .collect();
    let largest = bends.iter().fold(0.0f32, |m, v| m.max(v.abs()));
    let w2_scale = largest / 127.0;
    let w2_values: Vec<i8> = bends.iter().map(|v| (v / w2_scale).round() as i8).collect();
    let w2 = b.weights(&[1, units], w2_scale, &w2_values);
    let output = b.tensor(&[1, 1], 2.0 / 255.0, 0);
    b.operator(
        FULLY_CONNECTED,
        &[hidden, w2, -1],
        output,
        Options::FullyConnected { activation: NONE },
    );
    b.finish(input, output)
}

/// A small keyword spotter: 49 frames of 40 features, four classes.
fn speech_model() -> Model {
    let mut b = Builder::new();
    let input = b.tensor(&[1, 1960], 0.1, -128);
    let frames = b.tensor(&[1, 49, 40, 1], 0.1, -128);
    b.operator(RESHAPE, &[input], frames, Options::Other);
    let taps: Vec<i8> = (0..10 * 8 * 8).map(|i| (i * 37 % 255 - 127) as i8).collect();
    let filter = b.weights(&[1, 10, 8, 8], 0.01, &taps);
    let bias = b.bias(&[0, 10, -10, 20, -20, 30, -30, 40]);
    let features = b.tensor(&[1, 25, 20, 8], 0.2, -128);
    b.operator(
        DEPTHWISE_CONV_2D,
        &[frames, filter, bias],
        features,
        Options::DepthwiseConv2d {
            padding: SAME,
            stride_w: 2,
            stride_h: 2,
            depth_multiplier: 8,
            activation: RELU,
            dilation_w_factor: 1,
            dilation_h_factor: 1,
        },
    );
    let values: Vec<i8> = (0..4 * 4000).map(|i| (i * 11 % 31 - 15) as i8).collect();
    let weights = b.weights(&[4, 4000], 0.01, &values);
    let offsets = b.bias(&[1, 2, 3, 4]);
    let logits = b.tensor(&[1, 4], 0.1, 14);
    b.operator(
        FULLY_CONNECTED,
        &[features, weights, offsets],
        logits,
        Options::FullyConnected { activation: NONE },
    );
    let output = b.tensor(&[1, 4], 1.0 / 256.0, -128);
    b.operator(
        SOFTMAX,
        &[logits],
        output,
        Options::Softmax {
            beta: 1.0f32.to_bits(),
        },
    );
    b.finish(input, output)
}

/// A small image classifier: 96 by 96 pixels, two classes.
fn person_detect_model() -> Model {
    let mut b = Builder::new();
    let input = b.tensor(&[1, 96, 96, 1], 1.0 / 255.0, -128);
    let filter = b.weights(
        &[4, 3, 3, 1],
        0.02,
        &(0..36).map(|i| (i * 29 % 101 - 50) as i8).collect::<Vec<i8>>(),
    );
    let bias = b.bias(&[100, 200, 300, 400]);
    let first = b.tensor(&[1, 48, 48, 4], 0.02, -128);
    b.operator(
        CONV_2D,
        &[input, filter, bias],
        first,
        Options::Conv2d {
            padding: SAME,
            stride_w: 2,
            stride_h: 2,
            activation: 3,
            dilation_w_factor: 1,
            dilation_h_factor: 1,
        },
    );
    let filter = b.weights(
        &[1, 3, 3, 4],
        0.05,
        &(0..36).map(|i| (i * 17 % 61 - 30) as i8).collect::<Vec<i8>>(),
    );
    let second = b.tensor(&[1, 48, 48, 4], 0.02, -128);
    b.operator(
        DEPTHWISE_CONV_2D,
        &[first, filter],
        second,
        Options::DepthwiseConv2d {
            padding: SAME,
            stride_w: 1,
            stride_h: 1,
            depth_multiplier: 1,
            activation: 3,
            dilation_w_factor: 1,
            dilation_h_factor: 1,
        },
    );
    let sum = b.tensor(&[1, 48, 48, 4], 0.04, -128);
    b.operator(
        ADD,
        &[first, second],
        sum,
        Options::Add { activation: NONE },
    );
    let pooled = b.tensor(&[1, 1, 1, 4], 0.04, -128);
    b.operator(
        AVERAGE_POOL_2D,
        &[sum],
        pooled,
        Options::Pool2d {
            padding: 1,
            stride_w: 48,
            stride_h: 48,
            filter_width: 48,
            filter_height: 48,
            activation: NONE,
        },
    );
    let filter = b.weights(&[2, 1, 1, 4], 0.01, &[10, -20, 30, -40, 5, 15, -25, 35]);
    let logits4 = b.tensor(&[1, 1, 1, 2], 0.05, 0);
    b.operator(
        CONV_2D,
        &[pooled, filter, -1],
        logits4,
        Options::Conv2d {
            padding: SAME,
            stride_w: 1,
            stride_h: 1,
            activation: NONE,
            dilation_w_factor: 1,
            dilation_h_factor: 1,
        },
    );
    let logits = b.tensor(&[1, 2], 0.05, 0);
    b.operator(RESHAPE, &[logits4], logits, Options::Other);
    let output = b.tensor(&[1, 2], 1.0 / 256.0, -128);
    b.operator(
        SOFTMAX,
        &[logits],
        output,
        Options::Softmax {
            beta: 1.0f32.to_bits(),
        },
    );
    b.finish(input, output)
}

fn quantize(val: f32, scale: f32, zero_point: i32) -> i8 {
    ((val / scale) + zero_point as f32)
        .round()
        .clamp(i8::MIN as f32, i8::MAX as f32) as i8
}

fn dequantize(val: i8, scale: f32, zero_point: i32) -> f32 {
    (val as i32 - zero_point) as f32 * scale
}

fn assert_sine_close(x: f32, expected: f32) {
    let model = plan(&sine_model());
    let mut backend = RefBackend;
    let q_input = quantize(
        x,
        f32::from_bits(model.input_scale()),
        model.input_zero_point(),
    );
    let input = vec![q_input; model.input_len()];
    let mut output = vec![0i8; model.output_len()];

    model
        .predict_quantized(&mut backend, &input, &mut output)
        .unwrap();

    let result = dequantize(
        output[0],
        f32::from_bits(model.output_scale()),
        model.output_zero_point(),
    );
    assert!(
        (result - expected).abs() < 0.1,
        "expected sin({x}) ~= {expected}, got {result}; q_input={q_input}, q_output={:?}",
        output
    );
}

fn assert_sine_close_with_scratch(x: f32, expected: f32) {
    let model = plan(&sine_model());
    let mut backend = RefBackend;
    let q_input = quantize(
        x,
        f32::from_bits(model.input_scale()),
        model.input_zero_point(),
    );
    let input = vec![q_input; model.input_len()];
    let mut output = vec![0i8; model.output_len()];
    let mut scratch = vec![0u8; model.scratch_len::<RefBackend>()];

    model
        .predict_quantized_with_scratch(&mut backend, &input, &mut output, &mut scratch)
        .unwrap();

    let result = dequantize(
        output[0],
        f32::from_bits(model.output_scale()),
        model.output_zero_point(),
    );
    assert!(
        (result - expected).abs() < 0.1,
        "expected sin({x}) ~= {expected}, got {result}; q_input={q_input}, q_output={:?}",
        output
    );
}

#[test]
fn sine_end_to_end_zero() {
    assert_sine_close(0.0, 0.0);
}

#[test]
fn sine_end_to_end_pi_over_2() {
    assert_sine_close(core::f32::consts::FRAC_PI_2, 1.0);
}

#[test]
fn sine_end_to_end_pi() {
    assert_sine_close(core::f32::consts::PI, 0.0);
}

#[test]
fn integration_sine_end_to_end_zero() {
    assert_sine_close_with_scratch(0.0, 0.0);
}

#[test]
fn integration_sine_end_to_end_pi_over_2() {
    assert_sine_close_with_scratch(core::f32::consts::FRAC_PI_2, 1.0);
}

#[test]
fn integration_sine_end_to_end_pi() {
    assert_sine_close_with_scratch(core::f32::consts::PI, 0.0);
}

#[test]
fn speech_compiles_and_runs() {
    let model = plan(&speech_model());
    let mut backend = RefBackend;
    let input = vec![0i8; model.input_len()];
    let mut output = vec![0i8; model.output_len()];

    model
        .predict_quantized(&mut backend, &input, &mut output)
        .unwrap();

    assert_eq!(output.len(), model.output_len());
    for (index, value) in output.iter().copied().enumerate() {
        let dequantized = dequantize(
            value,
            f32::from_bits(model.output_scale()),
            model.output_zero_point(),
        );
        assert!(
            (-1.0..=1.0).contains(&dequantized),
            "speech output[{index}] out of range: q={value}, dequantized={dequantized}"
        );
    }
}

#[test]
fn person_detect_compiles_and_runs() {
    let model = plan(&person_detect_model());
    let mut backend = RefBackend;
    let input = vec![0i8; model.input_len()];
    let mut output = vec![0i8; model.output_len()];

    model
        .predict_quantized(&mut backend, &input, &mut output)
        .unwrap();

    assert_eq!(output.len(), model.output_len());
}
