use ember_rs::backend::KernelBackend;
use ember_rs::params::{
    Conv2dParams, DepthwiseConv2dParams, ElementwiseAddParams, FullyConnectedParams, MulParams,
    PoolParams, SoftmaxParams,
};
use ember_rs::reference::RefBackend;
use ember_rs::softmax::exponent_arguments;
use ember_rs::types::{
    FusedActivation, KernelError, Padding, PerChannelQuantParam, QuantParam, Status,
};

const UNIT_QUANT: QuantParam = QuantParam {
    scale: 0x3f80_0000,
    zero_point: 0,
};

fn exponentials(input_quant: QuantParam, beta: u32) -> Vec<u32> {
    exponent_arguments(input_quant, beta)
        .into_iter()
        .map(|bits| libm::expf(f32::from_bits(bits)).to_bits())
        .collect()
}

#[test]
fn fully_connected_identity_scale() {
    let mut backend = RefBackend;
    let input = [2, -3];
    let weights = [4, 5, -1, 6];
    let mut output = [0; 2];

    backend
        .fully_connected(FullyConnectedParams {
            input: &input,
            input_quant: UNIT_QUANT,
            weights: &weights,
            weights_shape: [2, 2],
            weights_quant: UNIT_QUANT,
            weights_per_channel_quant: None,
            bias: Some(&[1, -2]),
            output: &mut output,
            output_depth: 2,
            output_quant: UNIT_QUANT,
            activation: FusedActivation::Identity,
        })
        .unwrap();

    assert_eq!(output, [-6, -22]);
}

#[test]
fn add_identity_scale() {
    let mut backend = RefBackend;
    let input1 = [1, -2, 3];
    let input2 = [4, 5, -6];
    let mut output = [0; 3];

    backend
        .add(ElementwiseAddParams {
            input1: &input1,
            input1_quant: UNIT_QUANT,
            input2: &input2,
            input2_quant: UNIT_QUANT,
            output: &mut output,
            output_quant: UNIT_QUANT,
            activation: FusedActivation::Identity,
        })
        .unwrap();

    assert_eq!(output, [5, 3, -3]);
}

#[test]
fn avg_pool_valid() {
    let mut backend = RefBackend;
    let input = [1, 3, 5, 7];
    let mut output = [0; 1];

    backend
        .avg_pool(PoolParams {
            input: &input,
            input_shape: [1, 2, 2, 1],
            input_quant: UNIT_QUANT,
            output: &mut output,
            output_shape: [1, 1, 1, 1],
            output_quant: UNIT_QUANT,
            stride_w: 1,
            stride_h: 1,
            filter_w: 2,
            filter_h: 2,
            padding: Padding::Valid,
            activation: FusedActivation::Identity,
        })
        .unwrap();

    assert_eq!(output, [4]);
}

#[test]
fn conv2d_single_filter_valid() {
    let mut backend = RefBackend;
    let input = [1, 2, 3, 4];
    let weights = [1, 0, 0, 1];
    let mut output = [0; 1];

    backend
        .conv2d(Conv2dParams {
            input: &input,
            input_shape: [1, 2, 2, 1],
            input_quant: UNIT_QUANT,
            weights: &weights,
            weights_shape: [1, 2, 2, 1],
            weights_quant: UNIT_QUANT,
            weights_per_channel_quant: None,
            bias: None,
            output: &mut output,
            output_shape: [1, 1, 1, 1],
            output_quant: UNIT_QUANT,
            stride_w: 1,
            stride_h: 1,
            dilation_w_factor: 1,
            dilation_h_factor: 1,
            padding: Padding::Valid,
            activation: FusedActivation::Identity,
            scratch: &mut [],
        })
        .unwrap();

    assert_eq!(output, [5]);
}

#[test]
fn depthwise_accepts_tflite_filter_layout() {
    let mut backend = RefBackend;
    let input = [1, 2, 3, 4];
    let weights = [1, 0, 0, 1];
    let mut output = [0; 1];

    backend
        .depthwise_conv2d(DepthwiseConv2dParams {
            input: &input,
            input_shape: [1, 2, 2, 1],
            input_quant: UNIT_QUANT,
            weights: &weights,
            weights_shape: [1, 2, 2, 1],
            weights_quant: UNIT_QUANT,
            weights_per_channel_quant: None,
            bias: None,
            output: &mut output,
            output_shape: [1, 1, 1, 1],
            output_quant: UNIT_QUANT,
            stride_w: 1,
            stride_h: 1,
            dilation_w_factor: 1,
            dilation_h_factor: 1,
            depth_multiplier: 1,
            padding: Padding::Valid,
            activation: FusedActivation::Identity,
            scratch: &mut [],
        })
        .unwrap();

    assert_eq!(output, [5]);
}

#[test]
fn softmax_outputs_probability_distribution() {
    let mut backend = RefBackend;
    let input = [0, 0];
    let mut output = [0; 2];
    let input_quant = QuantParam {
        scale: 1.0f32.to_bits(),
        zero_point: 0,
    };
    let beta = 1.0f32.to_bits();

    backend
        .softmax(SoftmaxParams {
            input: &input,
            input_shape: [1, 2],
            input_quant,
            output: &mut output,
            output_quant: QuantParam {
                scale: (1.0f32 / 256.0).to_bits(),
                zero_point: -128,
            },
            beta,
            exponentials: &exponentials(input_quant, beta),
            scratch: &mut [],
        })
        .unwrap();

    assert_eq!(output, [0, 0]);
}

fn quant(scale: f32, zero_point: i32) -> QuantParam {
    QuantParam {
        scale: scale.to_bits(),
        zero_point,
    }
}

/// A conv2d call with a 3x3 input, one channel and unit scales.
fn conv(
    weights: &[i8],
    weights_shape: [usize; 4],
    output: &mut [i8],
    output_shape: [usize; 4],
    stride: i32,
    dilation: i32,
    padding: Padding,
) -> Status {
    RefBackend.conv2d(Conv2dParams {
        input: &[1, 2, 3, 4, 5, 6, 7, 8, 9],
        input_shape: [1, 3, 3, 1],
        input_quant: UNIT_QUANT,
        weights,
        weights_shape,
        weights_quant: UNIT_QUANT,
        weights_per_channel_quant: None,
        bias: None,
        output,
        output_shape,
        output_quant: UNIT_QUANT,
        stride_w: stride,
        stride_h: stride,
        dilation_w_factor: dilation,
        dilation_h_factor: dilation,
        padding,
        activation: FusedActivation::Identity,
        scratch: &mut [],
    })
}

#[test]
fn conv2d_pads_with_nothing() {
    let mut output = [0; 9];
    let status = conv(
        &[1; 9],
        [1, 3, 3, 1],
        &mut output,
        [1, 3, 3, 1],
        1,
        1,
        Padding::Same,
    );
    assert_eq!(status, Ok(()));
    assert_eq!(output, [12, 21, 16, 27, 45, 33, 24, 39, 28]);
}

#[test]
fn conv2d_strides_and_dilates() {
    let mut output = [0; 4];
    let status = conv(
        &[1],
        [1, 1, 1, 1],
        &mut output,
        [1, 2, 2, 1],
        2,
        1,
        Padding::Valid,
    );
    assert_eq!(status, Ok(()));
    assert_eq!(output, [1, 3, 7, 9]);
    let mut output = [0; 1];
    let status = conv(
        &[1, 10, 0, -1],
        [1, 2, 2, 1],
        &mut output,
        [1, 1, 1, 1],
        1,
        2,
        Padding::Valid,
    );
    assert_eq!(status, Ok(()));
    assert_eq!(output, [1 + 30 - 9]);
}

#[test]
fn conv2d_refuses_shapes_that_disagree() {
    let refused = Err(KernelError::InvalidShape);
    let mut output = [55; 9];
    let same = Padding::Same;
    // Weights too short, output too short, other input channels, other output channels.
    assert_eq!(conv(&[1; 8], [1, 3, 3, 1], &mut output, [1, 3, 3, 1], 1, 1, same), refused);
    assert_eq!(conv(&[1; 9], [1, 3, 3, 1], &mut output, [1, 3, 2, 1], 1, 1, same), refused);
    assert_eq!(conv(&[1; 18], [1, 3, 3, 2], &mut output, [1, 3, 3, 1], 1, 1, same), refused);
    assert_eq!(conv(&[1; 9], [1, 3, 3, 1], &mut output, [1, 3, 1, 3], 1, 1, same), refused);
    assert_eq!(conv(&[1; 9], [1, 3, 3, 1], &mut output, [3, 3, 1, 1], 1, 1, same), refused);
    // Stride and dilation must be positive.
    assert_eq!(conv(&[1; 9], [1, 3, 3, 1], &mut output, [1, 3, 3, 1], 0, 1, same), refused);
    assert_eq!(conv(&[1; 9], [1, 3, 3, 1], &mut output, [1, 3, 3, 1], 1, -1, same), refused);
    assert_eq!(output, [55; 9]);
}

#[test]
fn conv2d_scales_each_channel() {
    let mut output = [0; 3];
    let scales = [0.5f32.to_bits(), 2.0f32.to_bits()];
    RefBackend
        .conv2d(Conv2dParams {
            input: &[10, -3],
            input_shape: [1, 1, 1, 2],
            input_quant: quant(1.0, -2),
            weights: &[1, 0, 0, 1, 1, 1],
            weights_shape: [3, 1, 1, 2],
            weights_quant: quant(4.0, 0),
            weights_per_channel_quant: Some(PerChannelQuantParam { scales: &scales }),
            bias: Some(&[1, 2, 3]),
            output: &mut output,
            output_shape: [1, 1, 1, 3],
            output_quant: quant(1.0, 5),
            stride_w: 1,
            stride_h: 1,
            dilation_w_factor: 1,
            dilation_h_factor: 1,
            padding: Padding::Valid,
            activation: FusedActivation::Relu,
            scratch: &mut [],
        })
        .unwrap();
    // 13 / 2 rounded up; 1 * 2; the third channel falls back to the tensor scale.
    assert_eq!(output, [7 + 5, 2 + 5, 14 * 4 + 5]);
}

#[test]
fn conv2d_bias_must_fit() {
    let mut output = [9; 1];
    let status = RefBackend.conv2d(Conv2dParams {
        input: &[1],
        input_shape: [1, 1, 1, 1],
        input_quant: UNIT_QUANT,
        weights: &[1],
        weights_shape: [1, 1, 1, 1],
        weights_quant: UNIT_QUANT,
        weights_per_channel_quant: None,
        bias: Some(&[1, 2]),
        output: &mut output,
        output_shape: [1, 1, 1, 1],
        output_quant: UNIT_QUANT,
        stride_w: 1,
        stride_h: 1,
        dilation_w_factor: 1,
        dilation_h_factor: 1,
        padding: Padding::Valid,
        activation: FusedActivation::Identity,
        scratch: &mut [],
    });
    assert_eq!(status, Err(KernelError::InvalidShape));
    assert_eq!(output, [9]);
}

fn depthwise(
    weights_shape: [usize; 4],
    depth_multiplier: i32,
    output: &mut [i8],
    output_channels: usize,
) -> Status {
    let input: Vec<i8> = (0..3 * 3 * 2).map(|i| (i * 5 % 13 - 6) as i8).collect();
    let weights: Vec<i8> = (0..2 * 3 * 2 * 2).map(|i| (i * 7 % 11 - 5) as i8).collect();
    RefBackend.depthwise_conv2d(DepthwiseConv2dParams {
        input: &input,
        input_shape: [1, 3, 3, 2],
        input_quant: quant(0.5, 1),
        weights: &weights,
        weights_shape,
        weights_quant: quant(0.25, 0),
        weights_per_channel_quant: None,
        bias: Some(&[1, -1, 2, -2]),
        output,
        output_shape: [1, 3, 3, output_channels],
        output_quant: quant(0.3, -4),
        stride_w: 1,
        stride_h: 1,
        dilation_w_factor: 1,
        dilation_h_factor: 1,
        depth_multiplier,
        padding: Padding::Same,
        activation: FusedActivation::Identity,
        scratch: &mut [],
    })
}

#[test]
fn depthwise_layouts_give_the_same_output() {
    let mut deep = [0; 36];
    let mut flat = [0; 36];
    assert_eq!(depthwise([2, 3, 2, 2], 2, &mut deep, 4), Ok(()));
    assert_eq!(depthwise([1, 2, 3, 4], 2, &mut flat, 4), Ok(()));
    assert_eq!(deep, flat);
    assert_ne!(deep, [0; 36]);
}

#[test]
fn depthwise_refuses_channels_that_disagree() {
    let refused = Err(KernelError::InvalidShape);
    let mut output = [3; 36];
    assert_eq!(depthwise([2, 3, 2, 2], 0, &mut output, 4), refused);
    assert_eq!(depthwise([2, 3, 2, 2], 3, &mut output, 4), refused);
    assert_eq!(depthwise([1, 2, 3, 4], 3, &mut output, 4), refused);
    assert_eq!(depthwise([2, 3, 4, 1], 1, &mut output, 4), refused);
    let mut short = [3; 18];
    assert_eq!(depthwise([2, 3, 2, 2], 2, &mut short, 2), refused);
    assert_eq!(output, [3; 36]);
}

#[test]
fn fully_connected_refuses_shapes_that_disagree() {
    let run = |input: &[i8], weights: &[i8], shape, bias: Option<&[i32]>, depth| {
        let mut output = [1; 2];
        let status = RefBackend.fully_connected(FullyConnectedParams {
            input,
            input_quant: UNIT_QUANT,
            weights,
            weights_shape: shape,
            weights_quant: UNIT_QUANT,
            weights_per_channel_quant: None,
            bias,
            output: &mut output,
            output_depth: depth,
            output_quant: UNIT_QUANT,
            activation: FusedActivation::Identity,
        });
        if status.is_err() {
            assert_eq!(output, [1; 2]);
        }
        status
    };
    let refused = Err(KernelError::InvalidShape);
    assert_eq!(run(&[1], &[1, 2], [2, 1], None, 2), Ok(()));
    assert_eq!(run(&[1], &[1, 2], [2, 1], None, 3), refused);
    assert_eq!(run(&[1], &[1, 2], [1, 2], None, 2), refused);
    assert_eq!(run(&[1], &[1, 2, 3], [2, 1], None, 2), refused);
    assert_eq!(run(&[1, 2], &[1, 2], [2, 1], None, 2), refused);
    assert_eq!(run(&[1], &[1, 2], [2, 1], Some(&[1]), 2), refused);
}

#[test]
fn fully_connected_accumulator_saturates() {
    let mut output = [0; 1];
    RefBackend
        .fully_connected(FullyConnectedParams {
            input: &[127, -128],
            input_quant: UNIT_QUANT,
            weights: &[127, 127],
            weights_shape: [1, 2],
            weights_quant: UNIT_QUANT,
            weights_per_channel_quant: None,
            bias: Some(&[i32::MAX]),
            output: &mut output,
            output_depth: 1,
            output_quant: quant(2147483648.0, 0),
            activation: FusedActivation::Identity,
        })
        .unwrap();
    // The sum saturates before 16256 is taken away; the result rounds to one.
    assert_eq!(output, [1]);
}

fn pool_params<'a>(
    input: &'a [i8],
    output: &'a mut [i8],
    output_shape: [usize; 4],
    stride: i32,
    filter: i32,
    padding: Padding,
) -> PoolParams<'a> {
    PoolParams {
        input,
        input_shape: [1, 3, 3, 1],
        input_quant: UNIT_QUANT,
        output,
        output_shape,
        output_quant: UNIT_QUANT,
        stride_w: stride,
        stride_h: stride,
        filter_w: filter,
        filter_h: filter,
        padding,
        activation: FusedActivation::Identity,
    }
}

#[test]
fn pooling_reduces_what_a_window_covers() {
    let input = [1, -2, 3, 4, 5, -6, 7, 8, 9];
    let mut output = [0; 4];
    let params = pool_params(&input, &mut output, [1, 2, 2, 1], 2, 2, Padding::Same);
    assert_eq!(RefBackend.max_pool(params), Ok(()));
    assert_eq!(output, [5, 3, 8, 9]);
    let params = pool_params(&input, &mut output, [1, 2, 2, 1], 2, 2, Padding::Same);
    assert_eq!(RefBackend.avg_pool(params), Ok(()));
    // 8 / 4, -3 / 2 away from zero, 15 / 2 away from zero, 9.
    assert_eq!(output, [2, -2, 8, 9]);
}

#[test]
fn pooling_stops_at_a_window_of_padding_alone() {
    let input = [1, 2, 3, 4, 5, 6, 7, 8, 9];
    let mut output = [77; 9];
    let params = pool_params(&input, &mut output, [1, 3, 3, 1], 2, 2, Padding::Valid);
    assert_eq!(RefBackend.max_pool(params), Err(KernelError::InvalidShape));
    assert_eq!(output, [5, 6, 77, 77, 77, 77, 77, 77, 77]);
}

#[test]
fn pooling_refuses_attributes() {
    let input = [1, 2, 3, 4, 5, 6, 7, 8, 9];
    let refused = Err(KernelError::InvalidShape);
    let mut output = [7; 4];
    let valid = Padding::Valid;
    let params = pool_params(&input, &mut output, [1, 2, 2, 1], 0, 2, valid);
    assert_eq!(RefBackend.avg_pool(params), refused);
    let params = pool_params(&input, &mut output, [1, 2, 2, 1], 1, 0, valid);
    assert_eq!(RefBackend.avg_pool(params), refused);
    let params = pool_params(&input, &mut output, [1, 2, 1, 2], 1, 2, valid);
    assert_eq!(RefBackend.avg_pool(params), refused);
    let params = pool_params(&input, &mut output, [2, 2, 1, 1], 1, 2, valid);
    assert_eq!(RefBackend.avg_pool(params), refused);
    let params = pool_params(&input[1..], &mut output, [1, 2, 2, 1], 1, 2, valid);
    assert_eq!(RefBackend.avg_pool(params), refused);
    let params = pool_params(&input, &mut output, [1, 2, 3, 1], 1, 2, valid);
    assert_eq!(RefBackend.avg_pool(params), refused);
    assert_eq!(output, [7; 4]);
}

/// Softmax over rows of three classes.
fn run_softmax(input: &[i8], output: &mut [i8], scale: f32, beta: f32) -> Status {
    let input_quant = quant(scale, 3);
    let rows = input.len() / 3;
    RefBackend.softmax(SoftmaxParams {
        input,
        input_shape: [rows, 3],
        input_quant,
        output,
        output_quant: quant(1.0 / 256.0, -128),
        beta: beta.to_bits(),
        exponentials: &exponentials(input_quant, beta.to_bits()),
        scratch: &mut [],
    })
}

#[test]
fn softmax_matches_floating_point() {
    let input: Vec<i8> = (0..60).map(|i| ((i * 37) % 256 - 128) as i8).collect();
    let mut output = vec![0; 60];
    for (scale, beta) in [(0.02f32, 1.0f32), (0.1, 0.7), (1.0, 1.0)] {
        assert_eq!(run_softmax(&input, &mut output, scale, beta), Ok(()));
        for (row, result) in input.chunks(3).zip(output.chunks(3)) {
            let max = *row.iter().max().unwrap() as i32;
            let mut sum = 0.0f32;
            let mut exps = vec![];
            for &value in row {
                let exp = libm::expf((value as i32 - max) as f32 * scale * beta);
                exps.push(exp);
                sum += exp;
            }
            for (exp, &value) in exps.iter().zip(result) {
                let level = libm::roundf(exp / sum / (1.0f32 / 256.0)) as i32 - 128;
                assert_eq!(value as i32, level.clamp(-128, 127));
            }
        }
    }
}

#[test]
fn softmax_depends_on_distances_alone() {
    let input = [10, 20, 30, -7, -7, 5];
    let moved = [-60, -50, -40, 98, 98, 110];
    let (mut left, mut right) = ([0; 6], [0; 6]);
    assert_eq!(run_softmax(&input, &mut left, 0.05, 1.0), Ok(()));
    assert_eq!(run_softmax(&moved, &mut right, 0.05, 1.0), Ok(()));
    assert_eq!(left, right);
    assert_eq!(left[3], left[4]);
}

#[test]
fn softmax_probabilities_add_up_and_keep_order() {
    let input: Vec<i8> = (0..90).map(|i| ((i * 53) % 256 - 128) as i8).collect();
    let mut output = vec![0; 90];
    assert_eq!(run_softmax(&input, &mut output, 0.03, 1.0), Ok(()));
    for (row, result) in input.chunks(3).zip(output.chunks(3)) {
        let sum: i32 = result.iter().map(|&level| level as i32 + 128).sum();
        assert!((sum - 256).abs() <= 3);
        for i in 0..3 {
            for j in 0..3 {
                if row[i] <= row[j] {
                    assert!(result[i] <= result[j]);
                }
            }
        }
    }
}

#[test]
fn softmax_succeeds_on_rows_far_apart() {
    // All but the largest exponential vanish, which is enough for a sum.
    let input = [-128, -128, 127, 127, -128, 127];
    let mut output = [0; 6];
    assert_eq!(run_softmax(&input, &mut output, 10.0, 1.0), Ok(()));
    assert_eq!(output, [-128, -128, 127, 0, -128, 0]);
}

#[test]
fn softmax_refuses_lengths_and_empty_rows() {
    let mut output = [1; 4];
    let input_quant = quant(1.0, 0);
    let table = exponentials(input_quant, 1.0f32.to_bits());
    let mut run = |input: &[i8], shape, table: &[u32]| {
        RefBackend.softmax(SoftmaxParams {
            input,
            input_shape: shape,
            input_quant,
            output: &mut output[..input.len()],
            output_quant: quant(1.0 / 256.0, -128),
            beta: 1.0f32.to_bits(),
            exponentials: table,
            scratch: &mut [],
        })
    };
    assert_eq!(run(&[0, 0], [1, 3], &table), Err(KernelError::InvalidShape));
    // Where no input is looked up, no table is needed.
    assert_eq!(run(&[0, 0], [1, 3], &[]), Err(KernelError::InvalidShape));
    assert_eq!(run(&[], [2, 0], &[]), Err(KernelError::InternalError));
    assert_eq!(run(&[], [0, 5], &[]), Ok(()));
    assert_eq!(run(&[], [2, 0], &table), Err(KernelError::InternalError));
    assert_eq!(run(&[], [0, 5], &table), Ok(()));
    // A row whose exponentials are all zero ends the operator; earlier rows stay.
    let mut vanishing = table.clone();
    vanishing[0] = 0;
    assert_eq!(run(&[0, -5, 9, 9], [2, 2], &vanishing), Err(KernelError::InternalError));
    assert_eq!(output, [-128, 127, 1, 1]);
}

/// The result of an element-wise operator in floating point.
fn float_result(value: f32, output: QuantParam) -> i8 {
    let level = libm::roundf(value / f32::from_bits(output.scale)) as i32 + output.zero_point;
    level.clamp(-128, 127) as i8
}

fn real_value(value: i8, quant: QuantParam) -> f32 {
    (value as i32 - quant.zero_point) as f32 * f32::from_bits(quant.scale)
}

#[test]
fn addition_matches_floating_point_and_commutes() {
    let input1: Vec<i8> = (-128..=127).collect();
    let input2: Vec<i8> = (0..256).map(|i| (i * 91 % 256 - 128) as i8).collect();
    let (q1, q2, q3) = (quant(0.013, 5), quant(0.37, -100), quant(0.21, 17));
    let (mut left, mut right) = (vec![0; 256], vec![0; 256]);
    let mut run = |a: &[i8], qa, b: &[i8], qb, output: &mut [i8]| {
        RefBackend.add(ElementwiseAddParams {
            input1: a,
            input1_quant: qa,
            input2: b,
            input2_quant: qb,
            output,
            output_quant: q3,
            activation: FusedActivation::Identity,
        })
    };
    assert_eq!(run(&input1, q1, &input2, q2, &mut left), Ok(()));
    assert_eq!(run(&input2, q2, &input1, q1, &mut right), Ok(()));
    for i in 0..256 {
        let expected = float_result(real_value(input1[i], q1) + real_value(input2[i], q2), q3);
        assert_eq!(left[i], expected);
    }
    assert_eq!(left, right);
    let refused = Err(KernelError::InvalidShape);
    assert_eq!(run(&input1[1..], q1, &input2, q2, &mut left), refused);
    assert_eq!(run(&input1, q1, &input2, q2, &mut left[1..]), refused);
    assert_eq!(left, right);
}

fn run_mul(
    a: &[i8],
    qa: QuantParam,
    b: &[i8],
    qb: QuantParam,
    output: &mut [i8],
    output_quant: QuantParam,
) -> Status {
    RefBackend.mul(MulParams {
        input1: a,
        input1_quant: qa,
        input2: b,
        input2_quant: qb,
        output,
        output_quant,
        activation: FusedActivation::Identity,
    })
}

#[test]
fn multiplication_repeats_the_shorter_operand_and_commutes() {
    let dense: Vec<i8> = (-128..=127).collect();
    let channels = [3i8, -100, 77, 0];
    let (q1, q2, q3) = (quant(0.11, -3), quant(0.05, 9), quant(0.4, -1));
    let (mut left, mut right) = (vec![0; 256], vec![0; 256]);
    assert_eq!(run_mul(&dense, q1, &channels, q2, &mut left, q3), Ok(()));
    assert_eq!(run_mul(&channels, q2, &dense, q1, &mut right, q3), Ok(()));
    for i in 0..256 {
        let expected = float_result(real_value(dense[i], q1) * real_value(channels[i % 4], q2), q3);
        assert_eq!(left[i], expected);
    }
    assert_eq!(left, right);

    let other: Vec<i8> = dense.iter().rev().copied().collect();
    assert_eq!(run_mul(&dense, q1, &other, q2, &mut left, q3), Ok(()));
    assert_eq!(run_mul(&other, q2, &dense, q1, &mut right, q3), Ok(()));
    assert_eq!(left, right);
}

#[test]
fn multiplication_refuses_lengths() {
    let q = UNIT_QUANT;
    let refused = Err(KernelError::InvalidShape);
    let mut output = [8; 6];
    assert_eq!(run_mul(&[1; 6], q, &[], q, &mut output, q), refused);
    assert_eq!(run_mul(&[1; 6], q, &[1; 4], q, &mut output, q), refused);
    assert_eq!(run_mul(&[1; 4], q, &[1; 2], q, &mut output, q), refused);
    assert_eq!(output, [8; 6]);
}

#[test]
fn results_do_not_depend_on_earlier_output() {
    let input = [1, -2, 3, 4, 5, -6, 7, 8, 9];
    let (mut left, mut right) = ([0; 4], [99; 4]);
    let params = pool_params(&input, &mut left, [1, 2, 2, 1], 1, 2, Padding::Valid);
    assert_eq!(RefBackend.avg_pool(params), Ok(()));
    let params = pool_params(&input, &mut right, [1, 2, 2, 1], 1, 2, Padding::Valid);
    assert_eq!(RefBackend.avg_pool(params), Ok(()));
    assert_eq!(left, right);
}

/// The multiplier and shift of a scale, in floating point.
fn float_multiplier(scale: f64) -> (i64, i32) {
    let mut significand = scale;
    let mut shift = 0i32;
    while significand < 0.5 {
        significand *= 2.0;
        shift -= 1;
    }
    while significand >= 1.0 {
        significand /= 2.0;
        shift += 1;
    }
    let mut q = libm::round(significand * (1i64 << 31) as f64) as i64;
    if q == 1i64 << 31 {
        q /= 2;
        shift += 1;
    }
    (q, shift)
}

fn float_requantize(acc: i32, scale: f32, zero_point: i32) -> i32 {
    let (multiplier, shift) = float_multiplier(scale as f64);
    let total = 31 - shift;
    (((acc as i64 * multiplier) + (1i64 << (total - 1))) >> total) as i32 + zero_point
}

fn pattern(len: usize, step: usize) -> Vec<i8> {
    (0..len).map(|i| ((i * step) % 255) as i32 as u8 as i8).collect()
}

fn padding_before(input: usize, filter: usize, stride: usize, padding: Padding) -> isize {
    match padding {
        Padding::Valid => 0,
        Padding::Same => {
            let out = input.div_ceil(stride);
            (((out - 1) * stride + filter).saturating_sub(input) / 2) as isize
        }
    }
}

fn output_size(input: usize, filter: usize, stride: usize, padding: Padding) -> usize {
    match padding {
        Padding::Valid => (input - filter) / stride + 1,
        Padding::Same => input.div_ceil(stride),
    }
}

#[test]
fn conv2d_matches_plain_loops() {
    let (in_q, w_q, out_q) = (quant(0.07, -9), quant(0.013, 2), quant(0.9, 11));
    let scale = f32::from_bits(in_q.scale) * f32::from_bits(w_q.scale) / f32::from_bits(out_q.scale);
    for (stride, dilation, padding) in [
        (1, 1, Padding::Same),
        (2, 1, Padding::Same),
        (1, 2, Padding::Same),
        (1, 1, Padding::Valid),
        (2, 2, Padding::Valid),
    ] {
        let (n, h, w, c, oc, kh, kw) = (2, 7, 6, 3, 4, 3, 2);
        let (eh, ew) = ((kh - 1) * dilation + 1, (kw - 1) * dilation + 1);
        let (oh, ow) = (
            output_size(h, eh, stride, padding),
            output_size(w, ew, stride, padding),
        );
        let (ph, pw) = (
            padding_before(h, eh, stride, padding),
            padding_before(w, ew, stride, padding),
        );
        let input = pattern(n * h * w * c, 31);
        let weights = pattern(oc * kh * kw * c, 17);
        let bias = [100, -2000, 0, 4321];
        let mut output = vec![0; n * oh * ow * oc];
        RefBackend
            .conv2d(Conv2dParams {
                input: &input,
                input_shape: [n, h, w, c],
                input_quant: in_q,
                weights: &weights,
                weights_shape: [oc, kh, kw, c],
                weights_quant: w_q,
                weights_per_channel_quant: None,
                bias: Some(&bias),
                output: &mut output,
                output_shape: [n, oh, ow, oc],
                output_quant: out_q,
                stride_w: stride as i32,
                stride_h: stride as i32,
                dilation_w_factor: dilation as i32,
                dilation_h_factor: dilation as i32,
                padding,
                activation: FusedActivation::Relu,
                scratch: &mut [],
            })
            .unwrap();
        let mut position = 0;
        for b in 0..n {
            for y in 0..oh {
                for x in 0..ow {
                    for o in 0..oc {
                        let mut acc = bias[o];
                        for fy in 0..kh {
                            for fx in 0..kw {
                                let iy = (y * stride + fy * dilation) as isize - ph;
                                let ix = (x * stride + fx * dilation) as isize - pw;
                                if iy < 0 || iy >= h as isize || ix < 0 || ix >= w as isize {
                                    continue;
                                }
                                for i in 0..c {
                                    let at = ((b * h + iy as usize) * w + ix as usize) * c + i;
                                    let tap = ((o * kh + fy) * kw + fx) * c + i;
                                    acc += (input[at] as i32 + 9) * (weights[tap] as i32 - 2);
                                }
                            }
                        }
                        let value = float_requantize(acc, scale, 11).clamp(11, 127);
                        assert_eq!(output[position] as i32, value);
                        position += 1;
                    }
                }
            }
        }
    }
}

#[test]
fn averages_lie_between_the_extremes() {
    let input = pattern(9, 53);
    let (low, high) = (
        *input.iter().min().unwrap(),
        *input.iter().max().unwrap(),
    );
    for filter in 1..4 {
        for (size, padding) in [(3, Padding::Same), (4 - filter, Padding::Valid)] {
            let mut output = vec![0; (size * size) as usize];
            let shape = [1, size as usize, size as usize, 1];
            let params = pool_params(&input, &mut output, shape, 1, filter, padding);
            assert_eq!(RefBackend.avg_pool(params), Ok(()));
            assert!(output.iter().all(|v| low <= *v && *v <= high));
        }
    }
}
