use ember_rs::shape::{
    compute_padding, conv_weight_index, depthwise_filter_dims, depthwise_weight_index,
    effective_filter_size, nhwc_cell, nhwc_index, positive_i32_to_usize, product,
    validate_bias, validate_len, Axis, DepthwiseDims,
};
use ember_rs::types::{KernelError, Padding};

#[test]
fn products_count_elements() {
    assert_eq!(product(&[2, 3, 4, 5]), 120);
    assert_eq!(product(&[7, 0]), 0);
    assert_eq!(product::<0>(&[]), 1);
}

#[test]
fn lengths_are_checked() {
    assert_eq!(validate_len(&[1, 2], 2), Ok(()));
    assert_eq!(validate_len(&[1, 2], 3), Err(KernelError::InvalidShape));
    assert_eq!(validate_bias(None, 3), Ok(()));
    assert_eq!(validate_bias(Some(&[1, 2, 3]), 3), Ok(()));
    assert_eq!(
        validate_bias(Some(&[1, 2]), 3),
        Err(KernelError::InvalidShape)
    );
    assert_eq!(positive_i32_to_usize(4), Ok(4));
    assert_eq!(positive_i32_to_usize(0), Err(KernelError::InvalidShape));
    assert_eq!(positive_i32_to_usize(-3), Err(KernelError::InvalidShape));
}

#[test]
fn filters_grow_with_dilation() {
    assert_eq!(effective_filter_size(3, 1), 3);
    assert_eq!(effective_filter_size(3, 2), 5);
    assert_eq!(effective_filter_size(1, 9), 1);
}

#[test]
fn padding_is_split_in_two() {
    assert_eq!(compute_padding(5, 3, 1, Padding::Same), 1);
    assert_eq!(compute_padding(96, 3, 2, Padding::Same), 0);
    assert_eq!(compute_padding(49, 10, 2, Padding::Same), 4);
    assert_eq!(compute_padding(4, 1, 2, Padding::Same), 0);
    assert_eq!(compute_padding(5, 3, 1, Padding::Valid), 0);
}

#[test]
fn positions_and_coordinates_agree() {
    let shape = [2, 3, 4, 5];
    let mut position = 0;
    for batch in 0..2 {
        for y in 0..3 {
            for x in 0..4 {
                for channel in 0..5 {
                    assert_eq!(nhwc_index(batch, y, x, channel, 3, 4, 5), position);
                    assert_eq!(conv_weight_index(batch, y, x, channel, 3, 4, 5), position);
                    let cell = nhwc_cell(shape, position);
                    assert_eq!(
                        (cell.batch, cell.y, cell.x, cell.channel),
                        (batch, y, x, channel)
                    );
                    position += 1;
                }
            }
        }
    }
}

#[test]
fn depthwise_dimensions_are_read_from_both_layouts() {
    assert_eq!(
        depthwise_filter_dims([1, 3, 5, 8], 4, 2),
        Ok(DepthwiseDims {
            filter_h: 3,
            filter_w: 5,
            input_channels: 4,
            depth_multiplier: 2,
            tflite_layout: true,
        })
    );
    assert_eq!(
        depthwise_filter_dims([3, 5, 4, 2], 4, 2),
        Ok(DepthwiseDims {
            filter_h: 3,
            filter_w: 5,
            input_channels: 4,
            depth_multiplier: 2,
            tflite_layout: false,
        })
    );
    let refused = Err(KernelError::InvalidShape);
    assert_eq!(depthwise_filter_dims([1, 3, 5, 8], 0, 2), refused);
    assert_eq!(depthwise_filter_dims([1, 3, 5, 8], 4, 3), refused);
    assert_eq!(depthwise_filter_dims([3, 5, 3, 2], 4, 2), refused);
    assert_eq!(depthwise_filter_dims([3, 5, 4, 1], 4, 2), refused);
}

#[test]
fn depthwise_layouts_put_weights_in_the_same_place() {
    let flat = depthwise_filter_dims([1, 3, 5, 8], 4, 2).unwrap();
    let deep = depthwise_filter_dims([3, 5, 4, 2], 4, 2).unwrap();
    let mut position = 0;
    for y in 0..3 {
        for x in 0..5 {
            for input in 0..4 {
                for multiplier in 0..2 {
                    assert_eq!(depthwise_weight_index(y, x, input, multiplier, flat), position);
                    assert_eq!(depthwise_weight_index(y, x, input, multiplier, deep), position);
                    position += 1;
                }
            }
        }
    }
}

#[test]
fn windows_skip_padding() {
    let axis = Axis::new(5, 3, 1, 1, Padding::Same);
    assert_eq!(axis.input_index(0, 0), None);
    assert_eq!(axis.input_index(0, 1), Some(0));
    assert_eq!(axis.input_index(4, 1), Some(4));
    assert_eq!(axis.input_index(4, 2), None);
    let axis = Axis::new(7, 3, 2, 2, Padding::Valid);
    assert_eq!(axis.input_index(1, 2), Some(6));
    assert_eq!(axis.input_index(2, 2), None);
}

#[test]
fn every_window_of_the_stated_output_size_covers_the_input() {
    for input in 1..12usize {
        for filter in 1..6 {
            for stride in 1..5 {
                let same = Axis::new(input, filter, stride, 1, Padding::Same);
                for out in 0..input.div_ceil(stride) {
                    assert!((0..filter).any(|tap| same.input_index(out, tap).is_some()));
                }
                if filter <= input {
                    let valid = Axis::new(input, filter, stride, 1, Padding::Valid);
                    for out in 0..(input - filter) / stride + 1 {
                        for tap in 0..filter {
                            assert_eq!(valid.input_index(out, tap), Some(out * stride + tap));
                        }
                    }
                }
            }
        }
    }
}
